//! What one client connection remembers of its place in a game, and how the
//! actions the server addresses to it become frames on its transport.
use vstd::prelude::*;
use crate::game::ClientAction;
use crate::packets::{GameState, ServerPackets};

verus! {

pub struct Connection {
    pub hosting: bool,
    pub player_id: Option<String>,
    pub game_id: Option<String>,
}

impl Connection {
    /// A host is in a game and is no player; a player is in a game and is no
    /// host.
    pub open spec fn wf(self) -> bool {
        &&& self.hosting ==> self.game_id.is_some() && self.player_id.is_none()
        &&& self.player_id.is_some() ==> self.game_id.is_some() && !self.hosting
    }

    pub open spec fn is_empty(self) -> bool {
        !self.hosting && self.player_id.is_none() && self.game_id.is_none()
    }

    /// A connection in no game.
    pub fn new() -> (r: Connection)
        ensures
            r.is_empty(),
            r.wf(),
    {
        Connection { hosting: false, player_id: None, game_id: None }
    }

    /// Applies `action` to the membership record and returns the frames to
    /// write to this connection's transport, in order.
    pub fn handle_action(&mut self, action: ClientAction) -> (frames: Vec<ServerPackets>)
        requires
            old(self).wf(),
        ensures
            final(self).wf(),
            match action {
                ClientAction::CreatedGame { id, title } => {
                    &&& final(self).hosting
                    &&& final(self).game_id == Some(id)
                    &&& final(self).player_id.is_none()
                    &&& frames@ == seq![
                        ServerPackets::JoinedGame { id: id, owner: true, title: title },
                        ServerPackets::GameState { state: GameState::Waiting },
                    ]
                },
                ClientAction::NameTakenResult(result) => {
                    &&& *final(self) == *old(self)
                    &&& frames@ == seq![ServerPackets::NameTakenResult { result: result }]
                },
                ClientAction::Packet(p) => *final(self) == *old(self) && frames@ == seq![p],
                ClientAction::Error(cause) => {
                    &&& *final(self) == *old(self)
                    &&& frames@ == seq![ServerPackets::Error { cause: cause }]
                },
                ClientAction::JoinedGame { id, player_id, title } => {
                    &&& !final(self).hosting
                    &&& final(self).game_id == Some(id)
                    &&& final(self).player_id == Some(player_id)
                    &&& frames@ == seq![ServerPackets::JoinedGame { id: id, owner: false, title: title }]
                },
                ClientAction::Disconnect => final(self).is_empty() && frames@.len() == 0,
            },
    {
        let mut frames: Vec<ServerPackets> = Vec::new();
        match action {
            ClientAction::CreatedGame { id, title } => {
                self.hosting = true;
                self.player_id = None;
                self.game_id = Some(id.clone());
                frames.push(ServerPackets::JoinedGame { id, owner: true, title });
                frames.push(ServerPackets::GameState { state: GameState::Waiting });
            },
            ClientAction::NameTakenResult(result) => {
                frames.push(ServerPackets::NameTakenResult { result });
            },
            ClientAction::Packet(p) => {
                frames.push(p);
            },
            ClientAction::Error(cause) => {
                frames.push(ServerPackets::Error { cause });
            },
            ClientAction::JoinedGame { id, player_id, title } => {
                self.hosting = false;
                self.player_id = Some(player_id);
                self.game_id = Some(id.clone());
                frames.push(ServerPackets::JoinedGame { id, owner: false, title });
            },
            ClientAction::Disconnect => {
                self.hosting = false;
                self.player_id = None;
                self.game_id = None;
            },
        }
        frames
    }
}

} // verus!
