//! The logical messages exchanged with clients. Their binary framing lives
//! outside the library.
use vstd::prelude::*;
use vstd::string::*;

verus! {

#[derive(PartialEq, Eq, Structural, Clone, Copy, Debug)]
pub enum GameState {
    Waiting,
    Starting,
    Started,
    Stopped,
    DoesNotExist,
}

#[derive(PartialEq, Eq, Structural, Clone, Copy, Debug)]
pub enum PlayerDataMode {
    Add,
    Remove,
    Me,
}

#[derive(PartialEq, Eq, Structural, Clone, Copy, Debug)]
pub enum StateChange {
    Disconnect,
    Start,
    Skip,
}

/// Why a client is told to leave its game.
#[derive(PartialEq, Eq, Structural, Clone, Copy, Debug)]
pub enum DisconnectReason {
    GameEnded,
    Removed,
}

/// A request that was turned down, and why.
#[derive(PartialEq, Eq, Structural, Clone, Copy, Debug)]
pub enum Failure {
    GameNotFound,
    NameTaken,
    NotAuthorized,
    NotInGame,
    CapacityExceeded,
}

pub open spec fn reason_text(r: DisconnectReason) -> Seq<char> {
    match r {
        DisconnectReason::GameEnded => "Game ended."@,
        DisconnectReason::Removed => "Removed from game."@,
    }
}

pub open spec fn failure_text(f: Failure) -> Seq<char> {
    match f {
        Failure::GameNotFound => "That game code doesn't exist"@,
        Failure::NameTaken => "That name is already in use"@,
        Failure::NotAuthorized => "You are not the host."@,
        Failure::NotInGame => "You are not in a game."@,
        Failure::CapacityExceeded => "No free code is left"@,
    }
}

impl DisconnectReason {
    /// The text shown to the client.
    pub fn text(&self) -> (r: String)
        ensures
            r@ == reason_text(*self),
    {
        match self {
            DisconnectReason::GameEnded => String::from_str("Game ended."),
            DisconnectReason::Removed => String::from_str("Removed from game."),
        }
    }
}

impl Failure {
    /// The human-readable cause shown to the client.
    pub fn cause(&self) -> (r: String)
        ensures
            r@ == failure_text(*self),
    {
        match self {
            Failure::GameNotFound => String::from_str("That game code doesn't exist"),
            Failure::NameTaken => String::from_str("That name is already in use"),
            Failure::NotAuthorized => String::from_str("You are not the host."),
            Failure::NotInGame => String::from_str("You are not in a game."),
            Failure::CapacityExceeded => String::from_str("No free code is left"),
        }
    }
}

/// A question as the host submits it.
#[derive(Debug, PartialEq, Eq)]
pub struct QuestionData {
    pub image_type: String,
    pub image: Vec<u8>,
    pub question: String,
    pub values: Vec<String>,
    pub answers: Vec<u8>,
}

/// Messages from the server to one client.
#[derive(Debug, PartialEq, Eq)]
pub enum ServerPackets {
    Disconnect { reason: DisconnectReason },
    Error { cause: Failure },
    JoinedGame { id: String, owner: bool, title: String },
    NameTakenResult { result: bool },
    GameState { state: GameState },
    PlayerData { id: String, name: String, mode: PlayerDataMode },
    TimeSync { total: u64, remaining: u64 },
}

/// Requests from a client to the server.
#[allow(inconsistent_fields)]
#[derive(Debug, PartialEq, Eq)]
pub enum ClientPackets {
    CreateGame { title: String, questions: Vec<QuestionData> },
    CheckNameTaken { id: String, name: String },
    RequestGameState { id: String },
    RequestJoin { id: String, name: String },
    StateChange { state: StateChange },
    Answer { id: u8 },
    Kick { id: String },
}

impl ServerPackets {
    /// A copy of the message.
    pub fn duplicate(&self) -> (r: ServerPackets)
        ensures
            r == *self,
    {
        match self {
            ServerPackets::Disconnect { reason } => ServerPackets::Disconnect { reason: *reason },
            ServerPackets::Error { cause } => ServerPackets::Error { cause: *cause },
            ServerPackets::JoinedGame { id, owner, title } => ServerPackets::JoinedGame {
                id: id.clone(),
                owner: *owner,
                title: title.clone(),
            },
            ServerPackets::NameTakenResult { result } => ServerPackets::NameTakenResult { result: *result },
            ServerPackets::GameState { state } => ServerPackets::GameState { state: *state },
            ServerPackets::PlayerData { id, name, mode } => ServerPackets::PlayerData {
                id: id.clone(),
                name: name.clone(),
                mode: *mode,
            },
            ServerPackets::TimeSync { total, remaining } => ServerPackets::TimeSync {
                total: *total,
                remaining: *remaining,
            },
        }
    }
}

} // verus!
