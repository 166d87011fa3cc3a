//! One trivia session: its roster, its lifecycle and the messages it sends.
//!
//! Nothing here touches a transport. Every operation that informs clients
//! appends `Delivery` records to an outbox; the caller hands each one to the
//! connection it names, independently of the others.
use vstd::prelude::*;
use crate::identifier::{random_identifier, is_identifier, ID_LENGTH};
use crate::names::{names_match, same_name};
use crate::packets::{
    DisconnectReason, Failure, GameState, PlayerDataMode, QuestionData, ServerPackets,
};
use crate::timer::GameTimer;

verus! {

/// How long a game stays in `Starting` before it is `Started`, in milliseconds.
pub const START_DELAY: u64 = 5000;

/// How many fresh identifiers are drawn before giving up on finding a free one.
pub const MAX_ID_ATTEMPTS: usize = 64;

/// Which connection a message goes to.
pub type ConnId = u64;

/// What the server asks one connection to do.
#[derive(Debug, PartialEq, Eq)]
pub enum ClientAction {
    CreatedGame { id: String, title: String },
    NameTakenResult(bool),
    Packet(ServerPackets),
    Error(Failure),
    JoinedGame { id: String, player_id: String, title: String },
    Disconnect,
}

/// One action addressed to one connection.
#[derive(Debug, PartialEq, Eq)]
pub struct Delivery {
    pub to: ConnId,
    pub action: ClientAction,
}

pub struct Question {
    pub data: QuestionData,
    pub start_time: Option<u64>,
}

pub struct Player {
    pub id: String,
    pub name: String,
    pub score: u32,
    pub answers: Vec<(u8, u8)>,
    pub answer_time: Option<u64>,
    pub conn: ConnId,
}

pub struct Game {
    pub host: ConnId,
    pub id: String,
    pub title: String,
    pub questions: Vec<Question>,
    pub players: Vec<Player>,
    pub state: GameState,
    pub timer: GameTimer,
}

/// The packet `p` sent to every player of `ps`, in roster order.
pub open spec fn to_players(ps: Seq<Player>, p: ServerPackets) -> Seq<Delivery> {
    ps.map_values(|v: Player| Delivery { to: v.conn, action: ClientAction::Packet(p) })
}

/// The packet `p` sent to every player of `ps` but the one with identifier
/// `ex`, in roster order.
pub open spec fn to_players_except(ps: Seq<Player>, ex: Seq<char>, p: ServerPackets) -> Seq<Delivery>
    decreases ps.len(),
{
    if ps.len() == 0 {
        seq![]
    } else {
        let rest = to_players_except(ps.drop_last(), ex, p);
        if ps.last().id@ == ex {
            rest
        } else {
            rest.push(Delivery { to: ps.last().conn, action: ClientAction::Packet(p) })
        }
    }
}

/// No two players share an identifier or a name.
pub open spec fn roster_wf(ps: Seq<Player>) -> bool {
    &&& forall|i: int, j: int|
        #![trigger ps[i], ps[j]]
        0 <= i < ps.len() && 0 <= j < ps.len() && i != j ==> ps[i].id@ != ps[j].id@
            && !names_match(ps[i].name@, ps[j].name@)
    &&& forall|i: int| 0 <= i < ps.len() ==> answers_wf((#[trigger] ps[i]).answers@)
}

/// A player answers each question at most once: no two answers share a
/// question index.
pub open spec fn answers_wf(a: Seq<(u8, u8)>) -> bool {
    forall|i: int, j: int| #![trigger a[i], a[j]] 0 <= i < a.len() && 0 <= j < a.len() && i != j ==> a[i].0 != a[j].0
}

/// No player holds an identifier of the shape that fresh ones have, so no
/// fresh draw can collide.
pub open spec fn no_identifier_ids(ps: Seq<Player>) -> bool {
    forall|i: int| 0 <= i < ps.len() ==> !is_identifier((#[trigger] ps[i]).id@)
}

pub open spec fn roster_has_id(ps: Seq<Player>, id: Seq<char>) -> bool {
    exists|i: int| 0 <= i < ps.len() && #[trigger] ps[i].id@ == id
}

pub open spec fn roster_has_name(ps: Seq<Player>, name: Seq<char>) -> bool {
    exists|i: int| 0 <= i < ps.len() && names_match(#[trigger] ps[i].name@, name)
}

/// Every player of `ps` described to connection `conn`, in roster order.
pub open spec fn roster_for(ps: Seq<Player>, conn: ConnId) -> Seq<Delivery> {
    ps.map_values(|v: Player| Delivery { to: conn, action: ClientAction::Packet(v.data_spec(PlayerDataMode::Add)) })
}

/// What a join sends: each earlier player and the host learn of the joiner,
/// and the joiner learns of each earlier player and then of itself.
pub open spec fn join_deliveries(ps: Seq<Player>, host: ConnId, q: Player) -> Seq<Delivery> {
    to_players(ps, q.data_spec(PlayerDataMode::Add)) + roster_for(ps, q.conn) + seq![
        Delivery { to: q.conn, action: ClientAction::Packet(q.data_spec(PlayerDataMode::Me)) },
        Delivery { to: host, action: ClientAction::Packet(q.data_spec(PlayerDataMode::Add)) },
    ]
}

/// What a removal sends: the remaining players drop the removed one, who is
/// told why and then told to leave.
pub open spec fn removal_deliveries(rest: Seq<Player>, gone: Player) -> Seq<Delivery> {
    to_players(rest, gone.data_spec(PlayerDataMode::Remove)) + seq![
        Delivery {
            to: gone.conn,
            action: ClientAction::Packet(ServerPackets::Disconnect { reason: DisconnectReason::Removed }),
        },
        Delivery { to: gone.conn, action: ClientAction::Disconnect },
    ]
}

/// A newly made player record.
pub open spec fn fresh_player(p: Player, id: Seq<char>, name: Seq<char>, conn: ConnId) -> bool {
    p.id@ == id && p.name@ == name && p.conn == conn && p.score == 0 && p.answers@.len() == 0
        && p.answer_time.is_none()
}

/// Adding a player whose identifier and name are both new keeps the roster
/// well formed.
pub proof fn lemma_roster_push(ps: Seq<Player>, q: Player)
    requires
        roster_wf(ps),
        !roster_has_id(ps, q.id@),
        !roster_has_name(ps, q.name@),
        answers_wf(q.answers@),
    ensures
        roster_wf(ps.push(q)),
{
    let qs = ps.push(q);
    assert forall|i: int| 0 <= i < qs.len() implies answers_wf((#[trigger] qs[i]).answers@) by {
        if i < ps.len() {
            assert(qs[i] == ps[i]);
        }
    }
    assert forall|i: int, j: int|
        #![trigger qs[i], qs[j]]
        0 <= i < qs.len() && 0 <= j < qs.len() && i != j implies qs[i].id@ != qs[j].id@
            && !names_match(qs[i].name@, qs[j].name@) by {
        if i == ps.len() {
            assert(ps[j] == qs[j]);
            assert(!names_match(ps[j].name@, q.name@));
            crate::names::lemma_names_match_symmetric(qs[i].name@, qs[j].name@);
        } else if j == ps.len() {
            assert(ps[i] == qs[i]);
            assert(!names_match(ps[i].name@, q.name@));
        } else {
            assert(ps[i] == qs[i] && ps[j] == qs[j]);
        }
    }
}

/// Taking a player out keeps the roster well formed.
pub proof fn lemma_roster_remove(ps: Seq<Player>, k: int)
    requires
        roster_wf(ps),
        0 <= k < ps.len(),
    ensures
        roster_wf(ps.remove(k)),
{
    let rs = ps.remove(k);
    assert forall|i: int| 0 <= i < rs.len() implies answers_wf((#[trigger] rs[i]).answers@) by {
        let oi = if i < k { i } else { i + 1 };
        assert(rs[i] == ps[oi]);
    }
    assert forall|i: int, j: int|
        #![trigger rs[i], rs[j]]
        0 <= i < rs.len() && 0 <= j < rs.len() && i != j implies rs[i].id@ != rs[j].id@
            && !names_match(rs[i].name@, rs[j].name@) by {
        let oi = if i < k { i } else { i + 1 };
        let oj = if j < k { j } else { j + 1 };
        assert(rs[i] == ps[oi] && rs[j] == ps[oj]);
    }
}

/// The state a game moves to on a tick, given its state and the time elapsed
/// in the current phase.
pub open spec fn next_state(s: GameState, elapsed: u64) -> GameState {
    if s == GameState::Starting && elapsed >= START_DELAY {
        GameState::Started
    } else {
        s
    }
}

/// The timer after a tick at `now`: the clock is read, and a sync that is
/// owed is recorded; once a sync reports nothing left, no more are owed.
pub open spec fn synced_timer(t: GameTimer, now: u64) -> GameTimer {
    let a = t.advanced(now);
    if a.due_spec(now) {
        GameTimer { last_sync: now, need_sync: a.remaining_spec() != 0, ..a }
    } else {
        a
    }
}

/// `g2` is `g` with player `p` joined through `conn` under identifier `pid`,
/// and `o1` is `o0` with the join's messages appended.
pub open spec fn join_effect(
    g: Game,
    g2: Game,
    pid: Seq<char>,
    name: Seq<char>,
    conn: ConnId,
    o0: Seq<Delivery>,
    o1: Seq<Delivery>,
) -> bool {
    &&& same_but_roster(g, g2)
    &&& !roster_has_id(g.players@, pid)
    &&& g2.players@.len() == g.players@.len() + 1
    &&& g2.players@.drop_last() == g.players@
    &&& fresh_player(g2.players@.last(), pid, name, conn)
    &&& o1 == o0 + join_deliveries(g.players@, g.host, g2.players@.last())
}

/// `g2` is `g` without the player with identifier `pid`, and `o1` is `o0`
/// with the removal's messages appended; when there was no such player,
/// nothing changes.
pub open spec fn removal_effect(g: Game, g2: Game, pid: Seq<char>, o0: Seq<Delivery>, o1: Seq<Delivery>) -> bool {
    &&& same_but_roster(g, g2)
    &&& !roster_has_id(g2.players@, pid)
    &&& !roster_has_id(g.players@, pid) ==> g2.players == g.players && o1 == o0
    &&& roster_has_id(g.players@, pid) ==> exists|k: int|
        0 <= k < g.players@.len() && #[trigger] g.players@[k].id@ == pid && g2.players@ == g.players@.remove(k)
            && o1 == o0 + removal_deliveries(g2.players@, g.players@[k])
}

/// `g2` is `g` after the host's start at `now`: a waiting game moves to
/// `Starting` with its timer armed and everyone told; any other is left as
/// it is.
pub open spec fn start_effect(g: Game, g2: Game, now: u64, o0: Seq<Delivery>, o1: Seq<Delivery>) -> bool {
    &&& g2.host == g.host
    &&& g2.id == g.id
    &&& g2.title == g.title
    &&& g2.questions == g.questions
    &&& g2.players == g.players
    &&& g.state == GameState::Waiting ==> {
        &&& g2.state == GameState::Starting
        &&& g2.timer == (GameTimer { duration: START_DELAY, start: now, elapsed: 0, need_sync: true, ..g.timer })
        &&& o1 == o0 + g.broadcast_spec(ServerPackets::GameState { state: GameState::Starting })
    }
    &&& g.state != GameState::Waiting ==> g2 == g && o1 == o0
}

impl ClientAction {
    /// A copy of the action.
    pub fn duplicate(&self) -> (r: ClientAction)
        ensures
            r == *self,
    {
        match self {
            ClientAction::CreatedGame { id, title } => ClientAction::CreatedGame { id: id.clone(), title: title.clone() },
            ClientAction::NameTakenResult(b) => ClientAction::NameTakenResult(*b),
            ClientAction::Packet(p) => ClientAction::Packet(p.duplicate()),
            ClientAction::Error(f) => ClientAction::Error(*f),
            ClientAction::JoinedGame { id, player_id, title } => ClientAction::JoinedGame {
                id: id.clone(),
                player_id: player_id.clone(),
                title: title.clone(),
            },
            ClientAction::Disconnect => ClientAction::Disconnect,
        }
    }
}

impl Player {
    /// A newcomer with no score and no answers.
    pub fn new(id: String, name: String, conn: ConnId) -> (r: Player)
        ensures
            r.id == id,
            r.name == name,
            r.conn == conn,
            r.score == 0,
            r.answers@.len() == 0,
            r.answer_time.is_none(),
    {
        Player { id, name, score: 0, answers: Vec::new(), answer_time: None, conn }
    }

    pub open spec fn data_spec(self, mode: PlayerDataMode) -> ServerPackets {
        ServerPackets::PlayerData { id: self.id, name: self.name, mode: mode }
    }

    /// The roster record that describes this player.
    pub fn as_data(&self, mode: PlayerDataMode) -> (r: ServerPackets)
        ensures
            r == self.data_spec(mode),
    {
        ServerPackets::PlayerData { id: self.id.clone(), name: self.name.clone(), mode }
    }
}

impl Game {
    pub open spec fn wf(self) -> bool {
        roster_wf(self.players@) && self.state != GameState::DoesNotExist
    }

    /// The packet `p` sent to every player, then to the host.
    pub open spec fn broadcast_spec(self, p: ServerPackets) -> Seq<Delivery> {
        to_players(self.players@, p).push(Delivery { to: self.host, action: ClientAction::Packet(p) })
    }

    /// A game that waits for players.
    pub fn new(host: ConnId, id: String, title: String, questions: Vec<Question>, now: u64) -> (r: Game)
        ensures
            r.host == host,
            r.id == id,
            r.title == title,
            r.questions == questions,
            r.players@.len() == 0,
            r.state == GameState::Waiting,
            r.timer == GameTimer::new_spec(now),
            r.wf(),
    {
        Game {
            host,
            id,
            title,
            questions,
            players: Vec::new(),
            state: GameState::Waiting,
            timer: GameTimer::new(now),
        }
    }

    /// Whether a current player's name matches `name` up to ASCII case.
    pub fn is_name_taken(&self, name: &String) -> (r: bool)
        ensures
            r == roster_has_name(self.players@, name@),
    {
        let mut i: usize = 0;
        while i < self.players.len()
            invariant
                i <= self.players@.len(),
                forall|j: int| 0 <= j < i ==> !names_match(#[trigger] self.players@[j].name@, name@),
            decreases self.players@.len() - i,
        {
            if same_name(&self.players[i].name, name) {
                return true;
            }
            i = i + 1;
        }
        false
    }

    /// Where the player with identifier `id` stands in the roster.
    pub fn find_player(&self, id: &String) -> (r: Option<usize>)
        ensures
            match r {
                Some(i) => i < self.players@.len() && self.players@[i as int].id@ == id@,
                None => !roster_has_id(self.players@, id@),
            },
    {
        let mut i: usize = 0;
        while i < self.players.len()
            invariant
                i <= self.players@.len(),
                forall|j: int| 0 <= j < i ==> #[trigger] self.players@[j].id@ != id@,
            decreases self.players@.len() - i,
        {
            if self.players[i].id == *id {
                return Some(i);
            }
            i = i + 1;
        }
        None
    }

    /// Appends `p` for every player to `out`.
    fn send_to_players(players: &Vec<Player>, p: &ServerPackets, out: &mut Vec<Delivery>)
        ensures
            final(out)@ == old(out)@ + to_players(players@, *p),
    {
        let mut i: usize = 0;
        assert(out@ =~= old(out)@ + to_players(players@.take(0), *p));
        while i < players.len()
            invariant
                i <= players@.len(),
                out@ == old(out)@ + to_players(players@.take(i as int), *p),
            decreases players@.len() - i,
        {
            proof {
                assert(players@.take(i + 1) == players@.take(i as int).push(players@[i as int]));
                assert(to_players(players@.take(i + 1), *p) =~= to_players(players@.take(i as int), *p).push(
                    Delivery { to: players@[i as int].conn, action: ClientAction::Packet(*p) },
                ));
            }
            out.push(Delivery { to: players[i].conn, action: ClientAction::Packet(p.duplicate()) });
            i = i + 1;
        }
        assert(players@.take(players@.len() as int) == players@);
    }

    /// Appends, for connection `conn`, an `Add` record of every player.
    fn send_roster_to(players: &Vec<Player>, conn: ConnId, out: &mut Vec<Delivery>)
        ensures
            final(out)@ == old(out)@ + roster_for(players@, conn),
    {
        let mut i: usize = 0;
        assert(out@ =~= old(out)@ + roster_for(players@.take(0), conn));
        while i < players.len()
            invariant
                i <= players@.len(),
                out@ == old(out)@ + roster_for(players@.take(i as int), conn),
            decreases players@.len() - i,
        {
            proof {
                assert(players@.take(i + 1) == players@.take(i as int).push(players@[i as int]));
                assert(roster_for(players@.take(i + 1), conn) =~= roster_for(players@.take(i as int), conn).push(
                    Delivery {
                        to: conn,
                        action: ClientAction::Packet(players@[i as int].data_spec(PlayerDataMode::Add)),
                    },
                ));
            }
            out.push(Delivery { to: conn, action: ClientAction::Packet(players[i].as_data(PlayerDataMode::Add)) });
            i = i + 1;
        }
        assert(players@.take(players@.len() as int) == players@);
    }

    /// Sends `p` to the host and to every player but the one with identifier
    /// `excluding`.
    pub fn broadcast_excluding(&self, excluding: &String, p: ServerPackets, out: &mut Vec<Delivery>)
        ensures
            final(out)@ == old(out)@ + to_players_except(self.players@, excluding@, p).push(
                Delivery { to: self.host, action: ClientAction::Packet(p) },
            ),
    {
        let ps = &self.players;
        let mut i: usize = 0;
        assert(ps@.take(0) =~= Seq::<Player>::empty());
        assert(out@ =~= old(out)@ + to_players_except(ps@.take(0), excluding@, p));
        while i < ps.len()
            invariant
                i <= ps@.len(),
                out@ == old(out)@ + to_players_except(ps@.take(i as int), excluding@, p),
            decreases ps@.len() - i,
        {
            proof {
                assert(ps@.take(i + 1).drop_last() == ps@.take(i as int));
                assert(ps@.take(i + 1).last() == ps@[i as int]);
            }
            if ps[i].id != *excluding {
                out.push(Delivery { to: ps[i].conn, action: ClientAction::Packet(p.duplicate()) });
            }
            proof {
                assert(out@ =~= old(out)@ + to_players_except(ps@.take(i + 1), excluding@, p));
            }
            i = i + 1;
        }
        assert(ps@.take(ps@.len() as int) == ps@);
        out.push(Delivery { to: self.host, action: ClientAction::Packet(p) });
        assert(final(out)@ =~= old(out)@ + to_players_except(self.players@, excluding@, p).push(
            Delivery { to: self.host, action: ClientAction::Packet(p) },
        ));
    }

    /// Sends `p` to every player and to the host.
    pub fn broadcast(&self, p: ServerPackets, out: &mut Vec<Delivery>)
        ensures
            final(out)@ == old(out)@ + self.broadcast_spec(p),
    {
        Game::send_to_players(&self.players, &p, out);
        out.push(Delivery { to: self.host, action: ClientAction::Packet(p) });
        assert(final(out)@ =~= old(out)@ + self.broadcast_spec(p));
    }
}

impl Game {
    /// Adds a player called `name`, reached through `conn`, under the
    /// identifier `id` when no current player holds it, and tells everyone
    /// of it. Returns whether it did; when it did not, nothing changes.
    pub fn add_if_free(&mut self, id: String, name: &String, conn: ConnId, out: &mut Vec<Delivery>) -> (r: bool)
        requires
            old(self).wf(),
            !roster_has_name(old(self).players@, name@),
        ensures
            final(self).wf(),
            r == !roster_has_id(old(self).players@, id@),
            r ==> join_effect(*old(self), *final(self), id@, name@, conn, old(out)@, final(out)@),
            !r ==> *final(self) == *old(self) && final(out)@ == old(out)@,
    {
        if self.find_player(&id).is_some() {
            return false;
        }
        let player = Player::new(id, name.clone(), conn);
        let add = player.as_data(PlayerDataMode::Add);
        Game::send_to_players(&self.players, &add, out);
        Game::send_roster_to(&self.players, conn, out);
        out.push(Delivery { to: conn, action: ClientAction::Packet(player.as_data(PlayerDataMode::Me)) });
        out.push(Delivery { to: self.host, action: ClientAction::Packet(add) });
        proof {
            assert(player.answers@ =~= Seq::<(u8, u8)>::empty());
            lemma_roster_push(self.players@, player);
        }
        self.players.push(player);
        assert(self.players@.drop_last() =~= old(self).players@);
        assert(out@ =~= old(out)@ + join_deliveries(old(self).players@, old(self).host, self.players@.last()));
        true
    }

    /// Adds a player called `name` reached through `conn` under a fresh
    /// identifier that no current player holds, and tells everyone of it.
    /// Fails, changing nothing, when no free identifier turns up in
    /// `MAX_ID_ATTEMPTS` draws; it cannot fail when no player holds an
    /// identifier of the drawn shape.
    pub fn new_player(&mut self, name: String, conn: ConnId, out: &mut Vec<Delivery>) -> (r: Result<String, Failure>)
        requires
            old(self).wf(),
            !roster_has_name(old(self).players@, name@),
        ensures
            final(self).wf(),
            no_identifier_ids(old(self).players@) ==> r is Ok,
            match r {
                Ok(id) => {
                    &&& is_identifier(id@)
                    &&& join_effect(*old(self), *final(self), id@, name@, conn, old(out)@, final(out)@)
                },
                Err(e) => {
                    &&& e == Failure::CapacityExceeded
                    &&& *final(self) == *old(self)
                    &&& final(out)@ == old(out)@
                },
            },
    {
        let mut attempt: usize = 0;
        while attempt < MAX_ID_ATTEMPTS
            invariant
                *self == *old(self),
                out@ == old(out)@,
                self.wf(),
                !roster_has_name(self.players@, name@),
                no_identifier_ids(self.players@) ==> attempt == 0,
            decreases MAX_ID_ATTEMPTS - attempt,
        {
            let id = random_identifier(ID_LENGTH);
            let drawn = id.clone();
            if self.add_if_free(drawn, &name, conn, out) {
                return Ok(id);
            }
            proof {
                if no_identifier_ids(self.players@) {
                    let k = choose|k: int| 0 <= k < self.players@.len() && #[trigger] self.players@[k].id@ == id@;
                    assert(!is_identifier(self.players@[k].id@));
                }
            }
            attempt = attempt + 1;
        }
        Err(Failure::CapacityExceeded)
    }

    /// Takes the player with identifier `id` out of the game: the remaining
    /// players are told to drop it, and it is told to leave. Returns whether
    /// such a player was present; when none was, nothing changes.
    pub fn remove_player(&mut self, id: &String, out: &mut Vec<Delivery>) -> (r: bool)
        requires
            old(self).wf(),
        ensures
            final(self).wf(),
            r == roster_has_id(old(self).players@, id@),
            removal_effect(*old(self), *final(self), id@, old(out)@, final(out)@),
    {
        match self.find_player(id) {
            None => false,
            Some(k) => {
                proof {
                    lemma_roster_remove(self.players@, k as int);
                }
                let gone = self.players.remove(k);
                proof {
                    let rs = self.players@;
                    let os = old(self).players@;
                    assert(os[k as int].id@ == id@);
                    assert forall|i: int| 0 <= i < rs.len() implies #[trigger] rs[i].id@ != id@ by {
                        let oi = if i < k { i } else { i + 1 };
                        assert(rs[i] == os[oi]);
                    }
                }
                let gone_data = gone.as_data(PlayerDataMode::Remove);
                Game::send_to_players(&self.players, &gone_data, out);
                out.push(Delivery {
                    to: gone.conn,
                    action: ClientAction::Packet(ServerPackets::Disconnect { reason: DisconnectReason::Removed }),
                });
                out.push(Delivery { to: gone.conn, action: ClientAction::Disconnect });
                assert(out@ =~= old(out)@ + removal_deliveries(self.players@, old(self).players@[k as int]));
                true
            },
        }
    }
}

impl Game {
    /// What a tick at `now` sends: the phase's total and remaining time,
    /// when a sync is owed.
    pub open spec fn sync_deliveries(self, now: u64) -> Seq<Delivery> {
        let a = self.timer.advanced(now);
        if a.due_spec(now) {
            self.broadcast_spec(ServerPackets::TimeSync { total: a.duration, remaining: a.remaining_spec() })
        } else {
            seq![]
        }
    }

    /// The host starts the game: a waiting game moves to `Starting`, arms its
    /// timer with the start delay and tells everyone. A game that no longer
    /// waits is left as it is.
    pub fn start(&mut self, now: u64, out: &mut Vec<Delivery>)
        ensures
            start_effect(*old(self), *final(self), now, old(out)@, final(out)@),
    {
        if self.state == GameState::Waiting {
            self.state = GameState::Starting;
            self.timer.track(START_DELAY, now);
            self.broadcast(ServerPackets::GameState { state: GameState::Starting }, out);
        }
    }

    /// Reads the clock and, when a sync is owed, tells everyone the phase's
    /// total and remaining time.
    pub fn sync(&mut self, now: u64, out: &mut Vec<Delivery>)
        ensures
            final(self).timer == synced_timer(old(self).timer, now),
            final(self).host == old(self).host,
            final(self).id == old(self).id,
            final(self).title == old(self).title,
            final(self).questions == old(self).questions,
            final(self).players == old(self).players,
            final(self).state == old(self).state,
            final(out)@ == old(out)@ + old(self).sync_deliveries(now),
    {
        self.timer.advance(now);
        if self.timer.due_for_sync(now) {
            self.timer.last_sync = now;
            let remaining = self.timer.remaining();
            self.broadcast(ServerPackets::TimeSync { total: self.timer.duration, remaining }, out);
            if remaining == 0 {
                self.timer.need_sync = false;
            }
        } else {
            assert(out@ =~= old(out)@ + old(self).sync_deliveries(now));
        }
    }

    /// One tick at `now`: sync the timer, then let a starting game whose start
    /// delay has passed become started.
    pub fn update(&mut self, now: u64, out: &mut Vec<Delivery>)
        requires
            old(self).wf(),
        ensures
            final(self).wf(),
            final(self).timer == synced_timer(old(self).timer, now),
            final(self).state == next_state(old(self).state, final(self).timer.elapsed),
            final(self).host == old(self).host,
            final(self).id == old(self).id,
            final(self).title == old(self).title,
            final(self).questions == old(self).questions,
            final(self).players == old(self).players,
            final(out)@ == old(out)@ + old(self).sync_deliveries(now),
    {
        self.sync(now, out);
        if self.state == GameState::Starting && self.timer.elapsed >= START_DELAY {
            self.state = GameState::Started;
        }
    }
}

/// `b` is what a tick at `now` makes of `a`.
pub open spec fn ticked(a: Game, b: Game, now: u64) -> bool {
    &&& b.timer == synced_timer(a.timer, now)
    &&& b.state == next_state(a.state, b.timer.elapsed)
    &&& b.host == a.host
    &&& b.id == a.id
    &&& b.title == a.title
    &&& b.questions == a.questions
    &&& b.players == a.players
}

/// What a tick at `now` sends for the games `gs`, game by game.
pub open spec fn tick_deliveries(gs: Seq<Game>, now: u64) -> Seq<Delivery>
    decreases gs.len(),
{
    if gs.len() == 0 {
        seq![]
    } else {
        tick_deliveries(gs.drop_last(), now) + gs.last().sync_deliveries(now)
    }
}

/// `b` is `a` with at most its roster changed.
pub open spec fn same_but_roster(a: Game, b: Game) -> bool {
    a.host == b.host && a.id == b.id && a.title == b.title && a.questions == b.questions && a.state == b.state
        && a.timer == b.timer
}

/// A tick never makes a game `Started` unless it was `Starting` or already
/// `Started`, and never makes it leave `Started` or `Stopped`.
pub proof fn lemma_started_only_after_starting(s: GameState, elapsed: u64)
    ensures
        next_state(s, elapsed) == GameState::Started ==> s == GameState::Starting || s == GameState::Started,
        s == GameState::Started ==> next_state(s, elapsed) == GameState::Started,
        s == GameState::Stopped ==> next_state(s, elapsed) == GameState::Stopped,
        s == GameState::Waiting ==> next_state(s, elapsed) == GameState::Waiting,
{
}

/// No two players present in a well-formed game have names that match up to
/// ASCII case, nor the same identifier.
pub proof fn lemma_names_unique(g: Game, i: int, j: int)
    requires
        g.wf(),
        0 <= i < g.players@.len(),
        0 <= j < g.players@.len(),
        i != j,
    ensures
        !names_match(g.players@[i].name@, g.players@[j].name@),
        g.players@[i].id@ != g.players@[j].id@,
{
}

/// `a` is an `Add` record of the player with identifier `id`.
pub open spec fn is_add_of(a: ClientAction, id: Seq<char>) -> bool {
    a matches ClientAction::Packet(ServerPackets::PlayerData { id: pid, mode: PlayerDataMode::Add, .. })
        && pid@ == id
}

/// `a` is a `Me` record.
pub open spec fn is_me(a: ClientAction) -> bool {
    a matches ClientAction::Packet(ServerPackets::PlayerData { mode: PlayerDataMode::Me, .. })
}

/// The players that connection `c` has been told of by `Add` records in `ds`.
pub open spec fn adds_to(ds: Seq<Delivery>, c: ConnId) -> Set<Seq<char>> {
    Set::new(|id: Seq<char>| exists|k: int| 0 <= k < ds.len() && ds[k].to == c && #[trigger] is_add_of(ds[k].action, id))
}

/// The identifiers of the roster.
pub open spec fn ids_of(ps: Seq<Player>) -> Set<Seq<char>> {
    Set::new(|id: Seq<char>| roster_has_id(ps, id))
}

/// Every participant has been told of exactly the other players: the host
/// of all of them, each player of all but itself.
pub open spec fn views_consistent(ps: Seq<Player>, host: ConnId, ds: Seq<Delivery>) -> bool {
    &&& adds_to(ds, host) == ids_of(ps)
    &&& forall|i: int| 0 <= i < ps.len() ==> adds_to(ds, (#[trigger] ps[i]).conn) == ids_of(ps).remove(ps[i].id@)
}

/// The host and the players each have a connection of their own.
pub open spec fn conns_distinct(ps: Seq<Player>, host: ConnId) -> bool {
    &&& forall|i: int| 0 <= i < ps.len() ==> (#[trigger] ps[i]).conn != host
    &&& forall|i: int, j: int| #![trigger ps[i], ps[j]] 0 <= i < ps.len() && 0 <= j < ps.len() && i != j ==> ps[i].conn != ps[j].conn
}

proof fn lemma_adds_concat(a: Seq<Delivery>, b: Seq<Delivery>, c: ConnId)
    ensures
        adds_to(a + b, c) == adds_to(a, c).union(adds_to(b, c)),
{
    let ab = a + b;
    assert forall|id: Seq<char>| adds_to(ab, c).contains(id) <==> adds_to(a, c).union(adds_to(b, c)).contains(id) by {
        if adds_to(ab, c).contains(id) {
            let k = choose|k: int| 0 <= k < ab.len() && ab[k].to == c && #[trigger] is_add_of(ab[k].action, id);
            if k < a.len() {
                assert(a[k] == ab[k]);
            } else {
                assert(b[k - a.len()] == ab[k]);
            }
        }
        if adds_to(a, c).contains(id) {
            let k = choose|k: int| 0 <= k < a.len() && a[k].to == c && #[trigger] is_add_of(a[k].action, id);
            assert(ab[k] == a[k]);
        }
        if adds_to(b, c).contains(id) {
            let k = choose|k: int| 0 <= k < b.len() && b[k].to == c && #[trigger] is_add_of(b[k].action, id);
            assert(ab[k + a.len()] == b[k]);
        }
    }
    assert(adds_to(a + b, c) =~= adds_to(a, c).union(adds_to(b, c)));
}

/// One `Add` of `q` to every player: each player's connection learns of `q`
/// alone, any other connection of no one.
proof fn lemma_adds_to_players(ps: Seq<Player>, q: Player, c: ConnId)
    ensures
        (exists|i: int| 0 <= i < ps.len() && (#[trigger] ps[i]).conn == c) ==> adds_to(
            to_players(ps, q.data_spec(PlayerDataMode::Add)),
            c,
        ) == set![q.id@],
        !(exists|i: int| 0 <= i < ps.len() && (#[trigger] ps[i]).conn == c) ==> adds_to(
            to_players(ps, q.data_spec(PlayerDataMode::Add)),
            c,
        ) == Set::<Seq<char>>::empty(),
{
    let ds = to_players(ps, q.data_spec(PlayerDataMode::Add));
    assert forall|id: Seq<char>| adds_to(ds, c).contains(id) implies id == q.id@ by {
        let k = choose|k: int| 0 <= k < ds.len() && ds[k].to == c && #[trigger] is_add_of(ds[k].action, id);
    }
    if exists|i: int| 0 <= i < ps.len() && (#[trigger] ps[i]).conn == c {
        let i = choose|i: int| 0 <= i < ps.len() && (#[trigger] ps[i]).conn == c;
        assert(ds[i].to == c && is_add_of(ds[i].action, q.id@));
        assert(adds_to(ds, c) =~= set![q.id@]);
    } else {
        assert forall|id: Seq<char>| !adds_to(ds, c).contains(id) by {
            if adds_to(ds, c).contains(id) {
                let k = choose|k: int| 0 <= k < ds.len() && ds[k].to == c && #[trigger] is_add_of(ds[k].action, id);
                assert(ps[k].conn == c);
            }
        }
        assert(adds_to(ds, c) =~= Set::<Seq<char>>::empty());
    }
}

/// The roster described to `conn`: that connection learns of every player,
/// any other connection of no one.
proof fn lemma_adds_roster_for(ps: Seq<Player>, conn: ConnId, c: ConnId)
    ensures
        c == conn ==> adds_to(roster_for(ps, conn), c) == ids_of(ps),
        c != conn ==> adds_to(roster_for(ps, conn), c) == Set::<Seq<char>>::empty(),
{
    let ds = roster_for(ps, conn);
    if c == conn {
        assert forall|id: Seq<char>| adds_to(ds, c).contains(id) <==> ids_of(ps).contains(id) by {
            if adds_to(ds, c).contains(id) {
                let k = choose|k: int| 0 <= k < ds.len() && ds[k].to == c && #[trigger] is_add_of(ds[k].action, id);
                assert(ps[k].id@ == id);
            }
            if ids_of(ps).contains(id) {
                let k = choose|k: int| 0 <= k < ps.len() && #[trigger] ps[k].id@ == id;
                assert(is_add_of(ds[k].action, id));
            }
        }
        assert(adds_to(ds, c) =~= ids_of(ps));
    } else {
        assert(adds_to(ds, c) =~= Set::<Seq<char>>::empty());
    }
}

/// A new game, with no players and nothing sent, has every view right.
pub proof fn lemma_views_consistent_initially(host: ConnId)
    ensures
        views_consistent(Seq::<Player>::empty(), host, Seq::<Delivery>::empty()),
{
    assert(adds_to(Seq::<Delivery>::empty(), host) =~= ids_of(Seq::<Player>::empty()));
}

/// A join keeps every participant's view of the roster right. Before it,
/// each participant has been told of exactly the other players, and the
/// joiner, on a connection of its own, of no one. After the join's messages,
/// the same holds of the roster with the joiner added. The joiner receives
/// exactly one `Me` record, and it describes the joiner.
pub proof fn lemma_join_keeps_views_consistent(ps: Seq<Player>, host: ConnId, q: Player, ds: Seq<Delivery>)
    requires
        views_consistent(ps, host, ds),
        conns_distinct(ps.push(q), host),
        adds_to(ds, q.conn) == Set::<Seq<char>>::empty(),
        !roster_has_id(ps, q.id@),
    ensures
        views_consistent(ps.push(q), host, ds + join_deliveries(ps, host, q)),
        forall|k: int|
            0 <= k < join_deliveries(ps, host, q).len() && is_me(#[trigger] join_deliveries(ps, host, q)[k].action)
                ==> k == join_deliveries(ps, host, q).len() - 2,
        join_deliveries(ps, host, q)[join_deliveries(ps, host, q).len() - 2] == (Delivery {
            to: q.conn,
            action: ClientAction::Packet(q.data_spec(PlayerDataMode::Me)),
        }),
{
    let qs = ps.push(q);
    let a = to_players(ps, q.data_spec(PlayerDataMode::Add));
    let b = roster_for(ps, q.conn);
    let t = seq![
        Delivery { to: q.conn, action: ClientAction::Packet(q.data_spec(PlayerDataMode::Me)) },
        Delivery { to: host, action: ClientAction::Packet(q.data_spec(PlayerDataMode::Add)) },
    ];
    let j = join_deliveries(ps, host, q);
    assert(j == a + b + t);
    assert(ids_of(qs) =~= ids_of(ps).insert(q.id@)) by {
        assert forall|id: Seq<char>| roster_has_id(qs, id) <==> roster_has_id(ps, id) || id == q.id@ by {
            if roster_has_id(qs, id) {
                let k = choose|k: int| 0 <= k < qs.len() && #[trigger] qs[k].id@ == id;
                if k < ps.len() {
                    assert(ps[k] == qs[k]);
                }
            }
            if roster_has_id(ps, id) {
                let k = choose|k: int| 0 <= k < ps.len() && #[trigger] ps[k].id@ == id;
                assert(qs[k] == ps[k]);
            }
            if id == q.id@ {
                assert(qs[ps.len() as int] == q);
            }
        }
    }
    assert forall|c: ConnId| adds_to(ds + j, c) == adds_to(ds, c).union(adds_to(a, c)).union(adds_to(b, c)).union(
        adds_to(t, c),
    ) by {
        lemma_adds_concat(ds, j, c);
        lemma_adds_concat(a + b, t, c);
        lemma_adds_concat(a, b, c);
        assert((a + b + t) == j);
    }
    assert forall|c: ConnId| adds_to(t, c) == (if c == host { set![q.id@] } else { Set::<Seq<char>>::empty() }) by {
        if c == host {
            assert(is_add_of(t[1].action, q.id@));
            assert(adds_to(t, c) =~= set![q.id@]);
        } else {
            assert(adds_to(t, c) =~= Set::<Seq<char>>::empty());
        }
    }
    // The host.
    assert(!(exists|i: int| 0 <= i < ps.len() && (#[trigger] ps[i]).conn == host)) by {
        if exists|i: int| 0 <= i < ps.len() && (#[trigger] ps[i]).conn == host {
            let i = choose|i: int| 0 <= i < ps.len() && (#[trigger] ps[i]).conn == host;
            assert(qs[i] == ps[i]);
        }
    }
    lemma_adds_to_players(ps, q, host);
    lemma_adds_roster_for(ps, q.conn, host);
    assert(q.conn != host) by {
        assert(qs[ps.len() as int] == q);
    }
    assert(adds_to(ds + j, host) =~= ids_of(qs));
    // Each player, the joiner last.
    assert forall|i: int| 0 <= i < qs.len() implies adds_to(ds + j, (#[trigger] qs[i]).conn) == ids_of(qs).remove(
        qs[i].id@,
    ) by {
        let c = qs[i].conn;
        lemma_adds_to_players(ps, q, c);
        lemma_adds_roster_for(ps, q.conn, c);
        assert(c != host);
        if i == ps.len() {
            assert(qs[i] == q);
            assert(!(exists|m: int| 0 <= m < ps.len() && (#[trigger] ps[m]).conn == c)) by {
                if exists|m: int| 0 <= m < ps.len() && (#[trigger] ps[m]).conn == c {
                    let m = choose|m: int| 0 <= m < ps.len() && (#[trigger] ps[m]).conn == c;
                    assert(qs[m] == ps[m]);
                }
            }
            assert(!ids_of(ps).contains(q.id@));
            assert(adds_to(ds + j, c) =~= ids_of(qs).remove(qs[i].id@));
        } else {
            assert(qs[i] == ps[i]);
            assert(qs[ps.len() as int] == q);
            assert(c != q.conn);
            assert(ps[i].id@ != q.id@);
            assert(adds_to(ds, c) == ids_of(ps).remove(ps[i].id@));
            assert(adds_to(ds + j, c) =~= ids_of(qs).remove(qs[i].id@));
        }
    }
    assert forall|k: int| 0 <= k < j.len() && is_me(#[trigger] j[k].action) implies k == j.len() - 2 by {
        if k < a.len() {
            assert(j[k] == a[k]);
        } else if k < a.len() + b.len() {
            assert(j[k] == b[k - a.len()]);
        } else if k == j.len() - 1 {
            assert(j[k] == t[1]);
        }
    }
    assert(j[j.len() - 2] == t[0]);
}

/// What the joins of the players `ps`, one after the other in roster order,
/// into a game hosted on `host` send.
pub open spec fn joins_deliveries(ps: Seq<Player>, host: ConnId) -> Seq<Delivery>
    decreases ps.len(),
{
    if ps.len() == 0 {
        seq![]
    } else {
        joins_deliveries(ps.drop_last(), host) + join_deliveries(ps.drop_last(), host, ps.last())
    }
}

/// Joins send only to the host and to the joining players' connections.
proof fn lemma_joins_reach(ps: Seq<Player>, host: ConnId, c: ConnId)
    requires
        c != host,
        forall|i: int| 0 <= i < ps.len() ==> (#[trigger] ps[i]).conn != c,
    ensures
        forall|k: int| 0 <= k < joins_deliveries(ps, host).len() ==> (#[trigger] joins_deliveries(ps, host)[k]).to != c,
    decreases ps.len(),
{
    if ps.len() > 0 {
        let p0 = ps.drop_last();
        let q = ps.last();
        assert forall|i: int| 0 <= i < p0.len() implies (#[trigger] p0[i]).conn != c by {
            assert(p0[i] == ps[i]);
        }
        lemma_joins_reach(p0, host, c);
        let d0 = joins_deliveries(p0, host);
        let a = to_players(p0, q.data_spec(PlayerDataMode::Add));
        let b = roster_for(p0, q.conn);
        let t = seq![
            Delivery { to: q.conn, action: ClientAction::Packet(q.data_spec(PlayerDataMode::Me)) },
            Delivery { to: host, action: ClientAction::Packet(q.data_spec(PlayerDataMode::Add)) },
        ];
        let d = joins_deliveries(ps, host);
        assert(d == d0 + (a + b + t));
        assert(q == ps[ps.len() - 1]);
        assert forall|k: int| 0 <= k < d.len() implies (#[trigger] d[k]).to != c by {
            if k < d0.len() {
                assert(d[k] == d0[k]);
            } else {
                let m = k - d0.len();
                if m < a.len() {
                    assert(d[k] == a[m]);
                    assert(p0[m] == ps[m]);
                } else if m < a.len() + b.len() {
                    assert(d[k] == b[m - a.len()]);
                } else {
                    assert(d[k] == t[m - a.len() - b.len()]);
                }
            }
        }
    }
}

/// After any number of joins, one after the other, into a new game, every
/// participant has been told of exactly the other players: the host of all
/// of them, each player of all but itself. The latest joiner holds exactly
/// one `Me` record, and it describes that joiner. Each participant has a
/// connection of its own.
pub proof fn lemma_joins_keep_views_consistent(ps: Seq<Player>, host: ConnId)
    requires
        roster_wf(ps),
        conns_distinct(ps, host),
    ensures
        views_consistent(ps, host, joins_deliveries(ps, host)),
        ps.len() > 0 ==> {
            let d = joins_deliveries(ps, host);
            &&& d[d.len() - 2] == (Delivery {
                to: ps.last().conn,
                action: ClientAction::Packet(ps.last().data_spec(PlayerDataMode::Me)),
            })
            &&& forall|k: int|
                0 <= k < d.len() && (#[trigger] d[k]).to == ps.last().conn && is_me(d[k].action) ==> k == d.len() - 2
        },
    decreases ps.len(),
{
    if ps.len() == 0 {
        lemma_views_consistent_initially(host);
        assert(joins_deliveries(ps, host) == Seq::<Delivery>::empty());
        assert(ps == Seq::<Player>::empty());
    } else {
        let p0 = ps.drop_last();
        let q = ps.last();
        assert(p0.push(q) == ps);
        assert(q == ps[ps.len() - 1]);
        assert(roster_wf(p0)) by {
            assert forall|i: int| 0 <= i < p0.len() implies answers_wf((#[trigger] p0[i]).answers@) by {
                assert(p0[i] == ps[i]);
            }
            assert forall|i: int, j: int|
                #![trigger p0[i], p0[j]]
                0 <= i < p0.len() && 0 <= j < p0.len() && i != j implies p0[i].id@ != p0[j].id@ && !names_match(
                    p0[i].name@,
                    p0[j].name@,
                ) by {
                assert(p0[i] == ps[i] && p0[j] == ps[j]);
            }
        }
        assert(conns_distinct(p0, host)) by {
            assert forall|i: int| 0 <= i < p0.len() implies (#[trigger] p0[i]).conn != host by {
                assert(p0[i] == ps[i]);
            }
            assert forall|i: int, j: int|
                #![trigger p0[i], p0[j]]
                0 <= i < p0.len() && 0 <= j < p0.len() && i != j implies p0[i].conn != p0[j].conn by {
                assert(p0[i] == ps[i] && p0[j] == ps[j]);
            }
        }
        lemma_joins_keep_views_consistent(p0, host);
        let d0 = joins_deliveries(p0, host);
        assert forall|i: int| 0 <= i < p0.len() implies (#[trigger] p0[i]).conn != q.conn by {
            assert(p0[i] == ps[i]);
        }
        lemma_joins_reach(p0, host, q.conn);
        assert(adds_to(d0, q.conn) =~= Set::<Seq<char>>::empty()) by {
            assert forall|id: Seq<char>| !adds_to(d0, q.conn).contains(id) by {
                if adds_to(d0, q.conn).contains(id) {
                    let k = choose|k: int| 0 <= k < d0.len() && d0[k].to == q.conn && #[trigger] is_add_of(d0[k].action, id);
                    assert(d0[k].to != q.conn);
                }
            }
        }
        assert(!roster_has_id(p0, q.id@)) by {
            if roster_has_id(p0, q.id@) {
                let k = choose|k: int| 0 <= k < p0.len() && #[trigger] p0[k].id@ == q.id@;
                assert(ps[k] == p0[k]);
            }
        }
        lemma_join_keeps_views_consistent(p0, host, q, d0);
        let j = join_deliveries(p0, host, q);
        let d = joins_deliveries(ps, host);
        assert(d == d0 + j);
        assert(d[d.len() - 2] == j[j.len() - 2]);
        assert forall|k: int| 0 <= k < d.len() && (#[trigger] d[k]).to == ps.last().conn && is_me(d[k].action) implies k
            == d.len() - 2 by {
            if k < d0.len() {
                assert(d[k] == d0[k]);
            } else {
                assert(d[k] == j[k - d0.len()]);
            }
        }
    }
}

/// One more join extends the record of joins: when the messages so far are
/// those of the joins of the current roster, after a join they are those of
/// the joins of the new roster.
pub proof fn lemma_join_extends_joins(
    g: Game,
    g2: Game,
    pid: Seq<char>,
    name: Seq<char>,
    conn: ConnId,
    o0: Seq<Delivery>,
    o1: Seq<Delivery>,
)
    requires
        o0 == joins_deliveries(g.players@, g.host),
        join_effect(g, g2, pid, name, conn, o0, o1),
    ensures
        o1 == joins_deliveries(g2.players@, g2.host),
{
    assert(g2.players@.len() > 0);
}

} // verus!
