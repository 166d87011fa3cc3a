//! The registry of all running games, and the routing of client requests to
//! them.
use vstd::prelude::*;
use crate::connection::Connection;
use crate::game::{
    join_effect, next_state, no_identifier_ids, removal_effect, start_effect, tick_deliveries, ticked, removal_deliveries, roster_has_id, roster_has_name, same_but_roster,
    ConnId, Delivery, Game, Question, MAX_ID_ATTEMPTS, START_DELAY,
};
use crate::identifier::{random_identifier, is_identifier, ID_LENGTH};
use crate::game::ClientAction;
use crate::packets::{ClientPackets, DisconnectReason, Failure, GameState, QuestionData, ServerPackets, StateChange};
use crate::timer::GameTimer;

verus! {

/// No two games share an identifier.
pub open spec fn registry_ids_distinct(gs: Seq<Game>) -> bool {
    forall|i: int, j: int|
        #![trigger gs[i], gs[j]]
        0 <= i < gs.len() && 0 <= j < gs.len() && i != j ==> gs[i].id@ != gs[j].id@
}

pub open spec fn registry_has(gs: Seq<Game>, id: Seq<char>) -> bool {
    exists|i: int| 0 <= i < gs.len() && #[trigger] gs[i].id@ == id
}

/// The questions of a new game: the submitted ones, in order, none revealed.
pub open spec fn wrapped_questions(qs: Seq<Question>, data: Seq<QuestionData>) -> bool {
    qs.len() == data.len() && forall|i: int| 0 <= i < qs.len() ==> (#[trigger] qs[i]).data == data[i]
        && qs[i].start_time.is_none()
}

/// No game holds an identifier of the shape that fresh ones have, so no
/// fresh draw can collide.
pub open spec fn no_identifier_games(gs: Seq<Game>) -> bool {
    forall|i: int| 0 <= i < gs.len() ==> !is_identifier((#[trigger] gs[i]).id@)
}

/// The connection hosts a game that is registered.
pub open spec fn hosts_present_game(m: GameManager, session: Connection) -> bool {
    session.hosting && session.game_id is Some && m.has_game(session.game_id->Some_0@)
}

/// `m2` is `m` with a new waiting game `id` hosted by `host`, titled `title`,
/// with no players and an idle timer started at `now`.
pub open spec fn create_effect(m: GameManager, m2: GameManager, id: Seq<char>, host: ConnId, title: String, now: u64) -> bool {
    &&& !m.has_game(id)
    &&& m2.games@.len() == m.games@.len() + 1
    &&& m2.games@.drop_last() == m.games@
    &&& m2.games@.last().id@ == id
    &&& m2.games@.last().title == title
    &&& m2.games@.last().host == host
    &&& m2.games@.last().state == GameState::Waiting
    &&& m2.games@.last().players@.len() == 0
    &&& m2.games@.last().timer == GameTimer::new_spec(now)
    &&& m2.has_game(id)
    &&& m2.state_of(id) == GameState::Waiting
}

/// `m2` is `m` with the connection's game changed from `g` to `g2`, and
/// only that game.
pub open spec fn session_game_replaced(m: GameManager, m2: GameManager, session: Connection) -> bool {
    let i = m.index_of(session.game_id->Some_0@);
    m2.games@ == m.games@.update(i, m2.games@[i])
}

/// What a host's start does: its game is started as `start_effect` says.
pub open spec fn start_game_effect(
    m: GameManager,
    m2: GameManager,
    session: Connection,
    now: u64,
    o0: Seq<Delivery>,
    o1: Seq<Delivery>,
) -> bool {
    let i = m.index_of(session.game_id->Some_0@);
    session_game_replaced(m, m2, session) && start_effect(m.games@[i], m2.games@[i], now, o0, o1)
}

/// What a host's kick of `pid` does: `removal_effect` on its game.
pub open spec fn kick_effect(
    m: GameManager,
    m2: GameManager,
    session: Connection,
    pid: Seq<char>,
    o0: Seq<Delivery>,
    o1: Seq<Delivery>,
) -> bool {
    let i = m.index_of(session.game_id->Some_0@);
    session_game_replaced(m, m2, session) && removal_effect(m.games@[i], m2.games@[i], pid, o0, o1)
}

/// What leaving does. A host's game leaves the registry, the others stay,
/// and everyone in it is told the game ended. A player's game stays, without
/// that player. A connection in no registered game changes nothing.
pub open spec fn leave_effect(m: GameManager, m2: GameManager, session: Connection, o0: Seq<Delivery>, o1: Seq<
    Delivery,
>) -> bool {
    let gid = session.game_id->Some_0;
    let i = m.index_of(gid@);
    let g = m.games@[i];
    if session.game_id is Some && m.has_game(gid@) {
        if session.hosting {
            &&& m2.games@ == m.games@.remove(i)
            &&& !m2.has_game(gid@)
            &&& o1 == o0 + g.broadcast_spec(ServerPackets::Disconnect { reason: DisconnectReason::GameEnded })
        } else if session.player_id is Some {
            &&& session_game_replaced(m, m2, session)
            &&& m2.has_game(gid@)
            &&& removal_effect(g, m2.games@[i], session.player_id->Some_0@, o0, o1)
        } else {
            m2.games@ == m.games@ && o1 == o0
        }
    } else {
        m2.games@ == m.games@ && o1 == o0
    }
}

pub struct GameManager {
    pub games: Vec<Game>,
}

impl GameManager {
    pub open spec fn wf(self) -> bool {
        &&& registry_ids_distinct(self.games@)
        &&& forall|i: int| 0 <= i < self.games@.len() ==> (#[trigger] self.games@[i]).wf()
            && self.games@[i].state != GameState::Stopped
    }

    pub open spec fn has_game(self, id: Seq<char>) -> bool {
        registry_has(self.games@, id)
    }

    /// Where the game with identifier `id` stands, when it is present.
    pub open spec fn index_of(self, id: Seq<char>) -> int {
        choose|i: int| 0 <= i < self.games@.len() && #[trigger] self.games@[i].id@ == id
    }

    /// The game with identifier `id`, when it is present.
    pub open spec fn game_of(self, id: Seq<char>) -> Game {
        self.games@[self.index_of(id)]
    }

    /// What a request for the state of game `id` answers.
    pub open spec fn state_of(self, id: Seq<char>) -> GameState {
        if self.has_game(id) {
            self.game_of(id).state
        } else {
            GameState::DoesNotExist
        }
    }

    /// An empty registry.
    pub fn new() -> (r: GameManager)
        ensures
            r.wf(),
            r.games@.len() == 0,
    {
        GameManager { games: Vec::new() }
    }

    /// Where the game with identifier `id` stands.
    pub fn find_game(&self, id: &String) -> (r: Option<usize>)
        requires
            self.wf(),
        ensures
            match r {
                Some(i) => {
                    &&& i < self.games@.len()
                    &&& self.games@[i as int].id@ == id@
                    &&& self.has_game(id@)
                    &&& self.index_of(id@) == i
                },
                None => !self.has_game(id@),
            },
    {
        let mut i: usize = 0;
        while i < self.games.len()
            invariant
                self.wf(),
                i <= self.games@.len(),
                forall|j: int| 0 <= j < i ==> #[trigger] self.games@[j].id@ != id@,
            decreases self.games@.len() - i,
        {
            if self.games[i].id == *id {
                proof {
                    assert(self.games@[i as int].id@ == id@);
                    assert(self.has_game(id@));
                    let c = self.index_of(id@);
                    assert(self.games@[c].id@ == id@);
                }
                return Some(i);
            }
            i = i + 1;
        }
        None
    }

    /// The game with identifier `id`.
    pub fn get_game(&self, id: &String) -> (r: Option<&Game>)
        requires
            self.wf(),
        ensures
            self.has_game(id@) ==> r == Some(&self.game_of(id@)),
            !self.has_game(id@) ==> r is None,
    {
        match self.find_game(id) {
            None => None,
            Some(i) => Some(&self.games[i]),
        }
    }

    /// Registers `game`, whose identifier no registered game holds.
    pub fn insert_game(&mut self, game: Game)
        requires
            old(self).wf(),
            game.wf(),
            game.state != GameState::Stopped,
            !old(self).has_game(game.id@),
        ensures
            final(self).wf(),
            final(self).games@ == old(self).games@.push(game),
    {
        self.games.push(game);
        proof {
            let gs = self.games@;
            let os = old(self).games@;
            assert forall|a: int, b: int|
                #![trigger gs[a], gs[b]]
                0 <= a < gs.len() && 0 <= b < gs.len() && a != b implies gs[a].id@ != gs[b].id@ by {
                if a < os.len() {
                    assert(gs[a] == os[a]);
                }
                if b < os.len() {
                    assert(gs[b] == os[b]);
                }
            }
            assert forall|j: int| 0 <= j < gs.len() implies (#[trigger] gs[j]).wf() && gs[j].state
                != GameState::Stopped by {
                if j < os.len() {
                    assert(gs[j] == os[j]);
                }
            }
        }
    }

    /// Whether a game with identifier `id` is registered.
    pub fn is_game_id(&self, id: &String) -> (r: bool)
        requires
            self.wf(),
        ensures
            r == self.has_game(id@),
    {
        self.find_game(id).is_some()
    }

    /// The state of game `id`, or `DoesNotExist` when there is no such game.
    pub fn game_state(&self, id: &String) -> (r: GameState)
        requires
            self.wf(),
        ensures
            r == self.state_of(id@),
    {
        match self.find_game(id) {
            None => GameState::DoesNotExist,
            Some(i) => self.games[i].state,
        }
    }

    /// Whether `name` is taken in game `id`, up to ASCII case.
    pub fn check_name_taken(&self, id: &String, name: &String) -> (r: Result<bool, Failure>)
        requires
            self.wf(),
        ensures
            !self.has_game(id@) ==> r == Err::<bool, Failure>(Failure::GameNotFound),
            self.has_game(id@) ==> r == Ok::<bool, Failure>(
                roster_has_name(self.game_of(id@).players@, name@),
            ),
    {
        match self.find_game(id) {
            None => Err(Failure::GameNotFound),
            Some(i) => Ok(self.games[i].is_name_taken(name)),
        }
    }

    /// Registers a new waiting game under identifier `id`, hosted by `host`,
    /// with the questions of `qs`, when no registered game holds `id`.
    /// Returns whether it did; when it did not, nothing changes.
    pub fn insert_if_free(&mut self, id: &String, host: ConnId, title: &String, qs: &mut Vec<Question>, now: u64) -> (r:
        bool)
        requires
            old(self).wf(),
        ensures
            final(self).wf(),
            r == !old(self).has_game(id@),
            r ==> create_effect(*old(self), *final(self), id@, host, *title, now),
            r ==> final(self).games@.last().questions@ == old(qs)@,
            !r ==> *final(self) == *old(self) && *final(qs) == *old(qs),
    {
        if self.is_game_id(id) {
            return false;
        }
        let mut taken: Vec<Question> = Vec::new();
        std::mem::swap(qs, &mut taken);
        let game = Game::new(host, id.clone(), title.clone(), taken, now);
        self.insert_game(game);
        proof {
            let n = old(self).games@.len() as int;
            assert(self.games@[n].id@ == id@);
            assert(self.has_game(id@));
            let c = self.index_of(id@);
            if c != n {
                assert(self.games@[c].id@ != self.games@[n].id@);
            }
            assert(self.games@.drop_last() =~= old(self).games@);
        }
        true
    }

    /// Registers a new waiting game with `host` as its host, under a fresh
    /// identifier that no registered game holds. Fails, changing nothing,
    /// when no free identifier turns up in `MAX_ID_ATTEMPTS` draws; it cannot
    /// fail when no game holds an identifier of the drawn shape.
    pub fn create_game(&mut self, host: ConnId, title: String, questions: Vec<QuestionData>, now: u64) -> (r:
        Result<String, Failure>)
        requires
            old(self).wf(),
        ensures
            final(self).wf(),
            no_identifier_games(old(self).games@) ==> r is Ok,
            match r {
                Ok(id) => {
                    &&& is_identifier(id@)
                    &&& create_effect(*old(self), *final(self), id@, host, title, now)
                    &&& wrapped_questions(final(self).games@.last().questions@, questions@)
                },
                Err(e) => e == Failure::CapacityExceeded && *final(self) == *old(self),
            },
    {
        let mut qs: Vec<Question> = Vec::new();
        let mut data = questions;
        let ghost data0 = data@;
        assert(data@ =~= data0.subrange(0, data0.len() as int));
        while data.len() > 0
            invariant
                qs@.len() + data@.len() == data0.len(),
                data@ == data0.subrange(qs@.len() as int, data0.len() as int),
                wrapped_questions(qs@, data0.take(qs@.len() as int)),
            decreases data@.len(),
        {
            let q = data.remove(0);
            qs.push(Question { data: q, start_time: None });
            assert(data@ =~= data0.subrange(qs@.len() as int, data0.len() as int));
        }
        assert(data0.take(qs@.len() as int) =~= data0);
        let mut attempt: usize = 0;
        while attempt < MAX_ID_ATTEMPTS
            invariant
                *self == *old(self),
                self.wf(),
                wrapped_questions(qs@, data0),
                data0 == questions@,
                no_identifier_games(self.games@) ==> attempt == 0,
            decreases MAX_ID_ATTEMPTS - attempt,
        {
            let id = random_identifier(ID_LENGTH);
            if self.insert_if_free(&id, host, &title, &mut qs, now) {
                return Ok(id);
            }
            proof {
                if no_identifier_games(self.games@) {
                    let k = choose|k: int| 0 <= k < self.games@.len() && #[trigger] self.games@[k].id@ == id@;
                    assert(!is_identifier(self.games@[k].id@));
                }
            }
            attempt = attempt + 1;
        }
        Err(Failure::CapacityExceeded)
    }

    /// Replacing a game by one with the same identifier keeps the registry
    /// well formed.
    proof fn lemma_replace_keeps_wf(self, i: int, g: Game)
        requires
            self.wf(),
            0 <= i < self.games@.len(),
            g.id@ == self.games@[i].id@,
            g.wf(),
            g.state != GameState::Stopped,
        ensures
            registry_ids_distinct(self.games@.update(i, g)),
            forall|j: int| 0 <= j < self.games@.len() ==> (#[trigger] self.games@.update(i, g)[j]).wf()
                && self.games@.update(i, g)[j].state != GameState::Stopped,
    {
        let gs = self.games@.update(i, g);
        assert forall|a: int, b: int|
            #![trigger gs[a], gs[b]]
            0 <= a < gs.len() && 0 <= b < gs.len() && a != b implies gs[a].id@ != gs[b].id@ by {
            assert(self.games@[a].id@ == gs[a].id@);
            assert(self.games@[b].id@ == gs[b].id@);
        }
        assert forall|j: int| 0 <= j < self.games@.len() implies (#[trigger] gs[j]).wf() && gs[j].state
            != GameState::Stopped by {
            if j != i {
                assert(gs[j] == self.games@[j]);
            }
        }
    }

    /// Joins a player called `name`, reached through `conn`, to game `id`.
    /// Fails, changing nothing, when there is no such game, when the name is
    /// taken there up to ASCII case, or when no free player identifier turns
    /// up; the last cannot happen when no player of the game holds an
    /// identifier of the drawn shape. On success returns the new player's
    /// identifier.
    pub fn request_join(&mut self, conn: ConnId, id: &String, name: String, out: &mut Vec<Delivery>) -> (r:
        Result<String, Failure>)
        requires
            old(self).wf(),
        ensures
            final(self).wf(),
            !old(self).has_game(id@) ==> r == Err::<String, Failure>(Failure::GameNotFound),
            old(self).has_game(id@) && roster_has_name(old(self).game_of(id@).players@, name@) ==> r == Err::<
                String,
                Failure,
            >(Failure::NameTaken),
            old(self).has_game(id@) && !roster_has_name(old(self).game_of(id@).players@, name@)
                && no_identifier_ids(old(self).game_of(id@).players@) ==> r is Ok,
            r is Err ==> final(self).games@ == old(self).games@ && final(out)@ == old(out)@,
            r is Err ==> r == Err::<String, Failure>(Failure::GameNotFound) || r == Err::<String, Failure>(
                Failure::NameTaken,
            ) || r == Err::<String, Failure>(Failure::CapacityExceeded),
            r matches Ok(pid) ==> {
                let i = old(self).index_of(id@);
                &&& old(self).has_game(id@)
                &&& !roster_has_name(old(self).games@[i].players@, name@)
                &&& is_identifier(pid@)
                &&& final(self).games@ == old(self).games@.update(i, final(self).games@[i])
                &&& join_effect(old(self).games@[i], final(self).games@[i], pid@, name@, conn, old(out)@, final(out)@)
            },
    {
        match self.find_game(id) {
            None => Err(Failure::GameNotFound),
            Some(i) => {
                if self.games[i].is_name_taken(&name) {
                    return Err(Failure::NameTaken);
                }
                let mut g = self.games.remove(i);
                let r = g.new_player(name, conn, out);
                proof {
                    old(self).lemma_replace_keeps_wf(i as int, g);
                }
                self.games.insert(i, g);
                assert(self.games@ =~= old(self).games@.update(i as int, g));
                if r.is_err() {
                    assert(self.games@ =~= old(self).games@);
                }
                r
            },
        }
    }

    /// The host of the connection's game starts it. Succeeds exactly when the
    /// connection hosts a registered game.
    pub fn start_game(&mut self, session: &Connection, now: u64, out: &mut Vec<Delivery>) -> (r: Result<
        (),
        Failure,
    >)
        requires
            old(self).wf(),
        ensures
            final(self).wf(),
            r is Ok <==> hosts_present_game(*old(self), *session),
            !session.hosting ==> r == Err::<(), Failure>(Failure::NotAuthorized),
            session.hosting && !hosts_present_game(*old(self), *session) ==> r == Err::<(), Failure>(
                Failure::NotInGame,
            ),
            r is Err ==> *final(self) == *old(self) && final(out)@ == old(out)@,
            r is Ok ==> start_game_effect(*old(self), *final(self), *session, now, old(out)@, final(out)@),
    {
        if !session.hosting {
            return Err(Failure::NotAuthorized);
        }
        let gid = match &session.game_id {
            None => {
                return Err(Failure::NotInGame);
            },
            Some(gid) => gid,
        };
        match self.find_game(gid) {
            None => Err(Failure::NotInGame),
            Some(i) => {
                let mut g = self.games.remove(i);
                g.start(now, out);
                proof {
                    old(self).lemma_replace_keeps_wf(i as int, g);
                }
                self.games.insert(i, g);
                assert(self.games@ =~= old(self).games@.update(i as int, g));
                Ok(())
            },
        }
    }

    /// The host of the connection's game removes player `player_id` from it.
    /// Succeeds exactly when the connection hosts a registered game; a
    /// request from a connection that is not hosting is refused and removes
    /// no one.
    pub fn kick(&mut self, session: &Connection, player_id: &String, out: &mut Vec<Delivery>) -> (r: Result<
        (),
        Failure,
    >)
        requires
            old(self).wf(),
        ensures
            final(self).wf(),
            r is Ok <==> hosts_present_game(*old(self), *session),
            !session.hosting ==> r == Err::<(), Failure>(Failure::NotAuthorized),
            session.hosting && !hosts_present_game(*old(self), *session) ==> r == Err::<(), Failure>(
                Failure::NotInGame,
            ),
            r is Err ==> *final(self) == *old(self) && final(out)@ == old(out)@,
            r is Ok ==> kick_effect(*old(self), *final(self), *session, player_id@, old(out)@, final(out)@),
    {
        if !session.hosting {
            return Err(Failure::NotAuthorized);
        }
        let gid = match &session.game_id {
            None => {
                return Err(Failure::NotInGame);
            },
            Some(gid) => gid,
        };
        match self.find_game(gid) {
            None => Err(Failure::NotInGame),
            Some(i) => {
                let mut g = self.games.remove(i);
                g.remove_player(player_id, out);
                proof {
                    old(self).lemma_replace_keeps_wf(i as int, g);
                }
                self.games.insert(i, g);
                assert(self.games@ =~= old(self).games@.update(i as int, g));
                Ok(())
            },
        }
    }

    /// The connection leaves its game. When it hosts the game, the game ends:
    /// it leaves the registry and everyone in it is told so. When it plays in
    /// it, its player is removed. Otherwise nothing changes.
    pub fn leave(&mut self, session: &Connection, out: &mut Vec<Delivery>)
        requires
            old(self).wf(),
        ensures
            final(self).wf(),
            leave_effect(*old(self), *final(self), *session, old(out)@, final(out)@),
    {
        let gid = match &session.game_id {
            None => {
                return ;
            },
            Some(gid) => gid,
        };
        match self.find_game(gid) {
            None => {},
            Some(i) => {
                if session.hosting {
                    let g = self.games.remove(i);
                    g.broadcast(ServerPackets::Disconnect { reason: DisconnectReason::GameEnded }, out);
                    proof {
                        let gs = self.games@;
                        let os = old(self).games@;
                        assert forall|a: int, b: int|
                            #![trigger gs[a], gs[b]]
                            0 <= a < gs.len() && 0 <= b < gs.len() && a != b implies gs[a].id@ != gs[b].id@ by {
                            let oa = if a < i { a } else { a + 1 };
                            let ob = if b < i { b } else { b + 1 };
                            assert(gs[a] == os[oa] && gs[b] == os[ob]);
                        }
                        assert forall|j: int| 0 <= j < gs.len() implies (#[trigger] gs[j]).wf() && gs[j].state
                            != GameState::Stopped by {
                            let oj = if j < i { j } else { j + 1 };
                            assert(gs[j] == os[oj]);
                        }
                        assert(os[i as int].id@ == gid@);
                        assert forall|j: int| 0 <= j < gs.len() implies #[trigger] gs[j].id@ != gid@ by {
                            let oj = if j < i { j } else { j + 1 };
                            assert(gs[j] == os[oj]);
                        }
                    }
                } else {
                    match &session.player_id {
                        None => {},
                        Some(pid) => {
                            let mut g = self.games.remove(i);
                            g.remove_player(pid, out);
                            proof {
                                old(self).lemma_replace_keeps_wf(i as int, g);
                            }
                            self.games.insert(i, g);
                            assert(self.games@ =~= old(self).games@.update(i as int, g));
                            assert(self.games@[i as int].id@ == gid@);
                        },
                    }
                }
            },
        }
    }

    /// One tick of the scheduler at `now`: every game is updated, and then
    /// the games that have stopped are taken out of the registry.
    pub fn tick(&mut self, now: u64, out: &mut Vec<Delivery>)
        requires
            old(self).wf(),
        ensures
            final(self).wf(),
            final(out)@ == old(out)@ + tick_deliveries(old(self).games@, now),
            forall|j: int|
                0 <= j < final(self).games@.len() ==> old(self).has_game((#[trigger] final(self).games@[j]).id@)
                    && ticked(old(self).game_of(final(self).games@[j].id@), final(self).games@[j], now),
            forall|k: int|
                0 <= k < old(self).games@.len() ==> final(self).has_game(#[trigger] old(self).games@[k].id@),
    {
        let ghost start = self.games@;
        let mut i: usize = 0;
        assert(out@ =~= old(out)@ + tick_deliveries(start.take(0), now));
        while i < self.games.len()
            invariant
                start == old(self).games@,
                old(self).wf(),
                self.games@.len() == start.len(),
                i <= start.len(),
                forall|j: int| 0 <= j < i ==> ticked(start[j], #[trigger] self.games@[j], now),
                forall|j: int| i <= j < start.len() ==> #[trigger] self.games@[j] == start[j],
                forall|j: int| 0 <= j < start.len() ==> (#[trigger] self.games@[j]).wf() && self.games@[j].state
                    != GameState::Stopped,
                out@ == old(out)@ + tick_deliveries(start.take(i as int), now),
            decreases start.len() - i,
        {
            let mut g = self.games.remove(i);
            g.update(now, out);
            self.games.insert(i, g);
            proof {
                assert(start.take(i + 1).drop_last() == start.take(i as int));
                assert(start.take(i + 1).last() == start[i as int]);
                assert(out@ =~= old(out)@ + tick_deliveries(start.take(i + 1), now));
            }
            i = i + 1;
        }
        assert(start.take(start.len() as int) == start);
        let ghost mid = self.games@;
        assert forall|a: int, b: int|
            #![trigger mid[a], mid[b]]
            0 <= a < mid.len() && 0 <= b < mid.len() && a != b implies mid[a].id@ != mid[b].id@ by {
            assert(ticked(start[a], mid[a], now) && ticked(start[b], mid[b], now));
            assert(start[a].id@ != start[b].id@);
        }
        let mut rest: Vec<Game> = Vec::new();
        std::mem::swap(&mut self.games, &mut rest);
        let mut kept: Vec<Game> = Vec::new();
        let ghost mut picked: Seq<int> = seq![];
        let ghost len = mid.len();
        assert(rest@ =~= mid.subrange(0, len as int));
        while rest.len() > 0
            invariant
                start == old(self).games@,
                len == mid.len(),
                len == start.len(),
                forall|j: int| 0 <= j < len ==> ticked(start[j], #[trigger] mid[j], now),
                forall|j: int| 0 <= j < len ==> (#[trigger] mid[j]).wf(),
                rest@ == mid.subrange(len - rest@.len(), len as int),
                rest@.len() <= len,
                picked.len() == kept@.len(),
                forall|a: int, b: int|
                    #![trigger mid[a], mid[b]]
                    0 <= a < mid.len() && 0 <= b < mid.len() && a != b ==> mid[a].id@ != mid[b].id@,
                forall|j: int| 0 <= j < kept@.len() ==> 0 <= #[trigger] picked[j] < len - rest@.len(),
                forall|j: int| 0 <= j < kept@.len() ==> #[trigger] kept@[j] == mid[picked[j]],
                forall|a: int, b: int| 0 <= a < b < kept@.len() ==> #[trigger] picked[a] < #[trigger] picked[b],
                forall|j: int| 0 <= j < kept@.len() ==> (#[trigger] kept@[j]).state != GameState::Stopped,
                forall|k: int|
                    0 <= k < len - rest@.len() && (#[trigger] mid[k]).state != GameState::Stopped ==> exists|j: int|
                        0 <= j < kept@.len() && picked[j] == k,
            decreases rest@.len(),
        {
            let ghost n = len - rest@.len();
            let ghost picked0 = picked;
            let ghost kept_len0 = kept@.len();
            let g = rest.remove(0);
            assert(g == mid[n]);
            if g.state != GameState::Stopped {
                kept.push(g);
                proof {
                    picked = picked.push(n);
                    assert(kept@.last() == mid[n]);
                    assert(picked[picked.len() - 1] == n);
                }
            }
            assert(rest@ =~= mid.subrange(len - rest@.len(), len as int));
            proof {
                assert forall|k: int|
                    0 <= k < len - rest@.len() && (#[trigger] mid[k]).state != GameState::Stopped implies exists|j: int|
                        0 <= j < kept@.len() && picked[j] == k by {
                    if k == n {
                        assert(picked[kept@.len() - 1] == k);
                    } else {
                        let j = choose|j: int| 0 <= j < kept_len0 && picked0[j] == k;
                        assert(picked[j] == k);
                    }
                }
            }
        }
        self.games = kept;
        proof {
            let gs = self.games@;
            assert forall|a: int, b: int|
                #![trigger gs[a], gs[b]]
                0 <= a < gs.len() && 0 <= b < gs.len() && a != b implies gs[a].id@ != gs[b].id@ by {
                assert(gs[a] == mid[picked[a]] && gs[b] == mid[picked[b]]);
                if a < b {
                    assert(picked[a] < picked[b]);
                } else {
                    assert(picked[b] < picked[a]);
                }
            }
            assert forall|j: int| 0 <= j < gs.len() implies (#[trigger] gs[j]).wf() && gs[j].state
                != GameState::Stopped by {
                assert(gs[j] == mid[picked[j]]);
            }
            assert forall|j: int| 0 <= j < gs.len() implies old(self).has_game((#[trigger] gs[j]).id@) && ticked(
                old(self).game_of(gs[j].id@),
                gs[j],
                now,
            ) by {
                let k = picked[j];
                assert(gs[j] == mid[k]);
                assert(ticked(start[k], mid[k], now));
                assert(start[k].id@ == gs[j].id@);
                assert(old(self).has_game(gs[j].id@));
                let c = old(self).index_of(gs[j].id@);
                assert(start[c].id@ == gs[j].id@);
                if c != k {
                    assert(start[c].id@ != start[k].id@);
                }
            }
            assert forall|k: int| 0 <= k < start.len() implies self.has_game(#[trigger] start[k].id@) by {
                assert(ticked(start[k], mid[k], now));
                assert(start[k].state != GameState::Stopped);
                assert(mid[k].state != GameState::Stopped);
                let j = choose|j: int| 0 <= j < kept@.len() && picked[j] == k;
                assert(gs[j] == mid[k]);
            }
        }
    }

    /// The reply of a failed request.
    pub open spec fn refusal(f: Failure) -> Seq<ClientAction> {
        seq![ClientAction::Error(f)]
    }

    /// Routes one request from connection `conn`, whose membership record is
    /// `session`, to the game it addresses. Returns the actions for `conn`
    /// itself; what other connections must be told goes to `out`.
    pub fn handle(&mut self, conn: ConnId, session: &Connection, packet: ClientPackets, now: u64, out: &mut Vec<
        Delivery,
    >) -> (r: Vec<ClientAction>)
        requires
            old(self).wf(),
        ensures
            final(self).wf(),
            match packet {
                ClientPackets::CreateGame { title, questions } => {
                    &&& r@.len() == 1
                    &&& final(out)@ == old(out)@
                    &&& r@[0] is CreatedGame || r@ == Self::refusal(Failure::CapacityExceeded)
                    &&& no_identifier_games(old(self).games@) ==> r@[0] is CreatedGame
                    &&& r@[0] is Error ==> *final(self) == *old(self)
                    &&& r@[0] matches ClientAction::CreatedGame { id, title: t } ==> {
                        &&& t == title
                        &&& is_identifier(id@)
                        &&& create_effect(*old(self), *final(self), id@, conn, title, now)
                        &&& wrapped_questions(final(self).games@.last().questions@, questions@)
                    }
                },
                ClientPackets::CheckNameTaken { id, name } => {
                    &&& *final(self) == *old(self)
                    &&& final(out)@ == old(out)@
                    &&& old(self).has_game(id@) ==> r@ == seq![
                        ClientAction::NameTakenResult(roster_has_name(old(self).game_of(id@).players@, name@)),
                    ]
                    &&& !old(self).has_game(id@) ==> r@ == Self::refusal(Failure::GameNotFound)
                },
                ClientPackets::RequestGameState { id } => {
                    &&& *final(self) == *old(self)
                    &&& final(out)@ == old(out)@
                    &&& r@ == seq![ClientAction::Packet(ServerPackets::GameState { state: old(self).state_of(id@) })]
                },
                ClientPackets::RequestJoin { id, name } => {
                    &&& r@.len() == 1
                    &&& r@[0] is JoinedGame || r@[0] is Error
                    &&& !old(self).has_game(id@) ==> r@ == Self::refusal(Failure::GameNotFound)
                    &&& old(self).has_game(id@) && roster_has_name(old(self).game_of(id@).players@, name@) ==> r@
                        == Self::refusal(Failure::NameTaken)
                    &&& old(self).has_game(id@) && !roster_has_name(old(self).game_of(id@).players@, name@)
                        && no_identifier_ids(old(self).game_of(id@).players@) ==> r@[0] is JoinedGame
                    &&& r@[0] is Error ==> final(self).games@ == old(self).games@ && final(out)@ == old(out)@
                    &&& r@[0] matches ClientAction::JoinedGame { id: gid, player_id, title } ==> {
                        let i = old(self).index_of(id@);
                        &&& gid == id
                        &&& old(self).has_game(id@)
                        &&& title == old(self).games@[i].title
                        &&& !roster_has_name(old(self).games@[i].players@, name@)
                        &&& is_identifier(player_id@)
                        &&& final(self).games@ == old(self).games@.update(i, final(self).games@[i])
                        &&& join_effect(
                            old(self).games@[i],
                            final(self).games@[i],
                            player_id@,
                            name@,
                            conn,
                            old(out)@,
                            final(out)@,
                        )
                    }
                },
                ClientPackets::StateChange { state: StateChange::Start } => {
                    &&& !session.hosting ==> r@ == Self::refusal(Failure::NotAuthorized)
                    &&& session.hosting && session.game_id is None ==> r@ == Self::refusal(Failure::NotInGame)
                    &&& session.hosting && session.game_id is Some && !hosts_present_game(*old(self), *session)
                        ==> r@ == seq![ClientAction::Error(Failure::NotInGame), ClientAction::Disconnect]
                    &&& !hosts_present_game(*old(self), *session) ==> *final(self) == *old(self) && final(out)@
                        == old(out)@
                    &&& hosts_present_game(*old(self), *session) ==> r@.len() == 0 && start_game_effect(
                        *old(self),
                        *final(self),
                        *session,
                        now,
                        old(out)@,
                        final(out)@,
                    )
                },
                ClientPackets::StateChange { state: StateChange::Skip } => {
                    &&& *final(self) == *old(self)
                    &&& final(out)@ == old(out)@
                    &&& r@.len() == 0
                },
                ClientPackets::StateChange { state: StateChange::Disconnect } => {
                    &&& r@ == seq![ClientAction::Disconnect]
                    &&& leave_effect(*old(self), *final(self), *session, old(out)@, final(out)@)
                },
                ClientPackets::Answer { .. } => {
                    &&& *final(self) == *old(self)
                    &&& final(out)@ == old(out)@
                    &&& r@.len() == 0
                },
                ClientPackets::Kick { id } => {
                    &&& !session.hosting ==> r@ == Self::refusal(Failure::NotAuthorized)
                    &&& session.hosting && !hosts_present_game(*old(self), *session) ==> r@ == Self::refusal(
                        Failure::NotInGame,
                    )
                    &&& !hosts_present_game(*old(self), *session) ==> *final(self) == *old(self) && final(out)@
                        == old(out)@
                    &&& hosts_present_game(*old(self), *session) ==> r@.len() == 0 && kick_effect(
                        *old(self),
                        *final(self),
                        *session,
                        id@,
                        old(out)@,
                        final(out)@,
                    )
                },
            },
    {
        let mut r: Vec<ClientAction> = Vec::new();
        match packet {
            ClientPackets::CreateGame { title, questions } => {
                let t = title.clone();
                match self.create_game(conn, title, questions, now) {
                    Ok(id) => r.push(ClientAction::CreatedGame { id, title: t }),
                    Err(f) => r.push(ClientAction::Error(f)),
                }
            },
            ClientPackets::CheckNameTaken { id, name } => {
                match self.check_name_taken(&id, &name) {
                    Ok(taken) => r.push(ClientAction::NameTakenResult(taken)),
                    Err(f) => r.push(ClientAction::Error(f)),
                }
            },
            ClientPackets::RequestGameState { id } => {
                let state = self.game_state(&id);
                r.push(ClientAction::Packet(ServerPackets::GameState { state }));
            },
            ClientPackets::RequestJoin { id, name } => {
                match self.find_game(&id) {
                    None => r.push(ClientAction::Error(Failure::GameNotFound)),
                    Some(i) => {
                        let title = self.games[i].title.clone();
                        match self.request_join(conn, &id, name, out) {
                            Ok(player_id) => r.push(ClientAction::JoinedGame { id, player_id, title }),
                            Err(f) => r.push(ClientAction::Error(f)),
                        }
                    },
                }
            },
            ClientPackets::StateChange { state } => {
                match state {
                    StateChange::Start => {
                        match self.start_game(session, now, out) {
                            Ok(()) => {},
                            Err(f) => {
                                r.push(ClientAction::Error(f));
                                if session.hosting && session.game_id.is_some() {
                                    // The game is gone: the connection drops its membership.
                                    r.push(ClientAction::Disconnect);
                                }
                            },
                        }
                    },
                    StateChange::Skip => {},
                    StateChange::Disconnect => {
                        self.leave(session, out);
                        r.push(ClientAction::Disconnect);
                    },
                }
            },
            ClientPackets::Answer { .. } => {},
            ClientPackets::Kick { id } => {
                match self.kick(session, &id, out) {
                    Ok(()) => {},
                    Err(f) => r.push(ClientAction::Error(f)),
                }
            },
        }
        proof {
            if r@.len() == 1 {
                assert(r@ == seq![r@[0]]);
            }
            if r@.len() == 2 {
                assert(r@ == seq![r@[0], r@[1]]);
            }
        }
        r
    }
}

/// In a well-formed registry no two games share an identifier, and no game
/// is `Stopped`: a game that stops is gone once the tick that saw it ends.
pub proof fn lemma_registry_ids_distinct(m: GameManager, i: int, j: int)
    requires
        m.wf(),
        0 <= i < m.games@.len(),
        0 <= j < m.games@.len(),
        i != j,
    ensures
        m.games@[i].id@ != m.games@[j].id@,
        m.games@[i].state != GameState::Stopped,
{
}

/// Two games created one after the other get different identifiers: the
/// second identifier is one that no game held when it was drawn, and the
/// first game was there by then.
pub proof fn lemma_created_ids_differ(m0: GameManager, m1: GameManager, id1: Seq<char>, id2: Seq<char>)
    requires
        m1.games@.drop_last() == m0.games@,
        m1.games@.len() == m0.games@.len() + 1,
        m1.games@.last().id@ == id1,
        !m1.has_game(id2),
    ensures
        id1 != id2,
{
    assert(m1.games@[m1.games@.len() - 1].id@ == id1);
}

} // verus!
