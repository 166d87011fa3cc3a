use quizler::connection::Connection;
use quizler::game::{ClientAction, Delivery, Player, START_DELAY};
use quizler::identifier::SYMBOLS;
use quizler::manager::GameManager;
use quizler::packets::{
    ClientPackets, DisconnectReason, Failure, GameState, PlayerDataMode, QuestionData, ServerPackets,
    StateChange,
};

const HOST: u64 = 1;

fn question(text: &str) -> QuestionData {
    QuestionData {
        image_type: String::from("image/png"),
        image: vec![1, 2, 3],
        question: String::from(text),
        values: vec![String::from("yes"), String::from("no")],
        answers: vec![0],
    }
}

/// Creates a game hosted on `HOST` and returns the manager, the host's
/// connection record and the game's identifier.
fn hosted_game(now: u64) -> (GameManager, Connection, String) {
    let mut m = GameManager::new();
    let mut host = Connection::new();
    let mut out = Vec::new();
    let r = m.handle(
        HOST,
        &host,
        ClientPackets::CreateGame { title: String::from("Trivia Night"), questions: vec![question("q1"), question("q2")] },
        now,
        &mut out,
    );
    assert!(out.is_empty());
    assert_eq!(r.len(), 1);
    let id = match &r[0] {
        ClientAction::CreatedGame { id, title } => {
            assert_eq!(title, "Trivia Night");
            id.clone()
        }
        other => panic!("unexpected {:?}", other),
    };
    for a in r {
        host.handle_action(a);
    }
    (m, host, id)
}

fn join(m: &mut GameManager, conn: u64, id: &str, name: &str, out: &mut Vec<Delivery>) -> (Vec<ClientAction>, Connection) {
    let mut c = Connection::new();
    let r = m.handle(
        conn,
        &c,
        ClientPackets::RequestJoin { id: String::from(id), name: String::from(name) },
        0,
        out,
    );
    for a in &r {
        if let ClientAction::JoinedGame { id, player_id, title } = a {
            c.handle_action(ClientAction::JoinedGame { id: id.clone(), player_id: player_id.clone(), title: title.clone() });
        }
    }
    (r, c)
}

fn state_of(m: &GameManager, id: &str) -> GameState {
    m.game_state(&String::from(id))
}

fn to(out: &[Delivery], conn: u64) -> Vec<&ClientAction> {
    out.iter().filter(|d| d.to == conn).map(|d| &d.action).collect()
}

fn player_data(a: &ClientAction) -> Option<(String, String, PlayerDataMode)> {
    match a {
        ClientAction::Packet(ServerPackets::PlayerData { id, name, mode }) => Some((id.clone(), name.clone(), *mode)),
        _ => None,
    }
}

#[test]
fn create_game_gives_code_and_waiting_state() {
    let (m, host, id) = hosted_game(0);
    assert_eq!(id.chars().count(), 5);
    assert!(id.chars().all(|c| SYMBOLS.contains(c)));
    assert_eq!(state_of(&m, &id), GameState::Waiting);
    assert!(host.hosting);
    assert_eq!(host.game_id, Some(id.clone()));
    assert_eq!(host.player_id, None);
    let g = &m.games[0];
    assert_eq!(g.questions.len(), 2);
    assert_eq!(g.questions[1].data, question("q2"));
    assert!(g.questions.iter().all(|q| q.start_time.is_none()));
    assert_eq!(g.host, HOST);
}

#[test]
fn request_game_state_of_unknown_game() {
    let (mut m, host, _) = hosted_game(0);
    let mut out = Vec::new();
    let r = m.handle(HOST, &host, ClientPackets::RequestGameState { id: String::from("ZZZZZ") }, 0, &mut out);
    assert_eq!(r, vec![ClientAction::Packet(ServerPackets::GameState { state: GameState::DoesNotExist })]);
}

#[test]
fn many_games_get_distinct_codes() {
    let mut m = GameManager::new();
    let host = Connection::new();
    let mut out = Vec::new();
    for k in 0..100u64 {
        let r = m.handle(k, &host, ClientPackets::CreateGame { title: String::from("t"), questions: vec![] }, 0, &mut out);
        assert!(matches!(r[0], ClientAction::CreatedGame { .. }));
    }
    let mut ids: Vec<String> = m.games.iter().map(|g| g.id.clone()).collect();
    assert_eq!(ids.len(), 100);
    ids.sort();
    ids.dedup();
    assert_eq!(ids.len(), 100);
}

#[test]
fn second_join_with_same_name_in_other_case_is_name_taken() {
    let (mut m, _, id) = hosted_game(0);
    let mut out = Vec::new();
    let (r1, c1) = join(&mut m, 10, &id, "Alice", &mut out);
    assert!(matches!(r1[0], ClientAction::JoinedGame { .. }));
    assert!(!c1.hosting);
    assert_eq!(c1.game_id, Some(id.clone()));
    let before = out.len();
    let (r2, c2) = join(&mut m, 11, &id, "alice", &mut out);
    assert_eq!(r2, vec![ClientAction::Error(Failure::NameTaken)]);
    assert_eq!(out.len(), before);
    assert_eq!(m.games[0].players.len(), 1);
    assert_eq!(c2.game_id, None);
}

#[test]
fn check_name_taken_is_case_insensitive_and_per_game() {
    let (mut m, host, id) = hosted_game(0);
    let mut out = Vec::new();
    join(&mut m, 10, &id, "Alice", &mut out);
    let r = m.handle(HOST, &host, ClientPackets::CheckNameTaken { id: id.clone(), name: String::from("ALICE") }, 0, &mut out);
    assert_eq!(r, vec![ClientAction::NameTakenResult(true)]);
    let r = m.handle(HOST, &host, ClientPackets::CheckNameTaken { id: id.clone(), name: String::from("Bob") }, 0, &mut out);
    assert_eq!(r, vec![ClientAction::NameTakenResult(false)]);
    let r = m.handle(HOST, &host, ClientPackets::CheckNameTaken { id: String::from("nope"), name: String::from("Alice") }, 0, &mut out);
    assert_eq!(r, vec![ClientAction::Error(Failure::GameNotFound)]);
    // Another game does not see Alice.
    let r = m.handle(2, &Connection::new(), ClientPackets::CreateGame { title: String::from("x"), questions: vec![] }, 0, &mut out);
    let other = match &r[0] {
        ClientAction::CreatedGame { id, .. } => id.clone(),
        a => panic!("{:?}", a),
    };
    let (r, _) = join(&mut m, 12, &other, "alice", &mut out);
    assert!(matches!(r[0], ClientAction::JoinedGame { .. }));
}

#[test]
fn join_unknown_game_is_game_not_found() {
    let (mut m, _, _) = hosted_game(0);
    let mut out = Vec::new();
    let (r, _) = join(&mut m, 10, "00000", "Alice", &mut out);
    assert_eq!(r, vec![ClientAction::Error(Failure::GameNotFound)]);
    assert!(out.is_empty());
}

#[test]
fn joins_keep_every_roster_view_in_step() {
    let (mut m, _, id) = hosted_game(0);
    let mut out = Vec::new();
    let names = ["Ann", "Ben", "Cat"];
    for (k, n) in names.iter().enumerate() {
        join(&mut m, 10 + k as u64, &id, n, &mut out);
    }
    let players = &m.games[0].players;
    assert_eq!(players.len(), 3);
    let all: Vec<String> = players.iter().map(|p| p.id.clone()).collect();
    // The host knows all three.
    let mut host_adds: Vec<String> = to(&out, HOST).iter().filter_map(|a| player_data(a)).filter(|d| d.2 == PlayerDataMode::Add).map(|d| d.0).collect();
    host_adds.sort();
    let mut expect = all.clone();
    expect.sort();
    assert_eq!(host_adds, expect);
    for (k, p) in players.iter().enumerate() {
        let recs: Vec<(String, String, PlayerDataMode)> = to(&out, 10 + k as u64).iter().filter_map(|a| player_data(a)).collect();
        let mut adds: Vec<String> = recs.iter().filter(|d| d.2 == PlayerDataMode::Add).map(|d| d.0.clone()).collect();
        adds.sort();
        let mut others: Vec<String> = all.iter().filter(|i| **i != p.id).cloned().collect();
        others.sort();
        assert_eq!(adds, others, "player {}", p.name);
        let mes: Vec<&(String, String, PlayerDataMode)> = recs.iter().filter(|d| d.2 == PlayerDataMode::Me).collect();
        assert_eq!(mes.len(), 1);
        assert_eq!(mes[0].0, p.id);
        assert_eq!(mes[0].1, names[k]);
    }
}

#[test]
fn join_sends_existing_roster_then_self_then_host() {
    let (mut m, _, id) = hosted_game(0);
    let mut out = Vec::new();
    join(&mut m, 10, &id, "Ann", &mut out);
    out.clear();
    join(&mut m, 11, &id, "Ben", &mut out);
    let ann = m.games[0].players[0].as_data(PlayerDataMode::Add);
    let ben = &m.games[0].players[1];
    assert_eq!(
        out,
        vec![
            Delivery { to: 10, action: ClientAction::Packet(ben.as_data(PlayerDataMode::Add)) },
            Delivery { to: 11, action: ClientAction::Packet(ann) },
            Delivery { to: 11, action: ClientAction::Packet(ben.as_data(PlayerDataMode::Me)) },
            Delivery { to: HOST, action: ClientAction::Packet(ben.as_data(PlayerDataMode::Add)) },
        ]
    );
}

#[test]
fn start_then_tick_after_delay_makes_game_started() {
    let (mut m, host, id) = hosted_game(0);
    let mut out = Vec::new();
    join(&mut m, 10, &id, "Ann", &mut out);
    out.clear();
    let r = m.handle(HOST, &host, ClientPackets::StateChange { state: StateChange::Start }, 1000, &mut out);
    assert!(r.is_empty());
    let starting = ClientAction::Packet(ServerPackets::GameState { state: GameState::Starting });
    assert_eq!(out, vec![Delivery { to: 10, action: starting.duplicate() }, Delivery { to: HOST, action: starting }]);
    assert_eq!(state_of(&m, &id), GameState::Starting);
    out.clear();
    m.tick(1000 + START_DELAY - 1, &mut out);
    assert_eq!(state_of(&m, &id), GameState::Starting);
    m.tick(1000 + START_DELAY, &mut out);
    assert_eq!(state_of(&m, &id), GameState::Started);
    m.tick(1000 + START_DELAY + 1000, &mut out);
    assert_eq!(state_of(&m, &id), GameState::Started);
    assert_eq!(m.games.len(), 1);
}

#[test]
fn tick_sends_time_sync_every_two_seconds() {
    let (mut m, host, id) = hosted_game(0);
    let mut out = Vec::new();
    join(&mut m, 10, &id, "Ann", &mut out);
    m.handle(HOST, &host, ClientPackets::StateChange { state: StateChange::Start }, 0, &mut out);
    out.clear();
    m.tick(1000, &mut out);
    assert!(out.is_empty());
    m.tick(2000, &mut out);
    let sync = ClientAction::Packet(ServerPackets::TimeSync { total: 5000, remaining: 3000 });
    assert_eq!(out, vec![Delivery { to: 10, action: sync.duplicate() }, Delivery { to: HOST, action: sync }]);
    out.clear();
    m.tick(3000, &mut out);
    assert!(out.is_empty());
    m.tick(6000, &mut out);
    assert_eq!(out.len(), 2);
    assert_eq!(out[1].action, ClientAction::Packet(ServerPackets::TimeSync { total: 5000, remaining: 0 }));
    out.clear();
    m.tick(9000, &mut out);
    assert!(out.is_empty());
}

#[test]
fn start_by_non_host_is_not_authorized() {
    let (mut m, _, id) = hosted_game(0);
    let mut out = Vec::new();
    let (_, player) = join(&mut m, 10, &id, "Ann", &mut out);
    out.clear();
    let r = m.handle(10, &player, ClientPackets::StateChange { state: StateChange::Start }, 0, &mut out);
    assert_eq!(r, vec![ClientAction::Error(Failure::NotAuthorized)]);
    assert_eq!(state_of(&m, &id), GameState::Waiting);
    assert!(out.is_empty());
}

#[test]
fn start_of_missing_game_is_not_in_game() {
    let mut m = GameManager::new();
    let ghost = Connection { hosting: true, player_id: None, game_id: Some(String::from("ABCDE")) };
    let mut out = Vec::new();
    let r = m.handle(HOST, &ghost, ClientPackets::StateChange { state: StateChange::Start }, 0, &mut out);
    assert_eq!(r, vec![ClientAction::Error(Failure::NotInGame), ClientAction::Disconnect]);
    let mut ghost = ghost;
    let frames: Vec<ServerPackets> = r.into_iter().flat_map(|a| ghost.handle_action(a)).collect();
    assert_eq!(frames, vec![ServerPackets::Error { cause: Failure::NotInGame }]);
    assert!(!ghost.hosting && ghost.game_id.is_none());
}

#[test]
fn start_without_game_id_is_not_in_game_alone() {
    let mut m = GameManager::new();
    let odd = Connection { hosting: true, player_id: None, game_id: None };
    let mut out = Vec::new();
    let r = m.handle(HOST, &odd, ClientPackets::StateChange { state: StateChange::Start }, 0, &mut out);
    assert_eq!(r, vec![ClientAction::Error(Failure::NotInGame)]);
}

#[test]
fn kick_in_missing_game_is_not_in_game() {
    let mut m = GameManager::new();
    let ghost = Connection { hosting: true, player_id: None, game_id: Some(String::from("ABCDE")) };
    let mut out = Vec::new();
    let r = m.handle(HOST, &ghost, ClientPackets::Kick { id: String::from("11111") }, 0, &mut out);
    assert_eq!(r, vec![ClientAction::Error(Failure::NotInGame)]);
}

#[test]
fn kick_by_non_host_is_refused_and_removes_no_one() {
    let (mut m, _, id) = hosted_game(0);
    let mut out = Vec::new();
    let (_, ann) = join(&mut m, 10, &id, "Ann", &mut out);
    join(&mut m, 11, &id, "Ben", &mut out);
    out.clear();
    let ben_id = m.games[0].players[1].id.clone();
    let r = m.handle(10, &ann, ClientPackets::Kick { id: ben_id }, 0, &mut out);
    assert_eq!(r, vec![ClientAction::Error(Failure::NotAuthorized)]);
    assert_eq!(m.games[0].players.len(), 2);
    assert!(out.is_empty());
}

#[test]
fn kick_by_host_removes_player_and_tells_everyone() {
    let (mut m, host, id) = hosted_game(0);
    let mut out = Vec::new();
    join(&mut m, 10, &id, "Ann", &mut out);
    join(&mut m, 11, &id, "Ben", &mut out);
    out.clear();
    let ann_id = m.games[0].players[0].id.clone();
    let ann_remove = m.games[0].players[0].as_data(PlayerDataMode::Remove);
    let r = m.handle(HOST, &host, ClientPackets::Kick { id: ann_id.clone() }, 0, &mut out);
    assert!(r.is_empty());
    assert_eq!(m.games[0].players.len(), 1);
    assert_eq!(m.games[0].players[0].name, "Ben");
    assert_eq!(
        out,
        vec![
            Delivery { to: 11, action: ClientAction::Packet(ann_remove) },
            Delivery { to: 10, action: ClientAction::Packet(ServerPackets::Disconnect { reason: DisconnectReason::Removed }) },
            Delivery { to: 10, action: ClientAction::Disconnect },
        ]
    );
    // Kicking someone who is not there changes nothing.
    out.clear();
    let r = m.handle(HOST, &host, ClientPackets::Kick { id: ann_id }, 0, &mut out);
    assert!(r.is_empty());
    assert!(out.is_empty());
    assert_eq!(m.games[0].players.len(), 1);
}

#[test]
fn host_disconnect_ends_game_for_everyone() {
    let (mut m, host, id) = hosted_game(0);
    let mut out = Vec::new();
    join(&mut m, 10, &id, "Ann", &mut out);
    join(&mut m, 11, &id, "Ben", &mut out);
    m.handle(HOST, &host, ClientPackets::StateChange { state: StateChange::Start }, 0, &mut out);
    m.tick(6000, &mut out);
    out.clear();
    let r = m.handle(HOST, &host, ClientPackets::StateChange { state: StateChange::Disconnect }, 7000, &mut out);
    assert_eq!(r, vec![ClientAction::Disconnect]);
    assert!(!m.is_game_id(&id));
    assert_eq!(state_of(&m, &id), GameState::DoesNotExist);
    let ended = ClientAction::Packet(ServerPackets::Disconnect { reason: DisconnectReason::GameEnded });
    for conn in [10u64, 11] {
        assert_eq!(to(&out, conn), vec![&ended]);
    }
    assert_eq!(DisconnectReason::GameEnded.text(), "Game ended.");
}

#[test]
fn player_leaving_keeps_game() {
    let (mut m, _, id) = hosted_game(0);
    let mut out = Vec::new();
    let (_, ann) = join(&mut m, 10, &id, "Ann", &mut out);
    join(&mut m, 11, &id, "Ben", &mut out);
    let r = m.handle(10, &ann, ClientPackets::StateChange { state: StateChange::Disconnect }, 0, &mut out);
    assert_eq!(r, vec![ClientAction::Disconnect]);
    assert!(m.is_game_id(&id));
    assert_eq!(m.games[0].players.len(), 1);
}

#[test]
fn skip_and_answer_change_nothing() {
    let (mut m, host, id) = hosted_game(0);
    let mut out = Vec::new();
    assert!(m.handle(HOST, &host, ClientPackets::StateChange { state: StateChange::Skip }, 0, &mut out).is_empty());
    assert!(m.handle(HOST, &host, ClientPackets::Answer { id: 1 }, 0, &mut out).is_empty());
    assert_eq!(state_of(&m, &id), GameState::Waiting);
    assert!(out.is_empty());
}

#[test]
fn connection_renders_actions_as_frames() {
    let mut c = Connection::new();
    let frames = c.handle_action(ClientAction::CreatedGame { id: String::from("AB12F"), title: String::from("T") });
    assert_eq!(
        frames,
        vec![
            ServerPackets::JoinedGame { id: String::from("AB12F"), owner: true, title: String::from("T") },
            ServerPackets::GameState { state: GameState::Waiting },
        ]
    );
    assert!(c.hosting);
    let frames = c.handle_action(ClientAction::Error(Failure::NotInGame));
    assert_eq!(frames, vec![ServerPackets::Error { cause: Failure::NotInGame }]);
    let frames = c.handle_action(ClientAction::NameTakenResult(true));
    assert_eq!(frames, vec![ServerPackets::NameTakenResult { result: true }]);
    let frames = c.handle_action(ClientAction::Disconnect);
    assert!(frames.is_empty());
    assert!(!c.hosting && c.game_id.is_none() && c.player_id.is_none());
    let frames = c.handle_action(ClientAction::JoinedGame { id: String::from("00000"), player_id: String::from("11111"), title: String::from("Q") });
    assert_eq!(frames, vec![ServerPackets::JoinedGame { id: String::from("00000"), owner: false, title: String::from("Q") }]);
    assert_eq!(c.player_id, Some(String::from("11111")));
    assert!(!c.hosting);
}

#[test]
fn failure_causes_read_as_text() {
    assert_eq!(Failure::GameNotFound.cause(), "That game code doesn't exist");
    assert_eq!(Failure::NameTaken.cause(), "That name is already in use");
    assert_eq!(Failure::NotAuthorized.cause(), "You are not the host.");
    assert_eq!(Failure::NotInGame.cause(), "You are not in a game.");
    assert_eq!(DisconnectReason::Removed.text(), "Removed from game.");
}

#[test]
fn new_player_record_starts_empty() {
    let p = Player::new(String::from("ABCDE"), String::from("Zed"), 42);
    assert_eq!(p.score, 0);
    assert!(p.answers.is_empty());
    assert!(p.answer_time.is_none());
    assert_eq!(p.conn, 42);
    assert_eq!(
        p.as_data(PlayerDataMode::Me),
        ServerPackets::PlayerData { id: String::from("ABCDE"), name: String::from("Zed"), mode: PlayerDataMode::Me }
    );
}

#[test]
fn broadcast_excluding_skips_one_player_only() {
    let (mut m, _, id) = hosted_game(0);
    let mut out = Vec::new();
    join(&mut m, 10, &id, "Ann", &mut out);
    join(&mut m, 11, &id, "Ben", &mut out);
    join(&mut m, 12, &id, "Cat", &mut out);
    out.clear();
    let g = m.get_game(&id).unwrap();
    let ben = g.players[1].id.clone();
    let p = ServerPackets::NameTakenResult { result: true };
    g.broadcast_excluding(&ben, p.duplicate(), &mut out);
    let conns: Vec<u64> = out.iter().map(|d| d.to).collect();
    assert_eq!(conns, vec![10, 12, HOST]);
    assert!(out.iter().all(|d| d.action == ClientAction::Packet(p.duplicate())));
    out.clear();
    g.broadcast(p.duplicate(), &mut out);
    let conns: Vec<u64> = out.iter().map(|d| d.to).collect();
    assert_eq!(conns, vec![10, 11, 12, HOST]);
}

#[test]
fn get_and_insert_game() {
    let mut m = GameManager::new();
    assert!(m.get_game(&String::from("ABCDE")).is_none());
    let g = quizler::game::Game::new(5, String::from("ABCDE"), String::from("Quiz"), vec![], 0);
    m.insert_game(g);
    let found = m.get_game(&String::from("ABCDE")).unwrap();
    assert_eq!(found.title, "Quiz");
    assert_eq!(found.host, 5);
    assert_eq!(found.state, GameState::Waiting);
    assert!(m.is_game_id(&String::from("ABCDE")));
    assert!(!m.is_game_id(&String::from("abcde")));
}

#[test]
fn second_start_changes_nothing() {
    let (mut m, host, id) = hosted_game(0);
    let mut out = Vec::new();
    m.handle(HOST, &host, ClientPackets::StateChange { state: StateChange::Start }, 0, &mut out);
    m.tick(START_DELAY, &mut out);
    assert_eq!(state_of(&m, &id), GameState::Started);
    out.clear();
    let r = m.handle(HOST, &host, ClientPackets::StateChange { state: StateChange::Start }, START_DELAY + 10, &mut out);
    assert!(r.is_empty());
    assert!(out.is_empty());
    assert_eq!(state_of(&m, &id), GameState::Started);
}

#[test]
fn player_leaving_tells_the_rest() {
    let (mut m, _, id) = hosted_game(0);
    let mut out = Vec::new();
    let (_, ann) = join(&mut m, 10, &id, "Ann", &mut out);
    join(&mut m, 11, &id, "Ben", &mut out);
    let ann_remove = m.games[0].players[0].as_data(PlayerDataMode::Remove);
    out.clear();
    m.handle(10, &ann, ClientPackets::StateChange { state: StateChange::Disconnect }, 0, &mut out);
    assert_eq!(
        out,
        vec![
            Delivery { to: 11, action: ClientAction::Packet(ann_remove) },
            Delivery { to: 10, action: ClientAction::Packet(ServerPackets::Disconnect { reason: DisconnectReason::Removed }) },
            Delivery { to: 10, action: ClientAction::Disconnect },
        ]
    );
    assert_eq!(state_of(&m, &id), GameState::Waiting);
}
