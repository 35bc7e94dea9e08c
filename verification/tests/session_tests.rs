use schnake::protocol::{Direction, GameState, NetMsg, Point};
use schnake::session::{PeerEvent, Role, Session};

fn host() -> Session {
    let mut s = Session::new("p1".to_string());
    s.begin_host();
    s
}

#[test]
fn new_session_defaults() {
    let s = Session::new("p42".to_string());
    assert_eq!(s.local_id, "p42");
    assert_eq!(s.local_name, "player");
    assert_eq!(s.local_color, "#2f7d54");
    assert_eq!(s.role, Role::Idle);
    assert!(s.state.snakes.is_empty());
}

#[test]
fn names_are_synced_unless_blank() {
    let mut s = Session::new("p".to_string());
    s.sync_name("  Ann ");
    assert_eq!(s.local_name, "Ann");
    s.sync_name("   ");
    assert_eq!(s.local_name, "Ann");
}

#[test]
fn stored_profile_is_checked() {
    let mut s = Session::new("p".to_string());
    s.apply_stored_profile(Some("Bob"), Some("#ffffff"));
    assert_eq!(s.local_name, "Bob");
    assert_eq!(s.local_color, "#2f7d54");
    s.apply_stored_profile(None, Some("#148184"));
    assert_eq!(s.local_name, "Bob");
    assert_eq!(s.local_color, "#148184");
    s.apply_stored_profile(Some(" "), None);
    assert_eq!(s.local_name, "Bob");
}

#[test]
fn colors_come_from_the_palette() {
    let mut s = Session::new("p".to_string());
    assert!(s.set_local_color("#8f5bb3"));
    assert_eq!(s.local_color, "#8f5bb3");
    assert!(!s.set_local_color("red"));
    assert_eq!(s.local_color, "#8f5bb3");
}

#[test]
fn hosting_adds_the_own_snake_once() {
    let mut s = host();
    assert_eq!(s.role, Role::Host);
    assert_eq!(s.state.snakes.len(), 1);
    assert_eq!(s.state.snakes[0].id, "p1");
    assert_eq!(s.state.snakes[0].name, "player");
    s.begin_host();
    assert_eq!(s.state.snakes.len(), 1);
}

#[test]
fn only_the_host_starts() {
    let mut s = Session::new("p".to_string());
    assert!(!s.start_game());
    assert!(!s.state.started);
    s.role = Role::Client;
    assert!(!s.start_game());
    let mut h = host();
    assert!(h.start_game());
    assert!(h.state.started);
}

#[test]
fn timer_ticks_a_started_host_only() {
    let mut h = host();
    assert!(!h.on_timer());
    assert_eq!(h.state.tick, 0);
    h.start_game();
    assert!(h.on_timer());
    assert_eq!(h.state.tick, 1);
    assert_eq!(h.state.snakes[0].body[0], Point { x: 6, y: 5 });
    let mut c = Session::new("c".to_string());
    c.role = Role::Client;
    c.state.started = true;
    assert!(!c.on_timer());
    assert_eq!(c.state.tick, 0);
}

#[test]
fn steering_depends_on_role() {
    let mut h = host();
    assert!(h.steer(Direction::Up).is_none());
    assert_eq!(h.state.snakes[0].pending, Direction::Up);
    let mut c = Session::new("c".to_string());
    c.role = Role::Client;
    match c.steer(Direction::Left) {
        Some(NetMsg::Input { id, dir }) => {
            assert_eq!(id, "c");
            assert_eq!(dir, Direction::Left);
        }
        _ => panic!("expected an input message"),
    }
    let mut i = Session::new("i".to_string());
    assert!(i.steer(Direction::Left).is_none());
}

#[test]
fn opening_messages() {
    let h = host();
    match h.opening_message(true) {
        NetMsg::State { state } => assert_eq!(state.snakes.len(), 1),
        _ => panic!("expected the board"),
    }
    match h.opening_message(false) {
        NetMsg::Hello { id, name, color } => {
            assert_eq!(id, "p1");
            assert_eq!(name, "player");
            assert_eq!(color, "#2f7d54");
        }
        _ => panic!("expected a greeting"),
    }
}

#[test]
fn host_handles_greetings_and_turns() {
    let mut h = host();
    let e = h.receive(true, NetMsg::Hello { id: "p2".to_string(), name: "Bo".to_string(), color: "#d14d41".to_string() });
    assert_eq!(e, PeerEvent::PlayerJoined);
    assert_eq!(h.state.snakes.len(), 2);
    assert_eq!(h.state.snakes[1].body[0], Point { x: 10, y: 8 });
    let e = h.receive(true, NetMsg::Input { id: "p2".to_string(), dir: Direction::Down });
    assert_eq!(e, PeerEvent::Steered);
    assert_eq!(h.state.snakes[1].pending, Direction::Down);
    let e = h.receive(true, NetMsg::State { state: GameState::new() });
    assert_eq!(e, PeerEvent::Ignored);
    assert_eq!(h.state.snakes.len(), 2);
}

#[test]
fn client_takes_the_board_only() {
    let mut c = Session::new("c".to_string());
    c.role = Role::Client;
    let mut board = GameState::new();
    board.started = true;
    board.tick = 9;
    let e = c.receive(false, NetMsg::State { state: board });
    assert_eq!(e, PeerEvent::BoardReplaced { started: true });
    assert_eq!(c.state.tick, 9);
    let e = c.receive(false, NetMsg::Hello { id: "x".to_string(), name: "x".to_string(), color: "x".to_string() });
    assert_eq!(e, PeerEvent::Ignored);
    let e = c.receive(false, NetMsg::Input { id: "c".to_string(), dir: Direction::Up });
    assert_eq!(e, PeerEvent::Ignored);
    assert_eq!(c.state.tick, 9);
}

#[test]
fn host_controls_visibility() {
    let s = Session::new("p".to_string());
    assert_eq!(s.hidden_actions(), (true, true));
    let mut h = host();
    assert_eq!(h.hidden_actions(), (false, false));
    h.start_game();
    assert_eq!(h.hidden_actions(), (false, true));
}

#[test]
fn host_board_reaches_client() {
    let mut h = host();
    h.receive(true, NetMsg::Hello { id: "c".to_string(), name: "Cy".to_string(), color: "#148184".to_string() });
    h.start_game();
    h.on_timer();
    let mut c = Session::new("c".to_string());
    c.role = Role::Client;
    let e = c.receive(false, h.opening_message(true));
    assert_eq!(e, PeerEvent::BoardReplaced { started: true });
    assert_eq!(c.state.tick, h.state.tick);
    assert_eq!(c.state.apple, h.state.apple);
    assert_eq!(c.state.seed, h.state.seed);
    assert_eq!(c.state.snakes.len(), 2);
    for (a, b) in c.state.snakes.iter().zip(h.state.snakes.iter()) {
        assert_eq!(a.id, b.id);
        assert_eq!(a.body, b.body);
        assert_eq!(a.score, b.score);
    }
}
