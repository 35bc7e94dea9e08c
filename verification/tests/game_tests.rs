use schnake::game::{contains_point, APPLE_TRIES, MAX_SNAKES};
use schnake::protocol::{opposite, palette_color, is_palette_color, Direction, GameState, NetMsg, Point, Snake, GRID_H, GRID_W, INITIAL_SEED, PALETTE_LEN};

fn pt(x: i32, y: i32) -> Point {
    Point { x, y }
}

fn snake(id: &str, body: Vec<Point>, dir: Direction) -> Snake {
    Snake {
        id: id.to_string(),
        name: id.to_string(),
        color: "#2f7d54".to_string(),
        body,
        dir,
        pending: dir,
        score: 0,
    }
}

fn lcg(seed: u32) -> u32 {
    seed.wrapping_mul(1_664_525).wrapping_add(1_013_904_223)
}

fn board_is_well_formed(g: &GameState) -> bool {
    let in_grid = |p: &Point| p.x >= 0 && p.y >= 0 && p.x < GRID_W && p.y < GRID_H;
    if !in_grid(&g.apple) {
        return false;
    }
    for (i, s) in g.snakes.iter().enumerate() {
        if s.body.len() < 3 || !s.body.iter().all(in_grid) || opposite(s.dir, s.pending) {
            return false;
        }
        for w in s.body.windows(2) {
            if (w[0].x - w[1].x).abs() + (w[0].y - w[1].y).abs() != 1 {
                return false;
            }
        }
        for t in g.snakes.iter().skip(i + 1) {
            if t.id == s.id {
                return false;
            }
        }
    }
    true
}

#[test]
fn new_board_is_empty() {
    let g = GameState::new();
    assert_eq!(g.apple, pt(15, 10));
    assert!(g.snakes.is_empty());
    assert_eq!(g.tick, 0);
    assert_eq!(g.seed, 0x5eed_1234);
    assert_eq!(g.seed, INITIAL_SEED);
    assert!(!g.started);
    assert!(board_is_well_formed(&g));
}

#[test]
fn opposite_pairs() {
    assert!(opposite(Direction::Up, Direction::Down));
    assert!(opposite(Direction::Down, Direction::Up));
    assert!(opposite(Direction::Left, Direction::Right));
    assert!(opposite(Direction::Right, Direction::Left));
    assert!(!opposite(Direction::Up, Direction::Up));
    assert!(!opposite(Direction::Up, Direction::Left));
    assert!(!opposite(Direction::Right, Direction::Down));
}

#[test]
fn palette_has_eight_colors() {
    assert_eq!(PALETTE_LEN, 8);
    assert_eq!(palette_color(0), "#2f7d54");
    assert_eq!(palette_color(7), "#59636a");
    assert!(is_palette_color("#d14d41"));
    assert!(!is_palette_color("#d14d42"));
    assert!(!is_palette_color(""));
}

#[test]
fn next_rand_is_the_lcg() {
    let mut g = GameState::new();
    let r = g.next_rand();
    assert_eq!(r, 1254987779);
    assert_eq!(g.seed, 1254987779);
    assert_eq!(g.next_rand(), 3418086790);
    assert_eq!(lcg(1254987779), 3418086790);
}

#[test]
fn next_spawn_uses_two_draws() {
    let mut g = GameState::new();
    let p = g.next_spawn();
    assert_eq!(p, pt(15, 10));
    assert_eq!(g.seed, 3418086790);
}

#[test]
fn add_snake_places_players_in_join_order() {
    let mut g = GameState::new();
    g.add_snake("a".to_string(), "Ann".to_string(), "#2f7d54".to_string());
    g.add_snake("b".to_string(), "Bob".to_string(), "#d14d41".to_string());
    assert_eq!(g.snakes.len(), 2);
    assert_eq!(g.snakes[0].body, vec![pt(5, 5), pt(4, 5), pt(3, 5)]);
    assert_eq!(g.snakes[1].body, vec![pt(10, 8), pt(9, 8), pt(8, 8)]);
    assert_eq!(g.snakes[1].dir, Direction::Right);
    assert_eq!(g.snakes[1].pending, Direction::Right);
    assert_eq!(g.snakes[1].score, 0);
    assert_eq!(g.snakes[1].name, "Bob");
    assert_eq!(g.apple, pt(15, 10));
    assert_eq!(g.seed, INITIAL_SEED);
    assert!(board_is_well_formed(&g));
}

#[test]
fn add_snake_twice_adds_once() {
    let mut g = GameState::new();
    g.add_snake("a".to_string(), "Ann".to_string(), "#2f7d54".to_string());
    g.add_snake("a".to_string(), "Other".to_string(), "#d14d41".to_string());
    assert_eq!(g.snakes.len(), 1);
    assert_eq!(g.snakes[0].name, "Ann");
}

#[test]
fn add_snake_moves_an_apple_it_covers() {
    let mut g = GameState::new();
    g.apple = pt(4, 5);
    g.add_snake("a".to_string(), "Ann".to_string(), "#2f7d54".to_string());
    assert_eq!(g.apple, pt(3, 8));
    assert_eq!(g.seed, 3418086790);
}

#[test]
fn set_input_refuses_reversal() {
    let mut g = GameState::new();
    g.add_snake("a".to_string(), "Ann".to_string(), "#2f7d54".to_string());
    g.set_input("a", Direction::Left);
    assert_eq!(g.snakes[0].pending, Direction::Right);
    g.set_input("a", Direction::Up);
    assert_eq!(g.snakes[0].pending, Direction::Up);
    assert_eq!(g.snakes[0].dir, Direction::Right);
    g.set_input("missing", Direction::Down);
    assert_eq!(g.snakes[0].pending, Direction::Up);
}

#[test]
fn set_input_compares_with_current_heading() {
    let mut g = GameState::new();
    g.add_snake("a".to_string(), "Ann".to_string(), "#2f7d54".to_string());
    g.set_input("a", Direction::Up);
    g.set_input("a", Direction::Down);
    assert_eq!(g.snakes[0].pending, Direction::Down);
}

#[test]
fn tick_moves_snakes() {
    let mut g = GameState::new();
    g.add_snake("a".to_string(), "Ann".to_string(), "#2f7d54".to_string());
    assert!(g.can_tick());
    g.tick_host();
    assert_eq!(g.tick, 1);
    assert_eq!(g.snakes[0].body, vec![pt(6, 5), pt(5, 5), pt(4, 5)]);
    g.set_input("a", Direction::Down);
    g.tick_host();
    assert_eq!(g.snakes[0].dir, Direction::Down);
    assert_eq!(g.snakes[0].body, vec![pt(6, 6), pt(6, 5), pt(5, 5)]);
    assert!(board_is_well_formed(&g));
}

#[test]
fn tick_eats_the_apple() {
    let mut g = GameState::new();
    g.add_snake("a".to_string(), "Ann".to_string(), "#2f7d54".to_string());
    g.apple = pt(6, 5);
    g.tick_host();
    assert_eq!(g.snakes[0].score, 1);
    assert_eq!(g.snakes[0].body, vec![pt(6, 5), pt(5, 5), pt(4, 5), pt(3, 5)]);
    assert_eq!(g.apple, pt(3, 8));
    assert_eq!(g.seed, 3418086790);
    assert!(board_is_well_formed(&g));
}

#[test]
fn tick_resets_a_snake_that_leaves_the_board() {
    let mut g = GameState::new();
    let mut s = snake("a", vec![pt(31, 5), pt(30, 5), pt(29, 5)], Direction::Right);
    s.score = 7;
    g.snakes.push(s);
    g.tick_host();
    let s = &g.snakes[0];
    assert_eq!(s.body, vec![pt(15, 10), pt(14, 10), pt(13, 10)]);
    assert_eq!(s.score, 0);
    assert_eq!(s.dir, Direction::Right);
    assert_eq!(g.apple, pt(13, 6));
    assert_eq!(g.seed, 3376516776);
    assert!(board_is_well_formed(&g));
}

#[test]
fn tick_resets_a_snake_that_runs_into_another() {
    let mut g = GameState::new();
    g.snakes.push(snake("a", vec![pt(5, 5), pt(4, 5), pt(3, 5)], Direction::Right));
    g.snakes.push(snake("b", vec![pt(6, 5), pt(6, 6), pt(6, 7)], Direction::Up));
    g.tick_host();
    assert_eq!(g.snakes[0].body, vec![pt(15, 10), pt(14, 10), pt(13, 10)]);
    assert_eq!(g.snakes[1].body, vec![pt(6, 4), pt(6, 5), pt(6, 6)]);
    assert!(board_is_well_formed(&g));
}

#[test]
fn tick_keeps_the_board_well_formed_over_many_ticks() {
    let mut g = GameState::new();
    g.add_snake("a".to_string(), "Ann".to_string(), "#2f7d54".to_string());
    g.add_snake("b".to_string(), "Bob".to_string(), "#d14d41".to_string());
    let turns = [Direction::Up, Direction::Left, Direction::Down, Direction::Right];
    for i in 0..400u32 {
        g.set_input("a", turns[(i / 7 % 4) as usize]);
        g.set_input("b", turns[(i / 5 % 4) as usize]);
        assert!(g.can_tick());
        g.tick_host();
        assert!(board_is_well_formed(&g));
        for s in &g.snakes {
            assert_eq!(s.dir, s.pending);
        }
        assert_eq!(g.snakes.len(), 2);
        assert_eq!(g.snakes[0].id, "a");
        assert_eq!(g.snakes[1].name, "Bob");
        assert_eq!(g.tick, (i + 1) as u64);
    }
    assert_eq!(g.tick, 400);
}

#[test]
fn place_apple_leaves_a_free_apple() {
    let mut g = GameState::new();
    g.snakes.push(snake("a", vec![pt(1, 1), pt(2, 1), pt(3, 1)], Direction::Left));
    g.place_apple_if_needed();
    assert_eq!(g.apple, pt(15, 10));
    assert_eq!(g.seed, INITIAL_SEED);
}

#[test]
fn place_apple_keeps_the_apple_when_every_try_is_covered() {
    let mut g = GameState::new();
    let mut cells = Vec::new();
    for y in 0..GRID_H {
        for x in 0..GRID_W {
            cells.push(pt(x, y));
        }
    }
    g.snakes.push(snake("a", cells, Direction::Right));
    g.place_apple_if_needed();
    assert_eq!(g.apple, pt(15, 10));
    let mut seed = INITIAL_SEED;
    for _ in 0..(2 * APPLE_TRIES) {
        seed = lcg(seed);
    }
    assert_eq!(g.seed, seed);
}

#[test]
fn can_tick_refuses_overflow() {
    let mut g = GameState::new();
    g.tick = u64::MAX;
    assert!(!g.can_tick());
    let mut g = GameState::new();
    g.snakes.push(snake("a", vec![], Direction::Right));
    assert!(!g.can_tick());
    let mut g = GameState::new();
    g.snakes.push(snake("a", vec![pt(i32::MAX, 0)], Direction::Right));
    assert!(!g.can_tick());
    let mut g = GameState::new();
    let mut s = snake("a", vec![pt(14, 10), pt(13, 10), pt(12, 10)], Direction::Right);
    s.score = u32::MAX;
    g.snakes.push(s);
    assert!(!g.can_tick());
}

#[test]
fn occupied_cells_lists_bodies_in_order() {
    let mut g = GameState::new();
    g.snakes.push(snake("a", vec![pt(1, 1), pt(2, 1)], Direction::Left));
    g.snakes.push(snake("b", vec![pt(5, 5)], Direction::Up));
    assert_eq!(g.occupied_cells(), vec![pt(1, 1), pt(2, 1), pt(5, 5)]);
    assert!(contains_point(&g.occupied_cells(), pt(5, 5)));
    assert!(!contains_point(&g.occupied_cells(), pt(5, 6)));
}

#[test]
fn find_snake_finds_the_first_match() {
    let mut g = GameState::new();
    g.snakes.push(snake("a", vec![pt(1, 1)], Direction::Left));
    g.snakes.push(snake("b", vec![pt(5, 5)], Direction::Up));
    g.snakes.push(snake("b", vec![pt(6, 5)], Direction::Up));
    assert_eq!(g.find_snake("b"), Some(1));
    assert_eq!(g.find_snake("c"), None);
}

#[test]
fn reset_snake_draws_even_without_a_match() {
    let mut g = GameState::new();
    g.reset_snake("nobody");
    assert_eq!(g.seed, 3418086790);
}

#[test]
fn max_snakes_bound() {
    assert_eq!(MAX_SNAKES as i64 * 5, 2147483645);
}

#[test]
fn state_message_carries_the_board() {
    let mut g = GameState::new();
    g.add_snake("a".to_string(), "Ann".to_string(), "#2f7d54".to_string());
    let copy = g.clone();
    let msg = NetMsg::State { state: copy };
    match msg {
        NetMsg::State { state } => {
            assert_eq!(state.snakes.len(), 1);
            assert_eq!(state.snakes[0].body, g.snakes[0].body);
            assert_eq!(state.seed, g.seed);
        }
        _ => panic!("wrong message"),
    }
}
