//! What every operation of the simulation keeps true of the board.

use vstd::prelude::*;
use crate::game::{
    add_snake_model, apple_search, can_move, crashed_ids, crashes, find_id, fresh_body,
    fresh_snake, in_grid, join_head, lemma_find_id_spec, lcg_next, moved, occupied, place_apple,
    reset_all, reset_model, set_input_model, spawn_point, step, tick_model, tick_ready,
    APPLE_TRIES,
};
use crate::protocol::{spec_opposite, Direction, GameView, Point, SnakeView};

verus! {

/// Whether two cells share a side.
pub open spec fn adjacent(a: Point, b: Point) -> bool {
    ||| (a.x == b.x && (a.y - b.y == 1 || b.y - a.y == 1))
    ||| (a.y == b.y && (a.x - b.x == 1 || b.x - a.x == 1))
}

/// A snake's cells form a path on the board: at least one cell, every cell on the board,
/// and every cell next to the one before it.
pub open spec fn cells_ok(s: SnakeView) -> bool {
    &&& s.body.len() > 0
    &&& forall|k: int| 0 <= k < s.body.len() ==> in_grid(#[trigger] s.body[k])
    &&& forall|k: int| 0 <= k < s.body.len() - 1 ==> adjacent(#[trigger] s.body[k], s.body[k + 1])
}

/// A snake in play: its cells form a path on the board of at least three cells, and its
/// requested heading does not reverse its current one.
pub open spec fn snake_ok(s: SnakeView) -> bool {
    &&& cells_ok(s)
    &&& s.body.len() >= 3
    &&& !spec_opposite(s.dir, s.pending)
}

/// A snake that has just started over: three cells lying left of a head drawn in
/// columns 4 to 27 and rows 4 to 17, heading right, with no points.
pub open spec fn restarted(s: SnakeView) -> bool {
    &&& s.body.len() == 3
    &&& s.body == fresh_body(s.body[0])
    &&& 4 <= s.body[0].x < 28
    &&& 4 <= s.body[0].y < 18
    &&& s.dir == Direction::Right
    &&& s.pending == Direction::Right
    &&& s.score == 0
}

/// No two snakes share an identifier.
pub open spec fn ids_distinct(snakes: Seq<SnakeView>) -> bool {
    forall|i: int, j: int|
        0 <= i < snakes.len() && 0 <= j < snakes.len() && i != j ==> #[trigger] snakes[i].id
            != #[trigger] snakes[j].id
}

/// A board whose snakes all lie on it as paths: the apple on the board, the cells of
/// every snake forming a path on the board, and one snake per identifier.
pub open spec fn board_ok(g: GameView) -> bool {
    &&& in_grid(g.apple)
    &&& forall|i: int| 0 <= i < g.snakes.len() ==> #[trigger] cells_ok(g.snakes[i])
    &&& ids_distinct(g.snakes)
}

/// A board as the host keeps it: the apple on the board, every snake in play, and
/// one snake per identifier.
pub open spec fn well_formed(g: GameView) -> bool {
    &&& in_grid(g.apple)
    &&& forall|i: int| 0 <= i < g.snakes.len() ==> #[trigger] snake_ok(g.snakes[i])
    &&& ids_distinct(g.snakes)
}

/// A well-formed board has its snakes lying on it as paths.
pub proof fn lemma_well_formed_board_ok(g: GameView)
    requires
        well_formed(g),
    ensures
        board_ok(g),
{
    assert forall|i: int| 0 <= i < g.snakes.len() implies #[trigger] cells_ok(g.snakes[i]) by {
        assert(snake_ok(g.snakes[i]));
    }
}

proof fn lemma_restarted_ok(s: SnakeView)
    requires
        restarted(s),
    ensures
        snake_ok(s),
{
    assert(s.body[1] == fresh_body(s.body[0])[1]);
    assert(s.body[2] == fresh_body(s.body[0])[2]);
}

proof fn lemma_step_adjacent(p: Point, d: Direction)
    requires
        in_grid(p),
    ensures
        adjacent(step(p, d), p),
{
}

/// A snake whose cells form a path and which does not crash still forms a path after
/// its move, with its head one cell further in its requested direction.
proof fn lemma_moved_ok(s: SnakeView, apple: Point, occ: Seq<Point>)
    requires
        cells_ok(s),
        !crate::game::crashes(s, occ),
    ensures
        cells_ok(moved(s, apple)),
        moved(s, apple).body[0] == step(s.body[0], s.pending),
        moved(s, apple).body.len() >= s.body.len(),
        moved(s, apple).dir == s.pending,
        moved(s, apple).pending == s.pending,
{
    let m = moved(s, apple);
    lemma_step_adjacent(s.body[0], s.pending);
    assert forall|q: int| 0 <= q < m.body.len() implies in_grid(#[trigger] m.body[q]) by {
        if q > 0 {
            assert(m.body[q] == s.body[q - 1]);
        }
    }
    assert forall|q: int| 0 <= q < m.body.len() - 1 implies adjacent(#[trigger] m.body[q], m.body[q + 1]) by {
        if q > 0 {
            assert(m.body[q] == s.body[q - 1]);
            assert(m.body[q + 1] == s.body[q]);
        } else {
            assert(m.body[1] == s.body[0]);
        }
    }
}

proof fn lemma_fresh_body_ok(head: Point)
    requires
        2 <= head.x < 32,
        0 <= head.y < 22,
    ensures
        fresh_body(head).len() == 3,
        forall|k: int| 0 <= k < 3 ==> in_grid(#[trigger] fresh_body(head)[k]),
        fresh_body(head)[0] == head,
{
}

proof fn lemma_spawn_in_grid(seed: u32)
    ensures
        4 <= spawn_point(seed).x < 28,
        4 <= spawn_point(seed).y < 18,
{
}

proof fn lemma_apple_search(occ: Seq<Point>, seed: u32, tries: nat)
    ensures
        apple_search(occ, seed, tries).0 matches Some(p) ==> in_grid(p) && !occ.contains(p),
    decreases tries,
{
    if tries > 0 {
        let s2 = lcg_next(lcg_next(seed));
        lemma_apple_search(occ, s2, (tries - 1) as nat);
    }
}

/// Moving the apple off the snakes touches nothing but the apple and the seed; an apple
/// that lies free stays; an apple that moves goes to a free cell on the board.
pub proof fn lemma_place_apple(g: GameView)
    ensures
        place_apple(g).snakes == g.snakes,
        place_apple(g).tick == g.tick,
        place_apple(g).started == g.started,
        !occupied(g.snakes).contains(g.apple) ==> place_apple(g) == g,
        place_apple(g).apple != g.apple ==> in_grid(place_apple(g).apple) && !occupied(
            g.snakes,
        ).contains(place_apple(g).apple),
        in_grid(g.apple) ==> in_grid(place_apple(g).apple),
{
    lemma_apple_search(occupied(g.snakes), g.seed, APPLE_TRIES as nat);
}

/// A fresh board is well formed.
pub proof fn lemma_initial_well_formed()
    ensures
        well_formed(
            GameView {
                apple: crate::protocol::initial_apple(),
                snakes: Seq::empty(),
                tick: 0,
                seed: crate::protocol::INITIAL_SEED,
                started: false,
            },
        ),
{
}

/// A player joining keeps the board well formed: the new snake starts on the board,
/// facing right, under an identifier no other snake has.
pub proof fn lemma_add_snake_well_formed(
    g: GameView,
    id: Seq<char>,
    name: Seq<char>,
    color: Seq<char>,
)
    requires
        well_formed(g),
        find_id(g.snakes, id) is None ==> g.snakes.len() <= crate::game::MAX_SNAKES,
    ensures
        well_formed(add_snake_model(g, id, name, color)),
{
    lemma_find_id_spec(g.snakes, id);
    if find_id(g.snakes, id) is None {
        let head = join_head(g.snakes.len() as int);
        lemma_fresh_body_ok(head);
        let s = fresh_snake(id, name, color, head);
        let g1 = GameView { snakes: g.snakes.push(s), ..g };
        assert(snake_ok(s));
        assert forall|i: int| 0 <= i < g1.snakes.len() implies #[trigger] snake_ok(g1.snakes[i]) by {
            if i < g.snakes.len() {
                assert(g1.snakes[i] == g.snakes[i]);
            }
        }
        assert(ids_distinct(g1.snakes));
        lemma_place_apple(g1);
    }
}

/// Steering keeps the board well formed: a snake is never asked to reverse onto itself.
pub proof fn lemma_set_input_well_formed(g: GameView, id: Seq<char>, dir: Direction)
    requires
        well_formed(g),
    ensures
        well_formed(set_input_model(g, id, dir)),
        set_input_model(g, id, dir).snakes.len() == g.snakes.len(),
        forall|i: int|
            0 <= i < g.snakes.len() ==> !spec_opposite(
                #[trigger] set_input_model(g, id, dir).snakes[i].dir,
                set_input_model(g, id, dir).snakes[i].pending,
            ),
{
    lemma_find_id_spec(g.snakes, id);
    let r = set_input_model(g, id, dir);
    match find_id(g.snakes, id) {
        Some(i) => {
            assert forall|j: int| 0 <= j < r.snakes.len() implies #[trigger] snake_ok(r.snakes[j]) by {
                assert(snake_ok(g.snakes[j]));
            }
            assert forall|a: int, b: int|
                0 <= a < r.snakes.len() && 0 <= b < r.snakes.len() && a != b implies #[trigger] r.snakes[a].id
                != #[trigger] r.snakes[b].id by {
                assert(g.snakes[a].id != g.snakes[b].id);
            }
            assert forall|j: int| 0 <= j < g.snakes.len() implies !spec_opposite(
                #[trigger] r.snakes[j].dir,
                r.snakes[j].pending,
            ) by {
                assert(snake_ok(r.snakes[j]));
            }
        },
        None => {
            assert forall|j: int| 0 <= j < g.snakes.len() implies !spec_opposite(
                #[trigger] r.snakes[j].dir,
                r.snakes[j].pending,
            ) by {
                assert(snake_ok(g.snakes[j]));
            }
        },
    }
}


proof fn lemma_crashed_ids_contains(snakes: Seq<SnakeView>, occ: Seq<Point>, k: int)
    requires
        0 <= k < snakes.len(),
        crashes(snakes[k], occ),
    ensures
        crashed_ids(snakes, occ).contains(snakes[k].id),
    decreases snakes.len(),
{
    let rest = crashed_ids(snakes.drop_last(), occ);
    if k == snakes.len() - 1 {
        assert(crashed_ids(snakes, occ) == rest.push(snakes[k].id));
        assert(crashed_ids(snakes, occ)[rest.len() as int] == snakes[k].id);
    } else {
        assert(snakes.drop_last()[k] == snakes[k]);
        lemma_crashed_ids_contains(snakes.drop_last(), occ, k);
        let m = choose|m: int| 0 <= m < rest.len() && rest[m] == snakes[k].id;
        if crashes(snakes.last(), occ) {
            assert(crashed_ids(snakes, occ)[m] == snakes[k].id);
        }
    }
}

/// Restarting a list of snakes keeps every identifier and the apple, puts every snake
/// named in the list in play, and leaves every other snake as it was.
proof fn lemma_reset_all(g: GameView, ids: Seq<Seq<char>>)
    requires
        ids_distinct(g.snakes),
    ensures
        reset_all(g, ids).snakes.len() == g.snakes.len(),
        reset_all(g, ids).apple == g.apple,
        reset_all(g, ids).tick == g.tick,
        reset_all(g, ids).started == g.started,
        forall|k: int| 0 <= k < g.snakes.len() ==> #[trigger] reset_all(g, ids).snakes[k].id == g.snakes[k].id,
        forall|k: int|
            0 <= k < g.snakes.len() && ids.contains(g.snakes[k].id) ==> #[trigger] restarted(
                reset_all(g, ids).snakes[k],
            ),
        forall|k: int|
            0 <= k < g.snakes.len() && !ids.contains(g.snakes[k].id) ==> #[trigger] reset_all(
                g,
                ids,
            ).snakes[k] == g.snakes[k],
    decreases ids.len(),
{
    if ids.len() > 0 {
        let init = ids.drop_last();
        let last = ids.last();
        lemma_reset_all(g, init);
        let r0 = reset_all(g, init);
        let r = reset_model(r0, last);
        assert(r == reset_all(g, ids));
        lemma_find_id_spec(r0.snakes, last);
        let spawn = spawn_point(r0.seed);
        lemma_spawn_in_grid(r0.seed);
        lemma_fresh_body_ok(spawn);
        assert forall|k: int| 0 <= k < g.snakes.len() implies #[trigger] ids.contains(g.snakes[k].id) == (
        init.contains(g.snakes[k].id) || g.snakes[k].id == last) by {
            if ids.contains(g.snakes[k].id) {
                let m = choose|m: int| 0 <= m < ids.len() && ids[m] == g.snakes[k].id;
                if m < ids.len() - 1 {
                    assert(init[m] == ids[m]);
                }
            }
            if init.contains(g.snakes[k].id) {
                let m = choose|m: int| 0 <= m < init.len() && init[m] == g.snakes[k].id;
                assert(ids[m] == init[m]);
            }
            if g.snakes[k].id == last {
                assert(ids[ids.len() - 1] == last);
            }
        }
        match find_id(r0.snakes, last) {
            Some(i) => {
                assert forall|k: int| 0 <= k < g.snakes.len() && k != i implies r.snakes[k] == r0.snakes[k] by {}
                assert forall|k: int| 0 <= k < g.snakes.len() && k != i implies g.snakes[k].id != last by {
                    assert(g.snakes[i].id != g.snakes[k].id);
                }
                assert(restarted(r.snakes[i]));
            },
            None => {},
        }
    }
}

/// What a tick does to each snake of a board whose snakes lie on it as paths: a snake
/// that crashes has started over, any other has made its move.
proof fn lemma_tick_snakes(g: GameView)
    requires
        ids_distinct(g.snakes),
    ensures
        tick_model(g).snakes.len() == g.snakes.len(),
        in_grid(g.apple) ==> in_grid(tick_model(g).apple),
        forall|k: int|
            0 <= k < g.snakes.len() ==> #[trigger] tick_model(g).snakes[k].id == g.snakes[k].id,
        forall|k: int|
            0 <= k < g.snakes.len() && crashes(g.snakes[k], occupied(g.snakes)) ==> restarted(
                #[trigger] tick_model(g).snakes[k],
            ),
        forall|k: int|
            0 <= k < g.snakes.len() && !crashes(g.snakes[k], occupied(g.snakes)) ==> #[trigger] tick_model(
                g,
            ).snakes[k] == moved(g.snakes[k], g.apple),
{
    let occ = occupied(g.snakes);
    let after_moves = GameView {
        tick: (g.tick + 1) as u64,
        snakes: g.snakes.map_values(|s: SnakeView| moved(s, g.apple)),
        ..g
    };
    let ids = crashed_ids(g.snakes, occ);
    assert forall|a: int, b: int|
        0 <= a < after_moves.snakes.len() && 0 <= b < after_moves.snakes.len() && a != b implies #[trigger] after_moves.snakes[a].id
        != #[trigger] after_moves.snakes[b].id by {
        assert(g.snakes[a].id != g.snakes[b].id);
    }
    lemma_reset_all(after_moves, ids);
    let r = reset_all(after_moves, ids);
    lemma_place_apple(r);
    assert forall|k: int| 0 <= k < g.snakes.len() && crashes(g.snakes[k], occ) implies restarted(
        #[trigger] tick_model(g).snakes[k],
    ) by {
        lemma_crashed_ids_contains(g.snakes, occ, k);
        assert(after_moves.snakes[k].id == g.snakes[k].id);
    }
    assert forall|k: int| 0 <= k < g.snakes.len() && !crashes(g.snakes[k], occ) implies #[trigger] tick_model(
        g,
    ).snakes[k] == moved(g.snakes[k], g.apple) by {
        if ids.contains(after_moves.snakes[k].id) {
            lemma_crashed_ids_only(g.snakes, occ, g.snakes[k].id);
            let j = choose|j: int| 0 <= j < g.snakes.len() && crashes(#[trigger] g.snakes[j], occ) && g.snakes[j].id == g.snakes[k].id;
            assert(j == k);
        }
    }
}

/// A tick keeps every snake lying on the board as a path of adjacent cells, keeps the
/// apple on the board and one snake per identifier: a snake that does not crash has its
/// head one cell further in its requested direction, next to its old head, and one that
/// crashes starts over as three cells left of a head in columns 4 to 27 and rows 4 to 17.
/// On such a board the tick runs without overflow as long as the counter and every
/// score can grow.
pub proof fn lemma_tick_board_ok(g: GameView)
    requires
        board_ok(g),
        g.tick < u64::MAX,
        forall|i: int| 0 <= i < g.snakes.len() ==> #[trigger] g.snakes[i].score < u32::MAX,
    ensures
        tick_ready(g),
        board_ok(tick_model(g)),
        forall|k: int|
            0 <= k < g.snakes.len() && !crashes(g.snakes[k], occupied(g.snakes)) ==> {
                &&& #[trigger] tick_model(g).snakes[k].body[0] == step(g.snakes[k].body[0], g.snakes[k].pending)
                &&& adjacent(tick_model(g).snakes[k].body[0], g.snakes[k].body[0])
            },
        forall|k: int|
            0 <= k < g.snakes.len() && crashes(g.snakes[k], occupied(g.snakes)) ==> restarted(
                #[trigger] tick_model(g).snakes[k],
            ),
{
    assert forall|i: int| 0 <= i < g.snakes.len() implies #[trigger] can_move(g.snakes[i], g.apple) by {
        assert(cells_ok(g.snakes[i]));
        assert(in_grid(g.snakes[i].body[0]));
    }
    lemma_tick_snakes(g);
    let t = tick_model(g);
    let occ = occupied(g.snakes);
    assert forall|k: int| 0 <= k < t.snakes.len() implies #[trigger] cells_ok(t.snakes[k]) by {
        assert(cells_ok(g.snakes[k]));
        if crashes(g.snakes[k], occ) {
            assert(restarted(t.snakes[k]));
            lemma_restarted_ok(t.snakes[k]);
        } else {
            lemma_moved_ok(g.snakes[k], g.apple, occ);
            assert(t.snakes[k] == moved(g.snakes[k], g.apple));
        }
    }
    assert forall|k: int|
        0 <= k < g.snakes.len() && !crashes(g.snakes[k], occ) implies {
            &&& #[trigger] t.snakes[k].body[0] == step(g.snakes[k].body[0], g.snakes[k].pending)
            &&& adjacent(t.snakes[k].body[0], g.snakes[k].body[0])
        } by {
        assert(cells_ok(g.snakes[k]));
        lemma_moved_ok(g.snakes[k], g.apple, occ);
        assert(t.snakes[k] == moved(g.snakes[k], g.apple));
        lemma_step_adjacent(g.snakes[k].body[0], g.snakes[k].pending);
    }
    assert forall|a: int, b: int|
        0 <= a < t.snakes.len() && 0 <= b < t.snakes.len() && a != b implies #[trigger] t.snakes[a].id
        != #[trigger] t.snakes[b].id by {
        assert(g.snakes[a].id != g.snakes[b].id);
    }
}

/// A tick keeps the board well formed: snakes that crash start over on the board, the
/// others move on it as paths of adjacent cells, and each snake then heads where it was
/// asked to. On such a board the tick runs without overflow as long as the counter and
/// every score can grow.
pub proof fn lemma_tick_well_formed(g: GameView)
    requires
        well_formed(g),
        g.tick < u64::MAX,
        forall|i: int| 0 <= i < g.snakes.len() ==> #[trigger] g.snakes[i].score < u32::MAX,
    ensures
        tick_ready(g),
        well_formed(tick_model(g)),
{
    lemma_well_formed_board_ok(g);
    lemma_tick_board_ok(g);
    lemma_tick_snakes(g);
    let t = tick_model(g);
    let occ = occupied(g.snakes);
    assert forall|k: int| 0 <= k < t.snakes.len() implies #[trigger] snake_ok(t.snakes[k]) by {
        assert(snake_ok(g.snakes[k]));
        if crashes(g.snakes[k], occ) {
            assert(restarted(t.snakes[k]));
            lemma_restarted_ok(t.snakes[k]);
        } else {
            lemma_moved_ok(g.snakes[k], g.apple, occ);
            assert(t.snakes[k] == moved(g.snakes[k], g.apple));
            assert(cells_ok(t.snakes[k]));
        }
    }
}

/// Joining twice under one identifier adds one snake: the second request changes nothing.
pub proof fn lemma_add_snake_once(
    g: GameView,
    id: Seq<char>,
    name: Seq<char>,
    color: Seq<char>,
    name2: Seq<char>,
    color2: Seq<char>,
)
    ensures
        add_snake_model(add_snake_model(g, id, name, color), id, name2, color2) == add_snake_model(
            g,
            id,
            name,
            color,
        ),
{
    let g1 = add_snake_model(g, id, name, color);
    lemma_find_id_spec(g.snakes, id);
    if find_id(g.snakes, id) is None {
        let head = join_head(g.snakes.len() as int);
        let pushed = GameView { snakes: g.snakes.push(fresh_snake(id, name, color, head)), ..g };
        lemma_place_apple(pushed);
        assert(g1.snakes[g.snakes.len() as int].id == id);
    }
    lemma_find_id_spec(g1.snakes, id);
}


proof fn lemma_reset_all_keeps_players(g: GameView, ids: Seq<Seq<char>>)
    ensures
        reset_all(g, ids).snakes.len() == g.snakes.len(),
        reset_all(g, ids).tick == g.tick,
        reset_all(g, ids).started == g.started,
        forall|k: int|
            0 <= k < g.snakes.len() ==> {
                &&& #[trigger] reset_all(g, ids).snakes[k].id == g.snakes[k].id
                &&& reset_all(g, ids).snakes[k].name == g.snakes[k].name
                &&& reset_all(g, ids).snakes[k].color == g.snakes[k].color
            },
    decreases ids.len(),
{
    if ids.len() > 0 {
        lemma_reset_all_keeps_players(g, ids.drop_last());
        lemma_find_id_spec(reset_all(g, ids.drop_last()).snakes, ids.last());
    }
}

/// A tick neither adds nor removes players: every snake keeps its place in the list,
/// its identifier, its name and its color; the counter advances by one and play stays
/// started or not.
pub proof fn lemma_tick_keeps_players(g: GameView)
    ensures
        tick_model(g).snakes.len() == g.snakes.len(),
        g.tick < u64::MAX ==> tick_model(g).tick == g.tick + 1,
        tick_model(g).started == g.started,
        forall|k: int|
            0 <= k < g.snakes.len() ==> {
                &&& #[trigger] tick_model(g).snakes[k].id == g.snakes[k].id
                &&& tick_model(g).snakes[k].name == g.snakes[k].name
                &&& tick_model(g).snakes[k].color == g.snakes[k].color
            },
{
    let occ = occupied(g.snakes);
    let after_moves = GameView {
        tick: (g.tick + 1) as u64,
        snakes: g.snakes.map_values(|s: SnakeView| moved(s, g.apple)),
        ..g
    };
    lemma_reset_all_keeps_players(after_moves, crashed_ids(g.snakes, occ));
    lemma_place_apple(reset_all(after_moves, crashed_ids(g.snakes, occ)));
}


proof fn lemma_occupied_same_bodies(a: Seq<SnakeView>, b: Seq<SnakeView>)
    requires
        a.len() == b.len(),
        forall|k: int| 0 <= k < a.len() ==> (#[trigger] a[k]).body == b[k].body,
    ensures
        occupied(a) == occupied(b),
    decreases a.len(),
{
    if a.len() > 0 {
        lemma_occupied_same_bodies(a.drop_last(), b.drop_last());
        assert(a.last().body == b.last().body);
    }
}

proof fn lemma_crashed_ids_only(snakes: Seq<SnakeView>, occ: Seq<Point>, x: Seq<char>)
    requires
        crashed_ids(snakes, occ).contains(x),
    ensures
        exists|k: int| 0 <= k < snakes.len() && crashes(#[trigger] snakes[k], occ) && snakes[k].id == x,
    decreases snakes.len(),
{
    let init = snakes.drop_last();
    let rest = crashed_ids(init, occ);
    if rest.contains(x) {
        lemma_crashed_ids_only(init, occ, x);
        let k = choose|k: int| 0 <= k < init.len() && crashes(#[trigger] init[k], occ) && init[k].id == x;
        assert(snakes[k] == init[k]);
    } else {
        let r = crashed_ids(snakes, occ);
        let m = choose|m: int| 0 <= m < r.len() && r[m] == x;
        if crashes(snakes.last(), occ) {
            if m < rest.len() {
                assert(rest[m] == x);
            }
            assert(crashes(snakes[snakes.len() - 1], occ));
        } else {
            assert(rest[m] == x);
        }
    }
}

/// A requested turn is taken at the next tick: when the player `id` asks its snake to
/// turn to `dir`, which does not reverse it, and the snake does not crash on its next
/// move, then after the tick it heads `dir` with its head one cell further that way.
pub proof fn lemma_turn_taken(g: GameView, id: Seq<char>, dir: Direction, i: int)
    requires
        well_formed(g),
        find_id(g.snakes, id) == Some(i),
        !spec_opposite(g.snakes[i].dir, dir),
        !crashes(SnakeView { pending: dir, ..g.snakes[i] }, occupied(g.snakes)),
    ensures
        tick_model(set_input_model(g, id, dir)).snakes[i].dir == dir,
        tick_model(set_input_model(g, id, dir)).snakes[i].body[0] == step(g.snakes[i].body[0], dir),
{
    lemma_find_id_spec(g.snakes, id);
    let g1 = set_input_model(g, id, dir);
    lemma_set_input_well_formed(g, id, dir);
    assert forall|k: int| 0 <= k < g1.snakes.len() implies (#[trigger] g1.snakes[k]).body == g.snakes[k].body by {}
    lemma_occupied_same_bodies(g1.snakes, g.snakes);
    let occ = occupied(g1.snakes);
    let after_moves = GameView {
        tick: (g1.tick + 1) as u64,
        snakes: g1.snakes.map_values(|s: SnakeView| moved(s, g1.apple)),
        ..g1
    };
    let ids = crashed_ids(g1.snakes, occ);
    assert forall|a: int, b: int|
        0 <= a < after_moves.snakes.len() && 0 <= b < after_moves.snakes.len() && a != b implies #[trigger] after_moves.snakes[a].id
        != #[trigger] after_moves.snakes[b].id by {
        assert(g1.snakes[a].id != g1.snakes[b].id);
    }
    if ids.contains(g1.snakes[i].id) {
        lemma_crashed_ids_only(g1.snakes, occ, g1.snakes[i].id);
        let k = choose|k: int| 0 <= k < g1.snakes.len() && crashes(#[trigger] g1.snakes[k], occ) && g1.snakes[k].id == g1.snakes[i].id;
        assert(k == i);
    }
    assert(after_moves.snakes[i].id == g1.snakes[i].id);
    lemma_reset_all(after_moves, ids);
    lemma_place_apple(reset_all(after_moves, ids));
    assert(snake_ok(g1.snakes[i]));
}

/// Eating scores one point: when a tick moves a snake onto the apple without a crash,
/// the snake gains one point, its head enters the apple's cell and its body grows by one
/// cell; a snake that moves without crashing and without eating keeps its score and its
/// length. Either way its head is one cell further in its requested direction, which
/// becomes its heading.
pub proof fn lemma_tick_scores(g: GameView, k: int)
    requires
        ids_distinct(g.snakes),
        0 <= k < g.snakes.len(),
        g.snakes[k].body.len() > 0,
        !crashes(g.snakes[k], occupied(g.snakes)),
    ensures
        tick_model(g).snakes[k].body[0] == step(g.snakes[k].body[0], g.snakes[k].pending),
        tick_model(g).snakes[k].dir == g.snakes[k].pending,
        step(g.snakes[k].body[0], g.snakes[k].pending) == g.apple && g.snakes[k].score
            < u32::MAX ==> tick_model(g).snakes[k].score == g.snakes[k].score + 1,
        step(g.snakes[k].body[0], g.snakes[k].pending) == g.apple ==> tick_model(
            g,
        ).snakes[k].body.len() == g.snakes[k].body.len() + 1,
        step(g.snakes[k].body[0], g.snakes[k].pending) != g.apple ==> tick_model(g).snakes[k].score
            == g.snakes[k].score,
        step(g.snakes[k].body[0], g.snakes[k].pending) != g.apple ==> tick_model(
            g,
        ).snakes[k].body.len() == g.snakes[k].body.len(),
{
    lemma_tick_snakes(g);
    assert(tick_model(g).snakes[k] == moved(g.snakes[k], g.apple));
}

/// The head of the snake that joins at position `i` of the list.
pub open spec fn start_head(i: int) -> Point {
    Point { x: (5 + (5 * i) % 24) as i32, y: (5 + (3 * i) % 14) as i32 }
}

/// A new player's snake goes at the end of the list: its head at column `5 + 5i mod 24`
/// and row `5 + 3i mod 14` for its position `i`, its two other cells to the left of the
/// head, heading right with no points; the snakes already there keep their place.
pub proof fn lemma_join_position(g: GameView, id: Seq<char>, name: Seq<char>, color: Seq<char>)
    requires
        find_id(g.snakes, id) is None,
        g.snakes.len() <= crate::game::MAX_SNAKES,
    ensures
        add_snake_model(g, id, name, color).snakes.len() == g.snakes.len() + 1,
        forall|j: int|
            0 <= j < g.snakes.len() ==> #[trigger] add_snake_model(g, id, name, color).snakes[j]
                == g.snakes[j],
        add_snake_model(g, id, name, color).snakes[g.snakes.len() as int].body == seq![
            start_head(g.snakes.len() as int),
            Point { x: (start_head(g.snakes.len() as int).x - 1) as i32, y: start_head(g.snakes.len() as int).y },
            Point { x: (start_head(g.snakes.len() as int).x - 2) as i32, y: start_head(g.snakes.len() as int).y },
        ],
        add_snake_model(g, id, name, color).snakes[g.snakes.len() as int].id == id,
        add_snake_model(g, id, name, color).snakes[g.snakes.len() as int].name == name,
        add_snake_model(g, id, name, color).snakes[g.snakes.len() as int].color == color,
        add_snake_model(g, id, name, color).snakes[g.snakes.len() as int].dir == Direction::Right,
        add_snake_model(g, id, name, color).snakes[g.snakes.len() as int].pending
            == Direction::Right,
        add_snake_model(g, id, name, color).snakes[g.snakes.len() as int].score == 0,
{
    let pushed = GameView {
        snakes: g.snakes.push(fresh_snake(id, name, color, join_head(g.snakes.len() as int))),
        ..g
    };
    lemma_place_apple(pushed);
    let h = start_head(g.snakes.len() as int);
    assert(fresh_body(join_head(g.snakes.len() as int)) =~= seq![
        h,
        Point { x: (h.x - 1) as i32, y: h.y },
        Point { x: (h.x - 2) as i32, y: h.y },
    ]);
}

/// Whether every snake still lies where it joined: the snake at position `j` covers its
/// start head and the two cells to its left.
pub open spec fn all_at_start(snakes: Seq<SnakeView>) -> bool {
    forall|j: int|
        0 <= j < snakes.len() ==> (#[trigger] snakes[j]).body == seq![
            start_head(j),
            Point { x: (start_head(j).x - 1) as i32, y: start_head(j).y },
            Point { x: (start_head(j).x - 2) as i32, y: start_head(j).y },
        ]
}

proof fn lemma_start_rows_differ(i: int, j: int)
    requires
        0 <= i < 14,
        0 <= j < 14,
        i != j,
    ensures
        start_head(i).y != start_head(j).y,
{
    assert((3 * i) % 14 != (3 * j) % 14) by (nonlinear_arith)
        requires
            0 <= i < 14,
            0 <= j < 14,
            i != j,
    ;
}

/// The first fourteen players start apart: on a board where no snake has moved yet, a
/// player joining as one of the first fourteen gets cells that no snake covers.
pub proof fn lemma_join_cells_free(g: GameView, id: Seq<char>, name: Seq<char>, color: Seq<char>)
    requires
        find_id(g.snakes, id) is None,
        g.snakes.len() < 14,
        all_at_start(g.snakes),
    ensures
        all_at_start(add_snake_model(g, id, name, color).snakes),
        forall|q: int|
            0 <= q < 3 ==> !occupied(g.snakes).contains(
                #[trigger] add_snake_model(g, id, name, color).snakes[g.snakes.len() as int].body[q],
            ),
{
    lemma_join_position(g, id, name, color);
    let r = add_snake_model(g, id, name, color);
    let n = g.snakes.len() as int;
    assert(all_at_start(r.snakes)) by {
        assert forall|j: int| 0 <= j < r.snakes.len() implies (#[trigger] r.snakes[j]).body == seq![
            start_head(j),
            Point { x: (start_head(j).x - 1) as i32, y: start_head(j).y },
            Point { x: (start_head(j).x - 2) as i32, y: start_head(j).y },
        ] by {
            if j < n {
                assert(r.snakes[j] == g.snakes[j]);
            }
        }
    }
    assert forall|q: int| 0 <= q < 3 implies !occupied(g.snakes).contains(#[trigger] r.snakes[n].body[q]) by {
        let p = r.snakes[n].body[q];
        assert(p.y == start_head(n).y);
        crate::game::lemma_occupied_contains(g.snakes, p);
        if occupied(g.snakes).contains(p) {
            let j = choose|j: int| 0 <= j < g.snakes.len() && #[trigger] g.snakes[j].body.contains(p);
            lemma_start_rows_differ(j, n);
            let m = choose|m: int| 0 <= m < g.snakes[j].body.len() && g.snakes[j].body[m] == p;
            assert(g.snakes[j].body[m].y == start_head(j).y);
        }
    }
}

/// Steering touches at most one snake: the first snake with identifier `id` may change
/// its requested heading, to `dir` unless that reverses its current heading, and every
/// other snake, every other field of that snake, and the rest of the board stay as they were.
pub proof fn lemma_set_input_frame(g: GameView, id: Seq<char>, dir: Direction)
    ensures
        set_input_model(g, id, dir).snakes.len() == g.snakes.len(),
        set_input_model(g, id, dir).apple == g.apple,
        set_input_model(g, id, dir).tick == g.tick,
        set_input_model(g, id, dir).seed == g.seed,
        set_input_model(g, id, dir).started == g.started,
        forall|j: int|
            0 <= j < g.snakes.len() && (g.snakes[j].id != id || exists|m: int|
                0 <= m < j && g.snakes[m].id == id) ==> #[trigger] set_input_model(g, id, dir).snakes[j]
                == g.snakes[j],
        forall|j: int|
            0 <= j < g.snakes.len() && g.snakes[j].id == id && (forall|m: int|
                0 <= m < j ==> g.snakes[m].id != id) ==> #[trigger] set_input_model(g, id, dir).snakes[j]
                == (SnakeView {
                pending: if spec_opposite(g.snakes[j].dir, dir) {
                    g.snakes[j].pending
                } else {
                    dir
                },
                ..g.snakes[j]
            }),
{
    lemma_find_id_spec(g.snakes, id);
    let r = set_input_model(g, id, dir);
    match find_id(g.snakes, id) {
        Some(i) => {
            assert forall|j: int|
                0 <= j < g.snakes.len() && (g.snakes[j].id != id || exists|m: int|
                    0 <= m < j && g.snakes[m].id == id) implies #[trigger] r.snakes[j] == g.snakes[j] by {
                if j == i && g.snakes[j].id == id {
                    let m = choose|m: int| 0 <= m < j && g.snakes[m].id == id;
                    assert(g.snakes[m].id != id);
                }
            }
            assert forall|j: int|
                0 <= j < g.snakes.len() && g.snakes[j].id == id && (forall|m: int|
                    0 <= m < j ==> g.snakes[m].id != id) implies #[trigger] r.snakes[j] == (SnakeView {
                    pending: if spec_opposite(g.snakes[j].dir, dir) {
                        g.snakes[j].pending
                    } else {
                        dir
                    },
                    ..g.snakes[j]
                }) by {
                if j > i {
                    assert(g.snakes[i].id == id);
                }
                if j < i {
                    assert(g.snakes[j].id != id);
                }
            }
        },
        None => {},
    }
}
} // verus!
