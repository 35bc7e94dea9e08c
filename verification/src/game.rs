//! The host's simulation: joining, steering, moving, crashing and apples.

use vstd::prelude::*;
use crate::protocol::{
    opposite, spec_opposite, Direction, GameState, GameView, Point, Snake,
    SnakeView, GRID_H, GRID_W,
};
use crate::text::str_eq;

verus! {

/// The generator behind every random choice: `seed * 1664525 + 1013904223` modulo 2^32.
#[verifier::opaque]
pub open spec fn lcg_next(seed: u32) -> u32 {
    ((seed as int * 1664525 + 1013904223) % 0x1_0000_0000) as u32
}

/// Whether `p` lies on the board.
pub open spec fn in_grid(p: Point) -> bool {
    0 <= p.x < GRID_W && 0 <= p.y < GRID_H
}

/// The cell next to `p` in direction `d`.
pub open spec fn step(p: Point, d: Direction) -> Point {
    match d {
        Direction::Up => Point { x: p.x, y: (p.y - 1) as i32 },
        Direction::Down => Point { x: p.x, y: (p.y + 1) as i32 },
        Direction::Left => Point { x: (p.x - 1) as i32, y: p.y },
        Direction::Right => Point { x: (p.x + 1) as i32, y: p.y },
    }
}

/// Whether stepping from `p` in direction `d` stays within `i32`.
pub open spec fn step_fits(p: Point, d: Direction) -> bool {
    match d {
        Direction::Up => p.y > i32::MIN,
        Direction::Down => p.y < i32::MAX,
        Direction::Left => p.x > i32::MIN,
        Direction::Right => p.x < i32::MAX,
    }
}

/// The three cells of a new snake with its head at `head`, lying to its left.
pub open spec fn fresh_body(head: Point) -> Seq<Point> {
    seq![head, Point { x: (head.x - 1) as i32, y: head.y }, Point { x: (head.x - 2) as i32, y: head.y }]
}

/// Every cell of every snake: the bodies one after another, in snake order.
pub open spec fn occupied(snakes: Seq<SnakeView>) -> Seq<Point>
    decreases snakes.len(),
{
    if snakes.len() == 0 {
        Seq::empty()
    } else {
        occupied(snakes.drop_last()) + snakes.last().body
    }
}

/// The index of the first snake with identifier `id`.
pub open spec fn find_id(snakes: Seq<SnakeView>, id: Seq<char>) -> Option<int>
    decreases snakes.len(),
{
    if snakes.len() == 0 {
        None
    } else if snakes[0].id == id {
        Some(0)
    } else {
        match find_id(snakes.drop_first(), id) {
            Some(i) => Some(i + 1),
            None => None,
        }
    }
}

/// Where the snake that joins as number `index` starts.
pub open spec fn join_head(index: int) -> Point {
    Point { x: (5 + (index * 5) % (GRID_W - 8)) as i32, y: (5 + (index * 3) % (GRID_H - 8)) as i32 }
}

/// A snake that has just appeared with its head at `head`, heading right, with no points.
pub open spec fn fresh_snake(id: Seq<char>, name: Seq<char>, color: Seq<char>, head: Point) -> SnakeView {
    SnakeView {
        id,
        name,
        color,
        body: fresh_body(head),
        dir: Direction::Right,
        pending: Direction::Right,
        score: 0,
    }
}

/// The cell at which a crashed snake starts again, drawn with two numbers after `seed`.
pub open spec fn spawn_point(seed: u32) -> Point {
    let s1 = lcg_next(seed);
    let s2 = lcg_next(s1);
    Point { x: (4 + s1 % ((GRID_W - 8) as u32)) as i32, y: (4 + s2 % ((GRID_H - 8) as u32)) as i32 }
}

/// The attempts to find a free cell for the apple: each draws a column and then a row,
/// and the first free cell wins. Gives the cell found, if any, and the seed afterwards.
pub open spec fn apple_search(occ: Seq<Point>, seed: u32, tries: nat) -> (Option<Point>, u32)
    decreases tries,
{
    if tries == 0 {
        (None, seed)
    } else {
        let s1 = lcg_next(seed);
        let s2 = lcg_next(s1);
        let p = Point { x: (s1 % (GRID_W as u32)) as i32, y: (s2 % (GRID_H as u32)) as i32 };
        if !occ.contains(p) {
            (Some(p), s2)
        } else {
            apple_search(occ, s2, (tries - 1) as nat)
        }
    }
}

/// The most snakes a board can hold while a new player can still join: the start cell
/// of a new snake is computed in `i32` from five times its position in the list.
pub const MAX_SNAKES: usize = 429_496_729;

/// How many cells are tried before the apple is left where it is.
pub const APPLE_TRIES: u32 = 128;

/// The board after moving the apple off the snakes, when it lies on one.
pub open spec fn place_apple(g: GameView) -> GameView {
    let occ = occupied(g.snakes);
    if !occ.contains(g.apple) {
        g
    } else {
        let found = apple_search(occ, g.seed, APPLE_TRIES as nat);
        GameView {
            apple: match found.0 {
                Some(p) => p,
                None => g.apple,
            },
            seed: found.1,
            ..g
        }
    }
}

/// The board after a player with identifier `id` joins, if no snake has that identifier yet.
pub open spec fn add_snake_model(g: GameView, id: Seq<char>, name: Seq<char>, color: Seq<char>) -> GameView {
    if find_id(g.snakes, id) is Some {
        g
    } else {
        place_apple(
            GameView {
                snakes: g.snakes.push(fresh_snake(id, name, color, join_head(g.snakes.len() as int))),
                ..g
            },
        )
    }
}

/// The board after the player `id` asks to turn to `dir`: the first snake with that
/// identifier takes the turn at its next move, unless it would reverse onto itself.
pub open spec fn set_input_model(g: GameView, id: Seq<char>, dir: Direction) -> GameView {
    match find_id(g.snakes, id) {
        Some(i) => if !spec_opposite(g.snakes[i].dir, dir) {
            GameView { snakes: g.snakes.update(i, SnakeView { pending: dir, ..g.snakes[i] }), ..g }
        } else {
            g
        },
        None => g,
    }
}

/// The board after the snake `id` crashes: two numbers are drawn for a spawn cell, and the
/// first snake with that identifier starts over there, heading right, with no points.
pub open spec fn reset_model(g: GameView, id: Seq<char>) -> GameView {
    let spawn = spawn_point(g.seed);
    let seed = lcg_next(lcg_next(g.seed));
    match find_id(g.snakes, id) {
        Some(i) => GameView {
            snakes: g.snakes.update(
                i,
                SnakeView {
                    body: fresh_body(spawn),
                    dir: Direction::Right,
                    pending: Direction::Right,
                    score: 0,
                    ..g.snakes[i]
                },
            ),
            seed,
            ..g
        },
        None => GameView { seed, ..g },
    }
}


proof fn lemma_find_id_first(s: Seq<SnakeView>, id: Seq<char>, i: int)
    requires
        0 <= i < s.len(),
        s[i].id == id,
        forall|j: int| 0 <= j < i ==> s[j].id != id,
    ensures
        find_id(s, id) == Some(i),
    decreases i,
{
    if i > 0 {
        lemma_find_id_first(s.drop_first(), id, i - 1);
    }
}

proof fn lemma_find_id_none(s: Seq<SnakeView>, id: Seq<char>)
    requires
        forall|j: int| 0 <= j < s.len() ==> s[j].id != id,
    ensures
        find_id(s, id) is None,
    decreases s.len(),
{
    if s.len() > 0 {
        lemma_find_id_none(s.drop_first(), id);
    }
}

/// `find_id` names the first snake with that identifier, and no other.
pub proof fn lemma_find_id_spec(s: Seq<SnakeView>, id: Seq<char>)
    ensures
        match find_id(s, id) {
            Some(i) => 0 <= i < s.len() && s[i].id == id && forall|j: int|
                0 <= j < i ==> s[j].id != id,
            None => forall|j: int| 0 <= j < s.len() ==> s[j].id != id,
        },
    decreases s.len(),
{
    if s.len() > 0 {
        lemma_find_id_spec(s.drop_first(), id);
        if s[0].id != id {
            match find_id(s.drop_first(), id) {
                Some(i) => {
                    assert forall|j: int| 0 <= j < i + 1 implies s[j].id != id by {
                        if j > 0 {
                            assert(s[j] == s.drop_first()[j - 1]);
                        }
                    }
                },
                None => {
                    assert forall|j: int| 0 <= j < s.len() implies s[j].id != id by {
                        if j > 0 {
                            assert(s[j] == s.drop_first()[j - 1]);
                        }
                    }
                },
            }
        }
    }
}

/// A cell lies in `occupied(snakes)` exactly when it lies in one of the bodies.
pub proof fn lemma_occupied_contains(snakes: Seq<SnakeView>, p: Point)
    ensures
        occupied(snakes).contains(p) <==> exists|i: int|
            0 <= i < snakes.len() && #[trigger] snakes[i].body.contains(p),
    decreases snakes.len(),
{
    if snakes.len() > 0 {
        let init = snakes.drop_last();
        lemma_occupied_contains(init, p);
        let a = occupied(init);
        let b = snakes.last().body;
        if (a + b).contains(p) {
            let k = choose|k: int| 0 <= k < (a + b).len() && (a + b)[k] == p;
            if k < a.len() {
                assert(a[k] == p);
                let i = choose|i: int| 0 <= i < init.len() && #[trigger] init[i].body.contains(p);
                assert(snakes[i] == init[i]);
            } else {
                assert(b[k - a.len()] == p);
                assert(snakes[snakes.len() - 1].body.contains(p));
            }
        }
        if exists|i: int| 0 <= i < snakes.len() && #[trigger] snakes[i].body.contains(p) {
            let i = choose|i: int| 0 <= i < snakes.len() && #[trigger] snakes[i].body.contains(p);
            if i < snakes.len() - 1 {
                assert(init[i] == snakes[i]);
                assert(a.contains(p));
                let k = choose|k: int| 0 <= k < a.len() && a[k] == p;
                assert((a + b)[k] == p);
            } else {
                let k = choose|k: int| 0 <= k < b.len() && b[k] == p;
                assert((a + b)[a.len() + k] == p);
            }
        }
    }
}

/// Whether `p` is one of `cells`.
pub fn contains_point(cells: &Vec<Point>, p: Point) -> (r: bool)
    ensures
        r == cells@.contains(p),
{
    let n = cells.len();
    for i in 0..n
        invariant
            n == cells@.len(),
            forall|j: int| 0 <= j < i ==> cells@[j] != p,
    {
        if cells[i] == p {
            assert(cells@[i as int] == p);
            return true;
        }
    }
    false
}

impl GameState {
    /// Advances the random generator and returns its new value.
    pub fn next_rand(&mut self) -> (r: u32)
        ensures
            r == lcg_next(old(self).seed),
            final(self)@ == (GameView { seed: r, ..old(self)@ }),
    {
        let s = self.seed;
        let r = s.wrapping_mul(1_664_525).wrapping_add(1_013_904_223);
        proof {
            reveal(lcg_next);
            let m = (s as int * 1664525) % 0x1_0000_0000;
            vstd::arithmetic::div_mod::lemma_add_mod_noop(s as int * 1664525, 1013904223, 0x1_0000_0000);
            vstd::arithmetic::div_mod::lemma_small_mod(1013904223, 0x1_0000_0000);
            assert(0 <= m < 0x1_0000_0000);
        }
        self.seed = r;
        r
    }

    /// Every cell covered by a snake, in snake order.
    pub fn occupied_cells(&self) -> (v: Vec<Point>)
        ensures
            v@ == occupied(self@.snakes),
    {
        let mut v: Vec<Point> = Vec::new();
        let n = self.snakes.len();
        for i in 0..n
            invariant
                n == self.snakes@.len(),
                v@ == occupied(self@.snakes.take(i as int)),
        {
            let body = &self.snakes[i].body;
            let m = body.len();
            let ghost before = v@;
            for j in 0..m
                invariant
                    m == body@.len(),
                    v@ == before + body@.take(j as int),
            {
                v.push(body[j]);
                assert(body@.take(j + 1) =~= body@.take(j as int).push(body@[j as int]));
            }
            assert(body@.take(m as int) =~= body@);
            assert(self@.snakes.take(i + 1).drop_last() =~= self@.snakes.take(i as int));
        }
        assert(self@.snakes.take(n as int) =~= self@.snakes);
        v
    }

    /// The index of the first snake whose identifier is `id`.
    pub fn find_snake(&self, id: &str) -> (r: Option<usize>)
        ensures
            r is None <==> find_id(self@.snakes, id@) is None,
            r matches Some(i) ==> i < self.snakes@.len() && find_id(self@.snakes, id@) == Some(
                i as int,
            ),
    {
        let n = self.snakes.len();
        for i in 0..n
            invariant
                n == self.snakes@.len(),
                forall|j: int| 0 <= j < i ==> self@.snakes[j].id != id@,
        {
            if str_eq(self.snakes[i].id.as_str(), id) {
                proof {
                    lemma_find_id_first(self@.snakes, id@, i as int);
                }
                return Some(i);
            }
        }
        proof {
            lemma_find_id_none(self@.snakes, id@);
        }
        None
    }
}


impl GameState {
    /// The player `id` asks to turn to `dir`. The first snake with that identifier takes
    /// the turn at its next move, unless `dir` is the reverse of its current heading.
    pub fn set_input(&mut self, id: &str, dir: Direction)
        ensures
            final(self)@ == set_input_model(old(self)@, id@, dir),
    {
        match self.find_snake(id) {
            Some(i) => {
                let ghost g = self@;
                if !opposite(self.snakes[i].dir, dir) {
                    let ghost before = self.snakes@;
                    let snake = &mut self.snakes[i];
                    snake.pending = dir;
                    proof {
                        let target = g.snakes.update(i as int, SnakeView { pending: dir, ..g.snakes[i as int] });
                        assert forall|j: int| 0 <= j < self@.snakes.len() implies self@.snakes[j] == target[j] by {
                            if j != i {
                                assert(self.snakes@[j] == before[j]);
                            }
                        }
                        assert(self@.snakes =~= target);
                    }
                }
            },
            None => {},
        }
    }

    /// Draws the cell at which a crashed snake starts again.
    pub fn next_spawn(&mut self) -> (p: Point)
        ensures
            p == spawn_point(old(self).seed),
            final(self)@ == (GameView { seed: lcg_next(lcg_next(old(self).seed)), ..old(self)@ }),
    {
        let a = self.next_rand();
        let b = self.next_rand();
        Point { x: 4 + (a % ((GRID_W - 8) as u32)) as i32, y: 4 + (b % ((GRID_H - 8) as u32)) as i32 }
    }

    /// The snake `id` starts over at a freshly drawn cell, heading right, with no points.
    pub fn reset_snake(&mut self, id: &str)
        ensures
            final(self)@ == reset_model(old(self)@, id@),
    {
        let spawn = self.next_spawn();
        match self.find_snake(id) {
            Some(i) => {
                let ghost g = self@;
                let ghost before = self.snakes@;
                let body = vec![spawn, Point { x: spawn.x - 1, y: spawn.y }, Point { x: spawn.x - 2, y: spawn.y }];
                assert(body@ =~= fresh_body(spawn));
                let snake = &mut self.snakes[i];
                snake.body = body;
                snake.dir = Direction::Right;
                snake.pending = Direction::Right;
                snake.score = 0;
                proof {
                    assert(g.snakes == old(self)@.snakes);
                    assert(find_id(old(self)@.snakes, id@) == Some(i as int));
                    let target = reset_model(old(self)@, id@).snakes;
                    assert forall|j: int| 0 <= j < self@.snakes.len() implies self@.snakes[j] == target[j] by {
                        if j != i {
                            assert(self.snakes@[j] == before[j]);
                        }
                    }
                    assert(self@.snakes =~= target);
                }
            },
            None => {},
        }
    }

    /// Moves the apple off the snakes when one of them covers it: up to `APPLE_TRIES`
    /// random cells are tried and the first free one is taken.
    pub fn place_apple_if_needed(&mut self)
        ensures
            final(self)@ == place_apple(old(self)@),
    {
        let cells = self.occupied_cells();
        if !contains_point(&cells, self.apple) {
            return;
        }
        let ghost occ = cells@;
        let ghost g0 = self@;
        let mut t: u32 = 0;
        while t < APPLE_TRIES
            invariant
                occ == cells@,
                occ == occupied(g0.snakes),
                occ.contains(g0.apple),
                g0 == old(self)@,
                t <= APPLE_TRIES,
                self@ == (GameView { seed: self.seed, ..g0 }),
                apple_search(occ, g0.seed, APPLE_TRIES as nat) == apple_search(
                    occ,
                    self.seed,
                    (APPLE_TRIES - t) as nat,
                ),
            decreases APPLE_TRIES - t,
        {
            let ghost seed0 = self.seed;
            let a = self.next_rand();
            let b = self.next_rand();
            let point = Point { x: (a % (GRID_W as u32)) as i32, y: (b % (GRID_H as u32)) as i32 };
            if !contains_point(&cells, point) {
                assert(apple_search(occ, seed0, (APPLE_TRIES - t) as nat) == (Some(point), b));
                self.apple = point;
                return;
            }
            t = t + 1;
        }
    }

    /// A player joins: unless a snake already has identifier `id`, a new snake appears at
    /// the start cell for its position in the list and the apple is moved off it if needed.
    pub fn add_snake(&mut self, id: String, name: String, color: String)
        requires
            find_id(old(self)@.snakes, id@) is None ==> old(self).snakes@.len() <= MAX_SNAKES,
        ensures
            final(self)@ == add_snake_model(old(self)@, id@, name@, color@),
    {
        if self.find_snake(id.as_str()).is_some() {
            return;
        }
        let index = self.snakes.len() as i32;
        let head = Point { x: 5 + (index * 5) % (GRID_W - 8), y: 5 + (index * 3) % (GRID_H - 8) };
        let snake = Snake {
            id,
            name,
            color,
            body: vec![head, Point { x: head.x - 1, y: head.y }, Point { x: head.x - 2, y: head.y }],
            dir: Direction::Right,
            pending: Direction::Right,
            score: 0,
        };
        self.snakes.push(snake);
        proof {
            let ghost added = GameView {
                snakes: old(self)@.snakes.push(
                    fresh_snake(id@, name@, color@, join_head(old(self)@.snakes.len() as int)),
                ),
                ..old(self)@
            };
            assert(self@.snakes =~= added.snakes);
        }
        self.place_apple_if_needed();
    }
}


/// A snake after one move: it takes its requested heading, its head enters the next
/// cell, and it grows by that cell and scores a point when the apple lies there;
/// otherwise its last cell is left behind.
pub open spec fn moved(s: SnakeView, apple: Point) -> SnakeView {
    let next = step(s.body[0], s.pending);
    if next == apple {
        SnakeView { dir: s.pending, body: seq![next] + s.body, score: (s.score + 1) as u32, ..s }
    } else {
        SnakeView { dir: s.pending, body: (seq![next] + s.body).drop_last(), ..s }
    }
}

/// Whether a snake's next move takes its head off the board or onto a cell that was
/// covered, by any snake, before anyone moved.
pub open spec fn crashes(s: SnakeView, occ: Seq<Point>) -> bool {
    let next = step(s.body[0], s.pending);
    !in_grid(next) || occ.contains(next)
}

/// The identifiers of the snakes that crash, in snake order.
pub open spec fn crashed_ids(snakes: Seq<SnakeView>, occ: Seq<Point>) -> Seq<Seq<char>>
    decreases snakes.len(),
{
    if snakes.len() == 0 {
        Seq::empty()
    } else {
        let rest = crashed_ids(snakes.drop_last(), occ);
        if crashes(snakes.last(), occ) {
            rest.push(snakes.last().id)
        } else {
            rest
        }
    }
}

/// The board after restarting the snakes `ids`, one after another.
pub open spec fn reset_all(g: GameView, ids: Seq<Seq<char>>) -> GameView
    decreases ids.len(),
{
    if ids.len() == 0 {
        g
    } else {
        reset_model(reset_all(g, ids.drop_last()), ids.last())
    }
}

/// The board after one tick of the host: the counter advances, every snake moves, the
/// snakes that crashed start over, and the apple is moved off the snakes if needed.
pub open spec fn tick_model(g: GameView) -> GameView {
    let occ = occupied(g.snakes);
    let after_moves = GameView {
        tick: (g.tick + 1) as u64,
        snakes: g.snakes.map_values(|s: SnakeView| moved(s, g.apple)),
        ..g
    };
    place_apple(reset_all(after_moves, crashed_ids(g.snakes, occ)))
}

/// Whether a snake can move without an arithmetic overflow: it has a head, the next cell
/// fits in `i32`, and its score can grow when that cell holds the apple.
pub open spec fn can_move(s: SnakeView, apple: Point) -> bool {
    &&& s.body.len() > 0
    &&& step_fits(s.body[0], s.pending)
    &&& (step(s.body[0], s.pending) == apple ==> s.score < u32::MAX)
}

/// Whether a tick can run without an arithmetic overflow.
pub open spec fn tick_ready(g: GameView) -> bool {
    &&& g.tick < u64::MAX
    &&& forall|i: int| 0 <= i < g.snakes.len() ==> #[trigger] can_move(g.snakes[i], g.apple)
}

/// The views of a list of identifiers.
pub open spec fn id_views(ids: Seq<String>) -> Seq<Seq<char>> {
    ids.map_values(|s: String| s@)
}

impl GameState {
    /// Tells whether `tick` can run on this board.
    pub fn can_tick(&self) -> (r: bool)
        ensures
            r == tick_ready(self@),
    {
        if self.tick == u64::MAX {
            return false;
        }
        let n = self.snakes.len();
        for i in 0..n
            invariant
                n == self.snakes@.len(),
                self.tick < u64::MAX,
                forall|j: int| 0 <= j < i ==> #[trigger] can_move(self@.snakes[j], self@.apple),
        {
            let s = &self.snakes[i];
            if s.body.len() == 0 {
                assert(!can_move(self@.snakes[i as int], self@.apple));
                return false;
            }
            let h = s.body[0];
            let fits = match s.pending {
                Direction::Up => h.y > i32::MIN,
                Direction::Down => h.y < i32::MAX,
                Direction::Left => h.x > i32::MIN,
                Direction::Right => h.x < i32::MAX,
            };
            if !fits {
                assert(!can_move(self@.snakes[i as int], self@.apple));
                return false;
            }
            let next = match s.pending {
                Direction::Up => Point { x: h.x, y: h.y - 1 },
                Direction::Down => Point { x: h.x, y: h.y + 1 },
                Direction::Left => Point { x: h.x - 1, y: h.y },
                Direction::Right => Point { x: h.x + 1, y: h.y },
            };
            if next == self.apple && s.score == u32::MAX {
                assert(!can_move(self@.snakes[i as int], self@.apple));
                return false;
            }
            assert(can_move(self@.snakes[i as int], self@.apple));
        }
        true
    }

    /// One tick of the host: every snake moves, the snakes that left the board or ran into
    /// a cell covered before the move start over, and the apple is moved off the snakes.
    pub fn tick_host(&mut self)
        requires
            tick_ready(old(self)@),
        ensures
            final(self)@ == tick_model(old(self)@),
    {
        let ghost g = self@;
        self.tick = self.tick + 1;
        let occupied_before = self.occupied_cells();
        let ghost occ = occupied_before@;
        let apple = self.apple;
        let mut reset_ids: Vec<String> = Vec::new();
        let n = self.snakes.len();
        for i in 0..n
            invariant
                n == self.snakes@.len(),
                n == g.snakes.len(),
                occ == occupied_before@,
                occ == occupied(g.snakes),
                apple == g.apple,
                tick_ready(g),
                self.apple == g.apple,
                self.seed == g.seed,
                self.started == g.started,
                self.tick == g.tick + 1,
                forall|j: int| 0 <= j < i ==> self@.snakes[j] == moved(g.snakes[j], apple),
                forall|j: int| i <= j < n ==> self@.snakes[j] == g.snakes[j],
                id_views(reset_ids@) == crashed_ids(g.snakes.take(i as int), occ),
        {
            let ghost before = self.snakes@;
            let ghost before_v = self@.snakes;
            let ghost s0 = g.snakes[i as int];
            assert(can_move(g.snakes[i as int], g.apple));
            let snake = &mut self.snakes[i];
            snake.dir = snake.pending;
            let mut next = snake.body[0];
            match snake.dir {
                Direction::Up => next.y = next.y - 1,
                Direction::Down => next.y = next.y + 1,
                Direction::Left => next.x = next.x - 1,
                Direction::Right => next.x = next.x + 1,
            }
            let ate = next == apple;
            snake.body.insert(0, next);
            if !ate {
                snake.body.pop();
            } else {
                snake.score = snake.score + 1;
            }
            let hit_wall = next.x < 0 || next.y < 0 || next.x >= GRID_W || next.y >= GRID_H;
            let hit_body = contains_point(&occupied_before, next);
            if hit_wall || hit_body {
                reset_ids.push(snake.id.clone());
            }
            proof {
                assert(next == step(s0.body[0], s0.pending));
                assert(self@.snakes[i as int].body =~= moved(s0, apple).body);
                assert(self@.snakes[i as int] == moved(s0, apple));
                assert forall|j: int| 0 <= j < n && j != i implies self@.snakes[j] == before_v[j] by {
                    assert(self.snakes@[j] == before[j]);
                }
                assert forall|j: int| 0 <= j < i + 1 implies self@.snakes[j] == moved(g.snakes[j], apple) by {
                    if j < i {
                        assert(self@.snakes[j] == before_v[j]);
                        assert(before_v[j] == moved(g.snakes[j], apple));
                    }
                }
                assert(g.snakes.take(i + 1).drop_last() =~= g.snakes.take(i as int));
                assert(g.snakes.take(i + 1).last() == s0);
                assert(id_views(reset_ids@) =~= crashed_ids(g.snakes.take(i + 1), occ));
            }
        }
        let ghost after_moves = GameView {
            tick: (g.tick + 1) as u64,
            snakes: g.snakes.map_values(|s: SnakeView| moved(s, g.apple)),
            ..g
        };
        assert(self@.snakes =~= after_moves.snakes);
        assert(self@ == after_moves);
        assert(g.snakes.take(n as int) =~= g.snakes);
        let ghost ids = id_views(reset_ids@);
        let m = reset_ids.len();
        for k in 0..m
            invariant
                m == reset_ids@.len(),
                ids == id_views(reset_ids@),
                self@ == reset_all(after_moves, ids.take(k as int)),
        {
            self.reset_snake(reset_ids[k].as_str());
            assert(ids.take(k + 1).drop_last() =~= ids.take(k as int));
        }
        assert(ids.take(m as int) =~= ids);
        self.place_apple_if_needed();
    }
}

} // verus!
