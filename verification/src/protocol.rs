use vstd::prelude::*;

verus! {

/// Width of the board, in cells.
pub const GRID_W: i32 = 32;

/// Height of the board, in cells.
pub const GRID_H: i32 = 22;

/// A cell of the board.
#[derive(Clone, Copy, PartialEq, Eq, Structural, Debug)]
pub struct Point {
    pub x: i32,
    pub y: i32,
}

/// A heading a snake can take.
#[derive(Clone, Copy, PartialEq, Eq, Structural, Debug)]
pub enum Direction {
    Up,
    Down,
    Left,
    Right,
}

/// Whether `a` and `b` point in exactly opposite directions.
pub open spec fn spec_opposite(a: Direction, b: Direction) -> bool {
    ||| (a == Direction::Up && b == Direction::Down)
    ||| (a == Direction::Down && b == Direction::Up)
    ||| (a == Direction::Left && b == Direction::Right)
    ||| (a == Direction::Right && b == Direction::Left)
}

/// Tells whether turning from `a` to `b` would reverse a snake onto itself.
pub fn opposite(a: Direction, b: Direction) -> (r: bool)
    ensures
        r == spec_opposite(a, b),
{
    match (a, b) {
        (Direction::Up, Direction::Down) => true,
        (Direction::Down, Direction::Up) => true,
        (Direction::Left, Direction::Right) => true,
        (Direction::Right, Direction::Left) => true,
        _ => false,
    }
}


/// One player's snake. `body[0]` is the head.
pub struct Snake {
    pub id: String,
    pub name: String,
    pub color: String,
    pub body: Vec<Point>,
    pub dir: Direction,
    pub pending: Direction,
    pub score: u32,
}

/// The mathematical value of a `Snake`.
pub struct SnakeView {
    pub id: Seq<char>,
    pub name: Seq<char>,
    pub color: Seq<char>,
    pub body: Seq<Point>,
    pub dir: Direction,
    pub pending: Direction,
    pub score: u32,
}

impl View for Snake {
    type V = SnakeView;

    open spec fn view(&self) -> SnakeView {
        SnakeView {
            id: self.id@,
            name: self.name@,
            color: self.color@,
            body: self.body@,
            dir: self.dir,
            pending: self.pending,
            score: self.score,
        }
    }
}

impl Clone for Snake {
    fn clone(&self) -> (r: Self)
        ensures
            r@ == self@,
    {
        let body = self.body.clone();
        assert(body@ =~= self.body@);
        Snake {
            id: self.id.clone(),
            name: self.name.clone(),
            color: self.color.clone(),
            body,
            dir: self.dir,
            pending: self.pending,
            score: self.score,
        }
    }
}

/// Everything the host simulates and broadcasts.
pub struct GameState {
    pub apple: Point,
    pub snakes: Vec<Snake>,
    pub tick: u64,
    pub seed: u32,
    pub started: bool,
}

/// The mathematical value of a `GameState`.
pub struct GameView {
    pub apple: Point,
    pub snakes: Seq<SnakeView>,
    pub tick: u64,
    pub seed: u32,
    pub started: bool,
}

/// The views of a sequence of snakes.
pub open spec fn snake_views(snakes: Seq<Snake>) -> Seq<SnakeView> {
    snakes.map_values(|s: Snake| s@)
}

impl View for GameState {
    type V = GameView;

    open spec fn view(&self) -> GameView {
        GameView {
            apple: self.apple,
            snakes: snake_views(self.snakes@),
            tick: self.tick,
            seed: self.seed,
            started: self.started,
        }
    }
}

impl Clone for GameState {
    fn clone(&self) -> (r: Self)
        ensures
            r@ == self@,
    {
        let snakes = self.snakes.clone();
        assert(snake_views(snakes@) =~= snake_views(self.snakes@));
        GameState {
            apple: self.apple,
            snakes,
            tick: self.tick,
            seed: self.seed,
            started: self.started,
        }
    }
}

/// Where the apple lies on a fresh board.
pub open spec fn initial_apple() -> Point {
    Point { x: 15, y: 10 }
}

/// The seed of the random numbers on a fresh board.
pub const INITIAL_SEED: u32 = 0x5eed_1234;

impl GameState {
    /// The view of a fresh board: no snakes, the apple at (15, 10), not started.
    pub open spec fn new_view() -> GameView {
        GameView {
            apple: initial_apple(),
            snakes: Seq::empty(),
            tick: 0,
            seed: INITIAL_SEED,
            started: false,
        }
    }

    /// A fresh board: no snakes, the apple at (15, 10), not started.
    pub fn new() -> (s: Self)
        ensures
            s@ == Self::new_view(),
    {
        let s = GameState {
            apple: Point { x: 15, y: 10 },
            snakes: Vec::new(),
            tick: 0,
            seed: INITIAL_SEED,
            started: false,
        };
        assert(s@.snakes =~= Seq::<SnakeView>::empty());
        s
    }
}

/// A message on a data channel between the host and a peer.
pub enum NetMsg {
    /// A peer introduces its player.
    Hello { id: String, name: String, color: String },
    /// A peer asks its snake to turn.
    Input { id: String, dir: Direction },
    /// The host shares the whole board.
    State { state: GameState },
}

/// A session description exchanged by QR code.
pub struct Signal {
    pub sdp_type: String,
    pub sdp: String,
}


/// How many colors a player can choose from.
pub const PALETTE_LEN: usize = 8;

/// The colors a player can choose from, in the order of their buttons.
pub open spec fn palette() -> Seq<Seq<char>> {
    seq![
        "#2f7d54"@,
        "#d14d41"@,
        "#2c6fb8"@,
        "#8f5bb3"@,
        "#c2851b"@,
        "#148184"@,
        "#bf4f8c"@,
        "#59636a"@,
    ]
}

/// The color of the palette at `index`.
pub fn palette_color(index: usize) -> (c: &'static str)
    requires
        index < PALETTE_LEN,
    ensures
        c@ == palette()[index as int],
{
    match index {
        0 => "#2f7d54",
        1 => "#d14d41",
        2 => "#2c6fb8",
        3 => "#8f5bb3",
        4 => "#c2851b",
        5 => "#148184",
        6 => "#bf4f8c",
        _ => "#59636a",
    }
}

/// Whether `color` is one of the palette's colors.
pub fn is_palette_color(color: &str) -> (r: bool)
    ensures
        r == palette().contains(color@),
{
    for i in 0..PALETTE_LEN
        invariant
            forall|j: int| 0 <= j < i ==> palette()[j] != color@,
    {
        if crate::text::str_eq(palette_color(i), color) {
            assert(palette()[i as int] == color@);
            return true;
        }
    }
    assert(palette().len() == PALETTE_LEN);
    false
}


/// Opposition is symmetric, and no direction is opposite to itself.
pub proof fn lemma_opposite_symmetric(a: Direction, b: Direction)
    ensures
        spec_opposite(a, b) == spec_opposite(b, a),
        !spec_opposite(a, a),
{
}

} // verus!
