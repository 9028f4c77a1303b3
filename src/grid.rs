use vstd::prelude::*;

verus! {

/// What occupies a cell of the board. `Grass` is what an empty cell holds and
/// `SnakePart` what a cell under the snake's body holds; neither is stored.
#[derive(Debug, Clone, Copy, PartialEq, Eq, Structural)]
pub enum ElementKind {
    Rock,
    Bush,
    Apple,
    Grass,
    SnakePart,
}

/// The four headings of the snake; the y axis grows downwards.
#[derive(Debug, Clone, Copy, PartialEq, Eq, Structural)]
pub enum Direction {
    Up,
    Down,
    Left,
    Right,
}

/// A cell of the board.
#[derive(Debug, Clone, Copy, PartialEq, Eq, Structural)]
pub struct Position {
    pub x: i32,
    pub y: i32,
}

/// An item stored on the board, with the milliseconds it has left to live.
#[derive(Debug, Clone, Copy, PartialEq, Eq, Structural)]
pub struct Element {
    pub pos: Position,
    pub time_left: u64,
    pub kind: ElementKind,
}

/// The coordinates one cell away from `p` towards `d`.
pub open spec fn neighbour(p: Position, d: Direction) -> (int, int) {
    match d {
        Direction::Left => (p.x - 1, p.y as int),
        Direction::Right => (p.x + 1, p.y as int),
        Direction::Up => (p.x as int, p.y - 1),
        Direction::Down => (p.x as int, p.y + 1),
    }
}

/// `a` and `b` point in exactly opposite directions.
pub open spec fn opposite(a: Direction, b: Direction) -> bool {
    match (a, b) {
        (Direction::Left, Direction::Right) => true,
        (Direction::Right, Direction::Left) => true,
        (Direction::Up, Direction::Down) => true,
        (Direction::Down, Direction::Up) => true,
        _ => false,
    }
}

/// The cell at coordinates (x, y) of a board no wider or higher than `u16::MAX`.
pub open spec fn cell(x: int, y: int) -> Position {
    Position { x: x as i32, y: y as i32 }
}

} // verus!
