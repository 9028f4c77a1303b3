use crate::grid::{neighbour, Direction, Position};
use std::collections::VecDeque;
use vstd::prelude::*;

verus! {

/// Some cell of `cells` before index `upto` is `p`.
pub open spec fn occupies(cells: Seq<Position>, p: Position, upto: int) -> bool {
    exists|i: int| 0 <= i < upto && cells[i] == p
}

/// The snake: the cells it covers, head first, and the way it faces.
#[derive(Debug)]
pub struct Snake {
    positions: VecDeque<Position>,
    direction: Direction,
}

impl Snake {
    /// The cells the snake covers, head first.
    pub closed spec fn cells(&self) -> Seq<Position> {
        self.positions@
    }

    /// The way the snake faces.
    pub closed spec fn heading(&self) -> Direction {
        self.direction
    }

    /// A snake always covers at least one cell.
    pub open spec fn wf(&self) -> bool {
        self.cells().len() >= 1
    }

    /// The cell the head is on.
    pub open spec fn head(&self) -> Position {
        self.cells()[0]
    }

    /// Whether `p` is under the snake; the tail cell counts only when
    /// `include_last` holds, since on a plain move it is about to be vacated.
    pub open spec fn covers(&self, p: Position, include_last: bool) -> bool {
        occupies(
            self.cells(),
            p,
            if include_last { self.cells().len() as int } else { self.cells().len() - 1 },
        )
    }

    /// A snake of one cell at (start_x, start_y), facing left.
    pub fn new(start_x: u16, start_y: u16) -> (s: Snake)
        ensures
            s.cells() == seq![Position { x: start_x as i32, y: start_y as i32 }],
            s.heading() == Direction::Left,
            s.wf(),
    {
        let mut v = VecDeque::new();
        v.push_front(Position { x: start_x as i32, y: start_y as i32 });
        Snake { positions: v, direction: Direction::Left }
    }

    /// A snake over the given cells, head first, facing `direction`.
    pub fn from_cells(cells: Vec<Position>, direction: Direction) -> (s: Snake)
        requires
            cells.len() >= 1,
        ensures
            s.cells() == cells@,
            s.heading() == direction,
            s.wf(),
    {
        let mut v = VecDeque::new();
        let mut i: usize = 0;
        while i < cells.len()
            invariant
                i <= cells.len(),
                v@ == cells@.subrange(0, i as int),
            decreases cells.len() - i,
        {
            v.push_back(cells[i]);
            i += 1;
        }
        Snake { positions: v, direction }
    }

    /// The way the snake faces.
    pub fn direction(&self) -> (d: Direction)
        ensures
            d == self.heading(),
    {
        self.direction
    }

    /// How many cells the snake covers.
    pub fn len(&self) -> (n: usize)
        ensures
            n == self.cells().len(),
    {
        self.positions.len()
    }

    pub(crate) fn set_direction(&mut self, d: Direction)
        ensures
            final(self).cells() == old(self).cells(),
            final(self).heading() == d,
    {
        self.direction = d;
    }

    /// The cell the head moves to next.
    pub fn next_pos(&self) -> (p: Position)
        requires
            self.wf(),
            self.heading() == Direction::Left ==> self.head().x > i32::MIN,
            self.heading() == Direction::Right ==> self.head().x < i32::MAX,
            self.heading() == Direction::Up ==> self.head().y > i32::MIN,
            self.heading() == Direction::Down ==> self.head().y < i32::MAX,
        ensures
            (p.x as int, p.y as int) == neighbour(self.head(), self.heading()),
    {
        let init_pos = self.positions[0];
        match self.direction {
            Direction::Down => Position { x: init_pos.x, y: init_pos.y + 1 },
            Direction::Up => Position { x: init_pos.x, y: init_pos.y - 1 },
            Direction::Left => Position { x: init_pos.x - 1, y: init_pos.y },
            Direction::Right => Position { x: init_pos.x + 1, y: init_pos.y },
        }
    }

    /// The segment at index `i`, counted from the head.
    pub fn get(&self, i: usize) -> (r: Option<&Position>)
        ensures
            r == (if i < self.cells().len() { Some(&self.cells()[i as int]) } else { None }),
    {
        if i < self.positions.len() {
            Some(&self.positions[i])
        } else {
            None
        }
    }

    /// Grows onto `p`: it becomes the head and the tail stays.
    pub fn move_apple(&mut self, p: Position)
        ensures
            final(self).cells() == seq![p] + old(self).cells(),
            final(self).heading() == old(self).heading(),
    {
        self.positions.push_front(p);
    }

    /// Moves onto `p`: it becomes the head and the tail cell is vacated.
    pub fn move_neutral(&mut self, p: Position)
        requires
            old(self).wf(),
        ensures
            final(self).cells() == seq![p] + old(self).cells().drop_last(),
            final(self).heading() == old(self).heading(),
    {
        self.positions.push_front(p);
        let _ = self.positions.pop_back();
        proof {
            assert(self.positions@ =~= seq![p] + old(self).positions@.drop_last());
        }
    }

    /// Whether `p` is under the snake, the tail cell counting only when
    /// `include_last` holds.
    pub fn is_at(&self, p: Position, include_last: bool) -> (r: bool)
        requires
            self.wf(),
        ensures
            r == self.covers(p, include_last),
    {
        let n = self.positions.len();
        let upto = if include_last { n } else { n - 1 };
        let mut i: usize = 0;
        while i < upto
            invariant
                upto <= n == self.cells().len(),
                upto == (if include_last { n as int } else { n - 1 }),
                i <= upto,
                forall|j: int| 0 <= j < i ==> self.cells()[j] != p,
            decreases upto - i,
        {
            if self.positions[i] == p {
                return true;
            }
            i += 1;
        }
        false
    }
}

} // verus!
