use crate::board::GameMap;
use crate::game::Game;
use crate::grid::{cell, Direction, Element, ElementKind, Position};
use crate::snake::{occupies, Snake};
use vstd::prelude::*;

verus! {

pub const APPLE_REP: char = '@';

pub const BUSH_REP: char = '+';

pub const ROCK_REP: char = '#';

pub const GRASS_REP: char = '.';

pub const SNAKE_BODY_REP: char = '■';

pub const SNAKE_HEAD_DOWN_REP: char = 'v';

pub const SNAKE_HEAD_UP_REP: char = '∧';

pub const SNAKE_HEAD_RIGHT_REP: char = '>';

pub const SNAKE_HEAD_LEFT_REP: char = '<';

/// The glyph of a stored element of kind `k`.
pub open spec fn kind_glyph(k: ElementKind) -> char {
    match k {
        ElementKind::Apple => APPLE_REP,
        ElementKind::Bush => BUSH_REP,
        ElementKind::Rock => ROCK_REP,
        _ => GRASS_REP,
    }
}

/// The glyph of the head facing `d`.
pub open spec fn head_glyph(d: Direction) -> char {
    match d {
        Direction::Down => SNAKE_HEAD_DOWN_REP,
        Direction::Up => SNAKE_HEAD_UP_REP,
        Direction::Left => SNAKE_HEAD_LEFT_REP,
        Direction::Right => SNAKE_HEAD_RIGHT_REP,
    }
}

/// The glyph of the last element of `es` on `p`; a space where none stands.
pub open spec fn element_glyph_at(es: Seq<Element>, p: Position) -> char
    decreases es.len(),
{
    if es.len() == 0 {
        ' '
    } else if es.last().pos == p {
        kind_glyph(es.last().kind)
    } else {
        element_glyph_at(es.drop_last(), p)
    }
}

/// The glyph of cell `p`: the snake over the board's elements, its head over
/// its body.
pub open spec fn glyph_at(es: Seq<Element>, cells: Seq<Position>, d: Direction, p: Position) -> char {
    if p == cells[0] {
        head_glyph(d)
    } else if occupies(cells, p, cells.len() as int) {
        SNAKE_BODY_REP
    } else {
        element_glyph_at(es, p)
    }
}

/// The glyph that the last point of `points` on `q` paints; a space where none does.
pub open spec fn painted(points: Seq<(Position, char)>, q: Position) -> char
    decreases points.len(),
{
    if points.len() == 0 {
        ' '
    } else if points.last().0 == q {
        points.last().1
    } else {
        painted(points.drop_last(), q)
    }
}

/// The first `n` glyphs of row `y` as `points` paint them.
pub open spec fn row_text(points: Seq<(Position, char)>, y: int, n: nat) -> Seq<char>
    decreases n,
{
    if n == 0 {
        Seq::empty()
    } else {
        row_text(points, y, (n - 1) as nat).push(painted(points, cell(n - 1, y)))
    }
}

/// The first `m` rows of width `w` as `points` paint them, one line each.
pub open spec fn board_text(points: Seq<(Position, char)>, w: nat, m: nat) -> Seq<char>
    decreases m,
{
    if m == 0 {
        Seq::empty()
    } else if m == 1 {
        row_text(points, 0, w)
    } else {
        board_text(points, w, (m - 1) as nat).push('\n') + row_text(points, m - 1, w)
    }
}

/// The cells that the elements `es` and then a snake over `cells` facing `d`
/// paint, in that order.
pub open spec fn points_of(es: Seq<Element>, cells: Seq<Position>, d: Direction) -> Seq<(Position, char)> {
    Seq::new(es.len(), |i: int| (es[i].pos, kind_glyph(es[i].kind))) + Seq::new(
        cells.len(),
        |i: int|
            (
                cells[i],
                if i == 0 {
                    head_glyph(d)
                } else {
                    SNAKE_BODY_REP
                },
            ),
    )
}

/// The glyph of a stored element.
pub fn element_char(elt: &Element) -> (c: char)
    ensures
        c == kind_glyph(elt.kind),
{
    match elt.kind {
        ElementKind::Apple => APPLE_REP,
        ElementKind::Bush => BUSH_REP,
        ElementKind::Rock => ROCK_REP,
        _ => GRASS_REP,
    }
}

fn head_char(d: Direction) -> (c: char)
    ensures
        c == head_glyph(d),
{
    match d {
        Direction::Down => SNAKE_HEAD_DOWN_REP,
        Direction::Up => SNAKE_HEAD_UP_REP,
        Direction::Left => SNAKE_HEAD_LEFT_REP,
        Direction::Right => SNAKE_HEAD_RIGHT_REP,
    }
}

/// Relies on std's `FromIterator<char>` for `String`: the characters, in order.
#[verifier::external_body]
fn text_of(chars: &Vec<char>) -> (s: String)
    ensures
        s@ == chars@,
{
    chars.iter().collect()
}

impl GameMap {
    /// Each element's cell with its glyph, in the order of the elements.
    pub fn represent(&self) -> (v: Vec<(Position, char)>)
        ensures
            v@.len() == self.elements@.len(),
            forall|i: int|
                0 <= i < v@.len() ==> #[trigger] v@[i] == (
                    self.elements@[i].pos,
                    kind_glyph(self.elements@[i].kind),
                ),
    {
        let mut v: Vec<(Position, char)> = Vec::new();
        let mut i: usize = 0;
        while i < self.elements.len()
            invariant
                i <= self.elements.len(),
                v@.len() == i,
                forall|j: int|
                    0 <= j < i ==> #[trigger] v@[j] == (
                        self.elements@[j].pos,
                        kind_glyph(self.elements@[j].kind),
                    ),
            decreases self.elements.len() - i,
        {
            let e = &self.elements[i];
            v.push((e.pos, element_char(e)));
            i += 1;
        }
        v
    }
}

impl Snake {
    /// Each cell of the snake with its glyph, head first.
    pub fn represent(&self) -> (v: Vec<(Position, char)>)
        requires
            self.wf(),
        ensures
            v@.len() == self.cells().len(),
            forall|i: int|
                0 <= i < v@.len() ==> #[trigger] v@[i] == (
                    self.cells()[i],
                    if i == 0 {
                        head_glyph(self.heading())
                    } else {
                        SNAKE_BODY_REP
                    },
                ),
    {
        let n = self.len();
        let mut v: Vec<(Position, char)> = Vec::new();
        let head = self.get(0).unwrap();
        v.push((*head, head_char(self.direction())));
        let mut i: usize = 1;
        while i < n
            invariant
                1 <= i <= n,
                n == self.cells().len(),
                v@.len() == i,
                forall|j: int|
                    0 <= j < i ==> #[trigger] v@[j] == (
                        self.cells()[j],
                        if j == 0 {
                            head_glyph(self.heading())
                        } else {
                            SNAKE_BODY_REP
                        },
                    ),
            decreases n - i,
        {
            let p = self.get(i).unwrap();
            v.push((*p, SNAKE_BODY_REP));
            i += 1;
        }
        v
    }
}

/// The glyph that `points` paint on `q`, the last one on `q` winning.
fn paint(points: &Vec<(Position, char)>, q: Position) -> (c: char)
    ensures
        c == painted(points@, q),
{
    let mut c = ' ';
    let mut i: usize = 0;
    while i < points.len()
        invariant
            i <= points.len(),
            c == painted(points@.subrange(0, i as int), q),
        decreases points.len() - i,
    {
        assert(points@.subrange(0, i + 1).drop_last() =~= points@.subrange(0, i as int));
        if points[i].0 == q {
            c = points[i].1;
        }
        i += 1;
    }
    assert(points@.subrange(0, points.len() as int) =~= points@);
    c
}

impl Game {
    /// The board as text: one line per row, top first, each cell painted by the
    /// elements and then the snake, a space where nothing stands.
    pub fn to_string(&self) -> (s: String)
        requires
            self.snake.wf(),
            self.map.width <= crate::game::MAX_SIDE,
            self.map.height <= crate::game::MAX_SIDE,
        ensures
            s@ == board_text(points_of(self.map.elements@, self.snake.cells(), self.snake.heading()), self.map.width as nat, self.map.height as nat),
    {
        let mut points = self.map.represent();
        let mut body = self.snake.represent();
        points.append(&mut body);
        assert(points@ =~= points_of(self.map.elements@, self.snake.cells(), self.snake.heading()));
        let w = self.map.width;
        let h = self.map.height;
        let mut text: Vec<char> = Vec::new();
        let mut y: usize = 0;
        while y < h
            invariant
                w == self.map.width,
                h == self.map.height,
                h <= crate::game::MAX_SIDE,
                y <= h,
                points@ == points_of(self.map.elements@, self.snake.cells(), self.snake.heading()),
                text@ == board_text(points@, w as nat, y as nat),
            decreases h - y,
        {
            if y > 0 {
                text.push('\n');
            }
            let ghost before = text@;
            let mut x: usize = 0;
            while x < w
                invariant
                    w == self.map.width,
                    y < h,
                    h <= crate::game::MAX_SIDE,
                    x <= w,
                    text@ == before + row_text(points@, y as int, x as nat),
                decreases w - x,
            {
                let q = Position { x: x as i32, y: y as i32 };
                assert(q == cell(x as int, y as int));
                text.push(paint(&points, q));
                assert(text@ =~= before + row_text(points@, y as int, (x + 1) as nat));
                x += 1;
            }
            proof {
                if y == 0 {
                    assert(text@ =~= row_text(points@, 0, w as nat));
                }
            }
            y += 1;
        }
        text_of(&text)
    }
}

/// The glyph of cell `p` of the game.
pub fn game_char(g: &Game, p: Position) -> (c: char)
    requires
        g.snake.wf(),
    ensures
        c == glyph_at(g.map.elements@, g.snake.cells(), g.snake.heading(), p),
{
    let mut c = ' ';
    let mut i: usize = 0;
    while i < g.map.elements.len()
        invariant
            i <= g.map.elements.len(),
            c == element_glyph_at(g.map.elements@.subrange(0, i as int), p),
        decreases g.map.elements.len() - i,
    {
        assert(g.map.elements@.subrange(0, i + 1).drop_last() =~= g.map.elements@.subrange(
            0,
            i as int,
        ));
        let elt = &g.map.elements[i];
        if elt.pos == p {
            c = element_char(elt);
        }
        i += 1;
    }
    assert(g.map.elements@.subrange(0, g.map.elements.len() as int) =~= g.map.elements@);
    // the snake shows over the elements, its head over its body
    if p == *g.snake.get(0).unwrap() {
        c = head_char(g.snake.direction());
    } else if g.snake.is_at(p, true) {
        c = SNAKE_BODY_REP;
    }
    c
}

} // verus!
