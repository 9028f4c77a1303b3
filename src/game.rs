use crate::board::{aged, kind_at, without_at, GameMap};
use crate::grid::{cell, neighbour, opposite, Direction, Element, ElementKind, Position};
use crate::rng::draw;
use crate::snake::{occupies, Snake};
use rand::rngs::ThreadRng;
use vstd::prelude::*;

verus! {

/// Points for eating an apple.
pub const APPLE_REWARD: i64 = 20;

/// Points lost for crossing a bush.
pub const BUSH_PENALTY: i64 = 5;

/// A kind roll in [0, 9] at or below this gives a rock, above it a bush.
pub const ROCK_THRESHOLD: u64 = 3;

/// Milliseconds an apple is given to live; apples never expire.
pub const APPLE_LIFETIME: u64 = 1_000_000;

/// Shortest lifetime of a new obstacle, in milliseconds.
pub const MIN_OBSTACLE_LIFETIME: u64 = 30_000;

/// Longest lifetime of a new obstacle, in milliseconds.
pub const MAX_OBSTACLE_LIFETIME: u64 = 60_000;

/// Widest and highest board: the middle cell's coordinates fit a `u16`.
pub const MAX_SIDE: usize = 131_071;

/// The random values one step may consume.
#[derive(Debug, Clone, Copy)]
pub struct Rolls {
    /// Decides whether an obstacle appears: it does when score + obstacle is a
    /// multiple of five.
    pub obstacle: u64,
    /// Decides the obstacle's kind, see `ROCK_THRESHOLD`.
    pub rock: u64,
    /// Picks the obstacle's cell among the free ones.
    pub obstacle_cell: u64,
    /// The obstacle's lifetime in milliseconds.
    pub lifetime: u64,
    /// Picks the new apple's cell among the free ones.
    pub apple_cell: u64,
}

impl Rolls {
    /// The ranges the rolls are drawn from.
    pub open spec fn valid(&self) -> bool {
        &&& self.obstacle < 10
        &&& self.rock < 10
        &&& MIN_OBSTACLE_LIFETIME <= self.lifetime <= MAX_OBSTACLE_LIFETIME
    }
}

/// What a game is, apart from its random source.
pub struct GameView {
    pub speedups: u64,
    pub width: usize,
    pub height: usize,
    pub elements: Seq<Element>,
    pub cells: Seq<Position>,
    pub heading: Direction,
    pub score: i64,
    pub over: bool,
}

/// No snake cell, the tail included, is on `q`.
pub open spec fn is_free(cells: Seq<Position>, q: Position) -> bool {
    !occupies(cells, q, cells.len() as int)
}

/// The free cells among the first `n` of row `y`, left to right.
pub open spec fn free_in_row(cells: Seq<Position>, y: int, n: nat) -> Seq<
    Position,
>
    decreases n,
{
    if n == 0 {
        Seq::empty()
    } else {
        let rest = free_in_row(cells, y, (n - 1) as nat);
        let q = cell(n - 1, y);
        if is_free(cells, q) {
            rest.push(q)
        } else {
            rest
        }
    }
}

/// The free cells of the first `m` rows of width `w`, row by row.
pub open spec fn free_in_rows(cells: Seq<Position>, w: nat, m: nat) -> Seq<
    Position,
>
    decreases m,
{
    if m == 0 {
        Seq::empty()
    } else {
        free_in_rows(cells, w, (m - 1) as nat) + free_in_row(cells, m - 1, w)
    }
}

/// The cell that `roll` picks among `free`; none when nothing is free.
pub open spec fn pick(free: Seq<Position>, roll: u64) -> Option<Position> {
    if free.len() == 0 {
        None
    } else {
        Some(free[(roll as int) % (free.len() as int)])
    }
}

/// `es` with an element of `kind` and `life` at the cell `roll` picks among
/// `free`, in place of whatever stood there; `es` itself when nothing is free.
pub open spec fn placed(
    es: Seq<Element>,
    free: Seq<Position>,
    roll: u64,
    life: u64,
    kind: ElementKind,
) -> Seq<Element> {
    match pick(free, roll) {
        Some(q) => without_at(es, q).push(Element { pos: q, time_left: life, kind }),
        None => es,
    }
}

/// The heading after asking for `d` while facing `c`: a reversal is refused.
pub open spec fn turned(c: Direction, d: Direction) -> Direction {
    if opposite(c, d) {
        c
    } else {
        d
    }
}

/// The game once the head has eaten the apple on `p`, before a new apple
/// appears and before aging: the score rises, the snake grows onto `p`, the pace
/// may rise, an obstacle may appear on a free cell, and the apple leaves.
pub open spec fn eaten(g: GameView, p: Position, rolls: Rolls) -> GameView {
    let score = g.score + APPLE_REWARD;
    let grown = GameView {
        score: score as i64,
        cells: seq![p] + g.cells,
        speedups: if score % 3 == 0 {
            (g.speedups + 1) as u64
        } else {
            g.speedups
        },
        ..g
    };
    let with_obstacle = if (score + rolls.obstacle) % 5 == 0 {
        placed(
            grown.elements,
            grown.free(),
            rolls.obstacle_cell,
            rolls.lifetime,
            obstacle_kind(rolls.rock),
        )
    } else {
        grown.elements
    };
    GameView { elements: without_at(with_obstacle, p), ..grown }
}

/// The game after the head has eaten the apple on `p`, before aging: see
/// `eaten`, and a new apple on a free cell, if any is free.
pub open spec fn after_apple(g: GameView, p: Position, rolls: Rolls) -> GameView {
    let e = eaten(g, p, rolls);
    GameView {
        elements: placed(e.elements, e.free(), rolls.apple_cell, APPLE_LIFETIME, ElementKind::Apple),
        ..e
    }
}

/// The kind of obstacle a kind roll gives.
pub open spec fn obstacle_kind(rock: u64) -> ElementKind {
    if rock <= ROCK_THRESHOLD {
        ElementKind::Rock
    } else {
        ElementKind::Bush
    }
}

/// One step of `dt` milliseconds: the game that follows and whether play goes on.
/// Once the game is over a step changes nothing. Off the board, into a rock or
/// into the body the game becomes over and nothing else changes; on grass the
/// snake moves; on a bush it moves and loses points and the bush; on an apple see
/// `after_apple`. Then every element ages by `dt`.
pub open spec fn step_outcome(g: GameView, dt: u64, rolls: Rolls) -> (GameView, bool) {
    let p = g.target();
    if g.over {
        (g, false)
    } else {
        match g.encounter() {
            Some(ElementKind::Grass) => (
                GameView {
                    cells: seq![p] + g.cells.drop_last(),
                    elements: aged(g.elements, dt),
                    ..g
                },
                true,
            ),
            Some(ElementKind::Bush) => (
                GameView {
                    score: (g.score - BUSH_PENALTY) as i64,
                    cells: seq![p] + g.cells.drop_last(),
                    elements: aged(without_at(g.elements, p), dt),
                    ..g
                },
                true,
            ),
            Some(ElementKind::Apple) => {
                let a = after_apple(g, p, rolls);
                (GameView { elements: aged(a.elements, dt), ..a }, true)
            },
            _ => (GameView { over: true, ..g }, false),
        }
    }
}

/// The score and pace counter leave room for one more step.
pub open spec fn room_for_step(g: GameView) -> bool {
    &&& i64::MIN + BUSH_PENALTY <= g.score <= i64::MAX - APPLE_REWARD
    &&& g.speedups < u64::MAX
}

/// The game as it starts on a `w` by `h` board: the snake on the middle cell
/// facing left, no points, no elements yet, play going on.
pub open spec fn start(w: usize, h: usize) -> GameView {
    GameView {
        speedups: 0,
        width: w,
        height: h,
        elements: Seq::empty(),
        cells: seq![cell((w / 2) as int, (h / 2) as int)],
        heading: Direction::Left,
        score: 0,
        over: false,
    }
}

impl GameView {
    /// A board within the size limits and a snake of at least one cell, all on it.
    pub open spec fn wf(&self) -> bool {
        &&& 1 <= self.width <= MAX_SIDE
        &&& 1 <= self.height <= MAX_SIDE
        &&& self.cells.len() >= 1
        &&& forall|i: int| 0 <= i < self.cells.len() ==> self.on_board(#[trigger] self.cells[i])
    }

    pub open spec fn on_board(&self, p: Position) -> bool {
        0 <= p.x < self.width && 0 <= p.y < self.height
    }

    /// The free cells of the board, row by row.
    pub open spec fn free(&self) -> Seq<Position> {
        free_in_rows(self.cells, self.width as nat, self.height as nat)
    }

    /// The cell the head moves to next.
    pub open spec fn target(&self) -> Position {
        let t = neighbour(self.cells[0], self.heading);
        cell(t.0, t.1)
    }

    /// What the head meets on the target cell: the body first (the tail cell is
    /// about to be vacated), then what the board holds there; none off the board.
    pub open spec fn encounter(&self) -> Option<ElementKind> {
        let p = self.target();
        if occupies(self.cells, p, self.cells.len() - 1) {
            Some(ElementKind::SnakePart)
        } else if self.on_board(p) {
            Some(kind_at(self.elements, p))
        } else {
            None
        }
    }
}

/// Every cell listed as free in the first `m` rows of width `w <= MAX_SIDE`
/// lies in those rows and is free.
proof fn lemma_free_sound(cells: Seq<Position>, w: nat, m: nat)
    requires
        w <= MAX_SIDE,
        m <= MAX_SIDE,
    ensures
        forall|i: int|
            0 <= i < free_in_rows(cells, w, m).len() ==> {
                let q = #[trigger] free_in_rows(cells, w, m)[i];
                &&& 0 <= q.x < w
                &&& 0 <= q.y < m
                &&& is_free(cells, q)
            },
    decreases m,
{
    if m > 0 {
        lemma_free_sound(cells, w, (m - 1) as nat);
        lemma_free_row_sound(cells, m - 1, w);
        let a = free_in_rows(cells, w, (m - 1) as nat);
        let b = free_in_row(cells, m - 1, w);
        assert forall|i: int| 0 <= i < (a + b).len() implies {
            let q = #[trigger] (a + b)[i];
            &&& 0 <= q.x < w
            &&& 0 <= q.y < m
            &&& is_free(cells, q)
        } by {
            if i >= a.len() {
                assert((a + b)[i] == b[i - a.len()]);
            }
        }
    }
}

proof fn lemma_free_row_sound(cells: Seq<Position>, y: int, n: nat)
    requires
        n <= MAX_SIDE,
        0 <= y < MAX_SIDE,
    ensures
        forall|i: int|
            0 <= i < free_in_row(cells, y, n).len() ==> {
                let q = #[trigger] free_in_row(cells, y, n)[i];
                &&& 0 <= q.x < n
                &&& q.y == y
                &&& is_free(cells, q)
            },
    decreases n,
{
    if n > 0 {
        lemma_free_row_sound(cells, y, (n - 1) as nat);
        let rest = free_in_row(cells, y, (n - 1) as nat);
        let q = cell(n - 1, y);
        assert(q.x == n - 1 && q.y == y);
        assert forall|i: int| 0 <= i < free_in_row(cells, y, n).len() implies {
            let r = #[trigger] free_in_row(cells, y, n)[i];
            &&& 0 <= r.x < n
            &&& r.y == y
            &&& is_free(cells, r)
        } by {
            if i < rest.len() {
                assert(free_in_row(cells, y, n)[i] == rest[i]);
            }
        }
    }
}

/// A free cell of the first `m` rows of width `w` is listed as free.
pub proof fn lemma_free_complete(cells: Seq<Position>, w: nat, m: nat, q: Position)
    requires
        w <= MAX_SIDE,
        0 <= q.x < w,
        0 <= q.y < m,
        is_free(cells, q),
    ensures
        free_in_rows(cells, w, m).contains(q),
    decreases m,
{
    let a = free_in_rows(cells, w, (m - 1) as nat);
    let b = free_in_row(cells, m - 1, w);
    if q.y < m - 1 {
        lemma_free_complete(cells, w, (m - 1) as nat, q);
        let i = choose|i: int| 0 <= i < a.len() && a[i] == q;
        assert((a + b)[i] == q);
    } else {
        lemma_free_row_complete(cells, m - 1, w, q);
        let i = choose|i: int| 0 <= i < b.len() && b[i] == q;
        assert((a + b)[a.len() + i] == q);
    }
}

proof fn lemma_free_row_complete(cells: Seq<Position>, y: int, n: nat, q: Position)
    requires
        n <= MAX_SIDE,
        0 <= q.x < n,
        q.y == y,
        is_free(cells, q),
    ensures
        free_in_row(cells, y, n).contains(q),
    decreases n,
{
    let rest = free_in_row(cells, y, (n - 1) as nat);
    if q.x < n - 1 {
        lemma_free_row_complete(cells, y, (n - 1) as nat, q);
        let i = choose|i: int| 0 <= i < rest.len() && rest[i] == q;
        assert(free_in_row(cells, y, n)[i] == q);
    } else {
        assert(cell(n - 1, y) == q);
        assert(free_in_row(cells, y, n)[rest.len() as int] == q);
    }
}

/// The cell picked among the free cells of a well-formed game is on the board
/// and free.
pub proof fn lemma_pick_free(g: GameView, roll: u64)
    requires
        g.wf(),
    ensures
        pick(g.free(), roll) matches Some(q) ==> g.on_board(q) && is_free(
            g.cells,
            q,
        ),
{
    lemma_free_sound(g.cells, g.width as nat, g.height as nat);
    if g.free().len() > 0 {
        let i = (roll as int) % (g.free().len() as int);
        assert(0 <= i < g.free().len());
        let q = g.free()[i];
        assert(0 <= q.x < g.width && 0 <= q.y < g.height && is_free(g.cells, q));
    }
}

/// The game: the board, the snake, the score, how often the pace rose (the
/// speed is 1.05 to that power), and the random source of its spawns.
#[derive(Debug)]
pub struct Game {
    /// How many times the pace rose.
    pub speedups: u64,
    pub map: GameMap,
    pub snake: Snake,
    /// The points; a bush can take them below zero.
    pub score: i64,
    /// Play has ended; from then on a step changes nothing.
    pub over: bool,
    /// The one generator every spawn draws from.
    pub rng: ThreadRng,
}

impl View for Game {
    type V = GameView;

    open spec fn view(&self) -> GameView {
        GameView {
            speedups: self.speedups,
            width: self.map.width,
            height: self.map.height,
            elements: self.map.elements@,
            cells: self.snake.cells(),
            heading: self.snake.heading(),
            score: self.score,
            over: self.over,
        }
    }
}

impl Game {
    /// The board and the snake are well formed (see `GameView::wf`).
    pub open spec fn wf(&self) -> bool {
        self@.wf()
    }

    /// The free cells of the board, row by row.
    pub fn free_cells(&self) -> (v: Vec<Position>)
        requires
            self.wf(),
        ensures
            v@ == self@.free(),
    {
        let w = self.map.width;
        let h = self.map.height;
        let mut v: Vec<Position> = Vec::new();
        let mut y: usize = 0;
        while y < h
            invariant
                self.wf(),
                w == self@.width,
                h == self@.height,
                y <= h,
                v@ == free_in_rows(self@.cells, w as nat, y as nat),
            decreases h - y,
        {
            let ghost before = v@;
            let mut x: usize = 0;
            while x < w
                invariant
                    self.wf(),
                    w == self@.width,
                    h == self@.height,
                    y < h,
                    x <= w,
                    v@ == before + free_in_row(self@.cells, y as int, x as nat),
                decreases w - x,
            {
                let q = Position { x: x as i32, y: y as i32 };
                assert(q == cell(x as int, y as int));
                if !self.snake.is_at(q, true) {
                    v.push(q);
                }
                proof {
                    assert(v@ =~= before + free_in_row(
                        self@.cells,
                        y as int,
                        (x + 1) as nat,
                    ));
                }
                x += 1;
            }
            y += 1;
        }
        v
    }

    /// A game on a `w` by `h` board: the snake on the middle cell facing left,
    /// no points, and one apple on a random free cell (none on a board of one cell).
    pub fn new(w: usize, h: usize) -> (g: Game)
        requires
            1 <= w,
            1 <= h,
            w / 2 <= u16::MAX as usize,
            h / 2 <= u16::MAX as usize,
        ensures
            g.wf(),
            exists|roll: u64|
                g@ == (GameView {
                    elements: #[trigger] placed(
                        Seq::empty(),
                        start(w, h).free(),
                        roll,
                        APPLE_LIFETIME,
                        ElementKind::Apple,
                    ),
                    ..start(w, h)
                }),
            w * h >= 2 ==> {
                &&& g@.elements.len() == 1
                &&& g@.elements[0].kind == ElementKind::Apple
                &&& g@.elements[0].pos != g@.cells[0]
                &&& g@.on_board(g@.elements[0].pos)
            },
    {
        let m = GameMap::new(w, h);
        let s = Snake::new((w / 2) as u16, (h / 2) as u16);
        let mut g = Game {
            speedups: 0,
            map: m,
            snake: s,
            score: 0,
            over: false,
            rng: rand::thread_rng(),
        };
        assert(g@ == start(w, h));
        let roll = draw(&mut g.rng, 0, u64::MAX);
        proof {
            lemma_pick_free(g@, roll);
            if w * h >= 2 {
                let q = cell(0, 0);
                assert(q != g@.cells[0]) by {
                    if w < 2 {
                        assert(h >= 2) by (nonlinear_arith)
                            requires
                                w * h >= 2,
                                w < 2,
                        ;
                    }
                }
                assert(!occupies(g@.cells, q, 1));
                lemma_free_complete(g@.cells, w as nat, h as nat, q);
            }
        }
        g.spawn_apple(roll);
        g
    }

    /// Draws the rolls of one step from the game's random source.
    fn roll(&mut self) -> (r: Rolls)
        ensures
            r.valid(),
            final(self)@ == old(self)@,
    {
        let obstacle = draw(&mut self.rng, 0, 10);
        let rock = draw(&mut self.rng, 0, 10);
        let obstacle_cell = draw(&mut self.rng, 0, u64::MAX);
        let lifetime = draw(&mut self.rng, MIN_OBSTACLE_LIFETIME, MAX_OBSTACLE_LIFETIME + 1);
        let apple_cell = draw(&mut self.rng, 0, u64::MAX);
        Rolls { obstacle, rock, obstacle_cell, lifetime, apple_cell }
    }

    /// One step of `dt` milliseconds with rolls drawn from the game's random
    /// source; returns whether play goes on.
    pub fn next(&mut self, dt: u64) -> (r: bool)
        requires
            old(self).wf(),
            room_for_step(old(self)@),
        ensures
            final(self).wf(),
            exists|rolls: Rolls|
                rolls.valid() && (final(self)@, r) == #[trigger] step_outcome(old(self)@, dt, rolls),
            old(self)@.over ==> final(self)@ == old(self)@ && !r,
            !r ==> final(self)@.over,
    {
        let rolls = self.roll();
        self.next_with(dt, rolls)
    }

    /// Faces `d`, unless `d` is the reverse of the current heading.
    pub fn change_dir(&mut self, d: Direction)
        ensures
            final(self)@ == (GameView { heading: turned(old(self)@.heading, d), ..old(self)@ }),
    {
        match (self.snake.direction(), d) {
            (Direction::Left, Direction::Right) => {},
            (Direction::Right, Direction::Left) => {},
            (Direction::Up, Direction::Down) => {},
            (Direction::Down, Direction::Up) => {},
            _ => {
                self.snake.set_direction(d);
            },
        }
    }

    /// The cell the head moves to next and what is met there.
    fn encountered_element(&self) -> (r: (Position, Option<ElementKind>))
        requires
            self.wf(),
        ensures
            r.0 == self@.target(),
            r.1 == self@.encounter(),
    {
        assert(self@.on_board(self@.cells[0]));
        let p = self.snake.next_pos();
        if self.snake.is_at(p, false) {
            (p, Some(ElementKind::SnakePart))
        } else {
            (p, self.map.elem_at_pos(p))
        }
    }

    /// Puts an apple on `p`.
    pub fn place_apple(&mut self, p: Position)
        ensures
            final(self)@ == (GameView {
                elements: old(self)@.elements.push(
                    Element { pos: p, time_left: APPLE_LIFETIME, kind: ElementKind::Apple },
                ),
                ..old(self)@
            }),
    {
        self.map.add(Element { pos: p, time_left: APPLE_LIFETIME, kind: ElementKind::Apple });
    }

    /// Puts an apple on the free cell that `roll` picks, in place of what stood
    /// there, if any cell is free.
    fn spawn_apple(&mut self, roll: u64)
        requires
            old(self).wf(),
        ensures
            final(self)@ == (GameView {
                elements: placed(
                    old(self)@.elements,
                    old(self)@.free(),
                    roll,
                    APPLE_LIFETIME,
                    ElementKind::Apple,
                ),
                ..old(self)@
            }),
    {
        if let Some(q) = self.pick_free_cell(roll) {
            self.map.delete_at(q);
            self.place_apple(q);
        }
    }

    /// Puts an obstacle, of the kind and lifetime the rolls give, on the free
    /// cell they pick, in place of what stood there, if any cell is free.
    fn spaw_obstacle(&mut self, rolls: &Rolls)
        requires
            old(self).wf(),
        ensures
            final(self)@ == (GameView {
                elements: placed(
                    old(self)@.elements,
                    old(self)@.free(),
                    rolls.obstacle_cell,
                    rolls.lifetime,
                    obstacle_kind(rolls.rock),
                ),
                ..old(self)@
            }),
    {
        let kind = if rolls.rock <= ROCK_THRESHOLD {
            ElementKind::Rock
        } else {
            ElementKind::Bush
        };
        if let Some(q) = self.pick_free_cell(rolls.obstacle_cell) {
            self.map.delete_at(q);
            self.map.add(Element { pos: q, time_left: rolls.lifetime, kind });
        }
    }

    /// One step of `dt` milliseconds with the given rolls; returns whether play
    /// goes on.
    pub fn next_with(&mut self, dt: u64, rolls: Rolls) -> (r: bool)
        requires
            old(self).wf(),
            room_for_step(old(self)@),
        ensures
            (final(self)@, r) == step_outcome(old(self)@, dt, rolls),
            old(self)@.over ==> final(self)@ == old(self)@ && !r,
            !r ==> final(self)@.over,
            final(self).wf(),
    {
        let ghost g = self@;
        if self.over {
            return false;
        }
        let (p, enc) = self.encountered_element();
        match enc {
            None | Some(ElementKind::Rock) | Some(ElementKind::SnakePart) => {
                self.over = true;
                return false;
            },
            Some(ElementKind::Apple) => {
                self.score = self.score + APPLE_REWARD;
                self.snake.move_apple(p);
                if self.score % 3 == 0 {
                    self.speedups = self.speedups + 1;
                }
                assert(self.wf());
                if ((self.score as i128) + (rolls.obstacle as i128)) % 5 == 0 {
                    self.spaw_obstacle(&rolls);
                }
                self.map.delete_at(p);
                self.spawn_apple(rolls.apple_cell);
                assert(self@ == after_apple(g, p, rolls));
            },
            Some(ElementKind::Grass) => {
                self.snake.move_neutral(p);
            },
            Some(ElementKind::Bush) => {
                self.score = self.score - BUSH_PENALTY;
                self.map.delete_at(p);
                self.snake.move_neutral(p);
            },
        }
        self.map.update_elements(dt);
        true
    }

    /// The free cell that `roll` picks; none when the board is full.
    pub fn pick_free_cell(&self, roll: u64) -> (r: Option<Position>)
        requires
            self.wf(),
        ensures
            r == pick(self@.free(), roll),
    {
        let free = self.free_cells();
        if free.len() == 0 {
            None
        } else {
            let i = (roll % (free.len() as u64)) as usize;
            Some(free[i])
        }
    }
}

} // verus!
