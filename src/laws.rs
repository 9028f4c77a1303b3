use crate::board::{age_one, aged, apple_cells, has_element_at, without_at};
use crate::game::{
    after_apple, eaten, lemma_free_complete, lemma_pick_free, obstacle_kind, pick, placed, room_for_step, step_outcome, GameView,
    Rolls, APPLE_LIFETIME, APPLE_REWARD, BUSH_PENALTY,
};
use crate::grid::{neighbour, Element, ElementKind, Position};
use crate::snake::occupies;
use vstd::prelude::*;

verus! {

/// What a run of ticks of `ds` milliseconds, first to last, makes of `e`.
pub open spec fn age_over(e: Element, ds: Seq<u64>) -> Option<Element>
    decreases ds.len(),
{
    if ds.len() == 0 {
        Some(e)
    } else {
        match age_over(e, ds.drop_last()) {
            Some(f) => age_one(f, ds.last()),
            None => None,
        }
    }
}

/// The sum of `ds`.
pub open spec fn total(ds: Seq<u64>) -> int
    decreases ds.len(),
{
    if ds.len() == 0 {
        0
    } else {
        total(ds.drop_last()) + ds.last()
    }
}

/// The elements `es` after a run of ticks of `ds` milliseconds, first to last.
pub open spec fn aged_all(es: Seq<Element>, ds: Seq<u64>) -> Seq<Element>
    decreases ds.len(),
{
    if ds.len() == 0 {
        es
    } else {
        aged(aged_all(es, ds.drop_last()), ds.last())
    }
}

/// Each element of `es` aged on its own over the ticks `ds`, the expired left out.
pub open spec fn each_aged(es: Seq<Element>, ds: Seq<u64>) -> Seq<Element>
    decreases es.len(),
{
    if es.len() == 0 {
        es
    } else {
        let rest = each_aged(es.drop_last(), ds);
        match age_over(es.last(), ds) {
            Some(e) => rest.push(e),
            None => rest,
        }
    }
}

/// A step onto grass keeps the length, the score and the pace, moves the head
/// one cell the way the snake faces, drops the tail cell, ages the board, and
/// play goes on.
pub proof fn lemma_grass_step(g: GameView, dt: u64, rolls: Rolls)
    requires
        g.wf(),
        !g.over,
        g.encounter() == Some(ElementKind::Grass),
    ensures
        ({
            let (n, r) = step_outcome(g, dt, rolls);
            &&& r
            &&& !n.over
            &&& n.cells == seq![g.target()] + g.cells.drop_last()
            &&& n.cells.len() == g.cells.len()
            &&& n.score == g.score
            &&& n.speedups == g.speedups
            &&& n.heading == g.heading
            &&& n.elements == aged(g.elements, dt)
            &&& (n.cells[0].x as int, n.cells[0].y as int) == neighbour(g.cells[0], g.heading)
        }),
{
    assert(g.on_board(g.cells[0]));
}

/// A step onto a bush takes off exactly `BUSH_PENALTY` points, keeps the length
/// and the pace, removes the bush, and play goes on.
pub proof fn lemma_bush_step(g: GameView, dt: u64, rolls: Rolls)
    requires
        g.wf(),
        !g.over,
        room_for_step(g),
        g.encounter() == Some(ElementKind::Bush),
    ensures
        ({
            let (n, r) = step_outcome(g, dt, rolls);
            &&& r
            &&& !n.over
            &&& n.score == g.score - BUSH_PENALTY
            &&& n.cells == seq![g.target()] + g.cells.drop_last()
            &&& n.cells.len() == g.cells.len()
            &&& n.speedups == g.speedups
            &&& !has_element_at(n.elements, g.target())
        }),
{
    let p = g.target();
    lemma_without_at_clears(g.elements, p);
    lemma_aged_adds_nothing(without_at(g.elements, p), dt, p);
}

/// Once play has ended, a step changes nothing and play stays ended.
pub proof fn lemma_over_lasts(g: GameView, dt: u64, rolls: Rolls)
    requires
        g.over,
    ensures
        step_outcome(g, dt, rolls) == (g, false),
{
}

/// A step that ends play leaves the game over.
pub proof fn lemma_stop_means_over(g: GameView, dt: u64, rolls: Rolls)
    ensures
        !step_outcome(g, dt, rolls).1 ==> step_outcome(g, dt, rolls).0.over,
{
}

/// Every apple of `es` stands on `p`.
pub open spec fn apples_only_at(es: Seq<Element>, p: Position) -> bool {
    forall|i: int| 0 <= i < apple_cells(es).len() ==> #[trigger] apple_cells(es)[i] == p
}

/// A step onto an apple adds exactly `APPLE_REWARD` points and grows the snake
/// by one cell onto the apple, which leaves the board. Where a cell of the board
/// lies off the grown snake and the board's apples all stood on the eaten cell,
/// the board then holds exactly one apple, on a cell of the board off the snake.
pub proof fn lemma_apple_step(g: GameView, dt: u64, rolls: Rolls)
    requires
        g.wf(),
        !g.over,
        room_for_step(g),
        g.encounter() == Some(ElementKind::Apple),
    ensures
        ({
            let (n, r) = step_outcome(g, dt, rolls);
            let p = g.target();
            &&& r
            &&& !n.over
            &&& n.score == g.score + APPLE_REWARD
            &&& n.cells == seq![p] + g.cells
            &&& n.heading == g.heading
            &&& !apple_cells(n.elements).contains(p)
            &&& apples_only_at(g.elements, p) && (exists|q: Position|
                g.on_board(q) && !#[trigger] occupies(seq![p] + g.cells, q, g.cells.len() + 1 as int))
                ==> {
                &&& apple_cells(n.elements).len() == 1
                &&& g.on_board(apple_cells(n.elements)[0])
                &&& !occupies(n.cells, apple_cells(n.elements)[0], n.cells.len() as int)
            }
        }),
{
    let p = g.target();
    let e = eaten(g, p, rolls);
    let a = after_apple(g, p, rolls);
    let score = g.score + APPLE_REWARD;
    let grown = GameView {
        score: score as i64,
        cells: seq![p] + g.cells,
        speedups: if score % 3 == 0 {
            (g.speedups + 1) as u64
        } else {
            g.speedups
        },
        ..g
    };
    let obstacle = (score + rolls.obstacle) % 5 == 0;
    let es1 = if obstacle {
        placed(
            grown.elements,
            grown.free(),
            rolls.obstacle_cell,
            rolls.lifetime,
            obstacle_kind(rolls.rock),
        )
    } else {
        grown.elements
    };
    assert(e.elements == without_at(es1, p));
    assert(g.on_board(p));
    assert(e.wf()) by {
        assert forall|i: int| 0 <= i < e.cells.len() implies e.on_board(#[trigger] e.cells[i]) by {
            if i > 0 {
                assert(e.cells[i] == g.cells[i - 1]);
            }
        }
    }
    assert(e.cells[0] == p);
    // the apple eaten leaves, and nothing else comes onto its cell
    lemma_without_at_clears(es1, p);
    lemma_apples_stand(e.elements, p);
    lemma_pick_free(e, rolls.apple_cell);
    lemma_placed_apples(e.elements, e.free(), rolls.apple_cell, APPLE_LIFETIME, ElementKind::Apple);
    lemma_aged_apples(a.elements, dt);
    if let Some(q) = pick(e.free(), rolls.apple_cell) {
        assert(q != p);
        lemma_without_keeps_absent(e.elements, q, p);
        lemma_apples_stand(without_at(e.elements, q), p);
        let before = apple_cells(without_at(e.elements, q));
        assert(!before.push(q).contains(p)) by {
            if before.push(q).contains(p) {
                let k = choose|k: int| 0 <= k < before.push(q).len() && before.push(q)[k] == p;
                assert(before[k] == p);
            }
        }
    }
    // where all apples stood on the eaten cell, exactly one is left
    if apples_only_at(g.elements, p) && (exists|q: Position|
        g.on_board(q) && !#[trigger] occupies(seq![p] + g.cells, q, g.cells.len() + 1 as int)) {
        let q0 = choose|q: Position|
            g.on_board(q) && !#[trigger] occupies(seq![p] + g.cells, q, g.cells.len() + 1 as int);
        lemma_free_complete(e.cells, e.width as nat, e.height as nat, q0);
        if obstacle {
            if let Some(q) = pick(grown.free(), rolls.obstacle_cell) {
                lemma_without_keeps_only(grown.elements, p, q);
            }
            lemma_placed_apples(
                grown.elements,
                grown.free(),
                rolls.obstacle_cell,
                rolls.lifetime,
                obstacle_kind(rolls.rock),
            );
        }
        assert(apples_only_at(es1, p));
        lemma_without_only_apples(es1, p);
        let q2 = pick(e.free(), rolls.apple_cell)->Some_0;
        lemma_without_only_apples(e.elements, q2);
    }
}

/// Placing an element clears its cell, keeps the other apples, and adds one
/// where the element is one.
proof fn lemma_placed_apples(
    es: Seq<Element>,
    free: Seq<Position>,
    roll: u64,
    life: u64,
    kind: ElementKind,
)
    ensures
        apple_cells(placed(es, free, roll, life, kind)) == match pick(free, roll) {
            Some(q) => if kind == ElementKind::Apple {
                apple_cells(without_at(es, q)).push(q)
            } else {
                apple_cells(without_at(es, q))
            },
            None => apple_cells(es),
        },
{
    if let Some(q) = pick(free, roll) {
        let e = Element { pos: q, time_left: life, kind };
        assert(without_at(es, q).push(e).drop_last() =~= without_at(es, q));
    }
}

/// Removing what stands on `q` keeps a cell that holds no element empty.
proof fn lemma_without_keeps_absent(es: Seq<Element>, q: Position, x: Position)
    requires
        !has_element_at(es, x),
    ensures
        !has_element_at(without_at(es, q), x),
    decreases es.len(),
{
    if es.len() > 0 {
        assert(!has_element_at(es.drop_last(), x)) by {
            if has_element_at(es.drop_last(), x) {
                let j = choose|j: int| 0 <= j < es.drop_last().len() && es.drop_last()[j].pos == x;
                assert(es[j].pos == x);
            }
        }
        lemma_without_keeps_absent(es.drop_last(), q, x);
        assert(es[es.len() - 1] == es.last());
    }
}

/// Removing what stands on `q` keeps every apple on `p` where all stood.
proof fn lemma_without_keeps_only(es: Seq<Element>, p: Position, q: Position)
    requires
        apples_only_at(es, p),
    ensures
        apples_only_at(without_at(es, q), p),
    decreases es.len(),
{
    if es.len() > 0 {
        let rest = es.drop_last();
        assert(apples_only_at(rest, p)) by {
            if es.last().kind == ElementKind::Apple {
                assert forall|i: int| 0 <= i < apple_cells(rest).len() implies #[trigger] apple_cells(
                    rest,
                )[i] == p by {
                    assert(apple_cells(es)[i] == apple_cells(rest)[i]);
                }
            } else {
                assert(apple_cells(es) == apple_cells(rest));
            }
        }
        lemma_without_keeps_only(rest, p, q);
        if es.last().kind == ElementKind::Apple {
            assert(apple_cells(es)[apple_cells(rest).len() as int] == es.last().pos);
        }
        if es.last().pos != q {
            let w = without_at(rest, q);
            let ws = w.push(es.last());
            assert(ws.drop_last() =~= w);
            assert(ws.last() == es.last());
            if es.last().kind == ElementKind::Apple {
                assert(apple_cells(ws) == apple_cells(w).push(es.last().pos));
                assert forall|i: int| 0 <= i < apple_cells(ws).len() implies #[trigger] apple_cells(
                    ws,
                )[i] == p by {
                    if i < apple_cells(w).len() {
                        assert(apple_cells(ws)[i] == apple_cells(w)[i]);
                    }
                }
            } else {
                assert(apple_cells(ws) == apple_cells(w));
            }
        }
    }
}

/// Aging keeps every apple where it stands.
proof fn lemma_aged_apples(es: Seq<Element>, dt: u64)
    ensures
        apple_cells(aged(es, dt)) == apple_cells(es),
    decreases es.len(),
{
    if es.len() > 0 {
        lemma_aged_apples(es.drop_last(), dt);
        let rest = aged(es.drop_last(), dt);
        if let Some(f) = age_one(es.last(), dt) {
            assert(rest.push(f).drop_last() =~= rest);
        }
    }
}

/// An apple of `es` stands where an element of `es` stands.
proof fn lemma_apples_stand(es: Seq<Element>, x: Position)
    requires
        !has_element_at(es, x),
    ensures
        !apple_cells(es).contains(x),
    decreases es.len(),
{
    if es.len() > 0 {
        assert(!has_element_at(es.drop_last(), x)) by {
            if has_element_at(es.drop_last(), x) {
                let j = choose|j: int| 0 <= j < es.drop_last().len() && es.drop_last()[j].pos == x;
                assert(es[j].pos == x);
            }
        }
        lemma_apples_stand(es.drop_last(), x);
        assert(es[es.len() - 1] == es.last());
    }
}

/// Removing what stands on `p` from a board whose apples all stand on `p`
/// leaves no apple.
proof fn lemma_without_only_apples(es: Seq<Element>, p: Position)
    requires
        apples_only_at(es, p),
    ensures
        apple_cells(without_at(es, p)).len() == 0,
    decreases es.len(),
{
    if es.len() > 0 {
        let rest = es.drop_last();
        assert(apples_only_at(rest, p)) by {
            if es.last().kind == ElementKind::Apple {
                assert forall|i: int| 0 <= i < apple_cells(rest).len() implies #[trigger] apple_cells(
                    rest,
                )[i] == p by {
                    assert(apple_cells(es)[i] == apple_cells(rest)[i]);
                }
            } else {
                assert(apple_cells(es) == apple_cells(rest));
            }
        }
        lemma_without_only_apples(rest, p);
        if es.last().kind == ElementKind::Apple {
            assert(apple_cells(es)[apple_cells(rest).len() as int] == es.last().pos);
        }
        if es.last().pos != p {
            assert(without_at(es, p).drop_last() =~= without_at(rest, p));
        }
    }
}

/// Moving into the body, the tail cell aside, ends play and changes nothing
/// else.
pub proof fn lemma_self_collision(g: GameView, dt: u64, rolls: Rolls)
    requires
        g.wf(),
        occupies(g.cells, g.target(), g.cells.len() - 1),
    ensures
        step_outcome(g, dt, rolls) == (GameView { over: true, ..g }, false),
{
}

/// Moving off the board ends play.
pub proof fn lemma_off_board(g: GameView, dt: u64, rolls: Rolls)
    requires
        g.wf(),
        !g.on_board(g.target()),
    ensures
        step_outcome(g, dt, rolls).1 == false,
{
}

/// An obstacle with `L` milliseconds left stays, with `L` less the time that
/// passed, while at most `L` milliseconds pass over a run of ticks, and is gone
/// once more than `L` have passed; an apple stays through any run of ticks.
pub proof fn lemma_obstacle_expiry(e: Element, ds: Seq<u64>)
    ensures
        e.kind != ElementKind::Apple && total(ds) <= e.time_left ==> age_over(e, ds) == Some(
            Element { time_left: (e.time_left - total(ds)) as u64, ..e },
        ),
        e.kind != ElementKind::Apple && total(ds) > e.time_left ==> age_over(e, ds) is None,
        e.kind == ElementKind::Apple ==> (age_over(e, ds) matches Some(f) && f.pos == e.pos
            && f.kind == e.kind),
    decreases ds.len(),
{
    if ds.len() > 0 {
        lemma_obstacle_expiry(e, ds.drop_last());
        lemma_total_nonnegative(ds.drop_last());
    }
}

/// A run of ticks over the board ages each element on its own.
pub proof fn lemma_ticks_age_each(es: Seq<Element>, ds: Seq<u64>)
    ensures
        aged_all(es, ds) == each_aged(es, ds),
    decreases ds.len(),
{
    if ds.len() == 0 {
        lemma_each_aged_none(es);
        assert(ds =~= Seq::<u64>::empty());
    } else {
        lemma_ticks_age_each(es, ds.drop_last());
        lemma_one_more_tick(es, ds.drop_last(), ds.last());
        assert(ds.drop_last().push(ds.last()) =~= ds);
    }
}

proof fn lemma_total_nonnegative(ds: Seq<u64>)
    ensures
        total(ds) >= 0,
    decreases ds.len(),
{
    if ds.len() > 0 {
        lemma_total_nonnegative(ds.drop_last());
    }
}

proof fn lemma_each_aged_none(es: Seq<Element>)
    ensures
        each_aged(es, Seq::empty()) == es,
    decreases es.len(),
{
    if es.len() > 0 {
        lemma_each_aged_none(es.drop_last());
        assert(es.drop_last().push(es.last()) =~= es);
    }
}

proof fn lemma_one_more_tick(es: Seq<Element>, ds: Seq<u64>, d: u64)
    ensures
        aged(each_aged(es, ds), d) == each_aged(es, ds.push(d)),
    decreases es.len(),
{
    assert(ds.push(d).drop_last() =~= ds);
    if es.len() > 0 {
        lemma_one_more_tick(es.drop_last(), ds, d);
        let rest = each_aged(es.drop_last(), ds);
        if let Some(f) = age_over(es.last(), ds) {
            assert(rest.push(f).drop_last() =~= rest);
        }
    }
}

/// No element stands on `p` once those on `p` are removed.
proof fn lemma_without_at_clears(es: Seq<Element>, p: Position)
    ensures
        !has_element_at(without_at(es, p), p),
    decreases es.len(),
{
    if es.len() > 0 {
        lemma_without_at_clears(es.drop_last(), p);
    }
}

/// Aging puts no element on a cell where none stood.
proof fn lemma_aged_adds_nothing(es: Seq<Element>, dt: u64, q: Position)
    requires
        !has_element_at(es, q),
    ensures
        !has_element_at(aged(es, dt), q),
    decreases es.len(),
{
    if es.len() > 0 {
        assert(!has_element_at(es.drop_last(), q)) by {
            if has_element_at(es.drop_last(), q) {
                let j = choose|j: int| 0 <= j < es.drop_last().len() && es.drop_last()[j].pos == q;
                assert(es[j].pos == q);
            }
        }
        lemma_aged_adds_nothing(es.drop_last(), dt, q);
        assert(es.last().pos != q) by {
            assert(es[es.len() - 1] == es.last());
        }
    }
}

} // verus!
