use crate::grid::{Element, ElementKind, Position};
use vstd::prelude::*;

verus! {

/// The kind of the first element of `es` that stands on `p`; `Grass` where none does.
pub open spec fn kind_at(es: Seq<Element>, p: Position) -> ElementKind
    decreases es.len(),
{
    if es.len() == 0 {
        ElementKind::Grass
    } else if es[0].pos == p {
        es[0].kind
    } else {
        kind_at(es.drop_first(), p)
    }
}

/// Some element of `es` stands on `p`.
pub open spec fn has_element_at(es: Seq<Element>, p: Position) -> bool {
    exists|j: int| 0 <= j < es.len() && es[j].pos == p
}

/// `es` without the elements that stand on `p`, the others in their order.
pub open spec fn without_at(es: Seq<Element>, p: Position) -> Seq<Element>
    decreases es.len(),
{
    if es.len() == 0 {
        es
    } else {
        let rest = without_at(es.drop_last(), p);
        if es.last().pos == p {
            rest
        } else {
            rest.push(es.last())
        }
    }
}

/// What `dt` milliseconds make of `e`: its time left shrinks by `dt`; an obstacle
/// whose time would drop below zero is gone, an apple stays with no time left.
pub open spec fn age_one(e: Element, dt: u64) -> Option<Element> {
    if dt <= e.time_left {
        Some(Element { time_left: (e.time_left - dt) as u64, ..e })
    } else if e.kind == ElementKind::Apple {
        Some(Element { time_left: 0, ..e })
    } else {
        None
    }
}

/// Every element of `es` aged by `dt`, the expired ones left out, in their order.
pub open spec fn aged(es: Seq<Element>, dt: u64) -> Seq<Element>
    decreases es.len(),
{
    if es.len() == 0 {
        es
    } else {
        let rest = aged(es.drop_last(), dt);
        match age_one(es.last(), dt) {
            Some(e) => rest.push(e),
            None => rest,
        }
    }
}

/// The cells of the apples of `es`, in their order.
pub open spec fn apple_cells(es: Seq<Element>) -> Seq<Position>
    decreases es.len(),
{
    if es.len() == 0 {
        Seq::empty()
    } else if es.last().kind == ElementKind::Apple {
        apple_cells(es.drop_last()).push(es.last().pos)
    } else {
        apple_cells(es.drop_last())
    }
}

/// The board: its size and the items that stand on it.
#[derive(Debug)]
pub struct GameMap {
    pub width: usize,
    pub height: usize,
    pub elements: Vec<Element>,
}

impl GameMap {
    /// `p` lies in [0, width) x [0, height).
    pub open spec fn in_bounds(&self, p: Position) -> bool {
        0 <= p.x < self.width && 0 <= p.y < self.height
    }

    /// What a query at `p` finds: nothing outside the board, else the stored kind
    /// there, else grass.
    pub open spec fn kind_of(&self, p: Position) -> Option<ElementKind> {
        if self.in_bounds(p) {
            Some(kind_at(self.elements@, p))
        } else {
            None
        }
    }

    /// An empty board of `w` by `h` cells.
    pub fn new(w: usize, h: usize) -> (m: GameMap)
        ensures
            m.width == w,
            m.height == h,
            m.elements@ == Seq::<Element>::empty(),
    {
        GameMap { width: w, height: h, elements: Vec::new() }
    }

    /// The kind at `p`; `None` when `p` is off the board.
    pub fn elem_at_pos(&self, p: Position) -> (r: Option<ElementKind>)
        ensures
            r == self.kind_of(p),
    {
        if p.x < 0 || p.x as usize >= self.width {
            return None;
        }
        if p.y < 0 || p.y as usize >= self.height {
            return None;
        }
        let n = self.elements.len();
        let mut i: usize = 0;
        assert(self.elements@.subrange(0, n as int) =~= self.elements@);
        while i < n
            invariant
                n == self.elements.len(),
                i <= n,
                self.in_bounds(p),
                kind_at(self.elements@.subrange(i as int, n as int), p) == kind_at(
                    self.elements@,
                    p,
                ),
            decreases n - i,
        {
            assert(self.elements@.subrange(i as int, n as int).drop_first() =~= self.elements@.subrange(
                i + 1,
                n as int,
            ));
            if self.elements[i].pos == p {
                let ghost sub = self.elements@.subrange(i as int, n as int);
                assert(sub[0] == self.elements@[i as int]);
                assert(sub.len() > 0);
                assert(kind_at(sub, p) == sub[0].kind);
                return Some(self.elements[i].kind);
            }
            i += 1;
        }
        Some(ElementKind::Grass)
    }

    /// Ages every element by `dt` milliseconds and drops the obstacles whose time
    /// ran out.
    pub fn update_elements(&mut self, dt: u64)
        ensures
            final(self).elements@ == aged(old(self).elements@, dt),
            final(self).width == old(self).width,
            final(self).height == old(self).height,
    {
        let mut kept: Vec<Element> = Vec::new();
        let n = self.elements.len();
        let mut i: usize = 0;
        while i < n
            invariant
                n == self.elements.len(),
                i <= n,
                kept@ == aged(self.elements@.subrange(0, i as int), dt),
            decreases n - i,
        {
            let e = self.elements[i];
            assert(self.elements@.subrange(0, i + 1).drop_last() =~= self.elements@.subrange(
                0,
                i as int,
            ));
            if dt <= e.time_left {
                kept.push(Element { time_left: e.time_left - dt, ..e });
            } else if e.kind == ElementKind::Apple {
                kept.push(Element { time_left: 0, ..e });
            }
            i += 1;
        }
        assert(self.elements@.subrange(0, n as int) =~= self.elements@);
        self.elements = kept;
    }

    /// Removes every element that stands on `p`.
    pub fn delete_at(&mut self, p: Position)
        ensures
            final(self).elements@ == without_at(old(self).elements@, p),
            final(self).width == old(self).width,
            final(self).height == old(self).height,
    {
        let mut kept: Vec<Element> = Vec::new();
        let n = self.elements.len();
        let mut i: usize = 0;
        while i < n
            invariant
                n == self.elements.len(),
                i <= n,
                kept@ == without_at(self.elements@.subrange(0, i as int), p),
            decreases n - i,
        {
            let e = self.elements[i];
            assert(self.elements@.subrange(0, i + 1).drop_last() =~= self.elements@.subrange(
                0,
                i as int,
            ));
            if e.pos != p {
                kept.push(e);
            }
            i += 1;
        }
        assert(self.elements@.subrange(0, n as int) =~= self.elements@);
        self.elements = kept;
    }

    /// Adds `e` after the stored elements.
    pub fn add(&mut self, e: Element)
        ensures
            final(self).elements@ == old(self).elements@.push(e),
            final(self).width == old(self).width,
            final(self).height == old(self).height,
    {
        self.elements.push(e);
    }
}

} // verus!
