//! One tape cell: a symbol plus links to its neighbours.
//!
//! Cells live in an arena (a `Vec<TMCell>`) and name each other by stable
//! indices; `None` is the "no neighbour" sentinel. A cell with no left
//! neighbour is the current leftmost live cell, one with no right neighbour
//! the rightmost.

use vstd::prelude::*;
use crate::util::BLANK;

verus! {

/// One tape position: its symbol and the arena indices of its neighbours.
#[derive(Clone, Copy, Debug)]
pub struct TMCell {
    pub value: char,
    pub prev: Option<usize>,
    pub next: Option<usize>,
}

impl TMCell {
    /// A fresh, detached cell holding `value`.
    pub fn from(value: char) -> (c: TMCell)
        ensures
            c.value == value,
            c.prev is None,
            c.next is None,
    {
        TMCell { value, prev: None, next: None }
    }

    /// A fresh, detached cell holding the blank symbol.
    pub fn blank() -> (c: TMCell)
        ensures
            c.value == BLANK,
            c.prev is None,
            c.next is None,
    {
        TMCell::from(BLANK)
    }

    /// Links cell `b` as the left neighbour of cell `a`:
    ///
    /// ```text
    ///     b              a
    ///       next ----->
    ///            <-----   prev
    /// ```
    pub fn prepend(cells: &mut Vec<TMCell>, a: usize, b: usize)
        requires
            a < old(cells)@.len(),
            b < old(cells)@.len(),
            a != b,
        ensures
            final(cells)@.len() == old(cells)@.len(),
            final(cells)@[a as int].value == old(cells)@[a as int].value,
            final(cells)@[a as int].prev == Some(b),
            final(cells)@[a as int].next == old(cells)@[a as int].next,
            final(cells)@[b as int].value == old(cells)@[b as int].value,
            final(cells)@[b as int].prev == old(cells)@[b as int].prev,
            final(cells)@[b as int].next == Some(a),
            forall|i: int|
                0 <= i < old(cells)@.len() && i != a && i != b ==> final(cells)@[i] == old(cells)@[i],
    {
        let mut cell_a = cells[a];
        cell_a.prev = Some(b);
        cells.set(a, cell_a);

        let mut cell_b = cells[b];
        cell_b.next = Some(a);
        cells.set(b, cell_b);
    }

    /// Links cell `b` as the right neighbour of cell `a`:
    ///
    /// ```text
    ///     a              b
    ///       next ----->
    ///            <-----   prev
    /// ```
    pub fn append(cells: &mut Vec<TMCell>, a: usize, b: usize)
        requires
            a < old(cells)@.len(),
            b < old(cells)@.len(),
            a != b,
        ensures
            final(cells)@.len() == old(cells)@.len(),
            final(cells)@[a as int].value == old(cells)@[a as int].value,
            final(cells)@[a as int].prev == old(cells)@[a as int].prev,
            final(cells)@[a as int].next == Some(b),
            final(cells)@[b as int].value == old(cells)@[b as int].value,
            final(cells)@[b as int].prev == Some(a),
            final(cells)@[b as int].next == old(cells)@[b as int].next,
            forall|i: int|
                0 <= i < old(cells)@.len() && i != a && i != b ==> final(cells)@[i] == old(cells)@[i],
    {
        let mut cell_a = cells[a];
        cell_a.next = Some(b);
        cells.set(a, cell_a);

        let mut cell_b = cells[b];
        cell_b.prev = Some(a);
        cells.set(b, cell_b);
    }
}

} // verus!
