//! The tape: an unbounded bidirectional chain of symbol cells with a head.
//!
//! The chain lives in an arena (`cells`); `first`, `last` and `head` are
//! arena indices. A ghost sequence `order` lists the live chain's indices
//! from leftmost to rightmost, and `at` is the head's position in it; they
//! tie the linked structure to its mathematical model, a sequence of symbols
//! (`contents`) with a head position (`head_pos`). Cells that movement or
//! cleanup detach simply stay behind in the arena, unreachable from the
//! chain.

use vstd::prelude::*;
use crate::util::BLANK;
use crate::util::TMDirection;
use crate::tm_cell::TMCell;

verus! {

/// The links of chain position `i`: its cell points right at position
/// `i + 1`'s cell (if any) and left at position `i - 1`'s cell (if any) --
/// link symmetry along the path.
pub open spec fn links_at(cells: Seq<TMCell>, ord: Seq<usize>, i: int) -> bool {
    &&& (i < ord.len() - 1 ==> cells[ord[i] as int].next == Some(ord[i + 1]))
    &&& (0 < i ==> cells[ord[i] as int].prev == Some(ord[i - 1]))
}

/// The chain `ord` is a well-formed doubly-linked path through `cells`:
/// distinct in-bounds indices, no neighbour outside the path ends, and
/// link symmetry at every position.
pub open spec fn chain_ok(cells: Seq<TMCell>, ord: Seq<usize>) -> bool {
    &&& ord.len() >= 1
    &&& (forall|i: int| 0 <= i < ord.len() ==> (#[trigger] ord[i]) < cells.len())
    &&& (forall|i: int, j: int| 0 <= i < j < ord.len() ==> ord[i] != ord[j])
    &&& cells[ord[0] as int].prev is None
    &&& cells[ord[ord.len() - 1] as int].next is None
    &&& (forall|i: int| 0 <= i < ord.len() ==> #[trigger] links_at(cells, ord, i))
}

/// What one cleanup pass makes of a tape model: when the leftmost symbol is
/// blank and the head is elsewhere, everything left of the head is detached;
/// symmetrically on the right. Afterwards a blank boundary cell survives only
/// while the head sits on it.
pub open spec fn cleanup_spec(s: Seq<char>, h: int) -> (Seq<char>, int) {
    let left = if s[0] == BLANK && h != 0 {
        (s.subrange(h, s.len() as int), 0int)
    } else {
        (s, h)
    };
    let s1 = left.0;
    let h1 = left.1;
    if s1[s1.len() - 1] == BLANK && h1 != s1.len() - 1 {
        (s1.subrange(0, h1 + 1), h1)
    } else {
        (s1, h1)
    }
}

/// What one head movement makes of a tape model: a lazily created blank when
/// the head leaves the visited range, then a cleanup pass. `N` changes
/// nothing at all.
pub open spec fn move_spec(s: Seq<char>, h: int, d: TMDirection) -> (Seq<char>, int) {
    match d {
        TMDirection::N => (s, h),
        TMDirection::R => if h < s.len() - 1 {
            cleanup_spec(s, h + 1)
        } else {
            cleanup_spec(s.push(BLANK), h + 1)
        },
        TMDirection::L => if h > 0 {
            cleanup_spec(s, h - 1)
        } else {
            cleanup_spec(seq![BLANK] + s, 0)
        },
    }
}

/// The tape: the cell arena, the chain boundaries `first` and `last`, the
/// read/write `head`, and the ghost chain (`order`, `at`).
pub struct TMTape {
    pub cells: Vec<TMCell>,
    pub first: usize,
    pub last: usize,
    pub head: usize,
    pub order: Ghost<Seq<usize>>,
    pub at: Ghost<int>,
}

impl TMTape {
    /// The structural invariant: the ghost chain is a well-formed path,
    /// `first` and `last` are its ends, and `head` lies on it at `at`.
    pub open spec fn wf(self) -> bool {
        &&& chain_ok(self.cells@, self.order@)
        &&& self.first == self.order@[0]
        &&& self.last == self.order@[self.order@.len() - 1]
        &&& 0 <= self.at@ < self.order@.len()
        &&& self.order@[self.at@] == self.head
    }

    /// The symbols of the live chain, leftmost first.
    pub open spec fn contents(self) -> Seq<char> {
        Seq::new(self.order@.len(), |i: int| self.cells@[self.order@[i] as int].value)
    }

    /// The head's position within `contents`.
    pub open spec fn head_pos(self) -> int {
        self.at@
    }

    /// Builds the initial chain from `word`, one cell per character chained
    /// left to right; an empty word yields a single blank cell. The head
    /// starts on the leftmost cell.
    pub fn from(word: &str) -> (t: TMTape)
        ensures
            t.wf(),
            t.contents() == if word@.len() == 0 {
                seq![BLANK]
            } else {
                word@
            },
            t.head_pos() == 0,
            t.first == 0,
            t.head == 0,
    {
        let n = word.unicode_len();
        let mut cells: Vec<TMCell> = Vec::new();
        let mut i: usize = 0;
        while i < n
            invariant
                i <= n,
                n == word@.len(),
                cells@.len() == i,
                forall|j: int| 0 <= j < i ==> (#[trigger] cells@[j]).value == word@[j],
                forall|j: int|
                    0 <= j < i ==> (#[trigger] cells@[j]).prev == if j == 0 {
                        None::<usize>
                    } else {
                        Some((j - 1) as usize)
                    },
                forall|j: int|
                    0 <= j < i ==> (#[trigger] cells@[j]).next == if j == i - 1 {
                        None::<usize>
                    } else {
                        Some((j + 1) as usize)
                    },
            decreases n - i,
        {
            let cell = TMCell::from(word.get_char(i));
            cells.push(cell);
            if i > 0 {
                TMCell::append(&mut cells, i - 1, i);
            }
            i = i + 1;
        }
        if cells.len() == 0 {
            cells.push(TMCell::blank());
        }
        let len = cells.len();
        let ghost ord = Seq::new(cells@.len(), |j: int| j as usize);
        let tape = TMTape {
            cells,
            first: 0,
            last: len - 1,
            head: 0,
            order: Ghost(ord),
            at: Ghost(0),
        };
        proof {
            assert forall|i: int, j: int| 0 <= i < j < ord.len() implies ord[i] != ord[j] by {}
            assert forall|i: int| 0 <= i < ord.len() implies #[trigger] links_at(
                tape.cells@,
                ord,
                i,
            ) by {
                assert(tape.cells@[i].next == if i == ord.len() - 1 {
                    None::<usize>
                } else {
                    Some((i + 1) as usize)
                });
                assert(tape.cells@[i].prev == if i == 0 {
                    None::<usize>
                } else {
                    Some((i - 1) as usize)
                });
            }
            assert(tape.wf());
            if word@.len() == 0 {
                assert(tape.contents() =~= seq![BLANK]);
            } else {
                assert(tape.contents() =~= word@);
            }
        }
        tape
    }

    /// The symbol under the head. Pure: nothing changes.
    pub fn read_value(&self) -> (value: char)
        requires
            self.wf(),
        ensures
            value == self.contents()[self.head_pos()],
    {
        self.cells[self.head].value
    }

    /// Overwrites the symbol under the head in place; no other cell, link or
    /// position changes.
    pub fn set_value(&mut self, value: char)
        requires
            old(self).wf(),
        ensures
            final(self).wf(),
            final(self).contents() == old(self).contents().update(old(self).head_pos(), value),
            final(self).head_pos() == old(self).head_pos(),
            final(self).first == old(self).first,
            final(self).last == old(self).last,
            final(self).head == old(self).head,
            final(self).order == old(self).order,
    {
        let mut cell = self.cells[self.head];
        cell.value = value;
        self.cells.set(self.head, cell);
        proof {
            let ord = self.order@;
            let at = self.at@;
            assert forall|i: int| 0 <= i < ord.len() implies #[trigger] links_at(
                self.cells@,
                ord,
                i,
            ) by {
                assert(links_at(old(self).cells@, ord, i));
                if i != at {
                    assert(ord[i] != ord[at]);
                }
            }
            assert(self.contents() =~= old(self).contents().update(old(self).head_pos(), value));
        }
    }

    /// Detaches everything left of the head: the head loses its left link
    /// and becomes the new `first`. (Used by cleanup when the old `first` is
    /// a reclaimable blank.)
    fn drop_left(&mut self)
        requires
            old(self).wf(),
            old(self).at@ != 0,
        ensures
            final(self).wf(),
            final(self).contents() == old(self).contents().subrange(
                old(self).at@,
                old(self).contents().len() as int,
            ),
            final(self).head_pos() == 0,
            final(self).head == old(self).head,
            final(self).last == old(self).last,
            final(self).first == old(self).head,
    {
        let mut cell = self.cells[self.head];
        cell.prev = None;
        self.cells.set(self.head, cell);
        self.first = self.head;
        proof {
            let at = old(self).at@;
            let ord = old(self).order@;
            self.order@ = ord.subrange(at, ord.len() as int);
            self.at@ = 0;
            assert forall|i: int| 0 <= i < self.order@.len() implies #[trigger] links_at(
                self.cells@,
                self.order@,
                i,
            ) by {
                assert(links_at(old(self).cells@, ord, at + i));
                if i != 0 {
                    assert(ord[at] != ord[at + i]);
                    assert(links_at(old(self).cells@, ord, at + i - 1));
                }
            }
            assert(links_at(old(self).cells@, ord, ord.len() - 1));
            assert(self.wf());
            assert(self.contents() =~= old(self).contents().subrange(
                at,
                old(self).contents().len() as int,
            ));
        }
    }

    /// Detaches everything right of the head: the head loses its right link
    /// and becomes the new `last`. (Used by cleanup when the old `last` is a
    /// reclaimable blank.)
    fn drop_right(&mut self)
        requires
            old(self).wf(),
            old(self).at@ != old(self).order@.len() - 1,
        ensures
            final(self).wf(),
            final(self).contents() == old(self).contents().subrange(0, old(self).at@ + 1),
            final(self).head_pos() == old(self).at@,
            final(self).head == old(self).head,
            final(self).first == old(self).first,
            final(self).last == old(self).head,
    {
        let mut cell = self.cells[self.head];
        cell.next = None;
        self.cells.set(self.head, cell);
        self.last = self.head;
        proof {
            let at = old(self).at@;
            let ord = old(self).order@;
            self.order@ = ord.subrange(0, at + 1);
            assert forall|i: int| 0 <= i < self.order@.len() implies #[trigger] links_at(
                self.cells@,
                self.order@,
                i,
            ) by {
                assert(links_at(old(self).cells@, ord, i));
                if i != at {
                    assert(ord[i] != ord[at]);
                    assert(links_at(old(self).cells@, ord, i + 1));
                }
            }
            assert(links_at(old(self).cells@, ord, 0));
            assert(self.wf());
            assert(self.contents() =~= old(self).contents().subrange(0, at + 1));
        }
    }

    /// Moves `first`/`last` to the head when they point at a blank the head
    /// has left behind, detaching the unused blank boundary cells. Running it
    /// twice in a row is a no-op: if nothing is reclaimable it changes no
    /// field at all.
    pub fn cleanup(&mut self)
        requires
            old(self).wf(),
        ensures
            final(self).wf(),
            (final(self).contents(), final(self).head_pos()) == cleanup_spec(
                old(self).contents(),
                old(self).head_pos(),
            ),
            final(self).head == old(self).head,
            final(self).first == if old(self).contents()[0] == BLANK && old(self).head_pos()
                != 0 {
                old(self).head
            } else {
                old(self).first
            },
            final(self).last == if old(self).contents().last() == BLANK && old(self).head_pos()
                != old(self).contents().len() - 1 {
                old(self).head
            } else {
                old(self).last
            },
            cleanup_spec(old(self).contents(), old(self).head_pos()) == (
                old(self).contents(),
                old(self).head_pos(),
            ) ==> *final(self) == *old(self),
    {
        let head_is_last = self.head == self.last;
        let head_is_first = self.head == self.first;

        proof {
            let ord = self.order@;
            assert(head_is_first == (self.at@ == 0)) by {
                if self.at@ != 0 {
                    assert(ord[0] != ord[self.at@]);
                }
            }
            assert(head_is_last == (self.at@ == ord.len() - 1)) by {
                if self.at@ != ord.len() - 1 {
                    assert(ord[self.at@] != ord[ord.len() - 1]);
                }
            }
            assert(old(self).contents()[0] == self.cells@[self.first as int].value);
            assert(old(self).contents().last() == self.cells@[self.last as int].value);
        }

        if self.cells[self.first].value == BLANK && !head_is_first {
            self.drop_left();
        }

        let ghost mid = *self;
        proof {
            assert((mid.contents(), mid.head_pos()) == if old(self).contents()[0] == BLANK
                && old(self).head_pos() != 0 {
                (
                    old(self).contents().subrange(
                        old(self).head_pos(),
                        old(self).contents().len() as int,
                    ),
                    0int,
                )
            } else {
                (old(self).contents(), old(self).head_pos())
            });
            assert(mid.contents().last() == mid.cells@[mid.last as int].value);
            assert(head_is_last == (mid.at@ == mid.order@.len() - 1)) by {
                if mid.at@ != mid.order@.len() - 1 {
                    assert(mid.order@[mid.at@] != mid.order@[mid.order@.len() - 1]);
                }
            }
        }

        if self.cells[self.last].value == BLANK && !head_is_last {
            self.drop_right();
        }

        proof {
            assert((self.contents(), self.head_pos()) == cleanup_spec(
                old(self).contents(),
                old(self).head_pos(),
            ));
        }
    }

    /// Creates a fresh blank cell, links it as the head's right neighbour,
    /// and moves `last` and the head onto it. (Lazy extension when the head
    /// moves right off the rightmost cell.)
    fn extend_right(&mut self)
        requires
            old(self).wf(),
            old(self).cells@[old(self).head as int].next is None,
        ensures
            final(self).wf(),
            final(self).contents() == old(self).contents().push(BLANK),
            final(self).head_pos() == old(self).head_pos() + 1,
            final(self).first == old(self).first,
            final(self).last == final(self).head,
            final(self).head == old(self).cells@.len(),
            final(self).head != old(self).head,
            final(self).cells@[old(self).head as int].next == Some(final(self).head),
            final(self).cells@[final(self).head as int].prev == Some(old(self).head),
    {
        let blank_idx = self.cells.len();
        proof {
            assert(self.order@[self.at@] < self.cells@.len());
        }
        self.cells.push(TMCell::blank());
        TMCell::append(&mut self.cells, self.head, blank_idx);
        self.last = blank_idx;
        self.head = blank_idx;
        proof {
            let ord = old(self).order@;
            let at = old(self).at@;
            assert(links_at(old(self).cells@, ord, at));
            assert(at == ord.len() - 1);
            self.order@ = ord.push(blank_idx as usize);
            self.at@ = ord.len() as int;
            assert forall|i: int, j: int|
                0 <= i < j < self.order@.len() implies self.order@[i] != self.order@[j] by {
                if j < ord.len() {
                    assert(ord[i] != ord[j]);
                } else {
                    assert(ord[i] < old(self).cells@.len());
                }
            }
            assert forall|i: int| 0 <= i < self.order@.len() implies #[trigger] links_at(
                self.cells@,
                self.order@,
                i,
            ) by {
                if i < ord.len() {
                    assert(links_at(old(self).cells@, ord, i));
                    if i != at {
                        assert(ord[i] != ord[at]);
                        assert(ord[i] < old(self).cells@.len());
                    }
                    if 0 < i {
                        assert(ord[i - 1] != ord[at] || i - 1 == at);
                    }
                }
            }
            assert(self.wf());
            assert(self.contents() =~= old(self).contents().push(BLANK));
        }
    }

    /// Creates a fresh blank cell, links it as the head's left neighbour,
    /// and moves `first` and the head onto it. (Lazy extension when the head
    /// moves left off the leftmost cell.)
    fn extend_left(&mut self)
        requires
            old(self).wf(),
            old(self).cells@[old(self).head as int].prev is None,
        ensures
            final(self).wf(),
            final(self).contents() == seq![BLANK] + old(self).contents(),
            final(self).head_pos() == 0,
            final(self).last == old(self).last,
            final(self).first == final(self).head,
            final(self).head == old(self).cells@.len(),
            final(self).head != old(self).head,
            final(self).cells@[old(self).head as int].prev == Some(final(self).head),
            final(self).cells@[final(self).head as int].next == Some(old(self).head),
    {
        let blank_idx = self.cells.len();
        proof {
            assert(self.order@[self.at@] < self.cells@.len());
        }
        self.cells.push(TMCell::blank());
        TMCell::prepend(&mut self.cells, self.head, blank_idx);
        self.first = blank_idx;
        self.head = blank_idx;
        proof {
            let ord = old(self).order@;
            let at = old(self).at@;
            assert(links_at(old(self).cells@, ord, at));
            assert(at == 0);
            self.order@ = seq![blank_idx as usize] + ord;
            self.at@ = 0;
            assert forall|i: int, j: int|
                0 <= i < j < self.order@.len() implies self.order@[i] != self.order@[j] by {
                if 0 < i {
                    assert(ord[i - 1] != ord[j - 1]);
                } else {
                    assert(ord[j - 1] < old(self).cells@.len());
                }
            }
            assert forall|i: int| 0 <= i < self.order@.len() implies #[trigger] links_at(
                self.cells@,
                self.order@,
                i,
            ) by {
                if 0 < i {
                    assert(links_at(old(self).cells@, ord, i - 1));
                    if i - 1 != at {
                        assert(ord[i - 1] != ord[at]);
                        assert(ord[i - 1] < old(self).cells@.len());
                    }
                    if i < self.order@.len() - 1 {
                        assert(ord[i] != ord[at] || i == at + 1);
                    }
                }
            }
            assert(self.wf());
            assert(self.contents() =~= seq![BLANK] + old(self).contents());
        }
    }

    /// Moves the head one cell in `direction` -- `N` changes nothing at all.
    /// When the head would leave the visited range, a blank cell is created
    /// and linked first; after any actual movement, cleanup runs, so a
    /// freshly abandoned blank boundary is never observable.
    pub fn move_head(&mut self, direction: &TMDirection)
        requires
            old(self).wf(),
        ensures
            final(self).wf(),
            (final(self).contents(), final(self).head_pos()) == move_spec(
                old(self).contents(),
                old(self).head_pos(),
                *direction,
            ),
            *direction == TMDirection::N ==> *final(self) == *old(self),
            *direction == TMDirection::R ==> (match old(self).cells@[old(self).head as int].next {
                Some(i) => final(self).head == i,
                None => final(self).head == old(self).cells@.len() && final(self).last
                    == final(self).head,
            }),
            *direction == TMDirection::L ==> (match old(self).cells@[old(self).head as int].prev {
                Some(i) => final(self).head == i,
                None => final(self).head == old(self).cells@.len() && final(self).first
                    == final(self).head,
            }),
    {
        if *direction == TMDirection::N {
            return;
        }

        proof {
            assert(self.order@[self.at@] < self.cells@.len());
            assert(links_at(self.cells@, self.order@, self.at@));
        }

        let other_cell: Option<usize> = match *direction {
            TMDirection::R => self.cells[self.head].next,
            TMDirection::L => self.cells[self.head].prev,
            TMDirection::N => None,
        };

        match other_cell {
            Some(idx) => {
                self.head = idx;
                proof {
                    if *direction == TMDirection::R {
                        self.at@ = self.at@ + 1;
                    } else {
                        self.at@ = self.at@ - 1;
                    }
                    assert(self.wf());
                    assert(self.contents() == old(self).contents());
                }
            },
            None => {
                match *direction {
                    TMDirection::R => {
                        proof {
                            assert(old(self).head_pos() == old(self).contents().len() - 1);
                        }
                        self.extend_right();
                    },
                    TMDirection::L => {
                        proof {
                            assert(old(self).head_pos() == 0);
                        }
                        self.extend_left();
                    },
                    TMDirection::N => {
                        proof {
                            assert(false);
                        }
                    },
                }
            },
        }

        self.cleanup();
    }

    /// A fresh traversal of the live chain, from the current `first` to
    /// `last`, flagging the entry under the head.
    pub fn iter(&self) -> (it: TMTapeForewardIterator<'_>)
        requires
            self.wf(),
        ensures
            it.wf(),
            it.tape == self,
            it.pos@ == 0,
    {
        TMTapeForewardIterator { tape: self, iter_head: Some(self.first), pos: Ghost(0) }
    }
}

/// A finite, restartable left-to-right walk over a tape's live chain. Each
/// entry pairs a cell's symbol with whether that cell is the tape's head.
pub struct TMTapeForewardIterator<'a> {
    pub tape: &'a TMTape,
    pub iter_head: Option<usize>,
    pub pos: Ghost<int>,
}

impl<'a> TMTapeForewardIterator<'a> {
    /// The cursor sits `pos` cells into the chain, or just past its end.
    pub open spec fn wf(self) -> bool {
        &&& self.tape.wf()
        &&& 0 <= self.pos@ <= self.tape.order@.len()
        &&& (self.pos@ < self.tape.order@.len() ==> self.iter_head == Some(
            self.tape.order@[self.pos@],
        ))
        &&& (self.pos@ == self.tape.order@.len() ==> self.iter_head is None)
    }

    /// The next `(symbol, is_head)` entry, or `None` past the rightmost cell.
    pub fn next(&mut self) -> (entry: Option<(char, bool)>)
        requires
            old(self).wf(),
        ensures
            final(self).wf(),
            final(self).tape == old(self).tape,
            old(self).pos@ < old(self).tape.contents().len() ==> {
                &&& entry == Some(
                    (
                        old(self).tape.contents()[old(self).pos@],
                        old(self).pos@ == old(self).tape.head_pos(),
                    ),
                )
                &&& final(self).pos@ == old(self).pos@ + 1
            },
            old(self).pos@ == old(self).tape.contents().len() ==> {
                &&& entry is None
                &&& final(self).pos@ == old(self).pos@
            },
    {
        match self.iter_head {
            None => None,
            Some(idx) => {
                proof {
                    assert(self.tape.order@[self.pos@] < self.tape.cells@.len());
                    assert(links_at(self.tape.cells@, self.tape.order@, self.pos@));
                }
                let value = self.tape.cells[idx].value;
                let is_head = idx == self.tape.head;
                proof {
                    let ord = self.tape.order@;
                    assert(is_head == (self.pos@ == self.tape.at@)) by {
                        if self.pos@ != self.tape.at@ {
                            if self.pos@ < self.tape.at@ {
                                assert(ord[self.pos@] != ord[self.tape.at@]);
                            } else {
                                assert(ord[self.tape.at@] != ord[self.pos@]);
                            }
                        }
                    }
                }
                self.iter_head = self.tape.cells[idx].next;
                proof {
                    self.pos@ = self.pos@ + 1;
                }
                Some((value, is_head))
            },
        }
    }
}

/// After a cleanup pass the boundary cells are pruned: a blank leftmost cell
/// survives only while the head sits on it, and likewise on the right. This
/// bounds the tape to the visited extent plus at most one blank sentinel per
/// side.
pub proof fn lemma_cleanup_prunes_boundaries(s: Seq<char>, h: int)
    requires
        0 <= h < s.len(),
    ensures
        ({
            let c = cleanup_spec(s, h);
            &&& (c.0[0] == BLANK ==> c.1 == 0)
            &&& (c.0.last() == BLANK ==> c.1 == c.0.len() - 1)
        }),
{
}

/// Cleanup is idempotent: a second pass over an already cleaned tape model
/// changes neither the symbols nor the head position.
pub proof fn lemma_cleanup_idempotent(s: Seq<char>, h: int)
    requires
        0 <= h < s.len(),
    ensures
        ({
            let c = cleanup_spec(s, h);
            cleanup_spec(c.0, c.1) == c
        }),
{
    let c = cleanup_spec(s, h);
    let t = c.0;
    let k = c.1;
    assert(t[0] == BLANK ==> k == 0);
    assert(t[t.len() - 1] == BLANK ==> k == t.len() - 1);
    assert(cleanup_spec(t, k) == (t, k));
}

/// Moving the head right and then left returns the tape model to exactly
/// where it was -- same symbols, same head position -- from any starting
/// position, as long as neither boundary cell holds a blank that the round
/// trip could touch.
pub proof fn lemma_move_right_then_left(s: Seq<char>, h: int)
    requires
        0 <= h < s.len(),
        s[0] != BLANK,
        s[s.len() - 1] != BLANK,
    ensures
        ({
            let m = move_spec(s, h, TMDirection::R);
            move_spec(m.0, m.1, TMDirection::L) == (s, h)
        }),
{
    if h < s.len() - 1 {
        assert(move_spec(s, h, TMDirection::R) == (s, h + 1));
        assert(move_spec(s, h + 1, TMDirection::L) == (s, h));
    } else {
        let grown = s.push(BLANK);
        assert(move_spec(s, h, TMDirection::R) == (grown, h + 1));
        assert(grown.subrange(0, h + 1) =~= s);
        assert(move_spec(grown, h + 1, TMDirection::L) == (s, h));
    }
}

/// Moving right from the rightmost cell lengthens the visitable range by
/// exactly one blank cell, which becomes the new head (and new rightmost
/// cell); moving back left reclaims that blank as soon as the head has left
/// it. Holds whenever the leftmost symbol is not itself a reclaimable blank.
pub proof fn lemma_grow_right(s: Seq<char>)
    requires
        s.len() >= 1,
        s[0] != BLANK,
    ensures
        move_spec(s, s.len() - 1, TMDirection::R) == (s.push(BLANK), s.len() as int),
        move_spec(s.push(BLANK), s.len() as int, TMDirection::L) == (s, s.len() - 1),
{
    let grown = s.push(BLANK);
    assert(grown.subrange(0, s.len() as int) =~= s);
}

} // verus!
