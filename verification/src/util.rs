//! The reserved blank symbol, head movements, and the transition table.

use vstd::prelude::*;

verus! {

/// The reserved symbol denoting an unwritten tape cell.
pub const BLANK: char = 'B';

/// A head movement: one cell to the left, one to the right, or none.
#[derive(Clone, Copy, PartialEq, Eq, Structural, Debug)]
pub enum TMDirection {
    L,
    R,
    N,
}

impl TMDirection {
    /// Parses one of the direction tokens `"L"`, `"R"`, `"N"`.
    /// Any other token is a malformed input and is refused by the contract;
    /// callers that read untrusted text must test the token first.
    pub fn from(token: &str) -> (d: TMDirection)
        requires
            token@ == "L"@ || token@ == "R"@ || token@ == "N"@,
        ensures
            token@ == "L"@ ==> d == TMDirection::L,
            token@ == "R"@ ==> d == TMDirection::R,
            token@ == "N"@ ==> d == TMDirection::N,
    {
        proof {
            reveal_strlit("L");
            reveal_strlit("R");
            reveal_strlit("N");
        }
        let c = token.get_char(0);
        if c == 'R' {
            TMDirection::R
        } else if c == 'N' {
            TMDirection::N
        } else {
            TMDirection::L
        }
    }
}

/// One transition rule: under `(state, symbol)` the machine writes a symbol,
/// moves the head, and enters the next state.
pub type TMDeltaEntry = ((usize, char), (usize, char, TMDirection));

/// What a sequence of entries maps a key to: the entry added last wins,
/// as in the hash map this table stands for.
pub open spec fn delta_get(s: Seq<TMDeltaEntry>, key: (usize, char)) -> Option<(usize, char, TMDirection)>
    decreases s.len(),
{
    if s.len() == 0 {
        None
    } else if s.last().0 == key {
        Some(s.last().1)
    } else {
        delta_get(s.drop_last(), key)
    }
}

/// The transition table: maps `(state, symbol under head)` to
/// `(next state, symbol to write, head movement)`.
pub struct TMDeltaTable {
    pub entries: Vec<TMDeltaEntry>,
}

impl TMDeltaTable {
    /// An empty table: no pair is mapped.
    pub fn new() -> (t: TMDeltaTable)
        ensures
            t.entries@ == Seq::<TMDeltaEntry>::empty(),
            forall|k: (usize, char)| delta_get(t.entries@, k) is None,
    {
        TMDeltaTable { entries: Vec::new() }
    }

    /// Adds a rule; an earlier rule for the same key is superseded.
    pub fn insert(&mut self, key: (usize, char), value: (usize, char, TMDirection))
        ensures
            forall|k: (usize, char)|
                delta_get(final(self).entries@, k) == if k == key {
                    Some(value)
                } else {
                    delta_get(old(self).entries@, k)
                },
    {
        self.entries.push((key, value));
        proof {
            assert(self.entries@.drop_last() =~= old(self).entries@);
        }
    }

    /// Looks a key up.
    pub fn get(&self, key: (usize, char)) -> (r: Option<(usize, char, TMDirection)>)
        ensures
            r == delta_get(self.entries@, key),
    {
        let mut i: usize = self.entries.len();
        proof {
            assert(self.entries@.take(i as int) =~= self.entries@);
        }
        while i > 0
            invariant
                i <= self.entries.len(),
                delta_get(self.entries@, key) == delta_get(self.entries@.take(i as int), key),
            decreases i,
        {
            i = i - 1;
            let e = self.entries[i];
            if e.0.0 == key.0 && e.0.1 == key.1 {
                proof {
                    assert(self.entries@.take(i + 1).last() == self.entries@[i as int]);
                }
                return Some(e.1);
            }
            proof {
                assert(self.entries@.take(i + 1).last() == self.entries@[i as int]);
                assert(self.entries@.take(i + 1).drop_last() =~= self.entries@.take(i as int));
            }
        }
        proof {
            assert(self.entries@.take(0) =~= Seq::<TMDeltaEntry>::empty());
        }
        None
    }
}

} // verus!
