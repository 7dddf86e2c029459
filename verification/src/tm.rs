//! The machine: current state, halting state and transition table, with the
//! step rule and the run loop that drives the tape.
//!
//! A configuration -- state, tape symbols, head position -- is modelled by
//! [`TMConfig`], and one transition by [`step_spec`]. Running produces one
//! rendered trace line per configuration, including the first and the last.

use vstd::prelude::*;
use crate::util::BLANK;
use crate::util::TMDirection;
use crate::util::TMDeltaEntry;
use crate::util::TMDeltaTable;
use crate::util::delta_get;
use crate::tm_tape::TMTape;
use crate::tm_tape::move_spec;

verus! {

/// The full instantaneous description of the machine: its state and the
/// tape's model (symbols and head position).
pub struct TMConfig {
    pub state: usize,
    pub tape: Seq<char>,
    pub head: int,
}

/// One transition: look the pair `(state, symbol under head)` up; if it is
/// unmapped there is no successor, otherwise write, move (with cleanup) and
/// change state.
pub open spec fn step_spec(delta: Seq<TMDeltaEntry>, c: TMConfig) -> Option<TMConfig> {
    match delta_get(delta, (c.state, c.tape[c.head])) {
        None => None,
        Some(t) => ({
            let moved = move_spec(c.tape.update(c.head, t.1), c.head, t.2);
            Some(TMConfig { state: t.0, tape: moved.0, head: moved.1 })
        }),
    }
}

/// The configuration a run starts from: the tape built from `word` (a single
/// blank for the empty word), head on the leftmost cell.
pub open spec fn initial_config(state: usize, word: Seq<char>) -> TMConfig {
    TMConfig {
        state,
        tape: if word.len() == 0 {
            seq![BLANK]
        } else {
            word
        },
        head: 0,
    }
}

/// Starting from `c`, the machine reaches the halting state or an unmapped
/// pair within at most `n` transitions.
pub open spec fn halts_within(
    delta: Seq<TMDeltaEntry>,
    end_state: usize,
    c: TMConfig,
    n: nat,
) -> bool
    decreases n,
{
    if c.state == end_state {
        true
    } else {
        match step_spec(delta, c) {
            None => true,
            Some(c2) => n > 0 && halts_within(delta, end_state, c2, (n - 1) as nat),
        }
    }
}

/// `cs` is a chain of configurations: each one short of the halting state,
/// each followed by its unique successor.
pub open spec fn is_run_trace(delta: Seq<TMDeltaEntry>, end_state: usize, cs: Seq<TMConfig>) -> bool {
    &&& cs.len() >= 1
    &&& forall|i: int|
        0 <= i < cs.len() - 1 ==> (#[trigger] cs[i]).state != end_state && step_spec(delta, cs[i])
            == Some(cs[i + 1])
}

/// The decimal digit `d` as a character.
pub open spec fn digit_char(d: int) -> char {
    if d == 0 {
        '0'
    } else if d == 1 {
        '1'
    } else if d == 2 {
        '2'
    } else if d == 3 {
        '3'
    } else if d == 4 {
        '4'
    } else if d == 5 {
        '5'
    } else if d == 6 {
        '6'
    } else if d == 7 {
        '7'
    } else if d == 8 {
        '8'
    } else {
        '9'
    }
}

/// `n` written in decimal, most significant digit first.
pub open spec fn spec_digits(n: nat) -> Seq<char>
    decreases n,
{
    if n < 10 {
        seq![digit_char(n as int)]
    } else {
        spec_digits(n / 10).push(digit_char((n % 10) as int))
    }
}

/// The first `k` tape cells as the trace shows them: each cell's symbol,
/// with `[state]` put immediately before the head's symbol.
pub open spec fn render_cells_prefix(state: usize, tape: Seq<char>, head: int, k: int) -> Seq<
    char,
> {
    if k <= head {
        tape.subrange(0, k)
    } else {
        tape.subrange(0, head) + seq!['['] + spec_digits(state as nat) + seq![']'] + seq![
            tape[head],
        ] + tape.subrange(head + 1, k)
    }
}

/// One whole trace line: `...B`, then every cell with the head marked, then
/// `B...` -- one extra blank of padding on each side, unconditionally.
pub open spec fn render_spec(state: usize, tape: Seq<char>, head: int) -> Seq<char> {
    seq!['.', '.', '.', BLANK] + render_cells_prefix(state, tape, head, tape.len() as int) + seq![
        BLANK,
        '.',
        '.',
        '.',
    ]
}

/// What one call of [`TM::step`] did.
#[derive(Clone, Copy, PartialEq, Eq, Structural, Debug)]
pub enum TMStepResult {
    /// A transition was applied; the machine has not halted yet.
    Continue,
    /// The machine was already in its halting state; nothing changed.
    Halted,
    /// The current `(state, symbol)` pair has no table entry; nothing
    /// changed. This is fatal: the machine was not programmed for the
    /// configuration it reached.
    Unmapped,
}

/// How a run ended.
#[derive(Clone, Copy, PartialEq, Eq, Structural, Debug)]
pub enum TMOutcome {
    /// The halting state was reached; the last trace line is the halting
    /// configuration.
    Halted,
    /// An unmapped `(state, symbol)` pair was hit; the run aborted right
    /// after the trace line that exposed the gap.
    UnmappedTransition,
}

/// Everything [`TM::run`] promises, with the chain of configurations `cs` it
/// passed through as the witness: the chain starts at the initial
/// configuration, every line renders its configuration, and the outcome says
/// how the chain ended.
pub open spec fn run_witness(
    m0: TM,
    m1: TM,
    word: Seq<char>,
    lines: Seq<Vec<char>>,
    outcome: TMOutcome,
    cs: Seq<TMConfig>,
) -> bool {
    &&& is_run_trace(m0.delta.entries@, m0.end_state, cs)
    &&& cs[0] == initial_config(m0.state, word)
    &&& lines.len() == cs.len()
    &&& forall|i: int|
        0 <= i < cs.len() ==> (#[trigger] lines[i])@ == render_spec(
            cs[i].state,
            cs[i].tape,
            cs[i].head,
        )
    &&& m1.state == cs.last().state
    &&& (outcome == TMOutcome::Halted <==> cs.last().state == m0.end_state)
    &&& (outcome == TMOutcome::UnmappedTransition ==> step_spec(m0.delta.entries@, cs.last())
        is None)
}

/// The machine: current state, the halting state, and the transition table
/// (the latter two immutable after construction).
pub struct TM {
    pub state: usize,
    pub end_state: usize,
    pub delta: TMDeltaTable,
}

impl TM {
    /// A machine in `start_state` that halts in `end_state` and follows
    /// `delta`.
    pub fn new(start_state: usize, end_state: usize, delta: TMDeltaTable) -> (m: TM)
        ensures
            m.state == start_state,
            m.end_state == end_state,
            m.delta == delta,
    {
        TM { state: start_state, end_state, delta }
    }

    /// One trace line for the current configuration.
    pub fn render_config(&self, tape: &TMTape) -> (line: Vec<char>)
        requires
            tape.wf(),
        ensures
            line@ == render_spec(self.state, tape.contents(), tape.head_pos()),
    {
        let ghost s = tape.contents();
        let ghost h = tape.head_pos();
        let mut line: Vec<char> = Vec::new();
        line.push('.');
        line.push('.');
        line.push('.');
        line.push(BLANK);
        let ghost intro = line@;
        let mut it = tape.iter();
        loop
            invariant_except_break
                tape.wf(),
                it.wf(),
                it.tape == tape,
                0 <= it.pos@ <= s.len(),
                s == tape.contents(),
                h == tape.head_pos(),
                0 <= h < s.len(),
                line@ == intro + render_cells_prefix(self.state, s, h, it.pos@),
                intro == seq!['.', '.', '.', BLANK],
            ensures
                line@ == intro + render_cells_prefix(self.state, s, h, s.len() as int),
            decreases s.len() - it.pos@,
        {
            let ghost k = it.pos@;
            match it.next() {
                None => {
                    break ;
                },
                Some((value, is_head)) => {
                    if is_head {
                        line.push('[');
                        let mut ds = digits_vec(self.state);
                        line.append(&mut ds);
                        line.push(']');
                    }
                    line.push(value);
                    proof {
                        assert(line@ =~= intro + render_cells_prefix(self.state, s, h, k + 1));
                    }
                },
            }
        }
        line.push(BLANK);
        line.push('.');
        line.push('.');
        line.push('.');
        proof {
            assert(line@ =~= render_spec(self.state, s, h));
        }
        line
    }

    /// One transition. Reports `Halted` (machine already in its halting
    /// state) or `Unmapped` (no table entry for the current pair) without
    /// changing anything; otherwise applies the table's rule to state and
    /// tape and reports `Continue`.
    pub fn step(&mut self, tape: &mut TMTape) -> (r: TMStepResult)
        requires
            old(tape).wf(),
        ensures
            final(tape).wf(),
            final(self).end_state == old(self).end_state,
            final(self).delta == old(self).delta,
            old(self).state == old(self).end_state ==> {
                &&& r == TMStepResult::Halted
                &&& *final(self) == *old(self)
                &&& *final(tape) == *old(tape)
            },
            old(self).state != old(self).end_state ==> (match step_spec(
                old(self).delta.entries@,
                (TMConfig {
                    state: old(self).state,
                    tape: old(tape).contents(),
                    head: old(tape).head_pos(),
                }),
            ) {
                None => {
                    &&& r == TMStepResult::Unmapped
                    &&& *final(self) == *old(self)
                    &&& *final(tape) == *old(tape)
                },
                Some(c2) => {
                    &&& r == TMStepResult::Continue
                    &&& final(self).state == c2.state
                    &&& final(tape).contents() == c2.tape
                    &&& final(tape).head_pos() == c2.head
                },
            }),
    {
        if self.state == self.end_state {
            return TMStepResult::Halted;
        }
        let symbol = tape.read_value();
        match self.delta.get((self.state, symbol)) {
            None => TMStepResult::Unmapped,
            Some((next_state, next_value, direction)) => {
                self.state = next_state;
                tape.set_value(next_value);
                tape.move_head(&direction);
                TMStepResult::Continue
            },
        }
    }

    /// Runs the machine on `word`: builds the tape, then steps until the
    /// halting state is reached or an unmapped pair aborts the run. Returns
    /// one rendered line per configuration passed through -- the initial and
    /// the final one included -- and how the run ended. The contract asks
    /// for a machine that halts or gets stuck on this word; on any other
    /// input the loop simply never returns, as the theoretical model
    /// prescribes.
    pub fn run(&mut self, word: &str) -> (r: (Vec<Vec<char>>, TMOutcome))
        requires
            exists|n: nat|
                halts_within(
                    old(self).delta.entries@,
                    old(self).end_state,
                    initial_config(old(self).state, word@),
                    n,
                ),
        ensures
            final(self).end_state == old(self).end_state,
            final(self).delta == old(self).delta,
            exists|cs: Seq<TMConfig>| run_witness(*old(self), *final(self), word@, r.0@, r.1, cs),
    {
        let mut tape = TMTape::from(word);
        let mut lines: Vec<Vec<char>> = Vec::new();
        let ghost mut cs: Seq<TMConfig> = seq![
            TMConfig { state: self.state, tape: tape.contents(), head: tape.head_pos() },
        ];
        let ghost mut fuel: nat = choose|n: nat|
            halts_within(
                old(self).delta.entries@,
                old(self).end_state,
                initial_config(old(self).state, word@),
                n,
            );
        loop
            invariant
                tape.wf(),
                self.end_state == old(self).end_state,
                self.delta == old(self).delta,
                cs.len() == lines@.len() + 1,
                cs.last() == (TMConfig {
                    state: self.state,
                    tape: tape.contents(),
                    head: tape.head_pos(),
                }),
                cs[0] == initial_config(old(self).state, word@),
                forall|i: int|
                    0 <= i < cs.len() - 1 ==> (#[trigger] cs[i]).state != old(self).end_state
                        && step_spec(old(self).delta.entries@, cs[i]) == Some(cs[i + 1]),
                forall|i: int|
                    0 <= i < lines@.len() ==> (#[trigger] lines@[i])@ == render_spec(
                        cs[i].state,
                        cs[i].tape,
                        cs[i].head,
                    ),
                halts_within(old(self).delta.entries@, old(self).end_state, cs.last(), fuel),
            decreases fuel,
        {
            lines.push(self.render_config(&tape));
            let ghost before = *self;
            let ghost tape_before = tape;
            let step_result = self.step(&mut tape);
            match step_result {
                TMStepResult::Halted => {
                    let result = (lines, TMOutcome::Halted);
                    proof {
                        assert(run_witness(
                            *old(self),
                            *self,
                            word@,
                            result.0@,
                            result.1,
                            cs,
                        ));
                    }
                    return result;
                },
                TMStepResult::Unmapped => {
                    let result = (lines, TMOutcome::UnmappedTransition);
                    proof {
                        assert(run_witness(
                            *old(self),
                            *self,
                            word@,
                            result.0@,
                            result.1,
                            cs,
                        ));
                    }
                    return result;
                },
                TMStepResult::Continue => {
                    proof {
                        let c2 = TMConfig {
                            state: self.state,
                            tape: tape.contents(),
                            head: tape.head_pos(),
                        };
                        assert(halts_within(
                            old(self).delta.entries@,
                            old(self).end_state,
                            cs.last(),
                            fuel,
                        ));
                        cs = cs.push(c2);
                        fuel = (fuel - 1) as nat;
                    }
                },
            }
        }
    }
}

/// Turns `d < 10` into its decimal digit character.
fn digit_to_char(d: usize) -> (c: char)
    requires
        d < 10,
    ensures
        c == digit_char(d as int),
{
    match d {
        0 => '0',
        1 => '1',
        2 => '2',
        3 => '3',
        4 => '4',
        5 => '5',
        6 => '6',
        7 => '7',
        8 => '8',
        _ => '9',
    }
}

/// `n` in decimal, most significant digit first.
fn digits_vec(n: usize) -> (v: Vec<char>)
    ensures
        v@ == spec_digits(n as nat),
    decreases n,
{
    if n < 10 {
        let mut v: Vec<char> = Vec::new();
        v.push(digit_to_char(n));
        v
    } else {
        let mut v = digits_vec(n / 10);
        v.push(digit_to_char(n % 10));
        v
    }
}

} // verus!
