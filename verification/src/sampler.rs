//! The bookkeeping of the Metropolis-Hastings chain over escape orbits: the
//! warm-up, the sample budget, the trace length of the sample the chain
//! stands on, and what becomes of each attempted transition. The arithmetic
//! on the points themselves is the caller's; the chain is told what it
//! found.

use crate::random::gen_range;
use rand::rngs::ThreadRng;
use vstd::prelude::*;

verus! {

/// How the next candidate is found.
#[derive(Clone, Copy, Debug, PartialEq, Eq, Structural)]
pub enum Proposal {
    /// A fresh point from anywhere in the bounding box: the large jump.
    Fresh,
    /// A point next to the sample the chain stands on.
    Nearby,
}

/// The proposal that the roll of a die with the faces 0 to 5 stands for:
/// the highest face asks for a fresh point.
pub open spec fn proposal_of(roll: int) -> Proposal {
    if roll > 4 {
        Proposal::Fresh
    } else {
        Proposal::Nearby
    }
}

/// The proposal that a given roll stands for.
pub fn proposal_for(roll: i32) -> (p: Proposal)
    ensures
        p == proposal_of(roll as int),
{
    if roll > 4 {
        Proposal::Fresh
    } else {
        Proposal::Nearby
    }
}

/// Rolls the die and says how the next candidate is to be found: in one
/// case out of six by a large jump.
pub fn propose(rng: &mut ThreadRng) -> (p: Proposal)
    ensures
        exists|roll: int| 0 <= roll < 6 && p == #[trigger] proposal_of(roll),
{
    let roll = gen_range(rng, 0, 6);
    proposal_for(roll)
}

/// What the arithmetic found out about one candidate sample.
#[derive(Clone, Copy, Debug, PartialEq, Eq, Structural)]
pub enum Attempt {
    /// The orbit of the candidate stayed bound within the iteration cap.
    Bound,
    /// The orbit escaped, and the acceptance test turned the candidate
    /// down.
    Rejected,
    /// The orbit escaped, and the acceptance test let the candidate
    /// through; `trace_len` points of its orbit lie in the rectangle.
    Accepted { trace_len: i32 },
}

/// What the chain does about an attempt.
#[derive(Clone, Copy, Debug, PartialEq, Eq, Structural)]
pub enum Verdict {
    /// The candidate becomes the sample of the chain and its trace goes
    /// out.
    Emit,
    /// The candidate becomes the sample of the chain, but the chain is
    /// still warming up: its trace is thrown away and costs nothing of the
    /// budget.
    Discard,
    /// The candidate is dropped and another one is to be proposed.
    Retry,
    /// The budget is used up: nothing goes out any more.
    Exhausted,
}

/// The state of a chain, as the contracts speak of it.
pub struct ChainState {
    /// Samples that are still to be emitted. The warm-up does not count.
    pub remaining: int,
    /// Accepted candidates that are still to be thrown away before the
    /// first trace goes out.
    pub warmup_left: int,
    /// Trace length of the sample the chain stands on.
    pub length: int,
    /// Cap on the length of every orbit.
    pub iterations: int,
}

/// The verdict on an attempt in a given state. While the chain warms up,
/// an accepted candidate is discarded; after that it is emitted as long as
/// there is budget.
pub open spec fn verdict_of(state: ChainState, attempt: Attempt) -> Verdict {
    if state.warmup_left > 0 {
        if attempt is Accepted {
            Verdict::Discard
        } else {
            Verdict::Retry
        }
    } else if state.remaining <= 0 {
        Verdict::Exhausted
    } else if attempt is Accepted {
        Verdict::Emit
    } else {
        Verdict::Retry
    }
}

/// The state after an attempt. A discarded candidate uses up one
/// transition of the warm-up, an emitted one uses up one sample of the
/// budget; both move the chain on to the candidate.
pub open spec fn state_after(state: ChainState, attempt: Attempt) -> ChainState {
    match verdict_of(state, attempt) {
        Verdict::Discard => ChainState {
            remaining: state.remaining,
            warmup_left: state.warmup_left - 1,
            length: attempt->trace_len as int,
            iterations: state.iterations,
        },
        Verdict::Emit => ChainState {
            remaining: state.remaining - 1,
            warmup_left: state.warmup_left,
            length: attempt->trace_len as int,
            iterations: state.iterations,
        },
        _ => state,
    }
}

/// The state after a run of attempts, one after the other.
pub open spec fn state_after_all(state: ChainState, attempts: Seq<Attempt>) -> ChainState
    decreases attempts.len(),
{
    if attempts.len() == 0 {
        state
    } else {
        state_after(state_after_all(state, attempts.drop_last()), attempts.last())
    }
}

/// How often a run of attempts is answered with the given verdict.
pub open spec fn answered(state: ChainState, attempts: Seq<Attempt>, verdict: Verdict) -> nat
    decreases attempts.len(),
{
    if attempts.len() == 0 {
        0
    } else {
        let before = state_after_all(state, attempts.drop_last());
        let rest = answered(state, attempts.drop_last(), verdict);
        if verdict_of(before, attempts.last()) == verdict {
            rest + 1
        } else {
            rest
        }
    }
}

/// How many traces go out in a run of attempts.
pub open spec fn emitted(state: ChainState, attempts: Seq<Attempt>) -> nat {
    answered(state, attempts, Verdict::Emit)
}

/// How many traces are thrown away as warm-up in a run of attempts.
pub open spec fn discarded(state: ChainState, attempts: Seq<Attempt>) -> nat {
    answered(state, attempts, Verdict::Discard)
}

/// The positions of an orbit that make up its trace: those whose point lies
/// in the rectangle, in the order of the orbit. `inside[k]` says whether
/// the point at position `k` does.
pub open spec fn trace_positions(inside: Seq<bool>) -> Seq<int>
    decreases inside.len(),
{
    if inside.len() == 0 {
        Seq::empty()
    } else {
        let front = trace_positions(inside.drop_last());
        if inside.last() {
            front.push(inside.len() - 1)
        } else {
            front
        }
    }
}

/// Every position of a trace is one of a point in the rectangle, the
/// positions go up, and no point in the rectangle is left out.
pub proof fn lemma_trace_positions(inside: Seq<bool>)
    ensures
        trace_positions(inside).len() <= inside.len(),
        forall|j: int|
            0 <= j < trace_positions(inside).len() ==> 0 <= (#[trigger] trace_positions(
                inside,
            )[j]) < inside.len() && inside[trace_positions(inside)[j]],
        forall|i: int, j: int|
            0 <= i < j < trace_positions(inside).len() ==> (#[trigger] trace_positions(inside)[i])
                < (#[trigger] trace_positions(inside)[j]),
        forall|k: int|
            0 <= k < inside.len() && #[trigger] inside[k] ==> trace_positions(inside).contains(k),
    decreases inside.len(),
{
    if inside.len() > 0 {
        let front_flags = inside.drop_last();
        let front = trace_positions(front_flags);
        lemma_trace_positions(front_flags);
        let all = trace_positions(inside);
        assert forall|k: int| 0 <= k < inside.len() && #[trigger] inside[k] implies all.contains(
            k,
        ) by {
            if k < inside.len() - 1 {
                assert(front_flags[k]);
                let j = choose|j: int| 0 <= j < front.len() && front[j] == k;
                assert(all[j] == k);
            } else {
                assert(all[all.len() - 1] == k);
            }
        }
    }
}

/// Picks the trace out of an orbit, given for each of its points whether it
/// lies in the rectangle.
pub fn select_trace(inside: &Vec<bool>) -> (positions: Vec<usize>)
    ensures
        positions@.map_values(|p: usize| p as int) == trace_positions(inside@),
{
    let n = inside.len();
    let mut positions: Vec<usize> = Vec::new();
    let mut k: usize = 0;
    while k < n
        invariant
            k <= n,
            n == inside@.len(),
            positions@.map_values(|p: usize| p as int) == trace_positions(inside@.take(k as int)),
        decreases n - k,
    {
        let ghost before = positions@;
        proof {
            assert(inside@.take(k + 1).drop_last() == inside@.take(k as int));
        }
        if inside[k] {
            positions.push(k);
            assert(positions@.map_values(|p: usize| p as int) =~= before.map_values(
                |p: usize| p as int,
            ).push(k as int));
        }
        k += 1;
    }
    assert(inside@.take(n as int) == inside@);
    positions
}

/// The chain over escape orbits, without its points.
pub struct MHOrbits {
    sample_count: i32,
    warmup: i32,
    length: i32,
    iterations: i32,
}

impl View for MHOrbits {
    type V = ChainState;

    closed spec fn view(&self) -> ChainState {
        ChainState {
            remaining: self.sample_count as int,
            warmup_left: self.warmup as int,
            length: self.length as int,
            iterations: self.iterations as int,
        }
    }
}

impl MHOrbits {
    /// A chain that stands on a first sample whose trace is `length` points
    /// long. It throws the first `warmup` accepted candidates away and then
    /// has a budget of `sample_count` samples. A warm-up below zero is no
    /// warm-up.
    pub fn new(sample_count: i32, warmup: i32, iterations: i32, length: i32) -> (r: MHOrbits)
        ensures
            r@ == (ChainState {
                remaining: sample_count as int,
                warmup_left: if warmup > 0 {
                    warmup as int
                } else {
                    0
                },
                length: length as int,
                iterations: iterations as int,
            }),
    {
        let warmup = if warmup > 0 {
            warmup
        } else {
            0
        };
        MHOrbits { sample_count, warmup, length, iterations }
    }

    /// How many samples are still to come. The warm-up does not count.
    pub fn remaining(&self) -> (r: i32)
        ensures
            r == self@.remaining,
    {
        self.sample_count
    }

    /// Whether the budget is used up.
    pub fn finished(&self) -> (r: bool)
        ensures
            r <==> self@.remaining <= 0,
    {
        if self.sample_count > 0 {
            false
        } else {
            true
        }
    }

    /// Whether the chain still throws accepted candidates away.
    pub fn warming_up(&self) -> (r: bool)
        ensures
            r <==> self@.warmup_left > 0,
    {
        self.warmup > 0
    }

    /// How many accepted candidates are still to be thrown away.
    pub fn warmup_left(&self) -> (r: i32)
        ensures
            r == self@.warmup_left,
    {
        self.warmup
    }

    /// Trace length of the sample the chain stands on.
    pub fn length(&self) -> (r: i32)
        ensures
            r == self@.length,
    {
        self.length
    }

    /// Cap on the length of every orbit.
    pub fn iterations(&self) -> (r: i32)
        ensures
            r == self@.iterations,
    {
        self.iterations
    }

    /// Takes note of an attempted transition and says what is to be done
    /// about it. An accepted candidate is thrown away while the chain warms
    /// up; after that it uses up one sample of the budget, while there is
    /// budget left. Nothing else changes the chain.
    pub fn step(&mut self, attempt: Attempt) -> (v: Verdict)
        ensures
            v == verdict_of(old(self)@, attempt),
            final(self)@ == state_after(old(self)@, attempt),
    {
        if self.warmup > 0 {
            match attempt {
                Attempt::Accepted { trace_len } => {
                    self.warmup = self.warmup - 1;
                    self.length = trace_len;
                    Verdict::Discard
                },
                _ => Verdict::Retry,
            }
        } else if self.sample_count <= 0 {
            Verdict::Exhausted
        } else {
            match attempt {
                Attempt::Accepted { trace_len } => {
                    self.sample_count = self.sample_count - 1;
                    self.length = trace_len;
                    Verdict::Emit
                },
                _ => Verdict::Retry,
            }
        }
    }
}

/// The budget never grows, and it shrinks by exactly one for each trace
/// that goes out. The warm-up shrinks by exactly one for each trace that
/// is thrown away, and costs nothing of the budget.
pub proof fn lemma_budget(state: ChainState, attempts: Seq<Attempt>)
    ensures
        state_after_all(state, attempts).remaining == state.remaining - emitted(state, attempts),
        state_after_all(state, attempts).remaining <= state.remaining,
        state_after_all(state, attempts).warmup_left == state.warmup_left - discarded(
            state,
            attempts,
        ),
        state_after_all(state, attempts).iterations == state.iterations,
        state.remaining >= 0 ==> state_after_all(state, attempts).remaining >= 0,
        state.remaining <= 0 ==> emitted(state, attempts) == 0,
        state.warmup_left >= 0 ==> state_after_all(state, attempts).warmup_left >= 0,
        state.warmup_left <= 0 ==> discarded(state, attempts) == 0,
    decreases attempts.len(),
{
    if attempts.len() > 0 {
        lemma_budget(state, attempts.drop_last());
    }
}

/// The warm-up comes first: as long as it lasts no trace goes out and the
/// budget stays as it was, and whenever a trace goes out, exactly as many
/// accepted candidates were thrown away before as the warm-up asked for.
pub proof fn lemma_warmup_first(state: ChainState, attempts: Seq<Attempt>, next: Attempt)
    requires
        state.warmup_left >= 0,
    ensures
        state_after_all(state, attempts).warmup_left > 0 ==> emitted(state, attempts) == 0
            && state_after_all(state, attempts).remaining == state.remaining,
        emitted(state, attempts) > 0 ==> discarded(state, attempts) == state.warmup_left,
        verdict_of(state_after_all(state, attempts), next) == Verdict::Emit ==> discarded(
            state,
            attempts,
        ) == state.warmup_left,
        state_after_all(state, attempts).warmup_left == 0 ==> discarded(state, attempts)
            == state.warmup_left,
    decreases attempts.len(),
{
    lemma_budget(state, attempts);
    if attempts.len() > 0 {
        lemma_warmup_first(state, attempts.drop_last(), attempts.last());
        lemma_budget(state, attempts.drop_last());
    }
}

/// A chain built for a number of samples lets exactly that many traces out:
/// never more, and once it has, it is finished and stays so, and every later
/// attempt is answered with `Exhausted` and changes nothing.
pub proof fn lemma_exhaustion(state: ChainState, attempts: Seq<Attempt>, next: Attempt)
    requires
        state.remaining >= 0,
        state.warmup_left >= 0,
    ensures
        emitted(state, attempts) <= state.remaining,
        emitted(state, attempts) == state.remaining ==> state_after_all(state, attempts).remaining
            == 0 && verdict_of(state_after_all(state, attempts), next) != Verdict::Emit,
        emitted(state, attempts) == state.remaining && state_after_all(
            state,
            attempts,
        ).warmup_left == 0 ==> verdict_of(state_after_all(state, attempts), next)
            == Verdict::Exhausted && state_after(state_after_all(state, attempts), next)
            == state_after_all(state, attempts),
        emitted(state, attempts) < state.remaining ==> state_after_all(state, attempts).remaining
            > 0,
{
    lemma_budget(state, attempts);
}

} // verus!
