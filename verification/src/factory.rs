//! Transition strategies: what happens after a phase ends.
//!
//! The closed set of strategies is a tagged enum. A `SimpleNode` copies a
//! template successor phase unchanged; a `ConditionalLengthNode`
//! additionally recomputes the successor's duration bounds from the
//! phase-length history through a named [`LengthRule`]; a `TerminatorNode`
//! produces a sentinel end-of-chain phase.

use vstd::prelude::*;

use crate::node::{Node, TransitionV, trans_view};

verus! {

/// The number of observation slots in one run: half-days in the period.
pub const MAX_HALF_DAYS: i32 = 12;

/// The closed set of duration rules a `ConditionalLengthNode` may apply
/// to the phase-length history.
#[derive(Debug, Copy, Clone, PartialEq, Eq, Structural)]
pub enum LengthRule {
    /// The successor lasts exactly the half-days not yet used.
    Remaining,
    /// The second decreasing phase lasts five half-days minus the first
    /// decreasing phase's length (recorded at index one), which must have
    /// been two or three.
    SecondDecreasing,
    /// The second increasing phase lasts between one half-day and seven
    /// minus the first increasing phase's length (recorded at index
    /// zero), which must have been at most six.
    SecondIncreasing,
}

/// Copies a template successor phase, passing on probability and the
/// phase-length history.
pub struct SimpleNode {
    pub after: Node,
}

/// Copies a template successor phase and recomputes its duration bounds
/// from the phase-length history.
pub struct ConditionalLengthNode {
    pub after: Node,
    pub rule: LengthRule,
}

/// Terminates a chain: produces a sentinel phase whose own successor is
/// absent, so that walking past the end of a chain is detected.
pub struct TerminatorNode;

/// A transition strategy, dispatched by tag.
pub enum Transition {
    Simple(SimpleNode),
    ConditionalLength(ConditionalLengthNode),
    Terminator(TerminatorNode),
}

impl SimpleNode {
    /// Wrap a successor phase template.
    pub fn new(after: Node) -> (r: Option<Box<Transition>>)
        ensures
            r is Some,
            trans_view(*r.unwrap()) == TransitionV::Simple(Box::new(after@)),
    {
        Some(Box::new(Transition::Simple(SimpleNode { after })))
    }
}

impl ConditionalLengthNode {
    /// Wrap a successor phase template together with its duration rule.
    pub fn new(after: Node, rule: LengthRule) -> (r: Option<Box<Transition>>)
        ensures
            r is Some,
            trans_view(*r.unwrap()) == TransitionV::ConditionalLength(Box::new(after@), rule),
    {
        Some(Box::new(Transition::ConditionalLength(ConditionalLengthNode { after, rule })))
    }
}

impl TerminatorNode {
    /// A terminator transition.
    pub fn new() -> (r: Option<Box<Transition>>)
        ensures
            r is Some,
            trans_view(*r.unwrap()) == TransitionV::Terminator,
    {
        Some(Box::new(Transition::Terminator(TerminatorNode)))
    }
}

/// The sum of a sequence of phase lengths.
pub open spec fn sum_seq(s: Seq<int>) -> int
    decreases s.len(),
{
    if s.len() == 0 {
        0
    } else {
        sum_seq(s.drop_last()) + s.last()
    }
}

/// The sum of a sequence is bounded by its length times the bounds of
/// its entries.
pub proof fn lemma_sum_seq_bounds(s: Seq<int>, lo: int, hi: int)
    requires
        forall|i: int| 0 <= i < s.len() ==> lo <= #[trigger] s[i] <= hi,
        lo <= 0 <= hi,
    ensures
        s.len() * lo <= sum_seq(s) <= s.len() * hi,
    decreases s.len(),
{
    if s.len() == 0 {
    } else {
        lemma_sum_seq_bounds(s.drop_last(), lo, hi);
        assert((s.len() - 1) * lo + lo == s.len() * lo) by (nonlinear_arith);
        assert((s.len() - 1) * hi + hi == s.len() * hi) by (nonlinear_arith);
    }
}

/// What a duration rule yields on a phase-length history, or the
/// internal-error report where the history cannot have come from a
/// well-built chain.
pub open spec fn rule_eval_s(rule: LengthRule, lengths: Seq<int>) -> Result<(int, int), CalcError> {
    match rule {
        LengthRule::Remaining => {
            let r = MAX_HALF_DAYS - sum_seq(lengths);
            Ok((r, r))
        },
        LengthRule::SecondDecreasing => {
            if lengths.len() < 2 {
                Err(CalcError::Internal)
            } else if lengths[1] == 2 || lengths[1] == 3 {
                Ok((5 - lengths[1], 5 - lengths[1]))
            } else {
                Err(CalcError::Internal)
            }
        },
        LengthRule::SecondIncreasing => {
            if lengths.len() < 1 {
                Err(CalcError::Internal)
            } else if 0 <= lengths[0] <= 6 {
                Ok((1, 7 - lengths[0]))
            } else {
                Err(CalcError::Internal)
            }
        },
    }
}

/// How a run can fail.
///
/// `Internal` reports an internal invariant violation: the walk reached a
/// terminator's absent successor, or a phase-length history that no
/// well-built chain produces. `Capacity` reports that an exact
/// intermediate value did not fit in 128 bits.
#[derive(Debug, Copy, Clone, PartialEq, Eq, Structural)]
pub enum CalcError {
    Internal,
    Capacity,
}

/// Calculate the remaining number of half-days after the given
/// phase lengths, as an exact duration pair.
pub fn remaining_length(lengths: &Vec<i32>) -> (r: (i32, i32))
    requires
        lengths@.len() <= 64,
        forall|i: int| 0 <= i < lengths@.len() ==> 0 <= #[trigger] lengths@[i] <= 64,
    ensures
        r.0 == MAX_HALF_DAYS - sum_seq(lengths@.map_values(|v: i32| v as int)),
        r.1 == r.0,
{
    let ghost m = lengths@.map_values(|v: i32| v as int);
    let mut total: i32 = 0;
    let mut i: usize = 0;
    while i < lengths.len()
        invariant
            0 <= i <= lengths@.len(),
            lengths@.len() <= 64,
            forall|j: int| 0 <= j < lengths@.len() ==> 0 <= #[trigger] lengths@[j] <= 64,
            m == lengths@.map_values(|v: i32| v as int),
            total == sum_seq(m.take(i as int)),
            0 <= total <= i * 64,
        decreases lengths@.len() - i,
    {
        proof {
            assert(m.take(i + 1).drop_last() =~= m.take(i as int));
            assert(m.take(i + 1).last() == m[i as int]);
            lemma_sum_seq_bounds(m.take(i + 1), 0, 64);
            assert((i + 1) * 64 == i * 64 + 64) by (nonlinear_arith);
        }
        total = total + lengths[i];
        i = i + 1;
    }
    proof {
        assert(m.take(lengths@.len() as int) =~= m);
    }
    let remaining = MAX_HALF_DAYS - total;
    (remaining, remaining)
}

/// Evaluate a duration rule on a phase-length history.
pub fn rule_eval(rule: LengthRule, lengths: &Vec<i32>) -> (r: Result<(i32, i32), CalcError>)
    requires
        lengths@.len() <= 64,
        forall|i: int| 0 <= i < lengths@.len() ==> 0 <= #[trigger] lengths@[i] <= 64,
    ensures
        ({
            let m = rule_eval_s(rule, lengths@.map_values(|v: i32| v as int));
            &&& (r is Ok <==> m is Ok)
            &&& (r is Ok ==> (r->Ok_0.0 == m->Ok_0.0 && r->Ok_0.1 == m->Ok_0.1))
            &&& (r is Err ==> r->Err_0 == m->Err_0)
        }),
{
    let ghost m = lengths@.map_values(|v: i32| v as int);
    match rule {
        LengthRule::Remaining => Ok(remaining_length(lengths)),
        LengthRule::SecondDecreasing => {
            if lengths.len() < 2 {
                Err(CalcError::Internal)
            } else {
                let l = lengths[1];
                proof {
                    assert(m[1] == lengths@[1]);
                }
                if l == 2 || l == 3 {
                    Ok((5 - l, 5 - l))
                } else {
                    Err(CalcError::Internal)
                }
            }
        },
        LengthRule::SecondIncreasing => {
            if lengths.len() < 1 {
                Err(CalcError::Internal)
            } else {
                let l = lengths[0];
                proof {
                    assert(m[0] == lengths@[0]);
                }
                if 0 <= l && l <= 6 {
                    Ok((1, 7 - l))
                } else {
                    Err(CalcError::Internal)
                }
            }
        },
    }
}

} // verus!
