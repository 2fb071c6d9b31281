//! Construction of the fixed per-pattern phase chains.
//!
//! Each pattern's chain is hand-assembled with specific ratio intervals,
//! drift ranges and duration bounds, wired together through transition
//! strategies. Patterns with an optional leading sub-phase are encoded
//! as two root phases whose probabilities sum to the pattern's prior,
//! the skipping root carrying a zero-length placeholder in its history.

use vstd::prelude::*;

use crate::factory::{ConditionalLengthNode, LengthRule, SimpleNode, TerminatorNode, Transition,
    MAX_HALF_DAYS};
use crate::node::{clone_node, views, node_wf_at, template_wf, chain_wf, opt_trans_view, Node,
    NodeV, TransitionV};
use crate::pattern::{prior_s, Pattern, lemma_prior_bounds};
use crate::rational::{mul_s, rat_one, rat_wf, lemma_mul_s_wf, Rat};

verus! {

/// A catalog constant `c` (in hundredths) scaled to the run's ratio
/// denominator `100 * base` stays small.
proof fn lemma_sc_bounds(c: int, base: int)
    by (nonlinear_arith)
    requires
        0 <= c <= 600,
        90 <= base <= 110,
    ensures
        0 <= c * base <= 66000,
        c * base <= 110 * c,
{
}

/// The root phase of the decreasing pattern: one long slide.
pub open spec fn decreasing_s(base: int, prior: Rat) -> NodeV {
    NodeV {
        pattern: Pattern::Decreasing,
        base_price: base,
        prob: prior,
        min_len: MAX_HALF_DAYS as int,
        max_len: MAX_HALF_DAYS as int,
        min_fac: 85 * base,
        max_fac: 90 * base,
        decrement: Some((3 * base, 5 * base)),
        length: 1,
        lengths: Seq::empty(),
        next_phase: Some(TransitionV::Terminator),
    }
}

/// The final increasing phase of the random pattern.
pub open spec fn random_final_s(base: int) -> NodeV {
    NodeV {
        pattern: Pattern::Random,
        base_price: base,
        prob: rat_one(),
        min_len: -1,
        max_len: -1,
        min_fac: 90 * base,
        max_fac: 140 * base,
        decrement: None,
        length: 1,
        lengths: Seq::empty(),
        next_phase: Some(TransitionV::Terminator),
    }
}

/// The second decreasing phase of the random pattern.
pub open spec fn random_dec2_s(base: int) -> NodeV {
    NodeV {
        pattern: Pattern::Random,
        base_price: base,
        prob: rat_one(),
        min_len: -1,
        max_len: -1,
        min_fac: 60 * base,
        max_fac: 80 * base,
        decrement: Some((4 * base, 10 * base)),
        length: 1,
        lengths: Seq::empty(),
        next_phase: Some(
            TransitionV::ConditionalLength(Box::new(random_final_s(base)), LengthRule::Remaining),
        ),
    }
}

/// The second increasing phase of the random pattern.
pub open spec fn random_inc2_s(base: int) -> NodeV {
    NodeV {
        pattern: Pattern::Random,
        base_price: base,
        prob: rat_one(),
        min_len: -1,
        max_len: -1,
        min_fac: 90 * base,
        max_fac: 140 * base,
        decrement: None,
        length: 1,
        lengths: Seq::empty(),
        next_phase: Some(
            TransitionV::ConditionalLength(
                Box::new(random_dec2_s(base)),
                LengthRule::SecondDecreasing,
            ),
        ),
    }
}

/// The initial decreasing phase of the random pattern, as a template
/// with unit probability.
pub open spec fn random_dec1_s(base: int) -> NodeV {
    NodeV {
        pattern: Pattern::Random,
        base_price: base,
        prob: rat_one(),
        min_len: 2,
        max_len: 3,
        min_fac: 60 * base,
        max_fac: 80 * base,
        decrement: Some((4 * base, 10 * base)),
        length: 1,
        lengths: Seq::empty(),
        next_phase: Some(
            TransitionV::ConditionalLength(
                Box::new(random_inc2_s(base)),
                LengthRule::SecondIncreasing,
            ),
        ),
    }
}

/// The two root phases of the random pattern: six sevenths of the prior
/// start in the initial increasing phase, one seventh skips it.
pub open spec fn random_roots_s(base: int, prior: Rat) -> Seq<NodeV> {
    let inc1 = NodeV {
        pattern: Pattern::Random,
        base_price: base,
        prob: mul_s(prior, Rat { num: 6, den: 7 }).unwrap(),
        min_len: 1,
        max_len: 6,
        min_fac: 90 * base,
        max_fac: 140 * base,
        decrement: None,
        length: 1,
        lengths: Seq::empty(),
        next_phase: Some(TransitionV::Simple(Box::new(random_dec1_s(base)))),
    };
    let dec1 = NodeV {
        prob: mul_s(prior, Rat { num: 1, den: 7 }).unwrap(),
        lengths: seq![0],
        ..random_dec1_s(base)
    };
    seq![inc1, dec1]
}

/// A chain of single-step phases with the given ratio intervals (in
/// hundredths), each wrapping the next through a simple transition; the
/// last carries the supplied successor.
pub open spec fn chain_s(pat: Pattern, base: int, nxt: Option<TransitionV>, factors: Seq<
    (int, int),
>) -> NodeV
    recommends
        factors.len() >= 1,
    decreases factors.len(),
{
    let f = factors.first();
    NodeV {
        pattern: pat,
        base_price: base,
        prob: rat_one(),
        min_len: 1,
        max_len: 1,
        min_fac: f.0 * base,
        max_fac: f.1 * base,
        decrement: None,
        length: 1,
        lengths: Seq::empty(),
        next_phase: if factors.len() <= 1 {
            nxt
        } else {
            Some(TransitionV::Simple(Box::new(chain_s(pat, base, nxt, factors.drop_first()))))
        },
    }
}

/// The final decreasing phase of the small-spike pattern.
pub open spec fn small_spike_final_s(base: int) -> NodeV {
    NodeV {
        pattern: Pattern::SmallSpike,
        base_price: base,
        prob: rat_one(),
        min_len: -1,
        max_len: -1,
        min_fac: 40 * base,
        max_fac: 90 * base,
        decrement: Some((3 * base, 5 * base)),
        length: 1,
        lengths: Seq::empty(),
        next_phase: Some(TransitionV::Terminator),
    }
}

/// The ratio intervals of the small spike, in hundredths.
pub open spec fn small_spike_factors_s() -> Seq<(int, int)> {
    seq![(90, 140), (90, 140), (140, 200), (140, 200), (140, 200)]
}

/// The five-step spike of the small-spike pattern.
pub open spec fn small_spike_chain_s(base: int) -> NodeV {
    chain_s(
        Pattern::SmallSpike,
        base,
        Some(
            TransitionV::ConditionalLength(
                Box::new(small_spike_final_s(base)),
                LengthRule::Remaining,
            ),
        ),
        small_spike_factors_s(),
    )
}

/// The two root phases of the small-spike pattern: seven eighths of the
/// prior start in the initial decreasing phase, one eighth skips it.
pub open spec fn small_spike_roots_s(base: int, prior: Rat) -> Seq<NodeV> {
    let dec1 = NodeV {
        pattern: Pattern::SmallSpike,
        base_price: base,
        prob: mul_s(prior, Rat { num: 7, den: 8 }).unwrap(),
        min_len: 1,
        max_len: 7,
        min_fac: 40 * base,
        max_fac: 90 * base,
        decrement: Some((3 * base, 5 * base)),
        length: 1,
        lengths: Seq::empty(),
        next_phase: Some(TransitionV::Simple(Box::new(small_spike_chain_s(base)))),
    };
    let spike = NodeV {
        prob: mul_s(prior, Rat { num: 1, den: 8 }).unwrap(),
        lengths: seq![0],
        ..small_spike_chain_s(base)
    };
    seq![dec1, spike]
}

/// The final decreasing phase of the large-spike pattern.
pub open spec fn large_spike_final_s(base: int) -> NodeV {
    NodeV {
        pattern: Pattern::LargeSpike,
        base_price: base,
        prob: rat_one(),
        min_len: -1,
        max_len: -1,
        min_fac: 40 * base,
        max_fac: 90 * base,
        decrement: None,
        length: 1,
        lengths: Seq::empty(),
        next_phase: Some(TransitionV::Terminator),
    }
}

/// The ratio intervals of the large spike, in hundredths.
pub open spec fn large_spike_factors_s() -> Seq<(int, int)> {
    seq![(90, 140), (140, 200), (200, 600), (140, 200), (90, 140)]
}

/// The root phase of the large-spike pattern.
pub open spec fn large_spike_s(base: int, prior: Rat) -> NodeV {
    NodeV {
        pattern: Pattern::LargeSpike,
        base_price: base,
        prob: prior,
        min_len: 1,
        max_len: 7,
        min_fac: 85 * base,
        max_fac: 90 * base,
        decrement: Some((3 * base, 5 * base)),
        length: 1,
        lengths: Seq::empty(),
        next_phase: Some(
            TransitionV::Simple(
                Box::new(
                    chain_s(
                        Pattern::LargeSpike,
                        base,
                        Some(
                            TransitionV::ConditionalLength(
                                Box::new(large_spike_final_s(base)),
                                LengthRule::Remaining,
                            ),
                        ),
                        large_spike_factors_s(),
                    ),
                ),
            ),
        ),
    }
}

/// The full root set of a run: every pattern's root phases in catalog
/// order, or nothing where the base price is outside its valid range.
pub open spec fn new_set_s(base: u32, prev: Option<Pattern>) -> Seq<NodeV> {
    if base < 90 || base > 110 {
        Seq::empty()
    } else {
        let b = base as int;
        seq![decreasing_s(b, prior_s(Pattern::Decreasing, prev))] + random_roots_s(
            b,
            prior_s(Pattern::Random, prev),
        ) + small_spike_roots_s(b, prior_s(Pattern::SmallSpike, prev)) + seq![
            large_spike_s(b, prior_s(Pattern::LargeSpike, prev)),
        ]
    }
}

/// A chain of single-step phases is a well-formed template, given a
/// well-formed tail.
proof fn lemma_chain_s_wf(pat: Pattern, base: int, nxt: Option<TransitionV>, factors: Seq<
    (int, int),
>)
    requires
        90 <= base <= 110,
        factors.len() >= 1,
        forall|i: int|
            0 <= i < factors.len() ==> 0 <= (#[trigger] factors[i]).0 <= 600 && 0 <= factors[i].1
                <= 600,
        chain_wf(pat, base, nxt),
    ensures
        template_wf(pat, base, chain_s(pat, base, nxt, factors)),
    decreases factors.len(),
{
    lemma_sc_bounds(factors.first().0, base);
    lemma_sc_bounds(factors.first().1, base);
    if factors.len() > 1 {
        lemma_chain_s_wf(pat, base, nxt, factors.drop_first());
    }
}

/// Every root phase is well formed at step zero, and the root set holds
/// six phases in catalog order exactly where the base price is valid.
pub proof fn lemma_new_set_wf(base: u32, prev: Option<Pattern>)
    ensures
        forall|i: int|
            0 <= i < new_set_s(base, prev).len() ==> node_wf_at(
                #[trigger] new_set_s(base, prev)[i],
                0,
            ),
        new_set_s(base, prev).len() == if 90 <= base <= 110 {
            6int
        } else {
            0int
        },
        90 <= base <= 110 ==> {
            &&& new_set_s(base, prev)[0].pattern == Pattern::Decreasing
            &&& new_set_s(base, prev)[1].pattern == Pattern::Random
            &&& new_set_s(base, prev)[2].pattern == Pattern::Random
            &&& new_set_s(base, prev)[3].pattern == Pattern::SmallSpike
            &&& new_set_s(base, prev)[4].pattern == Pattern::SmallSpike
            &&& new_set_s(base, prev)[5].pattern == Pattern::LargeSpike
        },
{
    if 90 <= base && base <= 110 {
        let b = base as int;
        lemma_prior_bounds(Pattern::Decreasing, prev);
        lemma_prior_bounds(Pattern::Random, prev);
        lemma_prior_bounds(Pattern::SmallSpike, prev);
        lemma_prior_bounds(Pattern::LargeSpike, prev);
        lemma_sc_bounds(3, b);
        lemma_sc_bounds(4, b);
        lemma_sc_bounds(5, b);
        lemma_sc_bounds(10, b);
        lemma_sc_bounds(40, b);
        lemma_sc_bounds(60, b);
        lemma_sc_bounds(80, b);
        lemma_sc_bounds(85, b);
        lemma_sc_bounds(90, b);
        lemma_sc_bounds(140, b);
        lemma_sc_bounds(200, b);
        lemma_sc_bounds(600, b);
        let p_r = prior_s(Pattern::Random, prev);
        let p_s = prior_s(Pattern::SmallSpike, prev);
        assert(p_r.num * 1 == p_r.num && p_s.num * 1 == p_s.num) by (nonlinear_arith);
        lemma_mul_s_wf(p_r, Rat { num: 6, den: 7 });
        lemma_mul_s_wf(p_r, Rat { num: 1, den: 7 });
        lemma_mul_s_wf(p_s, Rat { num: 7, den: 8 });
        lemma_mul_s_wf(p_s, Rat { num: 1, den: 8 });
        assert(template_wf(Pattern::Random, b, random_final_s(b)));
        assert(template_wf(Pattern::Random, b, random_dec2_s(b)));
        assert(template_wf(Pattern::Random, b, random_inc2_s(b)));
        assert(template_wf(Pattern::Random, b, random_dec1_s(b)));
        assert(template_wf(Pattern::SmallSpike, b, small_spike_final_s(b)));
        assert(template_wf(Pattern::LargeSpike, b, large_spike_final_s(b)));
        lemma_chain_s_wf(
            Pattern::SmallSpike,
            b,
            Some(
                TransitionV::ConditionalLength(
                    Box::new(small_spike_final_s(b)),
                    LengthRule::Remaining,
                ),
            ),
            small_spike_factors_s(),
        );
        lemma_chain_s_wf(
            Pattern::LargeSpike,
            b,
            Some(
                TransitionV::ConditionalLength(
                    Box::new(large_spike_final_s(b)),
                    LengthRule::Remaining,
                ),
            ),
            large_spike_factors_s(),
        );
        assert(node_wf_at(new_set_s(base, prev)[0], 0));
        assert(node_wf_at(new_set_s(base, prev)[1], 0));
        assert(node_wf_at(new_set_s(base, prev)[2], 0));
        assert(node_wf_at(new_set_s(base, prev)[3], 0));
        assert(node_wf_at(new_set_s(base, prev)[4], 0));
        assert(node_wf_at(new_set_s(base, prev)[5], 0));
    }
}

impl Node {
    /// Build the fixed chain shared by the spike patterns.
    fn chain(pattern: Pattern, base_price: u32, next_phase: Option<Box<Transition>>, factors: &Vec<
        (i64, i64),
    >) -> (r: Node)
        requires
            90 <= base_price <= 110,
            factors@.len() >= 1,
            forall|i: int|
                0 <= i < factors@.len() ==> 0 <= (#[trigger] factors@[i]).0 <= 600 && 0
                    <= factors@[i].1 <= 600,
        ensures
            r@ == chain_s(
                pattern,
                base_price as int,
                opt_trans_view(next_phase),
                factors@.map_values(|p: (i64, i64)| (p.0 as int, p.1 as int)),
            ),
    {
        let ghost m = factors@.map_values(|p: (i64, i64)| (p.0 as int, p.1 as int));
        let ghost nxtv = opt_trans_view(next_phase);
        let mut i: usize = factors.len() - 1;
        let f = factors[i];
        proof {
            lemma_sc_bounds(f.0 as int, base_price as int);
            lemma_sc_bounds(f.1 as int, base_price as int);
        }
        let mut node = Node {
            pattern,
            base_price,
            prob: Rat { num: 1, den: 1 },
            min_len: 1,
            max_len: 1,
            min_fac: f.0 * (base_price as i64),
            max_fac: f.1 * (base_price as i64),
            decrement: None,
            length: 1,
            lengths: Vec::new(),
            next_phase,
        };
        proof {
            assert(node@.lengths =~= Seq::<int>::empty());
            assert(m.skip(i as int).len() == 1);
            assert(m.skip(i as int).first() == m[i as int]);
            assert(node@ == chain_s(pattern, base_price as int, nxtv, m.skip(i as int)));
        }
        while i > 0
            invariant
                0 <= i < factors@.len(),
                90 <= base_price <= 110,
                forall|j: int|
                    0 <= j < factors@.len() ==> 0 <= (#[trigger] factors@[j]).0 <= 600 && 0
                        <= factors@[j].1 <= 600,
                m == factors@.map_values(|p: (i64, i64)| (p.0 as int, p.1 as int)),
                node@ == chain_s(pattern, base_price as int, nxtv, m.skip(i as int)),
            decreases i,
        {
            i = i - 1;
            let f = factors[i];
            proof {
                lemma_sc_bounds(f.0 as int, base_price as int);
                lemma_sc_bounds(f.1 as int, base_price as int);
            }
            node = Node {
                pattern,
                base_price,
                prob: Rat { num: 1, den: 1 },
                min_len: 1,
                max_len: 1,
                min_fac: f.0 * (base_price as i64),
                max_fac: f.1 * (base_price as i64),
                decrement: None,
                length: 1,
                lengths: Vec::new(),
                next_phase: SimpleNode::new(node),
            };
            proof {
                assert(node@.lengths =~= Seq::<int>::empty());
                assert(m.skip(i as int).drop_first() =~= m.skip(i as int + 1));
                assert(m.skip(i as int).len() > 1);
                assert(m.skip(i as int).first() == m[i as int]);
                assert(node@ == chain_s(pattern, base_price as int, nxtv, m.skip(i as int)));
            }
        }
        proof {
            assert(m.skip(0) =~= m);
        }
        node
    }

    /// Build the decreasing pattern's root phase.
    fn decreasing(base_price: u32, prior: Rat) -> (r: Node)
        requires
            90 <= base_price <= 110,
        ensures
            r@ == decreasing_s(base_price as int, prior),
    {
        proof {
            lemma_sc_bounds(85, base_price as int);
            lemma_sc_bounds(90, base_price as int);
            lemma_sc_bounds(3, base_price as int);
            lemma_sc_bounds(5, base_price as int);
        }
        let b = base_price as i64;
        let r = Node {
            pattern: Pattern::Decreasing,
            base_price,
            prob: prior,
            min_len: MAX_HALF_DAYS,
            max_len: MAX_HALF_DAYS,
            min_fac: 85 * b,
            max_fac: 90 * b,
            decrement: Some((3 * b, 5 * b)),
            length: 1,
            lengths: Vec::new(),
            next_phase: TerminatorNode::new(),
        };
        proof {
            assert(r@.lengths =~= Seq::<int>::empty());
        }
        r
    }

    /// Build the random pattern's two root phases.
    fn random(base_price: u32, prior: Rat) -> (r: (Node, Node))
        requires
            90 <= base_price <= 110,
            rat_wf(prior),
            prior.num <= 16,
            prior.den <= 32,
        ensures
            views(seq![r.0, r.1]) == random_roots_s(base_price as int, prior),
    {
        proof {
            lemma_sc_bounds(60, base_price as int);
            lemma_sc_bounds(80, base_price as int);
            lemma_sc_bounds(90, base_price as int);
            lemma_sc_bounds(140, base_price as int);
            lemma_sc_bounds(4, base_price as int);
            lemma_sc_bounds(10, base_price as int);
        }
        let b = base_price as i64;
        let final_increasing = Node {
            pattern: Pattern::Random,
            base_price,
            prob: Rat { num: 1, den: 1 },
            min_len: -1,  // Overwritten on transition by the duration rule.
            max_len: -1,
            min_fac: 90 * b,
            max_fac: 140 * b,
            decrement: None,
            length: 1,
            lengths: Vec::new(),
            next_phase: TerminatorNode::new(),
        };
        proof {
            assert(final_increasing@.lengths =~= Seq::<int>::empty());
            assert(final_increasing@ == random_final_s(base_price as int));
        }
        let second_decreasing = Node {
            pattern: Pattern::Random,
            base_price,
            prob: Rat { num: 1, den: 1 },
            min_len: -1,
            max_len: -1,
            min_fac: 60 * b,
            max_fac: 80 * b,
            decrement: Some((4 * b, 10 * b)),
            length: 1,
            lengths: Vec::new(),
            next_phase: ConditionalLengthNode::new(final_increasing, LengthRule::Remaining),
        };
        proof {
            assert(second_decreasing@.lengths =~= Seq::<int>::empty());
            assert(second_decreasing@ == random_dec2_s(base_price as int));
        }
        let second_increasing = Node {
            pattern: Pattern::Random,
            base_price,
            prob: Rat { num: 1, den: 1 },
            min_len: -1,
            max_len: -1,
            min_fac: 90 * b,
            max_fac: 140 * b,
            decrement: None,
            length: 1,
            lengths: Vec::new(),
            next_phase: ConditionalLengthNode::new(second_decreasing, LengthRule::SecondDecreasing),
        };
        proof {
            assert(second_increasing@.lengths =~= Seq::<int>::empty());
            assert(second_increasing@ == random_inc2_s(base_price as int));
        }
        let initial_decreasing = Node {
            pattern: Pattern::Random,
            base_price,
            prob: Rat { num: 1, den: 1 },
            min_len: 2,
            max_len: 3,
            min_fac: 60 * b,
            max_fac: 80 * b,
            decrement: Some((4 * b, 10 * b)),
            length: 1,
            lengths: Vec::new(),
            next_phase: ConditionalLengthNode::new(second_increasing, LengthRule::SecondIncreasing),
        };
        proof {
            assert(initial_decreasing@.lengths =~= Seq::<int>::empty());
            assert(initial_decreasing@ == random_dec1_s(base_price as int));
        }
        let template = clone_node(&initial_decreasing);
        let p_inc = prior.mul(Rat { num: 6, den: 7 });
        let p_dec = prior.mul(Rat { num: 1, den: 7 });
        proof {
            assert(p_inc is Some && p_dec is Some);
        }
        let initial_increasing = Node {
            pattern: Pattern::Random,
            base_price,
            prob: p_inc.unwrap(),  // Six sevenths chance for this phase to occur.
            min_len: 1,
            max_len: 6,
            min_fac: 90 * b,
            max_fac: 140 * b,
            decrement: None,
            length: 1,
            lengths: Vec::new(),
            next_phase: SimpleNode::new(template),
        };
        // One seventh chance to skip the first phase and start here; the
        // skipped phase conceptually happened with length zero.
        let mut skip_lengths: Vec<i32> = Vec::new();
        skip_lengths.push(0);
        let initial_decreasing = Node {
            prob: p_dec.unwrap(),
            lengths: skip_lengths,
            ..initial_decreasing
        };
        proof {
            assert(initial_increasing@.lengths =~= Seq::<int>::empty());
            assert(initial_decreasing@.lengths =~= seq![0int]);
            assert(views(seq![initial_increasing, initial_decreasing]) =~= random_roots_s(
                base_price as int,
                prior,
            ));
        }
        (initial_increasing, initial_decreasing)
    }

    /// Build the small-spike pattern's two root phases.
    fn small_spike(base_price: u32, prior: Rat) -> (r: (Node, Node))
        requires
            90 <= base_price <= 110,
            rat_wf(prior),
            prior.num <= 16,
            prior.den <= 32,
        ensures
            views(seq![r.0, r.1]) == small_spike_roots_s(base_price as int, prior),
    {
        proof {
            lemma_sc_bounds(40, base_price as int);
            lemma_sc_bounds(90, base_price as int);
            lemma_sc_bounds(3, base_price as int);
            lemma_sc_bounds(5, base_price as int);
        }
        let b = base_price as i64;
        let final_decreasing = Node {
            pattern: Pattern::SmallSpike,
            base_price,
            prob: Rat { num: 1, den: 1 },
            min_len: -1,
            max_len: -1,
            min_fac: 40 * b,
            max_fac: 90 * b,
            decrement: Some((3 * b, 5 * b)),
            length: 1,
            lengths: Vec::new(),
            next_phase: TerminatorNode::new(),
        };
        proof {
            assert(final_decreasing@.lengths =~= Seq::<int>::empty());
            assert(final_decreasing@ == small_spike_final_s(base_price as int));
        }
        let mut factors: Vec<(i64, i64)> = Vec::new();
        factors.push((90, 140));
        factors.push((90, 140));
        factors.push((140, 200));
        factors.push((140, 200));
        factors.push((140, 200));
        proof {
            assert(factors@.map_values(|p: (i64, i64)| (p.0 as int, p.1 as int))
                =~= small_spike_factors_s());
        }
        let spike = Node::chain(
            Pattern::SmallSpike,
            base_price,
            ConditionalLengthNode::new(final_decreasing, LengthRule::Remaining),
            &factors,
        );
        proof {
            assert(spike@ == small_spike_chain_s(base_price as int));
        }
        let template = clone_node(&spike);
        let p_dec = prior.mul(Rat { num: 7, den: 8 });
        let p_spike = prior.mul(Rat { num: 1, den: 8 });
        proof {
            assert(p_dec is Some && p_spike is Some);
        }
        let initial_decreasing = Node {
            pattern: Pattern::SmallSpike,
            base_price,
            prob: p_dec.unwrap(),  // Seven eighths chance for this phase to occur.
            min_len: 1,
            max_len: 7,
            min_fac: 40 * b,
            max_fac: 90 * b,
            decrement: Some((3 * b, 5 * b)),
            length: 1,
            lengths: Vec::new(),
            next_phase: SimpleNode::new(template),
        };
        // One eighth chance to skip the first phase and start here.
        let mut skip_lengths: Vec<i32> = Vec::new();
        skip_lengths.push(0);
        let spike = Node { prob: p_spike.unwrap(), lengths: skip_lengths, ..spike };
        proof {
            assert(initial_decreasing@.lengths =~= Seq::<int>::empty());
            assert(spike@.lengths =~= seq![0int]);
            assert(views(seq![initial_decreasing, spike]) =~= small_spike_roots_s(
                base_price as int,
                prior,
            ));
        }
        (initial_decreasing, spike)
    }

    /// Build the large-spike pattern's root phase.
    fn large_spike(base_price: u32, prior: Rat) -> (r: Node)
        requires
            90 <= base_price <= 110,
        ensures
            r@ == large_spike_s(base_price as int, prior),
    {
        proof {
            lemma_sc_bounds(40, base_price as int);
            lemma_sc_bounds(85, base_price as int);
            lemma_sc_bounds(90, base_price as int);
            lemma_sc_bounds(3, base_price as int);
            lemma_sc_bounds(5, base_price as int);
        }
        let b = base_price as i64;
        let final_decreasing = Node {
            pattern: Pattern::LargeSpike,
            base_price,
            prob: Rat { num: 1, den: 1 },
            min_len: -1,
            max_len: -1,
            min_fac: 40 * b,
            max_fac: 90 * b,
            decrement: None,
            length: 1,
            lengths: Vec::new(),
            next_phase: TerminatorNode::new(),
        };
        proof {
            assert(final_decreasing@.lengths =~= Seq::<int>::empty());
            assert(final_decreasing@ == large_spike_final_s(base_price as int));
        }
        let mut factors: Vec<(i64, i64)> = Vec::new();
        factors.push((90, 140));
        factors.push((140, 200));
        factors.push((200, 600));
        factors.push((140, 200));
        factors.push((90, 140));
        proof {
            assert(factors@.map_values(|p: (i64, i64)| (p.0 as int, p.1 as int))
                =~= large_spike_factors_s());
        }
        let spike = Node::chain(
            Pattern::LargeSpike,
            base_price,
            ConditionalLengthNode::new(final_decreasing, LengthRule::Remaining),
            &factors,
        );
        let initial_decreasing = Node {
            pattern: Pattern::LargeSpike,
            base_price,
            prob: prior,
            min_len: 1,
            max_len: 7,
            min_fac: 85 * b,
            max_fac: 90 * b,
            decrement: Some((3 * b, 5 * b)),
            length: 1,
            lengths: Vec::new(),
            next_phase: SimpleNode::new(spike),
        };
        proof {
            assert(initial_decreasing@.lengths =~= Seq::<int>::empty());
            assert(initial_decreasing@ == large_spike_s(base_price as int, prior));
        }
        initial_decreasing
    }

    /// Get a fresh collection of starting nodes, representing all
    /// patterns; empty where the base price is outside its valid range.
    pub fn new_set(base_price: u32, prev_pattern: Option<Pattern>) -> (r: Vec<Node>)
        ensures
            views(r@) == new_set_s(base_price, prev_pattern),
            r@.len() == new_set_s(base_price, prev_pattern).len(),
    {
        // Sanity-check the base price.
        if base_price < 90 || base_price > 110 {
            let r: Vec<Node> = Vec::new();
            proof {
                assert(views(r@) =~= new_set_s(base_price, prev_pattern));
            }
            return r;
        }
        proof {
            lemma_prior_bounds(Pattern::Decreasing, prev_pattern);
            lemma_prior_bounds(Pattern::Random, prev_pattern);
            lemma_prior_bounds(Pattern::SmallSpike, prev_pattern);
            lemma_prior_bounds(Pattern::LargeSpike, prev_pattern);
        }
        let mut nodes: Vec<Node> = Vec::new();
        nodes.push(Node::decreasing(base_price, Pattern::Decreasing.prior(prev_pattern)));
        let (r0, r1) = Node::random(base_price, Pattern::Random.prior(prev_pattern));
        nodes.push(r0);
        nodes.push(r1);
        let (s0, s1) = Node::small_spike(base_price, Pattern::SmallSpike.prior(prev_pattern));
        nodes.push(s0);
        nodes.push(s1);
        nodes.push(Node::large_spike(base_price, Pattern::LargeSpike.prior(prev_pattern)));
        proof {
            assert(views(nodes@) =~= new_set_s(base_price, prev_pattern));
        }
        nodes
    }
}

} // verus!
