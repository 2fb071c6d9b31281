//! A node in a pattern tree.
//!
//! To avoid spelling out the entire tree for each pattern, one value
//! represents a whole phase: an episode with one price-ratio interval
//! rule and one duration rule. A node continues to others in the same
//! phase through `next`, or to the next phase through `after`, which
//! dispatches on the contained transition strategy.
//!
//! Price ratios are held exactly: a bound `f` stands for the ratio
//! `f / (100 * base_price)`, so the catalog's two-decimal constants and
//! the bounds implied by an integer price are both integers.

use vstd::prelude::*;

use crate::factory::{
    CalcError, LengthRule, Transition, ConditionalLengthNode, SimpleNode, TerminatorNode,
    rule_eval, rule_eval_s,
};
use crate::pattern::Pattern;
use crate::rational::{Rat, rat_wf, rat_one, mul_s, new_s, norm_s, lemma_norm_wf, lemma_mul_pos};

verus! {

/// One phase of one pattern-in-progress.
pub struct Node {
    /// The pattern this node belongs to.
    pub pattern: Pattern,
    /// The base (reference) price.
    pub base_price: u32,
    /// Accumulated likelihood mass of the path reaching this node.
    pub prob: Rat,
    /// Minimum remaining length of this phase before the next one.
    pub min_len: i32,
    /// Maximum remaining length of this phase before the next one.
    pub max_len: i32,
    /// Lower bound of the valid price ratio, scaled by `100 * base_price`.
    pub min_fac: i64,
    /// Upper bound of the valid price ratio, scaled by `100 * base_price`.
    pub max_fac: i64,
    /// Optional per-step drift `(min, max)` subtracted from the ratio
    /// bounds, in the same scale.
    pub decrement: Option<(i64, i64)>,
    /// Steps elapsed within this phase so far.
    pub length: i32,
    /// The lengths of all completed phases, in order.
    pub lengths: Vec<i32>,
    /// The transition strategy producing the phase after this one;
    /// absent only on the sentinel phase a terminator produces.
    pub next_phase: Option<Box<Transition>>,
}

/// The mathematical value of a [`Node`].
pub struct NodeV {
    pub pattern: Pattern,
    pub base_price: int,
    pub prob: Rat,
    pub min_len: int,
    pub max_len: int,
    pub min_fac: int,
    pub max_fac: int,
    pub decrement: Option<(int, int)>,
    pub length: int,
    pub lengths: Seq<int>,
    pub next_phase: Option<TransitionV>,
}

/// The mathematical value of a [`Transition`].
pub enum TransitionV {
    Simple(Box<NodeV>),
    ConditionalLength(Box<NodeV>, LengthRule),
    Terminator,
}

/// The value of a drift range.
pub open spec fn dec_view(d: Option<(i64, i64)>) -> Option<(int, int)> {
    match d {
        None => None,
        Some((a, b)) => Some((a as int, b as int)),
    }
}

/// The value of a node.
pub open spec fn node_view(n: Node) -> NodeV
    decreases n,
{
    NodeV {
        pattern: n.pattern,
        base_price: n.base_price as int,
        prob: n.prob,
        min_len: n.min_len as int,
        max_len: n.max_len as int,
        min_fac: n.min_fac as int,
        max_fac: n.max_fac as int,
        decrement: dec_view(n.decrement),
        length: n.length as int,
        lengths: n.lengths@.map_values(|v: i32| v as int),
        next_phase: opt_trans_view(n.next_phase),
    }
}

/// The value of an optional transition strategy.
pub open spec fn opt_trans_view(t: Option<Box<Transition>>) -> Option<TransitionV>
    decreases t,
{
    match t {
        None => None,
        Some(b) => Some(trans_view(*b)),
    }
}

/// The value of a transition strategy.
pub open spec fn trans_view(t: Transition) -> TransitionV
    decreases t,
{
    match t {
        Transition::Simple(s) => TransitionV::Simple(Box::new(node_view(s.after))),
        Transition::ConditionalLength(c) => TransitionV::ConditionalLength(
            Box::new(node_view(c.after)),
            c.rule,
        ),
        Transition::Terminator(_) => TransitionV::Terminator,
    }
}

impl View for Node {
    type V = NodeV;

    open spec fn view(&self) -> NodeV {
        node_view(*self)
    }
}

/// The values of a sequence of nodes.
pub open spec fn views(s: Seq<Node>) -> Seq<NodeV> {
    s.map_values(|n: Node| n@)
}

/// Bound on drift-range entries.
pub open spec fn dec_wf(d: Option<(int, int)>) -> bool {
    match d {
        None => true,
        Some((a, b)) => 0 <= a <= 4096 && 0 <= b <= 4096,
    }
}

/// Bound on the ratio bounds of a node `k` steps into a run: drift can
/// have moved them by at most `4096` per step from a price-implied or
/// catalog value.
pub open spec fn fac_limit(k: int) -> int {
    0x8000_0000_0000 + k * 4096
}

/// Well-formedness of a successor-phase template: it belongs to the same
/// pattern and base price as the chain it stands in, carries unit
/// probability and an empty history, and its own chain is well formed.
pub open spec fn template_wf(pat: Pattern, base: int, t: NodeV) -> bool
    decreases t,
{
    &&& t.pattern == pat
    &&& t.base_price == base
    &&& t.prob == rat_one()
    &&& 0 <= t.length <= 1
    &&& t.lengths.len() == 0
    &&& -1 <= t.min_len <= 13
    &&& -1 <= t.max_len <= 13
    &&& -fac_limit(0) <= t.min_fac <= fac_limit(0)
    &&& -fac_limit(0) <= t.max_fac <= fac_limit(0)
    &&& dec_wf(t.decrement)
    &&& chain_wf(pat, base, t.next_phase)
}

/// Well-formedness of the chain hanging off a node.
pub open spec fn chain_wf(pat: Pattern, base: int, nt: Option<TransitionV>) -> bool
    decreases nt,
{
    match nt {
        None => true,
        Some(TransitionV::Simple(b)) => template_wf(pat, base, *b),
        Some(TransitionV::ConditionalLength(b, _)) => template_wf(pat, base, *b),
        Some(TransitionV::Terminator) => true,
    }
}

/// Well-formedness of a node that stands in the live set after `k`
/// advancement steps. All numeric bounds are what the fixed catalog and
/// at most `k` steps of evolution can produce; they make every
/// executable computation on the node free of overflow.
pub open spec fn node_wf_at(n: NodeV, k: int) -> bool {
    &&& 90 <= n.base_price <= 110
    &&& rat_wf(n.prob)
    &&& 0 <= n.length <= k + 1
    &&& n.lengths.len() <= k + 2
    &&& (forall|i: int| 0 <= i < n.lengths.len() ==> 0 <= #[trigger] n.lengths[i] <= 13)
    &&& -200 - k <= n.min_len <= 13
    &&& -200 - k <= n.max_len <= 13
    &&& -fac_limit(k) <= n.min_fac <= fac_limit(k)
    &&& -fac_limit(k) <= n.max_fac <= fac_limit(k)
    &&& dec_wf(n.decrement)
    &&& chain_wf(n.pattern, n.base_price, n.next_phase)
}

/// A node well formed at step `k` is well formed at any later step.
pub proof fn lemma_wf_monotone(n: NodeV, k1: int, k2: int)
    requires
        node_wf_at(n, k1),
        k1 <= k2,
    ensures
        node_wf_at(n, k2),
{
}

/// Lower bound, scaled by `100 * base`, on the true ratio implied by an
/// observed integer price: the price was rounded up from the true ratio,
/// so the ratio exceeds `(price - 1) / base`.
pub open spec fn implied_min_s(p: u32) -> int {
    100 * (p as int) - 100
}

/// Upper bound, scaled by `100 * base`, on the true ratio implied by an
/// observed integer price: the ratio is at most `price / base`.
pub open spec fn implied_max_s(p: u32) -> int {
    100 * (p as int)
}

/// Whether an observed price falsifies the node: the interval of ratios
/// that could have produced the price does not intersect the node's
/// valid interval. The implied interval is open below, so touching the
/// node's upper bound from above is already empty.
pub open spec fn pruned_s(n: NodeV, price: Option<u32>) -> bool {
    match price {
        None => false,
        Some(p) => implied_max_s(p) < n.min_fac || implied_min_s(p) >= n.max_fac,
    }
}

/// The selection-bias factor: with a known price, an interval of width
/// `w` (as a ratio) receives weight `1 / w`; with no observation the
/// weight is one.
pub open spec fn chance_s(n: NodeV, price: Option<u32>) -> Result<Rat, CalcError>
    recommends
        !pruned_s(n, price),
{
    match price {
        None => Ok(rat_one()),
        Some(p) => {
            if n.max_fac <= n.min_fac {
                Err(CalcError::Internal)
            } else {
                Ok(norm_s((100 * n.base_price) as nat, (n.max_fac - n.min_fac) as nat))
            }
        },
    }
}

/// The ratio bounds of the next node within the same phase. With a drift
/// range and a known price the new interval is anchored to the
/// price-implied interval; with a drift range and no price it drifts
/// from the node's own bounds; without a drift range it is unchanged.
pub open spec fn drifted_s(n: NodeV, price: Option<u32>) -> (int, int) {
    match n.decrement {
        Some((dec_min, dec_max)) => match price {
            Some(p) => (implied_min_s(p) - dec_max, implied_max_s(p) - dec_min),
            None => (n.min_fac - dec_max, n.max_fac - dec_min),
        },
        None => (n.min_fac, n.max_fac),
    }
}

/// The continuation child: one more step within the same phase. At a
/// branch point its probability additionally carries the chance
/// `(max_len - 1) / max_len` of not yet transitioning.
pub open spec fn next_s(n: NodeV, price: Option<u32>, chance: Rat) -> Result<NodeV, CalcError> {
    let facs = drifted_s(n, price);
    let c2 = if n.min_len <= 1 && n.max_len > 1 {
        mul_s(chance, Rat { num: (n.max_len - 1) as u128, den: n.max_len as u128 })
    } else {
        Some(chance)
    };
    match c2 {
        None => Err(CalcError::Capacity),
        Some(ch) => match mul_s(n.prob, ch) {
            None => Err(CalcError::Capacity),
            Some(prob) => Ok(
                NodeV {
                    pattern: n.pattern,
                    base_price: n.base_price,
                    prob,
                    min_len: n.min_len - 1,
                    max_len: n.max_len - 1,
                    min_fac: facs.0,
                    max_fac: facs.1,
                    decrement: n.decrement,
                    length: n.length + 1,
                    lengths: n.lengths,
                    next_phase: n.next_phase,
                },
            ),
        },
    }
}

/// The sentinel phase a terminator produces: zero length, unit
/// probability, the previous node's pattern, and no successor.
pub open spec fn sentinel_s(n: NodeV) -> NodeV {
    NodeV {
        pattern: n.pattern,
        base_price: n.base_price,
        prob: rat_one(),
        min_len: 0,
        max_len: 0,
        min_fac: 0,
        max_fac: 0,
        decrement: None,
        length: 0,
        lengths: Seq::empty(),
        next_phase: None,
    }
}

/// The common bookkeeping of every transition: the successor copies the
/// template, its probability is `template * prev * chance`, and the
/// completed phase's length is appended to the history; a duration rule,
/// if present, then recomputes the successor's duration bounds.
pub open spec fn after_core_s(n: NodeV, template: NodeV, rule: Option<LengthRule>, ch: Rat) -> Result<
    NodeV,
    CalcError,
> {
    match mul_s(n.prob, ch) {
        None => Err(CalcError::Capacity),
        Some(p1) => match mul_s(template.prob, p1) {
            None => Err(CalcError::Capacity),
            Some(prob) => {
                let lengths2 = n.lengths.push(n.length);
                match rule {
                    None => Ok(NodeV { prob, lengths: lengths2, ..template }),
                    Some(rl) => match rule_eval_s(rl, lengths2) {
                        Err(e) => Err(e),
                        Ok(b) => Ok(
                            NodeV {
                                prob,
                                lengths: lengths2,
                                min_len: b.0,
                                max_len: b.1,
                                ..template
                            },
                        ),
                    },
                }
            },
        },
    }
}

/// The transition child: the phase after this one. At a branch point its
/// probability additionally carries the chance `1 / max_len` of
/// transitioning now. Reaching an absent successor is an internal
/// invariant violation.
pub open spec fn after_s(n: NodeV, chance: Rat) -> Result<NodeV, CalcError> {
    let c2 = if n.min_len <= 1 && n.max_len > 1 {
        mul_s(chance, Rat { num: 1, den: n.max_len as u128 })
    } else {
        Some(chance)
    };
    match c2 {
        None => Err(CalcError::Capacity),
        Some(ch) => match n.next_phase {
            None => Err(CalcError::Internal),
            Some(TransitionV::Simple(b)) => after_core_s(n, *b, None, ch),
            Some(TransitionV::ConditionalLength(b, rl)) => after_core_s(n, *b, Some(rl), ch),
            Some(TransitionV::Terminator) => after_core_s(n, sentinel_s(n), None, ch),
        },
    }
}

/// The children of a node on one observed (or unknown) price: none where
/// the price falsifies the node; the continuation alone below the
/// minimum duration; continuation and transition at a branch point; the
/// transition alone at maximum duration.
pub open spec fn children_s(n: NodeV, price: Option<u32>) -> Result<Seq<NodeV>, CalcError> {
    if pruned_s(n, price) {
        Ok(Seq::empty())
    } else {
        match chance_s(n, price) {
            Err(e) => Err(e),
            Ok(chance) => {
                if n.min_len > 1 {
                    match next_s(n, price, chance) {
                        Err(e) => Err(e),
                        Ok(c) => Ok(seq![c]),
                    }
                } else if n.max_len > 1 {
                    match next_s(n, price, chance) {
                        Err(e) => Err(e),
                        Ok(c1) => match after_s(n, chance) {
                            Err(e) => Err(e),
                            Ok(c2) => Ok(seq![c1, c2]),
                        },
                    }
                } else {
                    match after_s(n, chance) {
                        Err(e) => Err(e),
                        Ok(c) => Ok(seq![c]),
                    }
                }
            },
        }
    }
}

/// The selection-bias factor of a well-formed node is well formed.
pub proof fn lemma_chance_s_wf(n: NodeV, price: Option<u32>, k: int)
    requires
        node_wf_at(n, k),
        0 <= k <= 11,
        chance_s(n, price) is Ok,
    ensures
        rat_wf(chance_s(n, price)->Ok_0),
{
    match price {
        None => {},
        Some(p) => {
            lemma_norm_wf((100 * n.base_price) as nat, (n.max_fac - n.min_fac) as nat);
        },
    }
}

/// The continuation child of a well-formed node is well formed one step
/// later and keeps the node's pattern.
pub proof fn lemma_next_s_wf(n: NodeV, price: Option<u32>, chance: Rat, k: int)
    requires
        node_wf_at(n, k),
        0 <= k <= 11,
        rat_wf(chance),
        next_s(n, price, chance) is Ok,
    ensures
        node_wf_at(next_s(n, price, chance)->Ok_0, k + 1),
        next_s(n, price, chance)->Ok_0.pattern == n.pattern,
{
    let c2 = if n.min_len <= 1 && n.max_len > 1 {
        mul_s(chance, Rat { num: (n.max_len - 1) as u128, den: n.max_len as u128 })
    } else {
        Some(chance)
    };
    if n.min_len <= 1 && n.max_len > 1 {
        crate::rational::lemma_mul_s_wf(
            chance,
            Rat { num: (n.max_len - 1) as u128, den: n.max_len as u128 },
        );
    }
    crate::rational::lemma_mul_s_wf(n.prob, c2.unwrap());
}

/// The transition child of a well-formed node is well formed one step
/// later and keeps the node's pattern.
pub proof fn lemma_after_s_wf(n: NodeV, chance: Rat, k: int)
    requires
        node_wf_at(n, k),
        0 <= k <= 11,
        rat_wf(chance),
        after_s(n, chance) is Ok,
    ensures
        node_wf_at(after_s(n, chance)->Ok_0, k + 1),
        after_s(n, chance)->Ok_0.pattern == n.pattern,
{
    let c2 = if n.min_len <= 1 && n.max_len > 1 {
        mul_s(chance, Rat { num: 1, den: n.max_len as u128 })
    } else {
        Some(chance)
    };
    if n.min_len <= 1 && n.max_len > 1 {
        crate::rational::lemma_mul_s_wf(chance, Rat { num: 1, den: n.max_len as u128 });
    }
    let ch = c2.unwrap();
    let template = match n.next_phase {
        None => sentinel_s(n),
        Some(TransitionV::Simple(b)) => *b,
        Some(TransitionV::ConditionalLength(b, _)) => *b,
        Some(TransitionV::Terminator) => sentinel_s(n),
    };
    let rule = match n.next_phase {
        Some(TransitionV::ConditionalLength(_, rl)) => Some(rl),
        _ => None,
    };
    lemma_after_core_s_wf(n, template, rule, ch, k);
}

/// The common transition bookkeeping keeps well-formedness, given a
/// well-formed template of the node's own pattern and base price.
proof fn lemma_after_core_s_wf(n: NodeV, template: NodeV, rule: Option<LengthRule>, ch: Rat, k: int)
    requires
        node_wf_at(n, k),
        0 <= k <= 11,
        rat_wf(ch),
        template_wf(n.pattern, n.base_price, template) || template == sentinel_s(n),
        after_core_s(n, template, rule, ch) is Ok,
    ensures
        node_wf_at(after_core_s(n, template, rule, ch)->Ok_0, k + 1),
        after_core_s(n, template, rule, ch)->Ok_0.pattern == n.pattern,
{
    let p1 = mul_s(n.prob, ch);
    crate::rational::lemma_mul_s_wf(n.prob, ch);
    crate::rational::lemma_mul_s_wf(template.prob, p1.unwrap());
    let lengths2 = n.lengths.push(n.length);
    assert(forall|i: int| 0 <= i < lengths2.len() ==> 0 <= #[trigger] lengths2[i] <= 13);
    match rule {
        None => {},
        Some(rl) => {
            match rl {
                LengthRule::Remaining => {
                    crate::factory::lemma_sum_seq_bounds(lengths2, 0, 13);
                    assert(lengths2.len() * 13 <= 14 * 13);
                },
                LengthRule::SecondDecreasing => {},
                LengthRule::SecondIncreasing => {},
            }
        },
    }
}

/// Every child of a well-formed node is well formed one step later and
/// keeps the node's pattern.
pub proof fn lemma_children_s_wf(n: NodeV, price: Option<u32>, k: int)
    requires
        node_wf_at(n, k),
        0 <= k <= 11,
        children_s(n, price) is Ok,
    ensures
        forall|i: int|
            0 <= i < children_s(n, price)->Ok_0.len() ==> node_wf_at(
                #[trigger] children_s(n, price)->Ok_0[i],
                k + 1,
            ) && children_s(n, price)->Ok_0[i].pattern == n.pattern,
{
    if !pruned_s(n, price) {
        let chance = chance_s(n, price)->Ok_0;
        lemma_chance_s_wf(n, price, k);
        if n.min_len > 1 {
            lemma_next_s_wf(n, price, chance, k);
        } else if n.max_len > 1 {
            lemma_next_s_wf(n, price, chance, k);
            lemma_after_s_wf(n, chance, k);
        } else {
            lemma_after_s_wf(n, chance, k);
        }
    }
}

/// Copy a phase-length history.
fn clone_lengths(v: &Vec<i32>) -> (r: Vec<i32>)
    ensures
        r@ == v@,
{
    let mut r: Vec<i32> = Vec::new();
    let mut i: usize = 0;
    while i < v.len()
        invariant
            0 <= i <= v@.len(),
            r@ == v@.take(i as int),
        decreases v@.len() - i,
    {
        r.push(v[i]);
        proof {
            assert(v@.take(i + 1) =~= v@.take(i as int).push(v@[i as int]));
        }
        i = i + 1;
    }
    proof {
        assert(v@.take(v@.len() as int) =~= v@);
    }
    r
}

/// Copy a node, its history and its successor chain.
pub(crate) fn clone_node(n: &Node) -> (r: Node)
    ensures
        r@ == n@,
    decreases *n,
{
    Node {
        pattern: n.pattern,
        base_price: n.base_price,
        prob: n.prob,
        min_len: n.min_len,
        max_len: n.max_len,
        min_fac: n.min_fac,
        max_fac: n.max_fac,
        decrement: n.decrement,
        length: n.length,
        lengths: clone_lengths(&n.lengths),
        next_phase: match &n.next_phase {
            None => None,
            Some(b) => Some(Box::new(clone_transition(b))),
        },
    }
}

/// Copy a transition strategy and the chain it wraps.
fn clone_transition(t: &Transition) -> (r: Transition)
    ensures
        trans_view(r) == trans_view(*t),
    decreases *t,
{
    match t {
        Transition::Simple(s) => Transition::Simple(SimpleNode { after: clone_node(&s.after) }),
        Transition::ConditionalLength(c) => Transition::ConditionalLength(
            ConditionalLengthNode { after: clone_node(&c.after), rule: c.rule },
        ),
        Transition::Terminator(_) => Transition::Terminator(TerminatorNode),
    }
}

impl Node {
    /// Get the pattern and probability of this node.
    pub fn value(&self) -> (r: (Pattern, Rat))
        ensures
            r.0 == self@.pattern,
            r.1 == self@.prob,
    {
        (self.pattern, self.prob)
    }

    /// Given the next price, the possible children of this node; see
    /// [`children_s`] for the exact statement.
    pub fn children(self, price: Option<u32>) -> (r: Result<Vec<Node>, CalcError>)
        requires
            node_wf_at(self@, 11),
        ensures
            ({
                let m = children_s(self@, price);
                &&& (r is Ok <==> m is Ok)
                &&& (r is Ok ==> views(r->Ok_0@) == m->Ok_0)
                &&& (r is Err ==> r->Err_0 == m->Err_0)
            }),
    {
        if let Some(p) = price {
            let fmax: i64 = 100 * (p as i64);
            let fmin: i64 = fmax - 100;
            if fmax < self.min_fac || fmin >= self.max_fac {
                let r: Vec<Node> = Vec::new();
                proof {
                    assert(views(r@) =~= Seq::<NodeV>::empty());
                }
                return Ok(r);
            }
        }
        let chance: Rat = match price {
            None => Rat::one(),
            Some(_) => {
                let w: i64 = self.max_fac - self.min_fac;
                if w <= 0 {
                    return Err(CalcError::Internal);
                }
                let d: u128 = 100u128 * (self.base_price as u128);
                let c = Rat::new(d, w as u128);
                proof {
                    assert(c is Some);
                }
                c.unwrap()
            },
        };
        if self.min_len > 1 {
            match self.next(price, chance) {
                Err(e) => Err(e),
                Ok(c) => {
                    let mut r: Vec<Node> = Vec::new();
                    r.push(c);
                    proof {
                        assert(views(r@) =~= seq![r@[0]@]);
                    }
                    Ok(r)
                },
            }
        } else if self.max_len > 1 {
            match self.next(price, chance) {
                Err(e) => Err(e),
                Ok(c1) => match self.after(chance) {
                    Err(e) => Err(e),
                    Ok(c2) => {
                        let ghost v1 = c1@;
                        let ghost v2 = c2@;
                        let mut r: Vec<Node> = Vec::new();
                        r.push(c1);
                        r.push(c2);
                        proof {
                            assert(views(r@) =~= seq![v1, v2]);
                        }
                        Ok(r)
                    },
                },
            }
        } else {
            match self.after(chance) {
                Err(e) => Err(e),
                Ok(c) => {
                    let mut r: Vec<Node> = Vec::new();
                    r.push(c);
                    proof {
                        assert(views(r@) =~= seq![r@[0]@]);
                    }
                    Ok(r)
                },
            }
        }
    }

    /// The continuation child; see [`next_s`].
    fn next(&self, price: Option<u32>, chance: Rat) -> (r: Result<Node, CalcError>)
        requires
            node_wf_at(self@, 11),
            rat_wf(chance),
        ensures
            ({
                let m = next_s(self@, price, chance);
                &&& (r is Ok <==> m is Ok)
                &&& (r is Ok ==> r->Ok_0@ == m->Ok_0)
                &&& (r is Err ==> r->Err_0 == m->Err_0)
            }),
    {
        let (min_fac, max_fac): (i64, i64) = match self.decrement {
            Some((dec_min, dec_max)) => match price {
                Some(p) => {
                    let ix: i64 = 100 * (p as i64);
                    (ix - 100 - dec_max, ix - dec_min)
                },
                None => (self.min_fac - dec_max, self.max_fac - dec_min),
            },
            None => (self.min_fac, self.max_fac),
        };
        let chance2: Rat = if self.min_len <= 1 && self.max_len > 1 {
            match chance.mul(Rat { num: (self.max_len - 1) as u128, den: self.max_len as u128 }) {
                None => {
                    return Err(CalcError::Capacity);
                },
                Some(c) => c,
            }
        } else {
            chance
        };
        match self.prob.mul(chance2) {
            None => Err(CalcError::Capacity),
            Some(prob) => Ok(
                Node {
                    pattern: self.pattern,
                    base_price: self.base_price,
                    prob,
                    min_len: self.min_len - 1,
                    max_len: self.max_len - 1,
                    min_fac,
                    max_fac,
                    decrement: self.decrement,
                    length: self.length + 1,
                    lengths: clone_lengths(&self.lengths),
                    next_phase: match &self.next_phase {
                        None => None,
                        Some(b) => Some(Box::new(clone_transition(b))),
                    },
                },
            ),
        }
    }

    /// The transition child; see [`after_s`].
    fn after(&self, chance: Rat) -> (r: Result<Node, CalcError>)
        requires
            node_wf_at(self@, 11),
            rat_wf(chance),
        ensures
            ({
                let m = after_s(self@, chance);
                &&& (r is Ok <==> m is Ok)
                &&& (r is Ok ==> r->Ok_0@ == m->Ok_0)
                &&& (r is Err ==> r->Err_0 == m->Err_0)
            }),
    {
        let chance2: Rat = if self.min_len <= 1 && self.max_len > 1 {
            match chance.mul(Rat { num: 1, den: self.max_len as u128 }) {
                None => {
                    return Err(CalcError::Capacity);
                },
                Some(c) => c,
            }
        } else {
            chance
        };
        match &self.next_phase {
            None => Err(CalcError::Internal),
            Some(b) => match &**b {
                Transition::Simple(s) => {
                    let template = clone_node(&s.after);
                    self.after_from(template, None, chance2)
                },
                Transition::ConditionalLength(c) => {
                    let template = clone_node(&c.after);
                    self.after_from(template, Some(c.rule), chance2)
                },
                Transition::Terminator(_) => {
                    let template = Node {
                        pattern: self.pattern,
                        base_price: self.base_price,
                        prob: Rat { num: 1, den: 1 },
                        min_len: 0,
                        max_len: 0,
                        min_fac: 0,
                        max_fac: 0,
                        decrement: None,
                        length: 0,
                        lengths: Vec::new(),
                        next_phase: None,
                    };
                    proof {
                        assert(template@.lengths =~= sentinel_s(self@).lengths);
                        assert(template@ == sentinel_s(self@));
                    }
                    self.after_from(template, None, chance2)
                },
            },
        }
    }

    /// The common transition bookkeeping; see [`after_core_s`].
    fn after_from(&self, template: Node, rule: Option<LengthRule>, ch: Rat) -> (r: Result<
        Node,
        CalcError,
    >)
        requires
            node_wf_at(self@, 11),
            rat_wf(ch),
            rat_wf(template@.prob),
        ensures
            ({
                let m = after_core_s(self@, template@, rule, ch);
                &&& (r is Ok <==> m is Ok)
                &&& (r is Ok ==> r->Ok_0@ == m->Ok_0)
                &&& (r is Err ==> r->Err_0 == m->Err_0)
            }),
    {
        let p1: Rat = match self.prob.mul(ch) {
            None => {
                return Err(CalcError::Capacity);
            },
            Some(p) => p,
        };
        let prob: Rat = match template.prob.mul(p1) {
            None => {
                return Err(CalcError::Capacity);
            },
            Some(p) => p,
        };
        let mut lengths2 = clone_lengths(&self.lengths);
        lengths2.push(self.length);
        proof {
            assert(lengths2@.map_values(|v: i32| v as int) =~= self@.lengths.push(
                self.length as int,
            ));
            assert forall|i: int| 0 <= i < lengths2@.len() implies 0 <= #[trigger] lengths2@[i]
                <= 64 by {
                assert(self@.lengths.push(self.length as int)[i] == lengths2@[i] as int);
                if i < self@.lengths.len() {
                    assert(0 <= self@.lengths[i] <= 13);
                }
            }
        }
        match rule {
            None => Ok(
                Node {
                    pattern: template.pattern,
                    base_price: template.base_price,
                    prob,
                    min_len: template.min_len,
                    max_len: template.max_len,
                    min_fac: template.min_fac,
                    max_fac: template.max_fac,
                    decrement: template.decrement,
                    length: template.length,
                    lengths: lengths2,
                    next_phase: template.next_phase,
                },
            ),
            Some(rl) => match rule_eval(rl, &lengths2) {
                Err(e) => Err(e),
                Ok((mn, mx)) => Ok(
                    Node {
                        pattern: template.pattern,
                        base_price: template.base_price,
                        prob,
                        min_len: mn,
                        max_len: mx,
                        min_fac: template.min_fac,
                        max_fac: template.max_fac,
                        decrement: template.decrement,
                        length: template.length,
                        lengths: lengths2,
                        next_phase: template.next_phase,
                    },
                ),
            },
        }
    }
}

} // verus!
