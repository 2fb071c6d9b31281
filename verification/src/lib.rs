//! A Bayesian sequential filter over a small fixed set of multi-phase
//! price-evolution patterns.
//!
//! Given a base price, an optional classification of the previous period
//! and a partial sequence of observed prices, the library computes the
//! exact posterior probability of each pattern, as a list sorted by
//! descending probability. All arithmetic is exact rational arithmetic;
//! an intermediate value that does not fit in 128 bits is reported as a
//! [`CalcError::Capacity`] error instead of being rounded.

use vstd::prelude::*;

pub mod chains;
mod factory;
pub mod laws;
mod node;
mod pattern;
pub mod perm;
mod rational;

pub use chains::new_set_s;
pub use factory::CalcError;
pub use factory::ConditionalLengthNode;
pub use factory::LengthRule;
pub use factory::MAX_HALF_DAYS;
pub use factory::SimpleNode;
pub use factory::TerminatorNode;
pub use factory::Transition;
pub use factory::remaining_length;
pub use node::Node;
pub use node::NodeV;
pub use node::TransitionV;
pub use node::children_s;
pub use node::node_wf_at;
pub use node::views;
pub use pattern::Pattern;
pub use pattern::prior_s;
pub use rational::Rat;
pub use rational::rat_eq_v;
pub use rational::rat_one;
pub use rational::rat_wf;

use crate::node::{clone_node, lemma_children_s_wf, lemma_wf_monotone};
use crate::rational::{add_s, div_s, lt_s};

verus! {

/// One advancement step: every node's children on one price, in order.
pub open spec fn step_s(nodes: Seq<NodeV>, price: Option<u32>) -> Result<Seq<NodeV>, CalcError>
    decreases nodes.len(),
{
    if nodes.len() == 0 {
        Ok(Seq::empty())
    } else {
        match step_s(nodes.drop_last(), price) {
            Err(e) => Err(e),
            Ok(rest) => match children_s(nodes.last(), price) {
                Err(e) => Err(e),
                Ok(cs) => Ok(rest + cs),
            },
        }
    }
}

/// The live phase set after consuming the whole price sequence.
pub open spec fn evolve_s(nodes: Seq<NodeV>, prices: Seq<Option<u32>>) -> Result<
    Seq<NodeV>,
    CalcError,
>
    decreases prices.len(),
{
    if prices.len() == 0 {
        Ok(nodes)
    } else {
        match evolve_s(nodes, prices.drop_last()) {
            Err(e) => Err(e),
            Ok(g) => step_s(g, prices.last()),
        }
    }
}

/// The total probability mass of one pattern over the surviving nodes:
/// `None` where no node of that pattern survives.
pub open spec fn mass_s(nodes: Seq<NodeV>, pat: Pattern) -> Result<Option<Rat>, CalcError>
    decreases nodes.len(),
{
    if nodes.len() == 0 {
        Ok(None)
    } else {
        match mass_s(nodes.drop_last(), pat) {
            Err(e) => Err(e),
            Ok(acc) => {
                let n = nodes.last();
                if n.pattern != pat {
                    Ok(acc)
                } else {
                    match acc {
                        None => Ok(Some(n.prob)),
                        Some(m) => match add_s(m, n.prob) {
                            None => Err(CalcError::Capacity),
                            Some(m2) => Ok(Some(m2)),
                        },
                    }
                }
            },
        }
    }
}

/// An aggregation entry for one pattern, present only where mass
/// survives.
pub open spec fn opt_entry(p: Pattern, m: Option<Rat>) -> Seq<(Pattern, Rat)> {
    match m {
        None => Seq::empty(),
        Some(r) => seq![(p, r)],
    }
}

/// The per-pattern masses of the surviving nodes, in catalog order, one
/// entry per pattern with surviving mass.
pub open spec fn aggregate_s(nodes: Seq<NodeV>) -> Result<Seq<(Pattern, Rat)>, CalcError> {
    match mass_s(nodes, Pattern::Decreasing) {
        Err(e) => Err(e),
        Ok(m_d) => match mass_s(nodes, Pattern::Random) {
            Err(e) => Err(e),
            Ok(m_r) => match mass_s(nodes, Pattern::SmallSpike) {
                Err(e) => Err(e),
                Ok(m_s) => match mass_s(nodes, Pattern::LargeSpike) {
                    Err(e) => Err(e),
                    Ok(m_l) => Ok(
                        opt_entry(Pattern::Decreasing, m_d) + opt_entry(Pattern::Random, m_r)
                            + opt_entry(Pattern::SmallSpike, m_s) + opt_entry(
                            Pattern::LargeSpike,
                            m_l,
                        ),
                    ),
                },
            },
        },
    }
}

/// The total of the aggregated masses.
pub open spec fn total_s(entries: Seq<(Pattern, Rat)>) -> Result<Rat, CalcError>
    recommends
        entries.len() >= 1,
    decreases entries.len(),
{
    if entries.len() <= 1 {
        Ok(entries.first().1)
    } else {
        match total_s(entries.drop_last()) {
            Err(e) => Err(e),
            Ok(t) => match add_s(t, entries.last().1) {
                None => Err(CalcError::Capacity),
                Some(t2) => Ok(t2),
            },
        }
    }
}

/// Each entry's mass divided by the given total.
pub open spec fn divide_all_s(entries: Seq<(Pattern, Rat)>, total: Rat) -> Result<
    Seq<(Pattern, Rat)>,
    CalcError,
>
    decreases entries.len(),
{
    if entries.len() == 0 {
        Ok(Seq::empty())
    } else {
        match divide_all_s(entries.drop_last(), total) {
            Err(e) => Err(e),
            Ok(rest) => match div_s(entries.last().1, total) {
                None => Err(CalcError::Capacity),
                Some(q) => Ok(rest.push((entries.last().0, q))),
            },
        }
    }
}

/// The aggregated masses normalised to total one; nothing to do where
/// no pattern survives.
pub open spec fn normalize_s(entries: Seq<(Pattern, Rat)>) -> Result<
    Seq<(Pattern, Rat)>,
    CalcError,
> {
    if entries.len() == 0 {
        Ok(Seq::empty())
    } else {
        match total_s(entries) {
            Err(e) => Err(e),
            Ok(total) => divide_all_s(entries, total),
        }
    }
}

/// Where a new entry stands in a descending list: after every entry at
/// least as probable, before the first strictly less probable one.
pub open spec fn insert_pos_s(s: Seq<(Pattern, Rat)>, x: Rat) -> Result<int, CalcError>
    decreases s.len(),
{
    if s.len() == 0 {
        Ok(0)
    } else {
        match lt_s(s.first().1, x) {
            None => Err(CalcError::Capacity),
            Some(true) => Ok(0),
            Some(false) => match insert_pos_s(s.drop_first(), x) {
                Err(e) => Err(e),
                Ok(p) => Ok(1 + p),
            },
        }
    }
}

/// Stable insertion sort, descending by probability: entries of equal
/// probability keep their encounter order.
pub open spec fn sort_s(s: Seq<(Pattern, Rat)>) -> Result<Seq<(Pattern, Rat)>, CalcError>
    decreases s.len(),
{
    if s.len() == 0 {
        Ok(Seq::empty())
    } else {
        match sort_s(s.drop_last()) {
            Err(e) => Err(e),
            Ok(sorted) => match insert_pos_s(sorted, s.last().1) {
                Err(e) => Err(e),
                Ok(p) => Ok(sorted.insert(p, s.last())),
            },
        }
    }
}

/// What [`run`] returns: the root set is built from the catalog and the
/// base price, advanced over every price in order, aggregated by
/// pattern, normalised and sorted by descending probability.
pub open spec fn run_s(prev: Option<Pattern>, base: u32, prices: Seq<Option<u32>>) -> Result<
    Seq<(Pattern, Rat)>,
    CalcError,
> {
    match evolve_s(new_set_s(base, prev), prices) {
        Err(e) => Err(e),
        Ok(survivors) => match aggregate_s(survivors) {
            Err(e) => Err(e),
            Ok(masses) => match normalize_s(masses) {
                Err(e) => Err(e),
                Ok(normed) => sort_s(normed),
            },
        },
    }
}

/// The total probability mass of one pattern over the surviving nodes.
fn mass(nodes: &Vec<Node>, pat: Pattern) -> (r: Result<Option<Rat>, CalcError>)
    requires
        forall|i: int| 0 <= i < nodes@.len() ==> rat_wf(#[trigger] views(nodes@)[i].prob),
    ensures
        ({
            let m = mass_s(views(nodes@), pat);
            &&& (r is Ok <==> m is Ok)
            &&& (r is Ok ==> r->Ok_0 == m->Ok_0)
            &&& (r is Err ==> r->Err_0 == m->Err_0)
            &&& (r matches Ok(Some(v)) ==> rat_wf(v))
        }),
{
    let ghost vs = views(nodes@);
    let mut acc: Option<Rat> = None;
    let mut i: usize = 0;
    while i < nodes.len()
        invariant
            0 <= i <= nodes@.len(),
            vs == views(nodes@),
            forall|j: int| 0 <= j < nodes@.len() ==> rat_wf(#[trigger] views(nodes@)[j].prob),
            mass_s(vs.take(i as int), pat) == Ok::<Option<Rat>, CalcError>(acc),
            acc matches Some(v) ==> rat_wf(v),
        decreases nodes@.len() - i,
    {
        proof {
            assert(vs.take(i + 1).drop_last() =~= vs.take(i as int));
            assert(vs.take(i + 1).last() == vs[i as int]);
            assert(vs[i as int] == nodes@[i as int]@);
        }
        if nodes[i].pattern == pat {
            let p = nodes[i].prob;
            match acc {
                None => {
                    acc = Some(p);
                },
                Some(m) => match m.add(p) {
                    None => {
                        proof {
                            lemma_mass_s_err(vs, pat, i + 1);
                        }
                        return Err(CalcError::Capacity);
                    },
                    Some(m2) => {
                        acc = Some(m2);
                    },
                },
            }
        }
        i = i + 1;
    }
    proof {
        assert(vs.take(nodes@.len() as int) =~= vs);
    }
    Ok(acc)
}

/// The per-pattern masses of the surviving nodes, in catalog order.
fn aggregate(nodes: &Vec<Node>) -> (r: Result<Vec<(Pattern, Rat)>, CalcError>)
    requires
        forall|i: int| 0 <= i < nodes@.len() ==> rat_wf(#[trigger] views(nodes@)[i].prob),
    ensures
        ({
            let m = aggregate_s(views(nodes@));
            &&& (r is Ok <==> m is Ok)
            &&& (r is Ok ==> r->Ok_0@ == m->Ok_0)
            &&& (r is Err ==> r->Err_0 == m->Err_0)
            &&& (r is Ok ==> forall|i: int|
                0 <= i < r->Ok_0@.len() ==> rat_wf((#[trigger] r->Ok_0@[i]).1))
        }),
{
    let m_d = match mass(nodes, Pattern::Decreasing) {
        Err(e) => {
            return Err(e);
        },
        Ok(m) => m,
    };
    let m_r = match mass(nodes, Pattern::Random) {
        Err(e) => {
            return Err(e);
        },
        Ok(m) => m,
    };
    let m_s = match mass(nodes, Pattern::SmallSpike) {
        Err(e) => {
            return Err(e);
        },
        Ok(m) => m,
    };
    let m_l = match mass(nodes, Pattern::LargeSpike) {
        Err(e) => {
            return Err(e);
        },
        Ok(m) => m,
    };
    let mut out: Vec<(Pattern, Rat)> = Vec::new();
    if let Some(m) = m_d {
        out.push((Pattern::Decreasing, m));
    }
    if let Some(m) = m_r {
        out.push((Pattern::Random, m));
    }
    if let Some(m) = m_s {
        out.push((Pattern::SmallSpike, m));
    }
    if let Some(m) = m_l {
        out.push((Pattern::LargeSpike, m));
    }
    proof {
        assert(out@ =~= aggregate_s(views(nodes@))->Ok_0);
    }
    Ok(out)
}

/// Normalise the aggregated masses to total one.
fn normalize(entries: Vec<(Pattern, Rat)>) -> (r: Result<Vec<(Pattern, Rat)>, CalcError>)
    requires
        forall|i: int| 0 <= i < entries@.len() ==> rat_wf((#[trigger] entries@[i]).1),
    ensures
        ({
            let m = normalize_s(entries@);
            &&& (r is Ok <==> m is Ok)
            &&& (r is Ok ==> r->Ok_0@ == m->Ok_0)
            &&& (r is Err ==> r->Err_0 == m->Err_0)
        }),
{
    if entries.len() == 0 {
        let out: Vec<(Pattern, Rat)> = Vec::new();
        proof {
            assert(out@ =~= normalize_s(entries@)->Ok_0);
        }
        return Ok(out);
    }
    // Total of the masses.
    let mut total: Rat = entries[0].1;
    let mut i: usize = 1;
    while i < entries.len()
        invariant
            1 <= i <= entries@.len(),
            forall|j: int| 0 <= j < entries@.len() ==> rat_wf((#[trigger] entries@[j]).1),
            total_s(entries@.take(i as int)) == Ok::<Rat, CalcError>(total),
            rat_wf(total),
        decreases entries@.len() - i,
    {
        proof {
            assert(entries@.take(i + 1).drop_last() =~= entries@.take(i as int));
            assert(entries@.take(i + 1).last() == entries@[i as int]);
        }
        total = match total.add(entries[i].1) {
            None => {
                proof {
                    lemma_total_s_err(entries@, i + 1);
                }
                return Err(CalcError::Capacity);
            },
            Some(t) => t,
        };
        i = i + 1;
    }
    proof {
        assert(entries@.take(entries@.len() as int) =~= entries@);
    }
    // Divide every mass by the total.
    let mut out: Vec<(Pattern, Rat)> = Vec::new();
    let mut i: usize = 0;
    while i < entries.len()
        invariant
            0 <= i <= entries@.len(),
            entries@.len() >= 1,
            forall|j: int| 0 <= j < entries@.len() ==> rat_wf((#[trigger] entries@[j]).1),
            rat_wf(total),
            total_s(entries@) == Ok::<Rat, CalcError>(total),
            divide_all_s(entries@.take(i as int), total) == Ok::<Seq<(Pattern, Rat)>, CalcError>(
                out@,
            ),
        decreases entries@.len() - i,
    {
        proof {
            assert(entries@.take(i + 1).drop_last() =~= entries@.take(i as int));
            assert(entries@.take(i + 1).last() == entries@[i as int]);
        }
        let q = match entries[i].1.div(total) {
            None => {
                proof {
                    lemma_divide_all_s_err(entries@, total, i + 1);
                }
                return Err(CalcError::Capacity);
            },
            Some(q) => q,
        };
        out.push((entries[i].0, q));
        i = i + 1;
    }
    proof {
        assert(entries@.take(entries@.len() as int) =~= entries@);
    }
    Ok(out)
}

/// Where in a descending list a new entry belongs; see [`insert_pos_s`].
proof fn lemma_insert_pos_char(s: Seq<(Pattern, Rat)>, x: Rat, j: int)
    requires
        0 <= j <= s.len(),
        forall|m: int| 0 <= m < j ==> lt_s((#[trigger] s[m]).1, x) == Some(false),
        j < s.len() ==> lt_s(s[j].1, x) == Some(true),
    ensures
        insert_pos_s(s, x) == Ok::<int, CalcError>(j),
    decreases s.len(),
{
    if s.len() == 0 {
    } else if j == 0 {
    } else {
        assert(s[0] == s.first());
        lemma_insert_pos_char(s.drop_first(), x, j - 1);
    }
}

/// A prefix of a descending scan that stops on a capacity failure; see
/// [`insert_pos_s`].
proof fn lemma_insert_pos_err(s: Seq<(Pattern, Rat)>, x: Rat, j: int)
    requires
        0 <= j < s.len(),
        forall|m: int| 0 <= m < j ==> lt_s((#[trigger] s[m]).1, x) == Some(false),
        lt_s(s[j].1, x) is None,
    ensures
        insert_pos_s(s, x) == Err::<int, CalcError>(CalcError::Capacity),
    decreases s.len(),
{
    if j == 0 {
    } else {
        assert(s[0] == s.first());
        lemma_insert_pos_err(s.drop_first(), x, j - 1);
    }
}

/// Sort the normalised entries by descending probability, keeping the
/// encounter order of equal probabilities.
fn sort(entries: Vec<(Pattern, Rat)>) -> (r: Result<Vec<(Pattern, Rat)>, CalcError>)
    ensures
        ({
            let m = sort_s(entries@);
            &&& (r is Ok <==> m is Ok)
            &&& (r is Ok ==> r->Ok_0@ == m->Ok_0)
            &&& (r is Err ==> r->Err_0 == m->Err_0)
        }),
{
    let mut out: Vec<(Pattern, Rat)> = Vec::new();
    let mut i: usize = 0;
    while i < entries.len()
        invariant
            0 <= i <= entries@.len(),
            sort_s(entries@.take(i as int)) == Ok::<Seq<(Pattern, Rat)>, CalcError>(out@),
        decreases entries@.len() - i,
    {
        proof {
            assert(entries@.take(i + 1).drop_last() =~= entries@.take(i as int));
            assert(entries@.take(i + 1).last() == entries@[i as int]);
        }
        let x = entries[i].1;
        let mut j: usize = 0;
        let mut found: bool = false;
        while j < out.len() && !found
            invariant
                0 <= j <= out@.len(),
                0 <= i < entries@.len(),
                x == entries@[i as int].1,
                sort_s(entries@.take(i as int)) == Ok::<Seq<(Pattern, Rat)>, CalcError>(out@),
                forall|m: int| 0 <= m < j ==> lt_s((#[trigger] out@[m]).1, x) == Some(false),
                found ==> j < out@.len() && lt_s(out@[j as int].1, x) == Some(true),
            decreases out@.len() - j + (if found { 0int } else { 1int }),
        {
            match out[j].1.lt(x) {
                None => {
                    proof {
                        lemma_insert_pos_err(out@, x, j as int);
                        assert(entries@.take(i + 1).drop_last() =~= entries@.take(i as int));
                        assert(entries@.take(i + 1).last() == entries@[i as int]);
                        lemma_sort_s_err(entries@, i + 1);
                    }
                    return Err(CalcError::Capacity);
                },
                Some(true) => {
                    found = true;
                },
                Some(false) => {
                    j = j + 1;
                },
            }
        }
        proof {
            lemma_insert_pos_char(out@, x, j as int);
        }
        out.insert(j, entries[i]);
        i = i + 1;
    }
    proof {
        assert(entries@.take(entries@.len() as int) =~= entries@);
    }
    Ok(out)
}

/// Run the calculator on the given data, returning a (possibly empty)
/// list of potential patterns and exact associated probabilities, sorted
/// in descending order of likelihood; see [`run_s`] for the exact
/// statement. The domain imposes at most [`MAX_HALF_DAYS`] observation
/// slots per run.
#[verifier::rlimit(100)]
pub fn run(prev_pattern: Option<Pattern>, base_price: u32, prices: Vec<Option<u32>>) -> (r: Result<
    Vec<(Pattern, Rat)>,
    CalcError,
>)
    requires
        prices@.len() <= MAX_HALF_DAYS as int,
    ensures
        ({
            let m = run_s(prev_pattern, base_price, prices@);
            &&& (r is Ok <==> m is Ok)
            &&& (r is Ok ==> r->Ok_0@ == m->Ok_0)
            &&& (r is Err ==> r->Err_0 == m->Err_0)
        }),
{
    // Start off with the base set of pattern nodes.
    let mut nodes = Node::new_set(base_price, prev_pattern);
    let ghost roots_v = views(nodes@);
    proof {
        crate::chains::lemma_new_set_wf(base_price, prev_pattern);
        assert(prices@.take(0) =~= Seq::<Option<u32>>::empty());
    }
    // Traverse the pattern trees over all the prices.
    let mut i: usize = 0;
    while i < prices.len()
        invariant
            0 <= i <= prices@.len(),
            prices@.len() <= 12,
            roots_v == new_set_s(base_price, prev_pattern),
            evolve_s(roots_v, prices@.take(i as int)) == Ok::<Seq<NodeV>, CalcError>(
                views(nodes@),
            ),
            forall|j: int|
                0 <= j < nodes@.len() ==> node_wf_at(#[trigger] views(nodes@)[j], i as int),
        decreases prices@.len() - i,
    {
        let price = prices[i];
        let ghost gen_v = views(nodes@);
        let mut new_nodes: Vec<Node> = Vec::new();
        let mut j: usize = 0;
        proof {
            assert(gen_v.take(0) =~= Seq::<NodeV>::empty());
            assert(views(new_nodes@) =~= Seq::<NodeV>::empty());
        }
        while j < nodes.len()
            invariant
                0 <= j <= nodes@.len(),
                0 <= i < prices@.len() <= 12,
                price == prices@[i as int],
                gen_v == views(nodes@),
                roots_v == new_set_s(base_price, prev_pattern),
                evolve_s(roots_v, prices@.take(i as int)) == Ok::<Seq<NodeV>, CalcError>(gen_v),
                forall|m: int|
                    0 <= m < nodes@.len() ==> node_wf_at(#[trigger] views(nodes@)[m], i as int),
                step_s(gen_v.take(j as int), price) == Ok::<Seq<NodeV>, CalcError>(
                    views(new_nodes@),
                ),
                forall|m: int|
                    0 <= m < new_nodes@.len() ==> node_wf_at(
                        #[trigger] views(new_nodes@)[m],
                        i + 1,
                    ),
            decreases nodes@.len() - j,
        {
            let node = clone_node(&nodes[j]);
            proof {
                assert(views(nodes@)[j as int] == nodes@[j as int]@);
                lemma_wf_monotone(node@, i as int, 11);
            }
            match node.children(price) {
                Err(e) => {
                    proof {
                        assert(gen_v.take(j + 1).drop_last() =~= gen_v.take(j as int));
                        assert(gen_v.take(j + 1).last() == gen_v[j as int]);
                        lemma_step_s_err(gen_v, price, j as int);
                        assert(prices@.take(i + 1).drop_last() =~= prices@.take(i as int));
                        assert(prices@.take(i + 1).last() == prices@[i as int]);
                        lemma_evolve_s_err(roots_v, prices@, i + 1);
                    }
                    return Err(e);
                },
                Ok(mut cs) => {
                    proof {
                        assert(gen_v.take(j + 1).drop_last() =~= gen_v.take(j as int));
                        assert(gen_v.take(j + 1).last() == gen_v[j as int]);
                        lemma_children_s_wf(gen_v[j as int], price, i as int);
                    }
                    let ghost old_new = views(new_nodes@);
                    let ghost cs_v = views(cs@);
                    new_nodes.append(&mut cs);
                    proof {
                        assert(views(new_nodes@) =~= old_new + cs_v);
                        assert forall|m: int|
                            0 <= m < new_nodes@.len() implies node_wf_at(
                            #[trigger] views(new_nodes@)[m],
                            i + 1,
                        ) by {
                            if m >= old_new.len() {
                                assert(views(new_nodes@)[m] == cs_v[m - old_new.len()]);
                            }
                        }
                    }
                },
            }
            j = j + 1;
        }
        proof {
            assert(gen_v.take(nodes@.len() as int) =~= gen_v);
            assert(prices@.take(i + 1).drop_last() =~= prices@.take(i as int));
            assert(prices@.take(i + 1).last() == prices@[i as int]);
        }
        nodes = new_nodes;
        i = i + 1;
    }
    proof {
        assert(prices@.take(prices@.len() as int) =~= prices@);
        assert forall|m: int| 0 <= m < nodes@.len() implies rat_wf(
            (#[trigger] views(nodes@)[m]).prob,
        ) by {
            assert(node_wf_at(views(nodes@)[m], prices@.len() as int));
        }
    }
    // Aggregate the resulting probabilities per pattern.
    let masses = match aggregate(&nodes) {
        Err(e) => {
            return Err(e);
        },
        Ok(m) => m,
    };
    // Normalise the distribution.
    let normed = match normalize(masses) {
        Err(e) => {
            return Err(e);
        },
        Ok(m) => m,
    };
    // Sort descending.
    sort(normed)
}

/// A failure while consuming a prefix of the prices is the failure of
/// the whole evolution.
proof fn lemma_evolve_s_err(nodes: Seq<NodeV>, prices: Seq<Option<u32>>, k: int)
    requires
        0 <= k <= prices.len(),
        evolve_s(nodes, prices.take(k)) is Err,
    ensures
        evolve_s(nodes, prices) is Err,
        evolve_s(nodes, prices)->Err_0 == evolve_s(nodes, prices.take(k))->Err_0,
    decreases prices.len(),
{
    if k < prices.len() {
        assert(prices.drop_last().take(k) =~= prices.take(k));
        lemma_evolve_s_err(nodes, prices.drop_last(), k);
    } else {
        assert(prices.take(k) =~= prices);
    }
}

/// A step fails where the first failing node's children fail.
proof fn lemma_step_s_err(nodes: Seq<NodeV>, price: Option<u32>, j: int)
    requires
        0 <= j < nodes.len(),
        step_s(nodes.take(j), price) is Ok,
        children_s(nodes[j], price) is Err,
    ensures
        step_s(nodes, price) is Err,
        step_s(nodes, price)->Err_0 == children_s(nodes[j], price)->Err_0,
    decreases nodes.len(),
{
    if nodes.len() - 1 > j {
        assert(nodes.drop_last().take(j) =~= nodes.take(j));
        assert(nodes.drop_last()[j] == nodes[j]);
        lemma_step_s_err(nodes.drop_last(), price, j);
    } else {
        assert(nodes.drop_last() =~= nodes.take(j));
    }
}

/// A capacity failure while summing a prefix is the failure of the
/// whole mass.
proof fn lemma_mass_s_err(nodes: Seq<NodeV>, pat: Pattern, k: int)
    requires
        0 <= k <= nodes.len(),
        mass_s(nodes.take(k), pat) is Err,
    ensures
        mass_s(nodes, pat) is Err,
        mass_s(nodes, pat)->Err_0 == mass_s(nodes.take(k), pat)->Err_0,
    decreases nodes.len(),
{
    if k < nodes.len() {
        assert(nodes.drop_last().take(k) =~= nodes.take(k));
        lemma_mass_s_err(nodes.drop_last(), pat, k);
    } else {
        assert(nodes.take(k) =~= nodes);
    }
}

/// A capacity failure while totalling a prefix is the failure of the
/// whole total.
proof fn lemma_total_s_err(entries: Seq<(Pattern, Rat)>, k: int)
    requires
        1 <= k <= entries.len(),
        total_s(entries.take(k)) is Err,
    ensures
        total_s(entries) is Err,
        total_s(entries)->Err_0 == total_s(entries.take(k))->Err_0,
    decreases entries.len(),
{
    if k < entries.len() {
        assert(entries.drop_last().take(k) =~= entries.take(k));
        lemma_total_s_err(entries.drop_last(), k);
    } else {
        assert(entries.take(k) =~= entries);
    }
}

/// A capacity failure while dividing a prefix is the failure of the
/// whole division.
proof fn lemma_divide_all_s_err(entries: Seq<(Pattern, Rat)>, total: Rat, k: int)
    requires
        0 <= k <= entries.len(),
        divide_all_s(entries.take(k), total) is Err,
    ensures
        divide_all_s(entries, total) is Err,
        divide_all_s(entries, total)->Err_0 == divide_all_s(entries.take(k), total)->Err_0,
    decreases entries.len(),
{
    if k < entries.len() {
        assert(entries.drop_last().take(k) =~= entries.take(k));
        lemma_divide_all_s_err(entries.drop_last(), total, k);
    } else {
        assert(entries.take(k) =~= entries);
    }
}

/// A capacity failure while sorting a prefix is the failure of the
/// whole sort.
proof fn lemma_sort_s_err(entries: Seq<(Pattern, Rat)>, k: int)
    requires
        0 <= k <= entries.len(),
        sort_s(entries.take(k)) is Err,
    ensures
        sort_s(entries) is Err,
        sort_s(entries)->Err_0 == sort_s(entries.take(k))->Err_0,
    decreases entries.len(),
{
    if k < entries.len() {
        assert(entries.drop_last().take(k) =~= entries.take(k));
        lemma_sort_s_err(entries.drop_last(), k);
    } else {
        assert(entries.take(k) =~= entries);
    }
}

} // verus!
