//! Laws of the filter, proved over the specification pipeline.

use vstd::prelude::*;

use crate::chains::{lemma_new_set_wf, new_set_s};
use crate::factory::CalcError;
use crate::node::{
    children_s, lemma_children_s_wf, node_wf_at, NodeV,
};
use crate::pattern::Pattern;
use crate::rational::{
    add_s, div_s, lemma_add_s_wf, lemma_div_s_self, rat_one, rat_wf, Rat,
};
use crate::{
    aggregate_s, divide_all_s, evolve_s, mass_s, normalize_s, run_s, sort_s, step_s, total_s,
    insert_pos_s,
};

verus! {

/// Whether a pattern appears in a result list.
pub open spec fn appears(s: Seq<(Pattern, Rat)>, pat: Pattern) -> bool {
    exists|i: int| 0 <= i < s.len() && s[i].0 == pat
}

/// One advancement step keeps every node well formed, one step later.
pub proof fn lemma_step_s_wf(nodes: Seq<NodeV>, price: Option<u32>, k: int)
    requires
        0 <= k <= 11,
        forall|i: int| 0 <= i < nodes.len() ==> node_wf_at(#[trigger] nodes[i], k),
        step_s(nodes, price) is Ok,
    ensures
        forall|i: int|
            0 <= i < step_s(nodes, price)->Ok_0.len() ==> node_wf_at(
                #[trigger] step_s(nodes, price)->Ok_0[i],
                k + 1,
            ),
    decreases nodes.len(),
{
    if nodes.len() > 0 {
        lemma_step_s_wf(nodes.drop_last(), price, k);
        lemma_children_s_wf(nodes.last(), price, k);
        let rest = step_s(nodes.drop_last(), price)->Ok_0;
        let cs = children_s(nodes.last(), price)->Ok_0;
        assert forall|i: int| 0 <= i < step_s(nodes, price)->Ok_0.len() implies node_wf_at(
            #[trigger] step_s(nodes, price)->Ok_0[i],
            k + 1,
        ) by {
            if i >= rest.len() {
                assert(step_s(nodes, price)->Ok_0[i] == cs[i - rest.len()]);
            }
        }
    }
}

/// The whole evolution keeps every node well formed.
pub proof fn lemma_evolve_s_wf(nodes: Seq<NodeV>, prices: Seq<Option<u32>>, k: int)
    requires
        0 <= k,
        k + prices.len() <= 12,
        forall|i: int| 0 <= i < nodes.len() ==> node_wf_at(#[trigger] nodes[i], k),
        evolve_s(nodes, prices) is Ok,
    ensures
        forall|i: int|
            0 <= i < evolve_s(nodes, prices)->Ok_0.len() ==> node_wf_at(
                #[trigger] evolve_s(nodes, prices)->Ok_0[i],
                k + prices.len(),
            ),
    decreases prices.len(),
{
    if prices.len() > 0 {
        lemma_evolve_s_wf(nodes, prices.drop_last(), k);
        lemma_step_s_wf(
            evolve_s(nodes, prices.drop_last())->Ok_0,
            prices.last(),
            k + prices.len() - 1,
        );
    }
}

/// Evolving an empty phase set keeps it empty.
pub proof fn lemma_evolve_s_empty(prices: Seq<Option<u32>>)
    ensures
        evolve_s(Seq::empty(), prices) == Ok::<Seq<NodeV>, CalcError>(Seq::empty()),
    decreases prices.len(),
{
    if prices.len() > 0 {
        lemma_evolve_s_empty(prices.drop_last());
    }
}

/// A pattern of which no node survives has no mass.
pub proof fn lemma_mass_s_none(nodes: Seq<NodeV>, pat: Pattern)
    requires
        forall|i: int| 0 <= i < nodes.len() ==> (#[trigger] nodes[i]).pattern != pat,
    ensures
        mass_s(nodes, pat) == Ok::<Option<Rat>, CalcError>(None),
    decreases nodes.len(),
{
    if nodes.len() > 0 {
        lemma_mass_s_none(nodes.drop_last(), pat);
    }
}

/// A pattern of which a node survives has mass.
pub proof fn lemma_mass_s_some(nodes: Seq<NodeV>, pat: Pattern)
    requires
        mass_s(nodes, pat) is Ok,
        exists|i: int| 0 <= i < nodes.len() && (#[trigger] nodes[i]).pattern == pat,
    ensures
        mass_s(nodes, pat)->Ok_0 is Some,
    decreases nodes.len(),
{
    if nodes.len() > 0 {
        let i = choose|i: int| 0 <= i < nodes.len() && (#[trigger] nodes[i]).pattern == pat;
        if nodes.last().pattern != pat {
            assert(nodes.drop_last()[i] == nodes[i]);
            lemma_mass_s_some(nodes.drop_last(), pat);
        }
    }
}

/// A mass summed from well-formed probabilities is well formed.
pub proof fn lemma_mass_s_wf(nodes: Seq<NodeV>, pat: Pattern)
    requires
        forall|i: int| 0 <= i < nodes.len() ==> rat_wf((#[trigger] nodes[i]).prob),
        mass_s(nodes, pat) is Ok,
    ensures
        mass_s(nodes, pat)->Ok_0 matches Some(m) ==> rat_wf(m),
    decreases nodes.len(),
{
    if nodes.len() > 0 {
        lemma_mass_s_wf(nodes.drop_last(), pat);
        if nodes.last().pattern == pat {
            match mass_s(nodes.drop_last(), pat)->Ok_0 {
                None => {},
                Some(m) => {
                    lemma_add_s_wf(m, nodes.last().prob);
                },
            }
        }
    }
}

/// Add a rational to a fraction held as an exact integer pair.
pub open spec fn fadd(f: (int, int), x: Rat) -> (int, int) {
    (f.0 * x.den + x.num * f.1, f.1 * x.den)
}

/// The exact sum of the probabilities in a result list, as a fraction.
pub open spec fn sum_frac(s: Seq<(Pattern, Rat)>) -> (int, int)
    decreases s.len(),
{
    if s.len() == 0 {
        (0, 1)
    } else {
        fadd(sum_frac(s.drop_last()), s.last().1)
    }
}

/// Equality of fractions held as integer pairs.
pub open spec fn frac_eq(f: (int, int), g: (int, int)) -> bool {
    f.0 * g.1 == g.0 * f.1
}

/// All probabilities in a list are well formed.
pub open spec fn all_wf(s: Seq<(Pattern, Rat)>) -> bool {
    forall|i: int| 0 <= i < s.len() ==> rat_wf((#[trigger] s[i]).1)
}

/// The denominator of an exact sum of well-formed entries is positive.
pub(crate) proof fn lemma_sum_frac_den_pos(s: Seq<(Pattern, Rat)>)
    requires
        all_wf(s),
    ensures
        sum_frac(s).1 >= 1,
    decreases s.len(),
{
    if s.len() > 0 {
        assert(rat_wf(s[s.len() - 1].1));
        lemma_sum_frac_den_pos(s.drop_last());
        crate::rational::lemma_mul_pos(sum_frac(s.drop_last()).1, s.last().1.den as int);
    }
}

/// Fraction equality is transitive across a fraction with positive
/// denominator.
pub(crate) proof fn lemma_frac_eq_trans(a: (int, int), b: (int, int), c: (int, int))
    by (nonlinear_arith)
    requires
        frac_eq(a, b),
        frac_eq(b, c),
        b.1 >= 1,
    ensures
        frac_eq(a, c),
{
}

/// The ring identity behind [`lemma_fadd_cong`].
#[verifier::rlimit(100)]
pub(crate) proof fn lemma_fadd_cong_int(f0: int, f1: int, g0: int, g1: int, xn: int, xd: int)
    requires
        f0 * g1 == g0 * f1,
    ensures
        (f0 * xd + xn * f1) * (g1 * xd) == (g0 * xd + xn * g1) * (f1 * xd),
{
    broadcast use vstd::arithmetic::mul::group_mul_properties;

    assert((f0 * xd + xn * f1) * (g1 * xd) == (f0 * xd) * (g1 * xd) + (xn * f1) * (g1 * xd));
    assert((f0 * xd) * (g1 * xd) == (f0 * g1) * (xd * xd)) by (nonlinear_arith);
    assert((xn * f1) * (g1 * xd) == (xn * xd) * (f1 * g1)) by (nonlinear_arith);
    assert((g0 * xd + xn * g1) * (f1 * xd) == (g0 * xd) * (f1 * xd) + (xn * g1) * (f1 * xd));
    assert((g0 * xd) * (f1 * xd) == (g0 * f1) * (xd * xd)) by (nonlinear_arith);
    assert((xn * g1) * (f1 * xd) == (xn * xd) * (f1 * g1)) by (nonlinear_arith);
}

/// Adding the same rational to equal fractions keeps them equal.
pub(crate) proof fn lemma_fadd_cong(f: (int, int), g: (int, int), x: Rat)
    requires
        frac_eq(f, g),
    ensures
        frac_eq(fadd(f, x), fadd(g, x)),
{
    lemma_fadd_cong_int(f.0, f.1, g.0, g.1, x.num as int, x.den as int);
}

/// The ring identities behind [`lemma_fadd_comm`].
#[verifier::rlimit(100)]
pub(crate) proof fn lemma_fadd_comm_int(f0: int, f1: int, xn: int, xd: int, yn: int, yd: int)
    ensures
        (f0 * xd + xn * f1) * yd + yn * (f1 * xd) == (f0 * yd + yn * f1) * xd + xn * (f1 * yd),
        (f1 * xd) * yd == (f1 * yd) * xd,
{
    broadcast use vstd::arithmetic::mul::group_mul_properties;

    assert((f0 * xd + xn * f1) * yd == (f0 * xd) * yd + (xn * f1) * yd);
    assert((f0 * yd + yn * f1) * xd == (f0 * yd) * xd + (yn * f1) * xd);
    assert((f0 * xd) * yd == (f0 * yd) * xd) by (nonlinear_arith);
    assert((xn * f1) * yd == xn * (f1 * yd)) by (nonlinear_arith);
    assert(yn * (f1 * xd) == (yn * f1) * xd) by (nonlinear_arith);
    assert((f1 * xd) * yd == (f1 * yd) * xd) by (nonlinear_arith);
}

/// Adding two rationals to a fraction commutes, exactly.
pub(crate) proof fn lemma_fadd_comm(f: (int, int), x: Rat, y: Rat)
    ensures
        fadd(fadd(f, x), y) == fadd(fadd(f, y), x),
{
    lemma_fadd_comm_int(f.0, f.1, x.num as int, x.den as int, y.num as int, y.den as int);
}

/// Cancellation of a positive factor.
proof fn lemma_cancel(c: int, a: int, b: int)
    by (nonlinear_arith)
    requires
        c >= 1,
        a * c == c * b,
    ensures
        a == b,
{
}

/// The total of the aggregated masses is their exact sum.
pub(crate) proof fn lemma_total_s_val(entries: Seq<(Pattern, Rat)>)
    requires
        all_wf(entries),
        entries.len() >= 1,
        total_s(entries) is Ok,
    ensures
        rat_wf(total_s(entries)->Ok_0),
        frac_eq(
            sum_frac(entries),
            (total_s(entries)->Ok_0.num as int, total_s(entries)->Ok_0.den as int),
        ),
    decreases entries.len(),
{
    let t = total_s(entries)->Ok_0;
    if entries.len() == 1 {
        assert(entries[0] == entries.first());
        assert(entries[0] == entries.last());
        assert(rat_wf(entries[0].1));
        let x = entries.last().1;
        assert(sum_frac(entries.drop_last()) == (0int, 1int));
        assert(sum_frac(entries) == fadd((0int, 1int), x));
        assert(fadd((0int, 1int), x).0 == x.num) by (nonlinear_arith);
        assert(fadd((0int, 1int), x).1 == x.den) by (nonlinear_arith);
        assert(x.num * x.den == x.num * x.den);
    } else {
        let dl = entries.drop_last();
        assert(all_wf(dl)) by {
            assert(forall|i: int| 0 <= i < dl.len() ==> dl[i] == entries[i]);
        }
        lemma_total_s_val(dl);
        let t1 = total_s(dl)->Ok_0;
        let x = entries.last().1;
        assert(rat_wf(x)) by {
            assert(entries[entries.len() - 1].1 == x);
        }
        crate::rational::lemma_add_s_wf(t1, x);
        crate::rational::lemma_add_s_val(t1, x);
        let t1p = (t1.num as int, t1.den as int);
        lemma_fadd_cong(sum_frac(dl), t1p, x);
        assert(frac_eq(fadd(t1p, x), (t.num as int, t.den as int)));
        lemma_sum_frac_den_pos(dl);
        crate::rational::lemma_mul_pos(t1.den as int, x.den as int);
        lemma_frac_eq_trans(sum_frac(entries), fadd(t1p, x), (t.num as int, t.den as int));
    }
}

/// The ring identity behind [`lemma_divide_all_props`]: dividing one
/// more mass by the total extends the divided sum.
#[verifier::rlimit(100)]
proof fn lemma_div_sum_step(
    p0: int,
    p1: int,
    qn: int,
    qd: int,
    s0: int,
    s1: int,
    xn: int,
    xd: int,
    tn: int,
    td: int,
)
    requires
        p0 * (s1 * tn) == (s0 * td) * p1,
        qn * (xd * tn) == (xn * td) * qd,
    ensures
        (p0 * qd + qn * p1) * ((s1 * xd) * tn) == (((s0 * xd) + (xn * s1)) * td) * (p1 * qd),
{
    broadcast use vstd::arithmetic::mul::group_mul_properties;

    assert((p0 * qd + qn * p1) * ((s1 * xd) * tn) == (p0 * qd) * ((s1 * xd) * tn) + (qn * p1) * ((
    s1 * xd) * tn));
    assert((p0 * qd) * ((s1 * xd) * tn) == (p0 * (s1 * tn)) * (qd * xd)) by (nonlinear_arith);
    assert(((s0 * td) * p1) * (qd * xd) == ((s0 * xd) * td) * (p1 * qd)) by (nonlinear_arith);
    assert((qn * p1) * ((s1 * xd) * tn) == (qn * (xd * tn)) * (p1 * s1)) by (nonlinear_arith);
    assert(((xn * td) * qd) * (p1 * s1) == ((xn * s1) * td) * (p1 * qd)) by (nonlinear_arith);
    assert((((s0 * xd) + (xn * s1)) * td) * (p1 * qd) == ((s0 * xd) * td) * (p1 * qd) + ((xn * s1)
        * td) * (p1 * qd)) by (nonlinear_arith);
}

/// Dividing every mass by the total keeps length, patterns and
/// well-formedness, and divides the exact sum by the total.
pub(crate) proof fn lemma_divide_all_props(entries: Seq<(Pattern, Rat)>, total: Rat)
    requires
        all_wf(entries),
        rat_wf(total),
        divide_all_s(entries, total) is Ok,
    ensures
        divide_all_s(entries, total)->Ok_0.len() == entries.len(),
        all_wf(divide_all_s(entries, total)->Ok_0),
        forall|i: int|
            0 <= i < entries.len() ==> (#[trigger] divide_all_s(entries, total)->Ok_0[i]).0
                == entries[i].0,
        forall|i: int|
            0 <= i < entries.len() ==> div_s((#[trigger] entries[i]).1, total) is Some
                && divide_all_s(entries, total)->Ok_0[i].1 == div_s(entries[i].1, total).unwrap(),
        frac_eq(
            sum_frac(divide_all_s(entries, total)->Ok_0),
            (sum_frac(entries).0 * total.den, sum_frac(entries).1 * total.num),
        ),
    decreases entries.len(),
{
    let out = divide_all_s(entries, total)->Ok_0;
    if entries.len() == 0 {
        assert(sum_frac(out) == (0int, 1int));
        assert(0 * (sum_frac(entries).1 * total.num) == (sum_frac(entries).0 * total.den) * 1)
            by (nonlinear_arith)
            requires
                sum_frac(entries).0 == 0,
        ;
    } else {
        let dl = entries.drop_last();
        assert(all_wf(dl)) by {
            assert(forall|i: int| 0 <= i < dl.len() ==> dl[i] == entries[i]);
        }
        lemma_divide_all_props(dl, total);
        let prev = divide_all_s(dl, total)->Ok_0;
        let x = entries.last().1;
        assert(rat_wf(x)) by {
            assert(entries[entries.len() - 1].1 == x);
        }
        let q = div_s(x, total).unwrap();
        crate::rational::lemma_div_s_val(x, total);
        assert(out == prev.push((entries.last().0, q)));
        assert(out.drop_last() =~= prev);
        assert(sum_frac(out) == fadd(sum_frac(prev), q));
        let sp = sum_frac(dl);
        let s = sum_frac(entries);
        lemma_div_sum_step(
            sum_frac(prev).0,
            sum_frac(prev).1,
            q.num as int,
            q.den as int,
            sp.0,
            sp.1,
            x.num as int,
            x.den as int,
            total.num as int,
            total.den as int,
        );
        assert(s == fadd(sp, x));
        assert(forall|i: int|
            0 <= i < entries.len() ==> (#[trigger] out[i]).0 == entries[i].0) by {
            assert(forall|i: int| 0 <= i < dl.len() ==> out[i] == prev[i]);
            assert(out[entries.len() - 1].0 == entries.last().0);
        }
        assert(all_wf(out)) by {
            assert(forall|i: int| 0 <= i < prev.len() ==> out[i] == prev[i]);
        }
        assert forall|i: int| 0 <= i < entries.len() implies div_s(
            (#[trigger] entries[i]).1,
            total,
        ) is Some && out[i].1 == div_s(entries[i].1, total).unwrap() by {
            if i < dl.len() {
                assert(out[i] == prev[i]);
                assert(entries[i] == dl[i]);
            } else {
                assert(out[i].1 == q);
                assert(entries[i] == entries.last());
            }
        }
    }
}

/// A stable insertion adds exactly the inserted probability to the sum.
proof fn lemma_sum_frac_insert(s: Seq<(Pattern, Rat)>, p: int, x: (Pattern, Rat))
    requires
        0 <= p <= s.len(),
        all_wf(s),
        rat_wf(x.1),
    ensures
        frac_eq(sum_frac(s.insert(p, x)), fadd(sum_frac(s), x.1)),
    decreases s.len(),
{
    if p == s.len() {
        assert(s.insert(p, x) =~= s.push(x));
        assert(s.push(x).drop_last() =~= s);
        assert(s.push(x).last() == x);
    } else {
        let ins = s.insert(p, x);
        let dl = s.drop_last();
        assert(all_wf(dl)) by {
            assert(forall|i: int| 0 <= i < dl.len() ==> dl[i] == s[i]);
        }
        assert(ins.drop_last() =~= dl.insert(p, x));
        assert(ins.last() == s.last());
        assert(rat_wf(s.last().1)) by {
            assert(s[s.len() - 1].1 == s.last().1);
        }
        lemma_sum_frac_insert(dl, p, x);
        lemma_fadd_cong(sum_frac(dl.insert(p, x)), fadd(sum_frac(dl), x.1), s.last().1);
        lemma_fadd_comm(sum_frac(dl), x.1, s.last().1);
        assert(fadd(fadd(sum_frac(dl), s.last().1), x.1) == fadd(sum_frac(s), x.1));
        lemma_sum_frac_den_pos(dl);
        crate::rational::lemma_mul_pos(sum_frac(dl).1, x.1.den as int);
        crate::rational::lemma_mul_pos(sum_frac(dl).1 * x.1.den, s.last().1.den as int);
        lemma_frac_eq_trans(
            sum_frac(ins),
            fadd(fadd(sum_frac(dl), x.1), s.last().1),
            fadd(sum_frac(s), x.1),
        );
    }
}

/// Sorting keeps length, the set of patterns, well-formedness and the
/// exact sum of the probabilities.
proof fn lemma_sort_s_props(s: Seq<(Pattern, Rat)>)
    requires
        all_wf(s),
        sort_s(s) is Ok,
    ensures
        sort_s(s)->Ok_0.len() == s.len(),
        all_wf(sort_s(s)->Ok_0),
        forall|pat: Pattern| appears(sort_s(s)->Ok_0, pat) <==> appears(s, pat),
        frac_eq(sum_frac(sort_s(s)->Ok_0), sum_frac(s)),
    decreases s.len(),
{
    let out = sort_s(s)->Ok_0;
    if s.len() == 0 {
    } else {
        let dl = s.drop_last();
        assert(all_wf(dl)) by {
            assert(forall|i: int| 0 <= i < dl.len() ==> dl[i] == s[i]);
        }
        lemma_sort_s_props(dl);
        let sorted = sort_s(dl)->Ok_0;
        let p = insert_pos_s(sorted, s.last().1)->Ok_0;
        lemma_insert_pos_range(sorted, s.last().1);
        assert(rat_wf(s.last().1)) by {
            assert(s[s.len() - 1].1 == s.last().1);
        }
        lemma_sum_frac_insert(sorted, p, (s.last().0, s.last().1));
        assert(out == sorted.insert(p, (s.last().0, s.last().1))) by {
            assert(s.last() == (s.last().0, s.last().1));
        }
        lemma_fadd_cong(sum_frac(sorted), sum_frac(dl), s.last().1);
        lemma_sum_frac_den_pos(sorted);
        crate::rational::lemma_mul_pos(sum_frac(sorted).1, s.last().1.den as int);
        lemma_frac_eq_trans(sum_frac(out), fadd(sum_frac(sorted), s.last().1), sum_frac(s));
        assert(all_wf(out)) by {
            assert(forall|i: int| 0 <= i < p ==> out[i] == sorted[i]);
            assert(forall|i: int| p < i < out.len() ==> out[i] == sorted[i - 1]);
            assert(out[p] == s.last());
        }
        assert forall|pat: Pattern| appears(out, pat) <==> appears(s, pat) by {
            assert(forall|i: int| 0 <= i < p ==> out[i] == sorted[i]);
            assert(forall|i: int| p < i < out.len() ==> out[i] == sorted[i - 1]);
            assert(out[p] == s.last());
            if appears(out, pat) {
                let i = choose|i: int| 0 <= i < out.len() && out[i].0 == pat;
                if i == p {
                    assert(s[s.len() - 1].0 == pat);
                } else {
                    let ii = if i < p {
                        i
                    } else {
                        i - 1
                    };
                    assert(sorted[ii].0 == pat);
                    assert(appears(sorted, pat));
                    assert(appears(dl, pat));
                    let j = choose|j: int| 0 <= j < dl.len() && dl[j].0 == pat;
                    assert(dl[j] == s[j]);
                    assert(s[j].0 == pat);
                }
            }
            if appears(s, pat) {
                let i = choose|i: int| 0 <= i < s.len() && s[i].0 == pat;
                if i == s.len() - 1 {
                    assert(out[p].0 == pat);
                } else {
                    assert(dl[i] == s[i]);
                    assert(dl[i].0 == pat);
                    assert(appears(dl, pat));
                    assert(appears(sorted, pat));
                    let j = choose|j: int| 0 <= j < sorted.len() && sorted[j].0 == pat;
                    if j < p {
                        assert(out[j].0 == pat);
                    } else {
                        assert(out[j + 1].0 == pat);
                    }
                }
            }
        }
    }
}

/// An insertion position lies within the list.
proof fn lemma_insert_pos_range(s: Seq<(Pattern, Rat)>, x: Rat)
    requires
        insert_pos_s(s, x) is Ok,
    ensures
        0 <= insert_pos_s(s, x)->Ok_0 <= s.len(),
    decreases s.len(),
{
    if s.len() > 0 {
        match crate::rational::lt_s(s.first().1, x) {
            Some(true) => {},
            Some(false) => {
                lemma_insert_pos_range(s.drop_first(), x);
            },
            None => {},
        }
    }
}

/// The probabilities of the aggregated masses are well formed.
proof fn lemma_aggregate_s_wf(sv: Seq<NodeV>)
    requires
        forall|i: int| 0 <= i < sv.len() ==> rat_wf((#[trigger] sv[i]).prob),
        aggregate_s(sv) is Ok,
    ensures
        all_wf(aggregate_s(sv)->Ok_0),
{
    lemma_mass_s_wf(sv, Pattern::Decreasing);
    lemma_mass_s_wf(sv, Pattern::Random);
    lemma_mass_s_wf(sv, Pattern::SmallSpike);
    lemma_mass_s_wf(sv, Pattern::LargeSpike);
    let e1 = crate::opt_entry(Pattern::Decreasing, mass_s(sv, Pattern::Decreasing)->Ok_0);
    let e2 = crate::opt_entry(Pattern::Random, mass_s(sv, Pattern::Random)->Ok_0);
    let e3 = crate::opt_entry(Pattern::SmallSpike, mass_s(sv, Pattern::SmallSpike)->Ok_0);
    let e4 = crate::opt_entry(Pattern::LargeSpike, mass_s(sv, Pattern::LargeSpike)->Ok_0);
    let entries = aggregate_s(sv)->Ok_0;
    assert(entries == e1 + e2 + e3 + e4);
    assert forall|i: int| 0 <= i < entries.len() implies rat_wf((#[trigger] entries[i]).1) by {
        if i < e1.len() {
            assert(entries[i] == e1[i]);
        } else if i < e1.len() + e2.len() {
            assert(entries[i] == e2[i - e1.len()]);
        } else if i < e1.len() + e2.len() + e3.len() {
            assert(entries[i] == e3[i - e1.len() - e2.len()]);
        } else {
            assert(entries[i] == e4[i - e1.len() - e2.len() - e3.len()]);
        }
    }
}

/// For all valid inputs, the returned probabilities sum exactly to one
/// whenever the result is non-empty.
pub proof fn lemma_probabilities_sum_to_one(prev: Option<Pattern>, base: u32, prices: Seq<
    Option<u32>,
>)
    requires
        prices.len() <= 12,
        run_s(prev, base, prices) is Ok,
        run_s(prev, base, prices)->Ok_0.len() > 0,
    ensures
        sum_frac(run_s(prev, base, prices)->Ok_0).0 == sum_frac(run_s(prev, base, prices)->Ok_0).1,
        sum_frac(run_s(prev, base, prices)->Ok_0).1 >= 1,
{
    let sv = evolve_s(new_set_s(base, prev), prices)->Ok_0;
    lemma_new_set_wf(base, prev);
    lemma_evolve_s_wf(new_set_s(base, prev), prices, 0);
    assert forall|i: int| 0 <= i < sv.len() implies rat_wf((#[trigger] sv[i]).prob) by {
        assert(node_wf_at(sv[i], prices.len() as int));
    }
    let entries = aggregate_s(sv)->Ok_0;
    lemma_aggregate_s_wf(sv);
    let normed = normalize_s(entries)->Ok_0;
    let result = run_s(prev, base, prices)->Ok_0;
    if entries.len() == 0 {
        assert(normed.len() == 0);
        assert(result.len() == 0);
    }
    let total = total_s(entries)->Ok_0;
    lemma_total_s_val(entries);
    lemma_divide_all_props(entries, total);
    let s = sum_frac(entries);
    let c = s.0 * total.den;
    assert(c == s.1 * total.num) by {
        assert(s.0 * total.den == total.num * s.1);
        assert(total.num * s.1 == s.1 * total.num) by (nonlinear_arith);
    }
    lemma_sum_frac_den_pos(entries);
    crate::rational::lemma_mul_pos(s.1, total.num as int);
    assert(frac_eq(sum_frac(normed), (c, c)));
    lemma_sum_frac_den_pos(normed);
    assert(sum_frac(normed).0 == sum_frac(normed).1) by {
        assert(sum_frac(normed).0 * c == c * sum_frac(normed).1);
        lemma_cancel(c, sum_frac(normed).0, sum_frac(normed).1);
    }
    lemma_sort_s_props(normed);
    lemma_sum_frac_den_pos(result);
    assert(sum_frac(result).0 == sum_frac(result).1) by {
        assert(sum_frac(result).0 * sum_frac(normed).1 == sum_frac(normed).0 * sum_frac(result).1);
        lemma_cancel(sum_frac(normed).1, sum_frac(result).0, sum_frac(result).1);
    }
}

/// Boundary behaviour of the base price: outside the valid range the
/// run returns the empty result whatever the observations; at and
/// within the edges the full root set is built.
pub proof fn lemma_boundary_base_price(prev: Option<Pattern>, base: u32, prices: Seq<Option<u32>>)
    ensures
        (base < 90 || base > 110) ==> run_s(prev, base, prices) == Ok::<
            Seq<(Pattern, Rat)>,
            CalcError,
        >(Seq::empty()),
        90 <= base <= 110 ==> new_set_s(base, prev).len() == 6,
{
    lemma_new_set_wf(base, prev);
    if base < 90 || base > 110 {
        assert(new_set_s(base, prev) =~= Seq::<NodeV>::empty());
        lemma_evolve_s_empty(prices);
        let sv = Seq::<NodeV>::empty();
        lemma_mass_s_none(sv, Pattern::Decreasing);
        lemma_mass_s_none(sv, Pattern::Random);
        lemma_mass_s_none(sv, Pattern::SmallSpike);
        lemma_mass_s_none(sv, Pattern::LargeSpike);
        assert(aggregate_s(sv)->Ok_0 =~= Seq::<(Pattern, Rat)>::empty());
        assert(run_s(prev, base, prices)->Ok_0 =~= Seq::<(Pattern, Rat)>::empty());
    }
}

/// A pattern with mass has a surviving node.
pub(crate) proof fn lemma_mass_s_some_inv(nodes: Seq<NodeV>, pat: Pattern)
    requires
        mass_s(nodes, pat) is Ok,
        mass_s(nodes, pat)->Ok_0 is Some,
    ensures
        exists|i: int| 0 <= i < nodes.len() && (#[trigger] nodes[i]).pattern == pat,
    decreases nodes.len(),
{
    if nodes.len() > 0 {
        if nodes.last().pattern == pat {
            assert(nodes[nodes.len() - 1].pattern == pat);
        } else {
            lemma_mass_s_some_inv(nodes.drop_last(), pat);
            let i = choose|i: int|
                0 <= i < nodes.drop_last().len() && (#[trigger] nodes.drop_last()[i]).pattern
                    == pat;
            assert(nodes[i].pattern == pat);
        }
    }
}

/// A step's members are children of the stepped nodes, and every child
/// is a member of the step.
proof fn lemma_step_s_children_ok(nodes: Seq<NodeV>, price: Option<u32>, j: int)
    requires
        step_s(nodes, price) is Ok,
        0 <= j < nodes.len(),
    ensures
        children_s(nodes[j], price) is Ok,
    decreases nodes.len(),
{
    if j < nodes.len() - 1 {
        assert(nodes.drop_last()[j] == nodes[j]);
        lemma_step_s_children_ok(nodes.drop_last(), price, j);
    }
}

/// A member of a step is a child of one of the stepped nodes.
proof fn lemma_step_s_mem_inv(nodes: Seq<NodeV>, price: Option<u32>, k: int)
    requires
        step_s(nodes, price) is Ok,
        0 <= k < step_s(nodes, price)->Ok_0.len(),
    ensures
        exists|j: int, c: int|
            0 <= j < nodes.len() && children_s(nodes[j], price) is Ok && 0 <= c
                < children_s(nodes[j], price)->Ok_0.len() && #[trigger] children_s(
                nodes[j],
                price,
            )->Ok_0[c] == step_s(nodes, price)->Ok_0[k],
    decreases nodes.len(),
{
    let out = step_s(nodes, price)->Ok_0;
    let rest = step_s(nodes.drop_last(), price)->Ok_0;
    let cs = children_s(nodes.last(), price)->Ok_0;
    if k < rest.len() {
        lemma_step_s_mem_inv(nodes.drop_last(), price, k);
        let (j, c) = choose|j: int, c: int|
            0 <= j < nodes.drop_last().len() && children_s(nodes.drop_last()[j], price) is Ok && 0
                <= c < children_s(nodes.drop_last()[j], price)->Ok_0.len() && #[trigger] children_s(
                nodes.drop_last()[j],
                price,
            )->Ok_0[c] == rest[k];
        assert(nodes[j] == nodes.drop_last()[j]);
        assert(out[k] == rest[k]);
        assert(children_s(nodes[j], price)->Ok_0[c] == out[k]);
    } else {
        assert(out[k] == cs[k - rest.len()]);
        assert(nodes[nodes.len() - 1] == nodes.last());
        assert(children_s(nodes[nodes.len() - 1], price)->Ok_0[k - rest.len()] == out[k]);
    }
}

/// Every child of a stepped node is a member of the step.
proof fn lemma_step_s_mem_fwd(nodes: Seq<NodeV>, price: Option<u32>, j: int, c: int)
    requires
        step_s(nodes, price) is Ok,
        0 <= j < nodes.len(),
        children_s(nodes[j], price) is Ok,
        0 <= c < children_s(nodes[j], price)->Ok_0.len(),
    ensures
        exists|k: int|
            0 <= k < step_s(nodes, price)->Ok_0.len() && #[trigger] step_s(nodes, price)->Ok_0[k]
                == children_s(nodes[j], price)->Ok_0[c],
    decreases nodes.len(),
{
    let out = step_s(nodes, price)->Ok_0;
    let rest = step_s(nodes.drop_last(), price)->Ok_0;
    let cs = children_s(nodes.last(), price)->Ok_0;
    if j < nodes.len() - 1 {
        assert(nodes.drop_last()[j] == nodes[j]);
        lemma_step_s_mem_fwd(nodes.drop_last(), price, j, c);
        let k = choose|k: int|
            0 <= k < rest.len() && #[trigger] rest[k] == children_s(nodes[j], price)->Ok_0[c];
        assert(out[k] == rest[k]);
    } else {
        assert(nodes[j] == nodes.last());
        assert(out[rest.len() + c] == cs[c]);
    }
}

/// An unknown price never prunes: the children are at least one.
proof fn lemma_children_s_none_nonempty(n: NodeV)
    requires
        children_s(n, None) is Ok,
    ensures
        children_s(n, None)->Ok_0.len() >= 1,
{
}

/// A pattern appears among the aggregated entries exactly where it has
/// surviving mass.
proof fn lemma_aggregate_s_appears(sv: Seq<NodeV>, pat: Pattern)
    requires
        aggregate_s(sv) is Ok,
    ensures
        appears(aggregate_s(sv)->Ok_0, pat) <==> mass_s(sv, pat)->Ok_0 is Some,
{
    let e1 = crate::opt_entry(Pattern::Decreasing, mass_s(sv, Pattern::Decreasing)->Ok_0);
    let e2 = crate::opt_entry(Pattern::Random, mass_s(sv, Pattern::Random)->Ok_0);
    let e3 = crate::opt_entry(Pattern::SmallSpike, mass_s(sv, Pattern::SmallSpike)->Ok_0);
    let e4 = crate::opt_entry(Pattern::LargeSpike, mass_s(sv, Pattern::LargeSpike)->Ok_0);
    let entries = aggregate_s(sv)->Ok_0;
    assert(entries == e1 + e2 + e3 + e4);
    if appears(entries, pat) {
        let i = choose|i: int| 0 <= i < entries.len() && entries[i].0 == pat;
        if i < e1.len() {
            assert(entries[i] == e1[i]);
        } else if i < e1.len() + e2.len() {
            assert(entries[i] == e2[i - e1.len()]);
        } else if i < e1.len() + e2.len() + e3.len() {
            assert(entries[i] == e3[i - e1.len() - e2.len()]);
        } else {
            assert(entries[i] == e4[i - e1.len() - e2.len() - e3.len()]);
        }
    }
    if mass_s(sv, pat)->Ok_0 is Some {
        match pat {
            Pattern::Decreasing => {
                assert(entries[0] == e1[0]);
                assert(entries[0].0 == pat);
            },
            Pattern::Random => {
                assert(entries[e1.len() as int] == e2[0]);
                assert(entries[e1.len() as int].0 == pat);
            },
            Pattern::SmallSpike => {
                assert(entries[(e1.len() + e2.len()) as int] == e3[0]);
                assert(entries[(e1.len() + e2.len()) as int].0 == pat);
            },
            Pattern::LargeSpike => {
                assert(entries[(e1.len() + e2.len() + e3.len()) as int] == e4[0]);
                assert(entries[(e1.len() + e2.len() + e3.len()) as int].0 == pat);
            },
        }
    }
}

/// The pattern set of a run's result is the pattern set of its
/// surviving nodes.
proof fn lemma_result_patterns(prev: Option<Pattern>, base: u32, prices: Seq<Option<u32>>, pat: Pattern)
    requires
        prices.len() <= 12,
        run_s(prev, base, prices) is Ok,
    ensures
        appears(run_s(prev, base, prices)->Ok_0, pat) <==> exists|i: int|
            0 <= i < evolve_s(new_set_s(base, prev), prices)->Ok_0.len() && (
            #[trigger] evolve_s(new_set_s(base, prev), prices)->Ok_0[i]).pattern == pat,
{
    let sv = evolve_s(new_set_s(base, prev), prices)->Ok_0;
    lemma_new_set_wf(base, prev);
    lemma_evolve_s_wf(new_set_s(base, prev), prices, 0);
    assert forall|i: int| 0 <= i < sv.len() implies rat_wf((#[trigger] sv[i]).prob) by {
        assert(node_wf_at(sv[i], prices.len() as int));
    }
    let entries = aggregate_s(sv)->Ok_0;
    lemma_aggregate_s_wf(sv);
    lemma_aggregate_s_appears(sv, pat);
    let normed = normalize_s(entries)->Ok_0;
    let result = run_s(prev, base, prices)->Ok_0;
    // The normalised entries carry the same patterns.
    if entries.len() == 0 {
        assert(normed.len() == 0);
    } else {
        let total = total_s(entries)->Ok_0;
        lemma_total_s_val(entries);
        lemma_divide_all_props(entries, total);
        assert forall|q: Pattern| appears(normed, q) <==> appears(entries, q) by {
            if appears(normed, q) {
                let i = choose|i: int| 0 <= i < normed.len() && normed[i].0 == q;
                assert(entries[i].0 == q);
            }
            if appears(entries, q) {
                let i = choose|i: int| 0 <= i < entries.len() && entries[i].0 == q;
                assert(normed[i].0 == q);
            }
        }
        lemma_sort_s_props(normed);
    }
    if appears(result, pat) {
        lemma_mass_s_some_inv(sv, pat);
    }
    if exists|i: int| 0 <= i < sv.len() && (#[trigger] sv[i]).pattern == pat {
        lemma_mass_s_some(sv, pat);
    }
}

/// Missing-observation tolerance at the final position: replacing the
/// last observed price with unknown keeps every pattern that the full
/// sequence kept.
pub proof fn lemma_unknown_final_observation_keeps_patterns(
    prev: Option<Pattern>,
    base: u32,
    prices: Seq<Option<u32>>,
    pat: Pattern,
)
    requires
        1 <= prices.len() <= 12,
        run_s(prev, base, prices) is Ok,
        run_s(prev, base, prices.update(prices.len() - 1, None)) is Ok,
        appears(run_s(prev, base, prices)->Ok_0, pat),
    ensures
        appears(run_s(prev, base, prices.update(prices.len() - 1, None))->Ok_0, pat),
{
    let prices2 = prices.update(prices.len() - 1, None);
    assert(prices2.drop_last() =~= prices.drop_last());
    assert(prices2.last() == None::<u32>);
    let roots = new_set_s(base, prev);
    lemma_new_set_wf(base, prev);
    let g = evolve_s(roots, prices.drop_last())->Ok_0;
    lemma_evolve_s_wf(roots, prices.drop_last(), 0);
    let k = prices.len() - 1;
    let sv1 = step_s(g, prices.last())->Ok_0;
    let sv2 = step_s(g, None)->Ok_0;
    lemma_result_patterns(prev, base, prices, pat);
    let i = choose|i: int| 0 <= i < sv1.len() && (#[trigger] sv1[i]).pattern == pat;
    lemma_step_s_mem_inv(g, prices.last(), i);
    let (j, c) = choose|j: int, c: int|
        0 <= j < g.len() && children_s(g[j], prices.last()) is Ok && 0 <= c < children_s(
            g[j],
            prices.last(),
        )->Ok_0.len() && #[trigger] children_s(g[j], prices.last())->Ok_0[c] == sv1[i];
    lemma_children_s_wf(g[j], prices.last(), k);
    assert(g[j].pattern == pat);
    lemma_step_s_children_ok(g, None, j);
    lemma_children_s_none_nonempty(g[j]);
    lemma_children_s_wf(g[j], None, k);
    assert(children_s(g[j], None)->Ok_0[0].pattern == pat);
    lemma_step_s_mem_fwd(g, None, j, 0);
    let m = choose|m: int|
        0 <= m < sv2.len() && #[trigger] sv2[m] == children_s(g[j], None)->Ok_0[0];
    assert(sv2[m].pattern == pat);
    lemma_result_patterns(prev, base, prices2, pat);
}

/// A fully deterministic, unambiguous observation sequence: where every
/// surviving phase belongs to one pattern and at least one survives,
/// the result is exactly that pattern with probability one.
pub proof fn lemma_sole_pattern_is_certain(
    prev: Option<Pattern>,
    base: u32,
    prices: Seq<Option<u32>>,
    pat: Pattern,
)
    requires
        prices.len() <= 12,
        run_s(prev, base, prices) is Ok,
        evolve_s(new_set_s(base, prev), prices) is Ok,
        evolve_s(new_set_s(base, prev), prices)->Ok_0.len() > 0,
        forall|i: int|
            0 <= i < evolve_s(new_set_s(base, prev), prices)->Ok_0.len() ==> (
            #[trigger] evolve_s(new_set_s(base, prev), prices)->Ok_0[i]).pattern == pat,
    ensures
        run_s(prev, base, prices)->Ok_0 == seq![(pat, rat_one())],
{
    let sv = evolve_s(new_set_s(base, prev), prices)->Ok_0;
    lemma_new_set_wf(base, prev);
    lemma_evolve_s_wf(new_set_s(base, prev), prices, 0);
    assert forall|i: int| 0 <= i < sv.len() implies rat_wf((#[trigger] sv[i]).prob) by {
        assert(node_wf_at(sv[i], prices.len() as int));
    }
    assert(sv[0].pattern == pat);
    lemma_mass_s_some(sv, pat);
    lemma_mass_s_wf(sv, pat);
    let m = mass_s(sv, pat)->Ok_0.unwrap();
    let entries = aggregate_s(sv)->Ok_0;
    match pat {
        Pattern::Decreasing => {
            lemma_mass_s_none(sv, Pattern::Random);
            lemma_mass_s_none(sv, Pattern::SmallSpike);
            lemma_mass_s_none(sv, Pattern::LargeSpike);
            assert(entries =~= seq![(pat, m)]);
        },
        Pattern::Random => {
            lemma_mass_s_none(sv, Pattern::Decreasing);
            lemma_mass_s_none(sv, Pattern::SmallSpike);
            lemma_mass_s_none(sv, Pattern::LargeSpike);
            assert(entries =~= seq![(pat, m)]);
        },
        Pattern::SmallSpike => {
            lemma_mass_s_none(sv, Pattern::Decreasing);
            lemma_mass_s_none(sv, Pattern::Random);
            lemma_mass_s_none(sv, Pattern::LargeSpike);
            assert(entries =~= seq![(pat, m)]);
        },
        Pattern::LargeSpike => {
            lemma_mass_s_none(sv, Pattern::Decreasing);
            lemma_mass_s_none(sv, Pattern::Random);
            lemma_mass_s_none(sv, Pattern::SmallSpike);
            assert(entries =~= seq![(pat, m)]);
        },
    }
    // Normalising a single mass divides it by itself.
    assert(entries.first() == (pat, m));
    assert(total_s(entries) == Ok::<Rat, CalcError>(m));
    assert(entries.drop_last() =~= Seq::<(Pattern, Rat)>::empty());
    assert(divide_all_s(entries.drop_last(), m) == Ok::<Seq<(Pattern, Rat)>, CalcError>(
        Seq::empty(),
    ));
    assert(normalize_s(entries) is Ok);
    lemma_div_s_self(m);
    let normed = normalize_s(entries)->Ok_0;
    assert(normed =~= seq![(pat, rat_one())]);
    // Sorting a singleton returns it.
    assert(normed.drop_last() =~= Seq::<(Pattern, Rat)>::empty());
    assert(sort_s(normed.drop_last()) == Ok::<Seq<(Pattern, Rat)>, CalcError>(Seq::empty()));
    assert(normed.last() == (pat, rat_one()));
    assert(insert_pos_s(Seq::empty(), normed.last().1) == Ok::<int, CalcError>(0));
    assert(sort_s(normed) == Ok::<Seq<(Pattern, Rat)>, CalcError>(
        Seq::empty().insert(0, normed.last()),
    ));
    assert(Seq::<(Pattern, Rat)>::empty().insert(0, (pat, rat_one())) =~= seq![
        (pat, rat_one()),
    ]);
    assert(sort_s(normed)->Ok_0 =~= seq![(pat, rat_one())]);
}

} // verus!
