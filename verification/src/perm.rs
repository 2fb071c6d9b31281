//! Order-independence of the aggregation: reordering the surviving
//! phases at any step cannot change the aggregated, normalised result.

use vstd::prelude::*;

use crate::factory::CalcError;
use crate::laws::{
    all_wf, fadd, frac_eq, lemma_divide_all_props, lemma_fadd_cong, lemma_fadd_comm,
    lemma_frac_eq_trans, lemma_mass_s_none, lemma_mass_s_some, lemma_mass_s_wf,
    lemma_sum_frac_den_pos, lemma_total_s_val, sum_frac,
};
use crate::node::NodeV;
use crate::pattern::Pattern;
use crate::rational::{add_s, div_s, rat_eq_v, rat_wf, Rat};
use crate::{aggregate_s, divide_all_s, mass_s, normalize_s, opt_entry, total_s};

verus! {

/// All node probabilities in a list are well formed.
pub open spec fn all_probs_wf(nodes: Seq<NodeV>) -> bool {
    forall|i: int| 0 <= i < nodes.len() ==> rat_wf((#[trigger] nodes[i]).prob)
}

/// The exact, capacity-free mass of one pattern over a node list.
pub open spec fn vmass(nodes: Seq<NodeV>, pat: Pattern) -> (int, int)
    decreases nodes.len(),
{
    if nodes.len() == 0 {
        (0, 1)
    } else if nodes.last().pattern == pat {
        fadd(vmass(nodes.drop_last(), pat), nodes.last().prob)
    } else {
        vmass(nodes.drop_last(), pat)
    }
}

/// The denominator of an exact mass is positive.
proof fn lemma_vmass_den_pos(nodes: Seq<NodeV>, pat: Pattern)
    requires
        all_probs_wf(nodes),
    ensures
        vmass(nodes, pat).1 >= 1,
    decreases nodes.len(),
{
    if nodes.len() > 0 {
        assert(rat_wf(nodes[nodes.len() - 1].prob));
        assert(all_probs_wf(nodes.drop_last())) by {
            assert(forall|i: int|
                0 <= i < nodes.drop_last().len() ==> nodes.drop_last()[i] == nodes[i]);
        }
        lemma_vmass_den_pos(nodes.drop_last(), pat);
        crate::rational::lemma_mul_pos(
            vmass(nodes.drop_last(), pat).1,
            nodes.last().prob.den as int,
        );
    }
}

/// The computed mass equals the exact mass; an absent mass means an
/// exact mass of zero.
proof fn lemma_mass_s_val(nodes: Seq<NodeV>, pat: Pattern)
    requires
        all_probs_wf(nodes),
        mass_s(nodes, pat) is Ok,
    ensures
        mass_s(nodes, pat)->Ok_0 matches Some(m) ==> frac_eq(
            (m.num as int, m.den as int),
            vmass(nodes, pat),
        ),
        mass_s(nodes, pat)->Ok_0 is None ==> vmass(nodes, pat) == (0int, 1int),
    decreases nodes.len(),
{
    if nodes.len() > 0 {
        let dl = nodes.drop_last();
        assert(all_probs_wf(dl)) by {
            assert(forall|i: int| 0 <= i < dl.len() ==> dl[i] == nodes[i]);
        }
        lemma_mass_s_val(dl, pat);
        let x = nodes.last().prob;
        assert(rat_wf(x)) by {
            assert(nodes[nodes.len() - 1].prob == x);
        }
        if nodes.last().pattern == pat {
            match mass_s(dl, pat)->Ok_0 {
                None => {
                    assert(vmass(nodes, pat) == fadd((0int, 1int), x));
                    assert(fadd((0int, 1int), x).0 == x.num) by (nonlinear_arith);
                    assert(fadd((0int, 1int), x).1 == x.den) by (nonlinear_arith);
                },
                Some(m) => {
                    let m2 = add_s(m, x).unwrap();
                    lemma_mass_s_wf(dl, pat);
                    crate::rational::lemma_add_s_val(m, x);
                    lemma_fadd_cong((m.num as int, m.den as int), vmass(dl, pat), x);
                    crate::rational::lemma_mul_pos(m.den as int, x.den as int);
                    lemma_frac_eq_trans(
                        (m2.num as int, m2.den as int),
                        fadd((m.num as int, m.den as int), x),
                        fadd(vmass(dl, pat), x),
                    );
                },
            }
        }
    }
}

/// Removing one node removes exactly its contribution from the exact
/// mass.
proof fn lemma_vmass_remove(nodes: Seq<NodeV>, pat: Pattern, i: int)
    requires
        all_probs_wf(nodes),
        0 <= i < nodes.len(),
    ensures
        nodes[i].pattern == pat ==> frac_eq(
            vmass(nodes, pat),
            fadd(vmass(nodes.remove(i), pat), nodes[i].prob),
        ),
        nodes[i].pattern != pat ==> frac_eq(vmass(nodes, pat), vmass(nodes.remove(i), pat)),
    decreases nodes.len(),
{
    let dl = nodes.drop_last();
    assert(all_probs_wf(dl)) by {
        assert(forall|j: int| 0 <= j < dl.len() ==> dl[j] == nodes[j]);
    }
    if i == nodes.len() - 1 {
        assert(nodes.remove(i) =~= dl);
    } else {
        let r = nodes.remove(i);
        assert(r.drop_last() =~= dl.remove(i));
        assert(r.last() == nodes.last());
        assert(dl[i] == nodes[i]);
        lemma_vmass_remove(dl, pat, i);
        let lp = nodes.last().prob;
        let ip = nodes[i].prob;
        assert(rat_wf(lp)) by {
            assert(nodes[nodes.len() - 1].prob == lp);
        }
        assert(rat_wf(ip));
        assert(all_probs_wf(dl.remove(i))) by {
            assert(forall|j: int|
                0 <= j < dl.remove(i).len() ==> dl.remove(i)[j] == if j < i {
                    dl[j]
                } else {
                    dl[j + 1]
                });
        }
        lemma_vmass_den_pos(dl, pat);
        lemma_vmass_den_pos(dl.remove(i), pat);
        if nodes.last().pattern == pat {
            if nodes[i].pattern == pat {
                lemma_fadd_cong(vmass(dl, pat), fadd(vmass(dl.remove(i), pat), ip), lp);
                lemma_fadd_comm(vmass(dl.remove(i), pat), ip, lp);
                crate::rational::lemma_mul_pos(vmass(dl.remove(i), pat).1, ip.den as int);
                crate::rational::lemma_mul_pos(vmass(dl.remove(i), pat).1 * ip.den, lp.den as int);
                lemma_frac_eq_trans(
                    vmass(nodes, pat),
                    fadd(fadd(vmass(dl.remove(i), pat), ip), lp),
                    fadd(vmass(r, pat), ip),
                );
            } else {
                lemma_fadd_cong(vmass(dl, pat), vmass(dl.remove(i), pat), lp);
            }
        }
    }
}

/// The exact mass does not depend on the order of the nodes.
proof fn lemma_vmass_perm(s1: Seq<NodeV>, s2: Seq<NodeV>, pat: Pattern)
    requires
        all_probs_wf(s1),
        all_probs_wf(s2),
        s1.to_multiset() == s2.to_multiset(),
    ensures
        frac_eq(vmass(s1, pat), vmass(s2, pat)),
    decreases s2.len(),
{
    broadcast use vstd::seq_lib::group_to_multiset_ensures;

    if s2.len() == 0 {
        assert(s1.to_multiset().len() == 0);
        assert(s1.len() == 0);
    } else {
        let x = s2.last();
        assert(s2 == s2.drop_last().push(x)) by {
            assert(s2.drop_last().push(x) =~= s2);
        }
        assert(s2.to_multiset() == s2.drop_last().to_multiset().insert(x));
        assert(s2.to_multiset().count(x) > 0);
        assert(s1.contains(x));
        let i = choose|i: int| 0 <= i < s1.len() && s1[i] == x;
        assert(s1.remove(i).to_multiset() == s1.to_multiset().remove(x));
        assert(s1.remove(i).to_multiset() == s2.drop_last().to_multiset()) by {
            assert(s2.drop_last().to_multiset().insert(x).remove(x) =~= s2.drop_last()
                .to_multiset());
        }
        assert(all_probs_wf(s1.remove(i))) by {
            assert(forall|j: int|
                0 <= j < s1.remove(i).len() ==> s1.remove(i)[j] == if j < i {
                    s1[j]
                } else {
                    s1[j + 1]
                });
        }
        assert(all_probs_wf(s2.drop_last())) by {
            assert(forall|j: int| 0 <= j < s2.drop_last().len() ==> s2.drop_last()[j] == s2[j]);
        }
        lemma_vmass_perm(s1.remove(i), s2.drop_last(), pat);
        lemma_vmass_remove(s1, pat, i);
        lemma_vmass_den_pos(s1.remove(i), pat);
        lemma_vmass_den_pos(s2.drop_last(), pat);
        let lp = x.prob;
        assert(rat_wf(lp)) by {
            assert(s2[s2.len() - 1].prob == lp);
        }
        if x.pattern == pat {
            lemma_fadd_cong(vmass(s1.remove(i), pat), vmass(s2.drop_last(), pat), lp);
            crate::rational::lemma_mul_pos(vmass(s1.remove(i), pat).1, lp.den as int);
            lemma_frac_eq_trans(
                vmass(s1, pat),
                fadd(vmass(s1.remove(i), pat), lp),
                fadd(vmass(s2.drop_last(), pat), lp),
            );
            assert(vmass(s2, pat) == fadd(vmass(s2.drop_last(), pat), lp));
        } else {
            lemma_frac_eq_trans(
                vmass(s1, pat),
                vmass(s1.remove(i), pat),
                vmass(s2.drop_last(), pat),
            );
            assert(vmass(s2, pat) == vmass(s2.drop_last(), pat));
        }
    }
}

/// Multiset-equal node lists hold the same patterns.
proof fn lemma_pattern_presence(s1: Seq<NodeV>, s2: Seq<NodeV>, pat: Pattern)
    requires
        s1.to_multiset() == s2.to_multiset(),
    ensures
        (exists|i: int| 0 <= i < s1.len() && (#[trigger] s1[i]).pattern == pat) <==> (exists|j: int|
            0 <= j < s2.len() && (#[trigger] s2[j]).pattern == pat),
{
    broadcast use vstd::seq_lib::group_to_multiset_ensures;

    if exists|i: int| 0 <= i < s1.len() && (#[trigger] s1[i]).pattern == pat {
        let i = choose|i: int| 0 <= i < s1.len() && (#[trigger] s1[i]).pattern == pat;
        assert(s1.contains(s1[i]));
        assert(s2.to_multiset().count(s1[i]) > 0);
        assert(s2.contains(s1[i]));
        let j = choose|j: int| 0 <= j < s2.len() && s2[j] == s1[i];
        assert(s2[j].pattern == pat);
    }
    if exists|j: int| 0 <= j < s2.len() && (#[trigger] s2[j]).pattern == pat {
        let j = choose|j: int| 0 <= j < s2.len() && (#[trigger] s2[j]).pattern == pat;
        assert(s2.contains(s2[j]));
        assert(s1.to_multiset().count(s2[j]) > 0);
        assert(s1.contains(s2[j]));
        let i = choose|i: int| 0 <= i < s1.len() && s1[i] == s2[j];
        assert(s1[i].pattern == pat);
    }
}

/// One pattern's computed masses over multiset-equal node lists agree:
/// present together, and equal in value.
proof fn lemma_mass_perm(s1: Seq<NodeV>, s2: Seq<NodeV>, pat: Pattern)
    requires
        all_probs_wf(s1),
        all_probs_wf(s2),
        s1.to_multiset() == s2.to_multiset(),
        mass_s(s1, pat) is Ok,
        mass_s(s2, pat) is Ok,
    ensures
        mass_s(s1, pat)->Ok_0 is Some <==> mass_s(s2, pat)->Ok_0 is Some,
        (mass_s(s1, pat)->Ok_0 is Some && mass_s(s2, pat)->Ok_0 is Some) ==> rat_eq_v(
            mass_s(s1, pat)->Ok_0.unwrap(),
            mass_s(s2, pat)->Ok_0.unwrap(),
        ),
{
    lemma_pattern_presence(s1, s2, pat);
    if mass_s(s1, pat)->Ok_0 is Some {
        crate::laws::lemma_mass_s_some_inv(s1, pat);
    }
    if mass_s(s2, pat)->Ok_0 is Some {
        crate::laws::lemma_mass_s_some_inv(s2, pat);
    }
    if exists|i: int| 0 <= i < s1.len() && (#[trigger] s1[i]).pattern == pat {
        lemma_mass_s_some(s1, pat);
        lemma_mass_s_some(s2, pat);
        let m1 = mass_s(s1, pat)->Ok_0.unwrap();
        let m2 = mass_s(s2, pat)->Ok_0.unwrap();
        lemma_mass_s_val(s1, pat);
        lemma_mass_s_val(s2, pat);
        lemma_vmass_perm(s1, s2, pat);
        lemma_vmass_den_pos(s1, pat);
        lemma_vmass_den_pos(s2, pat);
        lemma_mass_s_wf(s1, pat);
        lemma_mass_s_wf(s2, pat);
        lemma_frac_eq_trans(
            (m1.num as int, m1.den as int),
            vmass(s1, pat),
            vmass(s2, pat),
        );
        assert(frac_eq((m2.num as int, m2.den as int), vmass(s2, pat)));
        assert(frac_eq(vmass(s2, pat), (m2.num as int, m2.den as int))) by (nonlinear_arith)
            requires
                frac_eq((m2.num as int, m2.den as int), vmass(s2, pat)),
        ;
        lemma_frac_eq_trans(
            (m1.num as int, m1.den as int),
            vmass(s2, pat),
            (m2.num as int, m2.den as int),
        );
    } else {
        lemma_mass_s_none(s1, pat);
        lemma_mass_s_none(s2, pat);
    }
}

/// The ring identity behind [`lemma_fadd_cong2`].
#[verifier::rlimit(100)]
proof fn lemma_fadd_cong2_int(
    f0: int,
    f1: int,
    g0: int,
    g1: int,
    xn: int,
    xd: int,
    yn: int,
    yd: int,
)
    requires
        f0 * g1 == g0 * f1,
        xn * yd == yn * xd,
    ensures
        (f0 * xd + xn * f1) * (g1 * yd) == (g0 * yd + yn * g1) * (f1 * xd),
{
    broadcast use vstd::arithmetic::mul::group_mul_properties;

    assert((f0 * xd + xn * f1) * (g1 * yd) == (f0 * xd) * (g1 * yd) + (xn * f1) * (g1 * yd));
    assert((f0 * xd) * (g1 * yd) == (f0 * g1) * (xd * yd)) by (nonlinear_arith);
    assert((xn * f1) * (g1 * yd) == (xn * yd) * (f1 * g1)) by (nonlinear_arith);
    assert((g0 * yd + yn * g1) * (f1 * xd) == (g0 * yd) * (f1 * xd) + (yn * g1) * (f1 * xd));
    assert((g0 * yd) * (f1 * xd) == (g0 * f1) * (xd * yd)) by (nonlinear_arith);
    assert((yn * g1) * (f1 * xd) == (yn * xd) * (f1 * g1)) by (nonlinear_arith);
}

/// Adding equal-valued rationals to equal fractions keeps them equal.
proof fn lemma_fadd_cong2(f: (int, int), g: (int, int), x: Rat, y: Rat)
    requires
        frac_eq(f, g),
        rat_eq_v(x, y),
    ensures
        frac_eq(fadd(f, x), fadd(g, y)),
{
    lemma_fadd_cong2_int(
        f.0,
        f.1,
        g.0,
        g.1,
        x.num as int,
        x.den as int,
        y.num as int,
        y.den as int,
    );
}

/// Pointwise equal-valued entry lists have equal-valued sums.
proof fn lemma_sum_frac_cong(s1: Seq<(Pattern, Rat)>, s2: Seq<(Pattern, Rat)>)
    requires
        s1.len() == s2.len(),
        forall|i: int| 0 <= i < s1.len() ==> rat_eq_v((#[trigger] s1[i]).1, s2[i].1),
    ensures
        frac_eq(sum_frac(s1), sum_frac(s2)),
    decreases s1.len(),
{
    if s1.len() > 0 {
        assert(forall|i: int|
            0 <= i < s1.drop_last().len() ==> s1.drop_last()[i] == s1[i] && s2.drop_last()[i]
                == s2[i]);
        lemma_sum_frac_cong(s1.drop_last(), s2.drop_last());
        assert(rat_eq_v(s1[s1.len() - 1].1, s2[s1.len() - 1].1));
        lemma_fadd_cong2(
            sum_frac(s1.drop_last()),
            sum_frac(s2.drop_last()),
            s1.last().1,
            s2.last().1,
        );
    }
}

/// The cancellation identity behind [`lemma_div_cong`]: quotients of
/// equal-valued dividends by equal-valued divisors are equal in value.
#[verifier::rlimit(100)]
proof fn lemma_div_cong_int(
    q1n: int,
    q1d: int,
    q2n: int,
    q2d: int,
    xn: int,
    xd: int,
    tn: int,
    td: int,
    yn: int,
    yd: int,
    un: int,
    ud: int,
)
    requires
        q1n * (xd * tn) == (xn * td) * q1d,
        q2n * (yd * un) == (yn * ud) * q2d,
        xn * yd == yn * xd,
        tn * ud == un * td,
        xd >= 1,
        tn >= 1,
        yd >= 1,
        un >= 1,
    ensures
        q1n * q2d == q2n * q1d,
{
    broadcast use vstd::arithmetic::mul::group_mul_properties;

    let a = xd * tn;
    let b = yd * un;
    assert(xd * tn >= 1) by (nonlinear_arith)
        requires
            xd >= 1,
            tn >= 1,
    ;
    assert(yd * un >= 1) by (nonlinear_arith)
        requires
            yd >= 1,
            un >= 1,
    ;
    assert((q1n * q2d) * (a * b) == (q1n * a) * (q2d * b)) by (nonlinear_arith);
    assert(((xn * td) * q1d) * (q2d * b) == ((xn * td) * b) * (q1d * q2d)) by (nonlinear_arith);
    assert((q2n * q1d) * (a * b) == (q2n * b) * (q1d * a)) by (nonlinear_arith);
    assert(((yn * ud) * q2d) * (q1d * a) == ((yn * ud) * a) * (q1d * q2d)) by (nonlinear_arith);
    assert((xn * td) * b == (xn * yd) * (td * un)) by (nonlinear_arith)
        requires
            b == yd * un,
    ;
    assert((yn * ud) * a == (yn * xd) * (ud * tn)) by (nonlinear_arith)
        requires
            a == xd * tn,
    ;
    assert((xn * yd) * (td * un) == (yn * xd) * (ud * tn)) by (nonlinear_arith)
        requires
            xn * yd == yn * xd,
            tn * ud == un * td,
    ;
    assert((q1n * q2d) * (a * b) == (q2n * q1d) * (a * b));
    assert(a * b >= 1) by (nonlinear_arith)
        requires
            a >= 1,
            b >= 1,
    ;
    assert(q1n * q2d == q2n * q1d) by (nonlinear_arith)
        requires
            (q1n * q2d) * (a * b) == (q2n * q1d) * (a * b),
            a * b >= 1,
    ;
}

/// Quotients of equal-valued masses by equal-valued totals are equal in
/// value.
proof fn lemma_div_cong(x: Rat, t: Rat, y: Rat, u: Rat)
    requires
        rat_wf(x),
        rat_wf(t),
        rat_wf(y),
        rat_wf(u),
        rat_eq_v(x, y),
        rat_eq_v(t, u),
        div_s(x, t) is Some,
        div_s(y, u) is Some,
    ensures
        rat_eq_v(div_s(x, t).unwrap(), div_s(y, u).unwrap()),
{
    let q1 = div_s(x, t).unwrap();
    let q2 = div_s(y, u).unwrap();
    crate::rational::lemma_div_s_val(x, t);
    crate::rational::lemma_div_s_val(y, u);
    lemma_div_cong_int(
        q1.num as int,
        q1.den as int,
        q2.num as int,
        q2.den as int,
        x.num as int,
        x.den as int,
        t.num as int,
        t.den as int,
        y.num as int,
        y.den as int,
        u.num as int,
        u.den as int,
    );
}

/// Idempotence of aggregation: however the surviving phases are
/// reordered, the aggregated, normalised result lists the same patterns
/// in the same positions with equal probabilities.
pub proof fn lemma_aggregation_order_independent(s1: Seq<NodeV>, s2: Seq<NodeV>)
    requires
        all_probs_wf(s1),
        all_probs_wf(s2),
        s1.to_multiset() == s2.to_multiset(),
        aggregate_s(s1) is Ok,
        aggregate_s(s2) is Ok,
        normalize_s(aggregate_s(s1)->Ok_0) is Ok,
        normalize_s(aggregate_s(s2)->Ok_0) is Ok,
    ensures
        normalize_s(aggregate_s(s1)->Ok_0)->Ok_0.len() == normalize_s(
            aggregate_s(s2)->Ok_0,
        )->Ok_0.len(),
        forall|i: int|
            0 <= i < normalize_s(aggregate_s(s1)->Ok_0)->Ok_0.len() ==> {
                &&& (#[trigger] normalize_s(aggregate_s(s1)->Ok_0)->Ok_0[i]).0 == normalize_s(
                    aggregate_s(s2)->Ok_0,
                )->Ok_0[i].0
                &&& rat_eq_v(
                    normalize_s(aggregate_s(s1)->Ok_0)->Ok_0[i].1,
                    normalize_s(aggregate_s(s2)->Ok_0)->Ok_0[i].1,
                )
            },
{
    lemma_mass_perm(s1, s2, Pattern::Decreasing);
    lemma_mass_perm(s1, s2, Pattern::Random);
    lemma_mass_perm(s1, s2, Pattern::SmallSpike);
    lemma_mass_perm(s1, s2, Pattern::LargeSpike);
    lemma_mass_s_wf(s1, Pattern::Decreasing);
    lemma_mass_s_wf(s1, Pattern::Random);
    lemma_mass_s_wf(s1, Pattern::SmallSpike);
    lemma_mass_s_wf(s1, Pattern::LargeSpike);
    lemma_mass_s_wf(s2, Pattern::Decreasing);
    lemma_mass_s_wf(s2, Pattern::Random);
    lemma_mass_s_wf(s2, Pattern::SmallSpike);
    lemma_mass_s_wf(s2, Pattern::LargeSpike);
    let a1 = opt_entry(Pattern::Decreasing, mass_s(s1, Pattern::Decreasing)->Ok_0);
    let a2 = opt_entry(Pattern::Random, mass_s(s1, Pattern::Random)->Ok_0);
    let a3 = opt_entry(Pattern::SmallSpike, mass_s(s1, Pattern::SmallSpike)->Ok_0);
    let a4 = opt_entry(Pattern::LargeSpike, mass_s(s1, Pattern::LargeSpike)->Ok_0);
    let b1 = opt_entry(Pattern::Decreasing, mass_s(s2, Pattern::Decreasing)->Ok_0);
    let b2 = opt_entry(Pattern::Random, mass_s(s2, Pattern::Random)->Ok_0);
    let b3 = opt_entry(Pattern::SmallSpike, mass_s(s2, Pattern::SmallSpike)->Ok_0);
    let b4 = opt_entry(Pattern::LargeSpike, mass_s(s2, Pattern::LargeSpike)->Ok_0);
    let e1 = aggregate_s(s1)->Ok_0;
    let e2 = aggregate_s(s2)->Ok_0;
    assert(e1 == a1 + a2 + a3 + a4);
    assert(e2 == b1 + b2 + b3 + b4);
    assert(a1.len() == b1.len() && a2.len() == b2.len() && a3.len() == b3.len() && a4.len()
        == b4.len());
    assert(e1.len() == e2.len());
    assert forall|i: int| 0 <= i < e1.len() implies (#[trigger] e1[i]).0 == e2[i].0 && rat_eq_v(
        e1[i].1,
        e2[i].1,
    ) && rat_wf(e1[i].1) && rat_wf(e2[i].1) by {
        if i < a1.len() {
            assert(e1[i] == a1[i]);
            assert(e2[i] == b1[i]);
        } else if i < a1.len() + a2.len() {
            assert(e1[i] == a2[i - a1.len()]);
            assert(e2[i] == b2[i - a1.len()]);
        } else if i < a1.len() + a2.len() + a3.len() {
            assert(e1[i] == a3[i - a1.len() - a2.len()]);
            assert(e2[i] == b3[i - a1.len() - a2.len()]);
        } else {
            assert(e1[i] == a4[i - a1.len() - a2.len() - a3.len()]);
            assert(e2[i] == b4[i - a1.len() - a2.len() - a3.len()]);
        }
    }
    if e1.len() == 0 {
    } else {
        let t1 = total_s(e1)->Ok_0;
        let t2 = total_s(e2)->Ok_0;
        assert(all_wf(e1));
        assert(all_wf(e2));
        lemma_total_s_val(e1);
        lemma_total_s_val(e2);
        lemma_sum_frac_cong(e1, e2);
        lemma_sum_frac_den_pos(e1);
        lemma_sum_frac_den_pos(e2);
        assert(frac_eq((t1.num as int, t1.den as int), sum_frac(e1))) by (nonlinear_arith)
            requires
                frac_eq(sum_frac(e1), (t1.num as int, t1.den as int)),
        ;
        lemma_frac_eq_trans((t1.num as int, t1.den as int), sum_frac(e1), sum_frac(e2));
        lemma_frac_eq_trans(
            (t1.num as int, t1.den as int),
            sum_frac(e2),
            (t2.num as int, t2.den as int),
        );
        assert(rat_eq_v(t1, t2));
        lemma_divide_all_props(e1, t1);
        lemma_divide_all_props(e2, t2);
        let n1 = normalize_s(e1)->Ok_0;
        let n2 = normalize_s(e2)->Ok_0;
        assert forall|i: int| 0 <= i < n1.len() implies (#[trigger] n1[i]).0 == n2[i].0
            && rat_eq_v(n1[i].1, n2[i].1) by {
            assert(e1[i].0 == e2[i].0);
            assert(n1[i].1 == div_s(e1[i].1, t1).unwrap());
            assert(n2[i].1 == div_s(e2[i].1, t2).unwrap());
            lemma_div_cong(e1[i].1, t1, e2[i].1, t2);
        }
    }
}

} // verus!
