//! Position assignment of the DeFrida prover.
//!
//! Same scheme as `frida_proofs`, written with saturating arithmetic: in case A a
//! validator holds `s - h + 1` positions, or a single position once `h >= s`; case B
//! reuses case A for `s` validators with `h' = ceil(max(h - e, 0) / r)`.
use vstd::prelude::*;

use crate::assignment::{
    ahead, lemma_window_holds,
    window, covers, held_by_some, distinct_validators, replicated_windows, lemma_wrap_mod,
    lemma_windows_cover, lemma_replicated_windows_cover, cyclic_window,
};
use crate::frida_proofs::{views, served, lemma_served, lemma_ceil_div, threshold};

verus! {

/// `a - b`, or 0 when `b > a`.
pub open spec fn sat_sub(a: int, b: int) -> int {
    if a >= b {
        a - b
    } else {
        0
    }
}

/// Number of positions per validator: `s.saturating_sub(h).saturating_add(1)`.
pub open spec fn span_saturating(s: int, h: int) -> int {
    let d = sat_sub(s, h);
    if d + 1 > usize::MAX {
        usize::MAX as int
    } else {
        d + 1
    }
}

/// The adjusted threshold of case B: `ceil(max(h - e, 0) / r)` with `r = n' / s`
/// copies of each window and `e = n - n'` validators without positions.
pub open spec fn threshold_b(n: int, s: int, h: int) -> int {
    let np = served(n, s);
    let r = np / s;
    (sat_sub(h, n - np) + r - 1) / r
}

/// DeFrida assignment: no validators give no lists; no positions give empty lists;
/// with `n <= s` validator `i` holds the window of `span_saturating(s, h)` positions
/// from `i % s`; with `n > s` validator `i < n'` holds the window of
/// `span_saturating(s, h')` positions from `i % s` and the others nothing.
pub open spec fn defrida_assignments(n: int, positions: Seq<usize>, h: int) -> Seq<Seq<usize>> {
    let s = positions.len() as int;
    if n == 0 {
        Seq::empty()
    } else if s == 0 {
        Seq::new(n as nat, |i: int| Seq::<usize>::empty())
    } else if n <= s {
        Seq::new(n as nat, |i: int| window(positions, s, i % s, span_saturating(s, h)))
    } else {
        let np = served(n, s);
        if np == 0 {
            Seq::new(n as nat, |i: int| Seq::<usize>::empty())
        } else {
            Seq::new(
                n as nat,
                |i: int|
                    if i < np {
                        window(positions, s, i % s, span_saturating(s, threshold_b(n, s, h)))
                    } else {
                        Seq::empty()
                    },
            )
        }
    }
}

/// The assignment can be computed: in case B, `max(h - e, 0) + r` fits in a `usize`.
pub open spec fn defrida_defined(n: int, positions: Seq<usize>, h: int) -> bool {
    let s = positions.len() as int;
    let np = served(n, s);
    (n > s && s > 0) ==> sat_sub(h, n - np) + np / s <= usize::MAX
}

proof fn lemma_views_push(v: Seq<Vec<usize>>, x: Vec<usize>)
    ensures
        views(v.push(x)) =~= views(v).push(x@),
{
    assert forall|k: int| 0 <= k < v.len() + 1 implies views(v.push(x))[k] == views(v).push(x@)[k] by {
        if k < v.len() {
            assert(v.push(x)[k] == v[k]);
        }
    }
}

/// Computes the query positions of each of `n_validators` validators.
pub fn compute_position_assignments(n_validators: usize, query_positions: &[usize], h: usize) -> (r: Vec<Vec<usize>>)
    requires
        defrida_defined(n_validators as int, query_positions@, h as int),
    ensures
        views(r@) == defrida_assignments(n_validators as int, query_positions@, h as int),
    decreases n_validators,
{
    let s = query_positions.len();
    let n = n_validators;
    let ghost spec = defrida_assignments(n as int, query_positions@, h as int);
    let mut result: Vec<Vec<usize>> = Vec::new();
    if n == 0 {
        assert(views(result@) =~= spec);
        return result;
    }
    if s == 0 {
        let mut i: usize = 0;
        while i < n
            invariant
                i <= n,
                s == 0,
                s == query_positions@.len(),
                0 < n,
                spec == defrida_assignments(n as int, query_positions@, h as int),
                views(result@) == spec.take(i as int),
            decreases n - i,
        {
            let empty: Vec<usize> = Vec::new();
            proof {
                lemma_views_push(result@, empty);
            }
            result.push(empty);
            i += 1;
            assert(views(result@) =~= spec.take(i as int));
        }
        assert(spec.take(n as int) =~= spec);
        return result;
    }
    if n <= s {
        let span_length = s.saturating_sub(h).saturating_add(1);
        let mut i: usize = 0;
        while i < n
            invariant
                0 < n <= s,
                s == query_positions@.len(),
                span_length == span_saturating(s as int, h as int),
                spec == defrida_assignments(n as int, query_positions@, h as int),
                i <= n,
                views(result@) == spec.take(i as int),
            decreases n - i,
        {
            let offset = i % s;
            let validator_positions = cyclic_window(query_positions, s, offset, span_length);
            proof {
                lemma_views_push(result@, validator_positions);
            }
            result.push(validator_positions);
            i += 1;
            assert(views(result@) =~= spec.take(i as int));
        }
        assert(spec.take(n as int) =~= spec);
        result
    } else {
        proof {
            lemma_served(n as int, s as int);
        }
        let n_prime = (n / s) * s;
        if n_prime == 0 {
            let mut i: usize = 0;
            while i < n
                invariant
                    i <= n,
                    n_prime == 0,
                    n_prime == served(n as int, s as int),
                    0 < s < n,
                    s == query_positions@.len(),
                    spec == defrida_assignments(n as int, query_positions@, h as int),
                    views(result@) == spec.take(i as int),
                decreases n - i,
            {
                let empty: Vec<usize> = Vec::new();
                proof {
                    lemma_views_push(result@, empty);
                }
                result.push(empty);
                i += 1;
                assert(views(result@) =~= spec.take(i as int));
            }
            assert(spec.take(n as int) =~= spec);
            return result;
        }
        let replication_factor = n_prime / s;
        let h_prime = (h.saturating_sub(n - n_prime) + replication_factor - 1) / replication_factor;
        let base_subsets = compute_position_assignments(s, query_positions, h_prime);
        let ghost base = defrida_assignments(s as int, query_positions@, h_prime as int);
        assert(base.len() == s);
        let mut i: usize = 0;
        while i < n
            invariant
                0 < s < n,
                s == query_positions@.len(),
                0 < n_prime <= n,
                n_prime == served(n as int, s as int),
                h_prime == threshold_b(n as int, s as int, h as int),
                base == defrida_assignments(s as int, query_positions@, h_prime as int),
                base.len() == s,
                views(base_subsets@) == base,
                spec == defrida_assignments(n as int, query_positions@, h as int),
                i <= n,
                views(result@) == spec.take(i as int),
            decreases n - i,
        {
            if i < n_prime {
                let subset_index = i % s;
                proof {
                    lemma_wrap_mod(subset_index as int, s as int);
                    assert(views(base_subsets@)[subset_index as int] == base_subsets@[subset_index as int]@);
                }
                let subset = base_subsets[subset_index].clone();
                proof {
                    lemma_views_push(result@, subset);
                }
                result.push(subset);
            } else {
                let empty: Vec<usize> = Vec::new();
                proof {
                    lemma_views_push(result@, empty);
                }
                result.push(empty);
            }
            i += 1;
            assert(views(result@) =~= spec.take(i as int));
        }
        assert(spec.take(n as int) =~= spec);
        result
    }
}

/// Coverage: any `h >= 1` distinct validators together hold every query position,
/// unless (case B) there are at least `h` validators without positions
/// (`n - (n / s) * s >= h`).
pub proof fn lemma_defrida_assignments_cover(n: int, positions: Seq<usize>, h: int, chosen: Seq<int>)
    requires
        0 < positions.len() <= usize::MAX,
        h >= 1,
        chosen.len() == h,
        distinct_validators(chosen, n),
        n <= positions.len() || n - served(n, positions.len() as int) < h,
    ensures
        covers(defrida_assignments(n, positions, h), chosen, positions),
{
    let s = positions.len() as int;
    let a = defrida_assignments(n, positions, h);
    assert(0 <= chosen[0] < n);
    if n <= s {
        let span = span_saturating(s, h);
        assert forall|q: int| 0 <= q < s implies #[trigger] held_by_some(a, chosen, positions, q) by {
            lemma_windows_cover(positions, s, span, chosen, q);
            let t = choose|t: int| 0 <= t < chosen.len() && window(positions, s, chosen[t], span).contains(positions[q]);
            lemma_wrap_mod(chosen[t], s);
            assert(a[chosen[t]] == window(positions, s, chosen[t], span));
        }
    } else {
        lemma_served(n, s);
        let np = served(n, s);
        let r = np / s;
        let e = n - np;
        let hp = threshold_b(n, s, h);
        let span = span_saturating(s, hp);
        lemma_ceil_div(h - e, r);
        assert(hp == (h - e + r - 1) / r);
        assert(span == (if hp >= s { 1 } else { s - hp + 1 }));
        assert((if span >= s { 0 } else { s - span }) * r + e < h) by (nonlinear_arith)
            requires
                span == (if hp >= s { 1 } else { s - hp + 1 }),
                (hp - 1) * r < h - e,
                hp >= 1,
                r >= 1,
                s >= 1,
        ;
        assert(a =~= replicated_windows(positions, s, span, r, n));
        assert forall|q: int| 0 <= q < s implies #[trigger] held_by_some(a, chosen, positions, q) by {
            lemma_replicated_windows_cover(positions, s, span, r, n, chosen, q);
        }
    }
}

/// When at least `h` validators are left without positions (case B with
/// `n - (n / s) * s >= h`), every served validator holds every query position.
pub proof fn lemma_defrida_idle_majority_served_hold_all(n: int, positions: Seq<usize>, h: int, i: int, q: int)
    requires
        0 < positions.len() <= usize::MAX,
        n > positions.len(),
        n - served(n, positions.len() as int) >= h,
        0 <= i < served(n, positions.len() as int),
        0 <= q < positions.len(),
    ensures
        defrida_assignments(n, positions, h).len() == n,
        defrida_assignments(n, positions, h)[i].contains(positions[q]),
        defrida_assignments(n, positions, h)[i].len() >= positions.len(),
{
    let s = positions.len() as int;
    lemma_served(n, s);
    let np = served(n, s);
    let r = np / s;
    assert(threshold_b(n, s, h) == 0) by {
        assert(sat_sub(h, n - np) == 0);
        assert((r - 1) / r == 0) by (nonlinear_arith)
            requires
                r >= 1,
        ;
    }
    let o = i % s;
    assert(0 <= o < s) by (nonlinear_arith)
        requires
            s > 0,
            o == i % s,
            i >= 0,
    ;
    let span = span_saturating(s, 0);
    assert(span >= s);
    assert(0 <= ahead(q, o, s) < s);
    lemma_window_holds(positions, s, o, span, q);
}

/// Why the DeFrida prover cannot distribute proofs.
#[derive(Debug, Clone, Copy, PartialEq, Eq)]
pub enum DefridaError {
    /// There is no validator to give a proof to.
    InvalidNumValidators,
}

/// The validators that receive a proof, in increasing order, each with the
/// positions its proof opens: those whose assignment is not empty.
pub open spec fn indexed_nonempty(a: Seq<Seq<usize>>) -> Seq<(usize, Seq<usize>)>
    decreases a.len(),
{
    if a.len() == 0 {
        Seq::empty()
    } else {
        let prev = indexed_nonempty(a.drop_last());
        if a.last().len() == 0 {
            prev
        } else {
            prev.push(((a.len() - 1) as usize, a.last()))
        }
    }
}

/// The contents of a list of `(validator, positions)` pairs.
pub open spec fn plan_view(v: Seq<(usize, Vec<usize>)>) -> Seq<(usize, Seq<usize>)> {
    v.map_values(|p: (usize, Vec<usize>)| (p.0, p.1@))
}

/// Which validator receives a proof of which positions, for `n_validators`
/// validators over the base query positions: `Err` when there is no validator;
/// otherwise the validators with a non-empty assignment (threshold
/// `h = (n - 1) / 3 + 1`, see `defrida_assignments`), in increasing order, each with
/// its positions.
pub fn proof_assignments(n_validators: usize, base_positions: &[usize]) -> (r: Result<Vec<(usize, Vec<usize>)>, DefridaError>)
    requires
        defrida_defined(n_validators as int, base_positions@, threshold(n_validators as int)),
    ensures
        n_validators == 0 <==> r is Err,
        r matches Err(e) ==> e == DefridaError::InvalidNumValidators,
        r matches Ok(plan) ==> plan_view(plan@) == indexed_nonempty(
            defrida_assignments(n_validators as int, base_positions@, threshold(n_validators as int)),
        ),
{
    if n_validators == 0 {
        return Err(DefridaError::InvalidNumValidators);
    }
    let f = (n_validators - 1) / 3;
    let h = f + 1;
    let sets = compute_position_assignments(n_validators, base_positions, h);
    let ghost a = views(sets@);
    let mut plan: Vec<(usize, Vec<usize>)> = Vec::new();
    let mut i: usize = 0;
    while i < sets.len()
        invariant
            a == views(sets@),
            i <= sets@.len(),
            plan_view(plan@) == indexed_nonempty(a.take(i as int)),
        decreases sets.len() - i,
    {
        proof {
            assert(a.take(i + 1).drop_last() =~= a.take(i as int));
            assert(a.take(i + 1).last() == sets@[i as int]@);
        }
        if sets[i].len() > 0 {
            let positions = sets[i].clone();
            assert(positions@ =~= sets@[i as int]@);
            let ghost before = plan@;
            plan.push((i, positions));
            assert(plan_view(plan@) =~= plan_view(before).push((i, positions@)));
        }
        i += 1;
    }
    assert(a.take(a.len() as int) =~= a);
    Ok(plan)
}

} // verus!
