//! Assignment of query positions to validators for distributed FRI proofs.
//!
//! With `s` query positions and `n` validators of which `f = (n - 1) / 3` may be
//! faulty, each validator receives a cyclic window of positions so that any
//! `h = f + 1` validators together hold every position.
//!
//! * Case A (`n <= s`): validator `i` holds the `s - h + 1` positions starting at
//!   `i % s` (all `s` positions when `h >= s`).
//! * Case B (`n > s`): the first `n' = (n / s) * s` validators receive, round-robin,
//!   the case A windows of `s` validators for an adjusted `h'`; the remaining
//!   `n - n'` validators receive nothing.
use vstd::prelude::*;
use vstd::arithmetic::div_mod::lemma_fundamental_div_mod;
use std::collections::BTreeSet;
use vstd::std_specs::btree::spec_btree_keys_iter;
use winter_fri::FriOptions;

use crate::assignment::{
    ahead, lemma_window_holds,
    window, covers, held_by_some, distinct_validators, replicated_windows, lemma_wrap_mod,
    lemma_windows_cover, lemma_replicated_windows_cover, cyclic_window,
};

verus! {

broadcast use {vstd::std_specs::btree::group_btree_axioms, vstd::laws_cmp::group_laws_cmp};

/// FRI protocol parameters (blowup factor, folding factor, remainder degree); the
/// assignment carries them without reading them.
#[verifier::external_type_specification]
#[verifier::external_body]
pub struct ExFriOptions(winter_fri::FriOptions);

/// The contents of each validator's position list.
pub open spec fn views(v: Seq<Vec<usize>>) -> Seq<Seq<usize>> {
    v.map_values(|x: Vec<usize>| x@)
}

/// Number of positions each validator holds in case A.
pub open spec fn span_a(s: int, h: int) -> int {
    if h >= s {
        s
    } else {
        s - h + 1
    }
}

/// Case A: validator `i` (counted from 0) holds the window of `span_a(s, h)`
/// positions starting at `i % s`; nobody holds anything when `s` or `n` is 0.
pub open spec fn case_a_spec(n: int, s: int, h: int, positions: Seq<usize>) -> Seq<Seq<usize>> {
    if s == 0 || n == 0 {
        Seq::new(n as nat, |i: int| Seq::<usize>::empty())
    } else {
        Seq::new(n as nat, |i: int| window(positions, s, i % s, span_a(s, h)))
    }
}

/// Case A can run: the windows stay within `positions`, and `s - h + 1` fits in a `usize`.
pub open spec fn case_a_defined(n: int, s: int, h: int, positions: Seq<usize>) -> bool {
    (n > 0 && s > 0) ==> (s <= positions.len() && (h == 0 ==> s < usize::MAX))
}

/// Number of validators that receive positions in case B.
pub open spec fn served(n: int, s: int) -> int {
    (n / s) * s
}

/// The adjusted threshold `h'` of case B: with `r = n' / s` copies of each window and
/// `e = n - n'` validators without positions, `h' = ceil((h - e) / r)`, or `1` when
/// `e >= h`.
pub open spec fn case_b_threshold(n: int, s: int, h: int) -> int {
    let np = served(n, s);
    let r = np / s;
    let e = n - np;
    if e >= h {
        1
    } else {
        (h - e + r - 1) / r
    }
}

/// Case B: validator `i < n'` holds the window of `span_a(s, h')` positions starting at
/// `i % s`; validators from `n'` on hold nothing (everybody when `n' == 0`).
pub open spec fn case_b_spec(n: int, s: int, h: int, positions: Seq<usize>) -> Seq<Seq<usize>> {
    let np = served(n, s);
    if np == 0 {
        Seq::new(n as nat, |i: int| Seq::<usize>::empty())
    } else {
        Seq::new(
            n as nat,
            |i: int|
                if i < np {
                    window(positions, s, i % s, span_a(s, case_b_threshold(n, s, h)))
                } else {
                    Seq::empty()
                },
        )
    }
}

/// Case B can run: `s` is not 0, and when positions are handed out, the windows stay
/// within `positions` and `h - e + r` fits in a `usize`.
pub open spec fn case_b_defined(n: int, s: int, h: int, positions: Seq<usize>) -> bool {
    let np = served(n, s);
    let r = np / s;
    let e = n - np;
    &&& s > 0
    &&& np > 0 ==> s <= positions.len()
    &&& (np > 0 && e < h) ==> h - e + r <= usize::MAX
}

/// The assignment for `n` validators over all of `positions`.
pub open spec fn assignments_spec(n: int, positions: Seq<usize>, h: int) -> Seq<Seq<usize>> {
    let s = positions.len() as int;
    if n <= s {
        case_a_spec(n, s, h, positions)
    } else {
        case_b_spec(n, s, h, positions)
    }
}

pub open spec fn assignments_defined(n: int, positions: Seq<usize>, h: int) -> bool {
    let s = positions.len() as int;
    if n <= s {
        case_a_defined(n, s, h, positions)
    } else {
        case_b_defined(n, s, h, positions)
    }
}

/// Facts on `n' = (n / s) * s` and `r = n' / s`.
pub proof fn lemma_served(n: int, s: int)
    requires
        0 < s,
        0 <= n,
    ensures
        0 <= served(n, s) <= n,
        served(n, s) / s == n / s,
        (served(n, s) / s) * s == served(n, s),
        n > s ==> n / s >= 1,
        served(n, s) > 0 ==> n / s >= 1,
        n - served(n, s) < s,
{
    lemma_fundamental_div_mod(n, s);
    assert(0 <= (n / s) * s <= n && n - (n / s) * s < s) by (nonlinear_arith)
        requires
            n == s * (n / s) + n % s,
            0 <= n % s < s,
            0 < s,
            0 <= n,
    ;
    assert(((n / s) * s) / s == n / s) by (nonlinear_arith)
        requires
            0 < s,
    ;
    assert(n > s ==> n / s >= 1) by (nonlinear_arith)
        requires
            0 < s,
            0 <= n,
    ;
    assert((n / s) * s > 0 ==> n / s >= 1) by (nonlinear_arith)
        requires
            0 < s,
            0 <= n,
    ;
}

/// With `a >= 1` and `r >= 1`, `h' = (a + r - 1) / r` is at least 1 and
/// `(h' - 1) * r < a`.
pub proof fn lemma_ceil_div(a: int, r: int)
    requires
        a >= 1,
        r >= 1,
    ensures
        (a + r - 1) / r >= 1,
        ((a + r - 1) / r - 1) * r < a,
{
    lemma_fundamental_div_mod(a + r - 1, r);
    let hp = (a + r - 1) / r;
    assert(hp >= 1 && (hp - 1) * r < a) by (nonlinear_arith)
        requires
            a + r - 1 == r * hp + (a + r - 1) % r,
            0 <= (a + r - 1) % r < r,
            a >= 1,
            r >= 1,
    ;
}

proof fn lemma_views_push(v: Seq<Vec<usize>>, x: Vec<usize>)
    ensures
        views(v.push(x)) =~= views(v).push(x@),
        views(v).len() == v.len(),
{
    assert forall|k: int| 0 <= k < v.len() + 1 implies views(v.push(x))[k] == views(v).push(x@)[k] by {
        if k < v.len() {
            assert(v.push(x)[k] == v[k]);
        }
    }
}

proof fn lemma_views_index(v: Seq<Vec<usize>>, k: int)
    requires
        0 <= k < views(v).len(),
    ensures
        views(v).len() == v.len(),
        views(v)[k] == v[k]@,
{
}

fn no_positions(n: usize) -> (r: Vec<Vec<usize>>)
    ensures
        views(r@) == Seq::new(n as nat, |i: int| Seq::<usize>::empty()),
{
    let mut result: Vec<Vec<usize>> = Vec::new();
    let mut i: usize = 0;
    while i < n
        invariant
            i <= n,
            views(result@) == Seq::new(i as nat, |k: int| Seq::<usize>::empty()),
        decreases n - i,
    {
        let empty: Vec<usize> = Vec::new();
        proof {
            lemma_views_push(result@, empty);
        }
        result.push(empty);
        i += 1;
        assert(views(result@) =~= Seq::new(i as nat, |k: int| Seq::<usize>::empty()));
    }
    result
}

/// Case A assignment (`n <= s`): validator `i` holds `span_a(s, h)` consecutive
/// positions, cyclically, starting at position `i % s`.
pub fn compute_case_a_assignments(n: usize, s: usize, h: usize, positions: &[usize]) -> (r: Vec<Vec<usize>>)
    requires
        case_a_defined(n as int, s as int, h as int, positions@),
    ensures
        views(r@) == case_a_spec(n as int, s as int, h as int, positions@),
{
    if s == 0 || n == 0 {
        return no_positions(n);
    }
    let span_length = if h >= s {
        s
    } else {
        s - h + 1
    };
    let mut result: Vec<Vec<usize>> = Vec::new();
    let mut i: usize = 0;
    while i < n
        invariant
            0 < s <= positions@.len(),
            0 < n,
            span_length == span_a(s as int, h as int),
            i <= n,
            views(result@) == case_a_spec(n as int, s as int, h as int, positions@).take(i as int),
        decreases n - i,
    {
        let offset = i % s;
        let validator_positions = cyclic_window(positions, s, offset, span_length);
        proof {
            lemma_views_push(result@, validator_positions);
        }
        result.push(validator_positions);
        i += 1;
        assert(views(result@) =~= case_a_spec(n as int, s as int, h as int, positions@).take(i as int));
    }
    assert(case_a_spec(n as int, s as int, h as int, positions@).take(n as int) =~= case_a_spec(
        n as int,
        s as int,
        h as int,
        positions@,
    ));
    result
}

/// Case B assignment (`n > s`): the first `n' = (n / s) * s` validators hold, round
/// robin, the case A windows of `s` validators for the adjusted threshold
/// `case_b_threshold(n, s, h)`; the others hold nothing.
pub fn compute_case_b_assignments(n: usize, s: usize, h: usize, positions: &[usize]) -> (r: Vec<Vec<usize>>)
    requires
        case_b_defined(n as int, s as int, h as int, positions@),
    ensures
        views(r@) == case_b_spec(n as int, s as int, h as int, positions@),
{
    proof {
        lemma_served(n as int, s as int);
    }
    let n_prime = (n / s) * s;
    if n_prime == 0 {
        return no_positions(n);
    }
    let replication_factor = n_prime / s;
    let excess = n - n_prime;
    let h_prime = if excess >= h {
        1
    } else {
        let h_minus_excess = h - excess;
        assert(h_minus_excess + replication_factor <= usize::MAX);
        proof {
            lemma_ceil_div(h_minus_excess as int, replication_factor as int);
        }
        (h_minus_excess + replication_factor - 1) / replication_factor
    };
    assert(h_prime == case_b_threshold(n as int, s as int, h as int));
    let base_subsets = compute_case_a_assignments(s, s, h_prime, positions);
    let ghost span = span_a(s as int, h_prime as int);
    let mut result: Vec<Vec<usize>> = Vec::new();
    let mut i: usize = 0;
    while i < n
        invariant
            0 < s,
            0 < n_prime <= n,
            n_prime == served(n as int, s as int),
            h_prime == case_b_threshold(n as int, s as int, h as int),
            views(base_subsets@) == case_a_spec(s as int, s as int, h_prime as int, positions@),
            i <= n,
            views(result@) == case_b_spec(n as int, s as int, h as int, positions@).take(i as int),
        decreases n - i,
    {
        if i < n_prime {
            let subset_index = i % s;
            proof {
                lemma_wrap_mod(subset_index as int, s as int);
                lemma_views_index(base_subsets@, subset_index as int);
            }
            let subset = base_subsets[subset_index].clone();
            proof {
                lemma_views_push(result@, subset);
            }
            result.push(subset);
        } else {
            let empty: Vec<usize> = Vec::new();
            proof {
                lemma_views_push(result@, empty);
            }
            result.push(empty);
        }
        i += 1;
        assert(views(result@) =~= case_b_spec(n as int, s as int, h as int, positions@).take(i as int));
    }
    assert(case_b_spec(n as int, s as int, h as int, positions@).take(n as int) =~= case_b_spec(
        n as int,
        s as int,
        h as int,
        positions@,
    ));
    result
}

/// Position assignment for `n_validators` validators over `query_positions` with
/// threshold `h`: case A when there are at most as many validators as positions,
/// case B otherwise. (`_f`, the number of tolerated faults, is not used.)
pub fn compute_position_assignments(n_validators: usize, query_positions: &[usize], _f: usize, h: usize) -> (r: Vec<Vec<usize>>)
    requires
        assignments_defined(n_validators as int, query_positions@, h as int),
    ensures
        views(r@) == assignments_spec(n_validators as int, query_positions@, h as int),
{
    let s = query_positions.len();
    let n = n_validators;
    if n <= s {
        compute_case_a_assignments(n, s, h, query_positions)
    } else {
        compute_case_b_assignments(n, s, h, query_positions)
    }
}

/// Coverage: any `h >= 1` distinct validators together hold every query position,
/// unless (case B) there are at least `h` validators without positions
/// (`n - (n / s) * s >= h`), in which case `h` of them may hold nothing at all.
pub proof fn lemma_assignments_cover(n: int, positions: Seq<usize>, h: int, chosen: Seq<int>)
    requires
        positions.len() > 0,
        h >= 1,
        chosen.len() == h,
        distinct_validators(chosen, n),
        n <= positions.len() || n - served(n, positions.len() as int) < h,
    ensures
        covers(assignments_spec(n, positions, h), chosen, positions),
{
    let s = positions.len() as int;
    let a = assignments_spec(n, positions, h);
    assert(0 <= chosen[0] < n);
    if n <= s {
        let span = span_a(s, h);
        assert forall|q: int| 0 <= q < s implies #[trigger] held_by_some(a, chosen, positions, q) by {
            lemma_windows_cover(positions, s, span, chosen, q);
            let t = choose|t: int| 0 <= t < chosen.len() && window(positions, s, chosen[t], span).contains(positions[q]);
            lemma_wrap_mod(chosen[t], s);
            assert(a[chosen[t]] == window(positions, s, chosen[t], span));
        }
    } else {
        lemma_served(n, s);
        let np = served(n, s);
        let r = np / s;
        let e = n - np;
        let hp = case_b_threshold(n, s, h);
        let span = span_a(s, hp);
        lemma_ceil_div(h - e, r);
        assert((if span >= s { 0 } else { s - span }) * r + e < h) by (nonlinear_arith)
            requires
                span == (if hp >= s { s } else { s - hp + 1 }),
                (hp - 1) * r < h - e,
                hp >= 1,
                r >= 1,
        ;
        assert(a =~= replicated_windows(positions, s, span, r, n));
        assert forall|q: int| 0 <= q < s implies #[trigger] held_by_some(a, chosen, positions, q) by {
            lemma_replicated_windows_cover(positions, s, span, r, n, chosen, q);
        }
    }
}

/// When at least `h` validators are left without positions (case B with
/// `n - (n / s) * s >= h`), every validator that is served holds every query
/// position: each of the first `(n / s) * s` validators alone covers the domain.
pub proof fn lemma_idle_majority_served_hold_all(n: int, positions: Seq<usize>, h: int, i: int, q: int)
    requires
        positions.len() > 0,
        n > positions.len(),
        h >= 1,
        n - served(n, positions.len() as int) >= h,
        0 <= i < served(n, positions.len() as int),
        0 <= q < positions.len(),
    ensures
        assignments_spec(n, positions, h).len() == n,
        assignments_spec(n, positions, h)[i].contains(positions[q]),
        assignments_spec(n, positions, h)[i].len() == positions.len(),
{
    let s = positions.len() as int;
    lemma_served(n, s);
    let o = i % s;
    assert(0 <= o < s) by (nonlinear_arith)
        requires
            s > 0,
            o == i % s,
            i >= 0,
    ;
    assert(0 <= ahead(q, o, s) < s);
    lemma_window_holds(positions, s, o, s, q);
}

/// Coverage in every case: any `h >= 1` distinct validators of which at least one
/// is served (in case B, below `(n / s) * s`) together hold every query position.
/// In case A every validator is served.
pub proof fn lemma_cover_with_one_served(n: int, positions: Seq<usize>, h: int, chosen: Seq<int>, t: int)
    requires
        positions.len() > 0,
        h >= 1,
        chosen.len() == h,
        distinct_validators(chosen, n),
        0 <= t < chosen.len(),
        n <= positions.len() || chosen[t] < served(n, positions.len() as int),
    ensures
        covers(assignments_spec(n, positions, h), chosen, positions),
{
    let s = positions.len() as int;
    if n <= s || n - served(n, s) < h {
        lemma_assignments_cover(n, positions, h, chosen);
    } else {
        let a = assignments_spec(n, positions, h);
        assert(0 <= chosen[t]);
        assert forall|q: int| 0 <= q < s implies #[trigger] held_by_some(a, chosen, positions, q) by {
            lemma_idle_majority_served_hold_all(n, positions, h, chosen[t], q);
            assert(a[chosen[t]].contains(positions[q]));
        }
    }
}

// ---------------------------------------------------------------------------
// Query positions and the proof distribution plan
// ---------------------------------------------------------------------------

/// Number of query positions drawn: `min(num_queries, domain_size)`.
pub open spec fn num_positions(domain_size: int, num_queries: int) -> int {
    if num_queries < domain_size {
        num_queries
    } else {
        domain_size
    }
}

/// The evenly spaced positions `(i * step) % domain_size` for `i` below
/// `num_positions`, with `step = domain_size / num_positions`.
pub open spec fn spaced_positions(domain_size: int, num_queries: int) -> Seq<usize> {
    let m = num_positions(domain_size, num_queries);
    let step = domain_size / m;
    Seq::new(m as nat, |i: int| ((i * step) % domain_size) as usize)
}

/// Strictly increasing sequence.
pub open spec fn strictly_increasing(v: Seq<usize>) -> bool {
    forall|i: int, j: int| 0 <= i < j < v.len() ==> v[i] < v[j]
}

proof fn lemma_spacing(i: int, m: int, d: int)
    requires
        0 <= i < m,
        0 < m <= d,
    ensures
        0 <= i * (d / m) < d,
        (i * (d / m)) % d == i * (d / m),
        i * (d / m) + d / m == (i + 1) * (d / m),
        d / m >= 1,
{
    lemma_fundamental_div_mod(d, m);
    let step = d / m;
    assert(step >= 1 && 0 <= i * step < d && i * step + step == (i + 1) * step) by (nonlinear_arith)
        requires
            d == m * step + d % m,
            0 <= d % m < m,
            0 <= i < m,
            0 < m <= d,
    ;
    lemma_wrap_mod(i * step, d);
}

/// Valid, evenly spaced query positions in a domain of `domain_size` elements:
/// the distinct values `(i * step) % domain_size` for `i < min(num_queries, domain_size)`,
/// `step = domain_size / min(num_queries, domain_size)`, in increasing order. The FRI
/// options do not enter the choice.
pub fn generate_deterministic_positions(domain_size: usize, num_queries: usize, _options: &FriOptions) -> (r: Vec<usize>)
    requires
        domain_size > 0,
        num_queries > 0,
    ensures
        r@ == spaced_positions(domain_size as int, num_queries as int),
        strictly_increasing(r@),
        r@.len() == num_positions(domain_size as int, num_queries as int),
{
    let m = if num_queries < domain_size {
        num_queries
    } else {
        domain_size
    };
    let step = domain_size / m;
    let ghost spec = spaced_positions(domain_size as int, num_queries as int);
    let mut positions: BTreeSet<usize> = BTreeSet::new();
    let mut i: usize = 0;
    while i < m
        invariant
            0 < m <= domain_size,
            m == num_positions(domain_size as int, num_queries as int),
            step == domain_size / m,
            spec == spaced_positions(domain_size as int, num_queries as int),
            i <= m,
            positions@ == spec.take(i as int).to_set(),
        decreases m - i,
    {
        proof {
            lemma_spacing(i as int, m as int, domain_size as int);
        }
        positions.insert((i * step) % domain_size);
        i += 1;
        proof {
            let cur = spec.take(i as int);
            let prev = spec.take(i - 1);
            assert forall|x: usize| positions@.contains(x) <==> cur.contains(x) by {
                if cur.contains(x) {
                    let k = choose|k: int| 0 <= k < cur.len() && cur[k] == x;
                    if k < i - 1 {
                        assert(prev[k] == x);
                    }
                }
                if prev.contains(x) {
                    let k = choose|k: int| 0 <= k < prev.len() && prev[k] == x;
                    assert(cur[k] == x);
                }
                assert(cur[i - 1] == spec[i - 1]);
            }
            assert(positions@ =~= spec.take(i as int).to_set());
        }
    }
    assert(spec.take(m as int) =~= spec);
    assert forall|a: int, b: int| 0 <= a < b < spec.len() implies spec[a] < spec[b] by {
        lemma_spacing(a, m as int, domain_size as int);
        lemma_spacing(b, m as int, domain_size as int);
        assert(a * step < b * step) by (nonlinear_arith)
            requires
                a < b,
                step >= 1,
        ;
    }
    let ghost ks = vstd::std_specs::iter::IteratorSpec::remaining(&spec_btree_keys_iter(&positions));
    let mut result: Vec<usize> = Vec::new();
    for p in it: positions.iter()
        invariant
            it.seq() == ks,
            result@.len() == it.index(),
            forall|k: int| 0 <= k < it.index() ==> result@[k] == *(#[trigger] ks[k]),
    {
        result.push(*p);
    }
    proof {
        assert(result@.len() == ks.len());
        assert(result@ =~= ks.unref());
        assert forall|x: usize| result@.contains(x) <==> spec.contains(x) by {
            assert(result@.to_set().contains(x) == result@.contains(x));
            assert(spec.to_set().contains(x) == spec.contains(x));
        }
        assert forall|a: int, b: int| 0 <= a < b < result@.len() implies result@[a] < result@[b] by {
            assert(result@[a] == *ks[a] && result@[b] == *ks[b]);
            lemma_keys_increase(ks, a, b);
        }
        lemma_increasing_same_elements(result@, spec);
    }
    result
}

/// The keys of a `BTreeSet` of positions come in strictly increasing order.
proof fn lemma_keys_increase(ks: Seq<&usize>, a: int, b: int)
    requires
        vstd::std_specs::btree::increasing_seq(ks),
        0 <= a < b < ks.len(),
    ensures
        *ks[a] < *ks[b],
{
    assert(vstd::std_specs::cmp::OrdSpec::cmp_spec(&ks[a], &ks[b]) is Less);
}

/// Two strictly increasing sequences with the same elements are equal.
proof fn lemma_increasing_same_elements(a: Seq<usize>, b: Seq<usize>)
    requires
        strictly_increasing(a),
        strictly_increasing(b),
        forall|x: usize| a.contains(x) <==> b.contains(x),
    ensures
        a == b,
    decreases a.len(),
{
    if a.len() == 0 {
        if b.len() > 0 {
            assert(b.contains(b[0]));
        }
        assert(a =~= b);
    } else {
        assert(a.contains(a.last())) by {
            assert(a[a.len() - 1] == a.last());
        }
        assert(b.len() > 0);
        assert(b.contains(b.last())) by {
            assert(b[b.len() - 1] == b.last());
        }
        let ja = choose|j: int| 0 <= j < a.len() && a[j] == b.last();
        let jb = choose|j: int| 0 <= j < b.len() && b[j] == a.last();
        assert(a.last() == b.last());
        let ap = a.drop_last();
        let bp = b.drop_last();
        assert forall|x: usize| ap.contains(x) <==> bp.contains(x) by {
            if ap.contains(x) {
                let k = choose|k: int| 0 <= k < ap.len() && ap[k] == x;
                assert(a[k] == x && x < a.last());
                assert(a.contains(x));
                let j = choose|j: int| 0 <= j < b.len() && b[j] == x;
                assert(j != b.len() - 1);
                assert(bp[j] == x);
            }
            if bp.contains(x) {
                let k = choose|k: int| 0 <= k < bp.len() && bp[k] == x;
                assert(b[k] == x && x < b.last());
                assert(b.contains(x));
                let j = choose|j: int| 0 <= j < a.len() && a[j] == x;
                assert(j != a.len() - 1);
                assert(ap[j] == x);
            }
        }
        lemma_increasing_same_elements(ap, bp);
        assert(a =~= ap.push(a.last()));
        assert(b =~= bp.push(b.last()));
    }
}

/// Why a proof distribution cannot be made.
#[derive(Debug, Clone, Copy, PartialEq, Eq)]
pub enum DistributionError {
    /// No validators or no queries (the count given is 0).
    BadNumQueries(usize),
}

/// The fault threshold `h = (n - 1) / 3 + 1` of `n` validators.
pub open spec fn threshold(n: int) -> int {
    (n - 1) / 3 + 1
}

/// Checks a distribution request: at least one validator and one query. Returns
/// the number of tolerated faults `f = (n - 1) / 3` and the threshold `h = f + 1`.
pub fn distribution_thresholds(n_validators: usize, total_queries: usize) -> (r: Result<(usize, usize), DistributionError>)
    ensures
        (n_validators == 0 || total_queries == 0) <==> r is Err,
        r matches Err(e) ==> e == DistributionError::BadNumQueries(0),
        r matches Ok((f, h)) ==> f == (n_validators - 1) / 3 && h == threshold(n_validators as int),
{
    if n_validators == 0 {
        return Err(DistributionError::BadNumQueries(0));
    }
    if total_queries == 0 {
        return Err(DistributionError::BadNumQueries(0));
    }
    let f = (n_validators - 1) / 3;
    let h = f + 1;
    Ok((f, h))
}

/// The assignment can be computed for the evenly spaced positions of the domain.
pub open spec fn plan_defined(n: int, total_queries: int, domain_size: int) -> bool {
    &&& n > 0
    &&& total_queries > 0
    &&& domain_size > 0
    &&& assignments_defined(n, spaced_positions(domain_size, total_queries), threshold(n))
}

/// The query positions each validator proves, for a commitment over a domain of
/// `domain_size` elements: the evenly spaced positions, assigned with threshold
/// `h = (n - 1) / 3 + 1`.
pub fn assign_validator_positions(
    n_validators: usize,
    total_queries: usize,
    domain_size: usize,
    options: &FriOptions,
) -> (r: Vec<Vec<usize>>)
    requires
        plan_defined(n_validators as int, total_queries as int, domain_size as int),
    ensures
        views(r@) == assignments_spec(
            n_validators as int,
            spaced_positions(domain_size as int, total_queries as int),
            threshold(n_validators as int),
        ),
{
    let f = (n_validators - 1) / 3;
    let h = f + 1;
    let query_positions = generate_deterministic_positions(domain_size, total_queries, options);
    compute_position_assignments(n_validators, query_positions.as_slice(), f, h)
}

/// Ascending order.
pub open spec fn ascending(v: Seq<usize>) -> bool {
    forall|i: int, j: int| 0 <= i < j < v.len() ==> v[i] <= v[j]
}

/// Sorts the positions in ascending order.
#[verifier::external_body]
fn sort_positions(v: &mut Vec<usize>)
    ensures
        final(v)@.to_multiset() == old(v)@.to_multiset(),
        ascending(final(v)@),
{
    v.sort();
}

/// Two validators hold the same positions, up to order.
pub open spec fn same_positions(a: Seq<usize>, b: Seq<usize>) -> bool {
    a.to_multiset() == b.to_multiset()
}

/// Which proof each validator receives: `None` for a validator without positions;
/// otherwise the first validator that holds the same positions (up to order), whose
/// proof is opened once and shared.
pub open spec fn is_proof_plan(plan: Seq<Option<usize>>, a: Seq<Seq<usize>>) -> bool {
    &&& plan.len() == a.len()
    &&& forall|i: int| 0 <= i < a.len() ==> {
        &&& ((#[trigger] plan[i]) is None <==> a[i].len() == 0)
        &&& plan[i] matches Some(j) ==> {
            &&& j <= i
            &&& same_positions(a[j as int], a[i])
            &&& forall|k: int| 0 <= k < j ==> !same_positions(#[trigger] a[k], a[i])
        }
    }
}

proof fn lemma_sorted_keys(x: Seq<usize>, y: Seq<usize>, kx: Seq<usize>, ky: Seq<usize>)
    requires
        kx.to_multiset() == x.to_multiset(),
        ky.to_multiset() == y.to_multiset(),
        ascending(kx),
        ascending(ky),
    ensures
        (kx == ky) <==> same_positions(x, y),
{
    let leq = |a: usize, b: usize| a <= b;
    if same_positions(x, y) {
        assert(vstd::relations::sorted_by(kx, leq));
        assert(vstd::relations::sorted_by(ky, leq));
        vstd::seq_lib::lemma_sorted_unique(kx, ky, leq);
    }
}

fn equal_positions(a: &Vec<usize>, b: &Vec<usize>) -> (r: bool)
    ensures
        r == (a@ == b@),
{
    if a.len() != b.len() {
        return false;
    }
    let mut i: usize = 0;
    while i < a.len()
        invariant
            a@.len() == b@.len(),
            i <= a@.len(),
            forall|k: int| 0 <= k < i ==> a@[k] == b@[k],
        decreases a.len() - i,
    {
        if a[i] != b[i] {
            return false;
        }
        i += 1;
    }
    assert(a@ =~= b@);
    true
}

/// The proof plan of the validators (see `is_proof_plan`): positions are compared
/// after sorting, so validators holding the same positions in another order share
/// one proof.
pub fn proof_requests(validator_positions: &Vec<Vec<usize>>) -> (r: Vec<Option<usize>>)
    ensures
        is_proof_plan(r@, views(validator_positions@)),
{
    let n = validator_positions.len();
    let ghost a = views(validator_positions@);
    let mut keys: Vec<Vec<usize>> = Vec::new();
    let mut i: usize = 0;
    while i < n
        invariant
            n == validator_positions@.len(),
            a == views(validator_positions@),
            i <= n,
            keys@.len() == i,
            forall|k: int| 0 <= k < i ==> {
                &&& (#[trigger] keys@[k])@.to_multiset() == a[k].to_multiset()
                &&& ascending(keys@[k]@)
            },
        decreases n - i,
    {
        let mut key = validator_positions[i].clone();
        assert(key@ =~= a[i as int]);
        sort_positions(&mut key);
        keys.push(key);
        i += 1;
    }
    let mut plan: Vec<Option<usize>> = Vec::new();
    let mut i: usize = 0;
    while i < n
        invariant
            n == validator_positions@.len(),
            a == views(validator_positions@),
            a.len() == n,
            keys@.len() == n,
            forall|k: int| 0 <= k < n ==> {
                &&& (#[trigger] keys@[k])@.to_multiset() == a[k].to_multiset()
                &&& ascending(keys@[k]@)
            },
            i <= n,
            is_proof_plan(plan@, a.take(i as int)),
        decreases n - i,
    {
        assert(validator_positions@[i as int]@ == a[i as int]);
        if validator_positions[i].len() == 0 {
            plan.push(None);
        } else {
            let mut j: usize = 0;
            while j < i && !equal_positions(&keys[j], &keys[i])
                invariant
                    j <= i < n,
                    keys@.len() == n,
                    a.len() == n,
                    forall|k: int| 0 <= k < n ==> {
                        &&& (#[trigger] keys@[k])@.to_multiset() == a[k].to_multiset()
                        &&& ascending(keys@[k]@)
                    },
                    forall|k: int| 0 <= k < j ==> !same_positions(#[trigger] a[k], a[i as int]),
                decreases i - j,
            {
                proof {
                    lemma_sorted_keys(a[j as int], a[i as int], keys@[j as int]@, keys@[i as int]@);
                }
                j += 1;
            }
            proof {
                lemma_sorted_keys(a[j as int], a[i as int], keys@[j as int]@, keys@[i as int]@);
            }
            plan.push(Some(j));
        }
        i += 1;
        assert forall|k: int| 0 <= k < i implies a.take(i as int)[k] == a[k] by {}
        assert(is_proof_plan(plan@, a.take(i as int)));
    }
    assert(a.take(n as int) =~= a);
    plan
}

} // verus!
