//! Cyclic windows of query positions, and the counting argument behind the
//! coverage guarantee of the position assignments: among any `h` validators
//! some validator holds each query position.
use vstd::prelude::*;
use vstd::set_lib::{set_int_range, lemma_int_range, lemma_len_subset};
use vstd::arithmetic::div_mod::lemma_fundamental_div_mod;

verus! {

/// The `span` positions that start at index `offset` of the first `s` positions and
/// wrap around: `positions[(offset + j) % s]` for `j < span`.
pub open spec fn window(positions: Seq<usize>, s: int, offset: int, span: int) -> Seq<usize> {
    Seq::new(span as nat, |j: int| positions[(offset + j) % s])
}

/// The query position at index `q` is held by one of the `chosen` validators.
pub open spec fn held_by_some(assignments: Seq<Seq<usize>>, chosen: Seq<int>, positions: Seq<usize>, q: int) -> bool {
    exists|t: int| 0 <= t < chosen.len() && (#[trigger] assignments[chosen[t]]).contains(positions[q])
}

/// Every query position is held by at least one of the `chosen` validators.
pub open spec fn covers(assignments: Seq<Seq<usize>>, chosen: Seq<int>, positions: Seq<usize>) -> bool {
    forall|q: int| 0 <= q < positions.len() ==> #[trigger] held_by_some(assignments, chosen, positions, q)
}

/// `chosen` lists distinct validators, each below `n`.
pub open spec fn distinct_validators(chosen: Seq<int>, n: int) -> bool {
    &&& chosen.no_duplicates()
    &&& forall|t: int| 0 <= t < chosen.len() ==> 0 <= #[trigger] chosen[t] < n
}

/// Cyclic distance from `o` forward to `q`, for indices below `s`.
pub open spec fn ahead(q: int, o: int, s: int) -> int {
    if o <= q {
        q - o
    } else {
        q - o + s
    }
}

pub proof fn lemma_wrap_mod(x: int, s: int)
    requires
        0 < s,
        0 <= x < 2 * s,
    ensures
        x < s ==> x % s == x,
        s <= x ==> x % s == x - s,
{
    assert(x < s ==> x % s == x) by (nonlinear_arith)
        requires
            0 < s,
            0 <= x,
    ;
    assert(s <= x ==> x % s == x - s) by (nonlinear_arith)
        requires
            0 < s,
            x < 2 * s,
    ;
}

/// A window starting at `o` holds `positions[q]` when `q` lies less than `span`
/// steps ahead of `o`.
pub proof fn lemma_window_holds(positions: Seq<usize>, s: int, o: int, span: int, q: int)
    requires
        0 < s <= positions.len(),
        0 <= o < s,
        0 <= q < s,
        ahead(q, o, s) < span,
    ensures
        window(positions, s, o, span).contains(positions[q]),
{
    let j = ahead(q, o, s);
    lemma_wrap_mod(o + j, s);
    assert(window(positions, s, o, span)[j] == positions[q]);
}

/// Pigeonhole: distinct values sent injectively into `[0, bound)` number at most `bound`.
pub proof fn lemma_pigeonhole(vs: Seq<int>, g: spec_fn(int) -> int, bound: int)
    requires
        vs.len() > 0,
        vs.no_duplicates(),
        forall|t: int| 0 <= t < vs.len() ==> 0 <= #[trigger] g(vs[t]) < bound,
        forall|t1: int, t2: int|
            0 <= t1 < vs.len() && 0 <= t2 < vs.len() && #[trigger] g(vs[t1]) == #[trigger] g(vs[t2])
                ==> t1 == t2,
    ensures
        vs.len() <= bound,
{
    let imgs = vs.map_values(g);
    assert(imgs.no_duplicates()) by {
        assert forall|i: int, j: int| 0 <= i < imgs.len() && 0 <= j < imgs.len() && i != j implies imgs[i] != imgs[j] by {
            assert(imgs[i] == g(vs[i]));
            assert(imgs[j] == g(vs[j]));
        }
    }
    imgs.unique_seq_to_set();
    if bound < 0 {
        assert(0 <= g(vs[0]) < bound);
    } else {
        lemma_int_range(0, bound);
        assert(imgs.to_set().subset_of(set_int_range(0, bound))) by {
            assert forall|x: int| imgs.to_set().contains(x) implies set_int_range(0, bound).contains(x) by {
                let i = choose|i: int| 0 <= i < imgs.len() && imgs[i] == x;
                assert(imgs[i] == g(vs[i]));
            }
        }
        lemma_len_subset(imgs.to_set(), set_int_range(0, bound));
    }
}

/// Offsets at distinct indices below `s` are at distinct distances behind `q`.
pub proof fn lemma_ahead_injective(q: int, o1: int, o2: int, s: int)
    requires
        0 <= q < s,
        0 <= o1 < s,
        0 <= o2 < s,
        ahead(q, o1, s) == ahead(q, o2, s),
    ensures
        o1 == o2,
{
}

/// Windows of length `span` that start at distinct offsets below `s`: once there are
/// more of them than the `s - span` offsets whose window misses a given index, some
/// window holds the position at that index.
pub proof fn lemma_windows_cover(positions: Seq<usize>, s: int, span: int, offsets: Seq<int>, q: int)
    requires
        0 < s <= positions.len(),
        0 <= q < s,
        offsets.len() >= 1,
        s - span < offsets.len(),
        distinct_validators(offsets, s),
    ensures
        exists|t: int| 0 <= t < offsets.len() && window(positions, s, offsets[t], span).contains(positions[q]),
{
    if exists|t: int| 0 <= t < offsets.len() && ahead(q, offsets[t], s) < span {
        let t = choose|t: int| 0 <= t < offsets.len() && ahead(q, offsets[t], s) < span;
        lemma_window_holds(positions, s, offsets[t], span, q);
    } else {
        let g = |o: int| ahead(q, o, s) - span;
        assert forall|t1: int, t2: int|
            0 <= t1 < offsets.len() && 0 <= t2 < offsets.len() && #[trigger] g(offsets[t1]) == #[trigger] g(offsets[t2])
                implies t1 == t2 by {
            lemma_ahead_injective(q, offsets[t1], offsets[t2], s);
        }
        assert forall|t: int| 0 <= t < offsets.len() implies 0 <= #[trigger] g(offsets[t]) < s - span by {
            assert(ahead(q, offsets[t], s) >= span);
        }
        lemma_pigeonhole(offsets, g, s - span);
    }
}

/// Assignment in which validator `i` holds the window starting at `i % s` when
/// `i < r * s`, and nothing otherwise (there are `n` validators).
pub open spec fn replicated_windows(positions: Seq<usize>, s: int, span: int, r: int, n: int) -> Seq<Seq<usize>> {
    Seq::new(n as nat, |i: int| if i < r * s { window(positions, s, i % s, span) } else { Seq::empty() })
}

proof fn lemma_div_mod_parts(i: int, s: int, r: int)
    requires
        0 < s,
        0 <= i < r * s,
    ensures
        0 <= i % s < s,
        0 <= i / s < r,
        i == (i / s) * s + i % s,
{
    lemma_fundamental_div_mod(i, s);
    assert(0 <= i % s < s) by (nonlinear_arith)
        requires
            0 < s,
    ;
    assert(0 <= i / s < r) by (nonlinear_arith)
        requires
            0 < s,
            0 <= i < r * s,
    ;
    assert(i == (i / s) * s + i % s) by (nonlinear_arith)
        requires
            i == s * (i / s) + i % s,
    ;
}

proof fn lemma_digits_unique(a1: int, k1: int, a2: int, k2: int, r: int)
    requires
        0 <= k1 < r,
        0 <= k2 < r,
        a1 * r + k1 == a2 * r + k2,
    ensures
        a1 == a2,
        k1 == k2,
{
    assert(a1 == a2) by (nonlinear_arith)
        requires
            0 <= k1 < r,
            0 <= k2 < r,
            a1 * r + k1 == a2 * r + k2,
    ;
}

/// Coverage of replicated windows: with `r` copies of each of the `s` windows, the
/// validators that miss a given index are at most `(s - span) * r` (when the windows
/// are shorter than `s`) plus the `n - r * s` validators that hold nothing; any larger
/// set of distinct validators contains one that holds the position at that index.
pub proof fn lemma_replicated_windows_cover(
    positions: Seq<usize>,
    s: int,
    span: int,
    r: int,
    n: int,
    chosen: Seq<int>,
    q: int,
)
    requires
        0 < s <= positions.len(),
        0 <= q < s,
        1 <= r,
        r * s <= n,
        0 <= span,
        chosen.len() >= 1,
        (if span >= s { 0 } else { s - span }) * r + (n - r * s) < chosen.len(),
        distinct_validators(chosen, n),
    ensures
        exists|t: int| 0 <= t < chosen.len() && replicated_windows(positions, s, span, r, n)[chosen[t]].contains(positions[q]),
{
    let a = replicated_windows(positions, s, span, r, n);
    let m = if span >= s { 0 } else { s - span };
    if exists|t: int| 0 <= t < chosen.len() && chosen[t] < r * s && ahead(q, chosen[t] % s, s) < span {
        let t = choose|t: int| 0 <= t < chosen.len() && chosen[t] < r * s && ahead(q, chosen[t] % s, s) < span;
        lemma_div_mod_parts(chosen[t], s, r);
        lemma_window_holds(positions, s, chosen[t] % s, span, q);
    } else {
        let g = |i: int|
            if i < r * s {
                (ahead(q, i % s, s) - span) * r + i / s
            } else {
                m * r + (i - r * s)
            };
        assert forall|t: int| 0 <= t < chosen.len() implies 0 <= #[trigger] g(chosen[t]) < m * r + (n - r * s) by {
            let i = chosen[t];
            if i < r * s {
                lemma_div_mod_parts(i, s, r);
                let d = ahead(q, i % s, s) - span;
                assert(0 <= d < m);
                assert(0 <= d * r + i / s < m * r) by (nonlinear_arith)
                    requires
                        0 <= d < m,
                        0 <= i / s < r,
                ;
            } else {
                assert(0 <= m * r) by (nonlinear_arith)
                    requires
                        0 <= m,
                        0 <= r,
                ;
            }
        }
        assert forall|t1: int, t2: int|
            0 <= t1 < chosen.len() && 0 <= t2 < chosen.len() && #[trigger] g(chosen[t1]) == #[trigger] g(chosen[t2])
                implies t1 == t2 by {
            let i1 = chosen[t1];
            let i2 = chosen[t2];
            if i1 < r * s && i2 < r * s {
                lemma_div_mod_parts(i1, s, r);
                lemma_div_mod_parts(i2, s, r);
                lemma_digits_unique(ahead(q, i1 % s, s) - span, i1 / s, ahead(q, i2 % s, s) - span, i2 / s, r);
                lemma_ahead_injective(q, i1 % s, i2 % s, s);
                assert(i1 == i2);
            } else if i1 < r * s {
                lemma_div_mod_parts(i1, s, r);
                let d = ahead(q, i1 % s, s) - span;
                assert(d * r + i1 / s < m * r) by (nonlinear_arith)
                    requires
                        0 <= d < m,
                        0 <= i1 / s < r,
                ;
            } else if i2 < r * s {
                lemma_div_mod_parts(i2, s, r);
                let d = ahead(q, i2 % s, s) - span;
                assert(d * r + i2 / s < m * r) by (nonlinear_arith)
                    requires
                        0 <= d < m,
                        0 <= i2 / s < r,
                ;
            }
            assert(chosen[t1] == chosen[t2]);
        }
        lemma_pigeonhole(chosen, g, m * r + (n - r * s));
    }
}

/// The window of `span` positions starting at `offset`, wrapping around the first
/// `s` positions.
pub fn cyclic_window(positions: &[usize], s: usize, offset: usize, span: usize) -> (r: Vec<usize>)
    requires
        0 < s <= positions@.len(),
        offset < s,
        span <= s + 1,
    ensures
        r@ == window(positions@, s as int, offset as int, span as int),
{
    let mut v: Vec<usize> = Vec::new();
    let mut j: usize = 0;
    while j < span
        invariant
            0 < s <= positions@.len(),
            offset < s,
            span <= s + 1,
            j <= span,
            v@ == window(positions@, s as int, offset as int, j as int),
        decreases span - j,
    {
        let idx = if j < s - offset {
            offset + j
        } else {
            j - (s - offset)
        };
        proof {
            lemma_wrap_mod(offset + j, s as int);
        }
        v.push(positions[idx]);
        j += 1;
        assert(v@ =~= window(positions@, s as int, offset as int, j as int));
    }
    v
}

} // verus!
