//! Phase timings and proof sizes computed from the recorded consensus events,
//! and their running summary over all views.
use vstd::prelude::*;
use std::collections::HashMap;

use crate::benchmark_handlers::BenchmarkMetrics;
use crate::stats::{
    u64s, usizes, seq_min, seq_max, seq_sum, seq_mean, lemma_seq_sum_prefix, min_u64, max_u64, sum_u64, min_usize,
    max_usize, sum_usize, checked_sum_u64, checked_sum_usize,
};

verus! {

broadcast use vstd::std_specs::hash::group_hash_axioms;

/// Minimum, mean and maximum duration (milliseconds) of one consensus phase.
#[derive(Debug)]
pub struct BenchmarkTiming {
    pub min_time: Option<u64>,
    pub mean_time: Option<u64>,
    pub max_time: Option<u64>,
}

/// Minimum, mean and maximum size (bytes) of the proposals of one kind.
#[derive(Debug)]
pub struct BenchmarkProofSize {
    pub min_proof_size: Option<usize>,
    pub mean_proof_size: Option<usize>,
    pub max_proof_size: Option<usize>,
}

/// The durations of the five consensus phases and the two proposal sizes.
#[derive(Debug)]
pub struct PhaseTimingAndProofSize {
    pub propose_block_time: BenchmarkTiming,
    pub send_proposal_time: BenchmarkTiming,
    pub validate_proposal_time: BenchmarkTiming,
    pub send_signed_proposal_time: BenchmarkTiming,
    pub validate_signature_time: BenchmarkTiming,
    pub proposal_proof_size: BenchmarkProofSize,
    pub receive_proposal_proof_size: BenchmarkProofSize,
}

// ---------------------------------------------------------------------------
// What the functions compute
// ---------------------------------------------------------------------------

/// The running minimum: the first value seen, then the smaller of the two.
pub open spec fn merge_min(cur: Option<int>, new: Option<int>) -> Option<int> {
    match cur {
        Some(m) => Some(if new.unwrap() < m { new.unwrap() } else { m }),
        None => new,
    }
}

/// The running maximum: the first value seen, then the larger of the two.
pub open spec fn merge_max(cur: Option<int>, new: Option<int>) -> Option<int> {
    match cur {
        Some(m) => Some(if new.unwrap() > m { new.unwrap() } else { m }),
        None => new,
    }
}

/// The running mean: the first value seen, then the floor of the average of the
/// current value and the new one.
pub open spec fn merge_mean(cur: Option<int>, new: Option<int>) -> Option<int> {
    match cur {
        Some(m) => Some((m + new.unwrap()) / 2),
        None => new,
    }
}

pub open spec fn opt_u64(o: Option<u64>) -> Option<int> {
    match o {
        Some(v) => Some(v as int),
        None => None,
    }
}

pub open spec fn opt_usize(o: Option<usize>) -> Option<int> {
    match o {
        Some(v) => Some(v as int),
        None => None,
    }
}

impl BenchmarkTiming {
    /// The timing as three optional integers.
    pub open spec fn parts(self) -> (Option<int>, Option<int>, Option<int>) {
        (opt_u64(self.min_time), opt_u64(self.mean_time), opt_u64(self.max_time))
    }
}

impl BenchmarkProofSize {
    /// The proof size as three optional integers.
    pub open spec fn parts(self) -> (Option<int>, Option<int>, Option<int>) {
        (opt_usize(self.min_proof_size), opt_usize(self.mean_proof_size), opt_usize(self.max_proof_size))
    }
}

/// A running triple may absorb a new one: once a statistic is present the new one
/// must be present too (it is unwrapped).
pub open spec fn triple_mergeable(
    cur: (Option<int>, Option<int>, Option<int>),
    new: (Option<int>, Option<int>, Option<int>),
) -> bool {
    &&& cur.0 is Some ==> new.0 is Some
    &&& cur.1 is Some ==> new.1 is Some
    &&& cur.2 is Some ==> new.2 is Some
}

/// Duration of a phase that starts at the events `froms` and ends at the events `tos`:
/// earliest end minus earliest start, mean end minus mean start, latest end minus
/// earliest start (each statistic `0` for no events).
pub open spec fn timing_of(froms: Seq<u64>, tos: Seq<u64>) -> (int, int, int) {
    let f = u64s(froms);
    let t = u64s(tos);
    (seq_min(t) - seq_min(f), seq_mean(t) - seq_mean(f), seq_max(t) - seq_min(f))
}

/// The phase duration can be computed: both sums fit in a `u64` and no difference is negative.
pub open spec fn timing_defined(froms: Seq<u64>, tos: Seq<u64>) -> bool {
    let f = u64s(froms);
    let t = u64s(tos);
    &&& seq_sum(f) <= u64::MAX
    &&& seq_sum(t) <= u64::MAX
    &&& seq_min(f) <= seq_min(t)
    &&& seq_mean(f) <= seq_mean(t)
    &&& seq_min(f) <= seq_max(t)
}

/// Minimum, mean and maximum of the proof sizes (each `0` for no sizes).
pub open spec fn proof_size_of(sizes: Seq<usize>) -> (int, int, int) {
    let s = usizes(sizes);
    (seq_min(s), seq_mean(s), seq_max(s))
}

pub open spec fn some3(t: (int, int, int)) -> (Option<int>, Option<int>, Option<int>) {
    (Some(t.0), Some(t.1), Some(t.2))
}

/// The five phase durations and two proposal sizes of one view can be computed.
pub open spec fn phases_defined(m: BenchmarkMetrics) -> bool {
    &&& timing_defined(m.start_view_time@, m.propose_time@)
    &&& timing_defined(m.propose_time@, m.receive_proposal_time@)
    &&& timing_defined(m.receive_proposal_time@, m.phase_vote_time@)
    &&& timing_defined(m.phase_vote_time@, m.receive_phase_vote_time@)
    &&& timing_defined(m.receive_phase_vote_time@, m.collect_pc_time@)
    &&& seq_sum(usizes(m.proposal_proof_size@)) <= usize::MAX
    &&& seq_sum(usizes(m.receive_proposal_proof_size@)) <= usize::MAX
}

/// The triple (minimum, mean, maximum) of each of the seven entries of a
/// `PhaseTimingAndProofSize`, in field order.
pub open spec fn phase_parts(r: PhaseTimingAndProofSize) -> Seq<(Option<int>, Option<int>, Option<int>)> {
    seq![
        r.propose_block_time.parts(),
        r.send_proposal_time.parts(),
        r.validate_proposal_time.parts(),
        r.send_signed_proposal_time.parts(),
        r.validate_signature_time.parts(),
        r.proposal_proof_size.parts(),
        r.receive_proposal_proof_size.parts(),
    ]
}

/// The phase durations and proposal sizes of one view: each phase runs from one
/// consensus event to the next (start view, propose, receive proposal, phase vote,
/// receive phase vote, collect certificate).
pub open spec fn view_parts(m: BenchmarkMetrics) -> Seq<(Option<int>, Option<int>, Option<int>)> {
    seq![
        some3(timing_of(m.start_view_time@, m.propose_time@)),
        some3(timing_of(m.propose_time@, m.receive_proposal_time@)),
        some3(timing_of(m.receive_proposal_time@, m.phase_vote_time@)),
        some3(timing_of(m.phase_vote_time@, m.receive_phase_vote_time@)),
        some3(timing_of(m.receive_phase_vote_time@, m.collect_pc_time@)),
        some3(proof_size_of(m.proposal_proof_size@)),
        some3(proof_size_of(m.receive_proposal_proof_size@)),
    ]
}

/// Merge of a running triple (minimum, mean, maximum) with a new one.
pub open spec fn merge_triple(
    cur: (Option<int>, Option<int>, Option<int>),
    new: (Option<int>, Option<int>, Option<int>),
) -> (Option<int>, Option<int>, Option<int>) {
    (merge_min(cur.0, new.0), merge_mean(cur.1, new.1), merge_max(cur.2, new.2))
}

/// The running minimum of entry `i` over the views of `ms`, taken in order (`None`
/// before any view).
pub open spec fn min_of_views(ms: Seq<BenchmarkMetrics>, i: int) -> Option<int>
    decreases ms.len(),
{
    if ms.len() == 0 {
        None
    } else {
        merge_min(min_of_views(ms.drop_last(), i), view_parts(ms.last())[i].0)
    }
}

/// The running maximum of entry `i` over the views of `ms`, taken in order (`None`
/// before any view).
pub open spec fn max_of_views(ms: Seq<BenchmarkMetrics>, i: int) -> Option<int>
    decreases ms.len(),
{
    if ms.len() == 0 {
        None
    } else {
        merge_max(max_of_views(ms.drop_last(), i), view_parts(ms.last())[i].2)
    }
}

/// Sum over the views of `ms` of their means of entry `i`.
pub open spec fn mean_sum(ms: Seq<BenchmarkMetrics>, i: int) -> int
    decreases ms.len(),
{
    if ms.len() == 0 {
        0
    } else {
        mean_sum(ms.drop_last(), i) + view_parts(ms.last())[i].1.unwrap()
    }
}

/// The mean of entry `i` across the views: the sum of the views' means divided by
/// the number of views (floor); `None` when there is no view.
pub open spec fn mean_of_views(ms: Seq<BenchmarkMetrics>, i: int) -> Option<int> {
    if ms.len() == 0 {
        None
    } else {
        Some(mean_sum(ms, i) / (ms.len() as int))
    }
}

/// The summary over the views of `ms`: for each of the seven entries, the least of
/// the views' minima, the mean of the views' means and the greatest of their maxima
/// (all `None` when there is no view).
pub open spec fn summary_of(ms: Seq<BenchmarkMetrics>) -> Seq<(Option<int>, Option<int>, Option<int>)> {
    Seq::new(7, |i: int| (min_of_views(ms, i), mean_of_views(ms, i), max_of_views(ms, i)))
}

/// Largest value an entry may hold: the first five entries are `u64` durations,
/// the last two `usize` sizes.
pub open spec fn entry_limit(i: int) -> int {
    if i < 5 {
        u64::MAX as int
    } else {
        usize::MAX as int
    }
}

/// `keys` lists every key of `m` once.
pub open spec fn is_walk_of(keys: Seq<u64>, m: Map<u64, BenchmarkMetrics>) -> bool {
    &&& keys.no_duplicates()
    &&& keys.len() == m.dom().len()
    &&& forall|i: int| 0 <= i < keys.len() ==> m.dom().contains(#[trigger] keys[i])
}

/// The views of `m` in the order of `keys`.
pub open spec fn views_in(keys: Seq<u64>, m: Map<u64, BenchmarkMetrics>) -> Seq<BenchmarkMetrics> {
    keys.map_values(|k: u64| m[k])
}

// ---------------------------------------------------------------------------
// Lemmas on the summary
// ---------------------------------------------------------------------------

/// Over one or more views, the summary's minimum of each entry is the least of the
/// views' minima and its maximum the greatest of their maxima.
pub proof fn lemma_summary_extremes(ms: Seq<BenchmarkMetrics>, i: int)
    requires
        forall|k: int| 0 <= k < ms.len() ==> phases_defined(#[trigger] ms[k]),
        ms.len() > 0,
        0 <= i < 7,
    ensures
        summary_of(ms)[i].0 is Some,
        summary_of(ms)[i].2 is Some,
        forall|k: int| 0 <= k < ms.len() ==> summary_of(ms)[i].0.unwrap() <= (#[trigger] view_parts(ms[k]))[i].0.unwrap(),
        exists|k: int| 0 <= k < ms.len() && summary_of(ms)[i].0.unwrap() == (#[trigger] view_parts(ms[k]))[i].0.unwrap(),
        forall|k: int| 0 <= k < ms.len() ==> summary_of(ms)[i].2.unwrap() >= (#[trigger] view_parts(ms[k]))[i].2.unwrap(),
        exists|k: int| 0 <= k < ms.len() && summary_of(ms)[i].2.unwrap() == (#[trigger] view_parts(ms[k]))[i].2.unwrap(),
    decreases ms.len(),
{
    let last = ms.len() - 1;
    let prev = ms.drop_last();
    assert(phases_defined(ms[last]));
    lemma_view_parts_shape(ms[last]);
    assert(summary_of(ms)[i] == (min_of_views(ms, i), mean_of_views(ms, i), max_of_views(ms, i)));
    if ms.len() == 1 {
        assert(min_of_views(prev, i) is None);
        assert(max_of_views(prev, i) is None);
        assert(min_of_views(ms, i).unwrap() == view_parts(ms[0])[i].0.unwrap());
        assert(max_of_views(ms, i).unwrap() == view_parts(ms[0])[i].2.unwrap());
    } else {
        assert forall|k: int| 0 <= k < prev.len() implies phases_defined(#[trigger] prev[k]) by {
            assert(prev[k] == ms[k]);
        }
        lemma_summary_extremes(prev, i);
        assert(summary_of(prev)[i] == (min_of_views(prev, i), mean_of_views(prev, i), max_of_views(prev, i)));
        let kmin = choose|k: int| 0 <= k < prev.len() && summary_of(prev)[i].0.unwrap() == (#[trigger] view_parts(prev[k]))[i].0.unwrap();
        let kmax = choose|k: int| 0 <= k < prev.len() && summary_of(prev)[i].2.unwrap() == (#[trigger] view_parts(prev[k]))[i].2.unwrap();
        assert(prev[kmin] == ms[kmin]);
        assert(prev[kmax] == ms[kmax]);
        assert forall|k: int| 0 <= k < ms.len() implies summary_of(ms)[i].0.unwrap() <= (#[trigger] view_parts(ms[k]))[i].0.unwrap()
            && summary_of(ms)[i].2.unwrap() >= view_parts(ms[k])[i].2.unwrap() by {
            if k < last {
                assert(prev[k] == ms[k]);
                assert(summary_of(prev)[i].0.unwrap() <= view_parts(prev[k])[i].0.unwrap());
                assert(summary_of(prev)[i].2.unwrap() >= view_parts(prev[k])[i].2.unwrap());
            }
        }
        if view_parts(ms[last])[i].0.unwrap() < min_of_views(prev, i).unwrap() {
            assert(summary_of(ms)[i].0.unwrap() == view_parts(ms[last])[i].0.unwrap());
        } else {
            assert(summary_of(ms)[i].0.unwrap() == view_parts(ms[kmin])[i].0.unwrap());
        }
        if view_parts(ms[last])[i].2.unwrap() > max_of_views(prev, i).unwrap() {
            assert(summary_of(ms)[i].2.unwrap() == view_parts(ms[last])[i].2.unwrap());
        } else {
            assert(summary_of(ms)[i].2.unwrap() == view_parts(ms[kmax])[i].2.unwrap());
        }
    }
}

proof fn lemma_mean_sum_remove(ms: Seq<BenchmarkMetrics>, j: int, i: int)
    requires
        0 <= j < ms.len(),
    ensures
        mean_sum(ms, i) == mean_sum(ms.remove(j), i) + view_parts(ms[j])[i].1.unwrap(),
    decreases ms.len(),
{
    if j == ms.len() - 1 {
        assert(ms.remove(j) =~= ms.drop_last());
    } else {
        lemma_mean_sum_remove(ms.drop_last(), j, i);
        assert(ms.remove(j).drop_last() =~= ms.drop_last().remove(j));
        assert(ms.remove(j).last() == ms.last());
        assert(ms.drop_last()[j] == ms[j]);
    }
}

/// Two lists of the same distinct keys give the same sum of means.
proof fn lemma_mean_sum_permutation(k1: Seq<u64>, k2: Seq<u64>, m: Map<u64, BenchmarkMetrics>, i: int)
    requires
        k1.no_duplicates(),
        k2.no_duplicates(),
        forall|y: u64| k1.contains(y) <==> k2.contains(y),
    ensures
        mean_sum(views_in(k1, m), i) == mean_sum(views_in(k2, m), i),
        k1.len() == k2.len(),
    decreases k1.len(),
{
    if k1.len() == 0 {
        if k2.len() > 0 {
            assert(k2.contains(k2[0]));
        }
        assert(views_in(k1, m) =~= Seq::<BenchmarkMetrics>::empty());
        assert(views_in(k2, m) =~= Seq::<BenchmarkMetrics>::empty());
    } else {
        let x = k1.last();
        assert(k1.contains(x)) by {
            assert(k1[k1.len() - 1] == x);
        }
        let j = choose|j: int| 0 <= j < k2.len() && k2[j] == x;
        let k1p = k1.drop_last();
        let k2p = k2.remove(j);
        assert forall|a: int, b: int| 0 <= a < b < k1p.len() implies k1p[a] != k1p[b] by {
            assert(k1p[a] == k1[a] && k1p[b] == k1[b]);
        }
        assert forall|a: int, b: int| 0 <= a < b < k2p.len() implies k2p[a] != k2p[b] by {
            let ia = if a < j { a } else { a + 1 };
            let ib = if b < j { b } else { b + 1 };
            assert(k2p[a] == k2[ia] && k2p[b] == k2[ib]);
        }
        assert forall|y: u64| k1p.contains(y) <==> k2p.contains(y) by {
            if k1p.contains(y) {
                let a = choose|a: int| 0 <= a < k1p.len() && k1p[a] == y;
                assert(k1[a] == y);
                assert(k1.contains(y));
                assert(y != x);
                let b = choose|b: int| 0 <= b < k2.len() && k2[b] == y;
                assert(b != j);
                let bp = if b < j { b } else { b - 1 };
                assert(k2p[bp] == y);
            }
            if k2p.contains(y) {
                let b = choose|b: int| 0 <= b < k2p.len() && k2p[b] == y;
                let ib = if b < j { b } else { b + 1 };
                assert(k2[ib] == y);
                assert(ib != j);
                assert(k2.contains(y));
                let a = choose|a: int| 0 <= a < k1.len() && k1[a] == y;
                assert(a != k1.len() - 1);
                assert(k1p[a] == y);
            }
        }
        lemma_mean_sum_permutation(k1p, k2p, m, i);
        assert(views_in(k1p, m) =~= views_in(k1, m).drop_last());
        assert(views_in(k2p, m) =~= views_in(k2, m).remove(j));
        lemma_mean_sum_remove(views_in(k2, m), j, i);
    }
}

/// A walk of `m` holds every key of `m`.
proof fn lemma_walk_holds_all(keys: Seq<u64>, m: Map<u64, BenchmarkMetrics>)
    requires
        is_walk_of(keys, m),
        m.dom().finite(),
    ensures
        forall|k: u64| keys.contains(k) <==> m.dom().contains(k),
{
    keys.unique_seq_to_set();
    vstd::seq_lib::seq_to_set_is_finite(keys);
    assert(keys.to_set().subset_of(m.dom()));
    vstd::set_lib::lemma_subset_equality(keys.to_set(), m.dom());
    assert forall|k: u64| keys.contains(k) <==> m.dom().contains(k) by {
        assert(keys.to_set().contains(k) == keys.contains(k));
    }
}

/// The summary does not depend on the order in which the views are walked: any two
/// walks of the same map give the same minima, means and maxima.
pub proof fn lemma_summary_order_free(m: Map<u64, BenchmarkMetrics>, k1: Seq<u64>, k2: Seq<u64>)
    requires
        m.dom().finite(),
        forall|k: u64| m.contains_key(k) ==> phases_defined(#[trigger] m[k]),
        is_walk_of(k1, m),
        is_walk_of(k2, m),
    ensures
        summary_of(views_in(k1, m)) == summary_of(views_in(k2, m)),
{
    lemma_walk_holds_all(k1, m);
    lemma_walk_holds_all(k2, m);
    let ms1 = views_in(k1, m);
    let ms2 = views_in(k2, m);
    assert forall|i: int| 0 <= i < 7 implies summary_of(ms1)[i] == summary_of(ms2)[i] by {
        lemma_mean_sum_permutation(k1, k2, m, i);
        if k1.len() > 0 {
            assert forall|k: int| 0 <= k < ms1.len() implies phases_defined(#[trigger] ms1[k]) by {
                assert(m.dom().contains(k1[k]));
            }
            assert forall|k: int| 0 <= k < ms2.len() implies phases_defined(#[trigger] ms2[k]) by {
                assert(m.dom().contains(k2[k]));
            }
            lemma_summary_extremes(ms1, i);
            lemma_summary_extremes(ms2, i);
            let a1 = choose|k: int| 0 <= k < ms1.len() && summary_of(ms1)[i].0.unwrap() == (#[trigger] view_parts(ms1[k]))[i].0.unwrap();
            let a2 = choose|k: int| 0 <= k < ms2.len() && summary_of(ms2)[i].0.unwrap() == (#[trigger] view_parts(ms2[k]))[i].0.unwrap();
            let b1 = choose|k: int| 0 <= k < ms1.len() && summary_of(ms1)[i].2.unwrap() == (#[trigger] view_parts(ms1[k]))[i].2.unwrap();
            let b2 = choose|k: int| 0 <= k < ms2.len() && summary_of(ms2)[i].2.unwrap() == (#[trigger] view_parts(ms2[k]))[i].2.unwrap();
            // Each witness of one walk is a view of the other walk.
            assert(k2.contains(k1[a1]) && k2.contains(k1[b1]));
            assert(k1.contains(k2[a2]) && k1.contains(k2[b2]));
            let c1 = choose|c: int| 0 <= c < k2.len() && k2[c] == k1[a1];
            let d1 = choose|c: int| 0 <= c < k2.len() && k2[c] == k1[b1];
            let c2 = choose|c: int| 0 <= c < k1.len() && k1[c] == k2[a2];
            let d2 = choose|c: int| 0 <= c < k1.len() && k1[c] == k2[b2];
            assert(ms2[c1] == ms1[a1] && ms2[d1] == ms1[b1]);
            assert(ms1[c2] == ms2[a2] && ms1[d2] == ms2[b2]);
            assert(summary_of(ms2)[i].0.unwrap() <= view_parts(ms2[c1])[i].0.unwrap());
            assert(summary_of(ms1)[i].0.unwrap() <= view_parts(ms1[c2])[i].0.unwrap());
            assert(summary_of(ms2)[i].2.unwrap() >= view_parts(ms2[d1])[i].2.unwrap());
            assert(summary_of(ms1)[i].2.unwrap() >= view_parts(ms1[d2])[i].2.unwrap());
        } else {
            assert(min_of_views(ms1, i) is None && min_of_views(ms2, i) is None);
            assert(max_of_views(ms1, i) is None && max_of_views(ms2, i) is None);
        }
    }
    assert(summary_of(ms1) =~= summary_of(ms2));
}

/// The statistics of one view are all present and not negative.
pub proof fn lemma_view_parts_shape(m: BenchmarkMetrics)
    requires
        phases_defined(m),
    ensures
        view_parts(m).len() == 7,
        forall|i: int| 0 <= i < 7 ==> {
            &&& (#[trigger] view_parts(m)[i]).0 is Some
            &&& view_parts(m)[i].1 is Some
            &&& view_parts(m)[i].2 is Some
            &&& 0 <= view_parts(m)[i].1.unwrap()
        },
{
    lemma_mean_nonneg(u64s(m.start_view_time@));
    lemma_mean_nonneg(u64s(m.propose_time@));
    lemma_mean_nonneg(u64s(m.receive_proposal_time@));
    lemma_mean_nonneg(u64s(m.phase_vote_time@));
    lemma_mean_nonneg(u64s(m.receive_phase_vote_time@));
    lemma_mean_nonneg(u64s(m.collect_pc_time@));
    lemma_mean_nonneg(usizes(m.proposal_proof_size@));
    lemma_mean_nonneg(usizes(m.receive_proposal_proof_size@));
}

proof fn lemma_mean_nonneg(s: Seq<int>)
    requires
        forall|k: int| 0 <= k < s.len() ==> s[k] >= 0,
    ensures
        seq_mean(s) >= 0,
        seq_sum(s) >= 0,
{
    lemma_seq_sum_prefix(s, 0);
    assert(s.take(0) =~= Seq::<int>::empty());
    if s.len() > 0 {
        assert(seq_sum(s) / (s.len() as int) >= 0) by (nonlinear_arith)
            requires
                seq_sum(s) >= 0,
                s.len() > 0,
        ;
    }
}

// ---------------------------------------------------------------------------
// Executable functions
// ---------------------------------------------------------------------------

/// The floor of the average of two values, computed without overflow.
fn average_u64(a: u64, b: u64) -> (r: u64)
    ensures
        r == (a + b) / 2,
{
    proof {
        lemma_half_sum(a as int, b as int);
    }
    a / 2 + b / 2 + (a % 2 + b % 2) / 2
}

/// The floor of the average of two values, computed without overflow.
fn average_usize(a: usize, b: usize) -> (r: usize)
    ensures
        r == (a + b) / 2,
{
    proof {
        lemma_half_sum(a as int, b as int);
    }
    a / 2 + b / 2 + (a % 2 + b % 2) / 2
}

proof fn lemma_half_sum(a: int, b: int)
    requires
        a >= 0,
        b >= 0,
    ensures
        a / 2 + b / 2 + (a % 2 + b % 2) / 2 == (a + b) / 2,
        a / 2 + b / 2 + (a % 2 + b % 2) / 2 <= if a >= b { a } else { b },
{
    assert(a / 2 + b / 2 + (a % 2 + b % 2) / 2 == (a + b) / 2) by (nonlinear_arith)
        requires
            a >= 0,
            b >= 0,
    ;
    assert((a + b) / 2 <= if a >= b { a } else { b }) by (nonlinear_arith)
        requires
            a >= 0,
            b >= 0,
    ;
}

/// Merges the timing of one view into the running timing: minimum of the minima,
/// floor of the average of the running mean and the new mean, maximum of the maxima.
/// An absent running statistic takes the new one as it is.
pub fn compare_and_update_benchmark_timing(
    current_benchmark_timing: &mut BenchmarkTiming,
    new_benchmark_timing: BenchmarkTiming,
)
    requires
        triple_mergeable(old(current_benchmark_timing).parts(), new_benchmark_timing.parts()),
    ensures
        final(current_benchmark_timing).parts() == merge_triple(
            old(current_benchmark_timing).parts(),
            new_benchmark_timing.parts(),
        ),
{
    if let Some(min_time) = current_benchmark_timing.min_time {
        let new_min = new_benchmark_timing.min_time.unwrap();
        current_benchmark_timing.min_time = Some(if new_min < min_time { new_min } else { min_time });
    } else {
        current_benchmark_timing.min_time = new_benchmark_timing.min_time;
    }
    if let Some(mean_time) = current_benchmark_timing.mean_time {
        current_benchmark_timing.mean_time = Some(average_u64(mean_time, new_benchmark_timing.mean_time.unwrap()));
    } else {
        current_benchmark_timing.mean_time = new_benchmark_timing.mean_time;
    }
    if let Some(max_time) = current_benchmark_timing.max_time {
        let new_max = new_benchmark_timing.max_time.unwrap();
        current_benchmark_timing.max_time = Some(if new_max > max_time { new_max } else { max_time });
    } else {
        current_benchmark_timing.max_time = new_benchmark_timing.max_time;
    }
}

/// Merges the proof size of one view into the running proof size, in the same way as
/// `compare_and_update_benchmark_timing`.
pub fn compare_and_update_benchmark_proof_size(
    current_benchmark_proof_size: &mut BenchmarkProofSize,
    new_benchmark_proof_size: BenchmarkProofSize,
)
    requires
        triple_mergeable(old(current_benchmark_proof_size).parts(), new_benchmark_proof_size.parts()),
    ensures
        final(current_benchmark_proof_size).parts() == merge_triple(
            old(current_benchmark_proof_size).parts(),
            new_benchmark_proof_size.parts(),
        ),
{
    if let Some(min_size) = current_benchmark_proof_size.min_proof_size {
        let new_min = new_benchmark_proof_size.min_proof_size.unwrap();
        current_benchmark_proof_size.min_proof_size = Some(if new_min < min_size { new_min } else { min_size });
    } else {
        current_benchmark_proof_size.min_proof_size = new_benchmark_proof_size.min_proof_size;
    }
    if let Some(mean_size) = current_benchmark_proof_size.mean_proof_size {
        current_benchmark_proof_size.mean_proof_size = Some(
            average_usize(mean_size, new_benchmark_proof_size.mean_proof_size.unwrap()),
        );
    } else {
        current_benchmark_proof_size.mean_proof_size = new_benchmark_proof_size.mean_proof_size;
    }
    if let Some(max_size) = current_benchmark_proof_size.max_proof_size {
        let new_max = new_benchmark_proof_size.max_proof_size.unwrap();
        current_benchmark_proof_size.max_proof_size = Some(if new_max > max_size { new_max } else { max_size });
    } else {
        current_benchmark_proof_size.max_proof_size = new_benchmark_proof_size.max_proof_size;
    }
}

/// Whether the phase from `froms` to `tos` can be computed (see `timing_defined`).
fn timing_fits(froms: &[u64], tos: &[u64]) -> (r: bool)
    ensures
        r == timing_defined(froms@, tos@),
{
    let from_sum = checked_sum_u64(froms);
    let to_sum = checked_sum_u64(tos);
    match (from_sum, to_sum) {
        (Some(fsum), Some(tsum)) => {
            let from_min = min_u64(froms);
            let to_min = min_u64(tos);
            let to_max = max_u64(tos);
            let from_mean = if froms.len() == 0 {
                0
            } else {
                fsum / (froms.len() as u64)
            };
            let to_mean = if tos.len() == 0 {
                0
            } else {
                tsum / (tos.len() as u64)
            };
            from_min <= to_min && from_mean <= to_mean && from_min <= to_max
        },
        _ => false,
    }
}

/// Whether the view's durations and sizes can be computed (see `phases_defined`):
/// no phase ends before it starts and no sum overflows. The summary is asked for
/// only over views for which this holds.
pub fn can_summarize(m: &BenchmarkMetrics) -> (r: bool)
    ensures
        r == phases_defined(*m),
{
    timing_fits(m.start_view_time.as_slice(), m.propose_time.as_slice())
        && timing_fits(m.propose_time.as_slice(), m.receive_proposal_time.as_slice())
        && timing_fits(m.receive_proposal_time.as_slice(), m.phase_vote_time.as_slice())
        && timing_fits(m.phase_vote_time.as_slice(), m.receive_phase_vote_time.as_slice())
        && timing_fits(m.receive_phase_vote_time.as_slice(), m.collect_pc_time.as_slice())
        && checked_sum_usize(m.proposal_proof_size.as_slice()).is_some()
        && checked_sum_usize(m.receive_proposal_proof_size.as_slice()).is_some()
}

impl BenchmarkTiming {
    /// A timing with no statistic yet.
    pub fn new_empty() -> (r: Self)
        ensures
            r.min_time is None,
            r.mean_time is None,
            r.max_time is None,
    {
        BenchmarkTiming { min_time: None, mean_time: None, max_time: None }
    }

    /// A timing with the three given statistics.
    pub fn new(min_time: u64, mean_time: u64, max_time: u64) -> (r: Self)
        ensures
            r.min_time == Some(min_time),
            r.mean_time == Some(mean_time),
            r.max_time == Some(max_time),
    {
        BenchmarkTiming { min_time: Some(min_time), mean_time: Some(mean_time), max_time: Some(max_time) }
    }

    fn between(froms: &[u64], tos: &[u64]) -> (r: Self)
        requires
            timing_defined(froms@, tos@),
        ensures
            r.parts() == some3(timing_of(froms@, tos@)),
    {
        let from_min = min_u64(froms);
        let from_mean = if froms.len() == 0 {
            0
        } else {
            sum_u64(froms) / (froms.len() as u64)
        };
        let to_min = min_u64(tos);
        let to_max = max_u64(tos);
        let to_mean = if tos.len() == 0 {
            0
        } else {
            sum_u64(tos) / (tos.len() as u64)
        };
        Self::new(to_min - from_min, to_mean - from_mean, to_max - from_min)
    }

    /// Duration of the phase from the events `froms` to the events `tos`: earliest
    /// end minus earliest start, mean end minus mean start, latest end minus earliest
    /// start.
    pub fn calculate_timings(froms: Vec<u64>, tos: Vec<u64>) -> (r: Self)
        requires
            timing_defined(froms@, tos@),
        ensures
            r.parts() == some3(timing_of(froms@, tos@)),
    {
        Self::between(froms.as_slice(), tos.as_slice())
    }
}

impl BenchmarkProofSize {
    /// A proof size with no statistic yet.
    pub fn new_empty() -> (r: Self)
        ensures
            r.min_proof_size is None,
            r.mean_proof_size is None,
            r.max_proof_size is None,
    {
        BenchmarkProofSize { min_proof_size: None, mean_proof_size: None, max_proof_size: None }
    }

    /// A proof size with the three given statistics.
    pub fn new(min_proof_size: usize, mean_proof_size: usize, max_proof_size: usize) -> (r: Self)
        ensures
            r.min_proof_size == Some(min_proof_size),
            r.mean_proof_size == Some(mean_proof_size),
            r.max_proof_size == Some(max_proof_size),
    {
        BenchmarkProofSize {
            min_proof_size: Some(min_proof_size),
            mean_proof_size: Some(mean_proof_size),
            max_proof_size: Some(max_proof_size),
        }
    }

    fn of_sizes(proof_sizes: &[usize]) -> (r: Self)
        requires
            seq_sum(usizes(proof_sizes@)) <= usize::MAX,
        ensures
            r.parts() == some3(proof_size_of(proof_sizes@)),
    {
        let min_proof_size = min_usize(proof_sizes);
        let mean_proof_size = if proof_sizes.len() == 0 {
            0
        } else {
            sum_usize(proof_sizes) / proof_sizes.len()
        };
        let max_proof_size = max_usize(proof_sizes);
        Self::new(min_proof_size, mean_proof_size, max_proof_size)
    }

    /// Minimum, floor mean and maximum of the proof sizes (all `0` when there are none).
    pub fn calculate_proof_size(proof_sizes: Vec<usize>) -> (r: Self)
        requires
            seq_sum(usizes(proof_sizes@)) <= usize::MAX,
        ensures
            r.parts() == some3(proof_size_of(proof_sizes@)),
    {
        Self::of_sizes(proof_sizes.as_slice())
    }
}

impl PhaseTimingAndProofSize {
    /// Groups the seven statistics.
    pub fn new(
        propose_block_time: BenchmarkTiming,
        send_proposal_time: BenchmarkTiming,
        validate_proposal_time: BenchmarkTiming,
        send_signed_proposal_time: BenchmarkTiming,
        validate_signature_time: BenchmarkTiming,
        proposal_proof_size: BenchmarkProofSize,
        receive_proposal_proof_size: BenchmarkProofSize,
    ) -> (r: Self)
        ensures
            r.propose_block_time == propose_block_time,
            r.send_proposal_time == send_proposal_time,
            r.validate_proposal_time == validate_proposal_time,
            r.send_signed_proposal_time == send_signed_proposal_time,
            r.validate_signature_time == validate_signature_time,
            r.proposal_proof_size == proposal_proof_size,
            r.receive_proposal_proof_size == receive_proposal_proof_size,
    {
        PhaseTimingAndProofSize {
            propose_block_time,
            send_proposal_time,
            validate_proposal_time,
            send_signed_proposal_time,
            validate_signature_time,
            proposal_proof_size,
            receive_proposal_proof_size,
        }
    }

    fn of_view(metrics: &BenchmarkMetrics) -> (r: Self)
        requires
            phases_defined(*metrics),
        ensures
            phase_parts(r) == view_parts(*metrics),
    {
        let r = Self::new(
            BenchmarkTiming::between(metrics.start_view_time.as_slice(), metrics.propose_time.as_slice()),
            BenchmarkTiming::between(metrics.propose_time.as_slice(), metrics.receive_proposal_time.as_slice()),
            BenchmarkTiming::between(metrics.receive_proposal_time.as_slice(), metrics.phase_vote_time.as_slice()),
            BenchmarkTiming::between(metrics.phase_vote_time.as_slice(), metrics.receive_phase_vote_time.as_slice()),
            BenchmarkTiming::between(metrics.receive_phase_vote_time.as_slice(), metrics.collect_pc_time.as_slice()),
            BenchmarkProofSize::of_sizes(metrics.proposal_proof_size.as_slice()),
            BenchmarkProofSize::of_sizes(metrics.receive_proposal_proof_size.as_slice()),
        );
        assert(phase_parts(r) =~= view_parts(*metrics));
        r
    }

    /// The phase durations and proposal sizes of one view (see `view_parts`).
    pub fn calculate_phase_timing_proof_size(metrics: BenchmarkMetrics) -> (r: Self)
        requires
            phases_defined(metrics),
        ensures
            phase_parts(r) == view_parts(metrics),
    {
        Self::of_view(&metrics)
    }

    /// Summary over all views: for each phase duration and proposal size, the least
    /// of the views' minima, the mean of the views' means (their sum divided by the
    /// number of views) and the greatest of their maxima; every statistic is `None`
    /// when there is no view. The result is the same whatever order the map is
    /// walked in.
    pub fn get_min_max_mean_from_all_benchmark_metrics(all_metrics: HashMap<u64, BenchmarkMetrics>) -> (r: Self)
        requires
            forall|k: u64| all_metrics@.contains_key(k) ==> phases_defined(#[trigger] all_metrics@[k]),
        ensures
            forall|keys: Seq<u64>|
                #![trigger is_walk_of(keys, all_metrics@)]
                is_walk_of(keys, all_metrics@) ==> phase_parts(r) == summary_of(views_in(keys, all_metrics@)),
            exists|keys: Seq<u64>| #![trigger is_walk_of(keys, all_metrics@)] is_walk_of(keys, all_metrics@),
    {
        let total = all_metrics.len();
        let mut summary = Self::new(
            BenchmarkTiming::new_empty(),
            BenchmarkTiming::new_empty(),
            BenchmarkTiming::new_empty(),
            BenchmarkTiming::new_empty(),
            BenchmarkTiming::new_empty(),
            BenchmarkProofSize::new_empty(),
            BenchmarkProofSize::new_empty(),
        );
        let mut sums: Vec<u128> = vec![0, 0, 0, 0, 0, 0, 0];
        let mut count: usize = 0;
        let ghost m = all_metrics@;
        let ghost mut keys: Seq<u64> = Seq::empty();
        proof {
            assert(views_in(keys, m) =~= Seq::<BenchmarkMetrics>::empty());
        }
        for entry in it: all_metrics.iter()
            invariant
                m == all_metrics@,
                total == m.dom().len(),
                it.seq().len() == m.dom().len(),
                it.seq().no_duplicates(),
                forall|i: int| 0 <= i < it.seq().len() ==> m.contains_key(*(#[trigger] it.seq()[i]).0) && m[*it.seq()[i].0] == *it.seq()[i].1,
                forall|k: u64| m.contains_key(k) ==> phases_defined(#[trigger] m[k]),
                keys.len() == it.index(),
                forall|i: int| 0 <= i < it.index() ==> keys[i] == *(#[trigger] it.seq()[i]).0,
                keys.no_duplicates(),
                forall|i: int| 0 <= i < keys.len() ==> m.contains_key(#[trigger] keys[i]),
                count == keys.len(),
                sums@.len() == 7,
                forall|i: int| 0 <= i < 7 ==> {
                    &&& #[trigger] sums@[i] == mean_sum(views_in(keys, m), i)
                    &&& 0 <= mean_sum(views_in(keys, m), i) <= keys.len() * entry_limit(i)
                    &&& phase_parts(summary)[i].0 == min_of_views(views_in(keys, m), i)
                    &&& phase_parts(summary)[i].1 is None
                    &&& phase_parts(summary)[i].2 == max_of_views(views_in(keys, m), i)
                },
        {
            let (view, metrics) = entry;
            let ghost done = views_in(keys, m);
            let ghost cur = it.index();
            proof {
                lemma_view_parts_shape(*metrics);
                assert(cur < it.seq().len());
            }
            let current = Self::of_view(metrics);
            let ghost vp = view_parts(*metrics);
            proof {
                assert forall|i: int| 0 <= i < 7 implies sums@[i] + vp[i].1.unwrap() <= (keys.len() + 1) * entry_limit(i)
                    && (keys.len() + 1) * entry_limit(i) <= u128::MAX by {
                    assert(phase_parts(current)[i] == vp[i]);
                    assert(vp[i].1.unwrap() <= entry_limit(i));
                    let n = keys.len() as int;
                    let l = entry_limit(i);
                    assert(n + 1 <= total);
                    assert((n + 1) * l <= u128::MAX && sums@[i] + vp[i].1.unwrap() <= (n + 1) * l) by (nonlinear_arith)
                        requires
                            0 <= sums@[i] <= n * l,
                            0 <= vp[i].1.unwrap() <= l,
                            0 <= l <= u64::MAX,
                            0 <= n + 1 <= total,
                            total <= usize::MAX,
                            usize::MAX <= u64::MAX,
                    ;
                }
            }
            add_to(&mut sums, 0, current.propose_block_time.mean_time.unwrap() as u128);
            add_to(&mut sums, 1, current.send_proposal_time.mean_time.unwrap() as u128);
            add_to(&mut sums, 2, current.validate_proposal_time.mean_time.unwrap() as u128);
            add_to(&mut sums, 3, current.send_signed_proposal_time.mean_time.unwrap() as u128);
            add_to(&mut sums, 4, current.validate_signature_time.mean_time.unwrap() as u128);
            add_to(&mut sums, 5, current.proposal_proof_size.mean_proof_size.unwrap() as u128);
            add_to(&mut sums, 6, current.receive_proposal_proof_size.mean_proof_size.unwrap() as u128);
            merge_extremes_timing(&mut summary.propose_block_time, &current.propose_block_time);
            merge_extremes_timing(&mut summary.send_proposal_time, &current.send_proposal_time);
            merge_extremes_timing(&mut summary.validate_proposal_time, &current.validate_proposal_time);
            merge_extremes_timing(&mut summary.send_signed_proposal_time, &current.send_signed_proposal_time);
            merge_extremes_timing(&mut summary.validate_signature_time, &current.validate_signature_time);
            merge_extremes_size(&mut summary.proposal_proof_size, &current.proposal_proof_size);
            merge_extremes_size(&mut summary.receive_proposal_proof_size, &current.receive_proposal_proof_size);
            count = count + 1;
            proof {
                assert forall|j: int| 0 <= j < keys.len() implies keys[j] != *view by {
                    assert(it.seq()[j] != it.seq()[cur]);
                }
                keys = keys.push(*view);
                assert(views_in(keys, m).drop_last() =~= done);
                assert(views_in(keys, m).last() == *metrics);
                assert forall|i: int| 0 <= i < 7 implies {
                    &&& #[trigger] sums@[i] == mean_sum(views_in(keys, m), i)
                    &&& 0 <= mean_sum(views_in(keys, m), i) <= keys.len() * entry_limit(i)
                    &&& phase_parts(summary)[i].0 == min_of_views(views_in(keys, m), i)
                    &&& phase_parts(summary)[i].1 is None
                    &&& phase_parts(summary)[i].2 == max_of_views(views_in(keys, m), i)
                } by {
                    assert(phase_parts(current)[i] == vp[i]);
                }
            }
        }
        proof {
            assert(is_walk_of(keys, m));
        }
        let ghost before = phase_parts(summary);
        let ghost ms = views_in(keys, m);
        proof {
            assert forall|i: int| 0 <= i < 7 implies {
                &&& before[i].0 == min_of_views(ms, i)
                &&& before[i].1 is None
                &&& before[i].2 == max_of_views(ms, i)
                &&& #[trigger] sums@[i] == mean_sum(ms, i)
                &&& mean_sum(ms, i) <= count * entry_limit(i)
            } by {
                assert(sums@[i] == mean_sum(views_in(keys, m), i));
            }
        }
        if count > 0 {
            summary.propose_block_time.mean_time = Some(mean_u64(sums[0], count));
            summary.send_proposal_time.mean_time = Some(mean_u64(sums[1], count));
            summary.validate_proposal_time.mean_time = Some(mean_u64(sums[2], count));
            summary.send_signed_proposal_time.mean_time = Some(mean_u64(sums[3], count));
            summary.validate_signature_time.mean_time = Some(mean_u64(sums[4], count));
            summary.proposal_proof_size.mean_proof_size = Some(mean_usize(sums[5], count));
            summary.receive_proposal_proof_size.mean_proof_size = Some(mean_usize(sums[6], count));
        }
        proof {
            assert forall|i: int| 0 <= i < 7 implies phase_parts(summary)[i] == summary_of(ms)[i] by {
                assert(sums@[i] == mean_sum(ms, i));
                assert(ms.len() == count);
                if i == 0 {} else if i == 1 {} else if i == 2 {} else if i == 3 {} else if i == 4 {} else if i == 5 {} else {}
            }
            assert(phase_parts(summary) =~= summary_of(views_in(keys, m)));
            broadcast use vstd::std_specs::hash::axiom_hashmap_view_finite_dom;
            assert(m.dom().finite());
            assert forall|k2: Seq<u64>| #[trigger] is_walk_of(k2, m) implies phase_parts(summary) == summary_of(views_in(k2, m)) by {
                lemma_summary_order_free(m, keys, k2);
            }
        }
        summary
    }
}

/// Adds `x` to entry `i`.
fn add_to(sums: &mut Vec<u128>, i: usize, x: u128)
    requires
        i < old(sums)@.len(),
        old(sums)@[i as int] + x <= u128::MAX,
    ensures
        final(sums)@ == old(sums)@.update(i as int, (old(sums)@[i as int] + x) as u128),
{
    let v = sums[i] + x;
    sums.set(i, v);
}

/// The floor mean of `count` values adding up to `sum`, each at most `u64::MAX`.
fn mean_u64(sum: u128, count: usize) -> (r: u64)
    requires
        count > 0,
        sum <= count * (u64::MAX as int),
    ensures
        r == (sum as int) / (count as int),
{
    let q = sum / (count as u128);
    assert(q <= u64::MAX) by (nonlinear_arith)
        requires
            count > 0,
            sum <= count * (u64::MAX as int),
            q == (sum as int) / (count as int),
    ;
    q as u64
}

/// The floor mean of `count` values adding up to `sum`, each at most `usize::MAX`.
fn mean_usize(sum: u128, count: usize) -> (r: usize)
    requires
        count > 0,
        sum <= count * (usize::MAX as int),
    ensures
        r == (sum as int) / (count as int),
{
    let q = sum / (count as u128);
    assert(q <= usize::MAX) by (nonlinear_arith)
        requires
            count > 0,
            sum <= count * (usize::MAX as int),
            q == (sum as int) / (count as int),
    ;
    q as usize
}

/// Merges a view's minimum and maximum duration into the running ones; the running
/// mean is left as it is.
fn merge_extremes_timing(cur: &mut BenchmarkTiming, new: &BenchmarkTiming)
    requires
        new.min_time is Some,
        new.max_time is Some,
    ensures
        final(cur).parts().0 == merge_min(old(cur).parts().0, new.parts().0),
        final(cur).parts().1 == old(cur).parts().1,
        final(cur).parts().2 == merge_max(old(cur).parts().2, new.parts().2),
{
    let new_min = new.min_time.unwrap();
    let new_max = new.max_time.unwrap();
    cur.min_time = match cur.min_time {
        Some(min_time) => Some(if new_min < min_time { new_min } else { min_time }),
        None => Some(new_min),
    };
    cur.max_time = match cur.max_time {
        Some(max_time) => Some(if new_max > max_time { new_max } else { max_time }),
        None => Some(new_max),
    };
}

/// Merges a view's minimum and maximum proposal size into the running ones; the
/// running mean is left as it is.
fn merge_extremes_size(cur: &mut BenchmarkProofSize, new: &BenchmarkProofSize)
    requires
        new.min_proof_size is Some,
        new.max_proof_size is Some,
    ensures
        final(cur).parts().0 == merge_min(old(cur).parts().0, new.parts().0),
        final(cur).parts().1 == old(cur).parts().1,
        final(cur).parts().2 == merge_max(old(cur).parts().2, new.parts().2),
{
    let new_min = new.min_proof_size.unwrap();
    let new_max = new.max_proof_size.unwrap();
    cur.min_proof_size = match cur.min_proof_size {
        Some(min_size) => Some(if new_min < min_size { new_min } else { min_size }),
        None => Some(new_min),
    };
    cur.max_proof_size = match cur.max_proof_size {
        Some(max_size) => Some(if new_max > max_size { new_max } else { max_size }),
        None => Some(new_max),
    };
}

} // verus!
