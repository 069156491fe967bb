//! Statistics over the proofs that the DeFrida side network stored: per proof,
//! per view, and overall.
use vstd::prelude::*;

use crate::stats::{usizes, seq_min, seq_max, seq_sum, lemma_seq_min_is_min, lemma_seq_max_is_max, lemma_seq_sum_prefix};

verus! {

/// Summary of the stored proofs.
#[derive(Debug, Clone, Copy)]
pub struct ProofStatistics {
    pub min_proof_size: usize,
    pub max_proof_size: usize,
    pub mean_proof_size: usize,
    pub total_individual_proofs: usize,
    pub total_views: usize,
    pub total_size: usize,
    pub average_size_per_view: usize,
}

/// The sizes (bytes) of the proofs stored for one proposal, with the proposal's view.
pub struct ViewProofSizes {
    pub view: u64,
    pub proof_sizes: Vec<usize>,
}

/// The sizes of all proofs, proposal after proposal.
pub open spec fn all_sizes(entries: Seq<ViewProofSizes>) -> Seq<usize>
    decreases entries.len(),
{
    if entries.len() == 0 {
        Seq::empty()
    } else {
        all_sizes(entries.drop_last()) + entries.last().proof_sizes@
    }
}

/// Total proof size of each view, each view listed once in order of first
/// appearance; when a view appears again its total is replaced by the later one.
pub open spec fn view_totals(entries: Seq<ViewProofSizes>) -> Seq<(u64, int)>
    decreases entries.len(),
{
    if entries.len() == 0 {
        Seq::empty()
    } else {
        let prev = view_totals(entries.drop_last());
        let e = entries.last();
        let total = seq_sum(usizes(e.proof_sizes@));
        if exists|k: int| 0 <= k < prev.len() && (#[trigger] prev[k]).0 == e.view {
            let k = choose|k: int| 0 <= k < prev.len() && (#[trigger] prev[k]).0 == e.view;
            prev.update(k, (e.view, total))
        } else {
            prev.push((e.view, total))
        }
    }
}

/// Sum of the per-view totals.
pub open spec fn sum_totals(t: Seq<(u64, int)>) -> int
    decreases t.len(),
{
    if t.len() == 0 {
        0
    } else {
        sum_totals(t.drop_last()) + t.last().1
    }
}

/// The statistics the proofs give: the smallest and largest proof (both 0 when there
/// is no proof, or when the smallest equals `usize::MAX`), the floor mean proof size,
/// the number of proofs, the number of distinct views, the sum of the views' totals,
/// and its floor mean per view.
pub open spec fn statistics_of(entries: Seq<ViewProofSizes>) -> ProofStatistics {
    let all = usizes(all_sizes(entries));
    let count = all.len();
    let min_seen = if count == 0 { usize::MAX as int } else { seq_min(all) };
    let totals = view_totals(entries);
    ProofStatistics {
        min_proof_size: (if min_seen != usize::MAX { min_seen } else { 0 }) as usize,
        max_proof_size: (if min_seen != usize::MAX { seq_max(all) } else { 0 }) as usize,
        mean_proof_size: (if count > 0 { seq_sum(all) / (count as int) } else { 0 }) as usize,
        total_individual_proofs: count as usize,
        total_views: totals.len() as usize,
        total_size: sum_totals(totals) as usize,
        average_size_per_view: (if totals.len() > 0 { sum_totals(totals) / (totals.len() as int) } else { 0 }) as usize,
    }
}

/// The statistics can be computed without overflow: every proposal's total, the sum of
/// all proofs and the sum of the views' totals fit in a `usize`.
pub open spec fn statistics_defined(entries: Seq<ViewProofSizes>) -> bool {
    &&& forall|i: int| 0 <= i < entries.len() ==> seq_sum(usizes((#[trigger] entries[i]).proof_sizes@)) <= usize::MAX
    &&& seq_sum(usizes(all_sizes(entries))) <= usize::MAX
    &&& all_sizes(entries).len() <= usize::MAX
    &&& sum_totals(view_totals(entries)) <= usize::MAX
}

proof fn lemma_sum_concat(a: Seq<int>, b: Seq<int>)
    ensures
        seq_sum(a + b) == seq_sum(a) + seq_sum(b),
    decreases b.len(),
{
    if b.len() == 0 {
        assert(a + b =~= a);
    } else {
        lemma_sum_concat(a, b.drop_last());
        assert((a + b).drop_last() =~= a + b.drop_last());
    }
}

proof fn lemma_sum_nonneg(v: Seq<usize>)
    ensures
        seq_sum(usizes(v)) >= 0,
{
    lemma_seq_sum_prefix(usizes(v), 0);
}

proof fn lemma_usizes_concat(a: Seq<usize>, b: Seq<usize>)
    ensures
        usizes(a + b) =~= usizes(a) + usizes(b),
{
}

proof fn lemma_all_sizes_concat(a: Seq<ViewProofSizes>, b: Seq<ViewProofSizes>)
    ensures
        all_sizes(a + b) =~= all_sizes(a) + all_sizes(b),
    decreases b.len(),
{
    if b.len() == 0 {
        assert(a + b =~= a);
    } else {
        lemma_all_sizes_concat(a, b.drop_last());
        assert((a + b).drop_last() =~= a + b.drop_last());
    }
}

/// A prefix of the concatenated sizes sums to no more than the whole, and is no longer.
proof fn lemma_sizes_prefix_bound(entries: Seq<ViewProofSizes>, i: int, j: int)
    requires
        0 <= i < entries.len(),
        0 <= j <= entries[i].proof_sizes@.len(),
    ensures
        seq_sum(usizes(all_sizes(entries.take(i)) + entries[i].proof_sizes@.take(j))) <= seq_sum(usizes(all_sizes(entries))),
        (all_sizes(entries.take(i)) + entries[i].proof_sizes@.take(j)).len() <= all_sizes(entries).len(),
{
    let sizes = entries[i].proof_sizes@;
    let pre = all_sizes(entries.take(i)) + sizes.take(j);
    let post = sizes.skip(j) + all_sizes(entries.skip(i + 1));
    assert(entries =~= entries.take(i) + (seq![entries[i]] + entries.skip(i + 1)));
    lemma_all_sizes_concat(entries.take(i), seq![entries[i]] + entries.skip(i + 1));
    lemma_all_sizes_concat(seq![entries[i]], entries.skip(i + 1));
    assert(all_sizes(seq![entries[i]]) =~= sizes) by {
        let one = seq![entries[i]];
        assert(one.drop_last() =~= Seq::<ViewProofSizes>::empty());
        assert(all_sizes(one.drop_last()) == Seq::<usize>::empty());
        assert(all_sizes(one) == all_sizes(one.drop_last()) + one.last().proof_sizes@);
    }
    assert(all_sizes(entries) =~= pre + post);
    lemma_usizes_concat(pre, post);
    lemma_sum_concat(usizes(pre), usizes(post));
    lemma_sum_nonneg(post);
}

/// The per-view totals listed so far name each view once.
pub open spec fn unique_views(t: Seq<(u64, int)>) -> bool {
    forall|a: int, b: int| 0 <= a < t.len() && 0 <= b < t.len() && a != b ==> t[a].0 != t[b].0
}

proof fn lemma_view_totals_unique(entries: Seq<ViewProofSizes>)
    ensures
        unique_views(view_totals(entries)),
        forall|k: int| 0 <= k < view_totals(entries).len() ==> (#[trigger] view_totals(entries)[k]).1 >= 0,
    decreases entries.len(),
{
    if entries.len() > 0 {
        lemma_view_totals_unique(entries.drop_last());
        lemma_sum_nonneg(entries.last().proof_sizes@);
    }
}

proof fn lemma_sum_totals_prefix(t: Seq<(u64, int)>, i: int)
    requires
        0 <= i <= t.len(),
        forall|k: int| 0 <= k < t.len() ==> (#[trigger] t[k]).1 >= 0,
    ensures
        0 <= sum_totals(t.take(i)) <= sum_totals(t),
    decreases t.len(),
{
    if i == t.len() {
        assert(t.take(i) =~= t);
        if t.len() > 0 {
            lemma_sum_totals_prefix(t.drop_last(), t.len() - 1);
            assert(t.drop_last().take(t.len() - 1) =~= t.drop_last());
        }
    } else {
        lemma_sum_totals_prefix(t.drop_last(), i);
        assert(t.drop_last().take(i) =~= t.take(i));
    }
}

/// The per-view totals as plain integers.
pub open spec fn totals_view(v: Seq<(u64, usize)>) -> Seq<(u64, int)> {
    v.map_values(|p: (u64, usize)| (p.0, p.1 as int))
}

/// Statistics over the stored proofs, given proposal by proposal in the order the
/// store is walked (see `statistics_of`).
pub fn defrida_proof_calculation(proof_store: &Vec<ViewProofSizes>) -> (r: ProofStatistics)
    requires
        statistics_defined(proof_store@),
    ensures
        r == statistics_of(proof_store@),
        r.total_individual_proofs == all_sizes(proof_store@).len(),
        all_sizes(proof_store@).len() > 0 ==> r.mean_proof_size == seq_sum(usizes(all_sizes(proof_store@)))
            / (all_sizes(proof_store@).len() as int),
        all_sizes(proof_store@).len() == 0 ==> r.mean_proof_size == 0,
        r.total_views == store_views(proof_store@).to_set().len(),
        r.total_views > 0 ==> r.average_size_per_view == r.total_size / r.total_views,
        r.total_views == 0 ==> r.average_size_per_view == 0 && r.total_size == 0,
        store_views(proof_store@).no_duplicates() ==> r.total_size == seq_sum(usizes(all_sizes(proof_store@))),
        all_sizes(proof_store@).len() > 0 && seq_min(usizes(all_sizes(proof_store@))) != usize::MAX ==> {
            &&& r.min_proof_size == seq_min(usizes(all_sizes(proof_store@)))
            &&& r.max_proof_size == seq_max(usizes(all_sizes(proof_store@)))
        },
{
    let ghost entries = proof_store@;
    let mut view_sizes: Vec<(u64, usize)> = Vec::new();
    let mut min_proof_size: usize = usize::MAX;
    let mut max_proof_size: usize = 0;
    let mut total_individual_proofs: usize = 0;
    let mut sum_individual_proof_sizes: usize = 0;
    let mut i: usize = 0;
    while i < proof_store.len()
        invariant
            entries == proof_store@,
            statistics_defined(entries),
            i <= entries.len(),
            totals_view(view_sizes@) == view_totals(entries.take(i as int)),
            total_individual_proofs == all_sizes(entries.take(i as int)).len(),
            sum_individual_proof_sizes == seq_sum(usizes(all_sizes(entries.take(i as int)))),
            min_proof_size == (if total_individual_proofs == 0 { usize::MAX as int } else { seq_min(usizes(all_sizes(entries.take(i as int)))) }),
            max_proof_size == (if total_individual_proofs == 0 { 0 } else { seq_max(usizes(all_sizes(entries.take(i as int)))) }),
        decreases entries.len() - i,
    {
        let entry = &proof_store[i];
        let ghost before = all_sizes(entries.take(i as int));
        let mut total_size: usize = 0;
        let mut j: usize = 0;
        while j < entry.proof_sizes.len()
            invariant
                entries == proof_store@,
                statistics_defined(entries),
                i < entries.len(),
                *entry == entries[i as int],
                before == all_sizes(entries.take(i as int)),
                j <= entry.proof_sizes@.len(),
                total_size == seq_sum(usizes(entry.proof_sizes@.take(j as int))),
                total_individual_proofs == (before + entry.proof_sizes@.take(j as int)).len(),
                sum_individual_proof_sizes == seq_sum(usizes(before + entry.proof_sizes@.take(j as int))),
                min_proof_size == (if total_individual_proofs == 0 { usize::MAX as int } else { seq_min(usizes(before + entry.proof_sizes@.take(j as int))) }),
                max_proof_size == (if total_individual_proofs == 0 { 0 } else { seq_max(usizes(before + entry.proof_sizes@.take(j as int))) }),
            decreases entry.proof_sizes@.len() - j,
        {
            let proof_size = entry.proof_sizes[j];
            let ghost cur = before + entry.proof_sizes@.take(j as int);
            let ghost next = before + entry.proof_sizes@.take(j + 1);
            proof {
                assert(next =~= cur.push(proof_size));
                assert(usizes(next).drop_last() =~= usizes(cur));
                lemma_sizes_prefix_bound(entries, i as int, j + 1);
                lemma_seq_sum_prefix(usizes(entry.proof_sizes@), j + 1);
                assert(usizes(entry.proof_sizes@).take(j + 1) =~= usizes(entry.proof_sizes@.take(j + 1)));
                assert(usizes(entry.proof_sizes@.take(j + 1)).drop_last() =~= usizes(entry.proof_sizes@.take(j as int)));
            }
            if proof_size < min_proof_size {
                min_proof_size = proof_size;
            }
            if proof_size > max_proof_size {
                max_proof_size = proof_size;
            }
            sum_individual_proof_sizes = sum_individual_proof_sizes + proof_size;
            total_individual_proofs = total_individual_proofs + 1;
            total_size = total_size + proof_size;
            j += 1;
        }
        proof {
            assert(entry.proof_sizes@.take(j as int) =~= entry.proof_sizes@);
            assert(entries.take(i + 1).drop_last() =~= entries.take(i as int));
            assert(all_sizes(entries.take(i + 1)) == before + entry.proof_sizes@);
            lemma_view_totals_unique(entries.take(i as int));
        }
        let ghost prev = view_totals(entries.take(i as int));
        let mut k: usize = 0;
        while k < view_sizes.len() && view_sizes[k].0 != entry.view
            invariant
                k <= view_sizes@.len(),
                totals_view(view_sizes@) == prev,
                forall|m: int| 0 <= m < k ==> view_sizes@[m].0 != entry.view,
            decreases view_sizes@.len() - k,
        {
            k += 1;
        }
        if k < view_sizes.len() {
            proof {
                assert(prev[k as int].0 == entry.view);
                let c = choose|c: int| 0 <= c < prev.len() && (#[trigger] prev[c]).0 == entry.view;
                assert(c == k);
            }
            view_sizes.set(k, (entry.view, total_size));
            assert(totals_view(view_sizes@) =~= prev.update(k as int, (entry.view, total_size as int)));
        } else {
            proof {
                assert forall|c: int| 0 <= c < prev.len() implies (#[trigger] prev[c]).0 != entry.view by {
                    assert(view_sizes@[c].0 != entry.view);
                }
            }
            view_sizes.push((entry.view, total_size));
            assert(totals_view(view_sizes@) =~= prev.push((entry.view, total_size as int)));
        }
        i += 1;
    }
    proof {
        assert(entries.take(entries.len() as int) =~= entries);
        lemma_view_totals_unique(entries);
    }
    let mean_proof_size = if total_individual_proofs > 0 {
        sum_individual_proof_sizes / total_individual_proofs
    } else {
        0
    };
    let total_views = view_sizes.len();
    let ghost totals = view_totals(entries);
    let mut total_size: usize = 0;
    let mut k: usize = 0;
    while k < view_sizes.len()
        invariant
            totals == view_totals(entries),
            totals_view(view_sizes@) == totals,
            forall|m: int| 0 <= m < totals.len() ==> (#[trigger] totals[m]).1 >= 0,
            sum_totals(totals) <= usize::MAX,
            k <= view_sizes@.len(),
            total_size == sum_totals(totals.take(k as int)),
        decreases view_sizes@.len() - k,
    {
        proof {
            lemma_sum_totals_prefix(totals, k + 1);
            assert(totals.take(k + 1).drop_last() =~= totals.take(k as int));
        }
        total_size = total_size + view_sizes[k].1;
        k += 1;
    }
    assert(totals.take(view_sizes@.len() as int) =~= totals);
    let average_size_per_view = if total_views > 0 {
        total_size / total_views
    } else {
        0
    };
    let (min_proof_size, max_proof_size) = if min_proof_size != usize::MAX {
        (min_proof_size, max_proof_size)
    } else {
        (0, 0)
    };
    proof {
        lemma_total_views_counts_distinct(proof_store@);
        if store_views(proof_store@).no_duplicates() {
            lemma_distinct_views_total_all(proof_store@);
        }
    }
    ProofStatistics {
        min_proof_size,
        max_proof_size,
        mean_proof_size,
        total_individual_proofs,
        total_views,
        total_size,
        average_size_per_view,
    }
}

/// The per-proof statistics (count, smallest, largest and mean proof size) depend
/// only on the sizes of all the proofs, not on how they are grouped into views: the
/// mean is the sum of all proof sizes divided by the number of proofs.
pub proof fn lemma_proof_statistics_ignore_views(e1: Seq<ViewProofSizes>, e2: Seq<ViewProofSizes>)
    requires
        all_sizes(e1) == all_sizes(e2),
    ensures
        statistics_of(e1).total_individual_proofs == statistics_of(e2).total_individual_proofs,
        statistics_of(e1).min_proof_size == statistics_of(e2).min_proof_size,
        statistics_of(e1).max_proof_size == statistics_of(e2).max_proof_size,
        statistics_of(e1).mean_proof_size == statistics_of(e2).mean_proof_size,
        all_sizes(e1).len() > 0 ==> statistics_of(e1).mean_proof_size as int == (seq_sum(usizes(all_sizes(e1)))
            / (all_sizes(e1).len() as int)) as usize,
{
}

/// The views of the stored proposals, in order (with repetitions).
pub open spec fn store_views(entries: Seq<ViewProofSizes>) -> Seq<u64> {
    entries.map_values(|e: ViewProofSizes| e.view)
}

proof fn lemma_view_totals_views(entries: Seq<ViewProofSizes>)
    ensures
        forall|v: u64| (exists|k: int| 0 <= k < view_totals(entries).len() && (#[trigger] view_totals(entries)[k]).0 == v)
            <==> store_views(entries).contains(v),
        view_totals(entries).len() <= entries.len(),
    decreases entries.len(),
{
    if entries.len() > 0 {
        let prev_e = entries.drop_last();
        lemma_view_totals_views(prev_e);
        let prev = view_totals(prev_e);
        let e = entries.last();
        let vt = view_totals(entries);
        assert(store_views(entries) =~= store_views(prev_e).push(e.view));
        assert forall|v: u64| (exists|k: int| 0 <= k < vt.len() && (#[trigger] vt[k]).0 == v)
            <==> store_views(entries).contains(v) by {
            if store_views(entries).contains(v) {
                if v == e.view {
                    if exists|k: int| 0 <= k < prev.len() && (#[trigger] prev[k]).0 == e.view {
                        let k = choose|k: int| 0 <= k < prev.len() && (#[trigger] prev[k]).0 == e.view;
                        assert(vt[k].0 == v);
                    } else {
                        assert(vt[prev.len() as int].0 == v);
                    }
                } else {
                    let j = choose|j: int| 0 <= j < store_views(entries).len() && store_views(entries)[j] == v;
                    assert(j < store_views(prev_e).len());
                    assert(store_views(prev_e)[j] == v);
                    assert(store_views(prev_e).contains(v));
                    let k = choose|k: int| 0 <= k < prev.len() && (#[trigger] prev[k]).0 == v;
                    assert(vt[k].0 == v);
                }
            }
            if exists|k: int| 0 <= k < vt.len() && (#[trigger] vt[k]).0 == v {
                let k = choose|k: int| 0 <= k < vt.len() && (#[trigger] vt[k]).0 == v;
                if v == e.view {
                    assert(store_views(entries)[entries.len() - 1] == v);
                } else {
                    assert(k < prev.len());
                    assert(prev[k].0 == v);
                    assert(store_views(prev_e).contains(v));
                    let j = choose|j: int| 0 <= j < store_views(prev_e).len() && store_views(prev_e)[j] == v;
                    assert(store_views(entries)[j] == v);
                }
            }
        }
    }
}

/// The number of views the statistics count is the number of distinct views among
/// the stored proposals.
pub proof fn lemma_total_views_counts_distinct(entries: Seq<ViewProofSizes>)
    requires
        entries.len() <= usize::MAX,
    ensures
        statistics_of(entries).total_views as int == store_views(entries).to_set().len(),
{
    lemma_view_totals_views(entries);
    lemma_view_totals_unique(entries);
    let vt = view_totals(entries);
    let keys = vt.map_values(|p: (u64, int)| p.0);
    assert forall|a: int, b: int| 0 <= a < b < keys.len() implies keys[a] != keys[b] by {
        assert(vt[a].0 != vt[b].0);
    }
    assert(keys.no_duplicates());
    keys.unique_seq_to_set();
    assert forall|v: u64| keys.to_set().contains(v) <==> store_views(entries).to_set().contains(v) by {
        if keys.contains(v) {
            let k = choose|k: int| 0 <= k < keys.len() && keys[k] == v;
            assert(vt[k].0 == v);
        }
        if store_views(entries).contains(v) {
            let k = choose|k: int| 0 <= k < vt.len() && (#[trigger] vt[k]).0 == v;
            assert(keys[k] == v);
        }
    }
    assert(keys.to_set() =~= store_views(entries).to_set());
}

/// When every stored proposal has a view of its own, the total size over the views
/// is the sum of the sizes of all the proofs.
pub proof fn lemma_distinct_views_total_all(entries: Seq<ViewProofSizes>)
    requires
        store_views(entries).no_duplicates(),
    ensures
        sum_totals(view_totals(entries)) == seq_sum(usizes(all_sizes(entries))),
    decreases entries.len(),
{
    if entries.len() > 0 {
        let prev_e = entries.drop_last();
        let e = entries.last();
        assert(store_views(entries) =~= store_views(prev_e).push(e.view));
        assert(store_views(prev_e).no_duplicates()) by {
            assert forall|a: int, b: int| 0 <= a < b < store_views(prev_e).len()
                implies store_views(prev_e)[a] != store_views(prev_e)[b] by {
                assert(store_views(entries)[a] == store_views(prev_e)[a]);
                assert(store_views(entries)[b] == store_views(prev_e)[b]);
            }
        }
        lemma_distinct_views_total_all(prev_e);
        lemma_view_totals_views(prev_e);
        let prev = view_totals(prev_e);
        if exists|k: int| 0 <= k < prev.len() && (#[trigger] prev[k]).0 == e.view {
            assert(store_views(prev_e).contains(e.view));
            let j = choose|j: int| 0 <= j < store_views(prev_e).len() && store_views(prev_e)[j] == e.view;
            assert(store_views(entries)[j] == store_views(entries)[entries.len() - 1]);
            assert(false);
        }
        let vt = view_totals(entries);
        assert(vt == prev.push((e.view, seq_sum(usizes(e.proof_sizes@)))));
        assert(vt.drop_last() =~= prev);
        lemma_usizes_concat(all_sizes(prev_e), e.proof_sizes@);
        lemma_sum_concat(usizes(all_sizes(prev_e)), usizes(e.proof_sizes@));
    }
}

} // verus!
