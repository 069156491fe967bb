//! The measurements recorded for one consensus view, and the summaries that
//! are read off them.
use vstd::prelude::*;

use crate::stats::{u64s, seq_min, seq_max, seq_sum, min_u64, max_u64, sum_u64};

verus! {

/// Timestamps (milliseconds) of each consensus event seen in one view, and the
/// sizes of the proposals sent and received in it.
#[derive(Debug, Clone)]
pub struct BenchmarkMetrics {
    pub start_view_time: Vec<u64>,
    pub propose_time: Vec<u64>,
    pub receive_proposal_time: Vec<u64>,
    pub phase_vote_time: Vec<u64>,
    pub receive_phase_vote_time: Vec<u64>,
    pub collect_pc_time: Vec<u64>,
    pub proposal_proof_size: Vec<usize>,
    pub receive_proposal_proof_size: Vec<usize>,
}

impl BenchmarkMetrics {
    /// True when some consensus phase of the view has no timestamp at all.
    pub open spec fn spec_any_empty(&self) -> bool {
        ||| self.start_view_time@.len() == 0
        ||| self.propose_time@.len() == 0
        ||| self.receive_proposal_time@.len() == 0
        ||| self.phase_vote_time@.len() == 0
        ||| self.receive_phase_vote_time@.len() == 0
        ||| self.collect_pc_time@.len() == 0
    }

    /// Metrics of a view in which nothing was recorded yet.
    pub fn new() -> (r: Self)
        ensures
            r.start_view_time@ == Seq::<u64>::empty(),
            r.propose_time@ == Seq::<u64>::empty(),
            r.receive_proposal_time@ == Seq::<u64>::empty(),
            r.phase_vote_time@ == Seq::<u64>::empty(),
            r.receive_phase_vote_time@ == Seq::<u64>::empty(),
            r.collect_pc_time@ == Seq::<u64>::empty(),
            r.proposal_proof_size@ == Seq::<usize>::empty(),
            r.receive_proposal_proof_size@ == Seq::<usize>::empty(),
    {
        BenchmarkMetrics {
            start_view_time: Vec::new(),
            propose_time: Vec::new(),
            receive_proposal_time: Vec::new(),
            phase_vote_time: Vec::new(),
            receive_phase_vote_time: Vec::new(),
            collect_pc_time: Vec::new(),
            proposal_proof_size: Vec::new(),
            receive_proposal_proof_size: Vec::new(),
        }
    }

    /// Whether any of the six consensus phases has no timestamp (proof sizes are not considered).
    pub fn if_any_empty(&self) -> (r: bool)
        ensures
            r == self.spec_any_empty(),
    {
        self.start_view_time.len() == 0 || self.propose_time.len() == 0
            || self.receive_proposal_time.len() == 0 || self.phase_vote_time.len() == 0
            || self.receive_phase_vote_time.len() == 0 || self.collect_pc_time.len() == 0
    }
}

/// A consensus event whose time is recorded.
#[derive(Debug, Clone, Copy, PartialEq, Eq)]
pub enum ConsensusEvent {
    StartView,
    Propose,
    ReceiveProposal,
    PhaseVote,
    ReceivePhaseVote,
    CollectPc,
}

impl BenchmarkMetrics {
    /// The timestamps recorded for `event`.
    pub open spec fn times_of(&self, event: ConsensusEvent) -> Seq<u64> {
        match event {
            ConsensusEvent::StartView => self.start_view_time@,
            ConsensusEvent::Propose => self.propose_time@,
            ConsensusEvent::ReceiveProposal => self.receive_proposal_time@,
            ConsensusEvent::PhaseVote => self.phase_vote_time@,
            ConsensusEvent::ReceivePhaseVote => self.receive_phase_vote_time@,
            ConsensusEvent::CollectPc => self.collect_pc_time@,
        }
    }

    /// Records that `event` was seen at `timestamp`: the timestamp is appended to
    /// that event's list; the other lists are unchanged.
    pub fn record_time(&mut self, event: ConsensusEvent, timestamp: u64)
        ensures
            final(self).start_view_time@ == if event == ConsensusEvent::StartView {
                old(self).start_view_time@.push(timestamp)
            } else {
                old(self).start_view_time@
            },
            final(self).propose_time@ == if event == ConsensusEvent::Propose {
                old(self).propose_time@.push(timestamp)
            } else {
                old(self).propose_time@
            },
            final(self).receive_proposal_time@ == if event == ConsensusEvent::ReceiveProposal {
                old(self).receive_proposal_time@.push(timestamp)
            } else {
                old(self).receive_proposal_time@
            },
            final(self).phase_vote_time@ == if event == ConsensusEvent::PhaseVote {
                old(self).phase_vote_time@.push(timestamp)
            } else {
                old(self).phase_vote_time@
            },
            final(self).receive_phase_vote_time@ == if event == ConsensusEvent::ReceivePhaseVote {
                old(self).receive_phase_vote_time@.push(timestamp)
            } else {
                old(self).receive_phase_vote_time@
            },
            final(self).collect_pc_time@ == if event == ConsensusEvent::CollectPc {
                old(self).collect_pc_time@.push(timestamp)
            } else {
                old(self).collect_pc_time@
            },
            final(self).times_of(event) == old(self).times_of(event).push(timestamp),
            forall|e: ConsensusEvent| e != event ==> final(self).times_of(e) == old(self).times_of(e),
            final(self).proposal_proof_size@ == old(self).proposal_proof_size@,
            final(self).receive_proposal_proof_size@ == old(self).receive_proposal_proof_size@,
    {
        match event {
            ConsensusEvent::StartView => self.start_view_time.push(timestamp),
            ConsensusEvent::Propose => self.propose_time.push(timestamp),
            ConsensusEvent::ReceiveProposal => self.receive_proposal_time.push(timestamp),
            ConsensusEvent::PhaseVote => self.phase_vote_time.push(timestamp),
            ConsensusEvent::ReceivePhaseVote => self.receive_phase_vote_time.push(timestamp),
            ConsensusEvent::CollectPc => self.collect_pc_time.push(timestamp),
        }
    }

    /// Records the size of a proposal: one this node sent (`received == false`) or
    /// one it received; the timestamps are unchanged.
    pub fn record_proposal_size(&mut self, received: bool, size: usize)
        ensures
            forall|e: ConsensusEvent| final(self).times_of(e) == old(self).times_of(e),
            received ==> final(self).receive_proposal_proof_size@ == old(self).receive_proposal_proof_size@.push(size)
                && final(self).proposal_proof_size@ == old(self).proposal_proof_size@,
            !received ==> final(self).proposal_proof_size@ == old(self).proposal_proof_size@.push(size)
                && final(self).receive_proposal_proof_size@ == old(self).receive_proposal_proof_size@,
    {
        if received {
            self.receive_proposal_proof_size.push(size);
        } else {
            self.proposal_proof_size.push(size);
        }
    }
}

/// The timestamps of `event` in each view where it was seen, in the order of the
/// entries; views without such a timestamp are left out.
pub open spec fn event_timestamps(entries: Seq<(u64, BenchmarkMetrics)>, event: ConsensusEvent) -> Seq<(u64, Seq<u64>)>
    decreases entries.len(),
{
    if entries.len() == 0 {
        Seq::empty()
    } else {
        let prev = event_timestamps(entries.drop_last(), event);
        let (view, metrics) = entries.last();
        if metrics.times_of(event).len() == 0 {
            prev
        } else {
            prev.push((view, metrics.times_of(event)))
        }
    }
}

/// The contents of a list of `(view, timestamps)` pairs.
pub open spec fn timestamps_view(v: Seq<(u64, Vec<u64>)>) -> Seq<(u64, Seq<u64>)> {
    v.map_values(|p: (u64, Vec<u64>)| (p.0, p.1@))
}

fn copy_times(v: &Vec<u64>) -> (r: Vec<u64>)
    ensures
        r@ == v@,
{
    let mut out: Vec<u64> = Vec::new();
    let mut i: usize = 0;
    while i < v.len()
        invariant
            i <= v@.len(),
            out@ == v@.take(i as int),
        decreases v.len() - i,
    {
        out.push(v[i]);
        i += 1;
        assert(out@ =~= v@.take(i as int));
    }
    assert(v@.take(v@.len() as int) =~= v@);
    out
}

impl BenchmarkMetrics {
    /// The timestamps recorded for `event`.
    pub fn times(&self, event: ConsensusEvent) -> (r: &Vec<u64>)
        ensures
            r@ == self.times_of(event),
            r@ == match event {
                ConsensusEvent::StartView => self.start_view_time@,
                ConsensusEvent::Propose => self.propose_time@,
                ConsensusEvent::ReceiveProposal => self.receive_proposal_time@,
                ConsensusEvent::PhaseVote => self.phase_vote_time@,
                ConsensusEvent::ReceivePhaseVote => self.receive_phase_vote_time@,
                ConsensusEvent::CollectPc => self.collect_pc_time@,
            },
    {
        match event {
            ConsensusEvent::StartView => &self.start_view_time,
            ConsensusEvent::Propose => &self.propose_time,
            ConsensusEvent::ReceiveProposal => &self.receive_proposal_time,
            ConsensusEvent::PhaseVote => &self.phase_vote_time,
            ConsensusEvent::ReceivePhaseVote => &self.receive_phase_vote_time,
            ConsensusEvent::CollectPc => &self.collect_pc_time,
        }
    }
}

/// The timestamps of `event` in each view where it was seen (see `event_timestamps`).
pub fn timestamps_for_event(entries: &Vec<(u64, BenchmarkMetrics)>, event: ConsensusEvent) -> (r: Vec<(u64, Vec<u64>)>)
    ensures
        timestamps_view(r@) == event_timestamps(entries@, event),
{
    let mut out: Vec<(u64, Vec<u64>)> = Vec::new();
    let mut i: usize = 0;
    while i < entries.len()
        invariant
            i <= entries@.len(),
            timestamps_view(out@) == event_timestamps(entries@.take(i as int), event),
        decreases entries.len() - i,
    {
        let (view, metrics) = &entries[i];
        proof {
            assert(entries@.take(i + 1).drop_last() =~= entries@.take(i as int));
            assert(entries@.take(i + 1).last() == entries@[i as int]);
        }
        let times = metrics.times(event);
        if times.len() > 0 {
            let copy = copy_times(times);
            let ghost before = out@;
            out.push((*view, copy));
            assert(timestamps_view(out@) =~= timestamps_view(before).push((*view, copy@)));
        }
        i += 1;
    }
    assert(entries@.take(entries@.len() as int) =~= entries@);
    out
}

/// Event counts of one view, with the timestamps of four of the phases.
#[derive(Debug)]
pub struct ViewTimingStats {
    pub view: u64,
    pub start_view_count: usize,
    pub propose_count: usize,
    pub receive_proposal_count: usize,
    pub phase_vote_count: usize,
    pub receive_phase_vote_count: usize,
    pub collect_pc_count: usize,
    pub propose_timestamps: Vec<u64>,
    pub receive_proposal_timestamps: Vec<u64>,
    pub phase_vote_timestamps: Vec<u64>,
    pub collect_pc_timestamps: Vec<u64>,
}

/// Earliest and latest timestamp of each event type of one view (`None` when the
/// event was not seen).
#[derive(Debug)]
pub struct ViewTimingBounds {
    pub view: u64,
    pub start_view_bounds: Option<(u64, u64)>,
    pub propose_bounds: Option<(u64, u64)>,
    pub receive_proposal_bounds: Option<(u64, u64)>,
    pub phase_vote_bounds: Option<(u64, u64)>,
    pub receive_phase_vote_bounds: Option<(u64, u64)>,
    pub collect_pc_bounds: Option<(u64, u64)>,
}

/// Statistics of the timestamps of one event type over all views.
#[derive(Debug)]
pub struct LatencyStats {
    pub event_type: String,
    pub count: usize,
    pub min: u64,
    pub max: u64,
    pub mean: u64,
    pub median: u64,
    pub all_timestamps: Vec<u64>,
}

impl ViewTimingStats {
    /// The counts and timestamps recorded for `view`.
    pub fn from_metrics(view: u64, view_ts: BenchmarkMetrics) -> (r: Self)
        ensures
            r.view == view,
            r.start_view_count == view_ts.start_view_time@.len(),
            r.propose_count == view_ts.propose_time@.len(),
            r.receive_proposal_count == view_ts.receive_proposal_time@.len(),
            r.phase_vote_count == view_ts.phase_vote_time@.len(),
            r.receive_phase_vote_count == view_ts.receive_phase_vote_time@.len(),
            r.collect_pc_count == view_ts.collect_pc_time@.len(),
            r.propose_timestamps@ == view_ts.propose_time@,
            r.receive_proposal_timestamps@ == view_ts.receive_proposal_time@,
            r.phase_vote_timestamps@ == view_ts.phase_vote_time@,
            r.collect_pc_timestamps@ == view_ts.collect_pc_time@,
    {
        ViewTimingStats {
            view,
            start_view_count: view_ts.start_view_time.len(),
            propose_count: view_ts.propose_time.len(),
            receive_proposal_count: view_ts.receive_proposal_time.len(),
            phase_vote_count: view_ts.phase_vote_time.len(),
            receive_phase_vote_count: view_ts.receive_phase_vote_time.len(),
            collect_pc_count: view_ts.collect_pc_time.len(),
            propose_timestamps: view_ts.propose_time,
            receive_proposal_timestamps: view_ts.receive_proposal_time,
            phase_vote_timestamps: view_ts.phase_vote_time,
            collect_pc_timestamps: view_ts.collect_pc_time,
        }
    }
}

/// Earliest and latest of the timestamps, `None` when there are none.
pub open spec fn bounds_of(ts: Seq<u64>) -> Option<(u64, u64)> {
    if ts.len() == 0 {
        None
    } else {
        Some((seq_min(u64s(ts)) as u64, seq_max(u64s(ts)) as u64))
    }
}

/// Earliest and latest timestamp, `None` when there are none.
fn bounds(ts: &Vec<u64>) -> (r: Option<(u64, u64)>)
    ensures
        r == bounds_of(ts@),
{
    if ts.len() != 0 {
        Some((min_u64(ts.as_slice()), max_u64(ts.as_slice())))
    } else {
        None
    }
}

impl ViewTimingBounds {
    /// Earliest and latest timestamp of each event type recorded for `view`.
    pub fn from_metrics(view: u64, view_ts: &BenchmarkMetrics) -> (r: Self)
        ensures
            r.view == view,
            r.start_view_bounds == bounds_of(view_ts.start_view_time@),
            r.propose_bounds == bounds_of(view_ts.propose_time@),
            r.receive_proposal_bounds == bounds_of(view_ts.receive_proposal_time@),
            r.phase_vote_bounds == bounds_of(view_ts.phase_vote_time@),
            r.receive_phase_vote_bounds == bounds_of(view_ts.receive_phase_vote_time@),
            r.collect_pc_bounds == bounds_of(view_ts.collect_pc_time@),
    {
        ViewTimingBounds {
            view,
            start_view_bounds: bounds(&view_ts.start_view_time),
            propose_bounds: bounds(&view_ts.propose_time),
            receive_proposal_bounds: bounds(&view_ts.receive_proposal_time),
            phase_vote_bounds: bounds(&view_ts.phase_vote_time),
            receive_phase_vote_bounds: bounds(&view_ts.receive_phase_vote_time),
            collect_pc_bounds: bounds(&view_ts.collect_pc_time),
        }
    }
}

/// Ascending order.
pub open spec fn ascending_u64(v: Seq<u64>) -> bool {
    forall|i: int, j: int| 0 <= i < j < v.len() ==> v[i] <= v[j]
}

/// Sorts the timestamps in ascending order.
#[verifier::external_body]
fn sort_timestamps(v: &mut Vec<u64>)
    ensures
        final(v)@.to_multiset() == old(v)@.to_multiset(),
        ascending_u64(final(v)@),
{
    v.sort();
}

/// The lists one after the other.
pub open spec fn concat_lists(lists: Seq<Vec<u64>>) -> Seq<u64>
    decreases lists.len(),
{
    if lists.len() == 0 {
        Seq::empty()
    } else {
        concat_lists(lists.drop_last()) + lists.last()@
    }
}

/// Median of ascending timestamps: the middle one, or the floor of the average of
/// the two middle ones for an even count.
pub open spec fn median_of(sorted: Seq<u64>) -> int {
    let c = sorted.len() as int;
    if c % 2 == 0 {
        (sorted[c / 2 - 1] + sorted[c / 2]) / 2
    } else {
        sorted[c / 2] as int
    }
}

/// The statistics can be computed: the timestamps add up without overflow, and so
/// do the two middle ones once sorted (for an even count).
pub open spec fn latency_defined(all: Seq<u64>) -> bool {
    &&& seq_sum(u64s(all)) <= u64::MAX
    &&& forall|sorted: Seq<u64>|
        #![trigger sorted.to_multiset(), ascending_u64(sorted)]
        sorted.to_multiset() == all.to_multiset() && ascending_u64(sorted) && sorted.len() % 2 == 0
            && sorted.len() >= 2 ==> sorted[sorted.len() / 2 - 1] + sorted[(sorted.len() / 2) as int] <= u64::MAX
}

impl LatencyStats {
    /// Statistics of the timestamps of one event type, given as one list per view in
    /// which the event was seen: `None` when there is no list; otherwise the
    /// timestamps in ascending order, their count, smallest, largest, floor mean and
    /// median.
    pub fn from_timestamps(event_type: String, timestamp_lists: Vec<Vec<u64>>) -> (r: Option<Self>)
        requires
            timestamp_lists@.len() == 0 || concat_lists(timestamp_lists@).len() > 0,
            latency_defined(concat_lists(timestamp_lists@)),
        ensures
            timestamp_lists@.len() == 0 <==> r is None,
            r matches Some(stats) ==> {
                let sorted = stats.all_timestamps@;
                &&& sorted.to_multiset() == concat_lists(timestamp_lists@).to_multiset()
                &&& ascending_u64(sorted)
                &&& stats.event_type@ == event_type@
                &&& stats.count == sorted.len()
                &&& stats.min == sorted[0]
                &&& stats.max == sorted[sorted.len() - 1]
                &&& stats.median == median_of(sorted)
                &&& sorted.len() % 2 == 1 ==> stats.median == sorted[sorted.len() as int / 2]
                &&& sorted.len() % 2 == 0 ==> 2 * stats.median <= sorted[sorted.len() / 2 - 1] + sorted[sorted.len() as int / 2] < 2 * stats.median + 2
                &&& sorted[(sorted.len() - 1) / 2] <= stats.median <= sorted[sorted.len() as int / 2]
                &&& stats.mean == seq_sum(u64s(concat_lists(timestamp_lists@))) / (sorted.len() as int)
            },
    {
        if timestamp_lists.len() == 0 {
            return None;
        }
        let ghost all = concat_lists(timestamp_lists@);
        let mut all_times: Vec<u64> = Vec::new();
        let mut i: usize = 0;
        while i < timestamp_lists.len()
            invariant
                i <= timestamp_lists@.len(),
                all_times@ == concat_lists(timestamp_lists@.take(i as int)),
            decreases timestamp_lists.len() - i,
        {
            let ghost before = all_times@;
            let list = &timestamp_lists[i];
            let mut j: usize = 0;
            while j < list.len()
                invariant
                    j <= list@.len(),
                    all_times@ == before + list@.take(j as int),
                decreases list.len() - j,
            {
                all_times.push(list[j]);
                j += 1;
                assert(all_times@ =~= before + list@.take(j as int));
            }
            assert(list@.take(list@.len() as int) =~= list@);
            assert(timestamp_lists@.take(i + 1).drop_last() =~= timestamp_lists@.take(i as int));
            i += 1;
        }
        assert(timestamp_lists@.take(timestamp_lists@.len() as int) =~= timestamp_lists@);
        let sum = sum_u64(all_times.as_slice());
        sort_timestamps(&mut all_times);
        proof {
            vstd::seq_lib::to_multiset_len(all_times@);
            vstd::seq_lib::to_multiset_len(all);
        }
        let count = all_times.len();
        let min = all_times[0];
        let max = all_times[count - 1];
        let median = if count % 2 == 0 {
            assert(all_times@.to_multiset() == all.to_multiset() && ascending_u64(all_times@));
            (all_times[count / 2 - 1] + all_times[count / 2]) / 2
        } else {
            all_times[count / 2]
        };
        let mean = sum / (count as u64);
        Some(LatencyStats { event_type, count, min, max, mean, median, all_timestamps: all_times })
    }
}

/// The name under which the statistics of an event are asked for.
pub open spec fn event_name(e: ConsensusEvent) -> Seq<char> {
    match e {
        ConsensusEvent::StartView => "start_view"@,
        ConsensusEvent::Propose => "propose"@,
        ConsensusEvent::ReceiveProposal => "receive_proposal"@,
        ConsensusEvent::PhaseVote => "phase_vote"@,
        ConsensusEvent::ReceivePhaseVote => "receive_phase_vote"@,
        ConsensusEvent::CollectPc => "collect_pc"@,
    }
}

fn name_is(name: &String, lit: &str) -> (r: bool)
    ensures
        r == (name@ == lit@),
{
    let owned: String = lit.to_owned();
    *name == owned
}

/// The event whose name is `name` (see `event_name`), if any.
pub fn event_named(name: &String) -> (r: Option<ConsensusEvent>)
    ensures
        match r {
            Some(e) => name@ == event_name(e),
            None => forall|e: ConsensusEvent| name@ != event_name(e),
        },
{
    if name_is(name, "start_view") {
        Some(ConsensusEvent::StartView)
    } else if name_is(name, "propose") {
        Some(ConsensusEvent::Propose)
    } else if name_is(name, "receive_proposal") {
        Some(ConsensusEvent::ReceiveProposal)
    } else if name_is(name, "phase_vote") {
        Some(ConsensusEvent::PhaseVote)
    } else if name_is(name, "receive_phase_vote") {
        Some(ConsensusEvent::ReceivePhaseVote)
    } else if name_is(name, "collect_pc") {
        Some(ConsensusEvent::CollectPc)
    } else {
        None
    }
}

/// All timestamps of `event`, view after view.
pub open spec fn event_times(entries: Seq<(u64, BenchmarkMetrics)>, event: ConsensusEvent) -> Seq<u64>
    decreases entries.len(),
{
    if entries.len() == 0 {
        Seq::empty()
    } else {
        event_times(entries.drop_last(), event) + entries.last().1.times_of(event)
    }
}

impl LatencyStats {
    /// Statistics of the event named `event_type` over all views (see
    /// `from_timestamps`): `None` when the name is not that of an event or when the
    /// event was never seen.
    pub fn for_event(entries: &Vec<(u64, BenchmarkMetrics)>, event_type: &String) -> (r: Option<Self>)
        requires
            forall|e: ConsensusEvent| event_type@ == event_name(e) ==> latency_defined(#[trigger] event_times(entries@, e)),
        ensures
            (forall|e: ConsensusEvent| event_type@ != #[trigger] event_name(e)) ==> r is None,
            forall|e: ConsensusEvent| event_type@ == #[trigger] event_name(e) ==> {
                let all = event_times(entries@, e);
                &&& (r is None <==> all.len() == 0)
                &&& r matches Some(stats) ==> {
                    let sorted = stats.all_timestamps@;
                    &&& sorted.to_multiset() == all.to_multiset()
                    &&& ascending_u64(sorted)
                    &&& stats.event_type@ == event_type@
                    &&& stats.count == sorted.len()
                    &&& stats.min == sorted[0]
                    &&& stats.max == sorted[sorted.len() - 1]
                    &&& stats.median == median_of(sorted)
                    &&& sorted.len() % 2 == 1 ==> stats.median == sorted[sorted.len() as int / 2]
                    &&& sorted.len() % 2 == 0 ==> 2 * stats.median <= sorted[sorted.len() / 2 - 1] + sorted[sorted.len() as int / 2] < 2 * stats.median + 2
                    &&& sorted[(sorted.len() - 1) / 2] <= stats.median <= sorted[sorted.len() as int / 2]
                    &&& stats.mean == seq_sum(u64s(all)) / (sorted.len() as int)
                }
            },
    {
        let event = match event_named(event_type) {
            Some(e) => e,
            None => return None,
        };
        proof {
            assert forall|e: ConsensusEvent| event_type@ == #[trigger] event_name(e) implies e == event by {
                if e != event {
                    assert(event_name(e) != event_name(event)) by {
                        reveal_strlit("start_view");
                        reveal_strlit("propose");
                        reveal_strlit("receive_proposal");
                        reveal_strlit("phase_vote");
                        reveal_strlit("receive_phase_vote");
                        reveal_strlit("collect_pc");
                        assert(event_name(e).len() != event_name(event).len() || event_name(e)[0] != event_name(event)[0]);
                    }
                }
            }
        }
        let mut lists: Vec<Vec<u64>> = Vec::new();
        let mut i: usize = 0;
        while i < entries.len()
            invariant
                i <= entries@.len(),
                concat_lists(lists@) == event_times(entries@.take(i as int), event),
                forall|k: int| 0 <= k < lists@.len() ==> (#[trigger] lists@[k])@.len() > 0,
            decreases entries.len() - i,
        {
            proof {
                assert(entries@.take(i + 1).drop_last() =~= entries@.take(i as int));
                assert(entries@.take(i + 1).last() == entries@[i as int]);
            }
            let times = entries[i].1.times(event);
            if times.len() > 0 {
                let copy = copy_times(times);
                let ghost before = lists@;
                lists.push(copy);
                assert(lists@.drop_last() == before);
            } else {
                assert(times@ =~= Seq::<u64>::empty());
                assert(event_times(entries@.take(i as int), event) + times@ =~= event_times(entries@.take(i as int), event));
            }
            i += 1;
        }
        assert(entries@.take(entries@.len() as int) =~= entries@);
        proof {
            lemma_concat_nonempty(lists@);
        }
        if lists.len() == 0 {
            return None;
        }
        Self::from_timestamps(event_type.clone(), lists)
    }
}

proof fn lemma_concat_nonempty(lists: Seq<Vec<u64>>)
    requires
        forall|k: int| 0 <= k < lists.len() ==> (#[trigger] lists[k])@.len() > 0,
    ensures
        lists.len() == 0 <==> concat_lists(lists).len() == 0,
    decreases lists.len(),
{
    if lists.len() > 0 {
        assert(lists[lists.len() - 1]@.len() > 0);
        assert forall|k: int| 0 <= k < lists.drop_last().len() implies (#[trigger] lists.drop_last()[k])@.len() > 0 by {
            assert(lists.drop_last()[k] == lists[k]);
        }
        lemma_concat_nonempty(lists.drop_last());
    }
}

/// The median of ascending timestamps lies between the two middle ones: it is the
/// middle one for an odd count, and for an even count the floor of the average of
/// the elements at `c / 2 - 1` and `c / 2`. So at least half of the timestamps are
/// at most the median and at least half are at least the lower middle one.
pub proof fn lemma_median_between_middles(sorted: Seq<u64>)
    requires
        ascending_u64(sorted),
        sorted.len() > 0,
    ensures
        sorted.len() % 2 == 1 ==> median_of(sorted) == sorted[sorted.len() as int / 2],
        sorted.len() % 2 == 0 ==> 2 * median_of(sorted) <= sorted[sorted.len() / 2 - 1] + sorted[sorted.len() as int / 2]
            < 2 * median_of(sorted) + 2,
        sorted[(sorted.len() - 1) / 2] <= median_of(sorted) <= sorted[sorted.len() as int / 2],
        forall|k: int| 0 <= k <= (sorted.len() - 1) / 2 ==> sorted[k] <= median_of(sorted),
        forall|k: int| sorted.len() / 2 <= k < sorted.len() ==> median_of(sorted) <= sorted[k],
{
    let c = sorted.len() as int;
    if c % 2 == 0 {
        assert((c - 1) / 2 == c / 2 - 1);
        assert(sorted[c / 2 - 1] <= sorted[c / 2]);
    } else {
        assert((c - 1) / 2 == c / 2);
    }
}

/// Each event's timestamps are kept in the field named after it: the start of a
/// view in `start_view_time`, a proposal sent in `propose_time`, a proposal received
/// in `receive_proposal_time`, a vote sent in `phase_vote_time`, a vote received in
/// `receive_phase_vote_time`, a certificate collected in `collect_pc_time`.
pub proof fn lemma_event_fields(m: BenchmarkMetrics)
    ensures
        m.times_of(ConsensusEvent::StartView) == m.start_view_time@,
        m.times_of(ConsensusEvent::Propose) == m.propose_time@,
        m.times_of(ConsensusEvent::ReceiveProposal) == m.receive_proposal_time@,
        m.times_of(ConsensusEvent::PhaseVote) == m.phase_vote_time@,
        m.times_of(ConsensusEvent::ReceivePhaseVote) == m.receive_phase_vote_time@,
        m.times_of(ConsensusEvent::CollectPc) == m.collect_pc_time@,
{
}

} // verus!
