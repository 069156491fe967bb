//! Minimum, maximum, sum and mean of sequences of measurements.
//!
//! The conventions follow the benchmark reports: the statistic of an empty
//! sequence is `0`.
use vstd::prelude::*;

verus! {

/// A sequence of `u64` measurements, read as integers.
pub open spec fn u64s(s: Seq<u64>) -> Seq<int> {
    s.map_values(|x: u64| x as int)
}

/// A sequence of `usize` measurements, read as integers.
pub open spec fn usizes(s: Seq<usize>) -> Seq<int> {
    s.map_values(|x: usize| x as int)
}

/// Smallest element; `0` for the empty sequence.
pub open spec fn seq_min(s: Seq<int>) -> int
    decreases s.len(),
{
    if s.len() == 0 {
        0
    } else if s.len() == 1 {
        s[0]
    } else {
        let m = seq_min(s.drop_last());
        if s.last() < m {
            s.last()
        } else {
            m
        }
    }
}

/// Largest element; `0` for the empty sequence.
pub open spec fn seq_max(s: Seq<int>) -> int
    decreases s.len(),
{
    if s.len() == 0 {
        0
    } else if s.len() == 1 {
        s[0]
    } else {
        let m = seq_max(s.drop_last());
        if s.last() > m {
            s.last()
        } else {
            m
        }
    }
}

/// Sum of the elements.
pub open spec fn seq_sum(s: Seq<int>) -> int
    decreases s.len(),
{
    if s.len() == 0 {
        0
    } else {
        seq_sum(s.drop_last()) + s.last()
    }
}

/// Integer (floor) mean; `0` for the empty sequence.
pub open spec fn seq_mean(s: Seq<int>) -> int {
    if s.len() == 0 {
        0
    } else {
        seq_sum(s) / (s.len() as int)
    }
}

/// The minimum of a non-empty sequence is one of its elements and no element is smaller.
pub proof fn lemma_seq_min_is_min(s: Seq<int>)
    requires
        s.len() > 0,
    ensures
        exists|i: int| 0 <= i < s.len() && s[i] == seq_min(s),
        forall|i: int| 0 <= i < s.len() ==> seq_min(s) <= s[i],
    decreases s.len(),
{
    if s.len() == 1 {
        assert(s[0] == seq_min(s));
    } else {
        lemma_seq_min_is_min(s.drop_last());
        let m = seq_min(s.drop_last());
        if s.last() < m {
            assert(s[s.len() - 1] == seq_min(s));
        } else {
            let k = choose|k: int| 0 <= k < s.drop_last().len() && s.drop_last()[k] == m;
            assert(s[k] == seq_min(s));
        }
        assert forall|i: int| 0 <= i < s.len() implies seq_min(s) <= s[i] by {
            if i < s.len() - 1 {
                assert(s.drop_last()[i] == s[i]);
            }
        }
    }
}

/// The maximum of a non-empty sequence is one of its elements and no element is larger.
pub proof fn lemma_seq_max_is_max(s: Seq<int>)
    requires
        s.len() > 0,
    ensures
        exists|i: int| 0 <= i < s.len() && s[i] == seq_max(s),
        forall|i: int| 0 <= i < s.len() ==> s[i] <= seq_max(s),
    decreases s.len(),
{
    if s.len() == 1 {
        assert(s[0] == seq_max(s));
    } else {
        lemma_seq_max_is_max(s.drop_last());
        let m = seq_max(s.drop_last());
        if s.last() > m {
            assert(s[s.len() - 1] == seq_max(s));
        } else {
            let k = choose|k: int| 0 <= k < s.drop_last().len() && s.drop_last()[k] == m;
            assert(s[k] == seq_max(s));
        }
        assert forall|i: int| 0 <= i < s.len() implies s[i] <= seq_max(s) by {
            if i < s.len() - 1 {
                assert(s.drop_last()[i] == s[i]);
            }
        }
    }
}

/// Sums of non-negative elements grow along prefixes.
pub proof fn lemma_seq_sum_prefix(s: Seq<int>, i: int)
    requires
        0 <= i <= s.len(),
        forall|k: int| 0 <= k < s.len() ==> s[k] >= 0,
    ensures
        0 <= seq_sum(s.take(i)) <= seq_sum(s),
    decreases s.len(),
{
    if s.len() == 0 {
        assert(s.take(i) =~= s);
    } else if i == s.len() {
        assert(s.take(i) =~= s);
        lemma_seq_sum_prefix(s.drop_last(), s.len() - 1);
        assert(s.drop_last().take(s.len() - 1) =~= s.drop_last());
    } else {
        lemma_seq_sum_prefix(s.drop_last(), i);
        assert(s.drop_last().take(i) =~= s.take(i));
    }
}

proof fn lemma_u64s_prefix(v: Seq<u64>, i: int)
    requires
        0 <= i < v.len(),
    ensures
        u64s(v.take(i + 1)).drop_last() =~= u64s(v.take(i)),
        u64s(v.take(i + 1)).last() == v[i] as int,
        u64s(v.take(i + 1)).len() == i + 1,
{
}

proof fn lemma_usizes_prefix(v: Seq<usize>, i: int)
    requires
        0 <= i < v.len(),
    ensures
        usizes(v.take(i + 1)).drop_last() =~= usizes(v.take(i)),
        usizes(v.take(i + 1)).last() == v[i] as int,
        usizes(v.take(i + 1)).len() == i + 1,
{
}

/// Smallest of the values, `0` when there are none.
pub fn min_u64(v: &[u64]) -> (r: u64)
    ensures
        r == seq_min(u64s(v@)),
{
    let mut m: u64 = 0;
    let mut i: usize = 0;
    while i < v.len()
        invariant
            i <= v.len(),
            m == seq_min(u64s(v@.take(i as int))),
        decreases v.len() - i,
    {
        proof {
            lemma_u64s_prefix(v@, i as int);
        }
        if i == 0 || v[i] < m {
            m = v[i];
        }
        i += 1;
    }
    assert(v@.take(v.len() as int) =~= v@);
    m
}

/// Largest of the values, `0` when there are none.
pub fn max_u64(v: &[u64]) -> (r: u64)
    ensures
        r == seq_max(u64s(v@)),
{
    let mut m: u64 = 0;
    let mut i: usize = 0;
    while i < v.len()
        invariant
            i <= v.len(),
            m == seq_max(u64s(v@.take(i as int))),
        decreases v.len() - i,
    {
        proof {
            lemma_u64s_prefix(v@, i as int);
        }
        if i == 0 || v[i] > m {
            m = v[i];
        }
        i += 1;
    }
    assert(v@.take(v.len() as int) =~= v@);
    m
}

/// Sum of the values; the sum must fit in a `u64`.
pub fn sum_u64(v: &[u64]) -> (r: u64)
    requires
        seq_sum(u64s(v@)) <= u64::MAX,
    ensures
        r == seq_sum(u64s(v@)),
{
    let mut total: u64 = 0;
    let mut i: usize = 0;
    while i < v.len()
        invariant
            i <= v.len(),
            total == seq_sum(u64s(v@.take(i as int))),
            seq_sum(u64s(v@)) <= u64::MAX,
        decreases v.len() - i,
    {
        proof {
            lemma_u64s_prefix(v@, i as int);
            lemma_seq_sum_prefix(u64s(v@), i + 1);
            assert(u64s(v@).take(i + 1) =~= u64s(v@.take(i + 1)));
        }
        total = total + v[i];
        i += 1;
    }
    assert(v@.take(v.len() as int) =~= v@);
    total
}

/// Smallest of the values, `0` when there are none.
pub fn min_usize(v: &[usize]) -> (r: usize)
    ensures
        r == seq_min(usizes(v@)),
{
    let mut m: usize = 0;
    let mut i: usize = 0;
    while i < v.len()
        invariant
            i <= v.len(),
            m == seq_min(usizes(v@.take(i as int))),
        decreases v.len() - i,
    {
        proof {
            lemma_usizes_prefix(v@, i as int);
        }
        if i == 0 || v[i] < m {
            m = v[i];
        }
        i += 1;
    }
    assert(v@.take(v.len() as int) =~= v@);
    m
}

/// Largest of the values, `0` when there are none.
pub fn max_usize(v: &[usize]) -> (r: usize)
    ensures
        r == seq_max(usizes(v@)),
{
    let mut m: usize = 0;
    let mut i: usize = 0;
    while i < v.len()
        invariant
            i <= v.len(),
            m == seq_max(usizes(v@.take(i as int))),
        decreases v.len() - i,
    {
        proof {
            lemma_usizes_prefix(v@, i as int);
        }
        if i == 0 || v[i] > m {
            m = v[i];
        }
        i += 1;
    }
    assert(v@.take(v.len() as int) =~= v@);
    m
}

/// Sum of the values; the sum must fit in a `usize`.
pub fn sum_usize(v: &[usize]) -> (r: usize)
    requires
        seq_sum(usizes(v@)) <= usize::MAX,
    ensures
        r == seq_sum(usizes(v@)),
{
    let mut total: usize = 0;
    let mut i: usize = 0;
    while i < v.len()
        invariant
            i <= v.len(),
            total == seq_sum(usizes(v@.take(i as int))),
            seq_sum(usizes(v@)) <= usize::MAX,
        decreases v.len() - i,
    {
        proof {
            lemma_usizes_prefix(v@, i as int);
            lemma_seq_sum_prefix(usizes(v@), i + 1);
            assert(usizes(v@).take(i + 1) =~= usizes(v@.take(i + 1)));
        }
        total = total + v[i];
        i += 1;
    }
    assert(v@.take(v.len() as int) =~= v@);
    total
}

/// Sum of the values, `None` when it does not fit in a `u64`.
pub fn checked_sum_u64(v: &[u64]) -> (r: Option<u64>)
    ensures
        match r {
            Some(t) => t == seq_sum(u64s(v@)),
            None => seq_sum(u64s(v@)) > u64::MAX,
        },
{
    let mut total: u64 = 0;
    let mut i: usize = 0;
    while i < v.len()
        invariant
            i <= v@.len(),
            total == seq_sum(u64s(v@.take(i as int))),
        decreases v.len() - i,
    {
        proof {
            lemma_u64s_prefix(v@, i as int);
        }
        if total > u64::MAX - v[i] {
            proof {
                assert forall|k: int| 0 <= k < u64s(v@).len() implies u64s(v@)[k] >= 0 by {}
                lemma_seq_sum_prefix(u64s(v@), i + 1);
                assert(u64s(v@).take(i + 1) =~= u64s(v@.take(i + 1)));
            }
            return None;
        }
        total = total + v[i];
        i += 1;
    }
    assert(v@.take(v@.len() as int) =~= v@);
    Some(total)
}

/// Sum of the values, `None` when it does not fit in a `usize`.
pub fn checked_sum_usize(v: &[usize]) -> (r: Option<usize>)
    ensures
        match r {
            Some(t) => t == seq_sum(usizes(v@)),
            None => seq_sum(usizes(v@)) > usize::MAX,
        },
{
    let mut total: usize = 0;
    let mut i: usize = 0;
    while i < v.len()
        invariant
            i <= v@.len(),
            total == seq_sum(usizes(v@.take(i as int))),
        decreases v.len() - i,
    {
        proof {
            lemma_usizes_prefix(v@, i as int);
        }
        if total > usize::MAX - v[i] {
            proof {
                assert forall|k: int| 0 <= k < usizes(v@).len() implies usizes(v@)[k] >= 0 by {}
                lemma_seq_sum_prefix(usizes(v@), i + 1);
                assert(usizes(v@).take(i + 1) =~= usizes(v@.take(i + 1)));
            }
            return None;
        }
        total = total + v[i];
        i += 1;
    }
    assert(v@.take(v@.len() as int) =~= v@);
    Some(total)
}

} // verus!
