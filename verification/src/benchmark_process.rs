//! The lists of a benchmark campaign.
use vstd::prelude::*;

use crate::config::FriConfig;

verus! {

/// A campaign's lists: validator counts, data sizes as `(height, width)`, and FRI
/// configurations.
#[derive(Debug)]
pub struct Benchmark {
    pub num_of_validators: Vec<u32>,
    pub data_sizes: Vec<(usize, usize)>,
    pub fri_options: Vec<FriConfig>,
}

impl Benchmark {
    /// The plan of the given lists.
    pub fn new(num_of_validators: &Vec<u32>, data_sizes: &Vec<(usize, usize)>, fri_options: &Vec<FriConfig>) -> (r: Self)
        ensures
            r.num_of_validators@ == num_of_validators@,
            r.data_sizes@ == data_sizes@,
            r.fri_options@ == fri_options@,
    {
        Benchmark {
            num_of_validators: copy_u32s(num_of_validators),
            data_sizes: copy_pairs(data_sizes),
            fri_options: copy_fri(fri_options),
        }
    }
}

impl Benchmark {
    /// The report groups of the campaign, in the order they are run: one per
    /// combination of a validator count and an FRI configuration (validator counts
    /// vary slowest); each group runs every data size and gives one report.
    pub fn report_groups(&self) -> (r: Vec<(u32, FriConfig)>)
        requires
            self.num_of_validators@.len() * self.fri_options@.len() <= usize::MAX,
        ensures
            r@.len() == self.num_of_validators@.len() * self.fri_options@.len(),
            forall|k: int| 0 <= k < r@.len() ==> #[trigger] r@[k] == (
                self.num_of_validators@[k / (self.fri_options@.len() as int)],
                self.fri_options@[k % (self.fri_options@.len() as int)],
            ),
    {
        let nv = self.num_of_validators.len();
        let nf = self.fri_options.len();
        let mut groups: Vec<(u32, FriConfig)> = Vec::new();
        let mut a: usize = 0;
        while a < nv
            invariant
                nv == self.num_of_validators@.len(),
                nf == self.fri_options@.len(),
                nv * nf <= usize::MAX,
                a <= nv,
                groups@.len() == a * nf,
                forall|k: int| 0 <= k < groups@.len() ==> #[trigger] groups@[k] == (
                    self.num_of_validators@[k / (nf as int)],
                    self.fri_options@[k % (nf as int)],
                ),
            decreases nv - a,
        {
            let mut b: usize = 0;
            while b < nf
                invariant
                    nv == self.num_of_validators@.len(),
                    nf == self.fri_options@.len(),
                    nv * nf <= usize::MAX,
                    a < nv,
                    b <= nf,
                    groups@.len() == a * nf + b,
                    forall|k: int| 0 <= k < groups@.len() ==> #[trigger] groups@[k] == (
                        self.num_of_validators@[k / (nf as int)],
                        self.fri_options@[k % (nf as int)],
                    ),
                decreases nf - b,
            {
                proof {
                    let k = a * nf + b;
                    assert(k / (nf as int) == a && k % (nf as int) == b) by (nonlinear_arith)
                        requires
                            k == a * nf + b,
                            0 <= b < nf,
                            0 <= a,
                    ;
                    assert(a * nf + b < nv * nf) by (nonlinear_arith)
                        requires
                            a < nv,
                            b < nf,
                    ;
                }
                groups.push((self.num_of_validators[a], self.fri_options[b]));
                b += 1;
            }
            proof {
                assert(a * nf + nf == (a + 1) * nf) by (nonlinear_arith);
            }
            a += 1;
        }
        groups
    }
}

pub(crate) fn copy_u32s(v: &Vec<u32>) -> (r: Vec<u32>)
    ensures
        r@ == v@,
{
    let mut out: Vec<u32> = Vec::new();
    let mut i: usize = 0;
    while i < v.len()
        invariant
            i <= v@.len(),
            out@ == v@.take(i as int),
        decreases v.len() - i,
    {
        out.push(v[i]);
        i += 1;
        assert(out@ =~= v@.take(i as int));
    }
    assert(v@.take(v@.len() as int) =~= v@);
    out
}

pub(crate) fn copy_pairs(v: &Vec<(usize, usize)>) -> (r: Vec<(usize, usize)>)
    ensures
        r@ == v@,
{
    let mut out: Vec<(usize, usize)> = Vec::new();
    let mut i: usize = 0;
    while i < v.len()
        invariant
            i <= v@.len(),
            out@ == v@.take(i as int),
        decreases v.len() - i,
    {
        out.push(v[i]);
        i += 1;
        assert(out@ =~= v@.take(i as int));
    }
    assert(v@.take(v@.len() as int) =~= v@);
    out
}

pub(crate) fn copy_fri(v: &Vec<FriConfig>) -> (r: Vec<FriConfig>)
    ensures
        r@ == v@,
{
    let mut out: Vec<FriConfig> = Vec::new();
    let mut i: usize = 0;
    while i < v.len()
        invariant
            i <= v@.len(),
            out@ == v@.take(i as int),
        decreases v.len() - i,
    {
        out.push(v[i]);
        i += 1;
        assert(out@ =~= v@.take(i as int));
    }
    assert(v@.take(v@.len() as int) =~= v@);
    out
}

} // verus!
