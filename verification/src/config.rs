//! Configuration of a benchmark campaign, and the benchmark cases it describes:
//! every combination of a validator count, a data size and an FRI configuration.
use vstd::prelude::*;

use crate::process::Benchmark;
use crate::benchmark_process::{self, copy_u32s, copy_fri};

verus! {

/// Shape of the data matrix: `height` rows (blobs) of `width` bytes.
#[derive(Debug, Clone, Copy, PartialEq, Eq)]
pub struct DataSize {
    pub height: usize,
    pub width: usize,
}

/// Parameters of the FRI protocol.
#[derive(Debug, Clone, Copy, PartialEq, Eq)]
pub struct FriConfig {
    pub blowup_factor: usize,
    pub folding_factor: usize,
    pub max_remainder_degree: usize,
}

/// Where the reports are written.
#[derive(Debug, Clone)]
pub struct OutputFiles {
    pub frida_benchmark: String,
    pub defrida_benchmark: String,
}

/// A benchmark campaign: the validator counts, data sizes and FRI configurations to
/// combine, and the report files.
#[derive(Debug)]
pub struct BenchmarkConfig {
    pub num_of_validators: Vec<u32>,
    pub data_sizes: Vec<DataSize>,
    pub fri_options: Vec<FriConfig>,
    pub output_files: OutputFiles,
}

/// The case at index `k` of a campaign with `F` FRI configurations and `D` data
/// sizes combines validator count `k / (F * D)`, FRI configuration `(k / D) % F` and
/// data size `k % D`: validator counts vary slowest, data sizes fastest.
pub open spec fn case_at(c: BenchmarkConfig, k: int) -> Benchmark {
    let nf = c.fri_options@.len() as int;
    let nd = c.data_sizes@.len() as int;
    Benchmark {
        num_of_validators: c.num_of_validators@[k / (nf * nd)],
        data_sizes: c.data_sizes@[k % nd],
        fri_options: c.fri_options@[(k / nd) % nf],
    }
}

impl BenchmarkConfig {
    /// The campaign's lists, with each data size as `(height, width)`.
    pub fn to_benchmark(&self) -> (r: benchmark_process::Benchmark)
        ensures
            r.num_of_validators@ == self.num_of_validators@,
            r.fri_options@ == self.fri_options@,
            r.data_sizes@.len() == self.data_sizes@.len(),
            forall|i: int| 0 <= i < self.data_sizes@.len() ==> #[trigger] r.data_sizes@[i] == (self.data_sizes@[i].height, self.data_sizes@[i].width),
    {
        let mut data_sizes: Vec<(usize, usize)> = Vec::new();
        let mut i: usize = 0;
        while i < self.data_sizes.len()
            invariant
                i <= self.data_sizes@.len(),
                data_sizes@.len() == i,
                forall|k: int| 0 <= k < i ==> #[trigger] data_sizes@[k] == (self.data_sizes@[k].height, self.data_sizes@[k].width),
            decreases self.data_sizes.len() - i,
        {
            let ds = self.data_sizes[i];
            data_sizes.push((ds.height, ds.width));
            i += 1;
        }
        benchmark_process::Benchmark {
            num_of_validators: copy_u32s(&self.num_of_validators),
            data_sizes,
            fri_options: copy_fri(&self.fri_options),
        }
    }

    /// Every benchmark case of the campaign: one per combination of a validator count,
    /// an FRI configuration and a data size (validator counts vary slowest, data sizes
    /// fastest), `validators x data sizes x FRI configurations` cases in all.
    pub fn benchmarks(&self) -> (r: Vec<Benchmark>)
        requires
            self.num_of_validators@.len() * self.fri_options@.len() * self.data_sizes@.len() <= usize::MAX,
        ensures
            r@.len() == self.num_of_validators@.len() * self.fri_options@.len() * self.data_sizes@.len(),
            forall|k: int| 0 <= k < r@.len() ==> #[trigger] r@[k] == case_at(*self, k),
    {
        let nv = self.num_of_validators.len();
        let nf = self.fri_options.len();
        let nd = self.data_sizes.len();
        proof {
            lemma_mul_assoc_bound(nv as int, nf as int, nd as int);
        }
        let total = if nf == 0 || nd == 0 {
            0
        } else {
            nv * nf * nd
        };
        let mut cases: Vec<Benchmark> = Vec::new();
        let mut k: usize = 0;
        while k < total
            invariant
                nv == self.num_of_validators@.len(),
                nf == self.fri_options@.len(),
                nd == self.data_sizes@.len(),
                total == nv * nf * nd,
                k <= total,
                cases@.len() == k,
                forall|j: int| 0 <= j < k ==> #[trigger] cases@[j] == case_at(*self, j),
            decreases total - k,
        {
            proof {
                lemma_case_index_bound(k as int, nv as int, nf as int, nd as int);
            }
            let per_validator = nf * nd;
            let v = k / per_validator;
            let f = (k / nd) % nf;
            let d = k % nd;
            cases.push(Benchmark::new(self.num_of_validators[v], &self.data_sizes[d], &self.fri_options[f]));
            k += 1;
        }
        cases
    }
}

proof fn lemma_mul_assoc_bound(nv: int, nf: int, nd: int)
    requires
        nv >= 0,
        nf >= 0,
        nd >= 0,
    ensures
        nv * nf * nd >= 0,
        nf == 0 || nd == 0 ==> nv * nf * nd == 0,
        nf > 0 && nd > 0 ==> nv * nf <= nv * nf * nd,
{
    assert(nf == 0 || nd == 0 ==> nv * nf * nd == 0) by (nonlinear_arith);
    assert(nf > 0 && nd > 0 ==> nv * nf <= nv * nf * nd) by (nonlinear_arith)
        requires
            nv >= 0,
    ;
    assert(nv * nf * nd >= 0) by (nonlinear_arith)
        requires
            nv >= 0,
            nf >= 0,
            nd >= 0,
    ;
}

proof fn lemma_case_index_bound(k: int, nv: int, nf: int, nd: int)
    requires
        0 <= k < nv * nf * nd,
        nv >= 0,
        nf >= 0,
        nd >= 0,
    ensures
        nf > 0,
        nd > 0,
        nf * nd > 0,
        nf * nd <= nv * nf * nd,
        0 <= k / (nf * nd) < nv,
        0 <= (k / nd) % nf < nf,
        0 <= k % nd < nd,
{
    assert(nf > 0 && nd > 0 && nv > 0) by (nonlinear_arith)
        requires
            0 <= k < nv * nf * nd,
            nv >= 0,
            nf >= 0,
            nd >= 0,
    ;
    assert(nf * nd > 0) by (nonlinear_arith)
        requires
            nf > 0,
            nd > 0,
    ;
    assert(nf * nd <= nv * nf * nd) by (nonlinear_arith)
        requires
            nv > 0,
            nf > 0,
            nd > 0,
    ;
    assert(0 <= k / (nf * nd) < nv) by (nonlinear_arith)
        requires
            0 <= k < nv * nf * nd,
            nf > 0,
            nd > 0,
    ;
    assert(0 <= (k / nd) % nf < nf) by (nonlinear_arith)
        requires
            0 <= k,
            nf > 0,
            nd > 0,
    ;
    assert(0 <= k % nd < nd) by (nonlinear_arith)
        requires
            0 <= k,
            nd > 0,
    ;
}

/// Every combination of a validator count `a`, an FRI configuration `b` and a data
/// size `d` is a case of the campaign: the one at index `(a * F + b) * D + d`, which
/// lies below `validators x FRI configurations x data sizes`.
pub proof fn lemma_every_combination_is_a_case(c: BenchmarkConfig, a: int, b: int, d: int)
    requires
        0 <= a < c.num_of_validators@.len(),
        0 <= b < c.fri_options@.len(),
        0 <= d < c.data_sizes@.len(),
    ensures
        0 <= (a * c.fri_options@.len() + b) * c.data_sizes@.len() + d
            < c.num_of_validators@.len() * c.fri_options@.len() * c.data_sizes@.len(),
        case_at(c, (a * c.fri_options@.len() + b) * c.data_sizes@.len() + d) == (Benchmark {
            num_of_validators: c.num_of_validators@[a],
            data_sizes: c.data_sizes@[d],
            fri_options: c.fri_options@[b],
        }),
{
    let nv = c.num_of_validators@.len() as int;
    let nf = c.fri_options@.len() as int;
    let nd = c.data_sizes@.len() as int;
    let k = (a * nf + b) * nd + d;
    assert(0 <= k < nv * nf * nd) by (nonlinear_arith)
        requires
            k == (a * nf + b) * nd + d,
            0 <= a < nv,
            0 <= b < nf,
            0 <= d < nd,
    ;
    assert(k % nd == d && k / nd == a * nf + b) by (nonlinear_arith)
        requires
            k == (a * nf + b) * nd + d,
            0 <= a,
            0 <= b < nf,
            0 <= d < nd,
    ;
    assert((a * nf + b) % nf == b && (a * nf + b) / nf == a) by (nonlinear_arith)
        requires
            0 <= a,
            0 <= b < nf,
    ;
    assert(k / (nf * nd) == (k / nd) / nf) by {
        vstd::arithmetic::div_mod::lemma_div_denominator(k, nd, nf);
        assert(nd * nf == nf * nd) by (nonlinear_arith);
    }
}

} // verus!
