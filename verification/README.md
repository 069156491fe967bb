# frida_hotstuff

Data availability for HotStuff blocks with FRI proofs (Frida), and its variant in
which each validator receives only its share of the proof through a side network
(DeFrida), with the tooling that benchmarks both.

`src/` is the verified library:

- `assignment`, `frida_proofs`, `defrida_proofs`: which query positions each
  validator proves, and the coverage property (any `f + 1` validators together hold
  every position); the proof plan of the proposer.
- `bytes_buf`, `blob_helper`, `data`, `frida`: length-prefixed framing of blobs and
  the data matrix a block commits to.
- `side_network`: the DeFrida proof store (a read gives back what the last write for
  the same proposal and validator stored).
- `validation`: how a DeFrida validator decides on a block.
- `stats`, `benchmark_handlers`, `benchmark_calculation`, `proof_statistics`,
  `config`, `process`, `benchmark_process`, `reporting`, `benchmark_utils`: the
  benchmark measurements, their summaries and the benchmark campaign.

`app/` is the benchmark program: logging, the configuration file, CSV and text
reports, the HotStuff replicas and applications, the in-process networks, and the
event handlers that record the measurements.
