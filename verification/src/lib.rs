pub mod stats;
pub mod benchmark_handlers;
pub mod benchmark_calculation;
pub mod assignment;
pub mod frida_proofs;
pub mod defrida_proofs;
pub mod bytes_buf;
pub mod blob_helper;
pub mod data;
pub mod frida;
pub mod proof_statistics;
pub mod config;
pub mod process;
pub mod benchmark_process;
pub mod reporting;
pub mod side_network;
pub mod validation;
pub mod benchmark_utils;
