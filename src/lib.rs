//! Side-channel brute-forcing of program inputs: candidate generators, round
//! bookkeeping, outlier selection, and the decision logic that supervises a
//! measured child process.
pub mod binary;
pub mod brute;
pub mod bytes;
pub mod cache;
pub mod counters;
pub mod dispatch;
pub mod errors;
pub mod generators;
pub mod input;
pub mod mem_arg;
pub mod orchestrate;
pub mod process;
pub mod statistics;
pub mod supervise;
