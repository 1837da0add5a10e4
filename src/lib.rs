//! Single-proposer proof-of-work block production: candidate assembly, solution
//! validation, difficulty retargeting, a reserving mempool and batched fan-out.
pub mod chain;
pub mod difficulty;
pub mod fanout;
pub mod ledger;
pub mod pow;
pub mod provision;
