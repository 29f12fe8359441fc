//! Recording a live stream: retries, gaps, finished segments and the recovery of short ones.
pub mod commands;
pub mod flv;
pub mod recovery;
pub mod retry;
pub mod segments;
pub mod session;
pub mod workflow;
