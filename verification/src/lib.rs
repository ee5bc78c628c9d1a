//! A verified audit of a distributed mirror network for a software
//! archive. The crate parses the mirror topology document and the
//! record-oriented package-database dump, classifies a mirror's liveness
//! from the distinguished configuration record, coordinates redundant
//! fetches through a checksum-keyed single-flight resolver with leadership
//! handoff, and assembles the per-mirror verdicts into a report with
//! exactly the topology's shape. The network, the clock, and the task
//! scheduling live with the caller; every parsing, classification, and
//! coordination decision is made here, under contract.

pub mod assoc;
pub mod classify;
pub mod digest;
pub mod orchestrate;
pub mod parse_ctanmirrors;
pub mod parse_tlpdb;
pub mod resolver;
pub mod text_util;
