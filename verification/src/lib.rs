//! Dubplate: the rules that turn dropped archives into a stick a player reads.

pub mod text;
pub mod options;
pub mod report;
pub mod sniff;
pub mod naming;
pub mod cp437;
pub mod run;
pub mod permits;
pub mod pool;
pub mod worker;
pub mod settings;
pub mod charts;
