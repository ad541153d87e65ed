//! Logon reports from a Windows security event log: reading the events out
//! of the parsed log, counting logons per user and hour of the day, and
//! laying the counts out as CSV.

pub mod event;
pub mod histogram;
pub mod markup;
pub mod number;
pub mod ranking;
pub mod report;
pub mod summary;
pub mod text;
pub mod tree;
