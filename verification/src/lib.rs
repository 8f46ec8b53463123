//! Verified core of the JetKVM command-line client: the value parsers for
//! command arguments, the splitting of a trailing argument list into
//! successive commands, and the framing of a screenshot as a data URL.

pub mod batch;
pub mod screenshot;
pub mod values;
