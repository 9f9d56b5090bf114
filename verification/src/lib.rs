//! Reads a string suspected of holding a Unix timestamp, picks the most
//! plausible digit run, interprets it under four time-unit hypotheses
//! (seconds, milliseconds, microseconds, nanoseconds), and ranks the
//! hypotheses by how close the resulting instant lies to "now".

pub mod extract;
pub mod interpret;
pub mod present;
pub mod rank;
pub mod run;
pub mod text;
pub mod timeapi;
pub mod value;
