//! A verified escrow ledger: an organiser locks a fixed amount of native
//! currency against a 32-byte task hash, and a single release operation later
//! pays that amount to a designated recipient, exactly once.

pub mod addr;
pub mod laws;
pub mod ledger;
pub mod record;
pub mod table;
