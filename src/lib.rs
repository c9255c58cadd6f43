//! Scan and feed control for a vulnerability-scan daemon.
//!
//! `feed_sync` holds the decisions of the feed synchronization loop as a state
//! machine: the caller performs each requested action (reading the abort flag,
//! reading the stored hash, checking the signature, hashing the feed, committing,
//! sleeping) and hands the outcome back as an event. `scan` holds the lifecycle
//! of the scans that clients request.

pub mod feed_sync;
pub mod scan;
