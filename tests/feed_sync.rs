use openvasd::feed_sync::{hash_or_empty, sync_required, Action, Event, FeedConfig, FeedSync, Phase};

fn config(signature_check: bool) -> Option<FeedConfig> {
    Some(FeedConfig {
        path: "/var/lib/openvas/plugins".to_string(),
        verify_interval_ms: 1000,
        signature_check,
    })
}

/// Runs one cycle against a simulated storage holding `db`; returns the hashes
/// handed to synchronization in that cycle.
fn cycle(
    sync: &mut FeedSync,
    db: &mut String,
    signature_valid: bool,
    hash: Option<&str>,
    accept: bool,
) -> Vec<String> {
    let mut calls = Vec::new();
    let mut action = sync.pending_action();
    assert_eq!(action, Action::CheckAbort);
    loop {
        let event = match action {
            Action::CheckAbort => Event::AbortFlag(false),
            Action::ReadStoredHash => Event::StoredHash(db.clone()),
            Action::VerifySignature => Event::SignatureChecked(signature_valid),
            Action::ComputeHash => Event::HashComputed(hash.map(|h| h.to_string())),
            Action::Synchronize(h) => {
                calls.push(h.clone());
                if accept {
                    *db = h;
                }
                Event::Committed(accept)
            }
            Action::Sleep(ms) => {
                assert_eq!(ms, 1000);
                let next = sync.step(Event::Woke);
                assert_eq!(next, Action::CheckAbort);
                return calls;
            }
            Action::Stop => panic!("stopped unexpectedly"),
        };
        action = sync.step(event);
    }
}

#[test]
fn unchanged_feed_syncs_once_over_three_cycles() {
    let mut sync = FeedSync::new(&config(false));
    let mut db = String::new();
    let mut all = Vec::new();
    for _ in 0..3 {
        all.extend(cycle(&mut sync, &mut db, true, Some("abc123"), true));
    }
    assert_eq!(all, vec!["abc123".to_string()]);
    assert_eq!(db, "abc123");
}

#[test]
fn changed_feed_syncs_once_per_distinct_hash() {
    let mut sync = FeedSync::new(&config(false));
    let mut db = String::new();
    let mut all = Vec::new();
    all.extend(cycle(&mut sync, &mut db, true, Some("h1"), true));
    all.extend(cycle(&mut sync, &mut db, true, Some("h2"), true));
    all.extend(cycle(&mut sync, &mut db, true, Some("h2"), true));
    assert_eq!(all, vec!["h1".to_string(), "h2".to_string()]);
}

#[test]
fn invalid_signature_still_syncs() {
    let mut sync = FeedSync::new(&config(true));
    let mut db = "old".to_string();
    let calls = cycle(&mut sync, &mut db, false, Some("new"), true);
    assert_eq!(calls, vec!["new".to_string()]);
}

#[test]
fn signature_is_checked_only_when_configured() {
    let mut with = FeedSync::new(&config(true));
    assert_eq!(with.step(Event::AbortFlag(false)), Action::ReadStoredHash);
    assert_eq!(with.step(Event::StoredHash("x".to_string())), Action::VerifySignature);
    let mut without = FeedSync::new(&config(false));
    assert_eq!(without.step(Event::AbortFlag(false)), Action::ReadStoredHash);
    assert_eq!(without.step(Event::StoredHash("x".to_string())), Action::ComputeHash);
}

#[test]
fn empty_stored_hash_forces_sync_even_when_equal() {
    let mut sync = FeedSync::new(&config(false));
    let mut db = String::new();
    let calls = cycle(&mut sync, &mut db, true, Some(""), true);
    assert_eq!(calls, vec![String::new()]);
    let calls = cycle(&mut sync, &mut db, true, Some(""), true);
    assert_eq!(calls, vec![String::new()]);
}

#[test]
fn failed_hash_is_treated_as_empty_and_loop_goes_on() {
    let mut sync = FeedSync::new(&config(false));
    let mut db = "abc".to_string();
    let calls = cycle(&mut sync, &mut db, true, None, false);
    assert_eq!(calls, vec![String::new()]);
    assert_eq!(sync.phase(), Phase::Idle);
    let calls = cycle(&mut sync, &mut db, true, Some("abc"), true);
    assert!(calls.is_empty());
}

#[test]
fn rejected_sync_is_retried_next_cycle() {
    let mut sync = FeedSync::new(&config(false));
    let mut db = String::new();
    let calls = cycle(&mut sync, &mut db, true, Some("h"), false);
    assert_eq!(calls, vec!["h".to_string()]);
    assert_eq!(sync.last_commit(), Some(false));
    let calls = cycle(&mut sync, &mut db, true, Some("h"), true);
    assert_eq!(calls, vec!["h".to_string()]);
    assert_eq!(sync.last_commit(), Some(true));
    let calls = cycle(&mut sync, &mut db, true, Some("h"), true);
    assert!(calls.is_empty());
}

#[test]
fn abort_stops_for_good() {
    let mut sync = FeedSync::new(&config(false));
    let mut db = String::new();
    cycle(&mut sync, &mut db, true, Some("h"), true);
    assert_eq!(sync.step(Event::AbortFlag(true)), Action::Stop);
    assert_eq!(sync.phase(), Phase::Stopped);
    assert_eq!(sync.step(Event::AbortFlag(false)), Action::Stop);
    assert_eq!(sync.step(Event::StoredHash(String::new())), Action::Stop);
    assert_eq!(sync.step(Event::HashComputed(Some("z".to_string()))), Action::Stop);
    assert_eq!(sync.step(Event::Woke), Action::Stop);
    assert_eq!(sync.pending_action(), Action::Stop);
}

#[test]
fn abort_during_a_cycle_lets_it_finish() {
    let mut sync = FeedSync::new(&config(false));
    assert_eq!(sync.step(Event::AbortFlag(false)), Action::ReadStoredHash);
    assert_eq!(sync.step(Event::StoredHash("a".to_string())), Action::ComputeHash);
    assert_eq!(
        sync.step(Event::HashComputed(Some("b".to_string()))),
        Action::Synchronize("b".to_string())
    );
    assert_eq!(sync.step(Event::Committed(true)), Action::Sleep(1000));
    assert_eq!(sync.step(Event::Woke), Action::CheckAbort);
    assert_eq!(sync.step(Event::AbortFlag(true)), Action::Stop);
}

#[test]
fn no_config_never_starts() {
    let mut sync = FeedSync::new(&None);
    assert_eq!(sync.phase(), Phase::Stopped);
    assert_eq!(sync.last_commit(), None);
    assert_eq!(sync.pending_action(), Action::Stop);
    assert_eq!(sync.step(Event::AbortFlag(false)), Action::Stop);
}

#[test]
fn unexpected_event_is_ignored() {
    let mut sync = FeedSync::new(&config(false));
    assert_eq!(sync.step(Event::Woke), Action::CheckAbort);
    assert_eq!(sync.step(Event::AbortFlag(false)), Action::ReadStoredHash);
    assert_eq!(sync.step(Event::Committed(true)), Action::ReadStoredHash);
    assert_eq!(sync.phase(), Phase::AwaitStoredHash);
}

#[test]
fn sync_required_values() {
    let s = |x: &str| x.to_string();
    assert!(sync_required(&s(""), &s("")));
    assert!(sync_required(&s(""), &s("a")));
    assert!(sync_required(&s("a"), &s("b")));
    assert!(sync_required(&s("a"), &s("")));
    assert!(!sync_required(&s("a"), &s("a")));
}

#[test]
fn hash_or_empty_values() {
    assert_eq!(hash_or_empty(Some("abc".to_string())), "abc");
    assert_eq!(hash_or_empty(None), "");
}
