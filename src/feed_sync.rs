use vstd::prelude::*;

verus! {

/// Where the feed lives and how it is watched. Immutable once loaded.
#[derive(Debug)]
pub struct FeedConfig {
    pub path: String,
    /// Time between two poll cycles, in milliseconds.
    pub verify_interval_ms: u64,
    pub signature_check: bool,
}

/// Where the synchronizer stands within a poll cycle.
#[derive(Clone, Copy, Debug, PartialEq, Eq, Structural)]
pub enum Phase {
    /// Top of the cycle: waiting for the abort flag.
    Idle,
    /// Waiting for the hash last committed to storage.
    AwaitStoredHash,
    /// Waiting for the outcome of the signature check.
    AwaitSignature,
    /// Waiting for the hash of the feed as it is now.
    AwaitHash,
    /// Waiting for storage to commit the new hash.
    AwaitCommit,
    /// Waiting for the poll interval to pass.
    Sleeping,
    /// Terminal: the abort flag was seen, or no feed is configured.
    Stopped,
}

/// What the outside world reports back after performing an action.
#[derive(Debug, PartialEq, Eq)]
pub enum Event {
    /// The current value of the abort flag.
    AbortFlag(bool),
    /// The hash that storage holds as committed (empty if never synchronized).
    StoredHash(String),
    /// Whether the feed signature was valid.
    SignatureChecked(bool),
    /// The sumfile hash of the feed, or `None` when computing it failed.
    HashComputed(Option<String>),
    /// Whether storage accepted the synchronization.
    Committed(bool),
    /// The poll interval has passed.
    Woke,
}

/// What the synchronizer asks the outside world to do next.
#[derive(Debug, PartialEq, Eq)]
pub enum Action {
    CheckAbort,
    ReadStoredHash,
    VerifySignature,
    ComputeHash,
    /// Call the storage synchronization with this hash.
    Synchronize(String),
    /// Sleep this many milliseconds.
    Sleep(u64),
    Stop,
}

/// The mathematical form of an [`Action`].
pub enum Command {
    CheckAbort,
    ReadStoredHash,
    VerifySignature,
    ComputeHash,
    Synchronize(Seq<char>),
    Sleep(u64),
    Stop,
}

impl View for Action {
    type V = Command;

    open spec fn view(&self) -> Command {
        match self {
            Action::CheckAbort => Command::CheckAbort,
            Action::ReadStoredHash => Command::ReadStoredHash,
            Action::VerifySignature => Command::VerifySignature,
            Action::ComputeHash => Command::ComputeHash,
            Action::Synchronize(h) => Command::Synchronize(h@),
            Action::Sleep(ms) => Command::Sleep(*ms),
            Action::Stop => Command::Stop,
        }
    }
}

/// The mathematical state of the synchronizer.
pub struct SyncModel {
    pub phase: Phase,
    pub signature_check: bool,
    pub interval_ms: u64,
    /// The stored hash read in the current cycle.
    pub stored: Seq<char>,
    /// The feed hash computed in the current cycle.
    pub current: Seq<char>,
    /// Whether storage accepted the last synchronization, if one was attempted.
    pub last_commit: Option<bool>,
}

/// The hash the loop works with after a hash computation: the hash itself, or
/// the empty hash when the computation failed.
pub open spec fn computed_hash(r: Option<String>) -> Seq<char> {
    match r {
        Some(h) => h@,
        None => Seq::empty(),
    }
}

/// A synchronization is attempted when nothing was ever committed, or when the
/// feed hash differs from the committed one.
pub open spec fn needs_sync(stored: Seq<char>, current: Seq<char>) -> bool {
    stored.len() == 0 || stored != current
}

/// The action that the synchronizer asks for in a given state.
pub open spec fn pending(m: SyncModel) -> Command {
    match m.phase {
        Phase::Idle => Command::CheckAbort,
        Phase::AwaitStoredHash => Command::ReadStoredHash,
        Phase::AwaitSignature => Command::VerifySignature,
        Phase::AwaitHash => Command::ComputeHash,
        Phase::AwaitCommit => Command::Synchronize(m.current),
        Phase::Sleeping => Command::Sleep(m.interval_ms),
        Phase::Stopped => Command::Stop,
    }
}

/// One transition. An event that does not answer the pending action leaves the
/// state as it is.
pub open spec fn next(m: SyncModel, e: Event) -> SyncModel {
    match m.phase {
        Phase::Idle => match e {
            Event::AbortFlag(abort) => SyncModel {
                phase: if abort { Phase::Stopped } else { Phase::AwaitStoredHash },
                ..m
            },
            _ => m,
        },
        Phase::AwaitStoredHash => match e {
            Event::StoredHash(h) => SyncModel {
                phase: if m.signature_check { Phase::AwaitSignature } else { Phase::AwaitHash },
                stored: h@,
                ..m
            },
            _ => m,
        },
        Phase::AwaitSignature => match e {
            Event::SignatureChecked(_) => SyncModel { phase: Phase::AwaitHash, ..m },
            _ => m,
        },
        Phase::AwaitHash => match e {
            Event::HashComputed(r) => SyncModel {
                phase: if needs_sync(m.stored, computed_hash(r)) {
                    Phase::AwaitCommit
                } else {
                    Phase::Sleeping
                },
                current: computed_hash(r),
                ..m
            },
            _ => m,
        },
        Phase::AwaitCommit => match e {
            Event::Committed(accepted) => SyncModel {
                phase: Phase::Sleeping,
                last_commit: Some(accepted),
                ..m
            },
            _ => m,
        },
        Phase::Sleeping => match e {
            Event::Woke => SyncModel { phase: Phase::Idle, ..m },
            _ => m,
        },
        Phase::Stopped => m,
    }
}

/// The state reached after a sequence of events.
pub open spec fn run(m: SyncModel, events: Seq<Event>) -> SyncModel
    decreases events.len(),
{
    if events.len() == 0 {
        m
    } else {
        run(next(m, events[0]), events.drop_first())
    }
}

/// The feed synchronizer.
pub struct FeedSync {
    phase: Phase,
    signature_check: bool,
    interval_ms: u64,
    stored: String,
    current: String,
    last_commit: Option<bool>,
}

impl View for FeedSync {
    type V = SyncModel;

    closed spec fn view(&self) -> SyncModel {
        SyncModel {
            phase: self.phase,
            signature_check: self.signature_check,
            interval_ms: self.interval_ms,
            stored: self.stored@,
            current: self.current@,
            last_commit: self.last_commit,
        }
    }
}

impl FeedSync {
    /// A synchronizer for the given configuration. Without a feed configuration
    /// it is stopped from the start and never asks for any work.
    pub fn new(config: &Option<FeedConfig>) -> (r: FeedSync)
        ensures
            config is None ==> r@.phase == Phase::Stopped,
            config is Some ==> r@ == (SyncModel {
                phase: Phase::Idle,
                signature_check: config->0.signature_check,
                interval_ms: config->0.verify_interval_ms,
                stored: Seq::empty(),
                current: Seq::empty(),
                last_commit: None,
            }),
    {
        match config {
            Some(cfg) => FeedSync {
                phase: Phase::Idle,
                signature_check: cfg.signature_check,
                interval_ms: cfg.verify_interval_ms,
                stored: String::new(),
                current: String::new(),
                last_commit: None,
            },
            None => FeedSync {
                phase: Phase::Stopped,
                signature_check: false,
                interval_ms: 0,
                stored: String::new(),
                current: String::new(),
                last_commit: None,
            },
        }
    }

    pub fn phase(&self) -> (r: Phase)
        ensures
            r == self@.phase,
    {
        self.phase
    }

    /// Whether storage accepted the last synchronization; `None` before the
    /// first one.
    pub fn last_commit(&self) -> (r: Option<bool>)
        ensures
            r == self@.last_commit,
    {
        self.last_commit
    }

    /// The action the synchronizer waits on.
    pub fn pending_action(&self) -> (a: Action)
        ensures
            a@ == pending(self@),
    {
        match self.phase {
            Phase::Idle => Action::CheckAbort,
            Phase::AwaitStoredHash => Action::ReadStoredHash,
            Phase::AwaitSignature => Action::VerifySignature,
            Phase::AwaitHash => Action::ComputeHash,
            Phase::AwaitCommit => Action::Synchronize(self.current.clone()),
            Phase::Sleeping => Action::Sleep(self.interval_ms),
            Phase::Stopped => Action::Stop,
        }
    }

    /// Takes in the outcome of the pending action and returns the next action.
    pub fn step(&mut self, e: Event) -> (a: Action)
        ensures
            final(self)@ == next(old(self)@, e),
            a@ == pending(final(self)@),
    {
        match (self.phase, e) {
            (Phase::Idle, Event::AbortFlag(abort)) => {
                self.phase = if abort { Phase::Stopped } else { Phase::AwaitStoredHash };
            },
            (Phase::AwaitStoredHash, Event::StoredHash(h)) => {
                self.phase = if self.signature_check {
                    Phase::AwaitSignature
                } else {
                    Phase::AwaitHash
                };
                self.stored = h;
            },
            (Phase::AwaitSignature, Event::SignatureChecked(_)) => {
                self.phase = Phase::AwaitHash;
            },
            (Phase::AwaitHash, Event::HashComputed(r)) => {
                let h = hash_or_empty(r);
                self.phase = if sync_required(&self.stored, &h) {
                    Phase::AwaitCommit
                } else {
                    Phase::Sleeping
                };
                self.current = h;
            },
            (Phase::AwaitCommit, Event::Committed(accepted)) => {
                self.phase = Phase::Sleeping;
                self.last_commit = Some(accepted);
            },
            (Phase::Sleeping, Event::Woke) => {
                self.phase = Phase::Idle;
            },
            _ => {},
        }
        self.pending_action()
    }
}

/// The hash to work with after a hash computation: the empty hash on failure.
pub fn hash_or_empty(r: Option<String>) -> (h: String)
    ensures
        h@ == computed_hash(r),
{
    match r {
        Some(h) => h,
        None => String::new(),
    }
}

/// Whether a cycle that read `stored` from storage and computed `current` must
/// attempt a synchronization.
pub fn sync_required(stored: &String, current: &String) -> (r: bool)
    ensures
        r == needs_sync(stored@, current@),
{
    stored.as_str().is_empty() || !stored.eq(current)
}


/// The hash a cycle hands to storage, if it attempts a synchronization at all,
/// given the committed hash it read and the hash it computed.
pub open spec fn sync_call(stored: Seq<char>, current: Seq<char>) -> Option<Seq<char>> {
    if needs_sync(stored, current) {
        Some(current)
    } else {
        None
    }
}

/// The committed hash after a cycle: the synchronized hash when storage
/// accepted it, else the hash committed before.
pub open spec fn committed_after(stored: Seq<char>, current: Seq<char>, accepted: bool) -> Seq<char> {
    match sync_call(stored, current) {
        Some(h) => if accepted { h } else { stored },
        None => stored,
    }
}

/// The events of one cycle that is not aborted, up to the hash computation.
pub open spec fn cycle_events(
    signature_check: bool,
    stored: String,
    signature_valid: bool,
    hash: Option<String>,
) -> Seq<Event> {
    if signature_check {
        seq![
            Event::AbortFlag(false),
            Event::StoredHash(stored),
            Event::SignatureChecked(signature_valid),
            Event::HashComputed(hash),
        ]
    } else {
        seq![Event::AbortFlag(false), Event::StoredHash(stored), Event::HashComputed(hash)]
    }
}

/// Once stopped, the synchronizer stays stopped whatever happens.
pub proof fn lemma_stopped_is_terminal(m: SyncModel, events: Seq<Event>)
    requires
        m.phase == Phase::Stopped,
    ensures
        run(m, events) == m,
        pending(run(m, events)) == Command::Stop,
    decreases events.len(),
{
    if events.len() > 0 {
        lemma_stopped_is_terminal(next(m, events[0]), events.drop_first());
    }
}

/// Once the synchronizer reads a set abort flag, it asks for no further
/// synchronization: after any later events, the only action it asks for is to stop.
pub proof fn lemma_abort_ends_synchronization(m: SyncModel, events: Seq<Event>)
    requires
        m.phase == Phase::Idle,
    ensures
        forall|k: int|
            0 <= k <= events.len() ==> pending(
                #[trigger] run(next(m, Event::AbortFlag(true)), events.take(k)),
            ) == Command::Stop,
{
    assert forall|k: int| 0 <= k <= events.len() implies pending(
        #[trigger] run(next(m, Event::AbortFlag(true)), events.take(k)),
    ) == Command::Stop by {
        lemma_stopped_is_terminal(next(m, Event::AbortFlag(true)), events.take(k));
    }
}

/// A cycle that was not aborted asks storage to synchronize exactly when the
/// hash it read and the hash it computed call for it, with the computed hash, and
/// the outcome of the signature check does not change that.
pub proof fn lemma_cycle_decision(
    m: SyncModel,
    stored: String,
    signature_valid: bool,
    hash: Option<String>,
)
    requires
        m.phase == Phase::Idle,
    ensures
        ({
            let end = run(m, cycle_events(m.signature_check, stored, signature_valid, hash));
            &&& end.stored == stored@
            &&& end.current == computed_hash(hash)
            &&& pending(end) == match sync_call(stored@, computed_hash(hash)) {
                Some(h) => Command::Synchronize(h),
                None => Command::Sleep(m.interval_ms),
            }
        }),
{
    let evs = cycle_events(m.signature_check, stored, signature_valid, hash);
    let m1 = next(m, Event::AbortFlag(false));
    let m2 = next(m1, Event::StoredHash(stored));
    if m.signature_check {
        let m3 = next(m2, Event::SignatureChecked(signature_valid));
        let m4 = next(m3, Event::HashComputed(hash));
        assert(evs.drop_first().drop_first().drop_first().drop_first() =~= Seq::<Event>::empty());
        assert(run(m4, Seq::empty()) == m4);
        assert(run(m3, evs.drop_first().drop_first().drop_first()) == m4);
        assert(run(m2, evs.drop_first().drop_first()) == m4);
        assert(run(m1, evs.drop_first()) == m4);
    } else {
        let m3 = next(m2, Event::HashComputed(hash));
        assert(evs.drop_first().drop_first().drop_first() =~= Seq::<Event>::empty());
        assert(run(m3, Seq::empty()) == m3);
        assert(run(m2, evs.drop_first().drop_first()) == m3);
        assert(run(m1, evs.drop_first()) == m3);
    }
}

/// When nothing was ever committed, the cycle attempts a synchronization
/// whatever hash it computed, also when the computation failed.
pub proof fn lemma_empty_stored_forces_sync(m: SyncModel, hash: Option<String>)
    requires
        m.phase == Phase::AwaitHash,
        m.stored.len() == 0,
    ensures
        pending(next(m, Event::HashComputed(hash))) == Command::Synchronize(computed_hash(hash)),
{
}

/// A failed hash computation goes on as the empty hash: the loop neither stops
/// nor leaves the cycle, and comes back to the top of the next cycle.
pub proof fn lemma_hash_failure_continues(m: SyncModel, committed: bool)
    requires
        m.phase == Phase::AwaitHash,
    ensures
        ({
            let after = next(m, Event::HashComputed(None));
            &&& after.current.len() == 0
            &&& after.phase == Phase::AwaitCommit || after.phase == Phase::Sleeping
            &&& next(next(after, Event::Committed(committed)), Event::Woke).phase == Phase::Idle
        }),
{
}

/// An unchanged feed is synchronized at most once over two cycles, provided its
/// hash could be computed and the first synchronization was accepted.
pub proof fn lemma_unchanged_feed_syncs_once(stored: Seq<char>, h: Seq<char>)
    requires
        h.len() > 0,
    ensures
        sync_call(committed_after(stored, h, true), h) is None,
        (if sync_call(stored, h) is Some { 1int } else { 0int }) + (if sync_call(
            committed_after(stored, h, true),
            h,
        ) is Some {
            1int
        } else {
            0int
        }) <= 1,
{
}

/// A synchronization is never asked for with the hash that storage already
/// holds as committed, unless nothing was committed yet.
pub proof fn lemma_no_repeated_commit(stored: Seq<char>, current: Seq<char>)
    ensures
        sync_call(stored, current) is Some ==> sync_call(stored, current) == Some(current),
        stored.len() > 0 && sync_call(stored, current) is Some ==> current != stored,
{
}


/// Whether an event makes the synchronizer ask storage to synchronize.
pub open spec fn starts_sync(m: SyncModel, e: Event) -> bool {
    m.phase != Phase::AwaitCommit && next(m, e).phase == Phase::AwaitCommit
}

/// How many synchronizations a sequence of events leads to.
pub open spec fn sync_count(m: SyncModel, events: Seq<Event>) -> nat
    decreases events.len(),
{
    if events.len() == 0 {
        0
    } else {
        (if starts_sync(m, events[0]) {
            1nat
        } else {
            0nat
        }) + sync_count(next(m, events[0]), events.drop_first())
    }
}

/// Every reading of the abort flag in the events finds it set.
pub open spec fn abort_set_throughout(events: Seq<Event>) -> bool {
    forall|i: int| 0 <= i < events.len() ==> events[i] != Event::AbortFlag(false)
}

/// A cycle that passed its abort check and has not yet decided on synchronizing.
pub open spec fn deciding(m: SyncModel) -> bool {
    m.phase == Phase::AwaitStoredHash || m.phase == Phase::AwaitSignature || m.phase
        == Phase::AwaitHash
}

/// Once the abort flag is set, the synchronizer asks for at most the one
/// synchronization of the cycle in flight, and for none when that cycle has
/// already decided.
pub proof fn lemma_abort_bounds_syncs(m: SyncModel, events: Seq<Event>)
    requires
        abort_set_throughout(events),
    ensures
        sync_count(m, events) <= if deciding(m) {
            1nat
        } else {
            0nat
        },
    decreases events.len(),
{
    if events.len() > 0 {
        let rest = events.drop_first();
        assert(events[0] != Event::AbortFlag(false));
        assert forall|i: int| 0 <= i < rest.len() implies rest[i] != Event::AbortFlag(false) by {
            assert(rest[i] == events[i + 1]);
        }
        lemma_abort_bounds_syncs(next(m, events[0]), rest);
    }
}
} // verus!
