use vstd::prelude::*;

verus! {

/// The lifecycle state of a scan.
#[derive(Clone, Copy, Debug, PartialEq, Eq, Structural)]
pub enum ScanStatus {
    /// Created and at rest: no execution was asked for.
    Stored,
    /// An execution was asked of the scanner.
    Requested,
    Running,
    Succeeded,
    Failed,
    Stopped,
}

/// A scan that ended and cannot run again.
pub open spec fn is_terminal(s: ScanStatus) -> bool {
    s == ScanStatus::Succeeded || s == ScanStatus::Failed || s == ScanStatus::Stopped
}

/// A scan whose execution was asked for and has not ended.
pub open spec fn is_active(s: ScanStatus) -> bool {
    s == ScanStatus::Requested || s == ScanStatus::Running
}

/// The transitions that the scanner may report for a scan.
pub open spec fn can_advance(from: ScanStatus, to: ScanStatus) -> bool {
    (from == ScanStatus::Requested && to == ScanStatus::Running) || (is_active(from)
        && is_terminal(to))
}

#[derive(Clone, Copy, Debug, PartialEq, Eq, Structural)]
pub enum ScanError {
    /// No scan has this id.
    NotFound,
    /// A scan with this id exists already.
    AlreadyExists,
    /// The scan's status does not allow the request.
    InvalidTransition,
}

/// What a start request leads to.
#[derive(Clone, Copy, Debug, PartialEq, Eq, Structural)]
pub enum StartOutcome {
    /// The scanner is to start an execution of the scan.
    Launch,
    /// An execution is on its way already; nothing new is started.
    AlreadyStarted(ScanStatus),
}

/// What a delete request leads to. Either way the scan is gone.
#[derive(Clone, Copy, Debug, PartialEq, Eq, Structural)]
pub enum DeleteOutcome {
    Removed,
    /// The scan was active: the scanner is to stop it.
    StopRequested,
}

#[derive(Debug)]
pub struct Scan {
    pub id: String,
    pub target: String,
    pub status: ScanStatus,
    /// Findings, in the order they were reported.
    pub results: Vec<String>,
}

/// The mathematical form of a scan, without its id.
pub struct ScanEntry {
    pub target: Seq<char>,
    pub status: ScanStatus,
    pub results: Seq<Seq<char>>,
}

pub open spec fn strings_view(v: Seq<String>) -> Seq<Seq<char>> {
    v.map_values(|r: String| r@)
}

impl Scan {
    pub open spec fn entry(&self) -> ScanEntry {
        ScanEntry { target: self.target@, status: self.status, results: strings_view(self.results@) }
    }
}

/// The scans known to the controller, each id at most once.
pub struct ScanTable {
    scans: Vec<Scan>,
}

impl ScanTable {
    pub closed spec fn has_at(&self, id: Seq<char>, i: int) -> bool {
        0 <= i < self.scans@.len() && self.scans@[i].id@ == id
    }

    /// Each id stands at most once.
    pub closed spec fn wf(&self) -> bool {
        forall|i: int, j: int|
            0 <= i < self.scans@.len() && 0 <= j < self.scans@.len() && i != j
                ==> self.scans@[i].id@ != self.scans@[j].id@
    }

    /// The scans by id: target and status.
    pub closed spec fn view(&self) -> Map<Seq<char>, ScanEntry> {
        Map::new(
            |id: Seq<char>| exists|i: int| self.has_at(id, i),
            |id: Seq<char>|
                {
                    let i = choose|i: int| self.has_at(id, i);
                    self.scans@[i].entry()
                },
        )
    }

    /// The scan at a position is what the view holds at its id.
    proof fn lemma_entry(&self, i: int)
        requires
            self.wf(),
            0 <= i < self.scans@.len(),
        ensures
            self.view().contains_key(self.scans@[i].id@),
            self.view()[self.scans@[i].id@] == self.scans@[i].entry(),
    {
        let id = self.scans@[i].id@;
        assert(self.has_at(id, i));
        let j = choose|j: int| self.has_at(id, j);
        assert(j == i);
    }

    pub fn new() -> (r: ScanTable)
        ensures
            r.wf(),
            r.view() == Map::<Seq<char>, ScanEntry>::empty(),
    {
        let r = ScanTable { scans: Vec::new() };
        assert(r.view() =~= Map::<Seq<char>, ScanEntry>::empty());
        r
    }

    /// The position of the scan with this id.
    fn find(&self, id: &String) -> (r: Option<usize>)
        requires
            self.wf(),
        ensures
            match r {
                Some(i) => self.has_at(id@, i as int),
                None => !self.view().contains_key(id@),
            },
    {
        let mut i: usize = 0;
        while i < self.scans.len()
            invariant
                i <= self.scans@.len(),
                forall|k: int| 0 <= k < i ==> self.scans@[k].id@ != id@,
            decreases self.scans@.len() - i,
        {
            if self.scans[i].id.eq(id) {
                return Some(i);
            }
            i = i + 1;
        }
        None
    }

    /// The status of a scan.
    pub fn status(&self, id: &String) -> (r: Result<ScanStatus, ScanError>)
        requires
            self.wf(),
        ensures
            self.view().contains_key(id@) ==> r == Ok::<ScanStatus, ScanError>(self.view()[id@].status),
            !self.view().contains_key(id@) ==> r == Err::<ScanStatus, ScanError>(ScanError::NotFound),
    {
        match self.find(id) {
            Some(i) => {
                proof {
                    self.lemma_entry(i as int);
                }
                Ok(self.scans[i].status)
            },
            None => Err(ScanError::NotFound),
        }
    }
}


impl ScanTable {
    /// Changing the scan at one position, but not its id, changes the view at
    /// that id alone.
    proof fn lemma_change_at(pre: ScanTable, post: ScanTable, i: int)
        requires
            pre.wf(),
            0 <= i < pre.scans@.len(),
            post.scans@.len() == pre.scans@.len(),
            forall|j: int| 0 <= j < pre.scans@.len() ==> post.scans@[j].id@ == pre.scans@[j].id@,
            forall|j: int|
                0 <= j < pre.scans@.len() && j != i ==> post.scans@[j].entry()
                    == pre.scans@[j].entry(),
        ensures
            post.wf(),
            post.view() == pre.view().insert(pre.scans@[i].id@, post.scans@[i].entry()),
    {
        let id = pre.scans@[i].id@;
        let expect = pre.view().insert(id, post.scans@[i].entry());
        assert forall|k: Seq<char>| #![auto] post.view().contains_key(k) == expect.contains_key(k) by {
            if expect.contains_key(k) {
                if k != id {
                    let j = choose|j: int| pre.has_at(k, j);
                    assert(post.has_at(k, j));
                } else {
                    assert(post.has_at(k, i));
                }
            }
            if post.view().contains_key(k) {
                let j = choose|j: int| post.has_at(k, j);
                assert(pre.has_at(k, j));
            }
        }
        assert forall|k: Seq<char>| #![auto] post.view().contains_key(k) implies post.view()[k]
            == expect[k] by {
            let j = choose|j: int| post.has_at(k, j);
            post.lemma_entry(j);
            pre.lemma_entry(j);
        }
        assert(post.view() =~= expect);
    }

    fn set_status(&mut self, i: usize, status: ScanStatus)
        requires
            old(self).wf(),
            i < old(self).scans@.len(),
        ensures
            final(self).wf(),
            final(self).view() == old(self).view().insert(
                old(self).scans@[i as int].id@,
                ScanEntry { status, ..old(self).scans@[i as int].entry() },
            ),
    {
        let ghost pre = *self;
        self.scans[i].status = status;
        proof {
            ScanTable::lemma_change_at(pre, *self, i as int);
        }
    }

    /// The findings of a scan.
    pub fn results(&self, id: &String) -> (r: Result<Vec<String>, ScanError>)
        requires
            self.wf(),
        ensures
            self.view().contains_key(id@) ==> r is Ok && strings_view(r->Ok_0@)
                == self.view()[id@].results,
            !self.view().contains_key(id@) ==> r == Err::<Vec<String>, ScanError>(
                ScanError::NotFound,
            ),
    {
        match self.find(id) {
            Some(i) => {
                proof {
                    self.lemma_entry(i as int);
                }
                let src = &self.scans[i].results;
                let mut out: Vec<String> = Vec::new();
                let mut k: usize = 0;
                while k < src.len()
                    invariant
                        k <= src@.len(),
                        out@.len() == k,
                        forall|j: int| 0 <= j < k ==> #[trigger] out@[j]@ == src@[j]@,
                    decreases src@.len() - k,
                {
                    out.push(src[k].clone());
                    k = k + 1;
                }
                assert(strings_view(out@) =~= strings_view(src@));
                Ok(out)
            },
            None => Err(ScanError::NotFound),
        }
    }

    /// Appends findings to a scan, after those it holds. A scan at rest has no
    /// execution and takes none.
    pub fn append_results(&mut self, id: &String, findings: Vec<String>) -> (r: Result<(), ScanError>)
        requires
            old(self).wf(),
        ensures
            final(self).wf(),
            !old(self).view().contains_key(id@) ==> r == Err::<(), ScanError>(ScanError::NotFound)
                && final(self).view() == old(self).view(),
            old(self).view().contains_key(id@) && old(self).view()[id@].status == ScanStatus::Stored
                ==> r == Err::<(), ScanError>(ScanError::InvalidTransition) && final(self).view()
                == old(self).view(),
            old(self).view().contains_key(id@) && old(self).view()[id@].status != ScanStatus::Stored
                ==> r == Ok::<(), ScanError>(()) && final(self).view() == old(self).view().insert(
                id@,
                ScanEntry {
                    results: old(self).view()[id@].results + strings_view(findings@),
                    ..old(self).view()[id@]
                },
            ),
    {
        match self.find(id) {
            None => Err(ScanError::NotFound),
            Some(i) => {
                proof {
                    self.lemma_entry(i as int);
                }
                if self.scans[i].status == ScanStatus::Stored {
                    return Err(ScanError::InvalidTransition);
                }
                let ghost pre = *self;
                let mut more = findings;
                self.scans[i].results.append(&mut more);
                proof {
                    assert(strings_view(self.scans@[i as int].results@) =~= strings_view(
                        pre.scans@[i as int].results@,
                    ) + strings_view(findings@));
                    ScanTable::lemma_change_at(pre, *self, i as int);
                }
                Ok(())
            },
        }
    }

    /// Records a new scan, at rest.
    pub fn create(&mut self, id: String, target: String) -> (r: Result<(), ScanError>)
        requires
            old(self).wf(),
        ensures
            final(self).wf(),
            old(self).view().contains_key(id@) ==> r == Err::<(), ScanError>(ScanError::AlreadyExists)
                && final(self).view() == old(self).view(),
            !old(self).view().contains_key(id@) ==> r == Ok::<(), ScanError>(())
                && final(self).view() == old(self).view().insert(
                    id@,
                    ScanEntry { target: target@, status: ScanStatus::Stored, results: Seq::empty() },
                ),
    {
        if self.find(&id).is_some() {
            return Err(ScanError::AlreadyExists);
        }
        let ghost pre = *self;
        let ghost key = id@;
        let ghost tgt = target@;
        self.scans.push(Scan { id, target, status: ScanStatus::Stored, results: Vec::new() });
        let ghost n = pre.scans@.len() as int;
        assert forall|j: int| 0 <= j < n implies self.scans@[j] == pre.scans@[j] by {}
        assert(self.scans@[n].id@ == key);
        assert(strings_view(self.scans@[n].results@) =~= Seq::<Seq<char>>::empty());
        assert forall|j: int| 0 <= j < n implies pre.scans@[j].id@ != key by {
            pre.lemma_entry(j);
        }
        let ghost expect = pre.view().insert(
            key,
            ScanEntry { target: tgt, status: ScanStatus::Stored, results: Seq::empty() },
        );
        assert forall|k: Seq<char>| #![auto] self.view().contains_key(k) == expect.contains_key(k) by {
            if expect.contains_key(k) {
                if k != key {
                    let j = choose|j: int| pre.has_at(k, j);
                    assert(self.has_at(k, j));
                } else {
                    assert(self.has_at(k, n));
                }
            }
            if self.view().contains_key(k) {
                let j = choose|j: int| self.has_at(k, j);
                if j < n {
                    assert(pre.has_at(k, j));
                }
            }
        }
        assert forall|k: Seq<char>| #![auto] self.view().contains_key(k) implies self.view()[k] == expect[k] by {
            let j = choose|j: int| self.has_at(k, j);
            self.lemma_entry(j);
            if j < n {
                pre.lemma_entry(j);
            }
        }
        assert(self.view() =~= expect);
        Ok(())
    }
}

/// A start request on the scans by id: the scans afterwards, and the answer.
pub open spec fn start_model(
    scans: Map<Seq<char>, ScanEntry>,
    id: Seq<char>,
) -> (Map<Seq<char>, ScanEntry>, Result<StartOutcome, ScanError>) {
    if !scans.contains_key(id) {
        (scans, Err(ScanError::NotFound))
    } else {
        let status = scans[id].status;
        if status == ScanStatus::Stored {
            (
                scans.insert(id, ScanEntry { status: ScanStatus::Requested, ..scans[id] }),
                Ok(StartOutcome::Launch),
            )
        } else if is_active(status) {
            (scans, Ok(StartOutcome::AlreadyStarted(status)))
        } else {
            (scans, Err(ScanError::InvalidTransition))
        }
    }
}

/// Starting the same scan twice launches at most one execution: the second
/// start never launches and changes nothing. When the scan is active already,
/// both starts change nothing and give the same answer, with its status.
pub proof fn lemma_start_idempotent(scans: Map<Seq<char>, ScanEntry>, id: Seq<char>)
    ensures
        ({
            let (after_first, first) = start_model(scans, id);
            let (after_second, second) = start_model(after_first, id);
            &&& second != Ok::<StartOutcome, ScanError>(StartOutcome::Launch)
            &&& after_second == after_first
            &&& scans.contains_key(id) && is_active(scans[id].status) ==> {
                &&& first == second
                &&& first == Ok::<StartOutcome, ScanError>(StartOutcome::AlreadyStarted(scans[id].status))
                &&& after_first == scans
            }
        }),
{
    let (after_first, first) = start_model(scans, id);
    if scans.contains_key(id) && scans[id].status == ScanStatus::Stored {
        assert(after_first[id].status == ScanStatus::Requested);
    }
}

impl ScanTable {
    /// Asks for an execution of a scan. A scan at rest is launched once; a scan
    /// whose execution is on its way is left as it is, so a second start of the
    /// same id never launches a second execution; an ended scan is refused.
    pub fn start(&mut self, id: &String) -> (r: Result<StartOutcome, ScanError>)
        requires
            old(self).wf(),
        ensures
            final(self).wf(),
            (final(self).view(), r) == start_model(old(self).view(), id@),
            !old(self).view().contains_key(id@) ==> r == Err::<StartOutcome, ScanError>(ScanError::NotFound)
                && final(self).view() == old(self).view(),
            old(self).view().contains_key(id@) ==> {
                let status = old(self).view()[id@].status;
                &&& status == ScanStatus::Stored ==> r == Ok::<StartOutcome, ScanError>(StartOutcome::Launch)
                    && final(self).view() == old(self).view().insert(
                        id@,
                        ScanEntry { status: ScanStatus::Requested, ..old(self).view()[id@] },
                    )
                &&& is_active(status) ==> r == Ok::<StartOutcome, ScanError>(
                    StartOutcome::AlreadyStarted(status),
                ) && final(self).view() == old(self).view()
                &&& is_terminal(status) ==> r == Err::<StartOutcome, ScanError>(
                    ScanError::InvalidTransition,
                ) && final(self).view() == old(self).view()
            },
    {
        match self.find(id) {
            None => Err(ScanError::NotFound),
            Some(i) => {
                proof {
                    self.lemma_entry(i as int);
                }
                let status = self.scans[i].status;
                match status {
                    ScanStatus::Stored => {
                        self.set_status(i, ScanStatus::Requested);
                        Ok(StartOutcome::Launch)
                    },
                    ScanStatus::Requested | ScanStatus::Running => Ok(
                        StartOutcome::AlreadyStarted(status),
                    ),
                    _ => Err(ScanError::InvalidTransition),
                }
            },
        }
    }

    /// Mirrors a status that the scanner reported. Only the transitions of
    /// `can_advance` are taken; any other report is refused.
    pub fn update_status(&mut self, id: &String, status: ScanStatus) -> (r: Result<(), ScanError>)
        requires
            old(self).wf(),
        ensures
            final(self).wf(),
            !old(self).view().contains_key(id@) ==> r == Err::<(), ScanError>(ScanError::NotFound)
                && final(self).view() == old(self).view(),
            old(self).view().contains_key(id@) && can_advance(old(self).view()[id@].status, status) ==> r
                == Ok::<(), ScanError>(()) && final(self).view() == old(self).view().insert(
                id@,
                ScanEntry { status, ..old(self).view()[id@] },
            ),
            old(self).view().contains_key(id@) && !can_advance(old(self).view()[id@].status, status)
                ==> r == Err::<(), ScanError>(ScanError::InvalidTransition) && final(self).view()
                == old(self).view(),
    {
        match self.find(id) {
            None => Err(ScanError::NotFound),
            Some(i) => {
                proof {
                    self.lemma_entry(i as int);
                }
                let from = self.scans[i].status;
                if advances(from, status) {
                    self.set_status(i, status);
                    Ok(())
                } else {
                    Err(ScanError::InvalidTransition)
                }
            },
        }
    }

    /// Deletes a scan. An active scan is deleted too, and the outcome says that
    /// the scanner is to stop it first.
    pub fn delete(&mut self, id: &String) -> (r: Result<DeleteOutcome, ScanError>)
        requires
            old(self).wf(),
        ensures
            final(self).wf(),
            !old(self).view().contains_key(id@) ==> r == Err::<DeleteOutcome, ScanError>(
                ScanError::NotFound,
            ) && final(self).view() == old(self).view(),
            old(self).view().contains_key(id@) ==> final(self).view() == old(self).view().remove(id@)
                && r == Ok::<DeleteOutcome, ScanError>(
                if is_active(old(self).view()[id@].status) {
                    DeleteOutcome::StopRequested
                } else {
                    DeleteOutcome::Removed
                },
            ),
    {
        match self.find(id) {
            None => Err(ScanError::NotFound),
            Some(i) => {
                proof {
                    self.lemma_entry(i as int);
                }
                let ghost pre = *self;
                let ghost key = id@;
                let removed = self.scans.remove(i);
                let ghost n = pre.scans@.len() as int;
                assert forall|j: int| 0 <= j < n - 1 implies self.scans@[j] == (if j < i {
                    pre.scans@[j]
                } else {
                    pre.scans@[j + 1]
                }) by {}
                let ghost expect = pre.view().remove(key);
                assert forall|k: Seq<char>| #![auto] self.view().contains_key(k) == expect.contains_key(k) by {
                    if expect.contains_key(k) {
                        let j = choose|j: int| pre.has_at(k, j);
                        assert(j != i);
                        if j < i {
                            assert(self.has_at(k, j));
                        } else {
                            assert(self.has_at(k, j - 1));
                        }
                    }
                    if self.view().contains_key(k) {
                        let j = choose|j: int| self.has_at(k, j);
                        if j < i {
                            assert(pre.has_at(k, j));
                        } else {
                            assert(pre.has_at(k, j + 1));
                        }
                    }
                }
                assert forall|k: Seq<char>| #![auto] self.view().contains_key(k) implies self.view()[k]
                    == expect[k] by {
                    let j = choose|j: int| self.has_at(k, j);
                    self.lemma_entry(j);
                    if j < i {
                        pre.lemma_entry(j);
                    } else {
                        pre.lemma_entry(j + 1);
                    }
                }
                assert(self.view() =~= expect);
                match removed.status {
                    ScanStatus::Requested | ScanStatus::Running => Ok(DeleteOutcome::StopRequested),
                    _ => Ok(DeleteOutcome::Removed),
                }
            },
        }
    }
}

/// Whether the scanner may report `to` for a scan in status `from`.
pub fn advances(from: ScanStatus, to: ScanStatus) -> (r: bool)
    ensures
        r == can_advance(from, to),
{
    match (from, to) {
        (ScanStatus::Requested, ScanStatus::Running) => true,
        (ScanStatus::Requested, ScanStatus::Succeeded)
        | (ScanStatus::Requested, ScanStatus::Failed)
        | (ScanStatus::Requested, ScanStatus::Stopped)
        | (ScanStatus::Running, ScanStatus::Succeeded)
        | (ScanStatus::Running, ScanStatus::Failed)
        | (ScanStatus::Running, ScanStatus::Stopped) => true,
        _ => false,
    }
}

impl ScanTable {
    /// The target of a scan.
    pub fn target(&self, id: &String) -> (r: Result<String, ScanError>)
        requires
            self.wf(),
        ensures
            self.view().contains_key(id@) ==> r is Ok && r->Ok_0@ == self.view()[id@].target,
            !self.view().contains_key(id@) ==> r == Err::<String, ScanError>(ScanError::NotFound),
    {
        match self.find(id) {
            Some(i) => {
                proof {
                    self.lemma_entry(i as int);
                }
                Ok(self.scans[i].target.clone())
            },
            None => Err(ScanError::NotFound),
        }
    }
}
} // verus!
