//! Local persistence: settings, transfer history, and the staging area for
//! incoming files awaiting user confirmation.
//!
//! A `Store` holds what the three state files hold (settings, history, the
//! pending queue) and applies each operation to it; the program around the
//! library reads the files into a `Store` and writes back what changed.
use vstd::prelude::*;
use crate::clock::{days_before, instant_le, instant_not_after, rfc3339_instant, spec_days_before, spec_rfc3339_instant};
use crate::error::TaildropError;
use crate::models::{
    HistoryRetention, PendingIncoming, Settings, TransferDirection,
    TransferRecord, TransferStatus, retention_days,
};
use crate::platform::{app_data_dir_text, has_verbatim_prefix, is_joined, join_path, new_id, now_rfc3339};
use crate::text::{ends_with, push_str, str_eq};

verus! {

/// Metadata sent as a small sidecar file alongside a real payload when both
/// sides run this tool, so the receiver can show "X sent you Y" instead of
/// just "a file arrived". Files from a plain `tailscale file cp` simply won't
/// have one, and that's handled gracefully.
#[derive(Debug)]
pub struct SidecarMeta {
    pub file_name: String,
    pub size: u64,
    pub sender_hostname: String,
    pub sender_dns_name: String,
    pub sent_at: String,
}

impl Clone for SidecarMeta {
    fn clone(&self) -> (r: Self)
        ensures
            r == *self,
    {
        SidecarMeta {
            file_name: self.file_name.clone(),
            size: self.size,
            sender_hostname: self.sender_hostname.clone(),
            sender_dns_name: self.sender_dns_name.clone(),
            sent_at: self.sent_at.clone(),
        }
    }
}

/// What `pending.json` holds: the queue and the sidecars not yet matched.
#[derive(Debug)]
pub struct PendingState {
    pub items: Vec<PendingIncoming>,
    pub unmatched_sidecars: Vec<SidecarMeta>,
}

/// What `history.json` holds: the records, newest first.
#[derive(Debug)]
pub struct HistoryState {
    pub records: Vec<TransferRecord>,
}

/// A file just found in the staging directory. `sidecar` holds the parsed
/// metadata of a sidecar file, when it could be read; it is ignored for
/// other files.
#[derive(Debug)]
pub struct DrainedFile {
    pub path: String,
    pub file_name: String,
    pub size: u64,
    pub sidecar: Option<SidecarMeta>,
}

impl Clone for DrainedFile {
    fn clone(&self) -> (r: Self)
        ensures
            r == *self,
    {
        DrainedFile {
            path: self.path.clone(),
            file_name: self.file_name.clone(),
            size: self.size,
            sidecar: match &self.sidecar {
                Some(m) => Some(m.clone()),
                None => None,
            },
        }
    }
}

/// A file in the staging directory and how many whole seconds ago it was
/// last written.
#[derive(Debug)]
pub struct StagedEntry {
    pub path: String,
    pub age_secs: u64,
}

pub struct Store {
    root: String,
    settings: Option<Settings>,
    history: Vec<TransferRecord>,
    pending: Vec<PendingIncoming>,
    sidecars: Vec<SidecarMeta>,
}

/// The state a `Store` stands for.
pub struct StoreContents {
    pub root: Seq<char>,
    /// The saved settings, if any were ever saved.
    pub settings: Option<Settings>,
    /// The transfer history, newest first.
    pub history: Seq<TransferRecord>,
    /// Files waiting for the user to accept or reject them, oldest first.
    pub pending: Seq<PendingIncoming>,
    /// Sidecars whose file has not arrived yet.
    pub sidecars: Seq<SidecarMeta>,
}

impl View for Store {
    type V = StoreContents;

    closed spec fn view(&self) -> StoreContents {
        StoreContents {
            root: self.root@,
            settings: self.settings,
            history: self.history@,
            pending: self.pending@,
            sidecars: self.sidecars@,
        }
    }
}

impl StoreContents {
    /// The contents after `settings` are saved.
    pub open spec fn saving(self, settings: Settings) -> StoreContents {
        StoreContents { settings: Some(settings), ..self }
    }

    /// `r` is what loading the settings gives: the saved settings, or the
    /// defaults of a fresh install, saving into a directory that is named.
    pub open spec fn loads_settings(self, r: Settings) -> bool {
        match self.settings {
            Some(saved) => r == saved,
            None => r == crate::models::default_settings_in(r.save_dir) && r.save_dir@.len() > 0,
        }
    }

    /// The contents after `record` is added as the newest history entry.
    pub open spec fn recording(self, record: TransferRecord) -> StoreContents {
        StoreContents { history: seq![record] + self.history, ..self }
    }
}

/// The suffix that marks a sidecar file.
pub open spec fn sidecar_suffix() -> Seq<char> {
    ".tdmeta.json"@
}

/// Whether a file of this name is a sidecar.
pub open spec fn is_sidecar_name(name: Seq<char>) -> bool {
    sidecar_suffix().is_suffix_of(name)
}

/// Copies of the elements of `v`.
pub fn clone_records(v: &Vec<TransferRecord>) -> (r: Vec<TransferRecord>)
    ensures
        r@ == v@,
{
    let mut r: Vec<TransferRecord> = Vec::new();
    for i in 0..v.len()
        invariant
            r@ == v@.take(i as int),
    {
        r.push(v[i].clone());
        assert(v@.take(i + 1) == v@.take(i as int).push(v@[i as int]));
    }
    assert(v@.take(v@.len() as int) == v@);
    r
}

/// Copies of the elements of `v`.
pub fn clone_pending(v: &Vec<PendingIncoming>) -> (r: Vec<PendingIncoming>)
    ensures
        r@ == v@,
{
    let mut r: Vec<PendingIncoming> = Vec::new();
    for i in 0..v.len()
        invariant
            r@ == v@.take(i as int),
    {
        r.push(v[i].clone());
        assert(v@.take(i + 1) == v@.take(i as int).push(v@[i as int]));
    }
    assert(v@.take(v@.len() as int) == v@);
    r
}

/// Copies of the elements of `v`.
pub fn clone_sidecars(v: &Vec<SidecarMeta>) -> (r: Vec<SidecarMeta>)
    ensures
        r@ == v@,
{
    let mut r: Vec<SidecarMeta> = Vec::new();
    for i in 0..v.len()
        invariant
            r@ == v@.take(i as int),
    {
        r.push(v[i].clone());
        assert(v@.take(i + 1) == v@.take(i as int).push(v@[i as int]));
    }
    assert(v@.take(v@.len() as int) == v@);
    r
}

// --- matching sidecars to files ------------------------------------------

/// `i` is the first sidecar in `sc` for a file named `name`.
pub open spec fn first_sidecar_at(sc: Seq<SidecarMeta>, name: Seq<char>, i: int) -> bool {
    &&& 0 <= i < sc.len()
    &&& sc[i].file_name@ == name
    &&& forall|j: int| 0 <= j < i ==> sc[j].file_name@ != name
}

/// Some sidecar in `sc` is for a file named `name`.
pub open spec fn has_sidecar_for(sc: Seq<SidecarMeta>, name: Seq<char>) -> bool {
    exists|i: int| 0 <= i < sc.len() && sc[i].file_name@ == name
}

/// `item` with the sender of the first sidecar for its file, which is
/// consumed; `item` unchanged when there is none.
pub open spec fn attach(item: PendingIncoming, sc: Seq<SidecarMeta>) -> (PendingIncoming, Seq<SidecarMeta>) {
    if exists|i: int| first_sidecar_at(sc, item.file_name@, i) {
        let i = choose|i: int| first_sidecar_at(sc, item.file_name@, i);
        (
            PendingIncoming {
                sender_hostname: Some(sc[i].sender_hostname),
                sender_dns_name: Some(sc[i].sender_dns_name),
                ..item
            },
            sc.remove(i),
        )
    } else {
        (item, sc)
    }
}

/// The sidecars after the sidecar files of `files` that could be read are
/// added, in order.
pub open spec fn absorb(sc: Seq<SidecarMeta>, files: Seq<DrainedFile>) -> Seq<SidecarMeta>
    decreases files.len(),
{
    if files.len() == 0 {
        sc
    } else {
        let before = absorb(sc, files.drop_last());
        let f = files.last();
        if is_sidecar_name(f.file_name@) && f.sidecar is Some {
            before.push(f.sidecar->0)
        } else {
            before
        }
    }
}

/// The files of `files` that are not sidecars, in order.
pub open spec fn payloads(files: Seq<DrainedFile>) -> Seq<DrainedFile>
    decreases files.len(),
{
    if files.len() == 0 {
        Seq::empty()
    } else {
        let before = payloads(files.drop_last());
        if is_sidecar_name(files.last().file_name@) {
            before
        } else {
            before.push(files.last())
        }
    }
}

/// The pending entry for a newly arrived file, before any sidecar is matched.
pub open spec fn arrival(f: DrainedFile, id: String, at: String) -> PendingIncoming {
    PendingIncoming {
        id,
        file_name: f.file_name,
        staged_path: f.path,
        size: f.size,
        sender_hostname: None,
        sender_dns_name: None,
        received_at: at,
    }
}

/// The entries for newly arrived files, each given its id and arrival time.
pub open spec fn arrivals(files: Seq<DrainedFile>, ids: Seq<String>, stamps: Seq<String>) -> Seq<PendingIncoming> {
    Seq::new(files.len(), |k: int| arrival(files[k], ids[k], stamps[k]))
}

/// Each of `items` in turn matched against the sidecars: the matched
/// entries, and the sidecars left.
pub open spec fn attach_each(sc: Seq<SidecarMeta>, items: Seq<PendingIncoming>) -> (Seq<PendingIncoming>, Seq<SidecarMeta>)
    decreases items.len(),
{
    if items.len() == 0 {
        (Seq::empty(), sc)
    } else {
        let (done, rest) = attach_each(sc, items.drop_last());
        let (it, left) = attach(items.last(), rest);
        (done.push(it), left)
    }
}

/// Another chance for every entry without a sender to find its sidecar, in
/// queue order: the entries after, and the sidecars left.
pub open spec fn rematch(items: Seq<PendingIncoming>, sc: Seq<SidecarMeta>) -> (Seq<PendingIncoming>, Seq<SidecarMeta>)
    decreases items.len(),
{
    if items.len() == 0 {
        (Seq::empty(), sc)
    } else {
        let (done, rest) = rematch(items.drop_last(), sc);
        let x = items.last();
        if x.sender_hostname is None {
            let (it, left) = attach(x, rest);
            (done.push(it), left)
        } else {
            (done.push(x), rest)
        }
    }
}

/// The store after the files `files` are taken in, the `k`-th file that is
/// not a sidecar getting id `ids[k]` and arrival time `stamps[k]`, and the
/// entries that were added.
pub open spec fn ingest(s: StoreContents, files: Seq<DrainedFile>, ids: Seq<String>, stamps: Seq<String>) -> (StoreContents, Seq<PendingIncoming>) {
    let sc1 = absorb(s.sidecars, files);
    let (added, sc2) = attach_each(sc1, arrivals(payloads(files), ids, stamps));
    let (items, sc3) = rematch(s.pending + added, sc2);
    (StoreContents { pending: items, sidecars: sc3, ..s }, added)
}

proof fn lemma_first_sidecar_unique(sc: Seq<SidecarMeta>, name: Seq<char>, i: int, j: int)
    requires
        first_sidecar_at(sc, name, i),
        first_sidecar_at(sc, name, j),
    ensures
        i == j,
{
    if i < j {
        assert(sc[i].file_name@ != name);
    } else if j < i {
        assert(sc[j].file_name@ != name);
    }
}

/// Matches `item` against the sidecars, consuming the one it takes.
fn attach_exec(sc: &mut Vec<SidecarMeta>, item: PendingIncoming) -> (r: PendingIncoming)
    ensures
        (r, final(sc)@) == attach(item, old(sc)@),
{
    let mut i: usize = 0;
    while i < sc.len()
        invariant
            0 <= i <= sc@.len(),
            sc@ == old(sc)@,
            forall|j: int| 0 <= j < i ==> sc@[j].file_name@ != item.file_name@,
        decreases sc@.len() - i,
    {
        if sc[i].file_name == item.file_name {
            proof {
                assert(first_sidecar_at(old(sc)@, item.file_name@, i as int));
                let k = choose|k: int| first_sidecar_at(old(sc)@, item.file_name@, k);
                lemma_first_sidecar_unique(old(sc)@, item.file_name@, i as int, k);
            }
            let m = sc.remove(i);
            return PendingIncoming {
                sender_hostname: Some(m.sender_hostname),
                sender_dns_name: Some(m.sender_dns_name),
                ..item
            };
        }
        i += 1;
    }
    assert(!exists|k: int| first_sidecar_at(old(sc)@, item.file_name@, k));
    item
}

impl Store {
    /// An empty store rooted at `root`, or at `tailwheel` under the
    /// platform's app-data directory when `root` is `None`; which directory
    /// that is depends on the machine, and nothing is stated of it.
    pub fn new(root: Option<String>) -> (r: Result<Store, TaildropError>)
        ensures
            match r {
                Ok(s) => {
                    &&& root is Some ==> s@.root == root->0@
                    &&& s@.settings is None
                    &&& s@.history.len() == 0
                    &&& s@.pending.len() == 0
                    &&& s@.sidecars.len() == 0
                },
                Err(e) => root is None && e == TaildropError::Io(e->Io_0) && e->Io_0@
                    == "no app data directory for this platform"@,
            },
    {
        let resolved = match root {
            Some(r) => r,
            None => match app_data_dir_text() {
                Some(d) => {
                    proof {
                        reveal_strlit("tailwheel");
                    }
                    join_path(&d, "tailwheel")
                },
                None => {
                    return Err(
                        TaildropError::Io("no app data directory for this platform".to_string()),
                    );
                },
            },
        };
        let store = Store { root: resolved, settings: None, history: Vec::new(), pending: Vec::new(), sidecars: Vec::new() };
        Ok(store)
    }

    /// A store holding what was read from its files.
    pub fn open(root: String, settings: Option<Settings>, history: HistoryState, pending: PendingState) -> (r: Store)
        ensures
            r@ == (StoreContents {
                root: root@,
                settings,
                history: history.records@,
                pending: pending.items@,
                sidecars: pending.unmatched_sidecars@,
            }),
    {
        Store {
            root,
            settings,
            history: history.records,
            pending: pending.items,
            sidecars: pending.unmatched_sidecars,
        }
    }

    /// The root directory.
    pub fn root(&self) -> (r: &str)
        ensures
            r@ == self@.root,
    {
        self.root.as_str()
    }

    /// The directory where incoming files wait for a decision.
    pub fn staging_dir(&self) -> (r: String)
        ensures
            !has_verbatim_prefix(self@.root) ==> is_joined(r@, self@.root, "staging"@),
    {
        proof {
            reveal_strlit("staging");
        }
        join_path(&self.root, "staging")
    }

    /// What the settings file should hold: the saved settings, if any.
    pub fn settings_state(&self) -> (r: Option<Settings>)
        ensures
            r == self@.settings,
    {
        match &self.settings {
            Some(s) => Some(s.clone()),
            None => None,
        }
    }

    /// What the history file should hold.
    pub fn history_state(&self) -> (r: HistoryState)
        ensures
            r.records@ == self@.history,
    {
        HistoryState { records: clone_records(&self.history) }
    }

    /// What the pending file should hold.
    pub fn pending_state(&self) -> (r: PendingState)
        ensures
            r.items@ == self@.pending,
            r.unmatched_sidecars@ == self@.sidecars,
    {
        PendingState { items: clone_pending(&self.pending), unmatched_sidecars: clone_sidecars(&self.sidecars) }
    }

    // --- settings -------------------------------------------------------

    /// The saved settings, or the defaults when none were ever saved.
    pub fn load_settings(&self) -> (r: Settings)
        ensures
            self@.loads_settings(r),
    {
        match &self.settings {
            Some(s) => s.clone(),
            None => Settings::default(),
        }
    }

    pub fn save_settings(&mut self, settings: &Settings)
        ensures
            final(self)@ == old(self)@.saving(*settings),
    {
        self.settings = Some(settings.clone());
    }

    // --- history --------------------------------------------------------

    /// The transfer history, newest first.
    pub fn list_history(&self) -> (r: Vec<TransferRecord>)
        ensures
            r@ == self@.history,
    {
        clone_records(&self.history)
    }

    /// Adds `record` as the newest entry.
    pub fn append_history(&mut self, record: TransferRecord)
        ensures
            final(self)@ == old(self)@.recording(record),
    {
        self.history.insert(0, record);
        assert(old(self)@.history.insert(0, record) == seq![record] + old(self)@.history);
    }

    pub fn clear_history(&mut self)
        ensures
            final(self)@ == (StoreContents { history: Seq::empty(), ..old(self)@ }),
    {
        self.history = Vec::new();
    }

    // --- pending incoming -----------------------------------------------

    /// The files waiting for a decision, oldest first.
    pub fn list_pending(&self) -> (r: Vec<PendingIncoming>)
        ensures
            r@ == self@.pending,
    {
        clone_pending(&self.pending)
    }

    /// Whether a file named `file_name` is a sidecar.
    pub fn is_sidecar_file(file_name: &str) -> (r: bool)
        ensures
            r == is_sidecar_name(file_name@),
    {
        ends_with(file_name, ".tdmeta.json")
    }

    /// The name under which the sidecar with identifier `id` is sent.
    pub fn sidecar_file_name(id: &str) -> (r: String)
        ensures
            r@ == id@ + sidecar_suffix(),
    {
        let mut r = String::new();
        push_str(&mut r, id);
        push_str(&mut r, ".tdmeta.json");
        r
    }

    /// The name of a new sidecar: a fresh random identifier with the sidecar
    /// suffix.
    pub fn new_sidecar_file_name() -> (r: String)
        ensures
            is_sidecar_name(r@),
            exists|id: Seq<char>| r@ == id + sidecar_suffix(),
    {
        let id = new_id();
        let r = Self::sidecar_file_name(id.as_str());
        assert(sidecar_suffix().is_suffix_of(r@)) by {
            assert(r@.subrange(r@.len() - sidecar_suffix().len(), r@.len() as int) =~= sidecar_suffix());
        }
        r
    }
}

/// How many of the names in `taken` are at least `n` characters long.
pub open spec fn count_at_least(taken: Seq<String>, n: nat) -> nat
    decreases taken.len(),
{
    if taken.len() == 0 {
        0
    } else {
        count_at_least(taken.drop_last(), n) + if taken.last()@.len() >= n { 1nat } else { 0nat }
    }
}

proof fn lemma_count_at_least_shrinks(taken: Seq<String>, n: nat, i: int)
    requires
        0 <= i < taken.len(),
        taken[i]@.len() == n,
    ensures
        count_at_least(taken, n + 1) < count_at_least(taken, n),
    decreases taken.len(),
{
    lemma_count_at_least_mono(taken.drop_last(), n);
    if i < taken.len() - 1 {
        assert(taken.drop_last()[i] == taken[i]);
        lemma_count_at_least_shrinks(taken.drop_last(), n, i);
    }
}

proof fn lemma_count_at_least_mono(taken: Seq<String>, n: nat)
    ensures
        count_at_least(taken, n + 1) <= count_at_least(taken, n),
    decreases taken.len(),
{
    if taken.len() > 0 {
        lemma_count_at_least_mono(taken.drop_last(), n);
    }
}

/// Some string of `taken` is `s`.
pub open spec fn id_in(taken: Seq<String>, s: Seq<char>) -> bool {
    exists|i: int| 0 <= i < taken.len() && taken[i]@ == s
}

fn id_listed(taken: &Vec<String>, s: &str) -> (r: bool)
    ensures
        r == id_in(taken@, s@),
{
    let mut i: usize = 0;
    while i < taken.len()
        invariant
            i <= taken@.len(),
            forall|j: int| 0 <= j < i ==> taken@[j]@ != s@,
        decreases taken@.len() - i,
    {
        if str_eq(taken[i].as_str(), s) {
            return true;
        }
        i += 1;
    }
    false
}

/// A fresh random identifier that none of `taken` is. Should the random
/// draw hit one of them, it is lengthened by `-` until it is free.
fn fresh_id(taken: &Vec<String>) -> (r: String)
    ensures
        !id_in(taken@, r@),
{
    let mut id = new_id();
    while id_listed(taken, id.as_str())
        decreases count_at_least(taken@, id@.len()),
    {
        proof {
            let i = choose|i: int| 0 <= i < taken@.len() && taken@[i]@ == id@;
            lemma_count_at_least_shrinks(taken@, id@.len(), i);
        }
        crate::text::push_char(&mut id, '-');
    }
    id
}

/// The ids of the entries of `p` are pairwise different.
pub open spec fn ids_distinct(p: Seq<PendingIncoming>) -> bool {
    forall|a: int, b: int| 0 <= a < b < p.len() ==> (#[trigger] p[a]).id@ != (#[trigger] p[b]).id@
}

/// `ids` are pairwise different, and none is the id of an entry of `p`.
pub open spec fn fresh_ids(ids: Seq<String>, p: Seq<PendingIncoming>) -> bool {
    &&& forall|a: int, b: int| 0 <= a < b < ids.len() ==> (#[trigger] ids[a])@ != (#[trigger] ids[b])@
    &&& forall|k: int, i: int| 0 <= k < ids.len() && 0 <= i < p.len() ==> (#[trigger] ids[k])@ != (#[trigger] p[i]).id@
}

impl Store {
    /// Takes in freshly drained staging files: sidecar metadata is matched
    /// against a real file by name (in either order of arrival) and consumed;
    /// every other file becomes a pending entry, the `k`-th of them with id
    /// `ids[k]` and arrival time `stamps[k]`. Returns the new entries.
    pub fn ingest_with(&mut self, files: Vec<DrainedFile>, ids: Vec<String>, stamps: Vec<String>) -> (r: Vec<PendingIncoming>)
        requires
            ids@.len() == payloads(files@).len(),
            stamps@.len() == payloads(files@).len(),
        ensures
            (final(self)@, r@) == ingest(old(self)@, files@, ids@, stamps@),
    {
        let ghost s0 = self@;
        let mut found: Vec<DrainedFile> = Vec::new();
        let mut i: usize = 0;
        while i < files.len()
            invariant
                i <= files@.len(),
                self@ == (StoreContents { sidecars: absorb(s0.sidecars, files@.take(i as int)), ..s0 }),
                found@ == payloads(files@.take(i as int)),
            decreases files@.len() - i,
        {
            let f = &files[i];
            assert(files@.take(i + 1).drop_last() == files@.take(i as int));
            assert(files@.take(i + 1).last() == files@[i as int]);
            if Store::is_sidecar_file(f.file_name.as_str()) {
                match &f.sidecar {
                    Some(m) => {
                        self.sidecars.push(m.clone());
                    },
                    None => {},
                }
            } else {
                found.push(f.clone());
            }
            i += 1;
        }
        assert(files@.take(files@.len() as int) == files@);

        let ghost arr = arrivals(found@, ids@, stamps@);
        let ghost sc1 = self@.sidecars;
        let mut added: Vec<PendingIncoming> = Vec::new();
        let mut k: usize = 0;
        while k < found.len()
            invariant
                k <= found@.len(),
                found@ == payloads(files@),
                ids@.len() == found@.len(),
                stamps@.len() == found@.len(),
                arr == arrivals(found@, ids@, stamps@),
                (added@, self@.sidecars) == attach_each(sc1, arr.take(k as int)),
                self@ == (StoreContents { pending: s0.pending + added@, sidecars: self@.sidecars, ..s0 }),
            decreases found@.len() - k,
        {
            let f = &found[k];
            let item = PendingIncoming {
                id: ids[k].clone(),
                file_name: f.file_name.clone(),
                staged_path: f.path.clone(),
                size: f.size,
                sender_hostname: None,
                sender_dns_name: None,
                received_at: stamps[k].clone(),
            };
            assert(item == arr[k as int]);
            assert(arr.take(k + 1).drop_last() == arr.take(k as int));
            assert(arr.take(k + 1).last() == arr[k as int]);
            let it = attach_exec(&mut self.sidecars, item);
            let ghost before = added@;
            self.pending.push(it.clone());
            added.push(it);
            assert(s0.pending + added@ == (s0.pending + before).push(it));
            k += 1;
        }
        assert(arr.take(arr.len() as int) == arr);

        let ghost all = self@.pending;
        let ghost sc2 = self@.sidecars;
        let mut items: Vec<PendingIncoming> = Vec::new();
        std::mem::swap(&mut items, &mut self.pending);
        let mut j: usize = 0;
        while j < items.len()
            invariant
                j <= items@.len(),
                items@ == all,
                (self@.pending, self@.sidecars) == rematch(all.take(j as int), sc2),
                self@ == (StoreContents { pending: self@.pending, sidecars: self@.sidecars, ..s0 }),
            decreases items@.len() - j,
        {
            assert(all.take(j + 1).drop_last() == all.take(j as int));
            assert(all.take(j + 1).last() == all[j as int]);
            let x = items[j].clone();
            if x.sender_hostname.is_none() {
                let it = attach_exec(&mut self.sidecars, x);
                self.pending.push(it);
            } else {
                self.pending.push(x);
            }
            j += 1;
        }
        assert(all.take(all.len() as int) == all);
        added
    }

    /// Takes in freshly drained staging files (see `ingest_with`), each new
    /// entry getting a fresh random id and the current time. Returns the new
    /// entries.
    pub fn ingest_drained_files(&mut self, new_files: Vec<DrainedFile>) -> (r: Vec<PendingIncoming>)
        ensures
            exists|ids: Seq<String>, stamps: Seq<String>|
                {
                    &&& ids.len() == payloads(new_files@).len()
                    &&& stamps.len() == payloads(new_files@).len()
                    &&& fresh_ids(ids, old(self)@.pending)
                    &&& (final(self)@, r@) == #[trigger] ingest(old(self)@, new_files@, ids, stamps)
                },
    {
        let mut n: usize = 0;
        let mut i: usize = 0;
        while i < new_files.len()
            invariant
                i <= new_files@.len(),
                n == payloads(new_files@.take(i as int)).len(),
                n <= i,
            decreases new_files@.len() - i,
        {
            assert(new_files@.take(i + 1).drop_last() == new_files@.take(i as int));
            if !Store::is_sidecar_file(new_files[i].file_name.as_str()) {
                n += 1;
            }
            i += 1;
        }
        assert(new_files@.take(new_files@.len() as int) == new_files@);
        let mut used: Vec<String> = Vec::new();
        let mut j: usize = 0;
        while j < self.pending.len()
            invariant
                j <= self@.pending.len(),
                self@ == old(self)@,
                used@.len() == j,
                forall|i: int| 0 <= i < j ==> #[trigger] used@[i]@ == self@.pending[i].id@,
            decreases self@.pending.len() - j,
        {
            used.push(self.pending[j].id.clone());
            j += 1;
        }
        let ghost p0 = self@.pending;
        let mut ids: Vec<String> = Vec::new();
        let mut stamps: Vec<String> = Vec::new();
        let mut k: usize = 0;
        while k < n
            invariant
                k <= n,
                ids@.len() == k,
                stamps@.len() == k,
                used@.len() == p0.len() + k,
                forall|i: int| 0 <= i < p0.len() ==> #[trigger] used@[i]@ == p0[i].id@,
                forall|i: int| 0 <= i < k ==> #[trigger] used@[p0.len() + i]@ == ids@[i]@,
                fresh_ids(ids@, p0),
            decreases n - k,
        {
            let id = fresh_id(&used);
            proof {
                assert forall|i: int| 0 <= i < p0.len() implies id@ != (#[trigger] p0[i]).id@ by {
                    assert(used@[i]@ == p0[i].id@);
                }
                assert forall|i: int| 0 <= i < k implies id@ != (#[trigger] ids@[i])@ by {
                    assert(used@[p0.len() + i]@ == ids@[i]@);
                }
            }
            used.push(id.clone());
            ids.push(id);
            stamps.push(now_rfc3339());
            k += 1;
        }
        let ghost gi = ids@;
        let ghost gs = stamps@;
        let r = self.ingest_with(new_files, ids, stamps);
        assert((self@, r@) == ingest(old(self)@, new_files@, gi, gs));
        r
    }
}

// --- leaving the queue ---------------------------------------------------

/// `i` is the first entry of `p` with id `id`.
pub open spec fn first_pending_at(p: Seq<PendingIncoming>, id: Seq<char>, i: int) -> bool {
    &&& 0 <= i < p.len()
    &&& p[i].id@ == id
    &&& forall|j: int| 0 <= j < i ==> p[j].id@ != id
}

/// The history record for a received file that left the queue with
/// `status`, saved at `saved_path`, at time `timestamp`.
pub open spec fn is_received_record(
    r: TransferRecord,
    item: PendingIncoming,
    status: TransferStatus,
    saved_path: Option<String>,
    timestamp: String,
) -> bool {
    &&& r.id == item.id
    &&& r.direction == TransferDirection::Received
    &&& r.peer_hostname@ == (match item.sender_hostname {
        Some(h) => h@,
        None => "unknown"@,
    })
    &&& r.peer_dns_name == item.sender_dns_name
    &&& r.file_name == item.file_name
    &&& r.size == item.size
    &&& r.timestamp == timestamp
    &&& r.status == status
    &&& r.saved_path == saved_path
    &&& r.error is None
    &&& r.batch_id is None
}

/// The history record for a received file that left the queue.
pub fn received_record(
    item: PendingIncoming,
    status: TransferStatus,
    saved_path: Option<String>,
    timestamp: String,
) -> (r: TransferRecord)
    ensures
        is_received_record(r, item, status, saved_path, timestamp),
{
    let peer_hostname = match &item.sender_hostname {
        Some(h) => h.clone(),
        None => "unknown".to_string(),
    };
    TransferRecord {
        id: item.id,
        direction: TransferDirection::Received,
        peer_hostname,
        peer_dns_name: item.sender_dns_name,
        file_name: item.file_name,
        size: item.size,
        timestamp,
        status,
        saved_path,
        error: None,
        batch_id: None,
    }
}

impl Store {
    /// Removes the pending entry with id `id` from the queue and hands it
    /// back; `NotFound` when there is none.
    pub fn take_pending(&mut self, id: &str) -> (r: Result<PendingIncoming, TaildropError>)
        ensures
            match r {
                Ok(item) => exists|i: int|
                    {
                        &&& first_pending_at(old(self)@.pending, id@, i)
                        &&& item == old(self)@.pending[i]
                        &&& final(self)@ == (StoreContents {
                            pending: old(self)@.pending.remove(i),
                            ..old(self)@
                        })
                    },
                Err(e) => {
                    &&& forall|i: int| 0 <= i < old(self)@.pending.len() ==> old(self)@.pending[i].id@ != id@
                    &&& e is NotFound
                    &&& e->NotFound_0@ == "pending item "@ + id@
                    &&& final(self)@ == old(self)@
                },
            },
    {
        let mut i: usize = 0;
        while i < self.pending.len()
            invariant
                i <= self@.pending.len(),
                self@ == old(self)@,
                forall|j: int| 0 <= j < i ==> self@.pending[j].id@ != id@,
            decreases self@.pending.len() - i,
        {
            if str_eq(self.pending[i].id.as_str(), id) {
                assert(first_pending_at(old(self)@.pending, id@, i as int));
                let item = self.pending.remove(i);
                return Ok(item);
            }
            i += 1;
        }
        let mut m = String::new();
        push_str(&mut m, "pending item ");
        push_str(&mut m, id);
        Err(TaildropError::NotFound(m))
    }

    /// Records that `item` was accepted and saved at `saved_path`, as the
    /// newest history entry, stamped with the current time.
    pub fn record_accepted(&mut self, item: PendingIncoming, saved_path: String) -> (r: TransferRecord)
        ensures
            is_received_record(r, item, TransferStatus::Completed, Some(saved_path), r.timestamp),
            final(self)@ == old(self)@.recording(r),
    {
        let r = received_record(item, TransferStatus::Completed, Some(saved_path), now_rfc3339());
        self.append_history(r.clone());
        r
    }

    /// Records that `item` was rejected, as the newest history entry, stamped
    /// with the current time.
    pub fn record_rejected(&mut self, item: PendingIncoming) -> (r: TransferRecord)
        ensures
            is_received_record(r, item, TransferStatus::Rejected, None, r.timestamp),
            final(self)@ == old(self)@.recording(r),
    {
        let r = received_record(item, TransferStatus::Rejected, None, now_rfc3339());
        self.append_history(r.clone());
        r
    }
}

// --- pruning -------------------------------------------------------------

/// Whether a record stays when history older than `cutoff` is dropped:
/// records whose timestamp cannot be read are kept rather than silently lost.
pub open spec fn kept_after(r: TransferRecord, cutoff: (i64, u32)) -> bool {
    match spec_rfc3339_instant(r.timestamp@) {
        Some(t) => instant_le(cutoff, t),
        None => true,
    }
}

/// `r` was made no more than `days` days before `now`, or its time cannot
/// be read.
pub open spec fn young_at(r: TransferRecord, now: (i64, u32), days: i64) -> bool {
    match spec_rfc3339_instant(r.timestamp@) {
        Some(t) => now.0 - 86_400 * days < t.0 || (now.0 - 86_400 * days == t.0 && now.1 <= t.1),
        None => true,
    }
}

/// The records of `h` that stay, in order.
pub open spec fn prune(h: Seq<TransferRecord>, cutoff: (i64, u32)) -> Seq<TransferRecord>
    decreases h.len(),
{
    if h.len() == 0 {
        h
    } else if kept_after(h.last(), cutoff) {
        prune(h.drop_last(), cutoff).push(h.last())
    } else {
        prune(h.drop_last(), cutoff)
    }
}

/// The history after pruning with `retention` at time `now`.
pub open spec fn pruned_history(h: Seq<TransferRecord>, retention: HistoryRetention, now: (i64, u32)) -> Seq<TransferRecord> {
    match retention_days(retention) {
        None => h,
        Some(d) => match spec_days_before(now, d) {
            Some(cutoff) => prune(h, cutoff),
            None => h,
        },
    }
}

/// The records of `records` that stay when history older than `cutoff` is
/// dropped.
pub fn prune_records(records: Vec<TransferRecord>, cutoff: (i64, u32)) -> (r: Vec<TransferRecord>)
    ensures
        r@ == prune(records@, cutoff),
{
    let mut r: Vec<TransferRecord> = Vec::new();
    let mut i: usize = 0;
    while i < records.len()
        invariant
            i <= records@.len(),
            r@ == prune(records@.take(i as int), cutoff),
        decreases records@.len() - i,
    {
        assert(records@.take(i + 1).drop_last() == records@.take(i as int));
        assert(records@.take(i + 1).last() == records@[i as int]);
        let keep = match rfc3339_instant(records[i].timestamp.as_str()) {
            Some(t) => instant_not_after(cutoff, t),
            None => true,
        };
        if keep {
            r.push(records[i].clone());
        }
        i += 1;
    }
    assert(records@.take(records@.len() as int) == records@);
    r
}

impl Store {
    /// Deletes history entries older than `retention` allows, as of `now`
    /// (Unix seconds and nanoseconds). Nothing changes for
    /// `HistoryRetention::Never`. Returns whether any entry was deleted.
    pub fn prune_history(&mut self, retention: HistoryRetention, now: (i64, u32)) -> (r: bool)
        ensures
            final(self)@ == (StoreContents {
                history: pruned_history(old(self)@.history, retention, now),
                ..old(self)@
            }),
            r == (final(self)@.history.len() != old(self)@.history.len()),
            forall|d: i64, k: int|
                retention_days(retention) == Some(d) && now.1 < 1_000_000_000 && 0 <= k < old(self)@.history.len()
                    && #[trigger] young_at(old(self)@.history[k], now, d) ==> final(self)@.history.contains(
                    old(self)@.history[k],
                ),
    {
        let max_age_days = match retention.max_age_days() {
            Some(d) => d,
            None => {
                return false;
            },
        };
        let cutoff = match days_before(now, max_age_days) {
            Some(c) => c,
            None => {
                return false;
            },
        };
        let before = self.history.len();
        let ghost h0 = self@.history;
        let mut records: Vec<TransferRecord> = Vec::new();
        std::mem::swap(&mut records, &mut self.history);
        self.history = prune_records(records, cutoff);
        proof {
            assert forall|d: i64, k: int|
                retention_days(retention) == Some(d) && now.1 < 1_000_000_000 && 0 <= k < h0.len() && #[trigger] young_at(
                    #[trigger] h0[k],
                    now,
                    d,
                ) implies self@.history.contains(h0[k]) by {
                crate::laws::law_prune_keeps_young_records(h0, cutoff, k);
            }
        }
        self.history.len() != before
    }
}

// --- what the staging poll picks up ----------------------------------------

/// How long a staged file must sit unchanged before it is picked up, so a
/// file still being written is not taken in half-done.
pub const STAGING_SETTLE_SECS: u64 = 2;

/// Some pending entry is staged at `path`.
pub open spec fn claimed(pending: Seq<PendingIncoming>, path: Seq<char>) -> bool {
    exists|i: int| 0 <= i < pending.len() && pending[i].staged_path@ == path
}

/// The paths of `entries` that are settled and not yet in the queue, in order.
pub open spec fn unclaimed(pending: Seq<PendingIncoming>, entries: Seq<StagedEntry>) -> Seq<String>
    decreases entries.len(),
{
    if entries.len() == 0 {
        Seq::empty()
    } else {
        let before = unclaimed(pending, entries.drop_last());
        let e = entries.last();
        if e.age_secs >= STAGING_SETTLE_SECS && !claimed(pending, e.path@) {
            before.push(e.path)
        } else {
            before
        }
    }
}

impl Store {
    /// Of the files found in the staging directory, those that a staging
    /// poll should take in: settled, and not already pending.
    pub fn unclaimed_staging_files(&self, entries: &Vec<StagedEntry>) -> (r: Vec<String>)
        ensures
            r@ == unclaimed(self@.pending, entries@),
    {
        let mut r: Vec<String> = Vec::new();
        let mut i: usize = 0;
        while i < entries.len()
            invariant
                i <= entries@.len(),
                r@ == unclaimed(self@.pending, entries@.take(i as int)),
            decreases entries@.len() - i,
        {
            assert(entries@.take(i + 1).drop_last() == entries@.take(i as int));
            assert(entries@.take(i + 1).last() == entries@[i as int]);
            let e = &entries[i];
            if e.age_secs >= STAGING_SETTLE_SECS {
                let mut j: usize = 0;
                let mut found = false;
                while j < self.pending.len()
                    invariant
                        j <= self@.pending.len(),
                        found == exists|k: int| 0 <= k < j && self@.pending[k].staged_path@ == e.path@,
                    decreases self@.pending.len() - j,
                {
                    if str_eq(self.pending[j].staged_path.as_str(), e.path.as_str()) {
                        found = true;
                    }
                    j += 1;
                }
                if !found {
                    r.push(e.path.clone());
                }
            }
            i += 1;
        }
        assert(entries@.take(entries@.len() as int) == entries@);
        r
    }
}

// --- facts about matching --------------------------------------------------

/// `b` is entry `a`, with possibly other sender fields.
pub open spec fn same_entry(a: PendingIncoming, b: PendingIncoming) -> bool {
    &&& b.id == a.id
    &&& b.file_name == a.file_name
    &&& b.staged_path == a.staged_path
    &&& b.size == a.size
    &&& b.received_at == a.received_at
}

/// When some sidecar is for `name`, there is a first one.
pub proof fn lemma_first_sidecar_exists(sc: Seq<SidecarMeta>, name: Seq<char>, j: int)
    requires
        0 <= j < sc.len(),
        sc[j].file_name@ == name,
    ensures
        exists|i: int| first_sidecar_at(sc, name, i),
    decreases j,
{
    if exists|k: int| 0 <= k < j && sc[k].file_name@ == name {
        let k = choose|k: int| 0 <= k < j && sc[k].file_name@ == name;
        lemma_first_sidecar_exists(sc, name, k);
    } else {
        assert(first_sidecar_at(sc, name, j));
    }
}

/// Removing a sidecar cannot bring one for `name` into being.
pub proof fn lemma_no_sidecar_after_remove(sc: Seq<SidecarMeta>, name: Seq<char>, i: int)
    requires
        0 <= i < sc.len(),
        !has_sidecar_for(sc, name),
    ensures
        !has_sidecar_for(sc.remove(i), name),
{
    assert forall|k: int| 0 <= k < sc.remove(i).len() implies sc.remove(i)[k].file_name@ != name by {
        if k < i {
            assert(sc.remove(i)[k] == sc[k]);
        } else {
            assert(sc.remove(i)[k] == sc[k + 1]);
        }
    }
}

/// Matching an entry only fills in its sender, and leaves it without one
/// only when no sidecar is for its file; the sidecars left are those before,
/// or those before less one.
pub proof fn lemma_attach(item: PendingIncoming, sc: Seq<SidecarMeta>)
    ensures
        same_entry(item, attach(item, sc).0),
        attach(item, sc).0.sender_hostname is None ==> (item.sender_hostname is None && !has_sidecar_for(
            sc,
            item.file_name@,
        ) && attach(item, sc).1 == sc),
        item.sender_hostname is Some ==> attach(item, sc).0.sender_hostname is Some,
        attach(item, sc).1 == sc || exists|i: int| 0 <= i < sc.len() && attach(item, sc).1 == sc.remove(i),
{
    if exists|i: int| first_sidecar_at(sc, item.file_name@, i) {
        let i = choose|i: int| first_sidecar_at(sc, item.file_name@, i);
        assert(attach(item, sc).1 == sc.remove(i));
    } else {
        if has_sidecar_for(sc, item.file_name@) {
            let j = choose|j: int| 0 <= j < sc.len() && sc[j].file_name@ == item.file_name@;
            lemma_first_sidecar_exists(sc, item.file_name@, j);
        }
    }
}

/// After the rematch pass: entries correspond one to one, nothing but
/// senders changes, known senders stay, and no entry is left without a
/// sender while a sidecar for its file remains.
pub proof fn lemma_rematch(items: Seq<PendingIncoming>, sc: Seq<SidecarMeta>)
    ensures
        rematch(items, sc).0.len() == items.len(),
        forall|k: int| 0 <= k < items.len() ==> same_entry(items[k], #[trigger] rematch(items, sc).0[k]),
        forall|k: int|
            0 <= k < items.len() && (#[trigger] items[k]).sender_hostname is Some ==> rematch(items, sc).0[k]
                == items[k],
        forall|k: int|
            0 <= k < items.len() && (#[trigger] rematch(items, sc).0[k]).sender_hostname is None
                ==> !has_sidecar_for(rematch(items, sc).1, rematch(items, sc).0[k].file_name@),
    decreases items.len(),
{
    if items.len() > 0 {
        let (done, rest) = rematch(items.drop_last(), sc);
        lemma_rematch(items.drop_last(), sc);
        let x = items.last();
        let out = rematch(items, sc).0;
        let left = rematch(items, sc).1;
        if x.sender_hostname is None {
            lemma_attach(x, rest);
        }
        assert(out == done.push(rematch(items, sc).0.last()));
        assert forall|k: int| 0 <= k < items.len() implies same_entry(items[k], #[trigger] out[k]) by {
            if k < items.len() - 1 {
                assert(items[k] == items.drop_last()[k]);
            }
        }
        assert forall|k: int|
            0 <= k < items.len() && (#[trigger] items[k]).sender_hostname is Some implies out[k] == items[k] by {
            if k < items.len() - 1 {
                assert(items[k] == items.drop_last()[k]);
            }
        }
        assert forall|k: int|
            0 <= k < items.len() && (#[trigger] out[k]).sender_hostname is None implies !has_sidecar_for(
                left,
                out[k].file_name@,
            ) by {
            if k < items.len() - 1 {
                assert(out[k] == done[k]);
                assert(!has_sidecar_for(rest, done[k].file_name@));
                if left != rest {
                    let i = choose|i: int| 0 <= i < rest.len() && left == rest.remove(i);
                    lemma_no_sidecar_after_remove(rest, done[k].file_name@, i);
                }
            }
        }
    }
}

/// Matching each new entry in turn: one result per entry, each the same
/// entry with possibly a sender.
pub proof fn lemma_attach_each(sc: Seq<SidecarMeta>, items: Seq<PendingIncoming>)
    ensures
        attach_each(sc, items).0.len() == items.len(),
        forall|k: int| 0 <= k < items.len() ==> same_entry(items[k], #[trigger] attach_each(sc, items).0[k]),
    decreases items.len(),
{
    if items.len() > 0 {
        let (done, rest) = attach_each(sc, items.drop_last());
        lemma_attach_each(sc, items.drop_last());
        lemma_attach(items.last(), rest);
        assert forall|k: int| 0 <= k < items.len() implies same_entry(
            items[k],
            #[trigger] attach_each(sc, items).0[k],
        ) by {
            if k < items.len() - 1 {
                assert(items[k] == items.drop_last()[k]);
            }
        }
    }
}

/// No file that `payloads` keeps is a sidecar.
pub proof fn lemma_payloads_not_sidecars(files: Seq<DrainedFile>)
    ensures
        forall|k: int| 0 <= k < payloads(files).len() ==> !is_sidecar_name(#[trigger] payloads(files)[k].file_name@),
    decreases files.len(),
{
    if files.len() > 0 {
        lemma_payloads_not_sidecars(files.drop_last());
    }
}

} // verus!
