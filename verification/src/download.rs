//! The bounded concurrent download pipeline.
//!
//! The pipeline takes the items to download, announces their count, and
//! drives each through the same protocol: skip the fetch when the
//! destination already exists; otherwise fetch, stream the body into the
//! destination's `.part` sibling, atomically rename it onto the destination,
//! and only then record the path in the descriptor store. At most
//! [`MAX_IN_FLIGHT`] items are active at once; per-item failures conclude
//! the item and the pipeline continues.
//!
//! The surrounding process performs the requests, writes and renames; the
//! [`Pipeline`] here decides every step, keeps the account of what happened,
//! and guarantees that a store row only ever names a file that is completely
//! in place.

use vstd::prelude::*;
use vstd::pervasive::unreached;
use vstd::pervasive::VecAdditionalExecFns;

use crate::config::Config;
use crate::dstore::has_pack_key;
use crate::dstore::has_pdsc_key;
use crate::dstore::lemma_pack_index_unique;
use crate::dstore::lemma_pdsc_index_unique;
use crate::dstore::pack_index;
use crate::dstore::pack_keys_unique;
use crate::dstore::pack_row_at;
use crate::dstore::pdsc_index;
use crate::dstore::pdsc_keys_unique;
use crate::dstore::pdsc_row_at;
use crate::dstore::pack_key;
use crate::dstore::pdsc_key;
use crate::dstore::ref_key;
use crate::dstore::spec_set_pack_path;
use crate::dstore::spec_set_pdsc_path;
use crate::dstore::spec_upsert_pack;
use crate::dstore::spec_upsert_pdsc;
use crate::dstore::DescriptorStore;
use crate::dstore::StoredPack;
use crate::dstore::StoredPdsc;
use crate::refs::Package;
use crate::refs::PdscRef;
use crate::dstore::DownloadedPdsc;
use crate::dstore::InsertedPack;
use crate::dstore::InsertedPdsc;
use crate::dstore::InstalledPack;
use crate::error::UpdateError;
use crate::uri::pack_dest_chars;
use crate::uri::pack_dest_string;
use crate::uri::pack_uri_chars;
use crate::uri::pack_uri_string;
use crate::uri::parse_uri;
use crate::uri::pdsc_dest_chars;
use crate::uri::pdsc_dest_string;
use crate::uri::pdsc_uri_chars;
use crate::uri::pdsc_uri_string;
use crate::uri::uri_of;
use crate::uri::uri_well_formed;

verus! {

/// How many downloads may be in flight at once. The workload is I/O-bound
/// against a small number of origins; this cap keeps the origins courteous
/// while saturating typical links.
pub const MAX_IN_FLIGHT: usize = 32;

/// A consumer of progress reports. The pipeline announces the file count
/// once, hands out a per-file observer before a file concludes, and fires
/// `complete` exactly once per file, success or failure.
pub trait DownloadProgress: Sized {
    fn size(&self, files: usize);

    fn progress(&self, bytes: usize);

    fn complete(&self);

    fn for_file(&self, file: &str) -> Self;
}

impl DownloadProgress for () {
    fn size(&self, _files: usize) {
    }

    fn progress(&self, _bytes: usize) {
    }

    fn complete(&self) {
    }

    fn for_file(&self, _file: &str) -> Self {
    }
}

/// One report, as the pipeline's own account keeps it: the announcement of
/// the file count, or the conclusion of one file.
pub enum ProgressEvent {
    Size(usize),
    FileDone,
}

/// Whether some recorded file path has exactly these characters.
pub open spec fn files_contain(s: Seq<String>, p: Seq<char>) -> bool {
    exists|i: int| 0 <= i < s.len() && s[i]@ == p
}

/// The record of the complete files under the pack store, as the process
/// driving the pipeline maintains it: seeded from the directory, grown by
/// every atomic rename. Transient `.part` files are deliberately not
/// recorded; they are harmless and overwritten on retry.
pub struct StoreDir {
    pub files: Vec<String>,
}

impl StoreDir {
    /// An empty record, for a pack store that holds no files yet.
    pub fn new() -> (r: StoreDir)
        ensures
            r.files@.len() == 0,
    {
        StoreDir { files: Vec::new() }
    }

    /// Seeds the record with a file found on disk.
    pub fn note_file(&mut self, p: String)
        ensures
            final(self).files@ == old(self).files@.push(p),
    {
        self.files.push(p);
    }

    /// Whether the record holds a file at this path.
    pub fn contains(&self, p: &String) -> (r: bool)
        ensures
            r == files_contain(self.files@, p@),
    {
        let n = self.files.len();
        let mut i: usize = 0;
        while i < n
            invariant
                i <= n,
                n == self.files@.len(),
                forall|j: int| 0 <= j < i ==> self.files@[j]@ != p@,
            decreases n - i,
        {
            if self.files[i] == *p {
                return true;
            }
            i = i + 1;
        }
        false
    }
}

/// A grown file record still holds everything it held.
pub proof fn lemma_files_contain_push(s: Seq<String>, x: String, p: Seq<char>)
    requires
        files_contain(s, p),
    ensures
        files_contain(s.push(x), p),
{
    let i = choose|i: int| 0 <= i < s.len() && s[i]@ == p;
    assert(s.push(x)[i]@ == p);
}

/// One item the pipeline downloads: the stored row snapshot of a descriptor
/// or an archive.
pub enum DownloadItem {
    Pdsc(InsertedPdsc),
    Pack(InsertedPack),
}

impl Clone for DownloadItem {
    fn clone(&self) -> (r: Self)
        ensures
            r == *self,
    {
        match self {
            DownloadItem::Pdsc(p) => DownloadItem::Pdsc(p.clone()),
            DownloadItem::Pack(p) => DownloadItem::Pack(p.clone()),
        }
    }
}

impl DownloadItem {
    /// The row key the item was stored under.
    pub open spec fn key(self) -> (Seq<char>, Seq<char>, Seq<char>) {
        match self {
            DownloadItem::Pdsc(p) => p.key(),
            DownloadItem::Pack(p) => p.key(),
        }
    }

    /// The characters of the URI the item is fetched from.
    pub open spec fn uri_chars(self) -> Seq<char> {
        match self {
            DownloadItem::Pdsc(p) => pdsc_uri_chars(p.url@, p.vendor@, p.name@, p.version_full@),
            DownloadItem::Pack(p) => pack_uri_chars(p.url@, p.vendor@, p.name@, p.version_full@),
        }
    }

    /// The characters of the item's destination under the pack store.
    pub open spec fn dest_chars(self, store_root: Seq<char>) -> Seq<char> {
        match self {
            DownloadItem::Pdsc(p) => pdsc_dest_chars(
                store_root,
                p.vendor@,
                p.name@,
                p.version_full@,
            ),
            DownloadItem::Pack(p) => pack_dest_chars(
                store_root,
                p.vendor@,
                p.name@,
                p.version_full@,
            ),
        }
    }

    /// The URI to fetch the item from, parsed by the HTTP layer: exactly the
    /// URI of the item's own characters. Fails, as a network-level error,
    /// exactly when the characters do not form a URI.
    pub fn into_uri(&self, _config: &Config) -> (r: Result<hyper::Uri, UpdateError>)
        ensures
            r is Ok <==> uri_well_formed(self.uri_chars()),
            r is Ok ==> r->Ok_0 == uri_of(self.uri_chars()),
            r is Err ==> r == Err::<hyper::Uri, UpdateError>(UpdateError::Network),
    {
        let s = match self {
            DownloadItem::Pdsc(p) => pdsc_uri_string(
                p.url.as_str(),
                p.vendor.as_str(),
                p.name.as_str(),
                p.version_full.as_str(),
            ),
            DownloadItem::Pack(p) => pack_uri_string(
                p.url.as_str(),
                p.vendor.as_str(),
                p.name.as_str(),
                p.version_full.as_str(),
            ),
        };
        match parse_uri(s.as_str()) {
            Ok(u) => Ok(u),
            Err(_) => Err(UpdateError::Network),
        }
    }

    /// The destination path of the item under the pack store.
    pub fn into_fd(&self, config: &Config) -> (r: String)
        ensures
            r@ == self.dest_chars(config.pack_store@),
    {
        match self {
            DownloadItem::Pdsc(p) => pdsc_dest_string(
                config.pack_store.as_str(),
                p.vendor.as_str(),
                p.name.as_str(),
                p.version_full.as_str(),
            ),
            DownloadItem::Pack(p) => pack_dest_string(
                config.pack_store.as_str(),
                p.vendor.as_str(),
                p.name.as_str(),
                p.version_full.as_str(),
            ),
        }
    }
}

/// Where one download stands.
pub enum TaskPhase {
    /// Not started.
    Pending,
    /// The request is being issued or its body driven.
    Fetching,
    /// The body is fully in the `.part` sibling of the destination.
    PartWritten,
    /// The destination file is atomically in place (renamed, or found to
    /// exist before any fetch).
    Renamed,
    /// The store row names the destination; the item is done.
    Succeeded,
    /// The item failed; its error was reported and the pipeline went on.
    Failed,
}

impl TaskPhase {
    /// Started and not yet concluded: counted against the in-flight cap.
    pub open spec fn is_active(self) -> bool {
        self is Fetching || self is PartWritten || self is Renamed
    }

    /// Succeeded or failed: exactly one `complete` report was fired.
    pub open spec fn is_concluded(self) -> bool {
        self is Succeeded || self is Failed
    }
}

/// How many phases satisfy the predicate.
pub open spec fn count_where(s: Seq<TaskPhase>, f: spec_fn(TaskPhase) -> bool) -> int
    decreases s.len(),
{
    if s.len() == 0 {
        0int
    } else {
        count_where(s.drop_last(), f) + if f(s.last()) {
            1int
        } else {
            0int
        }
    }
}

/// The count lies between zero and the length.
pub proof fn lemma_count_where_bounds(s: Seq<TaskPhase>, f: spec_fn(TaskPhase) -> bool)
    ensures
        0 <= count_where(s, f) <= s.len(),
    decreases s.len(),
{
    if s.len() > 0 {
        lemma_count_where_bounds(s.drop_last(), f);
    }
}

/// Replacing one phase moves the count by the difference at that index.
pub proof fn lemma_count_where_update(
    s: Seq<TaskPhase>,
    f: spec_fn(TaskPhase) -> bool,
    i: int,
    v: TaskPhase,
)
    requires
        0 <= i < s.len(),
    ensures
        count_where(s.update(i, v), f) == count_where(s, f) - (if f(s[i]) {
            1int
        } else {
            0int
        }) + (if f(v) {
            1int
        } else {
            0int
        }),
    decreases s.len(),
{
    if i == s.len() - 1 {
        assert(s.update(i, v).drop_last() =~= s.drop_last());
        assert(s.update(i, v).last() == v);
    } else {
        assert(s.update(i, v).drop_last() =~= s.drop_last().update(i, v));
        assert(s.update(i, v).last() == s.last());
        lemma_count_where_update(s.drop_last(), f, i, v);
    }
}

/// When every phase satisfies the predicate, the count is the length.
pub proof fn lemma_count_where_all(s: Seq<TaskPhase>, f: spec_fn(TaskPhase) -> bool)
    requires
        forall|i: int| 0 <= i < s.len() ==> f(s[i]),
    ensures
        count_where(s, f) == s.len(),
    decreases s.len(),
{
    if s.len() > 0 {
        lemma_count_where_all(s.drop_last(), f);
    }
}

/// When no phase satisfies the predicate, the count is zero.
pub proof fn lemma_count_where_none(s: Seq<TaskPhase>, f: spec_fn(TaskPhase) -> bool)
    requires
        forall|i: int| 0 <= i < s.len() ==> !f(s[i]),
    ensures
        count_where(s, f) == 0,
    decreases s.len(),
{
    if s.len() > 0 {
        lemma_count_where_none(s.drop_last(), f);
    }
}

/// The phases that count against the in-flight cap.
pub open spec fn count_active(s: Seq<TaskPhase>) -> int {
    count_where(s, |p: TaskPhase| p.is_active())
}

/// The phases whose `complete` report has fired.
pub open spec fn count_concluded(s: Seq<TaskPhase>) -> int {
    count_where(s, |p: TaskPhase| p.is_concluded())
}

/// A phase that satisfies the predicate makes the count positive.
pub proof fn lemma_count_where_at(s: Seq<TaskPhase>, f: spec_fn(TaskPhase) -> bool, i: int)
    requires
        0 <= i < s.len(),
        f(s[i]),
    ensures
        count_where(s, f) >= 1,
    decreases s.len(),
{
    lemma_count_where_bounds(s.drop_last(), f);
    if i < s.len() - 1 {
        lemma_count_where_at(s.drop_last(), f, i);
    }
}

/// A phase that misses the predicate keeps the count under the length.
pub proof fn lemma_count_where_missing(s: Seq<TaskPhase>, f: spec_fn(TaskPhase) -> bool, i: int)
    requires
        0 <= i < s.len(),
        !f(s[i]),
    ensures
        count_where(s, f) <= s.len() - 1,
    decreases s.len(),
{
    lemma_count_where_bounds(s.drop_last(), f);
    if i < s.len() - 1 {
        lemma_count_where_missing(s.drop_last(), f, i);
    }
}

/// No row of either table names a path without the file being among the
/// complete files of the pack store. This is the crash-safety tie between
/// the database and the disk: whenever it holds, stopping the process — at
/// any moment, a half-written `.part` included — cannot leave a row
/// pointing at a missing or incomplete file. Every pipeline operation
/// preserves it.
pub open spec fn rows_files_consistent(store: DescriptorStore, fs: StoreDir) -> bool {
    &&& forall|i: int|
        0 <= i < store.pdscs@.len() ==> match #[trigger] store.pdscs@[i].path {
            Some(p) => files_contain(fs.files@, p@),
            None => true,
        }
    &&& forall|i: int|
        0 <= i < store.packs@.len() ==> match #[trigger] store.packs@[i].path {
            Some(p) => files_contain(fs.files@, p@),
            None => true,
        }
}

/// Atomicity, descriptor side: under the row-file tie — which every
/// pipeline operation requires and re-establishes, so it holds at every
/// observable moment of a run — a descriptor row that names a path names a
/// file that is completely in place. Stopping the process at any point,
/// with a `.part` half-written included, can therefore never leave a row
/// pointing at a missing or partial file.
pub proof fn lemma_pdsc_row_names_complete_file(
    store: DescriptorStore,
    fs: StoreDir,
    i: int,
    p: String,
)
    requires
        rows_files_consistent(store, fs),
        0 <= i < store.pdscs@.len(),
        store.pdscs@[i].path == Some(p),
    ensures
        files_contain(fs.files@, p@),
{
}

/// Atomicity, archive side: the twin of
/// [`lemma_pdsc_row_names_complete_file`].
pub proof fn lemma_pack_row_names_complete_file(
    store: DescriptorStore,
    fs: StoreDir,
    i: int,
    p: String,
)
    requires
        rows_files_consistent(store, fs),
        0 <= i < store.packs@.len(),
        store.packs@[i].path == Some(p),
    ensures
        files_contain(fs.files@, p@),
{
}

/// What the caller is told to do with one item it has asked to start.
pub enum StartAction {
    /// Issue a GET against this URI and drive the body.
    Fetch(hyper::Uri),
    /// The destination already exists: no request; commit the row directly.
    AlreadyMaterialized,
    /// The item's URI is malformed; conclude the item as failed.
    Abort(UpdateError),
}

/// The successful outcome of one item.
#[derive(Debug)]
pub enum DownloadDone {
    Pdsc(DownloadedPdsc),
    Pack(InstalledPack),
}

/// One run of the bounded concurrent download pipeline over a fixed set of
/// items. The caller asks which item to start next, performs the fetches,
/// writes and renames it is told to, and reports each step back; the
/// pipeline keeps every account: phases, the in-flight cap, the progress
/// report log, and the store and file records.
pub struct Pipeline {
    /// The pack-store root the destinations were derived from.
    pub store_root: String,
    /// The items, one task each; duplicates are tolerated (their fetch
    /// short-circuits once the first copy has materialized).
    pub items: Vec<DownloadItem>,
    /// The destination path of each item, derived once at creation.
    pub dests: Vec<String>,
    /// Where each item stands.
    pub phases: Vec<TaskPhase>,
    /// How many items are started and not concluded; capped.
    pub in_flight: usize,
    /// How many items have concluded (succeeded or failed).
    pub concluded: usize,
    /// Every progress report fired so far, in order: one `Size`, then one
    /// `FileDone` per concluded item.
    pub log: Vec<ProgressEvent>,
}

impl Pipeline {
    /// The internal account is coherent: one destination and one phase per
    /// item, destinations derived from the root, counters counting, the cap
    /// respected, and the log holding exactly the announcement plus one
    /// conclusion per concluded item.
    pub open spec fn wf(self) -> bool {
        &&& self.dests@.len() == self.items@.len()
        &&& self.phases@.len() == self.items@.len()
        &&& forall|i: int|
            0 <= i < self.items@.len() ==> (#[trigger] self.dests@[i])@ == self.items@[i].dest_chars(
                self.store_root@,
            )
        &&& self.in_flight as int == count_active(self.phases@)
        &&& self.concluded as int == count_concluded(self.phases@)
        &&& self.in_flight <= MAX_IN_FLIGHT
        &&& self.log@.len() == 1 + self.concluded
        &&& self.log@[0] == ProgressEvent::Size(self.items@.len() as usize)
        &&& forall|i: int| 1 <= i < self.log@.len() ==> self.log@[i] == ProgressEvent::FileDone
    }

    /// Every item whose destination file is claimed to be in place —
    /// renamed, or committed — indeed has it among the complete files.
    pub open spec fn consistent_with(self, fs: StoreDir) -> bool {
        forall|i: int|
            0 <= i < self.phases@.len() && ((#[trigger] self.phases@[i]) is Renamed
                || self.phases@[i] is Succeeded) ==> files_contain(fs.files@, self.dests@[i]@)
    }

    /// Whether starting item `i` would have to fetch anything.
    pub open spec fn fetch_needed(self, i: int, fs: StoreDir) -> bool {
        !files_contain(fs.files@, self.dests@[i]@)
    }

    /// Builds the run: derives each item's destination, announces the item
    /// count — the one `Size` report of this pipeline — and leaves every
    /// item pending.
    pub fn new<P: DownloadProgress>(items: Vec<DownloadItem>, config: &Config, progress: &P) -> (r:
        Pipeline)
        ensures
            r.wf(),
            r.items@ == items@,
            r.store_root@ == config.pack_store@,
            forall|i: int| 0 <= i < r.phases@.len() ==> (#[trigger] r.phases@[i]) is Pending,
            r.in_flight == 0,
            r.concluded == 0,
            r.log@ == seq![ProgressEvent::Size(items@.len() as usize)],
    {
        let n = items.len();
        let mut dests: Vec<String> = Vec::new();
        let mut phases: Vec<TaskPhase> = Vec::new();
        let mut i: usize = 0;
        while i < n
            invariant
                i <= n,
                n == items@.len(),
                dests@.len() == i,
                phases@.len() == i,
                forall|j: int|
                    0 <= j < i ==> (#[trigger] dests@[j])@ == items@[j].dest_chars(
                        config.pack_store@,
                    ),
                forall|j: int| 0 <= j < i ==> (#[trigger] phases@[j]) is Pending,
            decreases n - i,
        {
            let d = items[i].into_fd(config);
            dests.push(d);
            phases.push(TaskPhase::Pending);
            i = i + 1;
        }
        progress.size(n);
        let mut log: Vec<ProgressEvent> = Vec::new();
        log.push(ProgressEvent::Size(n));
        proof {
            lemma_count_where_none(phases@, |p: TaskPhase| p.is_active());
            lemma_count_where_none(phases@, |p: TaskPhase| p.is_concluded());
        }
        Pipeline {
            store_root: config.pack_store.clone(),
            items,
            dests,
            phases,
            in_flight: 0,
            concluded: 0,
            log,
        }
    }

    /// The scheduling decision: the first pending item, provided the
    /// in-flight cap leaves room.
    pub fn next_pending(&self) -> (r: Option<usize>)
        ensures
            match r {
                Some(i) => i < self.phases@.len() && self.phases@[i as int] is Pending
                    && self.in_flight < MAX_IN_FLIGHT && forall|j: int|
                    0 <= j < i ==> !((#[trigger] self.phases@[j]) is Pending),
                None => self.in_flight >= MAX_IN_FLIGHT || forall|j: int|
                    0 <= j < self.phases@.len() ==> !((#[trigger] self.phases@[j]) is Pending),
            },
    {
        if self.in_flight >= MAX_IN_FLIGHT {
            return None;
        }
        let n = self.phases.len();
        let mut i: usize = 0;
        while i < n
            invariant
                i <= n,
                n == self.phases@.len(),
                self.in_flight < MAX_IN_FLIGHT,
                forall|j: int| 0 <= j < i ==> !((#[trigger] self.phases@[j]) is Pending),
            decreases n - i,
        {
            match self.phases[i] {
                TaskPhase::Pending => {
                    return Some(i);
                },
                _ => {},
            }
            i = i + 1;
        }
        None
    }

    /// Whether every item has concluded — the pipeline's terminal state.
    pub fn all_concluded(&self) -> (r: bool)
        ensures
            r == (forall|j: int|
                0 <= j < self.phases@.len() ==> (#[trigger] self.phases@[j]).is_concluded()),
    {
        let n = self.phases.len();
        let mut i: usize = 0;
        while i < n
            invariant
                i <= n,
                n == self.phases@.len(),
                forall|j: int| 0 <= j < i ==> (#[trigger] self.phases@[j]).is_concluded(),
            decreases n - i,
        {
            match self.phases[i] {
                TaskPhase::Succeeded => {},
                TaskPhase::Failed => {},
                _ => {
                    return false;
                },
            }
            i = i + 1;
        }
        true
    }

    /// Starts one pending item. When its destination is already among the
    /// complete files the fetch is skipped entirely — the item jumps to the
    /// renamed phase, to be committed — which is what makes a rerun over an
    /// already-materialized set issue no requests. Otherwise the caller is
    /// told to fetch the item's URI, or to conclude the item as failed when
    /// the URI is malformed.
    pub fn start(&mut self, i: usize, config: &Config, fs: &StoreDir) -> (r: StartAction)
        requires
            old(self).wf(),
            old(self).consistent_with(*fs),
            i < old(self).phases@.len(),
            old(self).phases@[i as int] is Pending,
            old(self).in_flight < MAX_IN_FLIGHT,
            config.pack_store@ == old(self).store_root@,
        ensures
            final(self).wf(),
            final(self).consistent_with(*fs),
            final(self).items == old(self).items,
            final(self).dests == old(self).dests,
            final(self).store_root == old(self).store_root,
            final(self).log == old(self).log,
            final(self).concluded == old(self).concluded,
            final(self).in_flight == old(self).in_flight + 1,
            final(self).phases@ == old(self).phases@.update(
                i as int,
                if old(self).fetch_needed(i as int, *fs) {
                    TaskPhase::Fetching
                } else {
                    TaskPhase::Renamed
                },
            ),
            match r {
                StartAction::AlreadyMaterialized => !old(self).fetch_needed(i as int, *fs),
                StartAction::Fetch(u) => old(self).fetch_needed(i as int, *fs) && uri_well_formed(
                    old(self).items@[i as int].uri_chars(),
                ) && u == uri_of(old(self).items@[i as int].uri_chars()),
                StartAction::Abort(e) => old(self).fetch_needed(i as int, *fs)
                    && !uri_well_formed(old(self).items@[i as int].uri_chars()) && e
                    == UpdateError::Network,
            },
    {
        let dest_present = fs.contains(&self.dests[i]);
        proof {
            lemma_count_where_update(
                self.phases@,
                |p: TaskPhase| p.is_active(),
                i as int,
                if dest_present {
                    TaskPhase::Renamed
                } else {
                    TaskPhase::Fetching
                },
            );
            lemma_count_where_update(
                self.phases@,
                |p: TaskPhase| p.is_concluded(),
                i as int,
                if dest_present {
                    TaskPhase::Renamed
                } else {
                    TaskPhase::Fetching
                },
            );
        }
        if dest_present {
            self.phases.set(i, TaskPhase::Renamed);
            self.in_flight = self.in_flight + 1;
            StartAction::AlreadyMaterialized
        } else {
            self.phases.set(i, TaskPhase::Fetching);
            self.in_flight = self.in_flight + 1;
            match self.items[i].into_uri(config) {
                Ok(u) => StartAction::Fetch(u),
                Err(_) => StartAction::Abort(UpdateError::Network),
            }
        }
    }

    /// Records that the response body has been fully drained into the
    /// destination's `.part` sibling. The destination itself is untouched.
    pub fn part_written(&mut self, i: usize)
        requires
            old(self).wf(),
            i < old(self).phases@.len(),
            old(self).phases@[i as int] is Fetching,
        ensures
            final(self).wf(),
            final(self).items == old(self).items,
            final(self).dests == old(self).dests,
            final(self).store_root == old(self).store_root,
            final(self).log == old(self).log,
            final(self).concluded == old(self).concluded,
            final(self).in_flight == old(self).in_flight,
            final(self).phases@ == old(self).phases@.update(i as int, TaskPhase::PartWritten),
            forall|fs: StoreDir|
                old(self).consistent_with(fs) ==> #[trigger] final(self).consistent_with(fs),
    {
        proof {
            lemma_count_where_update(
                self.phases@,
                |p: TaskPhase| p.is_active(),
                i as int,
                TaskPhase::PartWritten,
            );
            lemma_count_where_update(
                self.phases@,
                |p: TaskPhase| p.is_concluded(),
                i as int,
                TaskPhase::PartWritten,
            );
        }
        self.phases.set(i, TaskPhase::PartWritten);
    }

    /// Records the atomic rename of the `.part` sibling onto the
    /// destination: from this moment the destination is a complete file,
    /// and only from this moment may the row be committed.
    pub fn renamed(&mut self, i: usize, fs: &mut StoreDir)
        requires
            old(self).wf(),
            i < old(self).phases@.len(),
            old(self).phases@[i as int] is PartWritten,
            old(self).consistent_with(*old(fs)),
        ensures
            final(self).wf(),
            final(fs).files@ == old(fs).files@.push(old(self).dests@[i as int]),
            final(self).consistent_with(*final(fs)),
            final(self).items == old(self).items,
            final(self).dests == old(self).dests,
            final(self).store_root == old(self).store_root,
            final(self).log == old(self).log,
            final(self).concluded == old(self).concluded,
            final(self).in_flight == old(self).in_flight,
            final(self).phases@ == old(self).phases@.update(i as int, TaskPhase::Renamed),
            forall|store: DescriptorStore|
                rows_files_consistent(store, *old(fs)) ==> #[trigger] rows_files_consistent(
                    store,
                    *final(fs),
                ),
    {
        proof {
            lemma_count_where_update(
                self.phases@,
                |p: TaskPhase| p.is_active(),
                i as int,
                TaskPhase::Renamed,
            );
            lemma_count_where_update(
                self.phases@,
                |p: TaskPhase| p.is_concluded(),
                i as int,
                TaskPhase::Renamed,
            );
        }
        let d = self.dests[i].clone();
        fs.note_file(d);
        self.phases.set(i, TaskPhase::Renamed);
        proof {
            assert forall|j: int|
                0 <= j < self.phases@.len() && ((#[trigger] self.phases@[j]) is Renamed
                    || self.phases@[j] is Succeeded) implies files_contain(
                fs.files@,
                self.dests@[j]@,
            ) by {
                if j == i as int {
                    assert(fs.files@[fs.files@.len() - 1]@ == self.dests@[j]@);
                } else {
                    lemma_files_contain_push(
                        old(fs).files@,
                        old(self).dests@[i as int],
                        self.dests@[j]@,
                    );
                }
            }
            assert forall|store: DescriptorStore|
                rows_files_consistent(store, *old(fs)) implies rows_files_consistent(
                store,
                *fs,
            ) by {
                assert forall|r: int| 0 <= r < store.pdscs@.len() implies match (#[trigger] store.pdscs@[r]).path {
                    Some(p) => files_contain(fs.files@, p@),
                    None => true,
                } by {
                    match store.pdscs@[r].path {
                        Some(p) => {
                            lemma_files_contain_push(
                                old(fs).files@,
                                old(self).dests@[i as int],
                                p@,
                            );
                        },
                        None => {},
                    }
                }
                assert forall|r: int| 0 <= r < store.packs@.len() implies match (#[trigger] store.packs@[r]).path {
                    Some(p) => files_contain(fs.files@, p@),
                    None => true,
                } by {
                    match store.packs@[r].path {
                        Some(p) => {
                            lemma_files_contain_push(
                                old(fs).files@,
                                old(self).dests@[i as int],
                                p@,
                            );
                        },
                        None => {},
                    }
                }
            }
        }
    }

    /// Commits one item whose destination file is in place: the store row
    /// under the item's key gets the destination as its path — the last
    /// step of the materialization order — the item concludes, and its
    /// `complete` report fires. Fails, concluding the item and leaving the
    /// store untouched, when no row carries the item's key.
    pub fn commit<P: DownloadProgress>(
        &mut self,
        i: usize,
        store: &mut DescriptorStore,
        fs: &StoreDir,
        progress: &P,
    ) -> (r: Result<DownloadDone, UpdateError>)
        requires
            old(self).wf(),
            old(store).wf(),
            old(self).consistent_with(*fs),
            rows_files_consistent(*old(store), *fs),
            i < old(self).phases@.len(),
            old(self).phases@[i as int] is Renamed,
        ensures
            final(self).wf(),
            final(store).wf(),
            final(self).consistent_with(*fs),
            rows_files_consistent(*final(store), *fs),
            final(self).items == old(self).items,
            final(self).dests == old(self).dests,
            final(self).store_root == old(self).store_root,
            final(self).in_flight == old(self).in_flight - 1,
            final(self).concluded == old(self).concluded + 1,
            final(self).log@ == old(self).log@.push(ProgressEvent::FileDone),
            final(self).phases@ == old(self).phases@.update(
                i as int,
                if r is Ok {
                    TaskPhase::Succeeded
                } else {
                    TaskPhase::Failed
                },
            ),
            match r {
                Ok(done) => match old(self).items@[i as int] {
                    DownloadItem::Pdsc(p) => {
                        &&& final(store).pdscs@ == spec_set_pdsc_path(
                            old(store).pdscs@,
                            p.key(),
                            old(self).dests@[i as int],
                        )
                        &&& final(store).packs == old(store).packs
                        &&& match done {
                            DownloadDone::Pdsc(d) => d.path@ == old(self).dests@[i as int]@,
                            DownloadDone::Pack(_) => false,
                        }
                    },
                    DownloadItem::Pack(p) => {
                        &&& final(store).packs@ == spec_set_pack_path(
                            old(store).packs@,
                            p.key(),
                            old(self).dests@[i as int],
                        )
                        &&& final(store).pdscs == old(store).pdscs
                        &&& match done {
                            DownloadDone::Pack(d) => d.path@ == old(self).dests@[i as int]@,
                            DownloadDone::Pdsc(_) => false,
                        }
                    },
                },
                Err(e) => {
                    &&& e == UpdateError::DatabaseError
                    &&& final(store).pdscs == old(store).pdscs
                    &&& final(store).packs == old(store).packs
                    &&& match old(self).items@[i as int] {
                        DownloadItem::Pdsc(p) => !has_pdsc_key(old(store).pdscs@, p.key()),
                        DownloadItem::Pack(p) => !has_pack_key(old(store).packs@, p.key()),
                    }
                },
            },
    {
        proof {
            lemma_count_where_at(self.phases@, |p: TaskPhase| p.is_active(), i as int);
            lemma_count_where_missing(self.phases@, |p: TaskPhase| p.is_concluded(), i as int);
            lemma_count_where_bounds(self.phases@, |p: TaskPhase| p.is_concluded());
        }
        let n = self.phases.len();
        let dest = self.dests[i].clone();
        let item = self.items[i].clone();
        let outcome: Result<DownloadDone, UpdateError> = match item {
            DownloadItem::Pdsc(p) => match p.insert_path(dest, store) {
                Ok(d) => Ok(DownloadDone::Pdsc(d)),
                Err(e) => Err(e),
            },
            DownloadItem::Pack(p) => match p.insert_path(dest, store) {
                Ok(d) => Ok(DownloadDone::Pack(d)),
                Err(e) => Err(e),
            },
        };
        let concluded_phase = match &outcome {
            Ok(_) => TaskPhase::Succeeded,
            Err(_) => TaskPhase::Failed,
        };
        proof {
            lemma_count_where_update(
                self.phases@,
                |p: TaskPhase| p.is_active(),
                i as int,
                concluded_phase,
            );
            lemma_count_where_update(
                self.phases@,
                |p: TaskPhase| p.is_concluded(),
                i as int,
                concluded_phase,
            );
        }
        self.phases.set(i, concluded_phase);
        self.in_flight = self.in_flight - 1;
        self.concluded = self.concluded + 1;
        self.log.push(ProgressEvent::FileDone);
        let handle = progress.for_file(self.dests[i].as_str());
        handle.complete();
        proof {
            assert forall|j: int|
                0 <= j < self.phases@.len() && ((#[trigger] self.phases@[j]) is Renamed
                    || self.phases@[j] is Succeeded) implies files_contain(
                fs.files@,
                self.dests@[j]@,
            ) by {
                if j != i as int {
                    assert(old(self).phases@[j] == self.phases@[j]);
                }
            }
            if outcome is Ok {
                match old(self).items@[i as int] {
                    DownloadItem::Pdsc(p) => {
                        let s0 = old(store).pdscs@;
                        let idx = crate::dstore::pdsc_index(s0, p.key());
                        assert forall|r: int|
                            0 <= r < store.pdscs@.len() implies match #[trigger] store.pdscs@[r].path {
                            Some(q) => files_contain(fs.files@, q@),
                            None => true,
                        } by {
                            if r != idx {
                                assert(store.pdscs@[r] == s0[r]);
                            }
                        }
                    },
                    DownloadItem::Pack(p) => {
                        let s0 = old(store).packs@;
                        let idx = crate::dstore::pack_index(s0, p.key());
                        assert forall|r: int|
                            0 <= r < store.packs@.len() implies match #[trigger] store.packs@[r].path {
                            Some(q) => files_contain(fs.files@, q@),
                            None => true,
                        } by {
                            if r != idx {
                                assert(store.packs@[r] == s0[r]);
                            }
                        }
                    },
                }
            }
        }
        outcome
    }

    /// Concludes one item as failed — a connect failure, a bad status, a
    /// spent redirect budget, a write or rename that did not go through.
    /// Its `complete` report fires like any other; the pipeline goes on
    /// with the rest. The destination is untouched, so a later run retries
    /// the item from the start.
    pub fn fail<P: DownloadProgress>(&mut self, i: usize, progress: &P)
        requires
            old(self).wf(),
            i < old(self).phases@.len(),
            old(self).phases@[i as int] is Fetching || old(self).phases@[i as int] is PartWritten,
        ensures
            final(self).wf(),
            final(self).items == old(self).items,
            final(self).dests == old(self).dests,
            final(self).store_root == old(self).store_root,
            final(self).in_flight == old(self).in_flight - 1,
            final(self).concluded == old(self).concluded + 1,
            final(self).log@ == old(self).log@.push(ProgressEvent::FileDone),
            final(self).phases@ == old(self).phases@.update(i as int, TaskPhase::Failed),
            forall|fs: StoreDir|
                old(self).consistent_with(fs) ==> #[trigger] final(self).consistent_with(fs),
    {
        proof {
            lemma_count_where_at(self.phases@, |p: TaskPhase| p.is_active(), i as int);
            lemma_count_where_missing(self.phases@, |p: TaskPhase| p.is_concluded(), i as int);
            lemma_count_where_bounds(self.phases@, |p: TaskPhase| p.is_concluded());
            lemma_count_where_update(
                self.phases@,
                |p: TaskPhase| p.is_active(),
                i as int,
                TaskPhase::Failed,
            );
            lemma_count_where_update(
                self.phases@,
                |p: TaskPhase| p.is_concluded(),
                i as int,
                TaskPhase::Failed,
            );
        }
        let n = self.phases.len();
        self.phases.set(i, TaskPhase::Failed);
        self.in_flight = self.in_flight - 1;
        self.concluded = self.concluded + 1;
        self.log.push(ProgressEvent::FileDone);
        let handle = progress.for_file(self.dests[i].as_str());
        handle.complete();
    }
}

/// Progress accounting: the log opens with the one `Size` report of the
/// pipeline; every further report is a `FileDone`; their number equals the
/// number of concluded items, never exceeds the item count, and reaches it
/// exactly when every item has concluded.
pub proof fn lemma_progress_accounting(p: Pipeline)
    requires
        p.wf(),
    ensures
        p.log@.len() >= 1,
        p.log@[0] == ProgressEvent::Size(p.items@.len() as usize),
        forall|i: int| 1 <= i < p.log@.len() ==> p.log@[i] == ProgressEvent::FileDone,
        p.log@.len() == 1 + count_concluded(p.phases@),
        count_concluded(p.phases@) <= p.items@.len(),
        (forall|i: int| 0 <= i < p.phases@.len() ==> (#[trigger] p.phases@[i]).is_concluded())
            ==> p.log@.len() == 1 + p.items@.len(),
{
    lemma_count_where_bounds(p.phases@, |ph: TaskPhase| ph.is_concluded());
    if forall|i: int| 0 <= i < p.phases@.len() ==> (#[trigger] p.phases@[i]).is_concluded() {
        lemma_count_where_all(p.phases@, |ph: TaskPhase| ph.is_concluded());
    }
}

/// Idempotence of materialization: over a pack store that already holds
/// every destination — as it does after a completed run — no item needs a
/// fetch, so a rerun of the pipeline issues no requests at all; `start`
/// short-circuits every item to the committed row it already has.
pub proof fn lemma_rerun_fetches_nothing(p: Pipeline, fs: StoreDir)
    requires
        forall|i: int|
            0 <= i < p.dests@.len() ==> files_contain(fs.files@, (#[trigger] p.dests@[i])@),
    ensures
        forall|i: int| 0 <= i < p.dests@.len() ==> !p.fetch_needed(i, fs),
{
}

/// What upserting a stream of descriptor references, in order, does to the
/// descriptor table.
pub open spec fn spec_upsert_pdsc_all(s: Seq<StoredPdsc>, rs: Seq<PdscRef>) -> Seq<StoredPdsc>
    decreases rs.len(),
{
    if rs.len() == 0 {
        s
    } else {
        spec_upsert_pdsc(spec_upsert_pdsc_all(s, rs.drop_last()), rs.last())
    }
}

/// What upserting a stream of packages, in order, does to the archive
/// table.
pub open spec fn spec_upsert_pack_all(s: Seq<StoredPack>, ps: Seq<Package>) -> Seq<StoredPack>
    decreases ps.len(),
{
    if ps.len() == 0 {
        s
    } else {
        spec_upsert_pack(spec_upsert_pack_all(s, ps.drop_last()), ps.last())
    }
}

/// An upsert keeps every key the table already has.
proof fn lemma_upsert_pdsc_keeps_keys(
    s: Seq<StoredPdsc>,
    r: PdscRef,
    k: (Seq<char>, Seq<char>, Seq<char>),
)
    requires
        has_pdsc_key(s, k),
    ensures
        has_pdsc_key(spec_upsert_pdsc(s, r), k),
{
    let i = choose|i: int| 0 <= i < s.len() && pdsc_key(s[i]) == k;
    assert(pdsc_key(spec_upsert_pdsc(s, r)[i]) == k);
}

/// The archive-table twin of [`lemma_upsert_pdsc_keeps_keys`].
proof fn lemma_upsert_pack_keeps_keys(
    s: Seq<StoredPack>,
    p: Package,
    k: (Seq<char>, Seq<char>, Seq<char>),
)
    requires
        has_pack_key(s, k),
    ensures
        has_pack_key(spec_upsert_pack(s, p), k),
{
    let i = choose|i: int| 0 <= i < s.len() && pack_key(s[i]) == k;
    assert(pack_key(spec_upsert_pack(s, p)[i]) == k);
}

/// An upsert moves no existing row: with the keys unique, the row found
/// under a key after the upsert is the row that was there before.
proof fn lemma_upsert_pdsc_keeps_rows(
    s: Seq<StoredPdsc>,
    r: PdscRef,
    k: (Seq<char>, Seq<char>, Seq<char>),
)
    requires
        pdsc_keys_unique(spec_upsert_pdsc(s, r)),
        has_pdsc_key(s, k),
    ensures
        pdsc_row_at(spec_upsert_pdsc(s, r), k) == pdsc_row_at(s, k),
{
    let i = pdsc_index(s, k);
    let s2 = spec_upsert_pdsc(s, r);
    assert(s2[i] == s[i]);
    lemma_pdsc_index_unique(s2, i, k);
}

/// The archive-table twin of [`lemma_upsert_pdsc_keeps_rows`].
proof fn lemma_upsert_pack_keeps_rows(
    s: Seq<StoredPack>,
    p: Package,
    k: (Seq<char>, Seq<char>, Seq<char>),
)
    requires
        pack_keys_unique(spec_upsert_pack(s, p)),
        has_pack_key(s, k),
    ensures
        pack_row_at(spec_upsert_pack(s, p), k) == pack_row_at(s, k),
{
    let i = pack_index(s, k);
    let s2 = spec_upsert_pack(s, p);
    assert(s2[i] == s[i]);
    lemma_pack_index_unique(s2, i, k);
}

/// Every reference upserted along the way has its key in the final table.
proof fn lemma_upsert_all_has_keys(s: Seq<StoredPdsc>, rs: Seq<PdscRef>, i: int)
    requires
        0 <= i < rs.len(),
    ensures
        has_pdsc_key(spec_upsert_pdsc_all(s, rs), ref_key(rs[i])),
    decreases rs.len(),
{
    let prev = spec_upsert_pdsc_all(s, rs.drop_last());
    if i == rs.len() - 1 {
        if !has_pdsc_key(prev, ref_key(rs[i])) {
            assert(pdsc_key(spec_upsert_pdsc_all(s, rs)[prev.len() as int]) == ref_key(rs[i]));
        } else {
            lemma_upsert_pdsc_keeps_keys(prev, rs.last(), ref_key(rs[i]));
        }
    } else {
        lemma_upsert_all_has_keys(s, rs.drop_last(), i);
        lemma_upsert_pdsc_keeps_keys(prev, rs.last(), ref_key(rs[i]));
    }
}

/// Upserting references whose keys a table already holds changes nothing.
proof fn lemma_upsert_all_absorbed(t: Seq<StoredPdsc>, rs: Seq<PdscRef>)
    requires
        forall|i: int| 0 <= i < rs.len() ==> has_pdsc_key(t, ref_key(#[trigger] rs[i])),
    ensures
        spec_upsert_pdsc_all(t, rs) == t,
    decreases rs.len(),
{
    if rs.len() > 0 {
        lemma_upsert_all_absorbed(t, rs.drop_last());
    }
}

/// Idempotence of the whole insertion pass: feeding the same stream of
/// references through insert-or-ignore a second time leaves the descriptor
/// table exactly as the first pass left it.
pub proof fn lemma_upsert_all_idempotent(s: Seq<StoredPdsc>, rs: Seq<PdscRef>)
    ensures
        spec_upsert_pdsc_all(spec_upsert_pdsc_all(s, rs), rs) == spec_upsert_pdsc_all(s, rs),
{
    let s1 = spec_upsert_pdsc_all(s, rs);
    assert forall|i: int| 0 <= i < rs.len() implies has_pdsc_key(s1, ref_key(#[trigger] rs[i])) by {
        lemma_upsert_all_has_keys(s, rs, i);
    }
    lemma_upsert_all_absorbed(s1, rs);
}

/// Plans one update run: upserts every descriptor reference, in order, into
/// the store — obtaining the row each download will commit to — and builds
/// the pipeline over the resulting items, announcing their count. Each
/// reference becomes one item whose key the store is guaranteed to hold.
pub fn update_plan<P: DownloadProgress>(
    refs: Vec<PdscRef>,
    config: &Config,
    store: &mut DescriptorStore,
    progress: &P,
) -> (r: Pipeline)
    requires
        old(store).wf(),
    ensures
        final(store).wf(),
        final(store).packs == old(store).packs,
        final(store).pdscs@ == spec_upsert_pdsc_all(old(store).pdscs@, refs@),
        r.wf(),
        r.store_root@ == config.pack_store@,
        r.items@.len() == refs@.len(),
        r.in_flight == 0,
        r.concluded == 0,
        forall|i: int| 0 <= i < r.phases@.len() ==> (#[trigger] r.phases@[i]) is Pending,
        r.log@ == seq![ProgressEvent::Size(refs@.len() as usize)],
        forall|i: int|
            0 <= i < r.items@.len() ==> (#[trigger] r.items@[i]) is Pdsc && r.items@[i].key()
                == ref_key(refs@[i]) && has_pdsc_key(final(store).pdscs@, r.items@[i].key())
                && r.items@[i]->Pdsc_0.url@ == pdsc_row_at(
                final(store).pdscs@,
                r.items@[i].key(),
            ).url@,
{
    let ghost orig = refs@;
    let mut rest = refs;
    let total = rest.len();
    let mut items: Vec<DownloadItem> = Vec::new();
    let mut k: usize = 0;
    proof {
        assert(orig.subrange(0, 0) =~= Seq::<PdscRef>::empty());
    }
    while rest.len() > 0
        invariant
            old(store).wf(),
            total == orig.len(),
            k + rest@.len() == orig.len(),
            rest@ == orig.subrange(k as int, orig.len() as int),
            items@.len() == k,
            store.wf(),
            store.packs == old(store).packs,
            store.pdscs@ == spec_upsert_pdsc_all(old(store).pdscs@, orig.subrange(0, k as int)),
            forall|i: int|
                0 <= i < k ==> (#[trigger] items@[i]) is Pdsc && items@[i].key() == ref_key(
                    orig[i],
                ) && has_pdsc_key(store.pdscs@, items@[i].key()) && items@[i]->Pdsc_0.url@
                    == pdsc_row_at(store.pdscs@, items@[i].key()).url@,
        decreases rest@.len(),
    {
        let ghost pdscs0 = store.pdscs@;
        let head = rest.remove(0);
        proof {
            assert(orig.subrange(0, k + 1).drop_last() =~= orig.subrange(0, k as int));
            assert(orig.subrange(0, k + 1).last() == orig[k as int]);
            assert(head == orig[k as int]) by {
                assert(orig.subrange(k as int, orig.len() as int)[0] == orig[k as int]);
            }
            assert(rest@ =~= orig.subrange(k + 1, orig.len() as int));
        }
        let ins = match InsertedPdsc::try_from_ref(head, store) {
            Ok(ins) => ins,
            Err(_) => unreached(),
        };
        items.push(DownloadItem::Pdsc(ins));
        proof {
            assert forall|i: int|
                0 <= i < k + 1 implies (#[trigger] items@[i]) is Pdsc && items@[i].key()
                == ref_key(orig[i]) && has_pdsc_key(store.pdscs@, items@[i].key())
                && items@[i]->Pdsc_0.url@ == pdsc_row_at(store.pdscs@, items@[i].key()).url@ by {
                if i < k {
                    lemma_upsert_pdsc_keeps_keys(pdscs0, orig[k as int], items@[i].key());
                    lemma_upsert_pdsc_keeps_rows(pdscs0, orig[k as int], items@[i].key());
                }
            }
        }
        k = k + 1;
    }
    proof {
        assert(orig.subrange(0, orig.len() as int) =~= orig);
    }
    Pipeline::new(items, config, progress)
}

/// Plans one install run: upserts every package, in order, under its newest
/// release version, and builds the pipeline over the resulting archive
/// items.
pub fn install_plan<P: DownloadProgress>(
    packs: &Vec<Package>,
    config: &Config,
    store: &mut DescriptorStore,
    progress: &P,
) -> (r: Pipeline)
    requires
        old(store).wf(),
        forall|i: int| 0 <= i < packs@.len() ==> (#[trigger] packs@[i]).releases@.len() > 0,
    ensures
        final(store).wf(),
        final(store).pdscs == old(store).pdscs,
        final(store).packs@ == spec_upsert_pack_all(old(store).packs@, packs@),
        r.wf(),
        r.store_root@ == config.pack_store@,
        r.items@.len() == packs@.len(),
        r.in_flight == 0,
        r.concluded == 0,
        forall|i: int| 0 <= i < r.phases@.len() ==> (#[trigger] r.phases@[i]) is Pending,
        r.log@ == seq![ProgressEvent::Size(packs@.len() as usize)],
        forall|i: int|
            0 <= i < r.items@.len() ==> (#[trigger] r.items@[i]) is Pack && r.items@[i].key() == (
                packs@[i].vendor@,
                packs@[i].name@,
                packs@[i].releases@[0]@,
            ) && has_pack_key(final(store).packs@, r.items@[i].key())
                && r.items@[i]->Pack_0.url@ == pack_row_at(
                final(store).packs@,
                r.items@[i].key(),
            ).url@,
{
    let n = packs.len();
    let mut items: Vec<DownloadItem> = Vec::new();
    let mut k: usize = 0;
    proof {
        assert(packs@.subrange(0, 0) =~= Seq::<Package>::empty());
    }
    while k < n
        invariant
            old(store).wf(),
            k <= n,
            n == packs@.len(),
            forall|i: int| 0 <= i < packs@.len() ==> (#[trigger] packs@[i]).releases@.len() > 0,
            items@.len() == k,
            store.wf(),
            store.pdscs == old(store).pdscs,
            store.packs@ == spec_upsert_pack_all(old(store).packs@, packs@.subrange(0, k as int)),
            forall|i: int|
                0 <= i < k ==> (#[trigger] items@[i]) is Pack && items@[i].key() == (
                    packs@[i].vendor@,
                    packs@[i].name@,
                    packs@[i].releases@[0]@,
                ) && has_pack_key(store.packs@, items@[i].key()) && items@[i]->Pack_0.url@
                    == pack_row_at(store.packs@, items@[i].key()).url@,
        decreases n - k,
    {
        let ghost packs0 = store.packs@;
        proof {
            assert(packs@.subrange(0, k + 1).drop_last() =~= packs@.subrange(0, k as int));
            assert(packs@.subrange(0, k + 1).last() == packs@[k as int]);
        }
        let ins = match InsertedPack::try_from_package(&packs[k], store) {
            Ok(ins) => ins,
            Err(_) => unreached(),
        };
        items.push(DownloadItem::Pack(ins));
        proof {
            assert forall|i: int|
                0 <= i < k + 1 implies (#[trigger] items@[i]) is Pack && items@[i].key() == (
                packs@[i].vendor@,
                packs@[i].name@,
                packs@[i].releases@[0]@,
            ) && has_pack_key(store.packs@, items@[i].key()) && items@[i]->Pack_0.url@
                == pack_row_at(store.packs@, items@[i].key()).url@ by {
                if i < k {
                    lemma_upsert_pack_keeps_keys(packs0, packs@[k as int], items@[i].key());
                    lemma_upsert_pack_keeps_rows(packs0, packs@[k as int], items@[i].key());
                }
            }
        }
        k = k + 1;
    }
    proof {
        assert(packs@.subrange(0, n as int) =~= packs@);
    }
    Pipeline::new(items, config, progress)
}

} // verus!
