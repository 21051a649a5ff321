//! The descriptor store: the rows the mirror keeps about descriptors and
//! archives.
//!
//! Two tables, keyed by `(vendor, name, version_full)`. Inserting is
//! insert-or-ignore: a reference whose key is already present leaves the
//! table untouched, and the existing row is returned. The `path` column is
//! filled in only after the file it names is atomically in place. The
//! surrounding process mirrors every change made here into the SQLite
//! database under the pack store; the contracts below are the record of what
//! each change does.

use vstd::prelude::*;

use crate::error::UpdateError;
use crate::refs::Package;
use crate::refs::PdscRef;

verus! {

/// A persisted descriptor row. The numeric version fields are reserved and
/// zero; only `version_full` takes part in the key.
pub struct StoredPdsc {
    pub vendor: String,
    pub name: String,
    pub version_major: i32,
    pub version_minor: i32,
    pub version_patch: i32,
    pub version_full: String,
    pub url: String,
    pub parsed: bool,
    pub path: Option<String>,
}

/// A persisted archive row, in its own table, keyed the same way.
pub struct StoredPack {
    pub vendor: String,
    pub name: String,
    pub version_major: i32,
    pub version_minor: i32,
    pub version_patch: i32,
    pub version_full: String,
    pub url: String,
    pub path: Option<String>,
}

/// The identity of a row: the views of vendor, name and full version.
pub open spec fn pdsc_key(r: StoredPdsc) -> (Seq<char>, Seq<char>, Seq<char>) {
    (r.vendor@, r.name@, r.version_full@)
}

/// The identity of an archive row.
pub open spec fn pack_key(r: StoredPack) -> (Seq<char>, Seq<char>, Seq<char>) {
    (r.vendor@, r.name@, r.version_full@)
}

/// The key a descriptor reference will be stored under.
pub open spec fn ref_key(r: PdscRef) -> (Seq<char>, Seq<char>, Seq<char>) {
    (r.vendor@, r.name@, r.version@)
}

/// The row a descriptor reference creates: identity and URL from the
/// reference, numeric versions zero, not parsed, no path yet.
pub open spec fn fresh_pdsc_row(r: PdscRef) -> StoredPdsc {
    StoredPdsc {
        vendor: r.vendor,
        name: r.name,
        version_major: 0,
        version_minor: 0,
        version_patch: 0,
        version_full: r.version,
        url: r.url,
        parsed: false,
        path: None,
    }
}

/// The row a package creates, under its newest release version.
pub open spec fn fresh_pack_row(p: Package) -> StoredPack {
    StoredPack {
        vendor: p.vendor,
        name: p.name,
        version_major: 0,
        version_minor: 0,
        version_patch: 0,
        version_full: p.releases@[0],
        url: p.url,
        path: None,
    }
}

/// No two descriptor rows share a key.
pub open spec fn pdsc_keys_unique(s: Seq<StoredPdsc>) -> bool {
    forall|i: int, j: int| 0 <= i < j < s.len() ==> pdsc_key(s[i]) != pdsc_key(s[j])
}

/// No two archive rows share a key.
pub open spec fn pack_keys_unique(s: Seq<StoredPack>) -> bool {
    forall|i: int, j: int| 0 <= i < j < s.len() ==> pack_key(s[i]) != pack_key(s[j])
}

/// Whether some descriptor row carries the key.
pub open spec fn has_pdsc_key(s: Seq<StoredPdsc>, k: (Seq<char>, Seq<char>, Seq<char>)) -> bool {
    exists|i: int| 0 <= i < s.len() && pdsc_key(s[i]) == k
}

/// Whether some archive row carries the key.
pub open spec fn has_pack_key(s: Seq<StoredPack>, k: (Seq<char>, Seq<char>, Seq<char>)) -> bool {
    exists|i: int| 0 <= i < s.len() && pack_key(s[i]) == k
}

/// The index of the descriptor row with the key; meaningful when the key is
/// present and the keys are unique.
pub open spec fn pdsc_index(s: Seq<StoredPdsc>, k: (Seq<char>, Seq<char>, Seq<char>)) -> int {
    choose|i: int| 0 <= i < s.len() && pdsc_key(s[i]) == k
}

/// The index of the archive row with the key.
pub open spec fn pack_index(s: Seq<StoredPack>, k: (Seq<char>, Seq<char>, Seq<char>)) -> int {
    choose|i: int| 0 <= i < s.len() && pack_key(s[i]) == k
}

/// The descriptor row with the key.
pub open spec fn pdsc_row_at(s: Seq<StoredPdsc>, k: (Seq<char>, Seq<char>, Seq<char>)) -> StoredPdsc {
    s[pdsc_index(s, k)]
}

/// The archive row with the key.
pub open spec fn pack_row_at(s: Seq<StoredPack>, k: (Seq<char>, Seq<char>, Seq<char>)) -> StoredPack {
    s[pack_index(s, k)]
}

/// What insert-or-ignore does to the descriptor table: nothing when the key
/// is present, else one fresh row at the end.
pub open spec fn spec_upsert_pdsc(s: Seq<StoredPdsc>, r: PdscRef) -> Seq<StoredPdsc> {
    if has_pdsc_key(s, ref_key(r)) {
        s
    } else {
        s.push(fresh_pdsc_row(r))
    }
}

/// What insert-or-ignore does to the archive table.
pub open spec fn spec_upsert_pack(s: Seq<StoredPack>, p: Package) -> Seq<StoredPack> {
    if has_pack_key(s, (p.vendor@, p.name@, p.releases@[0]@)) {
        s
    } else {
        s.push(fresh_pack_row(p))
    }
}

/// What the path update does to the descriptor table: the row with the key
/// gets `path = Some(p)`; every other column and row stays.
pub open spec fn spec_set_pdsc_path(
    s: Seq<StoredPdsc>,
    k: (Seq<char>, Seq<char>, Seq<char>),
    p: String,
) -> Seq<StoredPdsc> {
    s.update(pdsc_index(s, k), StoredPdsc { path: Some(p), ..s[pdsc_index(s, k)] })
}

/// What the path update does to the archive table.
pub open spec fn spec_set_pack_path(
    s: Seq<StoredPack>,
    k: (Seq<char>, Seq<char>, Seq<char>),
    p: String,
) -> Seq<StoredPack> {
    s.update(pack_index(s, k), StoredPack { path: Some(p), ..s[pack_index(s, k)] })
}

/// Both tables of one run's database.
pub struct DescriptorStore {
    pub pdscs: Vec<StoredPdsc>,
    pub packs: Vec<StoredPack>,
}

impl DescriptorStore {
    /// Keys are unique in each table.
    pub open spec fn wf(self) -> bool {
        pdsc_keys_unique(self.pdscs@) && pack_keys_unique(self.packs@)
    }

    /// An empty store, as a freshly migrated database presents it.
    pub fn new() -> (r: DescriptorStore)
        ensures
            r.wf(),
            r.pdscs@.len() == 0,
            r.packs@.len() == 0,
    {
        DescriptorStore { pdscs: Vec::new(), packs: Vec::new() }
    }

    /// Finds the descriptor row with the given identity.
    pub fn find_pdsc(&self, vendor: &String, name: &String, version: &String) -> (r: Option<usize>)
        ensures
            match r {
                Some(i) => i < self.pdscs@.len() && pdsc_key(self.pdscs@[i as int]) == (
                    vendor@,
                    name@,
                    version@,
                ),
                None => !has_pdsc_key(self.pdscs@, (vendor@, name@, version@)),
            },
    {
        let n = self.pdscs.len();
        let mut i: usize = 0;
        while i < n
            invariant
                i <= n,
                n == self.pdscs@.len(),
                forall|j: int|
                    0 <= j < i ==> pdsc_key(self.pdscs@[j]) != (vendor@, name@, version@),
            decreases n - i,
        {
            let row = &self.pdscs[i];
            if row.vendor == *vendor && row.name == *name && row.version_full == *version {
                return Some(i);
            }
            i = i + 1;
        }
        None
    }

    /// Finds the archive row with the given identity.
    pub fn find_pack(&self, vendor: &String, name: &String, version: &String) -> (r: Option<usize>)
        ensures
            match r {
                Some(i) => i < self.packs@.len() && pack_key(self.packs@[i as int]) == (
                    vendor@,
                    name@,
                    version@,
                ),
                None => !has_pack_key(self.packs@, (vendor@, name@, version@)),
            },
    {
        let n = self.packs.len();
        let mut i: usize = 0;
        while i < n
            invariant
                i <= n,
                n == self.packs@.len(),
                forall|j: int|
                    0 <= j < i ==> pack_key(self.packs@[j]) != (vendor@, name@, version@),
            decreases n - i,
        {
            let row = &self.packs[i];
            if row.vendor == *vendor && row.name == *name && row.version_full == *version {
                return Some(i);
            }
            i = i + 1;
        }
        None
    }
}

/// With unique keys, an index that carries a key is the index of that key.
pub proof fn lemma_pdsc_index_unique(
    s: Seq<StoredPdsc>,
    i: int,
    k: (Seq<char>, Seq<char>, Seq<char>),
)
    requires
        pdsc_keys_unique(s),
        0 <= i < s.len(),
        pdsc_key(s[i]) == k,
    ensures
        pdsc_index(s, k) == i,
        has_pdsc_key(s, k),
{
    assert(has_pdsc_key(s, k));
    let j = pdsc_index(s, k);
    if i != j {
        assert(pdsc_key(s[i]) != pdsc_key(s[j]));
    }
}

/// The archive-table twin of [`lemma_pdsc_index_unique`].
pub proof fn lemma_pack_index_unique(
    s: Seq<StoredPack>,
    i: int,
    k: (Seq<char>, Seq<char>, Seq<char>),
)
    requires
        pack_keys_unique(s),
        0 <= i < s.len(),
        pack_key(s[i]) == k,
    ensures
        pack_index(s, k) == i,
        has_pack_key(s, k),
{
    assert(has_pack_key(s, k));
    let j = pack_index(s, k);
    if i != j {
        assert(pack_key(s[i]) != pack_key(s[j]));
    }
}

/// A row snapshot handed back by the insert step: everything a download
/// needs to derive its URI and destination and to commit its path.
pub struct InsertedPdsc {
    pub vendor: String,
    pub name: String,
    pub version_full: String,
    pub url: String,
}

/// A descriptor row whose file is in place; `path` names it.
#[derive(Debug)]
pub struct DownloadedPdsc {
    pub vendor: String,
    pub name: String,
    pub version_full: String,
    pub url: String,
    pub path: String,
}

/// A row snapshot for an archive download.
pub struct InsertedPack {
    pub vendor: String,
    pub name: String,
    pub version_full: String,
    pub url: String,
}

/// An archive row whose file is in place.
#[derive(Debug)]
pub struct InstalledPack {
    pub vendor: String,
    pub name: String,
    pub version_full: String,
    pub url: String,
    pub path: String,
}

impl Clone for InsertedPdsc {
    fn clone(&self) -> (r: Self)
        ensures
            r == *self,
    {
        InsertedPdsc {
            vendor: self.vendor.clone(),
            name: self.name.clone(),
            version_full: self.version_full.clone(),
            url: self.url.clone(),
        }
    }
}

impl Clone for InsertedPack {
    fn clone(&self) -> (r: Self)
        ensures
            r == *self,
    {
        InsertedPack {
            vendor: self.vendor.clone(),
            name: self.name.clone(),
            version_full: self.version_full.clone(),
            url: self.url.clone(),
        }
    }
}

impl InsertedPdsc {
    /// The key this snapshot was stored under.
    pub open spec fn key(self) -> (Seq<char>, Seq<char>, Seq<char>) {
        (self.vendor@, self.name@, self.version_full@)
    }

    /// Insert-or-ignore of the reference, then the row under its key. The
    /// snapshot reflects the stored row: when the key was already present,
    /// its URL is the stored one, not the reference's.
    pub fn try_from_ref(pdsc: PdscRef, dstore: &mut DescriptorStore) -> (r: Result<
        InsertedPdsc,
        UpdateError,
    >)
        requires
            old(dstore).wf(),
        ensures
            final(dstore).wf(),
            final(dstore).packs == old(dstore).packs,
            final(dstore).pdscs@ == spec_upsert_pdsc(old(dstore).pdscs@, pdsc),
            match r {
                Ok(ins) => {
                    &&& ins.key() == ref_key(pdsc)
                    &&& has_pdsc_key(final(dstore).pdscs@, ref_key(pdsc))
                    &&& ins.url@ == pdsc_row_at(final(dstore).pdscs@, ref_key(pdsc)).url@
                },
                Err(_) => false,
            },
    {
        let ghost s0 = dstore.pdscs@;
        match dstore.find_pdsc(&pdsc.vendor, &pdsc.name, &pdsc.version) {
            Some(i) => {
                proof {
                    lemma_pdsc_index_unique(s0, i as int, ref_key(pdsc));
                }
                let row = &dstore.pdscs[i];
                Ok(
                    InsertedPdsc {
                        vendor: row.vendor.clone(),
                        name: row.name.clone(),
                        version_full: row.version_full.clone(),
                        url: row.url.clone(),
                    },
                )
            },
            None => {
                let ins = InsertedPdsc {
                    vendor: pdsc.vendor.clone(),
                    name: pdsc.name.clone(),
                    version_full: pdsc.version.clone(),
                    url: pdsc.url.clone(),
                };
                let fresh = StoredPdsc {
                    vendor: pdsc.vendor,
                    name: pdsc.name,
                    version_major: 0,
                    version_minor: 0,
                    version_patch: 0,
                    version_full: pdsc.version,
                    url: pdsc.url,
                    parsed: false,
                    path: None,
                };
                dstore.pdscs.push(fresh);
                proof {
                    assert forall|i: int, j: int|
                        0 <= i < j < dstore.pdscs@.len() implies pdsc_key(dstore.pdscs@[i])
                        != pdsc_key(dstore.pdscs@[j]) by {
                        if j + 1 == dstore.pdscs@.len() {
                            assert(!has_pdsc_key(s0, pdsc_key(dstore.pdscs@[j])));
                        }
                    }
                    lemma_pdsc_index_unique(
                        dstore.pdscs@,
                        s0.len() as int,
                        ref_key(InsertedPdsc::ghost_ref(ins)),
                    );
                }
                Ok(ins)
            },
        }
    }

    /// Ghost reconstruction of the reference this snapshot came from; only
    /// the key fields and URL matter.
    pub open spec fn ghost_ref(ins: InsertedPdsc) -> PdscRef {
        PdscRef { url: ins.url, vendor: ins.vendor, name: ins.name, version: ins.version_full }
    }

    /// Records where the descriptor file now lies. Must be called only after
    /// the file is atomically in place. Fails, leaving the store untouched,
    /// when no row carries the snapshot's key.
    pub fn insert_path(self, new_text: String, dstore: &mut DescriptorStore) -> (r: Result<
        DownloadedPdsc,
        UpdateError,
    >)
        requires
            old(dstore).wf(),
        ensures
            final(dstore).wf(),
            final(dstore).packs == old(dstore).packs,
            match r {
                Ok(done) => {
                    &&& has_pdsc_key(old(dstore).pdscs@, self.key())
                    &&& final(dstore).pdscs@ == spec_set_pdsc_path(
                        old(dstore).pdscs@,
                        self.key(),
                        new_text,
                    )
                    &&& done.vendor@ == self.vendor@
                    &&& done.name@ == self.name@
                    &&& done.version_full@ == self.version_full@
                    &&& done.url@ == pdsc_row_at(old(dstore).pdscs@, self.key()).url@
                    &&& done.path == new_text
                },
                Err(e) => {
                    &&& e == UpdateError::DatabaseError
                    &&& !has_pdsc_key(old(dstore).pdscs@, self.key())
                    &&& final(dstore).pdscs == old(dstore).pdscs
                },
            },
    {
        let ghost s0 = dstore.pdscs@;
        match dstore.find_pdsc(&self.vendor, &self.name, &self.version_full) {
            Some(i) => {
                proof {
                    lemma_pdsc_index_unique(s0, i as int, self.key());
                }
                let url = dstore.pdscs[i].url.clone();
                let old_row = dstore.pdscs.remove(i);
                let new_row = StoredPdsc { path: Some(new_text.clone()), ..old_row };
                dstore.pdscs.insert(i, new_row);
                proof {
                    assert(dstore.pdscs@ =~= spec_set_pdsc_path(s0, self.key(), new_text));
                    assert forall|a: int, b: int|
                        0 <= a < b < dstore.pdscs@.len() implies pdsc_key(dstore.pdscs@[a])
                        != pdsc_key(dstore.pdscs@[b]) by {
                        assert(pdsc_key(dstore.pdscs@[a]) == pdsc_key(s0[a]));
                        assert(pdsc_key(dstore.pdscs@[b]) == pdsc_key(s0[b]));
                    }
                }
                Ok(
                    DownloadedPdsc {
                        vendor: self.vendor,
                        name: self.name,
                        version_full: self.version_full,
                        url,
                        path: new_text,
                    },
                )
            },
            None => Err(UpdateError::DatabaseError),
        }
    }
}

impl DownloadedPdsc {
    /// The location of the materialized descriptor file.
    pub fn into_pathbuf(self) -> (r: String)
        ensures
            r == self.path,
    {
        self.path
    }
}

impl InsertedPack {
    /// The key this snapshot was stored under.
    pub open spec fn key(self) -> (Seq<char>, Seq<char>, Seq<char>) {
        (self.vendor@, self.name@, self.version_full@)
    }

    /// Insert-or-ignore of the package under its newest release version,
    /// then the row under that key.
    pub fn try_from_package(pack: &Package, dstore: &mut DescriptorStore) -> (r: Result<
        InsertedPack,
        UpdateError,
    >)
        requires
            old(dstore).wf(),
            pack.releases@.len() > 0,
        ensures
            final(dstore).wf(),
            final(dstore).pdscs == old(dstore).pdscs,
            final(dstore).packs@ == spec_upsert_pack(old(dstore).packs@, *pack),
            match r {
                Ok(ins) => {
                    &&& ins.key() == (pack.vendor@, pack.name@, pack.releases@[0]@)
                    &&& has_pack_key(final(dstore).packs@, ins.key())
                    &&& ins.url@ == pack_row_at(final(dstore).packs@, ins.key()).url@
                },
                Err(_) => false,
            },
    {
        let ghost s0 = dstore.packs@;
        let version = pack.latest_release();
        match dstore.find_pack(&pack.vendor, &pack.name, version) {
            Some(i) => {
                proof {
                    lemma_pack_index_unique(
                        s0,
                        i as int,
                        (pack.vendor@, pack.name@, pack.releases@[0]@),
                    );
                }
                let row = &dstore.packs[i];
                Ok(
                    InsertedPack {
                        vendor: row.vendor.clone(),
                        name: row.name.clone(),
                        version_full: row.version_full.clone(),
                        url: row.url.clone(),
                    },
                )
            },
            None => {
                let ins = InsertedPack {
                    vendor: pack.vendor.clone(),
                    name: pack.name.clone(),
                    version_full: version.clone(),
                    url: pack.url.clone(),
                };
                let fresh = StoredPack {
                    vendor: pack.vendor.clone(),
                    name: pack.name.clone(),
                    version_major: 0,
                    version_minor: 0,
                    version_patch: 0,
                    version_full: version.clone(),
                    url: pack.url.clone(),
                    path: None,
                };
                dstore.packs.push(fresh);
                proof {
                    assert forall|i: int, j: int|
                        0 <= i < j < dstore.packs@.len() implies pack_key(dstore.packs@[i])
                        != pack_key(dstore.packs@[j]) by {
                        if j + 1 == dstore.packs@.len() {
                            assert(!has_pack_key(s0, pack_key(dstore.packs@[j])));
                        }
                    }
                    lemma_pack_index_unique(
                        dstore.packs@,
                        s0.len() as int,
                        (pack.vendor@, pack.name@, pack.releases@[0]@),
                    );
                }
                Ok(ins)
            },
        }
    }

    /// Records where the archive file now lies; the twin of
    /// [`InsertedPdsc::insert_path`].
    pub fn insert_path(self, new_text: String, dstore: &mut DescriptorStore) -> (r: Result<
        InstalledPack,
        UpdateError,
    >)
        requires
            old(dstore).wf(),
        ensures
            final(dstore).wf(),
            final(dstore).pdscs == old(dstore).pdscs,
            match r {
                Ok(done) => {
                    &&& has_pack_key(old(dstore).packs@, self.key())
                    &&& final(dstore).packs@ == spec_set_pack_path(old(dstore).packs@, self.key(), new_text)
                    &&& done.vendor@ == self.vendor@
                    &&& done.name@ == self.name@
                    &&& done.version_full@ == self.version_full@
                    &&& done.url@ == pack_row_at(old(dstore).packs@, self.key()).url@
                    &&& done.path == new_text
                },
                Err(e) => {
                    &&& e == UpdateError::DatabaseError
                    &&& !has_pack_key(old(dstore).packs@, self.key())
                    &&& final(dstore).packs == old(dstore).packs
                },
            },
    {
        let ghost s0 = dstore.packs@;
        match dstore.find_pack(&self.vendor, &self.name, &self.version_full) {
            Some(i) => {
                proof {
                    lemma_pack_index_unique(s0, i as int, self.key());
                }
                let url = dstore.packs[i].url.clone();
                let old_row = dstore.packs.remove(i);
                let new_row = StoredPack { path: Some(new_text.clone()), ..old_row };
                dstore.packs.insert(i, new_row);
                proof {
                    assert(dstore.packs@ =~= spec_set_pack_path(s0, self.key(), new_text));
                    assert forall|a: int, b: int|
                        0 <= a < b < dstore.packs@.len() implies pack_key(dstore.packs@[a])
                        != pack_key(dstore.packs@[b]) by {
                        assert(pack_key(dstore.packs@[a]) == pack_key(s0[a]));
                        assert(pack_key(dstore.packs@[b]) == pack_key(s0[b]));
                    }
                }
                Ok(
                    InstalledPack {
                        vendor: self.vendor,
                        name: self.name,
                        version_full: self.version_full,
                        url,
                        path: new_text,
                    },
                )
            },
            None => Err(UpdateError::DatabaseError),
        }
    }
}

impl InstalledPack {
    /// The location of the materialized archive file.
    pub fn into_pathbuf(self) -> (r: String)
        ensures
            r == self.path,
    {
        self.path
    }
}

/// The path update moves no row: every key present before it is present
/// after it. A row created for a download therefore outlives every later
/// commit, and each materialized file keeps a row under its key.
pub proof fn lemma_set_pdsc_path_keeps_keys(
    s: Seq<StoredPdsc>,
    k: (Seq<char>, Seq<char>, Seq<char>),
    p: String,
    k2: (Seq<char>, Seq<char>, Seq<char>),
)
    requires
        has_pdsc_key(s, k),
        has_pdsc_key(s, k2),
    ensures
        has_pdsc_key(spec_set_pdsc_path(s, k, p), k2),
{
    let i2 = choose|i: int| 0 <= i < s.len() && pdsc_key(s[i]) == k2;
    assert(pdsc_key(spec_set_pdsc_path(s, k, p)[i2]) == k2);
}

/// The archive-table twin of [`lemma_set_pdsc_path_keeps_keys`].
pub proof fn lemma_set_pack_path_keeps_keys(
    s: Seq<StoredPack>,
    k: (Seq<char>, Seq<char>, Seq<char>),
    p: String,
    k2: (Seq<char>, Seq<char>, Seq<char>),
)
    requires
        has_pack_key(s, k),
        has_pack_key(s, k2),
    ensures
        has_pack_key(spec_set_pack_path(s, k, p), k2),
{
    let i2 = choose|i: int| 0 <= i < s.len() && pack_key(s[i]) == k2;
    assert(pack_key(spec_set_pack_path(s, k, p)[i2]) == k2);
}

/// Idempotence of insert-or-ignore: once a reference is in the table,
/// inserting it again changes nothing.
pub proof fn lemma_upsert_pdsc_idempotent(s: Seq<StoredPdsc>, r: PdscRef)
    ensures
        spec_upsert_pdsc(spec_upsert_pdsc(s, r), r) == spec_upsert_pdsc(s, r),
{
    let s1 = spec_upsert_pdsc(s, r);
    if !has_pdsc_key(s, ref_key(r)) {
        assert(pdsc_key(s1[s.len() as int]) == ref_key(r));
        assert(has_pdsc_key(s1, ref_key(r)));
    }
}

/// Setting a path that the row already carries changes nothing: the second
/// run of a pipeline leaves the table as the first left it.
pub proof fn lemma_set_pdsc_path_same(
    s: Seq<StoredPdsc>,
    k: (Seq<char>, Seq<char>, Seq<char>),
    p: String,
)
    requires
        pdsc_keys_unique(s),
        has_pdsc_key(s, k),
        pdsc_row_at(s, k).path == Some(p),
    ensures
        spec_set_pdsc_path(s, k, p) == s,
{
    let i = pdsc_index(s, k);
    assert(StoredPdsc { path: Some(p), ..s[i] } == s[i]);
    assert(spec_set_pdsc_path(s, k, p) =~= s);
}

} // verus!
