//! The tracking database: which packages are installed, at which version,
//! with which files. Entries keep their insertion order; names are unique.
use vstd::prelude::*;
use vstd::string::*;
use crate::package::{copy_strings, texts, PackageInfo, PackageView};
use crate::text::text_eq;

verus! {

/// What is recorded of one installed package.
#[derive(Debug)]
pub struct InstalledRecord {
    pub version: String,
    /// Absolute paths of the package's files, in archive order.
    pub files: Vec<String>,
    /// The package's metadata as it was at install time.
    pub meta: PackageInfo,
}

pub struct RecordView {
    pub version: Seq<char>,
    pub files: Seq<Seq<char>>,
    pub meta: PackageView,
}

impl View for InstalledRecord {
    type V = RecordView;

    open spec fn view(&self) -> RecordView {
        RecordView { version: self.version@, files: texts(self.files@), meta: self.meta@ }
    }
}

impl InstalledRecord {
    /// A field-for-field copy.
    pub fn copy(&self) -> (r: InstalledRecord)
        ensures
            r@ == self@,
    {
        InstalledRecord {
            version: self.version.clone(),
            files: copy_strings(&self.files),
            meta: self.meta.copy(),
        }
    }
}

/// The record that installing `remote` with the listed `files` leaves.
pub open spec fn record_of(remote: PackageView, files: Seq<Seq<char>>) -> RecordView {
    RecordView { version: remote.version, files, meta: remote }
}

#[derive(Debug)]
pub struct TrackedEntry {
    pub name: String,
    pub record: InstalledRecord,
}

pub struct EntryView {
    pub name: Seq<char>,
    pub record: RecordView,
}

impl View for TrackedEntry {
    type V = EntryView;

    open spec fn view(&self) -> EntryView {
        EntryView { name: self.name@, record: self.record@ }
    }
}

/// The tracking database.
#[derive(Debug)]
pub struct TrackingDb {
    pub entries: Vec<TrackedEntry>,
}

pub open spec fn tracked_unique(s: Seq<EntryView>) -> bool {
    forall|i: int, j: int| 0 <= i < j < s.len() ==> (#[trigger] s[i]).name != (#[trigger] s[j]).name
}

pub open spec fn is_tracked(s: Seq<EntryView>, name: Seq<char>) -> bool {
    exists|i: int| 0 <= i < s.len() && (#[trigger] s[i]).name == name
}

/// The position of the entry named `name` (meaningful when it is tracked).
pub open spec fn index_of(s: Seq<EntryView>, name: Seq<char>) -> int {
    choose|i: int| 0 <= i < s.len() && (#[trigger] s[i]).name == name
}

/// The record of `name`, if it is tracked.
pub open spec fn db_get(s: Seq<EntryView>, name: Seq<char>) -> Option<RecordView> {
    if is_tracked(s, name) {
        Some(s[index_of(s, name)].record)
    } else {
        None
    }
}

/// The database after recording `rec` for `name`: an existing entry is
/// replaced where it stands, a new one goes last.
pub open spec fn db_put(s: Seq<EntryView>, name: Seq<char>, rec: RecordView) -> Seq<EntryView> {
    if is_tracked(s, name) {
        s.update(index_of(s, name), EntryView { name, record: rec })
    } else {
        s.push(EntryView { name, record: rec })
    }
}

/// The database without the entry of `name`, the others in order.
pub open spec fn db_drop(s: Seq<EntryView>, name: Seq<char>) -> Seq<EntryView> {
    if is_tracked(s, name) {
        s.remove(index_of(s, name))
    } else {
        s
    }
}

/// In a database with unique names, the entry at `i` is the one `index_of`
/// finds.
pub proof fn lemma_index_of(s: Seq<EntryView>, i: int)
    requires
        tracked_unique(s),
        0 <= i < s.len(),
    ensures
        is_tracked(s, s[i].name),
        index_of(s, s[i].name) == i,
        db_get(s, s[i].name) == Some(s[i].record),
{
    let n = s[i].name;
    assert(is_tracked(s, n));
    let j = index_of(s, n);
    if j != i {
        if j < i {
            assert(s[j].name != s[i].name);
        } else {
            assert(s[i].name != s[j].name);
        }
    }
}

/// Recording keeps names unique, gives `name` its record and leaves every
/// other name's record as it was.
pub proof fn lemma_put(s: Seq<EntryView>, name: Seq<char>, rec: RecordView)
    requires
        tracked_unique(s),
    ensures
        tracked_unique(db_put(s, name, rec)),
        db_get(db_put(s, name, rec), name) == Some(rec),
        forall|n: Seq<char>| n != name ==> #[trigger] db_get(db_put(s, name, rec), n) == db_get(s, n),
{
    let t = db_put(s, name, rec);
    if is_tracked(s, name) {
        let i = index_of(s, name);
        assert(tracked_unique(t)) by {
            assert forall|a: int, b: int| 0 <= a < b < t.len() implies (#[trigger] t[a]).name != (
            #[trigger] t[b]).name by {
                assert(t[a].name == s[a].name);
                assert(t[b].name == s[b].name);
            }
        }
        lemma_index_of(t, i);
    } else {
        assert(tracked_unique(t)) by {
            assert forall|a: int, b: int| 0 <= a < b < t.len() implies (#[trigger] t[a]).name != (
            #[trigger] t[b]).name by {
                if b == s.len() {
                    assert(t[a] == s[a]);
                    if s[a].name == name {
                        assert(is_tracked(s, name));
                    }
                } else {
                    assert(t[a] == s[a] && t[b] == s[b]);
                }
            }
        }
        lemma_index_of(t, s.len() as int);
    }
    assert forall|n: Seq<char>| n != name implies #[trigger] db_get(t, n) == db_get(s, n) by {
        if is_tracked(s, n) {
            let j = index_of(s, n);
            lemma_index_of(s, j);
            assert(t[j] == s[j]);
            lemma_index_of(t, j);
        } else if is_tracked(t, n) {
            let j = index_of(t, n);
            assert(s[j].name == n);
        }
    }
}

/// Dropping an entry keeps names unique, leaves `name` untracked and every
/// other name's record as it was.
pub proof fn lemma_drop(s: Seq<EntryView>, name: Seq<char>)
    requires
        tracked_unique(s),
    ensures
        tracked_unique(db_drop(s, name)),
        db_get(db_drop(s, name), name) is None,
        forall|n: Seq<char>| n != name ==> #[trigger] db_get(db_drop(s, name), n) == db_get(s, n),
{
    let t = db_drop(s, name);
    if is_tracked(s, name) {
        let i = index_of(s, name);
        assert(tracked_unique(t)) by {
            assert forall|a: int, b: int| 0 <= a < b < t.len() implies (#[trigger] t[a]).name != (
            #[trigger] t[b]).name by {
                let a0 = if a < i { a } else { a + 1 };
                let b0 = if b < i { b } else { b + 1 };
                assert(t[a] == s[a0]);
                assert(t[b] == s[b0]);
            }
        }
        if is_tracked(t, name) {
            let j = index_of(t, name);
            let j0 = if j < i { j } else { j + 1 };
            assert(t[j] == s[j0]);
            if j0 < i {
                assert(s[j0].name != s[i].name);
            } else {
                assert(s[i].name != s[j0].name);
            }
        }
        assert forall|n: Seq<char>| n != name implies #[trigger] db_get(t, n) == db_get(s, n) by {
            if is_tracked(s, n) {
                let j = index_of(s, n);
                lemma_index_of(s, j);
                let j1 = if j < i { j } else { j - 1 };
                assert(t[j1] == s[j]);
                lemma_index_of(t, j1);
            } else if is_tracked(t, n) {
                let j = index_of(t, n);
                let j0 = if j < i { j } else { j + 1 };
                assert(t[j] == s[j0]);
            }
        }
    }
}

impl TrackingDb {
    pub open spec fn view_seq(&self) -> Seq<EntryView> {
        self.entries@.map_values(|e: TrackedEntry| e@)
    }

    pub open spec fn wf(&self) -> bool {
        tracked_unique(self.view_seq())
    }

    /// An empty database.
    pub fn new() -> (r: TrackingDb)
        ensures
            r.wf(),
            r.view_seq() == Seq::<EntryView>::empty(),
    {
        let r = TrackingDb { entries: Vec::new() };
        assert(r.view_seq() =~= Seq::<EntryView>::empty());
        r
    }

    /// The number of tracked packages.
    pub fn len(&self) -> (r: usize)
        ensures
            r == self.view_seq().len(),
    {
        self.entries.len()
    }

    /// The position of the entry named `name`.
    pub fn position(&self, name: &str) -> (r: Option<usize>)
        requires
            self.wf(),
        ensures
            r matches Some(i) ==> i < self.view_seq().len() && index_of(self.view_seq(), name@) == i
                && is_tracked(self.view_seq(), name@),
            r is None ==> !is_tracked(self.view_seq(), name@),
    {
        let mut i: usize = 0;
        while i < self.entries.len()
            invariant
                self.wf(),
                i <= self.entries@.len(),
                forall|k: int| 0 <= k < i ==> self.view_seq()[k].name != name@,
            decreases self.entries@.len() - i,
        {
            if text_eq(self.entries[i].name.as_str(), name) {
                proof {
                    lemma_index_of(self.view_seq(), i as int);
                }
                return Some(i);
            }
            i = i + 1;
        }
        None
    }

    /// The record of `name`, if it is tracked.
    pub fn get(&self, name: &str) -> (r: Option<&InstalledRecord>)
        requires
            self.wf(),
        ensures
            match r {
                Some(rec) => db_get(self.view_seq(), name@) == Some(rec@),
                None => db_get(self.view_seq(), name@) is None,
            },
    {
        match self.position(name) {
            Some(i) => Some(&self.entries[i].record),
            None => None,
        }
    }

    /// Inserts or replaces the record of `name`.
    pub fn record(&mut self, name: &str, rec: InstalledRecord)
        requires
            old(self).wf(),
        ensures
            final(self).wf(),
            final(self).view_seq() == db_put(old(self).view_seq(), name@, rec@),
    {
        let ghost s = self.view_seq();
        proof {
            lemma_put(s, name@, rec@);
        }
        let e = TrackedEntry { name: String::from_str(name), record: rec };
        match self.position(name) {
            Some(i) => {
                self.entries.set(i, e);
                assert(self.view_seq() =~= db_put(s, name@, e.record@));
            },
            None => {
                self.entries.push(e);
                assert(self.view_seq() =~= db_put(s, name@, e.record@));
            },
        }
    }

    /// Removes the record of `name`; nothing happens when there is none.
    pub fn unrecord(&mut self, name: &str)
        requires
            old(self).wf(),
        ensures
            final(self).wf(),
            final(self).view_seq() == db_drop(old(self).view_seq(), name@),
    {
        let ghost s = self.view_seq();
        proof {
            lemma_drop(s, name@);
        }
        if let Some(i) = self.position(name) {
            self.entries.remove(i);
            assert(self.view_seq() =~= db_drop(s, name@));
        }
    }
}

} // verus!
