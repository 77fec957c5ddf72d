//! The install / remove / reinstall / update policy over the tracking
//! database. Downloading, unpacking, listing and deleting files are the
//! caller's work; these functions decide what to do and record the outcome.
use vstd::prelude::*;
use vstd::string::*;
use vstd::seq_lib::group_to_multiset_ensures;
use crate::error::PmError;
use crate::package::{texts, PackageInfo, PackageView};
use crate::text::{lines_of, split_lines, text_eq};
use crate::tracker::{
    db_drop, db_get, db_put, lemma_drop, lemma_put, record_of, tracked_unique, EntryView,
    InstalledRecord, RecordView, TrackingDb,
};
use crate::version::{
    is_upgrade, lemma_lex_lt_asymmetric, lemma_lex_lt_total, lemma_lex_lt_transitive, lex_lt,
    version_less,
};

verus! {

/// What an install request comes to before anything is downloaded.
#[derive(PartialEq, Eq, Structural, Clone, Copy, Debug)]
pub enum InstallPlan {
    /// The same version is installed; nothing to do (reinstall to redo it).
    AlreadyInstalled,
    /// A version that sorts after the remote one is installed; nothing to do
    /// (a downgrade takes an explicit reinstall).
    NewerInstalled,
    /// An older version is installed; nothing to do (update installs it).
    UpdateAvailable,
    /// The package is built for another platform.
    Incompatible,
    /// Download, unpack and record the package.
    Proceed,
}

/// The package can run on `platform`.
pub open spec fn platform_ok(remote: PackageView, platform: Seq<char>) -> bool {
    remote.os == "all"@ || remote.os == platform
}

/// The plan for installing `remote` under `name` on `platform`, given the
/// tracking database `s`; only with `check` does an installed version
/// turn the request into a no-op.
pub open spec fn plan_of(
    s: Seq<EntryView>,
    name: Seq<char>,
    remote: PackageView,
    check: bool,
    platform: Seq<char>,
) -> InstallPlan {
    if check && db_get(s, name) is Some {
        let installed = db_get(s, name)->Some_0.version;
        if installed == remote.version {
            InstallPlan::AlreadyInstalled
        } else if lex_lt(remote.version, installed) {
            InstallPlan::NewerInstalled
        } else {
            InstallPlan::UpdateAvailable
        }
    } else if !platform_ok(remote, platform) {
        InstallPlan::Incompatible
    } else {
        InstallPlan::Proceed
    }
}

/// Decides what an install request comes to. Only `Proceed` asks the caller
/// to fetch and unpack the archive; the other plans leave the database as
/// it is.
pub fn install_plan(db: &TrackingDb, name: &str, remote: &PackageInfo, check: bool, platform: &str) -> (r:
    InstallPlan)
    requires
        db.wf(),
    ensures
        r == plan_of(db.view_seq(), name@, remote@, check, platform@),
{
    if check {
        if let Some(rec) = db.get(name) {
            let installed = rec.version.as_str();
            if text_eq(installed, remote.version.as_str()) {
                return InstallPlan::AlreadyInstalled;
            } else if version_less(remote.version.as_str(), installed) {
                return InstallPlan::NewerInstalled;
            } else {
                return InstallPlan::UpdateAvailable;
            }
        }
    }
    if text_eq(remote.os.as_str(), "all") || text_eq(remote.os.as_str(), platform) {
        InstallPlan::Proceed
    } else {
        InstallPlan::Incompatible
    }
}

/// The error that an install plan stands for, if any: only `Incompatible`
/// is a failure.
pub fn plan_error(plan: InstallPlan, name: &str) -> (r: Option<PmError>)
    ensures
        plan == InstallPlan::Incompatible ==> (r matches Some(PmError::IncompatiblePlatform(n)) && n@
            == name@),
        plan != InstallPlan::Incompatible ==> r is None,
{
    match plan {
        InstallPlan::Incompatible => Some(PmError::IncompatiblePlatform(String::from_str(name))),
        _ => None,
    }
}

/// Some listed file is present on disk.
pub open spec fn any_present(present: Seq<bool>) -> bool {
    exists|i: int| 0 <= i < present.len() && present[i]
}

/// Records a finished install. `files` are the archive's members as
/// absolute paths, `present[i]` whether `files[i]` exists on disk after
/// unpacking. Fails with `InstallFailure` (database unchanged) when none
/// does; otherwise records `remote`'s version, the files and a copy of
/// `remote`.
pub fn commit_install(
    db: &mut TrackingDb,
    name: &str,
    remote: &PackageInfo,
    files: Vec<String>,
    present: &Vec<bool>,
) -> (r: Result<(), PmError>)
    requires
        old(db).wf(),
        present@.len() == files@.len(),
    ensures
        final(db).wf(),
        any_present(present@) ==> r is Ok && final(db).view_seq() == db_put(
            old(db).view_seq(),
            name@,
            record_of(remote@, texts(files@)),
        ),
        !any_present(present@) ==> (r matches Err(PmError::InstallFailure(n)) && n@ == name@
            && final(db).view_seq() == old(db).view_seq()),
{
    let mut found = false;
    let mut i: usize = 0;
    while i < present.len()
        invariant
            i <= present@.len(),
            found == (exists|k: int| 0 <= k < i && present@[k]),
        decreases present@.len() - i,
    {
        if present[i] {
            found = true;
        }
        i = i + 1;
    }
    if !found {
        return Err(PmError::InstallFailure(String::from_str(name)));
    }
    let rec = InstalledRecord { version: remote.version.clone(), files, meta: remote.copy() };
    db.record(name, rec);
    Ok(())
}

/// No string of `s` sorts before a later one: reverse lexicographic order.
pub open spec fn sorted_desc(s: Seq<String>) -> bool {
    forall|i: int, j: int| 0 <= i < j < s.len() ==> !lex_lt((#[trigger] s[i])@, (#[trigger] s[j])@)
}

/// The paths in reverse lexicographic order, so that a directory's contents
/// come before the directory.
pub fn sort_desc(files: &Vec<String>) -> (r: Vec<String>)
    ensures
        sorted_desc(r@),
        texts(r@).to_multiset() == texts(files@).to_multiset(),
{
    broadcast use group_to_multiset_ensures;

    let mut r: Vec<String> = Vec::new();
    let mut i: usize = 0;
    while i < files.len()
        invariant
            i <= files@.len(),
            sorted_desc(r@),
            texts(r@).to_multiset() == texts(files@.take(i as int)).to_multiset(),
        decreases files@.len() - i,
    {
        let x = files[i].clone();
        let mut p: usize = 0;
        while p < r.len() && !version_less(r[p].as_str(), x.as_str())
            invariant
                p <= r@.len(),
                forall|k: int| 0 <= k < p ==> !lex_lt((#[trigger] r@[k])@, x@),
            decreases r@.len() - p,
        {
            p = p + 1;
        }
        let ghost before = r@;
        proof {
            assert forall|k: int| p <= k < before.len() implies !lex_lt(x@, (#[trigger] before[k])@) by {
                // before[p] sorts before x, and before[k] does not sort after before[p].
                assert(lex_lt(before[p as int]@, x@));
                if k > p {
                    assert(!lex_lt(before[p as int]@, before[k]@));
                    lemma_lex_lt_total(before[p as int]@, before[k]@);
                    if before[p as int]@ != before[k]@ {
                        lemma_lex_lt_transitive(before[k]@, before[p as int]@, x@);
                    }
                }
                lemma_lex_lt_asymmetric(x@, before[k]@);
            }
        }
        r.insert(p, x);
        proof {
            assert forall|a: int, b: int| 0 <= a < b < r@.len() implies !lex_lt(
                (#[trigger] r@[a])@,
                (#[trigger] r@[b])@,
            ) by {
                if a < p && b < p {
                    assert(r@[a] == before[a] && r@[b] == before[b]);
                } else if a < p && b == p {
                } else if a < p {
                    assert(r@[a] == before[a] && r@[b] == before[b - 1]);
                    assert(!lex_lt(before[a]@, x@));
                    assert(!lex_lt(x@, before[b - 1]@));
                    lemma_lex_lt_total(before[a]@, x@);
                    lemma_lex_lt_total(x@, before[b - 1]@);
                    if lex_lt(before[a]@, before[b - 1]@) {
                        if x@ == before[b - 1]@ {
                        } else {
                            lemma_lex_lt_transitive(before[a]@, before[b - 1]@, x@);
                        }
                    }
                } else if a == p {
                    assert(r@[b] == before[b - 1]);
                } else {
                    assert(r@[a] == before[a - 1] && r@[b] == before[b - 1]);
                }
            }
            assert(texts(r@) =~= texts(before).insert(p as int, x@));
            assert(texts(files@.take(i + 1)) =~= texts(files@.take(i as int)).push(files@[i as int]@));
            vstd::seq_lib::to_multiset_insert(texts(before), p as int, x@);
            vstd::seq_lib::to_multiset_build(texts(files@.take(i as int)), files@[i as int]@);
        }
        i = i + 1;
    }
    assert(files@.take(files@.len() as int) =~= files@);
    r
}

/// Drops `name` from the database and hands back its files, in reverse
/// lexicographic order, for the caller to delete one by one (a failed
/// deletion does not stop the others). `None`, database unchanged, when
/// `name` is not installed.
pub fn remove(db: &mut TrackingDb, name: &str) -> (r: Option<Vec<String>>)
    requires
        old(db).wf(),
    ensures
        final(db).wf(),
        final(db).view_seq() == db_drop(old(db).view_seq(), name@),
        match db_get(old(db).view_seq(), name@) {
            None => r is None,
            Some(rec) => r matches Some(f) && sorted_desc(f@) && texts(f@).to_multiset()
                == rec.files.to_multiset(),
        },
{
    match db.get(name) {
        None => {
            db.unrecord(name);
            None
        },
        Some(rec) => {
            let files = sort_desc(&rec.files);
            db.unrecord(name);
            Some(files)
        },
    }
}

/// Reinstalling starts by removing: `name` leaves the database and its files
/// come back, in reverse lexicographic order, for the caller to delete (none
/// when it was not installed). The caller then installs `name` again, with
/// no check of an installed version.
pub fn reinstall(db: &mut TrackingDb, name: &str) -> (r: Vec<String>)
    requires
        old(db).wf(),
    ensures
        final(db).wf(),
        final(db).view_seq() == db_drop(old(db).view_seq(), name@),
        match db_get(old(db).view_seq(), name@) {
            None => r@.len() == 0,
            Some(rec) => sorted_desc(r@) && texts(r@).to_multiset() == rec.files.to_multiset(),
        },
{
    match remove(db, name) {
        Some(files) => files,
        None => Vec::new(),
    }
}

/// The entry passes the `only` filter of an update.
pub open spec fn selected(e: EntryView, only: Option<Seq<char>>) -> bool {
    match only {
        Some(n) => e.name == n,
        None => true,
    }
}

/// The names among the first `n` entries of `s` that pass the filter.
pub open spec fn candidates(s: Seq<EntryView>, only: Option<Seq<char>>, n: int) -> Seq<Seq<char>>
    decreases n,
{
    if n <= 0 {
        Seq::empty()
    } else if selected(s[n - 1], only) {
        candidates(s, only, n - 1).push(s[n - 1].name)
    } else {
        candidates(s, only, n - 1)
    }
}

/// The entry is selected and the repositories offer a version that sorts
/// after the installed one.
pub open spec fn wants_update(e: EntryView, only: Option<Seq<char>>, latest: Option<String>) -> bool {
    selected(e, only) && match latest {
        Some(v) => lex_lt(e.record.version, v@),
        None => false,
    }
}

/// The names among the first `n` entries of `s` that an update reinstalls.
pub open spec fn update_targets(
    s: Seq<EntryView>,
    only: Option<Seq<char>>,
    latest: Seq<Option<String>>,
    n: int,
) -> Seq<Seq<char>>
    decreases n,
{
    if n <= 0 {
        Seq::empty()
    } else if wants_update(s[n - 1], only, latest[n - 1]) {
        update_targets(s, only, latest, n - 1).push(s[n - 1].name)
    } else {
        update_targets(s, only, latest, n - 1)
    }
}

fn name_selected(name: &str, only: Option<&str>) -> (r: bool)
    ensures
        r == match only {
            Some(n) => name@ == n@,
            None => true,
        },
{
    match only {
        Some(n) => text_eq(name, n),
        None => true,
    }
}

/// The tracked packages that an update looks up, in database order: all of
/// them, or the one named `only`.
pub fn update_candidates(db: &TrackingDb, only: Option<&str>) -> (r: Vec<String>)
    ensures
        texts(r@) == candidates(
            db.view_seq(),
            match only {
                Some(n) => Some(n@),
                None => None,
            },
            db.view_seq().len() as int,
        ),
{
    let ghost o = match only {
        Some(n) => Some(n@),
        None => None,
    };
    let mut r: Vec<String> = Vec::new();
    let mut i: usize = 0;
    while i < db.entries.len()
        invariant
            i <= db.entries@.len(),
            o == (match only {
                Some(n) => Some(n@),
                None => None::<Seq<char>>,
            }),
            texts(r@) == candidates(db.view_seq(), o, i as int),
        decreases db.entries@.len() - i,
    {
        let e = &db.entries[i];
        assert(db.view_seq()[i as int] == e@);
        if name_selected(e.name.as_str(), only) {
            let ghost before = r@;
            r.push(e.name.clone());
            assert(texts(r@) =~= texts(before).push(e.name@));
        }
        i = i + 1;
    }
    r
}

/// Which tracked packages an update reinstalls, in database order.
/// `latest[i]` is the version that resolution found for the `i`-th tracked
/// package (`None` when it was not looked up or could not be resolved); a
/// package is reinstalled when it passes the `only` filter and that version
/// sorts after the installed one. Every other record is left alone.
pub fn update(db: &TrackingDb, only: Option<&str>, latest: &Vec<Option<String>>) -> (r: Vec<String>)
    requires
        latest@.len() == db.view_seq().len(),
    ensures
        texts(r@) == update_targets(
            db.view_seq(),
            match only {
                Some(n) => Some(n@),
                None => None,
            },
            latest@,
            db.view_seq().len() as int,
        ),
{
    let ghost o = match only {
        Some(n) => Some(n@),
        None => None,
    };
    let mut r: Vec<String> = Vec::new();
    let mut i: usize = 0;
    while i < db.entries.len()
        invariant
            i <= db.entries@.len(),
            latest@.len() == db.entries@.len(),
            o == (match only {
                Some(n) => Some(n@),
                None => None::<Seq<char>>,
            }),
            texts(r@) == update_targets(db.view_seq(), o, latest@, i as int),
        decreases db.entries@.len() - i,
    {
        let e = &db.entries[i];
        assert(db.view_seq()[i as int] == e@);
        if name_selected(e.name.as_str(), only) {
            if let Some(v) = &latest[i] {
                if is_upgrade(e.record.version.as_str(), v.as_str()) {
                    let ghost before = r@;
                    r.push(e.name.clone());
                    assert(texts(r@) =~= texts(before).push(e.name@));
                }
            }
        }
        i = i + 1;
    }
    r
}

/// Installing a package and then asking to install it again, with the check
/// of an installed version, is a no-op: the second request finds the same
/// version installed.
pub proof fn lemma_install_twice_is_noop(
    s: Seq<EntryView>,
    name: Seq<char>,
    remote: PackageView,
    files: Seq<Seq<char>>,
    platform: Seq<char>,
)
    requires
        tracked_unique(s),
    ensures
        plan_of(db_put(s, name, record_of(remote, files)), name, remote, true, platform)
            == InstallPlan::AlreadyInstalled,
{
    lemma_put(s, name, record_of(remote, files));
}

/// After a package is removed, looking it up finds nothing.
pub proof fn lemma_removed_is_absent(s: Seq<EntryView>, name: Seq<char>)
    requires
        tracked_unique(s),
    ensures
        db_get(db_drop(s, name), name) is None,
{
    lemma_drop(s, name);
}

/// Reinstalling (remove, then record the same package and files) leaves the
/// same record as installing over the existing database.
pub proof fn lemma_reinstall_matches_install(s: Seq<EntryView>, name: Seq<char>, rec: RecordView)
    requires
        tracked_unique(s),
    ensures
        db_get(db_put(db_drop(s, name), name, rec), name) == db_get(db_put(s, name, rec), name),
        db_get(db_put(s, name, rec), name) == Some(rec),
{
    lemma_drop(s, name);
    lemma_put(db_drop(s, name), name, rec);
    lemma_put(s, name, rec);
}

/// What `str::trim` leaves of a line: the characters of `s` without its
/// leading and trailing white space.
pub uninterp spec fn trimmed(s: Seq<char>) -> Seq<char>;

/// Relies on `str::trim`: the result depends on the characters of `s` alone.
#[verifier::external_body]
fn trim_line(s: &str) -> (r: String)
    ensures
        r@ == trimmed(s@),
{
    s.trim().to_string()
}

/// The absolute path of an archive member whose name, already trimmed, is
/// `t`: the archive is unpacked at the filesystem root.
pub fn rooted(t: &str) -> (r: String)
    ensures
        r@ == "/"@ + t@,
{
    let mut p = String::from_str("/");
    p.append(t);
    p
}

/// The absolute path of the archive member listed on `line`.
pub fn installed_path(line: &str) -> (r: String)
    ensures
        r@ == "/"@ + trimmed(line@),
{
    let t = trim_line(line);
    rooted(t.as_str())
}

/// The absolute paths of the archive members listed on `lines`, in order.
pub fn installed_files(lines: &Vec<String>) -> (r: Vec<String>)
    ensures
        r@.len() == lines@.len(),
        forall|i: int| 0 <= i < r@.len() ==> (#[trigger] r@[i])@ == "/"@ + trimmed(lines@[i]@),
{
    let mut r: Vec<String> = Vec::new();
    let mut i: usize = 0;
    while i < lines.len()
        invariant
            i <= lines@.len(),
            r@.len() == i,
            forall|k: int| 0 <= k < i ==> (#[trigger] r@[k])@ == "/"@ + trimmed(lines@[k]@),
        decreases lines@.len() - i,
    {
        r.push(installed_path(lines[i].as_str()));
        i = i + 1;
    }
    r
}

/// The absolute paths of the archive members that an archive listing names,
/// one per line, in order.
pub fn listed_files(listing: &str) -> (r: Vec<String>)
    ensures
        r@.len() == lines_of(listing@).len(),
        forall|i: int| 0 <= i < r@.len() ==> (#[trigger] r@[i])@ == "/"@ + trimmed(lines_of(listing@)[i]),
{
    let lines = split_lines(listing);
    installed_files(&lines)
}

/// The recorded files of a package that are gone from disk, in record
/// order; `present[i]` tells whether the `i`-th recorded file exists.
pub fn missing_files(rec: &InstalledRecord, present: &Vec<bool>) -> (r: Vec<String>)
    requires
        present@.len() == rec.files@.len(),
    ensures
        texts(r@) == missing_among(rec@.files, present@, present@.len() as int),
{
    let mut r: Vec<String> = Vec::new();
    let mut i: usize = 0;
    while i < present.len()
        invariant
            present@.len() == rec.files@.len(),
            i <= present@.len(),
            texts(r@) == missing_among(rec@.files, present@, i as int),
        decreases present@.len() - i,
    {
        if !present[i] {
            let ghost before = r@;
            r.push(rec.files[i].clone());
            assert(texts(r@) =~= texts(before).push(rec@.files[i as int]));
        }
        i = i + 1;
    }
    r
}

/// The files among the first `n` of `files` whose `present` flag is off.
pub open spec fn missing_among(files: Seq<Seq<char>>, present: Seq<bool>, n: int) -> Seq<Seq<char>>
    decreases n,
{
    if n <= 0 {
        Seq::empty()
    } else if !present[n - 1] {
        missing_among(files, present, n - 1).push(files[n - 1])
    } else {
        missing_among(files, present, n - 1)
    }
}

} // verus!
