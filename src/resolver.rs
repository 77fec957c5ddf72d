//! Finding a package across the configured repositories.
//!
//! Each repository is verified, then fetched, by the caller; what came of
//! that is handed in as a `RepoOutcome`, one per repository in registry
//! order.
use vstd::prelude::*;
use vstd::string::*;
use crate::error::PmError;
use crate::package::{PackageInfo, PackageView};
use crate::text::{seq_contains, str_contains, text_eq, trim_slashes_end, trim_trailing_slashes};

verus! {

/// What came of verifying and fetching one repository.
#[derive(Debug)]
pub enum RepoOutcome {
    /// The signed index was verified and these packages were read from it,
    /// in index order.
    Fetched(Vec<PackageInfo>),
    /// The signature of the index at this URL could not be verified.
    Unverified(String),
    /// Fetching or reading the index failed.
    Failed(PmError),
}

/// The first package of `s` named `name`.
pub open spec fn first_named(s: Seq<PackageInfo>, name: Seq<char>) -> Option<PackageView>
    decreases s.len(),
{
    if s.len() == 0 {
        None
    } else if s[0]@.name == name {
        Some(s[0]@)
    } else {
        first_named(s.drop_first(), name)
    }
}

/// The outcome of resolving `name` against repositories whose outcomes are
/// `s`, in order: the first repository that fails or holds the package
/// decides; `Ok(None)` means that none did.
pub open spec fn resolve(s: Seq<RepoOutcome>, name: Seq<char>) -> Result<Option<PackageView>, PmError>
    decreases s.len(),
{
    if s.len() == 0 {
        Ok(None)
    } else {
        match s[0] {
            RepoOutcome::Unverified(u) => Err(PmError::VerificationFailure(u)),
            RepoOutcome::Failed(e) => Err(e),
            RepoOutcome::Fetched(p) => match first_named(p@, name) {
                Some(v) => Ok(Some(v)),
                None => resolve(s.drop_first(), name),
            },
        }
    }
}

/// Looks `name` up in one repository's packages, first match first.
pub fn find_in(packages: &Vec<PackageInfo>, name: &str) -> (r: Option<PackageInfo>)
    ensures
        match r {
            Some(p) => first_named(packages@, name@) == Some(p@),
            None => first_named(packages@, name@) is None,
        },
{
    let mut i: usize = 0;
    assert(packages@.skip(0) =~= packages@);
    while i < packages.len()
        invariant
            i <= packages@.len(),
            first_named(packages@, name@) == first_named(packages@.skip(i as int), name@),
        decreases packages@.len() - i,
    {
        assert(packages@.skip(i as int)[0] == packages@[i as int]);
        if text_eq(packages[i].name.as_str(), name) {
            return Some(packages[i].copy());
        }
        assert(packages@.skip(i as int).drop_first() =~= packages@.skip(i + 1));
        i = i + 1;
    }
    None
}

/// Whether one repository's outcome settles the resolution of `name`: it
/// failed, or it holds the package.
pub fn outcome_decides(o: &RepoOutcome, name: &str) -> (r: bool)
    ensures
        r == (match o {
            RepoOutcome::Fetched(p) => first_named(p@, name@) is Some,
            _ => true,
        }),
{
    match o {
        RepoOutcome::Fetched(p) => find_in(p, name).is_some(),
        _ => true,
    }
}

fn copy_error(e: &PmError) -> (r: PmError)
    ensures
        r == *e,
{
    match e {
        PmError::NotFound(s) => PmError::NotFound(s.clone()),
        PmError::AlreadyExists(s) => PmError::AlreadyExists(s.clone()),
        PmError::VerificationFailure(s) => PmError::VerificationFailure(s.clone()),
        PmError::NetworkFailure(s) => PmError::NetworkFailure(s.clone()),
        PmError::ParseFailure(s) => PmError::ParseFailure(s.clone()),
        PmError::IncompatiblePlatform(s) => PmError::IncompatiblePlatform(s.clone()),
        PmError::InstallFailure(s) => PmError::InstallFailure(s.clone()),
        PmError::FilesystemFailure(s) => PmError::FilesystemFailure(s.clone()),
    }
}

/// Resolves `name` against the repositories' outcomes in registry order.
/// The first repository that holds the package gives it, whatever later
/// ones hold; the first one that failed verification or fetching, before
/// that, aborts the whole resolution with its error; `NotFound` when no
/// repository holds it.
pub fn find_package(outcomes: &Vec<RepoOutcome>, name: &str) -> (r: Result<PackageInfo, PmError>)
    ensures
        match resolve(outcomes@, name@) {
            Ok(Some(v)) => r matches Ok(p) && p@ == v,
            Ok(None) => r matches Err(PmError::NotFound(n)) && n@ == name@,
            Err(e) => r == Err::<PackageInfo, PmError>(e),
        },
{
    let mut i: usize = 0;
    assert(outcomes@.skip(0) =~= outcomes@);
    while i < outcomes.len()
        invariant
            i <= outcomes@.len(),
            resolve(outcomes@, name@) == resolve(outcomes@.skip(i as int), name@),
        decreases outcomes@.len() - i,
    {
        assert(outcomes@.skip(i as int)[0] == outcomes@[i as int]);
        assert(outcomes@.skip(i as int).drop_first() =~= outcomes@.skip(i + 1));
        match &outcomes[i] {
            RepoOutcome::Unverified(u) => {
                return Err(PmError::VerificationFailure(u.clone()));
            },
            RepoOutcome::Failed(e) => {
                return Err(copy_error(e));
            },
            RepoOutcome::Fetched(p) => {
                if let Some(found) = find_in(p, name) {
                    return Ok(found);
                }
            },
        }
        i = i + 1;
    }
    Err(PmError::NotFound(String::from_str(name)))
}

/// The package matches a search for `query`: its name or its description
/// holds `query` (case-sensitive).
pub open spec fn matches_query(p: PackageView, query: Seq<char>) -> bool {
    seq_contains(p.name, query) || seq_contains(p.description, query)
}

/// The packages of `s` that match `query`, in order.
pub open spec fn search_results(s: Seq<PackageInfo>, query: Seq<char>) -> Seq<PackageView>
    decreases s.len(),
{
    if s.len() == 0 {
        Seq::empty()
    } else {
        let rest = search_results(s.drop_last(), query);
        if matches_query(s.last()@, query) {
            rest.push(s.last()@)
        } else {
            rest
        }
    }
}

/// The packages that match `query` among those gathered from every
/// repository that could be fetched (repository order, then index order);
/// duplicates across repositories are kept.
pub fn search(packages: &Vec<PackageInfo>, query: &str) -> (r: Vec<PackageInfo>)
    ensures
        r@.map_values(|p: PackageInfo| p@) == search_results(packages@, query@),
{
    let mut r: Vec<PackageInfo> = Vec::new();
    let mut i: usize = 0;
    while i < packages.len()
        invariant
            i <= packages@.len(),
            r@.map_values(|p: PackageInfo| p@) == search_results(packages@.take(i as int), query@),
        decreases packages@.len() - i,
    {
        let p = &packages[i];
        let ghost t = packages@.take(i + 1);
        assert(t.drop_last() =~= packages@.take(i as int));
        assert(t.last() == packages@[i as int]);
        if str_contains(p.name.as_str(), query) || str_contains(p.description.as_str(), query) {
            let ghost before = r@;
            r.push(p.copy());
            assert(r@.map_values(|p: PackageInfo| p@) =~= before.map_values(|p: PackageInfo| p@).push(
                packages@[i as int]@,
            ));
        }
        i = i + 1;
    }
    assert(packages@.take(packages@.len() as int) =~= packages@);
    r
}

/// The first repository decides when it holds the package: a later
/// repository, whatever version it offers, is never consulted.
pub proof fn lemma_first_repository_wins(s: Seq<RepoOutcome>, name: Seq<char>)
    requires
        s.len() >= 1,
        s[0] matches RepoOutcome::Fetched(p) && first_named(p@, name) is Some,
    ensures
        s[0] matches RepoOutcome::Fetched(p) && resolve(s, name) == Ok::<Option<PackageView>, PmError>(
            first_named(p@, name),
        ),
{
}

/// A repository whose index cannot be verified aborts the resolution when
/// it is reached: the outcome is that of the repositories before it, or the
/// verification failure; nothing of it or of any later repository is used.
pub proof fn lemma_unverified_blocks(s: Seq<RepoOutcome>, i: int, name: Seq<char>)
    requires
        0 <= i < s.len(),
        s[i] is Unverified,
    ensures
        resolve(s, name) == (match resolve(s.take(i), name) {
            Ok(None) => Err(PmError::VerificationFailure(s[i]->Unverified_0)),
            other => other,
        }),
    decreases i,
{
    if i > 0 {
        lemma_unverified_blocks(s.drop_first(), i - 1, name);
        assert(s.take(i).drop_first() =~= s.drop_first().take(i - 1));
        assert(s.take(i)[0] == s[0]);
    } else {
        assert(s.take(0) =~= Seq::<RepoOutcome>::empty());
    }
}

/// Where a repository's index lives: `{url}/index.json`, with the URL's
/// trailing slashes dropped.
pub open spec fn index_url_of(repo_url: Seq<char>) -> Seq<char> {
    trim_trailing_slashes(repo_url) + "/index.json"@
}

/// The URL of a repository's index.
pub fn index_url(repo_url: &str) -> (r: String)
    ensures
        r@ == index_url_of(repo_url@),
{
    let mut u = trim_slashes_end(repo_url);
    u.append("/index.json");
    u
}

/// The URL of the detached signature of a repository's index: the index
/// URL with `.asc` appended.
pub fn signature_url(repo_url: &str) -> (r: String)
    ensures
        r@ == index_url_of(repo_url@) + ".asc"@,
{
    let mut u = index_url(repo_url);
    u.append(".asc");
    u
}

} // verus!
