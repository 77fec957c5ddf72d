//! The registry of configured repositories: a mapping from repository name
//! to its URL and optional signing-key URL, kept in insertion order.
use vstd::prelude::*;
use vstd::string::*;
use crate::error::PmError;
use crate::text::{host_of, host_segment, text_eq};

verus! {

/// Where a repository lives and the key its index is signed with.
#[derive(Debug)]
pub struct RepoConfig {
    pub url: String,
    pub gpg_key: Option<String>,
}

/// A named repository.
#[derive(Debug)]
pub struct RepoEntry {
    pub name: String,
    pub config: RepoConfig,
}

/// The mathematical value of a repository entry.
pub struct RepoView {
    pub name: Seq<char>,
    pub url: Seq<char>,
    pub gpg_key: Option<Seq<char>>,
}

impl View for RepoEntry {
    type V = RepoView;

    open spec fn view(&self) -> RepoView {
        RepoView {
            name: self.name@,
            url: self.config.url@,
            gpg_key: match self.config.gpg_key {
                Some(k) => Some(k@),
                None => None,
            },
        }
    }
}

/// The configured repositories, in the order they were added.
#[derive(Debug)]
pub struct RepoRegistry {
    pub entries: Vec<RepoEntry>,
}

/// The entries of a registry as values.
pub open spec fn entry_views(s: Seq<RepoEntry>) -> Seq<RepoView> {
    s.map_values(|e: RepoEntry| e@)
}

/// Some entry is named `name`.
pub open spec fn has_repo(s: Seq<RepoView>, name: Seq<char>) -> bool {
    exists|i: int| 0 <= i < s.len() && (#[trigger] s[i]).name == name
}

/// No two entries share a name.
pub open spec fn names_unique(s: Seq<RepoView>) -> bool {
    forall|i: int, j: int| 0 <= i < j < s.len() ==> (#[trigger] s[i]).name != (#[trigger] s[j]).name
}

/// `t` is `s` without the entry named `name`, the others in their order.
pub open spec fn without_repo(s: Seq<RepoView>, name: Seq<char>, t: Seq<RepoView>) -> bool {
    exists|i: int| 0 <= i < s.len() && (#[trigger] s[i]).name == name && t == s.remove(i)
}

/// The name under which a repository is registered: the one given, or the
/// host part of its URL, or `"unknown"` when the URL has none.
pub open spec fn repo_name_for(url: Seq<char>, name: Option<Seq<char>>) -> Seq<char> {
    match name {
        Some(n) => n,
        None => match host_segment(url) {
            Some(h) => h,
            None => "unknown"@,
        },
    }
}

/// The name of the official repository, registered when no registry exists
/// yet.
pub const OFFICIAL_NAME: &'static str = "anspm-official";

/// The URL of the official repository.
pub const OFFICIAL_URL: &'static str = "https://anspm.akaruineko.space";

/// The signing key of the official repository.
pub const OFFICIAL_KEY: &'static str = "https://anspm.akaruineko.space/gpg-key.asc";

impl RepoRegistry {
    pub open spec fn view_seq(&self) -> Seq<RepoView> {
        entry_views(self.entries@)
    }

    pub open spec fn wf(&self) -> bool {
        names_unique(self.view_seq())
    }

    /// An empty registry.
    pub fn new() -> (r: RepoRegistry)
        ensures
            r.wf(),
            r.view_seq() == Seq::<RepoView>::empty(),
    {
        let r = RepoRegistry { entries: Vec::new() };
        assert(r.view_seq() =~= Seq::<RepoView>::empty());
        r
    }

    /// The registry that stands when none was saved: the official repository
    /// alone.
    pub fn default_registry() -> (r: RepoRegistry)
        ensures
            r.wf(),
            r.view_seq() == seq![
                RepoView {
                    name: OFFICIAL_NAME@,
                    url: OFFICIAL_URL@,
                    gpg_key: Some(OFFICIAL_KEY@),
                },
            ],
    {
        let e = RepoEntry {
            name: String::from_str(OFFICIAL_NAME),
            config: RepoConfig {
                url: String::from_str(OFFICIAL_URL),
                gpg_key: Some(String::from_str(OFFICIAL_KEY)),
            },
        };
        let mut entries: Vec<RepoEntry> = Vec::new();
        entries.push(e);
        let r = RepoRegistry { entries };
        assert(r.view_seq() =~= seq![e@]);
        r
    }

    /// The number of registered repositories.
    pub fn len(&self) -> (r: usize)
        ensures
            r == self.view_seq().len(),
    {
        self.entries.len()
    }

    /// The position of the repository named `name`.
    pub fn position(&self, name: &str) -> (r: Option<usize>)
        ensures
            r matches Some(i) ==> i < self.view_seq().len() && self.view_seq()[i as int].name == name@,
            r is None ==> !has_repo(self.view_seq(), name@),
    {
        let mut i: usize = 0;
        while i < self.entries.len()
            invariant
                i <= self.entries@.len(),
                forall|k: int| 0 <= k < i ==> self.view_seq()[k].name != name@,
            decreases self.entries@.len() - i,
        {
            if text_eq(self.entries[i].name.as_str(), name) {
                return Some(i);
            }
            i = i + 1;
        }
        None
    }

    /// The URL of the repository named `name`.
    pub fn url_of(&self, name: &str) -> (r: Option<String>)
        ensures
            r matches Some(u) ==> exists|i: int|
                0 <= i < self.view_seq().len() && self.view_seq()[i].name == name@
                    && self.view_seq()[i].url == u@,
            r is None ==> !has_repo(self.view_seq(), name@),
    {
        match self.position(name) {
            Some(i) => Some(self.entries[i].config.url.clone()),
            None => None,
        }
    }
}

/// The name under which `url` is registered when `name` is not given.
pub fn derive_repo_name(url: &str, name: Option<&str>) -> (r: String)
    ensures
        r@ == repo_name_for(
            url@,
            match name {
                Some(n) => Some(n@),
                None => None,
            },
        ),
{
    match name {
        Some(n) => String::from_str(n),
        None => match host_of(url) {
            Some(h) => h,
            None => String::from_str("unknown"),
        },
    }
}

/// Registers a repository. It fails with `AlreadyExists` when its name is
/// taken, and otherwise with `VerificationFailure` unless its signed index
/// was verified (`verified`); on failure the registry is unchanged.
pub fn repo_add(
    registry: &mut RepoRegistry,
    url: &str,
    name: Option<&str>,
    key_url: Option<&str>,
    verified: bool,
) -> (r: Result<String, PmError>)
    requires
        old(registry).wf(),
    ensures
        final(registry).wf(),
        ({
            let n = repo_name_for(
                url@,
                match name {
                    Some(n) => Some(n@),
                    None => None,
                },
            );
            let s = old(registry).view_seq();
            if has_repo(s, n) {
                r matches Err(PmError::AlreadyExists(e)) && e@ == n && final(registry).view_seq() == s
            } else if !verified {
                r matches Err(PmError::VerificationFailure(e)) && e@ == url@
                    && final(registry).view_seq() == s
            } else {
                r matches Ok(e) && e@ == n && final(registry).view_seq() == s.push(
                    RepoView {
                        name: n,
                        url: url@,
                        gpg_key: match key_url {
                            Some(k) => Some(k@),
                            None => None,
                        },
                    },
                )
            }
        }),
{
    let repo_name = derive_repo_name(url, name);
    if let Some(_) = registry.position(repo_name.as_str()) {
        return Err(PmError::AlreadyExists(repo_name));
    }
    if !verified {
        return Err(PmError::VerificationFailure(String::from_str(url)));
    }
    let e = RepoEntry {
        name: repo_name.clone(),
        config: RepoConfig {
            url: String::from_str(url),
            gpg_key: match key_url {
                Some(k) => Some(String::from_str(k)),
                None => None,
            },
        },
    };
    let ghost s = registry.view_seq();
    registry.entries.push(e);
    assert(registry.view_seq() =~= s.push(e@));
    Ok(repo_name)
}

/// Removes the repository named `name`, keeping the others in order; fails
/// with `NotFound` (registry unchanged) when there is none.
pub fn repo_remove(registry: &mut RepoRegistry, name: &str) -> (r: Result<(), PmError>)
    requires
        old(registry).wf(),
    ensures
        final(registry).wf(),
        has_repo(old(registry).view_seq(), name@) ==> (r is Ok && without_repo(
            old(registry).view_seq(),
            name@,
            final(registry).view_seq(),
        )),
        !has_repo(old(registry).view_seq(), name@) ==> (r matches Err(PmError::NotFound(e)) && e@
            == name@ && final(registry).view_seq() == old(registry).view_seq()),
{
    match registry.position(name) {
        None => Err(PmError::NotFound(String::from_str(name))),
        Some(i) => {
            let ghost s = registry.view_seq();
            registry.entries.remove(i);
            proof {
                lemma_remove_keeps_unique(s, i as int);
                assert(registry.view_seq() =~= s.remove(i as int));
            }
            Ok(())
        },
    }
}

/// Removing an entry keeps the names unique.
proof fn lemma_remove_keeps_unique(s: Seq<RepoView>, i: int)
    requires
        names_unique(s),
        0 <= i < s.len(),
    ensures
        names_unique(s.remove(i)),
{
    assert forall|a: int, b: int| 0 <= a < b < s.remove(i).len() implies
        (#[trigger] s.remove(i)[a]).name != (#[trigger] s.remove(i)[b]).name by {
        let a0 = if a < i { a } else { a + 1 };
        let b0 = if b < i { b } else { b + 1 };
        assert(s.remove(i)[a] == s[a0]);
        assert(s.remove(i)[b] == s[b0]);
    }
}

/// Reports on verifying the repository named `name`: `NotFound` when it is
/// not registered, else `VerificationFailure` with its URL unless its signed
/// index was verified (`verified`).
pub fn repo_verify(registry: &RepoRegistry, name: &str, verified: bool) -> (r: Result<(), PmError>)
    ensures
        !has_repo(registry.view_seq(), name@) ==> (r matches Err(PmError::NotFound(e)) && e@ == name@),
        has_repo(registry.view_seq(), name@) ==> (r is Ok <==> verified),
        r matches Err(PmError::VerificationFailure(u)) ==> exists|i: int|
            0 <= i < registry.view_seq().len() && registry.view_seq()[i].name == name@
                && registry.view_seq()[i].url == u@,
{
    match registry.position(name) {
        None => Err(PmError::NotFound(String::from_str(name))),
        Some(i) => {
            if verified {
                Ok(())
            } else {
                Err(PmError::VerificationFailure(registry.entries[i].config.url.clone()))
            }
        },
    }
}

} // verus!
