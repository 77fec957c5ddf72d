//! Package metadata as a repository index describes it, and the defaults
//! that fill in what an index entry leaves out.
use vstd::prelude::*;
use vstd::string::*;

verus! {

/// One package as offered by a repository.
#[derive(Debug)]
pub struct PackageInfo {
    pub name: String,
    pub version: String,
    pub description: String,
    /// Where the package archive is downloaded from.
    pub url: String,
    /// `"all"` or one platform identifier.
    pub os: String,
    pub arch: String,
    /// Recorded for information only; never installed.
    pub deps: Vec<String>,
    pub author: String,
    pub license: String,
}

/// The mathematical value of a package: every text as a character sequence.
pub struct PackageView {
    pub name: Seq<char>,
    pub version: Seq<char>,
    pub description: Seq<char>,
    pub url: Seq<char>,
    pub os: Seq<char>,
    pub arch: Seq<char>,
    pub deps: Seq<Seq<char>>,
    pub author: Seq<char>,
    pub license: Seq<char>,
}

/// The character sequences of a list of strings.
pub open spec fn texts(v: Seq<String>) -> Seq<Seq<char>> {
    v.map_values(|s: String| s@)
}

impl View for PackageInfo {
    type V = PackageView;

    open spec fn view(&self) -> PackageView {
        PackageView {
            name: self.name@,
            version: self.version@,
            description: self.description@,
            url: self.url@,
            os: self.os@,
            arch: self.arch@,
            deps: texts(self.deps@),
            author: self.author@,
            license: self.license@,
        }
    }
}

/// An index entry as read from a repository document: every field but the
/// name may be missing.
#[derive(Debug)]
pub struct IndexEntry {
    pub version: Option<String>,
    pub description: Option<String>,
    pub url: Option<String>,
    pub os: Option<String>,
    pub arch: Option<String>,
    pub deps: Option<Vec<String>>,
    pub author: Option<String>,
    pub license: Option<String>,
}

/// Copies a vector of strings element by element.
pub fn copy_strings(v: &Vec<String>) -> (r: Vec<String>)
    ensures
        r@ == v@,
{
    let mut r: Vec<String> = Vec::new();
    let mut i: usize = 0;
    while i < v.len()
        invariant
            i <= v@.len(),
            r@ == v@.take(i as int),
        decreases v@.len() - i,
    {
        r.push(v[i].clone());
        assert(v@.take(i + 1) =~= v@.take(i as int).push(v@[i as int]));
        i = i + 1;
    }
    assert(v@.take(v@.len() as int) =~= v@);
    r
}

impl PackageInfo {
    /// A field-for-field copy.
    pub fn copy(&self) -> (r: PackageInfo)
        ensures
            r@ == self@,
    {
        let deps = copy_strings(&self.deps);
        PackageInfo {
            name: self.name.clone(),
            version: self.version.clone(),
            description: self.description.clone(),
            url: self.url.clone(),
            os: self.os.clone(),
            arch: self.arch.clone(),
            deps,
            author: self.author.clone(),
            license: self.license.clone(),
        }
    }
}

/// The value of an optional text field, or `default` when it is missing.
pub open spec fn or_default(v: Option<String>, default: Seq<char>) -> Seq<char> {
    match v {
        Some(s) => s@,
        None => default,
    }
}

/// The package that an index entry named `name` describes, with each
/// missing field filled in by its default.
pub open spec fn entry_describes(name: Seq<char>, e: IndexEntry, p: PackageInfo) -> bool {
    &&& p@.name == name
    &&& p@.version == or_default(e.version, "unknown"@)
    &&& p@.description == or_default(e.description, "No description"@)
    &&& p@.url == or_default(e.url, ""@)
    &&& p@.os == or_default(e.os, "all"@)
    &&& p@.arch == or_default(e.arch, "any"@)
    &&& p@.deps == (match e.deps {
        Some(d) => texts(d@),
        None => Seq::<Seq<char>>::empty(),
    })
    &&& p@.author == or_default(e.author, "unknown"@)
    &&& p@.license == or_default(e.license, "unknown"@)
}

fn text_or(v: Option<String>, default: &str) -> (r: String)
    ensures
        r@ == or_default(v, default@),
{
    match v {
        Some(s) => s,
        None => String::from_str(default),
    }
}

/// Builds the package named `name` from its index entry.
pub fn package_from_entry(name: &str, e: IndexEntry) -> (r: PackageInfo)
    ensures
        entry_describes(name@, e, r),
{
    let ghost e0 = e;
    let deps = match e.deps {
        Some(d) => d,
        None => Vec::new(),
    };
    proof {
        if e0.deps is None {
            assert(texts(deps@) =~= Seq::<Seq<char>>::empty());
        }
    }
    PackageInfo {
        name: String::from_str(name),
        version: text_or(e.version, "unknown"),
        description: text_or(e.description, "No description"),
        url: text_or(e.url, ""),
        os: text_or(e.os, "all"),
        arch: text_or(e.arch, "any"),
        deps,
        author: text_or(e.author, "unknown"),
        license: text_or(e.license, "unknown"),
    }
}

/// Builds every package of a repository index, in the index's order.
pub fn packages_from_index(entries: Vec<(String, IndexEntry)>) -> (r: Vec<PackageInfo>)
    ensures
        r@.len() == entries@.len(),
        forall|i: int|
            0 <= i < r@.len() ==> entry_describes(entries@[i].0@, entries@[i].1, #[trigger] r@[i]),
{
    let mut r: Vec<PackageInfo> = Vec::new();
    let mut rest = entries;
    let ghost all = rest@;
    // Take entries from the back, then restore the order.
    let mut back: Vec<PackageInfo> = Vec::new();
    while rest.len() > 0
        invariant
            rest@ == all.take(rest@.len() as int),
            rest@.len() + back@.len() == all.len(),
            forall|k: int|
                0 <= k < back@.len() ==> entry_describes(
                    all[all.len() - 1 - k].0@,
                    all[all.len() - 1 - k].1,
                    #[trigger] back@[k],
                ),
        decreases rest@.len(),
    {
        let (name, e) = rest.pop().unwrap();
        let p = package_from_entry(name.as_str(), e);
        back.push(p);
        assert(rest@ =~= all.take(rest@.len() as int));
    }
    while back.len() > 0
        invariant
            r@.len() + back@.len() == all.len(),
            forall|k: int|
                0 <= k < back@.len() ==> entry_describes(
                    all[all.len() - 1 - k].0@,
                    all[all.len() - 1 - k].1,
                    #[trigger] back@[k],
                ),
            forall|i: int| 0 <= i < r@.len() ==> entry_describes(all[i].0@, all[i].1, #[trigger] r@[i]),
        decreases back@.len(),
    {
        let p = back.pop().unwrap();
        r.push(p);
    }
    r
}

} // verus!
