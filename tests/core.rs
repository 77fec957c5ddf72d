use anspm::cache::{cache_key, CacheStep, PackageCache};
use anspm::error::PmError;
use anspm::installer::{
    commit_install, install_plan, installed_files, installed_path, listed_files, missing_files, plan_error, reinstall, remove,
    update, update_candidates, InstallPlan,
};
use anspm::package::{package_from_entry, packages_from_index, IndexEntry, PackageInfo};
use anspm::registry::{derive_repo_name, repo_add, repo_remove, repo_verify, RepoRegistry};
use anspm::resolver::{find_package, index_url, outcome_decides, search, signature_url, RepoOutcome};
use anspm::text::{host_of, last_segment_of, split_lines, str_contains, trim_slashes_end};
use anspm::tracker::{InstalledRecord, TrackingDb};
use anspm::version::{is_upgrade, version_less};

fn pkg(name: &str, version: &str, os: &str, description: &str) -> PackageInfo {
    PackageInfo {
        name: name.to_string(),
        version: version.to_string(),
        description: description.to_string(),
        url: format!("https://example.com/pkgs/{}-{}.tar.gz", name, version),
        os: os.to_string(),
        arch: "any".to_string(),
        deps: vec!["libc".to_string()],
        author: "someone".to_string(),
        license: "MIT".to_string(),
    }
}

fn strings(v: &[&str]) -> Vec<String> {
    v.iter().map(|s| s.to_string()).collect()
}

fn installed(db: &mut TrackingDb, name: &str, version: &str) {
    let p = pkg(name, version, "all", "d");
    let files = strings(&["/usr/bin/x"]);
    commit_install(db, name, &p, files, &vec![true]).unwrap();
}

#[test]
fn version_order_is_literal() {
    assert!(version_less("1.10.0", "1.2.0"));
    assert!(!version_less("1.2.0", "1.10.0"));
    assert!(!version_less("1.0", "1.0"));
    assert!(version_less("1.0", "1.0.1"));
    assert!(version_less("", "a"));
    assert!(is_upgrade("1.0", "2.0"));
    assert!(!is_upgrade("1.2.0", "1.10.0"));
}

#[test]
fn repo_add_to_empty_registry_lists_one() {
    let mut reg = RepoRegistry::new();
    let r = repo_add(&mut reg, "https://example.com/repo", Some("ex"), None, true);
    assert_eq!(r.unwrap(), "ex");
    assert_eq!(reg.len(), 1);
    assert_eq!(reg.entries[0].name, "ex");
    assert_eq!(reg.entries[0].config.url, "https://example.com/repo");
    assert!(reg.entries[0].config.gpg_key.is_none());
}

#[test]
fn repo_add_derives_name_from_host() {
    let mut reg = RepoRegistry::new();
    let r = repo_add(&mut reg, "https://example.com/repo", None, Some("https://example.com/k.asc"), true);
    assert_eq!(r.unwrap(), "example.com");
    assert_eq!(reg.entries[0].config.gpg_key.as_deref(), Some("https://example.com/k.asc"));
    assert_eq!(derive_repo_name("no-slashes", None), "unknown");
    assert_eq!(derive_repo_name("a/b", None), "unknown");
    assert_eq!(derive_repo_name("a/b/", None), "");
}

#[test]
fn repo_add_existing_name_fails() {
    let mut reg = RepoRegistry::default_registry();
    let r = repo_add(&mut reg, "https://other.org", Some("anspm-official"), None, true);
    assert!(matches!(r, Err(PmError::AlreadyExists(ref n)) if n == "anspm-official"));
    assert_eq!(reg.len(), 1);
}

#[test]
fn repo_add_unverified_fails_closed() {
    let mut reg = RepoRegistry::new();
    let r = repo_add(&mut reg, "https://bad.org/r", Some("bad"), None, false);
    assert!(matches!(r, Err(PmError::VerificationFailure(ref u)) if u == "https://bad.org/r"));
    assert_eq!(reg.len(), 0);
}

#[test]
fn repo_remove_keeps_order_and_reports_missing() {
    let mut reg = RepoRegistry::new();
    repo_add(&mut reg, "https://a.org/r", Some("a"), None, true).unwrap();
    repo_add(&mut reg, "https://b.org/r", Some("b"), None, true).unwrap();
    repo_add(&mut reg, "https://c.org/r", Some("c"), None, true).unwrap();
    repo_remove(&mut reg, "b").unwrap();
    assert_eq!(reg.len(), 2);
    assert_eq!(reg.entries[0].name, "a");
    assert_eq!(reg.entries[1].name, "c");
    let r = repo_remove(&mut reg, "b");
    assert!(matches!(r, Err(PmError::NotFound(ref n)) if n == "b"));
    assert_eq!(reg.len(), 2);
}

#[test]
fn repo_verify_outcomes() {
    let reg = RepoRegistry::default_registry();
    assert!(repo_verify(&reg, "anspm-official", true).is_ok());
    let r = repo_verify(&reg, "anspm-official", false);
    assert!(matches!(r, Err(PmError::VerificationFailure(ref u)) if u == "https://anspm.akaruineko.space"));
    let r = repo_verify(&reg, "nope", true);
    assert!(matches!(r, Err(PmError::NotFound(ref n)) if n == "nope"));
    assert_eq!(reg.url_of("anspm-official").unwrap(), "https://anspm.akaruineko.space");
    assert!(reg.url_of("nope").is_none());
}

#[test]
fn find_package_first_repository_wins() {
    let r1 = RepoOutcome::Fetched(vec![pkg("p", "1.0", "all", "old")]);
    let r2 = RepoOutcome::Fetched(vec![pkg("p", "9.0", "all", "new")]);
    let found = find_package(&vec![r1, r2], "p").unwrap();
    assert_eq!(found.version, "1.0");
}

#[test]
fn find_package_skips_repositories_without_it() {
    let r1 = RepoOutcome::Fetched(vec![pkg("q", "1.0", "all", "")]);
    let r2 = RepoOutcome::Fetched(vec![pkg("p", "2.0", "all", "")]);
    assert!(!outcome_decides(&r1, "p"));
    assert!(outcome_decides(&r2, "p"));
    assert_eq!(find_package(&vec![r1, r2], "p").unwrap().version, "2.0");
}

#[test]
fn find_package_unverified_repository_aborts() {
    let r1 = RepoOutcome::Unverified("https://r1".to_string());
    let r2 = RepoOutcome::Fetched(vec![pkg("p", "2.0", "all", "")]);
    let r = find_package(&vec![r1, r2], "p");
    assert!(matches!(r, Err(PmError::VerificationFailure(ref u)) if u == "https://r1"));
}

#[test]
fn find_package_fetch_failure_aborts() {
    let r1 = RepoOutcome::Failed(PmError::NetworkFailure("https://r1".to_string()));
    let r2 = RepoOutcome::Fetched(vec![pkg("p", "2.0", "all", "")]);
    let r = find_package(&vec![r1, r2], "p");
    assert!(matches!(r, Err(PmError::NetworkFailure(ref u)) if u == "https://r1"));
    let r = find_package(&vec![RepoOutcome::Failed(PmError::ParseFailure("bad".to_string()))], "p");
    assert!(matches!(r, Err(PmError::ParseFailure(_))));
}

#[test]
fn find_package_not_found() {
    let r1 = RepoOutcome::Fetched(vec![pkg("q", "1.0", "all", "")]);
    let r = find_package(&vec![r1], "p");
    assert!(matches!(r, Err(PmError::NotFound(ref n)) if n == "p"));
    let r = find_package(&vec![], "p");
    assert!(matches!(r, Err(PmError::NotFound(_))));
}

#[test]
fn search_matches_name_or_description() {
    let all = vec![
        pkg("editor", "1", "all", "a text editor"),
        pkg("shell", "1", "all", "command Editor"),
        pkg("tool", "1", "all", "edits things"),
        pkg("editor", "2", "all", "duplicate"),
    ];
    let r = search(&all, "edit");
    assert_eq!(r.len(), 3);
    assert_eq!(r[0].name, "editor");
    assert_eq!(r[1].name, "tool");
    assert_eq!(r[2].version, "2");
    assert_eq!(search(&all, "Editor").len(), 1);
    assert_eq!(search(&all, "").len(), 4);
    assert!(str_contains("abc", "bc"));
    assert!(!str_contains("abc", "cb"));
}

#[test]
fn index_entry_defaults() {
    let e = IndexEntry {
        version: None,
        description: None,
        url: None,
        os: None,
        arch: None,
        deps: None,
        author: None,
        license: None,
    };
    let p = package_from_entry("foo", e);
    assert_eq!(p.name, "foo");
    assert_eq!(p.version, "unknown");
    assert_eq!(p.description, "No description");
    assert_eq!(p.url, "");
    assert_eq!(p.os, "all");
    assert_eq!(p.arch, "any");
    assert!(p.deps.is_empty());
    assert_eq!(p.author, "unknown");
    assert_eq!(p.license, "unknown");
}

#[test]
fn index_entries_keep_given_fields_and_order() {
    let e = IndexEntry {
        version: Some("1.0".to_string()),
        description: Some("d".to_string()),
        url: Some("u".to_string()),
        os: Some("linux".to_string()),
        arch: Some("x86_64".to_string()),
        deps: Some(strings(&["a", "b"])),
        author: Some("me".to_string()),
        license: Some("GPL".to_string()),
    };
    let e2 = IndexEntry {
        version: Some("2.0".to_string()),
        description: None,
        url: None,
        os: None,
        arch: None,
        deps: None,
        author: None,
        license: None,
    };
    let ps = packages_from_index(vec![("foo".to_string(), e), ("bar".to_string(), e2)]);
    assert_eq!(ps.len(), 2);
    assert_eq!(ps[0].name, "foo");
    assert_eq!(ps[0].os, "linux");
    assert_eq!(ps[0].deps, strings(&["a", "b"]));
    assert_eq!(ps[1].name, "bar");
    assert_eq!(ps[1].version, "2.0");
    assert_eq!(ps[1].os, "all");
}

#[test]
fn cache_key_and_second_fetch_hits() {
    assert_eq!(cache_key("foo", "https://x.org/pkgs/foo-1.0.tar.gz"), "foo-foo-1.0.tar.gz");
    assert_eq!(cache_key("foo", "plain"), "foo-plain");
    assert_eq!(cache_key("foo", "https://x.org/"), "foo-");
    let mut cache = PackageCache::new();
    let mut downloads = 0;
    for _ in 0..2 {
        match cache.fetch_step("foo", "https://x.org/pkgs/foo.tgz") {
            CacheStep::Hit(k) => assert_eq!(k, "foo-foo.tgz"),
            CacheStep::Miss(k) => {
                downloads += 1;
                cache.note(&k);
            }
        }
    }
    assert_eq!(downloads, 1);
    assert!(cache.holds("foo-foo.tgz"));
    assert!(!cache.holds("foo-other.tgz"));
}

#[test]
fn install_records_package() {
    let mut db = TrackingDb::new();
    let remote = pkg("foo", "1.0", "all", "d");
    assert_eq!(install_plan(&db, "foo", &remote, true, "linux"), InstallPlan::Proceed);
    let files = installed_files(&strings(&["usr/bin/foo", "usr/share/foo/"]));
    assert_eq!(files, strings(&["/usr/bin/foo", "/usr/share/foo/"]));
    commit_install(&mut db, "foo", &remote, files, &vec![true, false]).unwrap();
    let rec = db.get("foo").unwrap();
    assert_eq!(rec.version, "1.0");
    assert!(!rec.files.is_empty());
    assert_eq!(rec.meta.name, "foo");
    assert_eq!(rec.meta.deps, strings(&["libc"]));
}

#[test]
fn install_twice_is_noop() {
    let mut db = TrackingDb::new();
    let remote = pkg("foo", "1.0", "all", "d");
    commit_install(&mut db, "foo", &remote, strings(&["/a"]), &vec![true]).unwrap();
    assert_eq!(install_plan(&db, "foo", &remote, true, "linux"), InstallPlan::AlreadyInstalled);
    assert_eq!(db.len(), 1);
    assert_eq!(db.get("foo").unwrap().version, "1.0");
    assert_eq!(install_plan(&db, "foo", &remote, false, "linux"), InstallPlan::Proceed);
}

#[test]
fn install_plan_versions_and_platform() {
    let mut db = TrackingDb::new();
    installed(&mut db, "foo", "1.2.0");
    let newer = pkg("foo", "1.3.0", "all", "");
    let older = pkg("foo", "1.10.0", "all", "");
    assert_eq!(install_plan(&db, "foo", &newer, true, "linux"), InstallPlan::UpdateAvailable);
    assert_eq!(install_plan(&db, "foo", &older, true, "linux"), InstallPlan::NewerInstalled);
    let other = pkg("bar", "1", "windows", "");
    let plan = install_plan(&db, "bar", &other, true, "linux");
    assert_eq!(plan, InstallPlan::Incompatible);
    assert!(matches!(plan_error(plan, "bar"), Some(PmError::IncompatiblePlatform(ref n)) if n == "bar"));
    assert!(plan_error(InstallPlan::Proceed, "bar").is_none());
    let native = pkg("bar", "1", "linux", "");
    assert_eq!(install_plan(&db, "bar", &native, true, "linux"), InstallPlan::Proceed);
}

#[test]
fn install_without_present_files_fails() {
    let mut db = TrackingDb::new();
    let remote = pkg("foo", "1.0", "all", "d");
    let r = commit_install(&mut db, "foo", &remote, strings(&["/a", "/b"]), &vec![false, false]);
    assert!(matches!(r, Err(PmError::InstallFailure(ref n)) if n == "foo"));
    assert!(db.get("foo").is_none());
    let r = commit_install(&mut db, "foo", &remote, vec![], &vec![]);
    assert!(r.is_err());
}

#[test]
fn remove_then_get_is_absent() {
    let mut db = TrackingDb::new();
    let remote = pkg("foo", "1.0", "all", "d");
    let files = strings(&["/usr", "/usr/bin/foo", "/usr/bin", "/etc/foo.conf"]);
    commit_install(&mut db, "foo", &remote, files, &vec![true, true, true, true]).unwrap();
    installed(&mut db, "bar", "2");
    let out = remove(&mut db, "foo").unwrap();
    assert_eq!(out, strings(&["/usr/bin/foo", "/usr/bin", "/usr", "/etc/foo.conf"]));
    assert!(db.get("foo").is_none());
    assert!(db.get("bar").is_some());
    assert!(remove(&mut db, "foo").is_none());
    assert_eq!(db.len(), 1);
}

#[test]
fn reinstall_record_matches_fresh_install() {
    let remote = pkg("foo", "1.0", "all", "d");
    let files = strings(&["/a", "/b"]);
    let mut fresh = TrackingDb::new();
    commit_install(&mut fresh, "foo", &remote, files.clone(), &vec![true, true]).unwrap();

    let mut db = TrackingDb::new();
    commit_install(&mut db, "foo", &pkg("foo", "0.9", "all", "old"), strings(&["/old"]), &vec![true]).unwrap();
    let gone = reinstall(&mut db, "foo");
    assert_eq!(gone, strings(&["/old"]));
    assert!(db.get("foo").is_none());
    commit_install(&mut db, "foo", &remote, files, &vec![true, true]).unwrap();
    let a = db.get("foo").unwrap();
    let b = fresh.get("foo").unwrap();
    assert_eq!(a.version, b.version);
    assert_eq!(a.files, b.files);
    assert_eq!(a.meta.description, b.meta.description);
    assert_eq!(a.meta.url, b.meta.url);
    assert!(reinstall(&mut db, "nothing").is_empty());
}

#[test]
fn update_reinstalls_only_newer() {
    let mut db = TrackingDb::new();
    installed(&mut db, "a", "1.0");
    installed(&mut db, "b", "2.0");
    installed(&mut db, "c", "1.2.0");
    let latest = vec![Some("1.0".to_string()), Some("2.1".to_string()), Some("1.10.0".to_string())];
    let targets = update(&db, None, &latest);
    assert_eq!(targets, strings(&["b"]));
    assert_eq!(db.get("a").unwrap().version, "1.0");
    assert_eq!(db.get("c").unwrap().version, "1.2.0");
}

#[test]
fn update_with_filter_and_failed_lookups() {
    let mut db = TrackingDb::new();
    installed(&mut db, "a", "1.0");
    installed(&mut db, "b", "1.0");
    let latest = vec![Some("2.0".to_string()), Some("2.0".to_string())];
    assert_eq!(update(&db, Some("b"), &latest), strings(&["b"]));
    assert_eq!(update(&db, None, &latest), strings(&["a", "b"]));
    assert_eq!(update(&db, None, &vec![None, Some("2.0".to_string())]), strings(&["b"]));
    assert_eq!(update_candidates(&db, Some("a")), strings(&["a"]));
    assert_eq!(update_candidates(&db, None), strings(&["a", "b"]));
    assert!(update_candidates(&db, Some("zzz")).is_empty());
}

#[test]
fn tracker_record_overwrites_in_place() {
    let mut db = TrackingDb::new();
    installed(&mut db, "a", "1");
    installed(&mut db, "b", "1");
    let rec = InstalledRecord { version: "2".to_string(), files: strings(&["/z"]), meta: pkg("a", "2", "all", "") };
    db.record("a", rec);
    assert_eq!(db.len(), 2);
    assert_eq!(db.entries[0].name, "a");
    assert_eq!(db.get("a").unwrap().version, "2");
    db.unrecord("zzz");
    assert_eq!(db.len(), 2);
}

#[test]
fn listed_paths_are_trimmed_and_rooted() {
    assert_eq!(installed_path("  usr/bin/foo \r"), "/usr/bin/foo");
    assert_eq!(installed_path("etc/x"), "/etc/x");
}

#[test]
fn urls_and_segments() {
    assert_eq!(index_url("https://r.org/repo//"), "https://r.org/repo/index.json");
    assert_eq!(signature_url("https://r.org/repo"), "https://r.org/repo/index.json.asc");
    assert_eq!(trim_slashes_end("a/b/"), "a/b");
    assert_eq!(host_of("https://r.org/repo").unwrap(), "r.org");
    assert_eq!(host_of("https://r.org").unwrap(), "r.org");
    assert!(host_of("r.org").is_none());
    assert_eq!(last_segment_of("a/b/c.tgz"), "c.tgz");
    assert_eq!(last_segment_of("abc"), "abc");
}

#[test]
fn error_subject() {
    assert_eq!(PmError::NotFound("x".to_string()).subject(), "x");
    assert_eq!(PmError::FilesystemFailure("/tmp".to_string()).subject(), "/tmp");
}

#[test]
fn archive_listing_lines() {
    assert_eq!(split_lines("a\nb\r\nc"), strings(&["a", "b", "c"]));
    assert_eq!(split_lines("a\n"), strings(&["a"]));
    assert_eq!(split_lines("a\n\nb\n"), strings(&["a", "", "b"]));
    assert!(split_lines("").is_empty());
    assert_eq!(split_lines("\n"), strings(&[""]));
    assert_eq!(
        listed_files("usr/\nusr/bin/foo\n"),
        strings(&["/usr/", "/usr/bin/foo"])
    );
}

#[test]
fn missing_files_of_a_record() {
    let mut db = TrackingDb::new();
    let remote = pkg("foo", "1.0", "all", "d");
    commit_install(&mut db, "foo", &remote, strings(&["/a", "/b", "/c"]), &vec![true, true, true]).unwrap();
    let rec = db.get("foo").unwrap();
    assert_eq!(missing_files(rec, &vec![true, false, false]), strings(&["/b", "/c"]));
    assert!(missing_files(rec, &vec![true, true, true]).is_empty());
}
