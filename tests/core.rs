use rpm_next::planner::RpmNext;
use rpm_next::resolver::Resolver;
use rpm_next::{
    ConstraintOp, Dependency, PackageDatabase, PackageFormat, PackageInfo, PkgConfig, PkgError,
    Transaction, VersionConstraint,
};
use std::cmp::Ordering;

fn rec(name: &str, version: &str, deps: &[(&str, Option<(ConstraintOp, &str)>)]) -> PackageInfo {
    PackageInfo {
        name: name.to_string(),
        version: version.to_string(),
        release: 1,
        arch: "x86_64".to_string(),
        format: PackageFormat::Native,
        description: String::new(),
        maintainer: String::new(),
        license: String::new(),
        homepage: String::new(),
        size: 10,
        installed_size: 100,
        dependencies: deps
            .iter()
            .map(|(n, c)| Dependency {
                name: n.to_string(),
                version_constraint: c.map(|(op, v)| VersionConstraint {
                    operator: op,
                    version: v.to_string(),
                }),
            })
            .collect(),
        conflicts: Vec::new(),
        provides: Vec::new(),
        replaces: Vec::new(),
        files: Vec::new(),
        checksum: String::new(),
    }
}

fn names(v: &[PackageInfo]) -> Vec<String> {
    v.iter().map(|p| format!("{}@{}", p.name, p.version)).collect()
}

fn config() -> PkgConfig {
    PkgConfig {
        root: "/".to_string(),
        cache_dir: "/var/cache/rpm-next".to_string(),
        db_dir: "/var/lib/rpm-next".to_string(),
        repos: Vec::new(),
        parallel_downloads: 4,
    }
}

#[test]
fn version_order_by_numeric_components() {
    let r = Resolver::new();
    assert_eq!(r.compare_versions("1.10", "1.9"), Ordering::Greater);
    assert_eq!(r.compare_versions("1.0", "1.0.0"), Ordering::Less);
    assert_eq!(r.compare_versions("2.0-1", "2.0.1"), Ordering::Equal);
    assert_eq!(r.compare_versions("v3", "3"), Ordering::Equal);
    assert_eq!(r.compare_versions("", "0"), Ordering::Less);
    assert_eq!(r.compare_versions("1:2.0-3", "2.0"), Ordering::Less);
}

#[test]
fn version_long_runs_keep_their_value() {
    let r = Resolver::new();
    assert_eq!(r.compare_versions("1.99999999999", "1"), Ordering::Greater);
    assert_eq!(r.compare_versions("4294967296", ""), Ordering::Greater);
    assert_eq!(r.compare_versions("99999999999999999999", "100000000000000000000"), Ordering::Less);
    assert_eq!(r.compare_versions("1.007", "1.7"), Ordering::Equal);
    assert_eq!(r.compare_versions("0", "00"), Ordering::Equal);
    assert_eq!(r.compare_versions("4294967295", "4294967294"), Ordering::Greater);
}

#[test]
fn version_order_is_antisymmetric_and_transitive_on_examples() {
    let r = Resolver::new();
    let vs = ["1.0", "1.0.1", "1.2", "1.10", "2", "0.9.9"];
    for a in vs.iter() {
        for b in vs.iter() {
            assert_eq!(r.compare_versions(a, b), r.compare_versions(b, a).reverse());
            for c in vs.iter() {
                if r.compare_versions(a, b) != Ordering::Greater
                    && r.compare_versions(b, c) != Ordering::Greater
                {
                    assert_ne!(r.compare_versions(a, c), Ordering::Greater);
                }
            }
        }
    }
}

#[test]
fn constraint_operators() {
    let r = Resolver::new();
    let c = |op, v: &str| VersionConstraint { operator: op, version: v.to_string() };
    assert!(r.version_satisfies("2.1", &c(ConstraintOp::Ge, "2.0")));
    assert!(!r.version_satisfies("1.9", &c(ConstraintOp::Ge, "2.0")));
    assert!(r.version_satisfies("2.0", &c(ConstraintOp::Le, "2.0")));
    assert!(r.version_satisfies("1.0", &c(ConstraintOp::Lt, "1.0.1")));
    assert!(!r.version_satisfies("1.0", &c(ConstraintOp::Gt, "1.0")));
    assert!(r.version_satisfies("1-0", &c(ConstraintOp::Eq, "1.0")));
    assert!(!r.version_satisfies("1.0", &c(ConstraintOp::Eq, "1.0.0")));
}

#[test]
fn end_to_end_app_and_lib() {
    let mut r = Resolver::new();
    r.add_available(vec![
        rec("app", "1.0", &[("lib", Some((ConstraintOp::Ge, "2.0")))]),
        rec("lib", "2.1", &[]),
        rec("lib", "1.9", &[]),
    ]);
    let out = r.resolve(&["app"]).unwrap();
    assert_eq!(names(&out), vec!["lib@2.1", "app@1.0"]);
}

#[test]
fn constraint_picks_best_satisfying() {
    let mut r = Resolver::new();
    r.add_available(vec![
        rec("app", "1.0", &[("lib", Some((ConstraintOp::Lt, "2.0")))]),
        rec("lib", "2.1", &[]),
        rec("lib", "1.9", &[]),
        rec("lib", "1.5", &[]),
    ]);
    let out = r.resolve(&["app"]).unwrap();
    assert_eq!(names(&out), vec!["lib@1.9", "app@1.0"]);
}

#[test]
fn unsatisfiable_constraint_is_dependency_error() {
    let mut r = Resolver::new();
    r.add_available(vec![
        rec("app", "1.0", &[("lib", Some((ConstraintOp::Ge, "3.0")))]),
        rec("lib", "2.1", &[]),
    ]);
    match r.resolve(&["app"]) {
        Err(PkgError::DependencyError(n)) => assert_eq!(n, "lib"),
        other => panic!("unexpected {:?}", other.map(|v| names(&v))),
    }
}

#[test]
fn missing_package_is_not_found() {
    let mut r = Resolver::new();
    r.add_available(vec![rec("app", "1.0", &[("ghost", None)])]);
    match r.resolve(&["app"]) {
        Err(PkgError::PackageNotFound(n)) => assert_eq!(n, "ghost"),
        other => panic!("unexpected {:?}", other.map(|v| names(&v))),
    }
}

#[test]
fn resolution_is_repeatable() {
    let mut r = Resolver::new();
    r.add_available(vec![
        rec("a", "1", &[("b", None), ("c", None)]),
        rec("b", "1", &[("d", None)]),
        rec("c", "1", &[("d", None)]),
        rec("d", "1", &[]),
    ]);
    let first = names(&r.resolve(&["a"]).unwrap());
    let second = names(&r.resolve(&["a"]).unwrap());
    assert_eq!(first, second);
}

#[test]
fn diamond_visits_shared_dependency_once() {
    let mut r = Resolver::new();
    r.add_available(vec![
        rec("a", "1", &[("b", None), ("c", None)]),
        rec("b", "1", &[("d", None)]),
        rec("c", "1", &[("d", None)]),
        rec("d", "1", &[]),
    ]);
    let out = names(&r.resolve(&["a", "a"]).unwrap());
    assert_eq!(out.iter().filter(|n| n.as_str() == "d@1").count(), 1);
    assert_eq!(out.len(), 4);
    assert_eq!(out[0], "d@1");
    assert_eq!(out[3], "a@1");
}

#[test]
fn dependencies_come_first() {
    let mut r = Resolver::new();
    r.add_available(vec![
        rec("top", "1", &[("mid", None)]),
        rec("mid", "1", &[("base", None)]),
        rec("base", "1", &[]),
    ]);
    let out = names(&r.resolve(&["top"]).unwrap());
    assert_eq!(out, vec!["base@1", "mid@1", "top@1"]);
}

#[test]
fn cycle_still_orders_everything() {
    let mut r = Resolver::new();
    r.add_available(vec![
        rec("a", "1", &[("b", None)]),
        rec("b", "1", &[("c", None)]),
        rec("c", "1", &[("a", None)]),
    ]);
    let out = names(&r.resolve(&["a"]).unwrap());
    assert_eq!(out.len(), 3);
    for n in ["a@1", "b@1", "c@1"] {
        assert!(out.contains(&n.to_string()));
    }
}

#[test]
fn conflict_is_rejected_naming_both() {
    let mut r = Resolver::new();
    let mut one = rec("one", "1", &[("two", None)]);
    one.conflicts.push("two".to_string());
    r.add_available(vec![one, rec("two", "1", &[])]);
    match r.resolve(&["one"]) {
        Err(PkgError::ConflictError(m)) => {
            assert!(m.contains("one"));
            assert!(m.contains("two"));
        }
        other => panic!("unexpected {:?}", other.map(|v| names(&v))),
    }
}

#[test]
fn conflict_with_installed_is_rejected() {
    let mut r = Resolver::new();
    r.set_installed(vec![rec("old", "1", &[])]);
    let mut new = rec("new", "1", &[]);
    new.conflicts.push("old".to_string());
    r.add_available(vec![new]);
    match r.resolve(&["new"]) {
        Err(PkgError::ConflictError(m)) => assert_eq!(m, "new conflicts with old"),
        other => panic!("unexpected {:?}", other.map(|v| names(&v))),
    }
}

#[test]
fn installed_names_are_skipped() {
    let mut r = Resolver::new();
    r.set_installed(vec![rec("lib", "1.0", &[])]);
    r.add_available(vec![rec("app", "1", &[("lib", None)]), rec("lib", "2.0", &[])]);
    assert_eq!(names(&r.resolve(&["app"]).unwrap()), vec!["app@1"]);
}

#[test]
fn virtual_name_met_by_provider() {
    let mut r = Resolver::new();
    let mut postfix = rec("postfix", "3", &[]);
    postfix.provides.push("mta".to_string());
    r.add_available(vec![rec("mailer", "1", &[("mta", None)]), postfix]);
    let out = names(&r.resolve(&["mailer", "postfix"]).unwrap());
    assert_eq!(out.len(), 2);
    assert!(out.contains(&"postfix@3".to_string()));
    match r.resolve(&["mailer"]) {
        Err(PkgError::PackageNotFound(n)) => assert_eq!(n, "mta"),
        other => panic!("unexpected {:?}", other.map(|v| names(&v))),
    }
}

#[test]
fn priority_breaks_version_ties() {
    let mut r = Resolver::new();
    let mut low = rec("x", "1.0", &[]);
    low.description = "low".to_string();
    let mut high = rec("x", "1.0", &[]);
    high.description = "high".to_string();
    r.ingest(1, vec![low]);
    r.ingest(5, vec![high]);
    assert_eq!(r.find_best_version("x").unwrap().description, "high");
    let mut newer = rec("x", "1.1", &[]);
    newer.description = "newer".to_string();
    r.ingest(0, vec![newer]);
    assert_eq!(r.find_best_version("x").unwrap().description, "newer");
    assert!(matches!(r.find_best_version("y"), Err(PkgError::PackageNotFound(_))));
}

#[test]
fn satisfying_version_search() {
    let mut r = Resolver::new();
    r.add_available(vec![rec("x", "1.0", &[]), rec("x", "2.0", &[]), rec("x", "3.0", &[])]);
    let c = VersionConstraint { operator: ConstraintOp::Lt, version: "3".to_string() };
    assert_eq!(r.find_version_satisfying("x", &c).unwrap().version, "2.0");
    let none = VersionConstraint { operator: ConstraintOp::Gt, version: "3.0".to_string() };
    assert!(matches!(r.find_version_satisfying("x", &none), Err(PkgError::DependencyError(_))));
    assert!(matches!(r.find_version_satisfying("z", &none), Err(PkgError::PackageNotFound(_))));
}

#[test]
fn ledger_tracks_files() {
    let mut db = PackageDatabase::new();
    let mut p = rec("tool", "1", &[]);
    p.files = vec!["/usr/bin/tool".to_string(), "/usr/share/tool".to_string()];
    db.register(p);
    assert!(db.is_installed("tool"));
    assert_eq!(db.file_owner("/usr/bin/tool"), Some("tool"));
    assert_eq!(db.get("tool").unwrap().version, "1");
    assert_eq!(db.list().len(), 1);
    let removed = db.unregister("tool").unwrap();
    assert_eq!(removed.name, "tool");
    assert_eq!(db.file_owner("/usr/bin/tool"), None);
    assert!(!db.is_installed("tool"));
    assert!(db.unregister("tool").is_none());
}

#[test]
fn register_replaces_same_name() {
    let mut db = PackageDatabase::default();
    db.register(rec("tool", "1", &[]));
    db.register(rec("tool", "2", &[]));
    assert_eq!(db.list().len(), 1);
    assert_eq!(db.get("tool").unwrap().version, "2");
}

#[test]
fn transaction_emptiness() {
    let mut t = Transaction::new();
    assert!(t.is_empty());
    t.remove.push("x".to_string());
    assert!(!t.is_empty());
    assert!(Transaction::default().is_empty());
}

#[test]
fn install_plans_and_records() {
    let mut m = RpmNext::new(config()).unwrap();
    m.ingest(0, vec![
        rec("app", "1.0", &[("lib", Some((ConstraintOp::Ge, "2.0")))]),
        rec("lib", "2.1", &[]),
        rec("lib", "1.9", &[]),
    ]);
    let tx = m.install(&["app"]).unwrap();
    assert_eq!(names(&tx.install), vec!["lib@2.1", "app@1.0"]);
    assert_eq!(tx.download_size, 20);
    assert_eq!(tx.size_change, 200);
    assert!(m.info("lib").unwrap().is_some());
    let again = m.install(&["app"]).unwrap();
    assert!(again.is_empty());
}

#[test]
fn install_unsupported_format_fails() {
    let mut m = RpmNext::new(config()).unwrap();
    let mut p = rec("setup", "1", &[]);
    p.format = PackageFormat::Msi;
    m.ingest(0, vec![p]);
    assert!(matches!(m.install(&["setup"]), Err(PkgError::UnsupportedFormat)));
}

#[test]
fn removal_of_depended_on_package_fails() {
    let mut m = RpmNext::new(config()).unwrap();
    m.ingest(0, vec![rec("y", "1", &[("x", None)]), rec("x", "1", &[])]);
    m.install(&["y"]).unwrap();
    match m.remove(&["x"]) {
        Err(PkgError::DependencyError(msg)) => assert_eq!(msg, "y depends on x"),
        other => panic!("unexpected {:?}", other.map(|t| t.remove)),
    }
    let tx = m.remove(&["x", "y"]).unwrap();
    assert_eq!(tx.remove, vec!["x".to_string(), "y".to_string()]);
    assert_eq!(tx.size_change, -200);
    assert!(m.info("x").unwrap().is_some());
}

#[test]
fn removal_of_missing_package_fails() {
    let mut m = RpmNext::new(config()).unwrap();
    match m.remove(&["nothing"]) {
        Err(PkgError::NotInstalled(n)) => assert_eq!(n, "nothing"),
        other => panic!("unexpected {:?}", other.map(|t| t.remove)),
    }
}

#[test]
fn upgrade_only_to_newer() {
    let mut m = RpmNext::new(config()).unwrap();
    m.ingest(0, vec![rec("x", "2.0", &[])]);
    m.install(&["x"]).unwrap();
    m.ingest(0, vec![rec("x", "1.5", &[])]);
    let tx = m.upgrade(&[]).unwrap();
    assert!(tx.upgrade.is_empty());
    let mut newer = rec("x", "3.0", &[]);
    newer.installed_size = 150;
    newer.size = 7;
    m.ingest(0, vec![newer]);
    let tx = m.upgrade(&["x"]).unwrap();
    assert_eq!(tx.upgrade.len(), 1);
    assert_eq!(tx.upgrade[0].0.version, "2.0");
    assert_eq!(tx.upgrade[0].1.version, "3.0");
    assert_eq!(tx.download_size, 7);
    assert_eq!(tx.size_change, 50);
    let tx = m.upgrade(&[]).unwrap();
    assert!(tx.upgrade.is_empty());
}

#[test]
fn info_prefers_installed_record() {
    let mut m = RpmNext::new(config()).unwrap();
    m.ingest(0, vec![rec("x", "1", &[])]);
    m.install(&["x"]).unwrap();
    m.ingest(0, vec![rec("x", "2", &[])]);
    assert_eq!(m.info("x").unwrap().unwrap().version, "1");
    assert!(m.info("y").unwrap().is_none());
}

#[test]
fn later_stricter_constraint_is_rejected() {
    let mut r = Resolver::new();
    r.add_available(vec![
        rec("app", "1.0", &[("lib", Some((ConstraintOp::Ge, "2.0")))]),
        rec("lib", "1.9", &[]),
    ]);
    match r.resolve(&["app", "lib"]) {
        Err(PkgError::DependencyError(n)) => assert_eq!(n, "lib"),
        other => panic!("unexpected {:?}", other.map(|v| names(&v))),
    }
    match r.resolve(&["lib", "app"]) {
        Err(PkgError::DependencyError(n)) => assert_eq!(n, "lib"),
        other => panic!("unexpected {:?}", other.map(|v| names(&v))),
    }
}

#[test]
fn repeated_requests_match_single_request() {
    let mut r = Resolver::new();
    r.add_available(vec![rec("a", "1", &[("b", None)]), rec("b", "1", &[])]);
    let once = names(&r.resolve(&["a", "b"]).unwrap());
    let twice = names(&r.resolve(&["a", "b", "a", "b"]).unwrap());
    let mut x = once.clone();
    let mut y = twice.clone();
    x.sort();
    y.sort();
    assert_eq!(x, y);
}

#[test]
fn failed_removal_leaves_ledger() {
    let mut m = RpmNext::new(config()).unwrap();
    m.ingest(0, vec![rec("y", "1", &[("x", None)]), rec("x", "1", &[])]);
    m.install(&["y"]).unwrap();
    match m.remove(&["y", "ghost", "other"]) {
        Err(PkgError::NotInstalled(n)) => assert_eq!(n, "ghost"),
        other => panic!("unexpected {:?}", other.map(|t| t.remove)),
    }
    assert!(m.info("y").unwrap().is_some());
    assert!(m.remove(&["x"]).is_err());
    assert_eq!(m.info("x").unwrap().unwrap().name, "x");
}

#[test]
fn upgrade_plans_each_name_once() {
    let mut m = RpmNext::new(config()).unwrap();
    m.ingest(0, vec![rec("x", "1.0", &[])]);
    m.install(&["x"]).unwrap();
    m.ingest(0, vec![rec("x", "2.0", &[])]);
    let tx = m.upgrade(&["x", "x"]).unwrap();
    assert_eq!(tx.upgrade.len(), 1);
    assert_eq!(m.info("x").unwrap().unwrap().version, "2.0");
}

#[test]
fn upgrade_to_unsupported_format_fails() {
    let mut m = RpmNext::new(config()).unwrap();
    m.ingest(0, vec![rec("x", "1.0", &[])]);
    m.install(&["x"]).unwrap();
    let mut newer = rec("x", "2.0", &[]);
    newer.format = PackageFormat::Msi;
    m.ingest(0, vec![newer]);
    assert!(matches!(m.upgrade(&[]), Err(PkgError::UnsupportedFormat)));
}

#[test]
fn removal_lists_each_name_once() {
    let mut m = RpmNext::new(config()).unwrap();
    m.ingest(0, vec![rec("x", "1", &[])]);
    m.install(&["x"]).unwrap();
    let tx = m.remove(&["x", "x"]).unwrap();
    assert_eq!(tx.remove, vec!["x".to_string()]);
    assert_eq!(tx.size_change, -100);
    assert!(m.info("x").unwrap().is_some());
}

#[test]
fn catalog_search_ignores_case() {
    let mut m = RpmNext::new(config()).unwrap();
    let mut ff = rec("Firefox", "1", &[]);
    ff.description = "Web browser".to_string();
    m.ingest(0, vec![ff, rec("bash", "5", &[]), rec("firefox-esr", "1", &[])]);
    let hits: Vec<String> = m.search("FIRE").unwrap().iter().map(|p| p.name.clone()).collect();
    assert_eq!(hits, vec!["Firefox".to_string(), "firefox-esr".to_string()]);
    assert_eq!(m.search("browser").unwrap().len(), 1);
    assert_eq!(m.search("").unwrap().len(), 3);
}

#[test]
fn install_reports_first_unknown_name() {
    let mut m = RpmNext::new(config()).unwrap();
    m.ingest(0, vec![rec("app", "1", &[])]);
    match m.install(&["app", "ghost", "phantom"]) {
        Err(PkgError::PackageNotFound(n)) => assert_eq!(n, "ghost"),
        other => panic!("unexpected {:?}", other.map(|t| t.remove)),
    }
    assert!(m.info("app").unwrap().is_some());
    let tx = m.install(&["app"]).unwrap();
    assert_eq!(tx.install.len(), 1);
}
