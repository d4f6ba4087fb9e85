use rpm_next::apt::{parse_packages, AptSource};
use rpm_next::deb::parse_control;
use rpm_next::pkg::parse_pkginfo;
use rpm_next::playstore::{create_fdroid_main_repo, eq_ignore_ascii_case, AppCategory, FDroidApp, FDroidPackage};
use rpm_next::repository::RepositoryCache;
use rpm_next::rpm::{parse_header, HeaderEntry};
use rpm_next::winget::{create_winget_repo, parse_manifest, InstallerType};
use rpm_next::{
    AptRepository, ConstraintOp, PackageFormat, PackageInfo, PkgError, PlayStoreRepository, Repository,
    RepositorySource, UnifiedRepositoryManager, WingetRepository,
};

#[test]
fn control_file_fields() {
    let content = "Package: hello\nVersion: 2.10-3\nArchitecture: amd64\nMaintainer: Someone <a@b>\nInstalled-Size: 280\nDepends: libc6 (>= 2.34), libfoo | libbar\nConflicts: hello-old, hello-ancient\nProvides: greeter\nDescription: says hello\n";
    let info = parse_control(content).unwrap();
    assert_eq!(info.name, "hello");
    assert_eq!(info.version, "2.10-3");
    assert_eq!(info.arch, "amd64");
    assert_eq!(info.installed_size, 280 * 1024);
    assert_eq!(info.dependencies.len(), 2);
    assert_eq!(info.dependencies[0].name, "libc6");
    assert_eq!(info.dependencies[1].name, "libfoo");
    assert_eq!(info.conflicts, vec!["hello-old", "hello-ancient"]);
    assert_eq!(info.provides, vec!["greeter"]);
    assert_eq!(info.description, "says hello");
    assert_eq!(info.format, PackageFormat::Deb);
}

#[test]
fn control_file_bad_size_is_zero() {
    let info = parse_control("Package: x\nInstalled-Size: lots\n").unwrap();
    assert_eq!(info.installed_size, 0);
    let info = parse_control("Installed-Size: +3\r\nPackage: y\r\n").unwrap();
    assert_eq!(info.installed_size, 3072);
    assert_eq!(info.name, "y");
}

#[test]
fn pkginfo_fields() {
    let content = "# generated\npkgname = tool\npkgver = 1.2-1\npkgdesc = a tool\nsize = 4096\ndepend = glibc\ndepend = zlib\nconflict = tool-git\nprovides = tool-bin\nlicense = MIT\n\n";
    let info = parse_pkginfo(content).unwrap();
    assert_eq!(info.name, "tool");
    assert_eq!(info.version, "1.2-1");
    assert_eq!(info.description, "a tool");
    assert_eq!(info.installed_size, 4096);
    let deps: Vec<&str> = info.dependencies.iter().map(|d| d.name.as_str()).collect();
    assert_eq!(deps, vec!["glibc", "zlib"]);
    assert_eq!(info.conflicts, vec!["tool-git"]);
    assert_eq!(info.provides, vec!["tool-bin"]);
    assert_eq!(info.license, "MIT");
    assert_eq!(info.format, PackageFormat::Native);
}

#[test]
fn packages_index_entries() {
    let content = "Package: a\nVersion: 1.0\nDepends: b (>= 2.0), c:any | d\nPre-Depends: e\nSize: 100\nInstalled-Size: 2\nDescription: first\n line two\n .\n\nPackage: b\nVersion: 2.1\n";
    let pkgs = parse_packages(content);
    assert_eq!(pkgs.len(), 2);
    assert_eq!(pkgs[0].package, "a");
    assert_eq!(pkgs[0].size, 100);
    assert_eq!(pkgs[0].installed_size, 2048);
    assert_eq!(pkgs[0].description, "first\nline two\n.");
    assert_eq!(pkgs[0].depends.len(), 2);
    assert_eq!(pkgs[0].depends[0].name, "b");
    let c = pkgs[0].depends[0].version_constraint.clone().unwrap();
    assert_eq!(c.operator, ConstraintOp::Ge);
    assert_eq!(c.version, "2.0");
    assert_eq!(pkgs[0].depends[1].name, "c");
    assert!(pkgs[0].depends[1].version_constraint.is_none());
    assert_eq!(pkgs[1].package, "b");
    let info: PackageInfo = pkgs[0].clone().into();
    assert_eq!(info.dependencies.len(), 3);
    assert_eq!(info.format, PackageFormat::Deb);
}

#[test]
fn packages_index_without_name_is_dropped() {
    assert!(parse_packages("Version: 1\n\n").is_empty());
    assert!(parse_packages("").is_empty());
}

#[test]
fn sources_list_lines() {
    let s = AptSource::parse("deb http://deb.debian.org/debian bookworm main contrib").unwrap();
    assert_eq!(s.source_type, "deb");
    assert_eq!(s.uri, "http://deb.debian.org/debian");
    assert_eq!(s.distribution, "bookworm");
    assert_eq!(s.components, vec!["main", "contrib"]);
    assert_eq!(s.architectures, vec!["amd64"]);
    let s = AptSource::parse("  deb-src [arch=amd64,arm64] http://m/u noble main universe").unwrap();
    assert_eq!(s.source_type, "deb-src");
    assert_eq!(s.uri, "http://m/u");
    assert_eq!(s.architectures, vec!["amd64", "arm64"]);
    assert_eq!(s.components, vec!["main", "universe"]);
    let s = AptSource::parse("deb [trusted=yes] http://m/u noble main").unwrap();
    assert_eq!(s.architectures, vec!["amd64"]);
    assert!(AptSource::parse("# deb http://m/u noble main").is_none());
    assert!(AptSource::parse("deb http://m/u noble").is_none());
    assert!(AptSource::parse("rpm http://m/u noble main").is_none());
    assert!(AptSource::parse("").is_none());
}

#[test]
fn rpm_header_index() {
    let mut data = vec![0x8e, 0xad, 0xe8, 0x01, 0, 0, 0, 0, 0, 0, 0, 2, 0, 0, 0, 0];
    data.extend_from_slice(&[0, 0, 3, 232, 0, 0, 0, 6, 0, 0, 0, 0, 0, 0, 0, 1]);
    data.extend_from_slice(&[0, 0, 3, 233, 0, 0, 0, 6, 0, 0, 0, 8, 0, 0, 0, 1]);
    let entries = parse_header(&data).unwrap();
    assert_eq!(entries.len(), 2);
    assert_eq!(entries[0], HeaderEntry { tag: 1000, entry_type: 6, offset: 0, count: 1 });
    assert_eq!(entries[1].tag, rpm_next::rpm::tag::VERSION);
    assert_eq!(entries[1].offset, 8);
}

#[test]
fn rpm_header_truncated_entries() {
    let mut data = vec![0x8e, 0xad, 0xe8, 0x01, 0, 0, 0, 0, 0, 0, 0, 5, 0, 0, 0, 0];
    data.extend_from_slice(&[0, 0, 3, 232, 0, 0, 0, 6, 0, 0, 0, 0, 0, 0, 0, 1]);
    data.extend_from_slice(&[1, 2, 3]);
    assert_eq!(parse_header(&data).unwrap().len(), 1);
}

#[test]
fn rpm_header_errors() {
    match parse_header(&[0u8; 8]) {
        Err(PkgError::ExtractionError(m)) => assert_eq!(m, "Header too short"),
        other => panic!("unexpected {:?}", other),
    }
    match parse_header(&[0u8; 16]) {
        Err(PkgError::ExtractionError(m)) => assert_eq!(m, "Invalid header magic"),
        other => panic!("unexpected {:?}", other),
    }
}

#[test]
fn winget_manifest_fields() {
    let yaml = "PackageIdentifier: Mozilla.Firefox\nPackageVersion: \"128.0\"\nPublisher: Mozilla\nName: 'Firefox'\nInstallerType: MSIX\nInstallerUrl: https://x/ff.msix\nSha256: ABC\n";
    let m = parse_manifest(yaml).unwrap();
    assert_eq!(m.package_id, "Mozilla.Firefox");
    assert_eq!(m.version, "128.0");
    assert_eq!(m.name, "Firefox");
    assert_eq!(m.installer_type, InstallerType::Msix);
    assert_eq!(m.installer_sha256, "ABC");
    assert_eq!(m.architecture, "x64");
    let info: PackageInfo = m.into();
    assert_eq!(info.format, PackageFormat::Msix);
    assert_eq!(info.name, "Mozilla.Firefox");
    match parse_manifest("Name: nothing\n") {
        Err(PkgError::ExtractionError(e)) => assert_eq!(e, "Missing PackageIdentifier"),
        other => panic!("unexpected {:?}", other.map(|m| m.package_id)),
    }
}

#[test]
fn installer_types() {
    assert_eq!(InstallerType::from_str("APPX"), InstallerType::Msix);
    assert_eq!(InstallerType::from_str("wix"), InstallerType::Burn);
    assert_eq!(InstallerType::from_str("Portable"), InstallerType::Portable);
    assert_eq!(InstallerType::from_str("something"), InstallerType::Exe);
}

#[test]
fn winget_repository_basics() {
    let mut r = WingetRepository::new();
    assert!(r.sync().is_ok());
    assert!(r.get("Mozilla.Firefox").is_none());
    assert!(r.search("fire").is_empty());
    let c = create_winget_repo();
    assert_eq!(c.name, "winget");
    assert_eq!(c.priority, 50);
}

#[test]
fn app_categories() {
    assert_eq!(AppCategory::from_str("Games"), AppCategory::Games);
    assert_eq!(AppCategory::from_str("HEALTH_AND_FITNESS"), AppCategory::Health);
    assert_eq!(AppCategory::from_str("video_players"), AppCategory::Video);
    assert_eq!(AppCategory::from_str("cooking"), AppCategory::Unknown);
    assert_eq!(AppCategory::Weather.name(), "Weather");
    assert!(eq_ignore_ascii_case("GaMeS", "games"));
    assert!(!eq_ignore_ascii_case("game", "games"));
}

#[test]
fn fdroid_record_and_urls() {
    let app = FDroidApp {
        package_name: "org.example".to_string(),
        name: "Example".to_string(),
        summary: String::new(),
        description: "An example".to_string(),
        license: "GPL".to_string(),
        web_site: "https://example.org".to_string(),
        source_code: String::new(),
        issue_tracker: String::new(),
        categories: vec!["Tools".to_string()],
        anti_features: Vec::new(),
        suggested_version_code: 3,
        packages: vec![FDroidPackage {
            version_name: "1.3".to_string(),
            version_code: 3,
            apk_name: "org.example_3.apk".to_string(),
            hash: "ff".to_string(),
            hash_type: "sha256".to_string(),
            size: 1234,
            min_sdk: 21,
            target_sdk: 33,
            native_code: Vec::new(),
            permissions: Vec::new(),
        }],
    };
    let mut repo = PlayStoreRepository::new_fdroid();
    assert_eq!(repo.get_download_url(&app).unwrap(), "https://f-droid.org/repo/org.example_3.apk");
    repo.add_fdroid_repo("https://mirror/fdroid");
    assert_eq!(repo.get_download_url(&app).unwrap(), "https://mirror/fdroid/org.example_3.apk");
    assert!(repo.sync().is_ok());
    assert!(repo.search("example").is_empty());
    assert!(repo.search_by_category(AppCategory::Tools).is_empty());
    assert!(repo.get("org.example").is_none());
    let info: PackageInfo = app.into();
    assert_eq!(info.version, "1.3");
    assert_eq!(info.release, 3);
    assert_eq!(info.description, "An example");
    assert_eq!(info.size, 1234);
    assert_eq!(info.format, PackageFormat::Android);
    let main = create_fdroid_main_repo();
    assert_eq!(main.url, "https://f-droid.org/repo");
    assert_eq!(main.priority, 60);
}

fn repo(name: &str, format: PackageFormat, enabled: bool) -> Repository {
    Repository {
        name: name.to_string(),
        url: format!("http://m/{}", name),
        format,
        enabled,
        gpg_key: None,
        priority: 10,
    }
}

#[test]
fn repository_cache_sync() {
    let mut cache = RepositoryCache::default();
    assert!(cache.sync(&repo("deb", PackageFormat::Deb, true)).is_ok());
    assert!(matches!(cache.sync(&repo("win", PackageFormat::Msi, true)), Err(PkgError::UnsupportedFormat)));
    assert!(cache.sync_all(&[repo("a", PackageFormat::Rpm, true), repo("b", PackageFormat::Msi, false)]).is_ok());
    assert!(cache.sync_all(&[repo("c", PackageFormat::Apk, true)]).is_err());
    assert!(cache.find("x").is_none());
    assert!(cache.get_versions("x").is_empty());
    assert!(cache.search("x").is_empty());
}

#[test]
fn manager_sources() {
    let mut m = UnifiedRepositoryManager::new();
    m.set_source_enabled(RepositorySource::Apt, false);
    m.set_source_enabled(RepositorySource::Apt, true);
    m.set_source_enabled(RepositorySource::Apt, true);
    assert!(m.sync_all().is_ok());
    assert!(m.search("anything").is_empty());
    assert!(m.get("anything").is_none());
    let d = UnifiedRepositoryManager::default();
    assert!(d.get("bash").is_none());
    let a = AptRepository::default();
    assert!(a.get("bash").is_none());
}

#[test]
fn native_package_from_stem() {
    let info = rpm_next::pkg::parse_pkg("hello-1.0").unwrap();
    assert_eq!(info.name, "hello-1.0");
    assert_eq!(info.version, "1.0.0");
    assert_eq!(info.format, PackageFormat::Native);
}

#[test]
fn winget_fetch_reports_not_found() {
    let mut r = WingetRepository::new();
    match r.fetch_manifest("Mozilla.Firefox") {
        Err(PkgError::PackageNotFound(n)) => assert_eq!(n, "Mozilla.Firefox"),
        other => panic!("unexpected {:?}", other.map(|m| m.package_id)),
    }
    assert!(matches!(r.fetch_manifest("nodot"), Err(PkgError::PackageNotFound(_))));
}

#[test]
fn fdroid_index_text_gives_no_apps() {
    assert!(rpm_next::playstore::parse_fdroid_index("{}").unwrap().is_empty());
}

#[test]
fn record_from_file_stem() {
    let p = rpm_next::deb::record_from_stem("hello_2.10", PackageFormat::Deb, "amd64");
    assert_eq!(p.name, "hello_2.10");
    assert_eq!(p.version, "1.0.0");
    assert_eq!(p.arch, "amd64");
    assert_eq!(p.format, PackageFormat::Deb);
}
