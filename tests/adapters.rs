use rpm_next::apt::{create_apt_repo, AptPackage, AptSource, DEBIAN_MIRROR, UBUNTU_MIRROR};
use rpm_next::dnf::{create_dnf_repo, primary_xml_url, repomd_url, DnfPackage, RpmRequire, RpmVersion};
use rpm_next::pacman::{create_pacman_repo, parse_pacman_dep, PacmanPackage, ARCH_MIRROR};
use rpm_next::text::{text_contains};
use rpm_next::{AptRepository, ConstraintOp, DnfRepository, PackageFormat, PacmanRepository};

fn source() -> AptSource {
    AptSource {
        source_type: "deb".to_string(),
        uri: "http://deb.debian.org/debian".to_string(),
        distribution: "bookworm".to_string(),
        components: vec!["main".to_string()],
        architectures: vec!["amd64".to_string()],
    }
}

#[test]
fn apt_index_urls() {
    let s = source();
    assert_eq!(
        s.packages_url("main", "amd64"),
        "http://deb.debian.org/debian/dists/bookworm/main/binary-amd64/Packages"
    );
    assert_eq!(
        s.packages_gz_url("main", "amd64"),
        "http://deb.debian.org/debian/dists/bookworm/main/binary-amd64/Packages.gz"
    );
}

#[test]
fn apt_repository_sources() {
    let mut r = AptRepository::new();
    r.add_debian_sources("bookworm");
    r.add_ubuntu_sources("noble");
    r.add_pop_os_sources("22.04");
    r.add_source(source());
    assert!(r.sync().is_ok());
    assert!(r.get("bash").is_none());
    assert!(r.search("bash").is_empty());
    let mut p = AptPackage::default();
    p.filename = "pool/main/b/bash/bash_5.2_amd64.deb".to_string();
    assert_eq!(
        r.get_download_url(&source(), &p),
        "http://deb.debian.org/debian/pool/main/b/bash/bash_5.2_amd64.deb"
    );
    assert_eq!(DEBIAN_MIRROR, "http://deb.debian.org/debian");
    assert_eq!(UBUNTU_MIRROR, "http://archive.ubuntu.com/ubuntu");
}

#[test]
fn apt_repo_configuration() {
    let r = create_apt_repo("debian", "http://deb.debian.org/debian", "bookworm", &["main"]);
    assert_eq!(r.name, "debian");
    assert_eq!(r.url, "http://deb.debian.org/debian/dists/bookworm");
    assert_eq!(r.format, PackageFormat::Deb);
    assert!(r.enabled);
    assert_eq!(r.priority, 100);
}

#[test]
fn dnf_urls_and_versions() {
    assert_eq!(repomd_url("http://m/f"), "http://m/f/repodata/repomd.xml");
    assert_eq!(primary_xml_url("http://m/f"), "http://m/f/repodata/primary.xml.gz");
    let v = RpmVersion { epoch: 2, ver: "1.0".to_string(), rel: "3.fc40".to_string() };
    assert_eq!(v.to_string(), "2:1.0-3.fc40");
    let v0 = RpmVersion { epoch: 0, ver: "1.0".to_string(), rel: "3".to_string() };
    assert_eq!(v0.to_string(), "1.0-3");
    let big = RpmVersion { epoch: 4294967295, ver: "1".to_string(), rel: "1".to_string() };
    assert_eq!(big.to_string(), "4294967295:1-1");
    let ten = RpmVersion { epoch: 10, ver: "a".to_string(), rel: "b".to_string() };
    assert_eq!(ten.to_string(), "10:a-b");
}

#[test]
fn dnf_requirement_to_dependency() {
    let req = RpmRequire {
        name: "glibc".to_string(),
        flags: Some("GE".to_string()),
        epoch: None,
        ver: Some("2.34".to_string()),
        rel: None,
        pre: false,
    };
    let d = req.to_dependency();
    assert_eq!(d.name, "glibc");
    let c = d.version_constraint.unwrap();
    assert_eq!(c.operator, ConstraintOp::Ge);
    assert_eq!(c.version, "2.34");
    let odd = RpmRequire { flags: Some("XX".to_string()), ..req.clone() };
    assert!(odd.to_dependency().version_constraint.is_none());
    let bare = RpmRequire { flags: None, ..req };
    assert!(bare.to_dependency().version_constraint.is_none());
}

#[test]
fn dnf_repository_basics() {
    let mut r = DnfRepository::new("http://m/f");
    assert!(r.sync().is_ok());
    assert!(r.get("bash").is_none());
    assert!(r.search("bash").is_empty());
    let mut p = DnfPackage::default();
    p.location_href = "Packages/b/bash.rpm".to_string();
    assert_eq!(r.get_download_url(&p), "http://m/f/Packages/b/bash.rpm");
    let d = create_dnf_repo("fedora", "http://m/f");
    assert_eq!(d.url, "http://m/f");
    assert_eq!(d.format, PackageFormat::Rpm);
    assert_eq!(d.priority, 90);
}

#[test]
fn pacman_urls() {
    let r = PacmanRepository::new("https://m/arch");
    assert_eq!(r.db_url("core", "x86_64"), "https://m/arch/core/os/x86_64/core.db");
    assert_eq!(r.db_gz_url("core", "x86_64"), "https://m/arch/core/os/x86_64/core.db.tar.gz");
    let mut p = PacmanPackage::default();
    p.arch = "x86_64".to_string();
    p.filename = "bash-5.2-1-x86_64.pkg.tar.zst".to_string();
    assert_eq!(
        r.get_download_url("core", &p),
        "https://m/arch/core/os/x86_64/bash-5.2-1-x86_64.pkg.tar.zst"
    );
    let c = create_pacman_repo("arch", "https://m/arch", "extra");
    assert_eq!(c.name, "pacman-arch-extra");
    assert_eq!(c.url, "https://m/arch/extra/os/x86_64");
    assert_eq!(c.priority, 75);
    assert_eq!(ARCH_MIRROR, "https://mirror.rackspace.com/archlinux");
}

#[test]
fn pacman_repository_basics() {
    let mut r = PacmanRepository::default();
    assert!(r.sync().is_ok());
    assert!(r.get("bash").is_none());
    assert!(r.search("BASH").is_empty());
}

#[test]
fn pacman_dependency_strings() {
    let d = parse_pacman_dep("glibc>=2.17");
    assert_eq!(d.name, "glibc");
    let c = d.version_constraint.unwrap();
    assert_eq!(c.operator, ConstraintOp::Ge);
    assert_eq!(c.version, "2.17");
    let d = parse_pacman_dep("python: for scripting");
    assert_eq!(d.name, "python");
    assert!(d.version_constraint.is_none());
    let d = parse_pacman_dep("  zlib<1.3 ");
    assert_eq!(d.name, "zlib");
    let c = d.version_constraint.unwrap();
    assert_eq!(c.operator, ConstraintOp::Lt);
    assert_eq!(c.version, "1.3");
    let d = parse_pacman_dep("sh=5");
    assert_eq!(d.version_constraint.unwrap().operator, ConstraintOp::Eq);
    let d = parse_pacman_dep("a<=1");
    assert_eq!(d.version_constraint.unwrap().operator, ConstraintOp::Le);
    let d = parse_pacman_dep("a>1");
    assert_eq!(d.version_constraint.unwrap().operator, ConstraintOp::Gt);
}

#[test]
fn substring_search() {
    assert!(text_contains("firefox browser", "fox"));
    assert!(text_contains("abc", ""));
    assert!(!text_contains("abc", "abcd"));
    assert!(!text_contains("abc", "cb"));
}
