use rpm_next::dnf::{parse_primary_xml, RpmVersion};
use rpm_next::pacman::parse_desc;
use rpm_next::{ConstraintOp, PackageFormat, PackageInfo};

#[test]
fn primary_xml_entries() {
    let xml = "<?xml version=\"1.0\"?>\n<metadata>\n<package type=\"rpm\">\n  <name>bash</name>\n  <arch>x86_64</arch>\n  <version epoch=\"0\" ver=\"5.2.26\" rel=\"3.fc40\"/>\n  <checksum type=\"sha256\" pkgid=\"YES\">abc123</checksum>\n  <summary>The GNU Bourne Again shell</summary>\n  <description></description>\n  <url>https://www.gnu.org/software/bash</url>\n  <size package=\"1800000\" installed=\"8300000\" archive=\"8400000\"/>\n  <location href=\"Packages/b/bash-5.2.26-3.fc40.x86_64.rpm\"/>\n  <format>\n    <rpm:license>GPL-3.0-or-later</rpm:license>\n  </format>\n</package>\n<package type=\"rpm\">\n  <arch>noarch</arch>\n</package>\n</metadata>\n";
    let pkgs = parse_primary_xml(xml);
    assert_eq!(pkgs.len(), 1);
    let p = &pkgs[0];
    assert_eq!(p.name, "bash");
    assert_eq!(p.arch, "x86_64");
    assert_eq!(p.version.epoch, 0);
    assert_eq!(p.version.ver, "5.2.26");
    assert_eq!(p.version.rel, "3.fc40");
    assert_eq!(p.checksum_type, "sha256");
    assert_eq!(p.checksum, "abc123");
    assert_eq!(p.summary, "The GNU Bourne Again shell");
    assert_eq!(p.description, "");
    assert_eq!(p.url, "https://www.gnu.org/software/bash");
    assert_eq!(p.size_package, 1800000);
    assert_eq!(p.size_installed, 8300000);
    assert_eq!(p.location_href, "Packages/b/bash-5.2.26-3.fc40.x86_64.rpm");
    assert_eq!(p.license, "GPL-3.0-or-later");
    let info: PackageInfo = p.clone().into();
    assert_eq!(info.version, "5.2.26");
    assert_eq!(info.release, 3);
    assert_eq!(info.description, "The GNU Bourne Again shell");
    assert_eq!(info.format, PackageFormat::Rpm);
}

#[test]
fn primary_xml_epoch() {
    let xml = "<package>\n<name>x</name>\n<version epoch=\"2\" ver=\"1\" rel=\"rc1\"/>\n</package>\n";
    let pkgs = parse_primary_xml(xml);
    assert_eq!(pkgs.len(), 1);
    assert_eq!(pkgs[0].version.epoch, 2);
    let v = RpmVersion { epoch: pkgs[0].version.epoch, ver: pkgs[0].version.ver.clone(), rel: pkgs[0].version.rel.clone() };
    assert_eq!(v.to_string(), "2:1-rc1");
    let info: PackageInfo = pkgs[0].clone().into();
    assert_eq!(info.release, 1);
}

#[test]
fn pacman_desc_file() {
    let desc = "%NAME%\nbash\n\n%VERSION%\n5.2.026-2\n\n%DESC%\nThe GNU Bourne Again shell\n\n%CSIZE%\n1\n\n%ISIZE%\n9000000\n\n%SIZE%\nabc\n\n%DEPENDS%\nreadline>=7.0\nglibc\nncurses: for terminfo\n\n%PROVIDES%\nsh\n\n%SHA256SUM%\ndeadbeef\n";
    let p = parse_desc(desc);
    assert_eq!(p.name, "bash");
    assert_eq!(p.version, "5.2.026-2");
    assert_eq!(p.desc, "The GNU Bourne Again shell");
    assert_eq!(p.isize, 9000000);
    assert_eq!(p.size, 0);
    assert_eq!(p.depends.len(), 3);
    assert_eq!(p.depends[0].name, "readline");
    assert_eq!(p.depends[0].version_constraint.clone().unwrap().operator, ConstraintOp::Ge);
    assert_eq!(p.depends[2].name, "ncurses");
    assert_eq!(p.provides, vec!["sh"]);
    let info: PackageInfo = p.into();
    assert_eq!(info.checksum, "deadbeef");
    assert_eq!(info.installed_size, 9000000);
    assert_eq!(info.format, PackageFormat::Native);
}

#[test]
fn pacman_desc_without_trailing_blank_line() {
    let p = parse_desc("%NAME%\nzsh\n%URL%\nhttps://zsh.org");
    assert_eq!(p.name, "zsh");
    assert_eq!(p.url, "https://zsh.org");
    let q = parse_desc("");
    assert_eq!(q.name, "");
}
