//! The canonical package model shared by every ecosystem adapter.
use vstd::prelude::*;

verus! {

/// Package format; selects the installer that applies a record.
#[derive(Debug, Clone, Copy, PartialEq, Eq, Structural)]
pub enum PackageFormat {
    /// Redox native (tar + zstd)
    Native,
    /// Debian (ar + tar + gz)
    Deb,
    /// Red Hat Package Manager (cpio + xz)
    Rpm,
    /// Alpine (tar + gz)
    Apk,
    /// Windows MSI
    Msi,
    /// Windows MSIX
    Msix,
    /// Android APK (ZIP + DEX)
    Android,
}

/// Comparison operator of a version constraint.
#[derive(Debug, Clone, Copy, PartialEq, Eq, Structural)]
pub enum ConstraintOp {
    Eq,
    Lt,
    Le,
    Gt,
    Ge,
}

/// An operator and the version it compares against.
#[derive(Debug, Clone)]
pub struct VersionConstraint {
    pub operator: ConstraintOp,
    pub version: String,
}

/// A required package name, with an optional version constraint; no
/// constraint means that any version satisfies it.
#[derive(Debug, Clone)]
pub struct Dependency {
    pub name: String,
    pub version_constraint: Option<VersionConstraint>,
}

pub struct DependencyView {
    pub name: Seq<char>,
    pub constraint: Option<(ConstraintOp, Seq<char>)>,
}

impl View for Dependency {
    type V = DependencyView;

    open spec fn view(&self) -> DependencyView {
        DependencyView {
            name: self.name@,
            constraint: match self.version_constraint {
                Some(c) => Some((c.operator, c.version@)),
                None => None,
            },
        }
    }
}

/// Package metadata, the same for every ecosystem.
#[derive(Debug, Clone)]
pub struct PackageInfo {
    pub name: String,
    pub version: String,
    pub release: u32,
    pub arch: String,
    pub format: PackageFormat,
    pub description: String,
    pub maintainer: String,
    pub license: String,
    pub homepage: String,
    pub size: u64,
    pub installed_size: u64,
    pub dependencies: Vec<Dependency>,
    pub conflicts: Vec<String>,
    pub provides: Vec<String>,
    pub replaces: Vec<String>,
    pub files: Vec<String>,
    pub checksum: String,
}

pub struct PackageView {
    pub name: Seq<char>,
    pub version: Seq<char>,
    pub release: u32,
    pub arch: Seq<char>,
    pub format: PackageFormat,
    pub description: Seq<char>,
    pub maintainer: Seq<char>,
    pub license: Seq<char>,
    pub homepage: Seq<char>,
    pub size: u64,
    pub installed_size: u64,
    pub dependencies: Seq<DependencyView>,
    pub conflicts: Seq<Seq<char>>,
    pub provides: Seq<Seq<char>>,
    pub replaces: Seq<Seq<char>>,
    pub files: Seq<Seq<char>>,
    pub checksum: Seq<char>,
}

pub open spec fn strings_view(v: Seq<String>) -> Seq<Seq<char>> {
    v.map_values(|s: String| s@)
}

pub open spec fn deps_view(v: Seq<Dependency>) -> Seq<DependencyView> {
    v.map_values(|d: Dependency| d@)
}

impl View for PackageInfo {
    type V = PackageView;

    open spec fn view(&self) -> PackageView {
        PackageView {
            name: self.name@,
            version: self.version@,
            release: self.release,
            arch: self.arch@,
            format: self.format,
            description: self.description@,
            maintainer: self.maintainer@,
            license: self.license@,
            homepage: self.homepage@,
            size: self.size,
            installed_size: self.installed_size,
            dependencies: deps_view(self.dependencies@),
            conflicts: strings_view(self.conflicts@),
            provides: strings_view(self.provides@),
            replaces: strings_view(self.replaces@),
            files: strings_view(self.files@),
            checksum: self.checksum@,
        }
    }
}

/// Copies a list of strings.
pub fn copy_strings(v: &Vec<String>) -> (r: Vec<String>)
    ensures
        strings_view(r@) == strings_view(v@),
{
    let mut out: Vec<String> = Vec::new();
    let mut i: usize = 0;
    while i < v.len()
        invariant
            i <= v@.len(),
            strings_view(out@) == strings_view(v@.subrange(0, i as int)),
        decreases v@.len() - i,
    {
        out.push(v[i].clone());
        proof {
            assert(strings_view(v@.subrange(0, i + 1)) =~= strings_view(v@.subrange(0, i as int)).push(v@[i as int]@));
        }
        i = i + 1;
    }
    proof {
        assert(v@.subrange(0, v@.len() as int) =~= v@);
    }
    out
}

impl VersionConstraint {
    /// Copies the constraint.
    pub fn duplicate(&self) -> (r: VersionConstraint)
        ensures
            r.operator == self.operator,
            r.version@ == self.version@,
    {
        VersionConstraint { operator: self.operator, version: self.version.clone() }
    }
}

impl Dependency {
    /// Copies the dependency.
    pub fn duplicate(&self) -> (r: Dependency)
        ensures
            r@ == self@,
    {
        let c = match &self.version_constraint {
            Some(c) => Some(c.duplicate()),
            None => None,
        };
        Dependency { name: self.name.clone(), version_constraint: c }
    }
}

/// Copies a list of dependencies.
pub fn copy_dependencies(v: &Vec<Dependency>) -> (r: Vec<Dependency>)
    ensures
        deps_view(r@) == deps_view(v@),
{
    let mut out: Vec<Dependency> = Vec::new();
    let mut i: usize = 0;
    while i < v.len()
        invariant
            i <= v@.len(),
            deps_view(out@) == deps_view(v@.subrange(0, i as int)),
        decreases v@.len() - i,
    {
        out.push(v[i].duplicate());
        proof {
            assert(deps_view(v@.subrange(0, i + 1)) =~= deps_view(v@.subrange(0, i as int)).push(v@[i as int]@));
        }
        i = i + 1;
    }
    proof {
        assert(v@.subrange(0, v@.len() as int) =~= v@);
    }
    out
}

impl PackageInfo {
    /// Copies the record.
    pub fn duplicate(&self) -> (r: PackageInfo)
        ensures
            r@ == self@,
    {
        PackageInfo {
            name: self.name.clone(),
            version: self.version.clone(),
            release: self.release,
            arch: self.arch.clone(),
            format: self.format,
            description: self.description.clone(),
            maintainer: self.maintainer.clone(),
            license: self.license.clone(),
            homepage: self.homepage.clone(),
            size: self.size,
            installed_size: self.installed_size,
            dependencies: copy_dependencies(&self.dependencies),
            conflicts: copy_strings(&self.conflicts),
            provides: copy_strings(&self.provides),
            replaces: copy_strings(&self.replaces),
            files: copy_strings(&self.files),
            checksum: self.checksum.clone(),
        }
    }
}

/// Repository configuration.
#[derive(Debug, Clone)]
pub struct Repository {
    pub name: String,
    pub url: String,
    pub format: PackageFormat,
    pub enabled: bool,
    pub gpg_key: Option<String>,
    pub priority: i32,
}

/// Package manager configuration; paths are held as text.
#[derive(Debug, Clone)]
pub struct PkgConfig {
    /// Root directory for installations
    pub root: String,
    /// Package cache directory
    pub cache_dir: String,
    /// Database directory
    pub db_dir: String,
    /// Repositories
    pub repos: Vec<Repository>,
    /// Number of parallel downloads
    pub parallel_downloads: usize,
}

/// Package manager errors. Each names the offending package(s) where there
/// is one.
#[derive(Debug)]
pub enum PkgError {
    PackageNotFound(String),
    NotInstalled(String),
    DependencyError(String),
    ConflictError(String),
    UnsupportedFormat,
    DownloadError(String),
    ExtractionError(String),
    IoError(String),
    DatabaseError(String),
    NetworkError(String),
    ParseError(String),
}

/// Repository source type.
#[derive(Debug, Clone, Copy, PartialEq, Eq, Structural)]
pub enum RepositorySource {
    Native,
    Apt,
    Dnf,
    Pacman,
    Winget,
    Android,
}

} // verus!
