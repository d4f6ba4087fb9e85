//! Pacman (Arch Linux) repositories: database locations, package entries
//! and dependency strings such as `glibc>=2.17`.
use crate::model::{
    deps_view, strings_view, ConstraintOp, Dependency, DependencyView, PackageFormat, PackageInfo,
    PackageView, Repository, VersionConstraint,
};
use crate::text::{
    before_char, chars_equal, chars_of, lines, lines_of, parse_u64, size_or_zero, views_of, find_char, first_index, lower_of, lowercase, matches_lowered, query_matches, slice_of,
    string_of, trim, trimmed,
};
use vstd::prelude::*;
use vstd::string::StringExecFns;

verus! {

/// Official Arch Linux mirror
pub const ARCH_MIRROR: &'static str = "https://mirror.rackspace.com/archlinux";

/// A pacman database entry.
#[derive(Debug, Clone)]
pub struct PacmanPackage {
    pub name: String,
    pub version: String,
    pub base: String,
    pub desc: String,
    pub url: String,
    pub arch: String,
    pub builddate: u64,
    pub installdate: u64,
    pub packager: String,
    pub size: u64,
    pub isize: u64,
    pub license: String,
    pub groups: Vec<String>,
    pub depends: Vec<Dependency>,
    pub optdepends: Vec<String>,
    pub makedepends: Vec<String>,
    pub conflicts: Vec<String>,
    pub provides: Vec<String>,
    pub replaces: Vec<String>,
    pub filename: String,
    pub md5sum: String,
    pub sha256sum: String,
    pub pgpsig: String,
}

impl Default for PacmanPackage {
    fn default() -> (r: PacmanPackage)
        ensures
            r@ == empty_pacman(),
    {
        let r = PacmanPackage {
            name: String::new(),
            version: String::new(),
            base: String::new(),
            desc: String::new(),
            url: String::new(),
            arch: String::new(),
            builddate: 0,
            installdate: 0,
            packager: String::new(),
            size: 0,
            isize: 0,
            license: String::new(),
            groups: Vec::new(),
            depends: Vec::new(),
            optdepends: Vec::new(),
            makedepends: Vec::new(),
            conflicts: Vec::new(),
            provides: Vec::new(),
            replaces: Vec::new(),
            filename: String::new(),
            md5sum: String::new(),
            sha256sum: String::new(),
            pgpsig: String::new(),
        };
        proof {
            assert(strings_view(r.groups@) =~= Seq::<Seq<char>>::empty());
            assert(strings_view(r.optdepends@) =~= Seq::<Seq<char>>::empty());
            assert(strings_view(r.makedepends@) =~= Seq::<Seq<char>>::empty());
            assert(strings_view(r.conflicts@) =~= Seq::<Seq<char>>::empty());
            assert(strings_view(r.provides@) =~= Seq::<Seq<char>>::empty());
            assert(strings_view(r.replaces@) =~= Seq::<Seq<char>>::empty());
            assert(deps_view(r.depends@) =~= Seq::<DependencyView>::empty());
            assert(r@ =~= empty_pacman());
        }
        r
    }
}

pub open spec fn empty_pacman() -> PacmanView {
    PacmanView {
        name: Seq::empty(),
        version: Seq::empty(),
        base: Seq::empty(),
        desc: Seq::empty(),
        url: Seq::empty(),
        arch: Seq::empty(),
        builddate: 0,
        installdate: 0,
        packager: Seq::empty(),
        size: 0,
        isize: 0,
        license: Seq::empty(),
        groups: Seq::empty(),
        depends: Seq::empty(),
        optdepends: Seq::empty(),
        makedepends: Seq::empty(),
        conflicts: Seq::empty(),
        provides: Seq::empty(),
        replaces: Seq::empty(),
        filename: Seq::empty(),
        md5sum: Seq::empty(),
        sha256sum: Seq::empty(),
        pgpsig: Seq::empty(),
    }
}

pub open spec fn is_op_char(c: char) -> bool {
    c == '>' || c == '<' || c == '='
}

/// The first position of a comparison character in `s`.
pub open spec fn first_op(s: Seq<char>) -> Option<int> {
    if exists|i: int| 0 <= i < s.len() && is_op_char(s[i]) {
        Some(choose|i: int| 0 <= i < s.len() && is_op_char(s[i]) && forall|j: int| 0 <= j < i ==> !is_op_char(s[j]))
    } else {
        None
    }
}

/// A pacman version constraint such as `>=2.17`.
pub open spec fn pacman_constraint(s: Seq<char>) -> Option<(ConstraintOp, Seq<char>)> {
    let t = trim(s);
    if t.len() >= 2 && t[0] == '>' && t[1] == '=' {
        Some((ConstraintOp::Ge, trim(t.subrange(2, t.len() as int))))
    } else if t.len() >= 2 && t[0] == '<' && t[1] == '=' {
        Some((ConstraintOp::Le, trim(t.subrange(2, t.len() as int))))
    } else if t.len() >= 1 && t[0] == '>' {
        Some((ConstraintOp::Gt, trim(t.subrange(1, t.len() as int))))
    } else if t.len() >= 1 && t[0] == '<' {
        Some((ConstraintOp::Lt, trim(t.subrange(1, t.len() as int))))
    } else if t.len() >= 1 && t[0] == '=' {
        Some((ConstraintOp::Eq, trim(t.subrange(1, t.len() as int))))
    } else {
        None
    }
}

/// A pacman dependency: the text before any `:` description, trimmed,
/// split at its first comparison character into name and constraint.
pub open spec fn pacman_dep(s: Seq<char>) -> DependencyView {
    let t = trim(before_char(s, ':'));
    match first_op(t) {
        Some(i) => DependencyView { name: t.subrange(0, i), constraint: pacman_constraint(t.subrange(i, t.len() as int)) },
        None => DependencyView { name: t, constraint: None },
    }
}

fn parse_pacman_version_constraint(s: &Vec<char>) -> (r: Option<VersionConstraint>)
    ensures
        match r {
            Some(c) => pacman_constraint(s@) == Some((c.operator, c.version@)),
            None => pacman_constraint(s@) is None,
        },
{
    let t = trimmed(s, 0, s.len());
    proof {
        assert(s@.subrange(0, s@.len() as int) =~= s@);
    }
    let n = t.len();
    let (op, skip): (ConstraintOp, usize) = if n >= 2 && t[0] == '>' && t[1] == '=' {
        (ConstraintOp::Ge, 2)
    } else if n >= 2 && t[0] == '<' && t[1] == '=' {
        (ConstraintOp::Le, 2)
    } else if n >= 1 && t[0] == '>' {
        (ConstraintOp::Gt, 1)
    } else if n >= 1 && t[0] == '<' {
        (ConstraintOp::Lt, 1)
    } else if n >= 1 && t[0] == '=' {
        (ConstraintOp::Eq, 1)
    } else {
        return None;
    };
    let v = trimmed(&t, skip, n);
    Some(VersionConstraint { operator: op, version: string_of(v.as_slice()) })
}

/// Parses a pacman dependency string like `glibc>=2.17`.
pub fn parse_pacman_dep(s: &str) -> (r: Dependency)
    ensures
        r@ == pacman_dep(s@),
{
    let all = chars_of(s);
    let colon = find_char(&all, 0, ':');
    proof {
        assert(all@.subrange(0, all@.len() as int) =~= all@);
        assert(before_char(all@, ':') == all@.subrange(0, colon as int));
    }
    let t = trimmed(&all, 0, colon);
    let mut i: usize = 0;
    while i < t.len() && !(t[i] == '>' || t[i] == '<' || t[i] == '=')
        invariant
            i <= t@.len(),
            forall|j: int| 0 <= j < i ==> !is_op_char(t@[j]),
        decreases t@.len() - i,
    {
        i = i + 1;
    }
    if i < t.len() {
        proof {
            let k = choose|k: int| 0 <= k < t@.len() && is_op_char(t@[k]) && forall|j: int| 0 <= j < k ==> !is_op_char(t@[j]);
            assert(k == i);
        }
        let name = slice_of(&t, 0, i);
        let rest = slice_of(&t, i, t.len());
        let c = parse_pacman_version_constraint(&rest);
        Dependency { name: string_of(name.as_slice()), version_constraint: c }
    } else {
        Dependency { name: string_of(t.as_slice()), version_constraint: None }
    }
}

/// Pacman repository manager: a mirror, the repositories it serves and
/// the package entries read from their databases.
pub struct PacmanRepository {
    mirror: String,
    repos: Vec<String>,
    packages: Vec<PacmanPackage>,
}

impl PacmanRepository {
    pub closed spec fn mirror(&self) -> Seq<char> {
        self.mirror@
    }

    pub closed spec fn repos(&self) -> Seq<Seq<char>> {
        crate::model::strings_view(self.repos@)
    }

    pub closed spec fn packages(&self) -> Seq<PacmanPackage> {
        self.packages@
    }

    /// A manager for `mirror` serving core, extra and multilib.
    pub fn new(mirror: &str) -> (r: PacmanRepository)
        ensures
            r.mirror() == mirror@,
            r.repos() == seq!["core"@, "extra"@, "multilib"@],
            r.packages().len() == 0,
    {
        let mut repos: Vec<String> = Vec::new();
        repos.push(String::from_str("core"));
        repos.push(String::from_str("extra"));
        repos.push(String::from_str("multilib"));
        let r = PacmanRepository { mirror: String::from_str(mirror), repos, packages: Vec::new() };
        proof {
            assert(r.repos() =~= seq!["core"@, "extra"@, "multilib"@]);
        }
        r
    }

    /// URL of the database of `repo` for `arch`.
    pub fn db_url(&self, repo: &str, arch: &str) -> (r: String)
        ensures
            r@ == self.mirror() + "/"@ + repo@ + "/os/"@ + arch@ + "/"@ + repo@ + ".db"@,
    {
        let mut s = self.mirror.clone();
        s.append("/");
        s.append(repo);
        s.append("/os/");
        s.append(arch);
        s.append("/");
        s.append(repo);
        s.append(".db");
        s
    }

    /// URL of the compressed database of `repo` for `arch`.
    pub fn db_gz_url(&self, repo: &str, arch: &str) -> (r: String)
        ensures
            r@ == self.mirror() + "/"@ + repo@ + "/os/"@ + arch@ + "/"@ + repo@ + ".db.tar.gz"@,
    {
        let mut s = self.mirror.clone();
        s.append("/");
        s.append(repo);
        s.append("/os/");
        s.append(arch);
        s.append("/");
        s.append(repo);
        s.append(".db.tar.gz");
        s
    }

    /// Walks the database location of each repository. Fetching and
    /// unpacking is the transport's part; nothing here can fail.
    pub fn sync(&mut self) -> (r: Result<(), crate::model::PkgError>)
        ensures
            r is Ok,
            final(self).mirror() == old(self).mirror(),
            final(self).repos() == old(self).repos(),
            final(self).packages() == old(self).packages(),
    {
        let mut i: usize = 0;
        while i < self.repos.len()
            invariant
                self.mirror@ == old(self).mirror@,
                self.repos@ == old(self).repos@,
                self.packages@ == old(self).packages@,
            decreases self.repos@.len() - i,
        {
            let _url = self.db_gz_url(self.repos[i].as_str(), "x86_64");
            i = i + 1;
        }
        Ok(())
    }

    /// Package entries whose name or description contains `query`,
    /// ignoring case.
    pub fn search(&self, query: &str) -> (r: Vec<&PacmanPackage>)
        ensures
            crate::text::derefs(r@) == self.packages().filter(pacman_query(query@)),
            forall|k: int| 0 <= k < r@.len() ==> self.packages().contains(*r@[k]),
            forall|k: int| 0 <= k < r@.len() ==> query_matches(query@, r@[k].name@, r@[k].desc@),
            forall|j: int| 0 <= j < self.packages().len() && query_matches(query@, self.packages()[j].name@, self.packages()[j].desc@)
                ==> exists|k: int| 0 <= k < r@.len() && r@[k] == &self.packages()[j],
    {
        let q = lowercase(query);
        let mut out: Vec<&PacmanPackage> = Vec::new();
        proof {
            crate::text::lemma_filter_empty(self.packages@, pacman_query(query@));
        }
        let mut i: usize = 0;
        while i < self.packages.len()
            invariant
                q@ == lower_of(query@),
                i <= self.packages@.len(),
                crate::text::derefs(out@) == self.packages@.subrange(0, i as int).filter(pacman_query(query@)),
                forall|k: int| 0 <= k < out@.len() ==> self.packages@.contains(*out@[k]),
                forall|k: int| 0 <= k < out@.len() ==> query_matches(query@, out@[k].name@, out@[k].desc@),
                forall|j: int| 0 <= j < i && query_matches(query@, self.packages@[j].name@, self.packages@[j].desc@)
                    ==> exists|k: int| 0 <= k < out@.len() && out@[k] == &self.packages@[j],
            decreases self.packages@.len() - i,
        {
            let p = &self.packages[i];
            proof {
                crate::text::lemma_filter_step(self.packages@, i as int, pacman_query(query@));
            }
            if matches_lowered(q.as_str(), p.name.as_str(), p.desc.as_str()) {
                let ghost before = out@;
                out.push(p);
                proof {
                    crate::text::lemma_derefs_push(before, p);
                    assert(out@[before.len() as int] == p);
                    assert forall|j: int| 0 <= j < i && query_matches(query@, self.packages@[j].name@, self.packages@[j].desc@)
                        implies exists|k: int| 0 <= k < out@.len() && out@[k] == &self.packages@[j] by {
                        let k = choose|k: int| 0 <= k < before.len() && before[k] == &self.packages@[j];
                        assert(out@[k] == before[k]);
                    }
                }
            }
            i = i + 1;
        }
        proof {
            assert(self.packages@.subrange(0, self.packages@.len() as int) =~= self.packages@);
        }
        out
    }

    /// The last entry read for the package called `name`.
    pub fn get(&self, name: &str) -> (r: Option<&PacmanPackage>)
        ensures
            r is None ==> forall|j: int| 0 <= j < self.packages().len() ==> self.packages()[j].name@ != name@,
            r matches Some(p) ==> exists|j: int|
                0 <= j < self.packages().len() && *p == self.packages()[j] && p.name@ == name@ && forall|k: int|
                    j < k < self.packages().len() ==> self.packages()[k].name@ != name@,
    {
        let key = String::from_str(name);
        let mut i: usize = self.packages.len();
        while i > 0
            invariant
                i <= self.packages@.len(),
                key@ == name@,
                forall|k: int| i <= k < self.packages@.len() ==> self.packages@[k].name@ != name@,
            decreases i,
        {
            if self.packages[i - 1].name == key {
                let found = &self.packages[i - 1];
                proof {
                    let j = i - 1;
                    assert(*found == self.packages()[j as int] && found.name@ == name@);
                }
                return Some(found);
            }
            i = i - 1;
        }
        None
    }

    /// Download URL of a package entry of `repo`.
    pub fn get_download_url(&self, repo: &str, pkg: &PacmanPackage) -> (r: String)
        ensures
            r@ == self.mirror() + "/"@ + repo@ + "/os/"@ + pkg.arch@ + "/"@ + pkg.filename@,
    {
        let mut s = self.mirror.clone();
        s.append("/");
        s.append(repo);
        s.append("/os/");
        s.append(pkg.arch.as_str());
        s.append("/");
        s.append(pkg.filename.as_str());
        s
    }
}

impl Default for PacmanRepository {
    fn default() -> (r: PacmanRepository)
        ensures
            r.mirror() == ARCH_MIRROR@,
            r.packages().len() == 0,
    {
        PacmanRepository::new(ARCH_MIRROR)
    }
}

/// Repository configuration of one pacman repository on a mirror.
pub fn create_pacman_repo(name: &str, mirror: &str, repo: &str) -> (r: Repository)
    ensures
        r.name@ == "pacman-"@ + name@ + "-"@ + repo@,
        r.url@ == mirror@ + "/"@ + repo@ + "/os/x86_64"@,
        r.format == PackageFormat::Native,
        r.enabled,
        r.gpg_key is None,
        r.priority == 75,
{
    let mut n = String::from_str("pacman-");
    n.append(name);
    n.append("-");
    n.append(repo);
    let mut url = String::from_str(mirror);
    url.append("/");
    url.append(repo);
    url.append("/os/x86_64");
    Repository { name: n, url, format: PackageFormat::Native, enabled: true, gpg_key: None, priority: 75 }
}


/// The canonical record of a pacman entry.
pub open spec fn pacman_record(p: PacmanPackage) -> PackageView {
    PackageView {
        name: p.name@,
        version: p.version@,
        release: 1,
        arch: p.arch@,
        format: PackageFormat::Native,
        description: p.desc@,
        maintainer: p.packager@,
        license: p.license@,
        homepage: p.url@,
        size: p.size,
        installed_size: p.isize,
        dependencies: deps_view(p.depends@),
        conflicts: strings_view(p.conflicts@),
        provides: strings_view(p.provides@),
        replaces: strings_view(p.replaces@),
        files: Seq::empty(),
        checksum: p.sha256sum@,
    }
}

impl PackageInfo {
    /// The canonical record of a pacman entry.
    pub fn from_pacman(pac: PacmanPackage) -> (r: PackageInfo)
        ensures
            r@ == pacman_record(pac),
    {
        let ghost pv = pac;
        let r = PackageInfo {
            name: pac.name,
            version: pac.version,
            release: 1,
            arch: pac.arch,
            format: PackageFormat::Native,
            description: pac.desc,
            maintainer: pac.packager,
            license: pac.license,
            homepage: pac.url,
            size: pac.size,
            installed_size: pac.isize,
            dependencies: pac.depends,
            conflicts: pac.conflicts,
            provides: pac.provides,
            replaces: pac.replaces,
            files: Vec::new(),
            checksum: pac.sha256sum,
        };
        proof {
            assert(strings_view(r.files@) =~= Seq::<Seq<char>>::empty());
            assert(r@ =~= pacman_record(pv));
        }
        r
    }
}

impl From<PacmanPackage> for PackageInfo {
    fn from(pac: PacmanPackage) -> PackageInfo {
        PackageInfo::from_pacman(pac)
    }
}

impl vstd::std_specs::convert::FromSpecImpl<PacmanPackage> for PackageInfo {
    open spec fn obeys_from_spec() -> bool {
        false
    }

    open spec fn from_spec(v: PacmanPackage) -> PackageInfo {
        vstd::pervasive::arbitrary()
    }
}


pub struct PacmanView {
    pub name: Seq<char>,
    pub version: Seq<char>,
    pub base: Seq<char>,
    pub desc: Seq<char>,
    pub url: Seq<char>,
    pub arch: Seq<char>,
    pub builddate: u64,
    pub installdate: u64,
    pub packager: Seq<char>,
    pub size: u64,
    pub isize: u64,
    pub license: Seq<char>,
    pub groups: Seq<Seq<char>>,
    pub depends: Seq<DependencyView>,
    pub optdepends: Seq<Seq<char>>,
    pub makedepends: Seq<Seq<char>>,
    pub conflicts: Seq<Seq<char>>,
    pub provides: Seq<Seq<char>>,
    pub replaces: Seq<Seq<char>>,
    pub filename: Seq<char>,
    pub md5sum: Seq<char>,
    pub sha256sum: Seq<char>,
    pub pgpsig: Seq<char>,
}

impl View for PacmanPackage {
    type V = PacmanView;

    open spec fn view(&self) -> PacmanView {
        PacmanView {
            name: self.name@,
            version: self.version@,
            base: self.base@,
            desc: self.desc@,
            url: self.url@,
            arch: self.arch@,
            builddate: self.builddate,
            installdate: self.installdate,
            packager: self.packager@,
            size: self.size,
            isize: self.isize,
            license: self.license@,
            groups: strings_view(self.groups@),
            depends: deps_view(self.depends@),
            optdepends: strings_view(self.optdepends@),
            makedepends: strings_view(self.makedepends@),
            conflicts: strings_view(self.conflicts@),
            provides: strings_view(self.provides@),
            replaces: strings_view(self.replaces@),
            filename: self.filename@,
            md5sum: self.md5sum@,
            sha256sum: self.sha256sum@,
            pgpsig: self.pgpsig@,
        }
    }
}

/// The entry after reading the block `%field%` with `values`; single
/// values take the first line (empty when there is none), numbers read as
/// `u64` (0 when they do not parse).
pub open spec fn desc_field(pkg: PacmanView, field: Seq<char>, values: Seq<Seq<char>>) -> PacmanView {
    let first = if values.len() > 0 { values[0] } else { Seq::<char>::empty() };
    if field == "NAME"@ {
        PacmanView { name: first, ..pkg }
    } else if field == "VERSION"@ {
        PacmanView { version: first, ..pkg }
    } else if field == "BASE"@ {
        PacmanView { base: first, ..pkg }
    } else if field == "DESC"@ {
        PacmanView { desc: first, ..pkg }
    } else if field == "URL"@ {
        PacmanView { url: first, ..pkg }
    } else if field == "ARCH"@ {
        PacmanView { arch: first, ..pkg }
    } else if field == "BUILDDATE"@ {
        PacmanView { builddate: size_or_zero(first), ..pkg }
    } else if field == "INSTALLDATE"@ {
        PacmanView { installdate: size_or_zero(first), ..pkg }
    } else if field == "PACKAGER"@ {
        PacmanView { packager: first, ..pkg }
    } else if field == "SIZE"@ {
        PacmanView { size: size_or_zero(first), ..pkg }
    } else if field == "ISIZE"@ {
        PacmanView { isize: size_or_zero(first), ..pkg }
    } else if field == "LICENSE"@ {
        PacmanView { license: first, ..pkg }
    } else if field == "GROUPS"@ {
        PacmanView { groups: values, ..pkg }
    } else if field == "DEPENDS"@ {
        PacmanView { depends: values.map_values(|v: Seq<char>| pacman_dep(v)), ..pkg }
    } else if field == "OPTDEPENDS"@ {
        PacmanView { optdepends: values, ..pkg }
    } else if field == "MAKEDEPENDS"@ {
        PacmanView { makedepends: values, ..pkg }
    } else if field == "CONFLICTS"@ {
        PacmanView { conflicts: values, ..pkg }
    } else if field == "PROVIDES"@ {
        PacmanView { provides: values, ..pkg }
    } else if field == "REPLACES"@ {
        PacmanView { replaces: values, ..pkg }
    } else if field == "FILENAME"@ {
        PacmanView { filename: first, ..pkg }
    } else if field == "MD5SUM"@ {
        PacmanView { md5sum: first, ..pkg }
    } else if field == "SHA256SUM"@ {
        PacmanView { sha256sum: first, ..pkg }
    } else if field == "PGPSIG"@ {
        PacmanView { pgpsig: first, ..pkg }
    } else {
        pkg
    }
}

proof fn lemma_desc_keys_distinct()
    ensures
        "NAME"@ != "VERSION"@,
        "NAME"@ != "BASE"@,
        "NAME"@ != "DESC"@,
        "NAME"@ != "URL"@,
        "NAME"@ != "ARCH"@,
        "NAME"@ != "BUILDDATE"@,
        "NAME"@ != "INSTALLDATE"@,
        "NAME"@ != "PACKAGER"@,
        "NAME"@ != "SIZE"@,
        "NAME"@ != "ISIZE"@,
        "NAME"@ != "LICENSE"@,
        "NAME"@ != "GROUPS"@,
        "NAME"@ != "DEPENDS"@,
        "NAME"@ != "OPTDEPENDS"@,
        "NAME"@ != "MAKEDEPENDS"@,
        "NAME"@ != "CONFLICTS"@,
        "NAME"@ != "PROVIDES"@,
        "NAME"@ != "REPLACES"@,
        "NAME"@ != "FILENAME"@,
        "NAME"@ != "MD5SUM"@,
        "NAME"@ != "SHA256SUM"@,
        "NAME"@ != "PGPSIG"@,
        "VERSION"@ != "BASE"@,
        "VERSION"@ != "DESC"@,
        "VERSION"@ != "URL"@,
        "VERSION"@ != "ARCH"@,
        "VERSION"@ != "BUILDDATE"@,
        "VERSION"@ != "INSTALLDATE"@,
        "VERSION"@ != "PACKAGER"@,
        "VERSION"@ != "SIZE"@,
        "VERSION"@ != "ISIZE"@,
        "VERSION"@ != "LICENSE"@,
        "VERSION"@ != "GROUPS"@,
        "VERSION"@ != "DEPENDS"@,
        "VERSION"@ != "OPTDEPENDS"@,
        "VERSION"@ != "MAKEDEPENDS"@,
        "VERSION"@ != "CONFLICTS"@,
        "VERSION"@ != "PROVIDES"@,
        "VERSION"@ != "REPLACES"@,
        "VERSION"@ != "FILENAME"@,
        "VERSION"@ != "MD5SUM"@,
        "VERSION"@ != "SHA256SUM"@,
        "VERSION"@ != "PGPSIG"@,
        "BASE"@ != "DESC"@,
        "BASE"@ != "URL"@,
        "BASE"@ != "ARCH"@,
        "BASE"@ != "BUILDDATE"@,
        "BASE"@ != "INSTALLDATE"@,
        "BASE"@ != "PACKAGER"@,
        "BASE"@ != "SIZE"@,
        "BASE"@ != "ISIZE"@,
        "BASE"@ != "LICENSE"@,
        "BASE"@ != "GROUPS"@,
        "BASE"@ != "DEPENDS"@,
        "BASE"@ != "OPTDEPENDS"@,
        "BASE"@ != "MAKEDEPENDS"@,
        "BASE"@ != "CONFLICTS"@,
        "BASE"@ != "PROVIDES"@,
        "BASE"@ != "REPLACES"@,
        "BASE"@ != "FILENAME"@,
        "BASE"@ != "MD5SUM"@,
        "BASE"@ != "SHA256SUM"@,
        "BASE"@ != "PGPSIG"@,
        "DESC"@ != "URL"@,
        "DESC"@ != "ARCH"@,
        "DESC"@ != "BUILDDATE"@,
        "DESC"@ != "INSTALLDATE"@,
        "DESC"@ != "PACKAGER"@,
        "DESC"@ != "SIZE"@,
        "DESC"@ != "ISIZE"@,
        "DESC"@ != "LICENSE"@,
        "DESC"@ != "GROUPS"@,
        "DESC"@ != "DEPENDS"@,
        "DESC"@ != "OPTDEPENDS"@,
        "DESC"@ != "MAKEDEPENDS"@,
        "DESC"@ != "CONFLICTS"@,
        "DESC"@ != "PROVIDES"@,
        "DESC"@ != "REPLACES"@,
        "DESC"@ != "FILENAME"@,
        "DESC"@ != "MD5SUM"@,
        "DESC"@ != "SHA256SUM"@,
        "DESC"@ != "PGPSIG"@,
        "URL"@ != "ARCH"@,
        "URL"@ != "BUILDDATE"@,
        "URL"@ != "INSTALLDATE"@,
        "URL"@ != "PACKAGER"@,
        "URL"@ != "SIZE"@,
        "URL"@ != "ISIZE"@,
        "URL"@ != "LICENSE"@,
        "URL"@ != "GROUPS"@,
        "URL"@ != "DEPENDS"@,
        "URL"@ != "OPTDEPENDS"@,
        "URL"@ != "MAKEDEPENDS"@,
        "URL"@ != "CONFLICTS"@,
        "URL"@ != "PROVIDES"@,
        "URL"@ != "REPLACES"@,
        "URL"@ != "FILENAME"@,
        "URL"@ != "MD5SUM"@,
        "URL"@ != "SHA256SUM"@,
        "URL"@ != "PGPSIG"@,
        "ARCH"@ != "BUILDDATE"@,
        "ARCH"@ != "INSTALLDATE"@,
        "ARCH"@ != "PACKAGER"@,
        "ARCH"@ != "SIZE"@,
        "ARCH"@ != "ISIZE"@,
        "ARCH"@ != "LICENSE"@,
        "ARCH"@ != "GROUPS"@,
        "ARCH"@ != "DEPENDS"@,
        "ARCH"@ != "OPTDEPENDS"@,
        "ARCH"@ != "MAKEDEPENDS"@,
        "ARCH"@ != "CONFLICTS"@,
        "ARCH"@ != "PROVIDES"@,
        "ARCH"@ != "REPLACES"@,
        "ARCH"@ != "FILENAME"@,
        "ARCH"@ != "MD5SUM"@,
        "ARCH"@ != "SHA256SUM"@,
        "ARCH"@ != "PGPSIG"@,
        "BUILDDATE"@ != "INSTALLDATE"@,
        "BUILDDATE"@ != "PACKAGER"@,
        "BUILDDATE"@ != "SIZE"@,
        "BUILDDATE"@ != "ISIZE"@,
        "BUILDDATE"@ != "LICENSE"@,
        "BUILDDATE"@ != "GROUPS"@,
        "BUILDDATE"@ != "DEPENDS"@,
        "BUILDDATE"@ != "OPTDEPENDS"@,
        "BUILDDATE"@ != "MAKEDEPENDS"@,
        "BUILDDATE"@ != "CONFLICTS"@,
        "BUILDDATE"@ != "PROVIDES"@,
        "BUILDDATE"@ != "REPLACES"@,
        "BUILDDATE"@ != "FILENAME"@,
        "BUILDDATE"@ != "MD5SUM"@,
        "BUILDDATE"@ != "SHA256SUM"@,
        "BUILDDATE"@ != "PGPSIG"@,
        "INSTALLDATE"@ != "PACKAGER"@,
        "INSTALLDATE"@ != "SIZE"@,
        "INSTALLDATE"@ != "ISIZE"@,
        "INSTALLDATE"@ != "LICENSE"@,
        "INSTALLDATE"@ != "GROUPS"@,
        "INSTALLDATE"@ != "DEPENDS"@,
        "INSTALLDATE"@ != "OPTDEPENDS"@,
        "INSTALLDATE"@ != "MAKEDEPENDS"@,
        "INSTALLDATE"@ != "CONFLICTS"@,
        "INSTALLDATE"@ != "PROVIDES"@,
        "INSTALLDATE"@ != "REPLACES"@,
        "INSTALLDATE"@ != "FILENAME"@,
        "INSTALLDATE"@ != "MD5SUM"@,
        "INSTALLDATE"@ != "SHA256SUM"@,
        "INSTALLDATE"@ != "PGPSIG"@,
        "PACKAGER"@ != "SIZE"@,
        "PACKAGER"@ != "ISIZE"@,
        "PACKAGER"@ != "LICENSE"@,
        "PACKAGER"@ != "GROUPS"@,
        "PACKAGER"@ != "DEPENDS"@,
        "PACKAGER"@ != "OPTDEPENDS"@,
        "PACKAGER"@ != "MAKEDEPENDS"@,
        "PACKAGER"@ != "CONFLICTS"@,
        "PACKAGER"@ != "PROVIDES"@,
        "PACKAGER"@ != "REPLACES"@,
        "PACKAGER"@ != "FILENAME"@,
        "PACKAGER"@ != "MD5SUM"@,
        "PACKAGER"@ != "SHA256SUM"@,
        "PACKAGER"@ != "PGPSIG"@,
        "SIZE"@ != "ISIZE"@,
        "SIZE"@ != "LICENSE"@,
        "SIZE"@ != "GROUPS"@,
        "SIZE"@ != "DEPENDS"@,
        "SIZE"@ != "OPTDEPENDS"@,
        "SIZE"@ != "MAKEDEPENDS"@,
        "SIZE"@ != "CONFLICTS"@,
        "SIZE"@ != "PROVIDES"@,
        "SIZE"@ != "REPLACES"@,
        "SIZE"@ != "FILENAME"@,
        "SIZE"@ != "MD5SUM"@,
        "SIZE"@ != "SHA256SUM"@,
        "SIZE"@ != "PGPSIG"@,
        "ISIZE"@ != "LICENSE"@,
        "ISIZE"@ != "GROUPS"@,
        "ISIZE"@ != "DEPENDS"@,
        "ISIZE"@ != "OPTDEPENDS"@,
        "ISIZE"@ != "MAKEDEPENDS"@,
        "ISIZE"@ != "CONFLICTS"@,
        "ISIZE"@ != "PROVIDES"@,
        "ISIZE"@ != "REPLACES"@,
        "ISIZE"@ != "FILENAME"@,
        "ISIZE"@ != "MD5SUM"@,
        "ISIZE"@ != "SHA256SUM"@,
        "ISIZE"@ != "PGPSIG"@,
        "LICENSE"@ != "GROUPS"@,
        "LICENSE"@ != "DEPENDS"@,
        "LICENSE"@ != "OPTDEPENDS"@,
        "LICENSE"@ != "MAKEDEPENDS"@,
        "LICENSE"@ != "CONFLICTS"@,
        "LICENSE"@ != "PROVIDES"@,
        "LICENSE"@ != "REPLACES"@,
        "LICENSE"@ != "FILENAME"@,
        "LICENSE"@ != "MD5SUM"@,
        "LICENSE"@ != "SHA256SUM"@,
        "LICENSE"@ != "PGPSIG"@,
        "GROUPS"@ != "DEPENDS"@,
        "GROUPS"@ != "OPTDEPENDS"@,
        "GROUPS"@ != "MAKEDEPENDS"@,
        "GROUPS"@ != "CONFLICTS"@,
        "GROUPS"@ != "PROVIDES"@,
        "GROUPS"@ != "REPLACES"@,
        "GROUPS"@ != "FILENAME"@,
        "GROUPS"@ != "MD5SUM"@,
        "GROUPS"@ != "SHA256SUM"@,
        "GROUPS"@ != "PGPSIG"@,
        "DEPENDS"@ != "OPTDEPENDS"@,
        "DEPENDS"@ != "MAKEDEPENDS"@,
        "DEPENDS"@ != "CONFLICTS"@,
        "DEPENDS"@ != "PROVIDES"@,
        "DEPENDS"@ != "REPLACES"@,
        "DEPENDS"@ != "FILENAME"@,
        "DEPENDS"@ != "MD5SUM"@,
        "DEPENDS"@ != "SHA256SUM"@,
        "DEPENDS"@ != "PGPSIG"@,
        "OPTDEPENDS"@ != "MAKEDEPENDS"@,
        "OPTDEPENDS"@ != "CONFLICTS"@,
        "OPTDEPENDS"@ != "PROVIDES"@,
        "OPTDEPENDS"@ != "REPLACES"@,
        "OPTDEPENDS"@ != "FILENAME"@,
        "OPTDEPENDS"@ != "MD5SUM"@,
        "OPTDEPENDS"@ != "SHA256SUM"@,
        "OPTDEPENDS"@ != "PGPSIG"@,
        "MAKEDEPENDS"@ != "CONFLICTS"@,
        "MAKEDEPENDS"@ != "PROVIDES"@,
        "MAKEDEPENDS"@ != "REPLACES"@,
        "MAKEDEPENDS"@ != "FILENAME"@,
        "MAKEDEPENDS"@ != "MD5SUM"@,
        "MAKEDEPENDS"@ != "SHA256SUM"@,
        "MAKEDEPENDS"@ != "PGPSIG"@,
        "CONFLICTS"@ != "PROVIDES"@,
        "CONFLICTS"@ != "REPLACES"@,
        "CONFLICTS"@ != "FILENAME"@,
        "CONFLICTS"@ != "MD5SUM"@,
        "CONFLICTS"@ != "SHA256SUM"@,
        "CONFLICTS"@ != "PGPSIG"@,
        "PROVIDES"@ != "REPLACES"@,
        "PROVIDES"@ != "FILENAME"@,
        "PROVIDES"@ != "MD5SUM"@,
        "PROVIDES"@ != "SHA256SUM"@,
        "PROVIDES"@ != "PGPSIG"@,
        "REPLACES"@ != "FILENAME"@,
        "REPLACES"@ != "MD5SUM"@,
        "REPLACES"@ != "SHA256SUM"@,
        "REPLACES"@ != "PGPSIG"@,
        "FILENAME"@ != "MD5SUM"@,
        "FILENAME"@ != "SHA256SUM"@,
        "FILENAME"@ != "PGPSIG"@,
        "MD5SUM"@ != "SHA256SUM"@,
        "MD5SUM"@ != "PGPSIG"@,
        "SHA256SUM"@ != "PGPSIG"@,
{
    reveal_strlit("NAME");
    reveal_strlit("VERSION");
    reveal_strlit("BASE");
    reveal_strlit("DESC");
    reveal_strlit("URL");
    reveal_strlit("ARCH");
    reveal_strlit("BUILDDATE");
    reveal_strlit("INSTALLDATE");
    reveal_strlit("PACKAGER");
    reveal_strlit("SIZE");
    reveal_strlit("ISIZE");
    reveal_strlit("LICENSE");
    reveal_strlit("GROUPS");
    reveal_strlit("DEPENDS");
    reveal_strlit("OPTDEPENDS");
    reveal_strlit("MAKEDEPENDS");
    reveal_strlit("CONFLICTS");
    reveal_strlit("PROVIDES");
    reveal_strlit("REPLACES");
    reveal_strlit("FILENAME");
    reveal_strlit("MD5SUM");
    reveal_strlit("SHA256SUM");
    reveal_strlit("PGPSIG");
    assert("NAME"@[0] == 'N' && "NAME"@[1] == 'A' && "NAME"@[2] == 'M' && "NAME"@[3] == 'E');
    assert("VERSION"@[0] == 'V' && "VERSION"@[1] == 'E' && "VERSION"@[2] == 'R' && "VERSION"@[3] == 'S' && "VERSION"@[4] == 'I' && "VERSION"@[5] == 'O' && "VERSION"@[6] == 'N');
    assert("BASE"@[0] == 'B' && "BASE"@[1] == 'A' && "BASE"@[2] == 'S' && "BASE"@[3] == 'E');
    assert("DESC"@[0] == 'D' && "DESC"@[1] == 'E' && "DESC"@[2] == 'S' && "DESC"@[3] == 'C');
    assert("URL"@[0] == 'U' && "URL"@[1] == 'R' && "URL"@[2] == 'L');
    assert("ARCH"@[0] == 'A' && "ARCH"@[1] == 'R' && "ARCH"@[2] == 'C' && "ARCH"@[3] == 'H');
    assert("BUILDDATE"@[0] == 'B' && "BUILDDATE"@[1] == 'U' && "BUILDDATE"@[2] == 'I' && "BUILDDATE"@[3] == 'L' && "BUILDDATE"@[4] == 'D' && "BUILDDATE"@[5] == 'D' && "BUILDDATE"@[6] == 'A' && "BUILDDATE"@[7] == 'T' && "BUILDDATE"@[8] == 'E');
    assert("INSTALLDATE"@[0] == 'I' && "INSTALLDATE"@[1] == 'N' && "INSTALLDATE"@[2] == 'S' && "INSTALLDATE"@[3] == 'T' && "INSTALLDATE"@[4] == 'A' && "INSTALLDATE"@[5] == 'L' && "INSTALLDATE"@[6] == 'L' && "INSTALLDATE"@[7] == 'D' && "INSTALLDATE"@[8] == 'A' && "INSTALLDATE"@[9] == 'T' && "INSTALLDATE"@[10] == 'E');
    assert("PACKAGER"@[0] == 'P' && "PACKAGER"@[1] == 'A' && "PACKAGER"@[2] == 'C' && "PACKAGER"@[3] == 'K' && "PACKAGER"@[4] == 'A' && "PACKAGER"@[5] == 'G' && "PACKAGER"@[6] == 'E' && "PACKAGER"@[7] == 'R');
    assert("SIZE"@[0] == 'S' && "SIZE"@[1] == 'I' && "SIZE"@[2] == 'Z' && "SIZE"@[3] == 'E');
    assert("ISIZE"@[0] == 'I' && "ISIZE"@[1] == 'S' && "ISIZE"@[2] == 'I' && "ISIZE"@[3] == 'Z' && "ISIZE"@[4] == 'E');
    assert("LICENSE"@[0] == 'L' && "LICENSE"@[1] == 'I' && "LICENSE"@[2] == 'C' && "LICENSE"@[3] == 'E' && "LICENSE"@[4] == 'N' && "LICENSE"@[5] == 'S' && "LICENSE"@[6] == 'E');
    assert("GROUPS"@[0] == 'G' && "GROUPS"@[1] == 'R' && "GROUPS"@[2] == 'O' && "GROUPS"@[3] == 'U' && "GROUPS"@[4] == 'P' && "GROUPS"@[5] == 'S');
    assert("DEPENDS"@[0] == 'D' && "DEPENDS"@[1] == 'E' && "DEPENDS"@[2] == 'P' && "DEPENDS"@[3] == 'E' && "DEPENDS"@[4] == 'N' && "DEPENDS"@[5] == 'D' && "DEPENDS"@[6] == 'S');
    assert("OPTDEPENDS"@[0] == 'O' && "OPTDEPENDS"@[1] == 'P' && "OPTDEPENDS"@[2] == 'T' && "OPTDEPENDS"@[3] == 'D' && "OPTDEPENDS"@[4] == 'E' && "OPTDEPENDS"@[5] == 'P' && "OPTDEPENDS"@[6] == 'E' && "OPTDEPENDS"@[7] == 'N' && "OPTDEPENDS"@[8] == 'D' && "OPTDEPENDS"@[9] == 'S');
    assert("MAKEDEPENDS"@[0] == 'M' && "MAKEDEPENDS"@[1] == 'A' && "MAKEDEPENDS"@[2] == 'K' && "MAKEDEPENDS"@[3] == 'E' && "MAKEDEPENDS"@[4] == 'D' && "MAKEDEPENDS"@[5] == 'E' && "MAKEDEPENDS"@[6] == 'P' && "MAKEDEPENDS"@[7] == 'E' && "MAKEDEPENDS"@[8] == 'N' && "MAKEDEPENDS"@[9] == 'D' && "MAKEDEPENDS"@[10] == 'S');
    assert("CONFLICTS"@[0] == 'C' && "CONFLICTS"@[1] == 'O' && "CONFLICTS"@[2] == 'N' && "CONFLICTS"@[3] == 'F' && "CONFLICTS"@[4] == 'L' && "CONFLICTS"@[5] == 'I' && "CONFLICTS"@[6] == 'C' && "CONFLICTS"@[7] == 'T' && "CONFLICTS"@[8] == 'S');
    assert("PROVIDES"@[0] == 'P' && "PROVIDES"@[1] == 'R' && "PROVIDES"@[2] == 'O' && "PROVIDES"@[3] == 'V' && "PROVIDES"@[4] == 'I' && "PROVIDES"@[5] == 'D' && "PROVIDES"@[6] == 'E' && "PROVIDES"@[7] == 'S');
    assert("REPLACES"@[0] == 'R' && "REPLACES"@[1] == 'E' && "REPLACES"@[2] == 'P' && "REPLACES"@[3] == 'L' && "REPLACES"@[4] == 'A' && "REPLACES"@[5] == 'C' && "REPLACES"@[6] == 'E' && "REPLACES"@[7] == 'S');
    assert("FILENAME"@[0] == 'F' && "FILENAME"@[1] == 'I' && "FILENAME"@[2] == 'L' && "FILENAME"@[3] == 'E' && "FILENAME"@[4] == 'N' && "FILENAME"@[5] == 'A' && "FILENAME"@[6] == 'M' && "FILENAME"@[7] == 'E');
    assert("MD5SUM"@[0] == 'M' && "MD5SUM"@[1] == 'D' && "MD5SUM"@[2] == '5' && "MD5SUM"@[3] == 'S' && "MD5SUM"@[4] == 'U' && "MD5SUM"@[5] == 'M');
    assert("SHA256SUM"@[0] == 'S' && "SHA256SUM"@[1] == 'H' && "SHA256SUM"@[2] == 'A' && "SHA256SUM"@[3] == '2' && "SHA256SUM"@[4] == '5' && "SHA256SUM"@[5] == '6' && "SHA256SUM"@[6] == 'S' && "SHA256SUM"@[7] == 'U' && "SHA256SUM"@[8] == 'M');
    assert("PGPSIG"@[0] == 'P' && "PGPSIG"@[1] == 'G' && "PGPSIG"@[2] == 'P' && "PGPSIG"@[3] == 'S' && "PGPSIG"@[4] == 'I' && "PGPSIG"@[5] == 'G');
}


fn pacman_deps(values: &Vec<String>) -> (r: Vec<Dependency>)
    ensures
        deps_view(r@) == strings_view(values@).map_values(|v: Seq<char>| pacman_dep(v)),
{
    let mut out: Vec<Dependency> = Vec::new();
    let mut i: usize = 0;
    while i < values.len()
        invariant
            i <= values@.len(),
            deps_view(out@) == strings_view(values@.subrange(0, i as int)).map_values(|v: Seq<char>| pacman_dep(v)),
        decreases values@.len() - i,
    {
        let ghost before = out@;
        out.push(parse_pacman_dep(values[i].as_str()));
        proof {
            assert(strings_view(values@.subrange(0, i + 1)) =~= strings_view(values@.subrange(0, i as int)).push(values@[i as int]@));
            assert(deps_view(out@) =~= deps_view(before).push(pacman_dep(values@[i as int]@)));
        }
        i = i + 1;
    }
    proof {
        assert(values@.subrange(0, values@.len() as int) =~= values@);
    }
    out
}

fn apply_field(pkg: &mut PacmanPackage, field: &Vec<char>, values: &Vec<String>)
    ensures
        final(pkg)@ == desc_field(old(pkg)@, field@, strings_view(values@)),
{
    proof {
        lemma_desc_keys_distinct();
    }
    let first: &str = if values.len() > 0 { values[0].as_str() } else { "" };
    proof {
        reveal_strlit("");
        assert(first@ == if strings_view(values@).len() > 0 { strings_view(values@)[0] } else { Seq::<char>::empty() });
    }
    if chars_equal(field, "NAME") {
        pkg.name = String::from_str(first);
    } else if chars_equal(field, "VERSION") {
        pkg.version = String::from_str(first);
    } else if chars_equal(field, "BASE") {
        pkg.base = String::from_str(first);
    } else if chars_equal(field, "DESC") {
        pkg.desc = String::from_str(first);
    } else if chars_equal(field, "URL") {
        pkg.url = String::from_str(first);
    } else if chars_equal(field, "ARCH") {
        pkg.arch = String::from_str(first);
    } else if chars_equal(field, "BUILDDATE") {
        let fc = chars_of(first);
        pkg.builddate = match parse_u64(&fc) {
            Some(n) => n,
            None => 0,
        };
    } else if chars_equal(field, "INSTALLDATE") {
        let fc = chars_of(first);
        pkg.installdate = match parse_u64(&fc) {
            Some(n) => n,
            None => 0,
        };
    } else if chars_equal(field, "PACKAGER") {
        pkg.packager = String::from_str(first);
    } else if chars_equal(field, "SIZE") {
        let fc = chars_of(first);
        pkg.size = match parse_u64(&fc) {
            Some(n) => n,
            None => 0,
        };
    } else if chars_equal(field, "ISIZE") {
        let fc = chars_of(first);
        pkg.isize = match parse_u64(&fc) {
            Some(n) => n,
            None => 0,
        };
    } else if chars_equal(field, "LICENSE") {
        pkg.license = String::from_str(first);
    } else if chars_equal(field, "GROUPS") {
        pkg.groups = crate::model::copy_strings(values);
    } else if chars_equal(field, "DEPENDS") {
        pkg.depends = pacman_deps(values);
    } else if chars_equal(field, "OPTDEPENDS") {
        pkg.optdepends = crate::model::copy_strings(values);
    } else if chars_equal(field, "MAKEDEPENDS") {
        pkg.makedepends = crate::model::copy_strings(values);
    } else if chars_equal(field, "CONFLICTS") {
        pkg.conflicts = crate::model::copy_strings(values);
    } else if chars_equal(field, "PROVIDES") {
        pkg.provides = crate::model::copy_strings(values);
    } else if chars_equal(field, "REPLACES") {
        pkg.replaces = crate::model::copy_strings(values);
    } else if chars_equal(field, "FILENAME") {
        pkg.filename = String::from_str(first);
    } else if chars_equal(field, "MD5SUM") {
        pkg.md5sum = String::from_str(first);
    } else if chars_equal(field, "SHA256SUM") {
        pkg.sha256sum = String::from_str(first);
    } else if chars_equal(field, "PGPSIG") {
        pkg.pgpsig = String::from_str(first);
    }
}

/// Reading one line of a desc file: a blank line ends the current block,
/// `%FIELD%` starts one, and other lines are values of the current block.
pub open spec fn desc_step(
    st: (PacmanView, Seq<char>, Seq<Seq<char>>),
    raw: Seq<char>,
) -> (PacmanView, Seq<char>, Seq<Seq<char>>) {
    let line = trim(raw);
    let pkg = st.0;
    let field = st.1;
    let values = st.2;
    if line.len() == 0 {
        if field.len() > 0 {
            (desc_field(pkg, field, values), Seq::empty(), Seq::empty())
        } else {
            st
        }
    } else if line.len() >= 2 && line[0] == '%' && line.last() == '%' {
        if field.len() > 0 {
            (desc_field(pkg, field, values), line.subrange(1, line.len() - 1), Seq::empty())
        } else {
            (pkg, line.subrange(1, line.len() - 1), values)
        }
    } else if field.len() > 0 {
        (pkg, field, values.push(line))
    } else {
        st
    }
}

pub open spec fn desc_scan(ls: Seq<Seq<char>>) -> (PacmanView, Seq<char>, Seq<Seq<char>>)
    decreases ls.len(),
{
    if ls.len() == 0 {
        (empty_pacman(), Seq::empty(), Seq::empty())
    } else {
        desc_step(desc_scan(ls.drop_last()), ls.last())
    }
}

/// The entry a desc file describes.
pub open spec fn desc_of(content: Seq<char>) -> PacmanView {
    let st = desc_scan(lines_of(content));
    if st.1.len() > 0 {
        desc_field(st.0, st.1, st.2)
    } else {
        st.0
    }
}

/// Parses a pacman `desc` file: `%FIELD%` headers, each followed by its
/// values, one per line. A lone `%` line is read as a value.
pub fn parse_desc(content: &str) -> (r: PacmanPackage)
    ensures
        r@ == desc_of(content@),
{
    let text = chars_of(content);
    let ls = lines(&text);
    let ghost lv = views_of(ls@);
    let mut pkg = PacmanPackage::default();
    let mut current_field: Vec<char> = Vec::new();
    let mut values: Vec<String> = Vec::new();
    let mut i: usize = 0;
    while i < ls.len()
        invariant
            lv == views_of(ls@),
            lv == lines_of(content@),
            i <= ls@.len(),
            (pkg@, current_field@, strings_view(values@)) == desc_scan(lv.subrange(0, i as int)),
        decreases ls@.len() - i,
    {
        proof {
            assert(lv.subrange(0, i + 1).drop_last() =~= lv.subrange(0, i as int));
            assert(lv.subrange(0, i + 1).last() == ls@[i as int]@);
        }
        let raw = &ls[i];
        let line = trimmed(raw, 0, raw.len());
        proof {
            assert(raw@.subrange(0, raw@.len() as int) =~= raw@);
        }
        let n = line.len();
        if n == 0 {
            if current_field.len() > 0 {
                apply_field(&mut pkg, &current_field, &values);
                current_field = Vec::new();
                values = Vec::new();
                proof {
                    assert(current_field@ =~= Seq::<char>::empty());
                    assert(strings_view(values@) =~= Seq::<Seq<char>>::empty());
                }
            }
        } else if n >= 2 && line[0] == '%' && line[n - 1] == '%' {
            if current_field.len() > 0 {
                apply_field(&mut pkg, &current_field, &values);
                values = Vec::new();
                proof {
                    assert(strings_view(values@) =~= Seq::<Seq<char>>::empty());
                }
            }
            current_field = slice_of(&line, 1, n - 1);
        } else if current_field.len() > 0 {
            let ghost before = values@;
            values.push(string_of(line.as_slice()));
            proof {
                assert(strings_view(values@) =~= strings_view(before).push(line@));
            }
        }
        i = i + 1;
    }
    proof {
        assert(lv.subrange(0, ls@.len() as int) =~= lv);
    }
    if current_field.len() > 0 {
        apply_field(&mut pkg, &current_field, &values);
    }
    pkg
}


impl PacmanPackage {
    /// Copies the entry.
    pub fn duplicate(&self) -> (r: PacmanPackage)
        ensures
            r@ == self@,
            pacman_record(r) == pacman_record(*self),
    {
        PacmanPackage {
            name: self.name.clone(),
            version: self.version.clone(),
            base: self.base.clone(),
            desc: self.desc.clone(),
            url: self.url.clone(),
            arch: self.arch.clone(),
            packager: self.packager.clone(),
            license: self.license.clone(),
            filename: self.filename.clone(),
            md5sum: self.md5sum.clone(),
            sha256sum: self.sha256sum.clone(),
            pgpsig: self.pgpsig.clone(),
            builddate: self.builddate,
            installdate: self.installdate,
            size: self.size,
            isize: self.isize,
            groups: crate::model::copy_strings(&self.groups),
            optdepends: crate::model::copy_strings(&self.optdepends),
            makedepends: crate::model::copy_strings(&self.makedepends),
            conflicts: crate::model::copy_strings(&self.conflicts),
            provides: crate::model::copy_strings(&self.provides),
            replaces: crate::model::copy_strings(&self.replaces),
            depends: crate::model::copy_dependencies(&self.depends),
        }
    }
}


/// Entries of `q`'s search: name or description contains it, ignoring case.
pub open spec fn pacman_query(q: Seq<char>) -> spec_fn(PacmanPackage) -> bool {
    |p: PacmanPackage| query_matches(q, p.name@, p.desc@)
}

} // verus!
