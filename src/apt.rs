//! APT (Debian/Ubuntu) repositories: source lines, index locations and
//! the package entries of a Packages index.
use crate::model::{
    deps_view, strings_view, ConstraintOp, Dependency, DependencyView, PackageFormat, PackageInfo,
    PackageView, Repository, VersionConstraint,
};
use crate::text::{
    before_char, chars_equal, chars_of, comma_list, comma_strings, find_char, first_index, key_value,
    kib, kib_to_bytes, lines, lines_of, lower_of, lowercase, matches_lowered, or_empty, parse_u64,
    query_matches, size_or_zero, slice_of, split_chars, split_key_value, split_on, split_words, string_of, trim,
    trimmed, views_of,
};
use vstd::prelude::*;
use vstd::string::StringExecFns;

verus! {

/// Common Debian/Ubuntu mirrors
pub const DEBIAN_MIRROR: &'static str = "http://deb.debian.org/debian";

pub const UBUNTU_MIRROR: &'static str = "http://archive.ubuntu.com/ubuntu";

/// Pop!_OS mirrors (System76)
pub const POP_OS_MIRROR: &'static str = "http://apt.pop-os.org/release";

pub const POP_OS_PROPRIETARY: &'static str = "http://apt.pop-os.org/proprietary";

pub const POP_OS_CUDA: &'static str = "http://apt.pop-os.org/proprietary-cuda";

/// One line of sources.list.
#[derive(Debug, Clone)]
pub struct AptSource {
    /// `deb` or `deb-src`
    pub source_type: String,
    pub uri: String,
    pub distribution: String,
    pub components: Vec<String>,
    pub architectures: Vec<String>,
}

impl AptSource {
    /// URL of the Packages index of one component and architecture.
    pub fn packages_url(&self, component: &str, arch: &str) -> (r: String)
        ensures
            r@ == self.uri@ + "/dists/"@ + self.distribution@ + "/"@ + component@ + "/binary-"@ + arch@
                + "/Packages"@,
    {
        let mut s = self.uri.clone();
        s.append("/dists/");
        s.append(self.distribution.as_str());
        s.append("/");
        s.append(component);
        s.append("/binary-");
        s.append(arch);
        s.append("/Packages");
        s
    }

    /// URL of the gzip-compressed Packages index.
    pub fn packages_gz_url(&self, component: &str, arch: &str) -> (r: String)
        ensures
            r@ == self.uri@ + "/dists/"@ + self.distribution@ + "/"@ + component@ + "/binary-"@ + arch@
                + "/Packages"@ + ".gz"@,
    {
        let mut s = self.packages_url(component, arch);
        s.append(".gz");
        s
    }
}

/// A package entry of a Packages index.
#[derive(Debug, Clone)]
pub struct AptPackage {
    pub package: String,
    pub version: String,
    pub architecture: String,
    pub maintainer: String,
    pub installed_size: u64,
    pub depends: Vec<Dependency>,
    pub pre_depends: Vec<Dependency>,
    pub recommends: Vec<String>,
    pub suggests: Vec<String>,
    pub conflicts: Vec<String>,
    pub provides: Vec<String>,
    pub replaces: Vec<String>,
    pub filename: String,
    pub size: u64,
    pub md5sum: String,
    pub sha256: String,
    pub section: String,
    pub priority: String,
    pub description: String,
    pub homepage: String,
}

pub struct AptView {
    pub package: Seq<char>,
    pub version: Seq<char>,
    pub architecture: Seq<char>,
    pub maintainer: Seq<char>,
    pub installed_size: u64,
    pub depends: Seq<DependencyView>,
    pub pre_depends: Seq<DependencyView>,
    pub recommends: Seq<Seq<char>>,
    pub suggests: Seq<Seq<char>>,
    pub conflicts: Seq<Seq<char>>,
    pub provides: Seq<Seq<char>>,
    pub replaces: Seq<Seq<char>>,
    pub filename: Seq<char>,
    pub size: u64,
    pub md5sum: Seq<char>,
    pub sha256: Seq<char>,
    pub section: Seq<char>,
    pub priority: Seq<char>,
    pub description: Seq<char>,
    pub homepage: Seq<char>,
}

impl View for AptPackage {
    type V = AptView;

    open spec fn view(&self) -> AptView {
        AptView {
            package: self.package@,
            version: self.version@,
            architecture: self.architecture@,
            maintainer: self.maintainer@,
            installed_size: self.installed_size,
            depends: deps_view(self.depends@),
            pre_depends: deps_view(self.pre_depends@),
            recommends: strings_view(self.recommends@),
            suggests: strings_view(self.suggests@),
            conflicts: strings_view(self.conflicts@),
            provides: strings_view(self.provides@),
            replaces: strings_view(self.replaces@),
            filename: self.filename@,
            size: self.size,
            md5sum: self.md5sum@,
            sha256: self.sha256@,
            section: self.section@,
            priority: self.priority@,
            description: self.description@,
            homepage: self.homepage@,
        }
    }
}

pub open spec fn empty_apt() -> AptView {
    AptView {
        package: Seq::empty(),
        version: Seq::empty(),
        architecture: Seq::empty(),
        maintainer: Seq::empty(),
        installed_size: 0,
        depends: Seq::empty(),
        pre_depends: Seq::empty(),
        recommends: Seq::empty(),
        suggests: Seq::empty(),
        conflicts: Seq::empty(),
        provides: Seq::empty(),
        replaces: Seq::empty(),
        filename: Seq::empty(),
        size: 0,
        md5sum: Seq::empty(),
        sha256: Seq::empty(),
        section: Seq::empty(),
        priority: Seq::empty(),
        description: Seq::empty(),
        homepage: Seq::empty(),
    }
}

impl Default for AptPackage {
    fn default() -> (r: AptPackage)
        ensures
            r@ == empty_apt(),
    {
        let r = AptPackage {
            package: String::new(),
            version: String::new(),
            architecture: String::new(),
            maintainer: String::new(),
            installed_size: 0,
            depends: Vec::new(),
            pre_depends: Vec::new(),
            recommends: Vec::new(),
            suggests: Vec::new(),
            conflicts: Vec::new(),
            provides: Vec::new(),
            replaces: Vec::new(),
            filename: String::new(),
            size: 0,
            md5sum: String::new(),
            sha256: String::new(),
            section: String::new(),
            priority: String::new(),
            description: String::new(),
            homepage: String::new(),
        };
        proof {
            assert(deps_view(r.depends@) =~= Seq::<DependencyView>::empty());
            assert(deps_view(r.pre_depends@) =~= Seq::<DependencyView>::empty());
            assert(strings_view(r.recommends@) =~= Seq::<Seq<char>>::empty());
            assert(strings_view(r.suggests@) =~= Seq::<Seq<char>>::empty());
            assert(strings_view(r.conflicts@) =~= Seq::<Seq<char>>::empty());
            assert(strings_view(r.provides@) =~= Seq::<Seq<char>>::empty());
            assert(strings_view(r.replaces@) =~= Seq::<Seq<char>>::empty());
        }
        r
    }
}

/// A source with one architecture, `amd64`.
fn standard_source(uri: &str, release: &str, components: Vec<String>) -> (r: AptSource)
    ensures
        r.source_type@ == "deb"@,
        r.uri@ == uri@,
        r.distribution@ == release@,
        r.components@ == components@,
        r.architectures@.len() == 1,
        r.architectures@[0]@ == "amd64"@,
{
    let mut arch: Vec<String> = Vec::new();
    arch.push(String::from_str("amd64"));
    AptSource {
        source_type: String::from_str("deb"),
        uri: String::from_str(uri),
        distribution: String::from_str(release),
        components,
        architectures: arch,
    }
}

fn names_of(a: &str, b: &str, c: &str) -> (r: Vec<String>)
    ensures
        r@.len() == 3,
        r@[0]@ == a@,
        r@[1]@ == b@,
        r@[2]@ == c@,
{
    let mut v: Vec<String> = Vec::new();
    v.push(String::from_str(a));
    v.push(String::from_str(b));
    v.push(String::from_str(c));
    v
}

fn one_name(a: &str) -> (r: Vec<String>)
    ensures
        r@.len() == 1,
        r@[0]@ == a@,
{
    let mut v: Vec<String> = Vec::new();
    v.push(String::from_str(a));
    v
}

/// The Ubuntu release a Pop!_OS release is based on.
pub open spec fn ubuntu_base(release: Seq<char>) -> Seq<char> {
    if release == "jammy"@ || release == "22.04"@ {
        "jammy"@
    } else if release == "noble"@ || release == "24.04"@ {
        "noble"@
    } else {
        release
    }
}

/// APT repository manager: its sources and the package entries read from
/// their indexes.
pub struct AptRepository {
    sources: Vec<AptSource>,
    packages: Vec<AptPackage>,
}

impl AptRepository {
    pub closed spec fn sources(&self) -> Seq<AptSource> {
        self.sources@
    }

    pub closed spec fn packages(&self) -> Seq<AptPackage> {
        self.packages@
    }

    /// A manager with no sources and no packages.
    pub fn new() -> (r: AptRepository)
        ensures
            r.sources().len() == 0,
            r.packages().len() == 0,
    {
        AptRepository { sources: Vec::new(), packages: Vec::new() }
    }

    /// Adds a source.
    pub fn add_source(&mut self, source: AptSource)
        ensures
            final(self).sources() == old(self).sources().push(source),
            final(self).packages() == old(self).packages(),
    {
        self.sources.push(source);
    }

    /// Adds the Debian mirror for `release`: main, contrib and non-free.
    pub fn add_debian_sources(&mut self, release: &str)
        ensures
            final(self).sources().len() == old(self).sources().len() + 1,
            final(self).sources().subrange(0, old(self).sources().len() as int) == old(self).sources(),
            ({
                let s = final(self).sources().last();
                &&& s.uri@ == DEBIAN_MIRROR@
                &&& s.distribution@ == release@
                &&& s.components@.len() == 3
                &&& s.components@[0]@ == "main"@
                &&& s.components@[1]@ == "contrib"@
                &&& s.components@[2]@ == "non-free"@
            }),
            final(self).packages() == old(self).packages(),
    {
        let comps = names_of("main", "contrib", "non-free");
        let s = standard_source(DEBIAN_MIRROR, release, comps);
        self.sources.push(s);
        proof {
            assert(self.sources@.subrange(0, old(self).sources@.len() as int) =~= old(self).sources@);
        }
    }

    /// Adds the Ubuntu mirror for `release`: main, universe and multiverse.
    pub fn add_ubuntu_sources(&mut self, release: &str)
        ensures
            final(self).sources().len() == old(self).sources().len() + 1,
            final(self).sources().subrange(0, old(self).sources().len() as int) == old(self).sources(),
            ({
                let s = final(self).sources().last();
                &&& s.uri@ == UBUNTU_MIRROR@
                &&& s.distribution@ == release@
                &&& s.components@.len() == 3
                &&& s.components@[0]@ == "main"@
                &&& s.components@[1]@ == "universe"@
                &&& s.components@[2]@ == "multiverse"@
            }),
            final(self).packages() == old(self).packages(),
    {
        let comps = names_of("main", "universe", "multiverse");
        let s = standard_source(UBUNTU_MIRROR, release, comps);
        self.sources.push(s);
        proof {
            assert(self.sources@.subrange(0, old(self).sources@.len() as int) =~= old(self).sources@);
        }
    }

    /// Adds the three Pop!_OS repositories (release, proprietary, CUDA)
    /// for `release`, then the Ubuntu release it is based on.
    pub fn add_pop_os_sources(&mut self, release: &str)
        ensures
            final(self).sources().len() == old(self).sources().len() + 4,
            final(self).sources().subrange(0, old(self).sources().len() as int) == old(self).sources(),
            ({
                let n = old(self).sources().len() as int;
                let f = final(self).sources();
                &&& f[n].uri@ == POP_OS_MIRROR@
                &&& f[n + 1].uri@ == POP_OS_PROPRIETARY@
                &&& f[n + 2].uri@ == POP_OS_CUDA@
                &&& f[n].distribution@ == release@
                &&& f[n + 1].distribution@ == release@
                &&& f[n + 2].distribution@ == release@
                &&& f[n].source_type@ == "deb"@ && f[n + 1].source_type@ == "deb"@ && f[n + 2].source_type@ == "deb"@
                &&& f[n].architectures@.len() == 1 && f[n].architectures@[0]@ == "amd64"@
                &&& f[n + 1].architectures@.len() == 1 && f[n + 1].architectures@[0]@ == "amd64"@
                &&& f[n + 2].architectures@.len() == 1 && f[n + 2].architectures@[0]@ == "amd64"@
                &&& f[n].components@.len() == 1 && f[n].components@[0]@ == "main"@
                &&& f[n + 1].components@.len() == 1 && f[n + 1].components@[0]@ == "main"@
                &&& f[n + 2].components@.len() == 1 && f[n + 2].components@[0]@ == "main"@
                &&& f[n + 3].uri@ == UBUNTU_MIRROR@
                &&& f[n + 3].distribution@ == ubuntu_base(release@)
            }),
            final(self).packages() == old(self).packages(),
    {
        self.sources.push(standard_source(POP_OS_MIRROR, release, one_name("main")));
        self.sources.push(standard_source(POP_OS_PROPRIETARY, release, one_name("main")));
        self.sources.push(standard_source(POP_OS_CUDA, release, one_name("main")));
        let key = crate::text::chars_of(release);
        let base: &str = if crate::text::chars_equal(&key, "jammy") || crate::text::chars_equal(&key, "22.04") {
            "jammy"
        } else if crate::text::chars_equal(&key, "noble") || crate::text::chars_equal(&key, "24.04") {
            "noble"
        } else {
            release
        };
        let ghost mid = self.sources@;
        self.add_ubuntu_sources(base);
        proof {
            assert(self.sources@.subrange(0, old(self).sources@.len() as int) =~= old(self).sources@) by {
                assert(self.sources@.subrange(0, mid.len() as int) == mid);
            }
            assert(self.sources@[old(self).sources@.len() as int] == mid[old(self).sources@.len() as int]);
            assert(self.sources@[old(self).sources@.len() as int + 1] == mid[old(self).sources@.len() as int + 1]);
            assert(self.sources@[old(self).sources@.len() as int + 2] == mid[old(self).sources@.len() as int + 2]);
        }
    }

    /// Walks every index location of every source. Fetching and
    /// decompressing the indexes is the transport's part; nothing here can
    /// fail.
    pub fn sync(&mut self) -> (r: Result<(), crate::model::PkgError>)
        ensures
            r is Ok,
            final(self).sources() == old(self).sources(),
            final(self).packages() == old(self).packages(),
    {
        let mut i: usize = 0;
        while i < self.sources.len()
            invariant
                self.sources@ == old(self).sources@,
                self.packages@ == old(self).packages@,
            decreases self.sources@.len() - i,
        {
            let source = &self.sources[i];
            let mut c: usize = 0;
            while c < source.components.len()
                invariant
                    c <= source.components@.len(),
                decreases source.components@.len() - c,
            {
                let mut a: usize = 0;
                while a < source.architectures.len()
                    invariant
                        c < source.components@.len(),
                        a <= source.architectures@.len(),
                    decreases source.architectures@.len() - a,
                {
                    let _url = source.packages_gz_url(source.components[c].as_str(), source.architectures[a].as_str());
                    a = a + 1;
                }
                c = c + 1;
            }
            i = i + 1;
        }
        Ok(())
    }

    /// Package entries whose name or description contains `query`,
    /// ignoring case.
    pub fn search(&self, query: &str) -> (r: Vec<&AptPackage>)
        ensures
            crate::text::derefs(r@) == self.packages().filter(apt_query(query@)),
            forall|k: int| 0 <= k < r@.len() ==> self.packages().contains(*r@[k]),
            forall|k: int| 0 <= k < r@.len() ==> query_matches(query@, r@[k].package@, r@[k].description@),
            forall|j: int| 0 <= j < self.packages().len() && query_matches(query@, self.packages()[j].package@, self.packages()[j].description@)
                ==> exists|k: int| 0 <= k < r@.len() && r@[k] == &self.packages()[j],
    {
        let q = lowercase(query);
        let mut out: Vec<&AptPackage> = Vec::new();
        proof {
            crate::text::lemma_filter_empty(self.packages@, apt_query(query@));
        }
        let mut i: usize = 0;
        while i < self.packages.len()
            invariant
                q@ == lower_of(query@),
                i <= self.packages@.len(),
                crate::text::derefs(out@) == self.packages@.subrange(0, i as int).filter(apt_query(query@)),
                forall|k: int| 0 <= k < out@.len() ==> self.packages@.contains(*out@[k]),
                forall|k: int| 0 <= k < out@.len() ==> query_matches(query@, out@[k].package@, out@[k].description@),
                forall|j: int| 0 <= j < i && query_matches(query@, self.packages@[j].package@, self.packages@[j].description@)
                    ==> exists|k: int| 0 <= k < out@.len() && out@[k] == &self.packages@[j],
            decreases self.packages@.len() - i,
        {
            let p = &self.packages[i];
            proof {
                crate::text::lemma_filter_step(self.packages@, i as int, apt_query(query@));
            }
            if matches_lowered(q.as_str(), p.package.as_str(), p.description.as_str()) {
                let ghost before = out@;
                out.push(p);
                proof {
                    crate::text::lemma_derefs_push(before, p);
                    assert(out@[before.len() as int] == p);
                    assert forall|j: int| 0 <= j < i && query_matches(query@, self.packages@[j].package@, self.packages@[j].description@)
                        implies exists|k: int| 0 <= k < out@.len() && out@[k] == &self.packages@[j] by {
                        let k = choose|k: int| 0 <= k < before.len() && before[k] == &self.packages@[j];
                        assert(out@[k] == before[k]);
                    }
                }
            }
            i = i + 1;
        }
        proof {
            assert(self.packages@.subrange(0, self.packages@.len() as int) =~= self.packages@);
        }
        out
    }

    /// The last entry read for the package called `name`.
    pub fn get(&self, name: &str) -> (r: Option<&AptPackage>)
        ensures
            r is None ==> forall|j: int| 0 <= j < self.packages().len() ==> self.packages()[j].package@ != name@,
            r matches Some(p) ==> exists|j: int|
                0 <= j < self.packages().len() && *p == self.packages()[j] && p.package@ == name@ && forall|k: int|
                    j < k < self.packages().len() ==> self.packages()[k].package@ != name@,
    {
        let key = String::from_str(name);
        let mut i: usize = self.packages.len();
        while i > 0
            invariant
                i <= self.packages@.len(),
                key@ == name@,
                forall|k: int| i <= k < self.packages@.len() ==> self.packages@[k].package@ != name@,
            decreases i,
        {
            if self.packages[i - 1].package == key {
                let found = &self.packages[i - 1];
                proof {
                    let j = i - 1;
                    assert(*found == self.packages()[j as int] && found.package@ == name@);
                }
                return Some(found);
            }
            i = i - 1;
        }
        None
    }

    /// Download URL of a package entry under `source`.
    pub fn get_download_url(&self, source: &AptSource, pkg: &AptPackage) -> (r: String)
        ensures
            r@ == source.uri@ + "/"@ + pkg.filename@,
    {
        let mut s = source.uri.clone();
        s.append("/");
        s.append(pkg.filename.as_str());
        s
    }
}

impl Default for AptRepository {
    fn default() -> (r: AptRepository)
        ensures
            r.sources().len() == 0,
            r.packages().len() == 0,
    {
        AptRepository::new()
    }
}

/// Repository configuration of an APT distribution.
pub fn create_apt_repo(name: &str, uri: &str, distribution: &str, components: &[&str]) -> (r: Repository)
    ensures
        r.name@ == name@,
        r.url@ == uri@ + "/dists/"@ + distribution@,
        r.format == PackageFormat::Deb,
        r.enabled,
        r.gpg_key is None,
        r.priority == 100,
{
    let mut url = String::from_str(uri);
    url.append("/dists/");
    url.append(distribution);
    Repository { name: String::from_str(name), url, format: PackageFormat::Deb, enabled: true, gpg_key: None, priority: 100 }
}


/// An APT version constraint such as `>= 1.0`.
pub open spec fn apt_constraint(s: Seq<char>) -> Option<(ConstraintOp, Seq<char>)> {
    let t = trim(s);
    if t.len() >= 2 && t[0] == '>' && t[1] == '=' {
        Some((ConstraintOp::Ge, trim(t.subrange(2, t.len() as int))))
    } else if t.len() >= 2 && t[0] == '<' && t[1] == '=' {
        Some((ConstraintOp::Le, trim(t.subrange(2, t.len() as int))))
    } else if t.len() >= 2 && t[0] == '>' && t[1] == '>' {
        Some((ConstraintOp::Gt, trim(t.subrange(2, t.len() as int))))
    } else if t.len() >= 2 && t[0] == '<' && t[1] == '<' {
        Some((ConstraintOp::Lt, trim(t.subrange(2, t.len() as int))))
    } else if t.len() >= 1 && t[0] == '=' {
        Some((ConstraintOp::Eq, trim(t.subrange(1, t.len() as int))))
    } else {
        None
    }
}

fn parse_version_constraint(s: &Vec<char>) -> (r: Option<VersionConstraint>)
    ensures
        match r {
            Some(c) => apt_constraint(s@) == Some((c.operator, c.version@)),
            None => apt_constraint(s@) is None,
        },
{
    let t = trimmed(s, 0, s.len());
    proof {
        assert(s@.subrange(0, s@.len() as int) =~= s@);
    }
    let n = t.len();
    let (op, skip): (ConstraintOp, usize) = if n >= 2 && t[0] == '>' && t[1] == '=' {
        (ConstraintOp::Ge, 2)
    } else if n >= 2 && t[0] == '<' && t[1] == '=' {
        (ConstraintOp::Le, 2)
    } else if n >= 2 && t[0] == '>' && t[1] == '>' {
        (ConstraintOp::Gt, 2)
    } else if n >= 2 && t[0] == '<' && t[1] == '<' {
        (ConstraintOp::Lt, 2)
    } else if n >= 1 && t[0] == '=' {
        (ConstraintOp::Eq, 1)
    } else {
        return None;
    };
    let v = trimmed(&t, skip, n);
    Some(VersionConstraint { operator: op, version: string_of(v.as_slice()) })
}

pub open spec fn is_paren(c: char) -> bool {
    c == '(' || c == ')'
}

/// `s` without leading and trailing parentheses.
pub open spec fn strip_parens(s: Seq<char>) -> Seq<char>
    decreases s.len(),
{
    if s.len() > 0 && is_paren(s[0]) {
        strip_parens(s.drop_first())
    } else if s.len() > 0 && is_paren(s.last()) {
        strip_parens(s.drop_last())
    } else {
        s
    }
}

fn strip_parens_exec(s: &Vec<char>) -> (r: Vec<char>)
    ensures
        r@ == strip_parens(s@),
{
    let mut a: usize = 0;
    let mut b: usize = s.len();
    proof {
        assert(s@.subrange(0, s@.len() as int) =~= s@);
    }
    while a < b && (s[a] == '(' || s[a] == ')' || s[b - 1] == '(' || s[b - 1] == ')')
        invariant
            a <= b <= s@.len(),
            strip_parens(s@) == strip_parens(s@.subrange(a as int, b as int)),
        decreases b - a,
    {
        let ghost t = s@.subrange(a as int, b as int);
        if s[a] == '(' || s[a] == ')' {
            proof {
                assert(t.drop_first() =~= s@.subrange(a + 1, b as int));
            }
            a = a + 1;
        } else {
            proof {
                assert(t.drop_last() =~= s@.subrange(a as int, b - 1));
            }
            b = b - 1;
        }
    }
    proof {
        assert(strip_parens(s@.subrange(a as int, b as int)) == s@.subrange(a as int, b as int));
    }
    slice_of(s, a, b)
}

/// One APT dependency: the first alternative, without an architecture
/// qualifier, and its parenthesised constraint if any.
pub open spec fn apt_dep(piece: Seq<char>) -> DependencyView {
    let d = trim(before_char(trim(before_char(trim(piece), '|')), ':'));
    match first_index(d, '(') {
        Some(i) => DependencyView {
            name: trim(d.subrange(0, i)),
            constraint: apt_constraint(strip_parens(d.subrange(i, d.len() as int))),
        },
        None => DependencyView { name: d, constraint: None },
    }
}

pub open spec fn apt_deps(s: Seq<char>) -> Seq<DependencyView> {
    split_on(s, ',').map_values(|p: Seq<char>| apt_dep(p))
}

fn parse_one_depend(piece: &Vec<char>) -> (r: Dependency)
    ensures
        r@ == apt_dep(piece@),
{
    let t = trimmed(piece, 0, piece.len());
    proof {
        assert(piece@.subrange(0, piece@.len() as int) =~= piece@);
    }
    let bar = find_char(&t, 0, '|');
    proof {
        assert(t@.subrange(0, t@.len() as int) =~= t@);
    }
    let u = trimmed(&t, 0, bar);
    let colon = find_char(&u, 0, ':');
    proof {
        assert(u@.subrange(0, u@.len() as int) =~= u@);
    }
    let d = trimmed(&u, 0, colon);
    let paren = find_char(&d, 0, '(');
    proof {
        assert(d@.subrange(0, d@.len() as int) =~= d@);
    }
    if paren < d.len() {
        let name = trimmed(&d, 0, paren);
        let rest = slice_of(&d, paren, d.len());
        let inner = strip_parens_exec(&rest);
        let c = parse_version_constraint(&inner);
        Dependency { name: string_of(name.as_slice()), version_constraint: c }
    } else {
        Dependency { name: string_of(d.as_slice()), version_constraint: None }
    }
}

/// Parses an APT dependency list with version constraints.
fn parse_depends(deps: &Vec<char>) -> (r: Vec<Dependency>)
    ensures
        deps_view(r@) == apt_deps(deps@),
{
    let parts = split_chars(deps, 0, deps.len(), ',');
    proof {
        assert(deps@.subrange(0, deps@.len() as int) =~= deps@);
    }
    let ghost p = split_on(deps@, ',');
    let mut out: Vec<Dependency> = Vec::new();
    let mut i: usize = 0;
    while i < parts.len()
        invariant
            views_of(parts@) == p,
            i <= parts@.len(),
            deps_view(out@) == p.subrange(0, i as int).map_values(|q: Seq<char>| apt_dep(q)),
        decreases parts@.len() - i,
    {
        let d = parse_one_depend(&parts[i]);
        proof {
            assert(parts@[i as int]@ == p[i as int]);
        }
        let ghost before = out@;
        out.push(d);
        proof {
            assert(deps_view(out@) =~= deps_view(before).push(apt_dep(p[i as int])));
            assert(p.subrange(0, i + 1).map_values(|q: Seq<char>| apt_dep(q)) =~= p.subrange(0, i as int).map_values(|q: Seq<char>| apt_dep(q)).push(apt_dep(p[i as int])));
        }
        i = i + 1;
    }
    proof {
        assert(p.subrange(0, parts@.len() as int) =~= p);
    }
    out
}


/// The entry after reading the field `key: value`.
pub open spec fn apt_field(cur: AptView, key: Seq<char>, v: Seq<char>) -> AptView {
    if key == "Package"@ {
        AptView { package: v, ..cur }
    } else if key == "Version"@ {
        AptView { version: v, ..cur }
    } else if key == "Architecture"@ {
        AptView { architecture: v, ..cur }
    } else if key == "Maintainer"@ {
        AptView { maintainer: v, ..cur }
    } else if key == "Installed-Size"@ {
        AptView { installed_size: kib(size_or_zero(v)), ..cur }
    } else if key == "Depends"@ {
        AptView { depends: apt_deps(v), ..cur }
    } else if key == "Pre-Depends"@ {
        AptView { pre_depends: apt_deps(v), ..cur }
    } else if key == "Recommends"@ {
        AptView { recommends: comma_list(v), ..cur }
    } else if key == "Suggests"@ {
        AptView { suggests: comma_list(v), ..cur }
    } else if key == "Conflicts"@ {
        AptView { conflicts: comma_list(v), ..cur }
    } else if key == "Provides"@ {
        AptView { provides: comma_list(v), ..cur }
    } else if key == "Replaces"@ {
        AptView { replaces: comma_list(v), ..cur }
    } else if key == "Filename"@ {
        AptView { filename: v, ..cur }
    } else if key == "Size"@ {
        AptView { size: size_or_zero(v), ..cur }
    } else if key == "MD5sum"@ {
        AptView { md5sum: v, ..cur }
    } else if key == "SHA256"@ {
        AptView { sha256: v, ..cur }
    } else if key == "Section"@ {
        AptView { section: v, ..cur }
    } else if key == "Priority"@ {
        AptView { priority: v, ..cur }
    } else if key == "Homepage"@ {
        AptView { homepage: v, ..cur }
    } else if key == "Description"@ {
        AptView { description: v, ..cur }
    } else {
        cur
    }
}

/// Reading one line of a Packages index: a blank line ends the entry (kept
/// when it has a name); an indented line right after Description, or
/// after another such line, continues the description; any other line is
/// a `Key: value` field.
pub open spec fn packages_step(st: (Seq<AptView>, AptView, bool), line: Seq<char>) -> (Seq<AptView>, AptView, bool) {
    let done = st.0;
    let cur = st.1;
    if line.len() == 0 {
        (if cur.package.len() > 0 { done.push(cur) } else { done }, empty_apt(), false)
    } else if line[0] == ' ' && st.2 {
        (done, AptView { description: cur.description + "\n"@ + trim(line), ..cur }, true)
    } else {
        match key_value(line, ':') {
            Some(p) => (done, apt_field(cur, p.0, p.1), p.0 == "Description"@),
            None => (done, cur, false),
        }
    }
}

pub open spec fn packages_scan(ls: Seq<Seq<char>>) -> (Seq<AptView>, AptView, bool)
    decreases ls.len(),
{
    if ls.len() == 0 {
        (Seq::empty(), empty_apt(), false)
    } else {
        packages_step(packages_scan(ls.drop_last()), ls.last())
    }
}

/// The entries of a Packages index.
pub open spec fn packages_of(content: Seq<char>) -> Seq<AptView> {
    let st = packages_scan(lines_of(content));
    if st.1.package.len() > 0 {
        st.0.push(st.1)
    } else {
        st.0
    }
}

pub open spec fn apt_views(v: Seq<AptPackage>) -> Seq<AptView> {
    v.map_values(|p: AptPackage| p@)
}

proof fn lemma_apt_keys_distinct()
    ensures
        "Package"@ != "Version"@,
        "Package"@ != "Architecture"@,
        "Package"@ != "Maintainer"@,
        "Package"@ != "Installed-Size"@,
        "Package"@ != "Depends"@,
        "Package"@ != "Pre-Depends"@,
        "Package"@ != "Recommends"@,
        "Package"@ != "Suggests"@,
        "Package"@ != "Conflicts"@,
        "Package"@ != "Provides"@,
        "Package"@ != "Replaces"@,
        "Package"@ != "Filename"@,
        "Package"@ != "Size"@,
        "Package"@ != "MD5sum"@,
        "Package"@ != "SHA256"@,
        "Package"@ != "Section"@,
        "Package"@ != "Priority"@,
        "Package"@ != "Homepage"@,
        "Package"@ != "Description"@,
        "Version"@ != "Architecture"@,
        "Version"@ != "Maintainer"@,
        "Version"@ != "Installed-Size"@,
        "Version"@ != "Depends"@,
        "Version"@ != "Pre-Depends"@,
        "Version"@ != "Recommends"@,
        "Version"@ != "Suggests"@,
        "Version"@ != "Conflicts"@,
        "Version"@ != "Provides"@,
        "Version"@ != "Replaces"@,
        "Version"@ != "Filename"@,
        "Version"@ != "Size"@,
        "Version"@ != "MD5sum"@,
        "Version"@ != "SHA256"@,
        "Version"@ != "Section"@,
        "Version"@ != "Priority"@,
        "Version"@ != "Homepage"@,
        "Version"@ != "Description"@,
        "Architecture"@ != "Maintainer"@,
        "Architecture"@ != "Installed-Size"@,
        "Architecture"@ != "Depends"@,
        "Architecture"@ != "Pre-Depends"@,
        "Architecture"@ != "Recommends"@,
        "Architecture"@ != "Suggests"@,
        "Architecture"@ != "Conflicts"@,
        "Architecture"@ != "Provides"@,
        "Architecture"@ != "Replaces"@,
        "Architecture"@ != "Filename"@,
        "Architecture"@ != "Size"@,
        "Architecture"@ != "MD5sum"@,
        "Architecture"@ != "SHA256"@,
        "Architecture"@ != "Section"@,
        "Architecture"@ != "Priority"@,
        "Architecture"@ != "Homepage"@,
        "Architecture"@ != "Description"@,
        "Maintainer"@ != "Installed-Size"@,
        "Maintainer"@ != "Depends"@,
        "Maintainer"@ != "Pre-Depends"@,
        "Maintainer"@ != "Recommends"@,
        "Maintainer"@ != "Suggests"@,
        "Maintainer"@ != "Conflicts"@,
        "Maintainer"@ != "Provides"@,
        "Maintainer"@ != "Replaces"@,
        "Maintainer"@ != "Filename"@,
        "Maintainer"@ != "Size"@,
        "Maintainer"@ != "MD5sum"@,
        "Maintainer"@ != "SHA256"@,
        "Maintainer"@ != "Section"@,
        "Maintainer"@ != "Priority"@,
        "Maintainer"@ != "Homepage"@,
        "Maintainer"@ != "Description"@,
        "Installed-Size"@ != "Depends"@,
        "Installed-Size"@ != "Pre-Depends"@,
        "Installed-Size"@ != "Recommends"@,
        "Installed-Size"@ != "Suggests"@,
        "Installed-Size"@ != "Conflicts"@,
        "Installed-Size"@ != "Provides"@,
        "Installed-Size"@ != "Replaces"@,
        "Installed-Size"@ != "Filename"@,
        "Installed-Size"@ != "Size"@,
        "Installed-Size"@ != "MD5sum"@,
        "Installed-Size"@ != "SHA256"@,
        "Installed-Size"@ != "Section"@,
        "Installed-Size"@ != "Priority"@,
        "Installed-Size"@ != "Homepage"@,
        "Installed-Size"@ != "Description"@,
        "Depends"@ != "Pre-Depends"@,
        "Depends"@ != "Recommends"@,
        "Depends"@ != "Suggests"@,
        "Depends"@ != "Conflicts"@,
        "Depends"@ != "Provides"@,
        "Depends"@ != "Replaces"@,
        "Depends"@ != "Filename"@,
        "Depends"@ != "Size"@,
        "Depends"@ != "MD5sum"@,
        "Depends"@ != "SHA256"@,
        "Depends"@ != "Section"@,
        "Depends"@ != "Priority"@,
        "Depends"@ != "Homepage"@,
        "Depends"@ != "Description"@,
        "Pre-Depends"@ != "Recommends"@,
        "Pre-Depends"@ != "Suggests"@,
        "Pre-Depends"@ != "Conflicts"@,
        "Pre-Depends"@ != "Provides"@,
        "Pre-Depends"@ != "Replaces"@,
        "Pre-Depends"@ != "Filename"@,
        "Pre-Depends"@ != "Size"@,
        "Pre-Depends"@ != "MD5sum"@,
        "Pre-Depends"@ != "SHA256"@,
        "Pre-Depends"@ != "Section"@,
        "Pre-Depends"@ != "Priority"@,
        "Pre-Depends"@ != "Homepage"@,
        "Pre-Depends"@ != "Description"@,
        "Recommends"@ != "Suggests"@,
        "Recommends"@ != "Conflicts"@,
        "Recommends"@ != "Provides"@,
        "Recommends"@ != "Replaces"@,
        "Recommends"@ != "Filename"@,
        "Recommends"@ != "Size"@,
        "Recommends"@ != "MD5sum"@,
        "Recommends"@ != "SHA256"@,
        "Recommends"@ != "Section"@,
        "Recommends"@ != "Priority"@,
        "Recommends"@ != "Homepage"@,
        "Recommends"@ != "Description"@,
        "Suggests"@ != "Conflicts"@,
        "Suggests"@ != "Provides"@,
        "Suggests"@ != "Replaces"@,
        "Suggests"@ != "Filename"@,
        "Suggests"@ != "Size"@,
        "Suggests"@ != "MD5sum"@,
        "Suggests"@ != "SHA256"@,
        "Suggests"@ != "Section"@,
        "Suggests"@ != "Priority"@,
        "Suggests"@ != "Homepage"@,
        "Suggests"@ != "Description"@,
        "Conflicts"@ != "Provides"@,
        "Conflicts"@ != "Replaces"@,
        "Conflicts"@ != "Filename"@,
        "Conflicts"@ != "Size"@,
        "Conflicts"@ != "MD5sum"@,
        "Conflicts"@ != "SHA256"@,
        "Conflicts"@ != "Section"@,
        "Conflicts"@ != "Priority"@,
        "Conflicts"@ != "Homepage"@,
        "Conflicts"@ != "Description"@,
        "Provides"@ != "Replaces"@,
        "Provides"@ != "Filename"@,
        "Provides"@ != "Size"@,
        "Provides"@ != "MD5sum"@,
        "Provides"@ != "SHA256"@,
        "Provides"@ != "Section"@,
        "Provides"@ != "Priority"@,
        "Provides"@ != "Homepage"@,
        "Provides"@ != "Description"@,
        "Replaces"@ != "Filename"@,
        "Replaces"@ != "Size"@,
        "Replaces"@ != "MD5sum"@,
        "Replaces"@ != "SHA256"@,
        "Replaces"@ != "Section"@,
        "Replaces"@ != "Priority"@,
        "Replaces"@ != "Homepage"@,
        "Replaces"@ != "Description"@,
        "Filename"@ != "Size"@,
        "Filename"@ != "MD5sum"@,
        "Filename"@ != "SHA256"@,
        "Filename"@ != "Section"@,
        "Filename"@ != "Priority"@,
        "Filename"@ != "Homepage"@,
        "Filename"@ != "Description"@,
        "Size"@ != "MD5sum"@,
        "Size"@ != "SHA256"@,
        "Size"@ != "Section"@,
        "Size"@ != "Priority"@,
        "Size"@ != "Homepage"@,
        "Size"@ != "Description"@,
        "MD5sum"@ != "SHA256"@,
        "MD5sum"@ != "Section"@,
        "MD5sum"@ != "Priority"@,
        "MD5sum"@ != "Homepage"@,
        "MD5sum"@ != "Description"@,
        "SHA256"@ != "Section"@,
        "SHA256"@ != "Priority"@,
        "SHA256"@ != "Homepage"@,
        "SHA256"@ != "Description"@,
        "Section"@ != "Priority"@,
        "Section"@ != "Homepage"@,
        "Section"@ != "Description"@,
        "Priority"@ != "Homepage"@,
        "Priority"@ != "Description"@,
        "Homepage"@ != "Description"@,
{
    reveal_strlit("Package");
    reveal_strlit("Version");
    reveal_strlit("Architecture");
    reveal_strlit("Maintainer");
    reveal_strlit("Installed-Size");
    reveal_strlit("Depends");
    reveal_strlit("Pre-Depends");
    reveal_strlit("Recommends");
    reveal_strlit("Suggests");
    reveal_strlit("Conflicts");
    reveal_strlit("Provides");
    reveal_strlit("Replaces");
    reveal_strlit("Filename");
    reveal_strlit("Size");
    reveal_strlit("MD5sum");
    reveal_strlit("SHA256");
    reveal_strlit("Section");
    reveal_strlit("Priority");
    reveal_strlit("Homepage");
    reveal_strlit("Description");
    assert("Package"@[0] == 'P' && "Package"@[1] == 'a' && "Package"@[2] == 'c' && "Package"@[3] == 'k' && "Package"@[4] == 'a' && "Package"@[5] == 'g' && "Package"@[6] == 'e');
    assert("Version"@[0] == 'V' && "Version"@[1] == 'e' && "Version"@[2] == 'r' && "Version"@[3] == 's' && "Version"@[4] == 'i' && "Version"@[5] == 'o' && "Version"@[6] == 'n');
    assert("Architecture"@[0] == 'A' && "Architecture"@[1] == 'r' && "Architecture"@[2] == 'c' && "Architecture"@[3] == 'h' && "Architecture"@[4] == 'i' && "Architecture"@[5] == 't' && "Architecture"@[6] == 'e' && "Architecture"@[7] == 'c' && "Architecture"@[8] == 't' && "Architecture"@[9] == 'u' && "Architecture"@[10] == 'r' && "Architecture"@[11] == 'e');
    assert("Maintainer"@[0] == 'M' && "Maintainer"@[1] == 'a' && "Maintainer"@[2] == 'i' && "Maintainer"@[3] == 'n' && "Maintainer"@[4] == 't' && "Maintainer"@[5] == 'a' && "Maintainer"@[6] == 'i' && "Maintainer"@[7] == 'n' && "Maintainer"@[8] == 'e' && "Maintainer"@[9] == 'r');
    assert("Installed-Size"@[0] == 'I' && "Installed-Size"@[1] == 'n' && "Installed-Size"@[2] == 's' && "Installed-Size"@[3] == 't' && "Installed-Size"@[4] == 'a' && "Installed-Size"@[5] == 'l' && "Installed-Size"@[6] == 'l' && "Installed-Size"@[7] == 'e' && "Installed-Size"@[8] == 'd' && "Installed-Size"@[9] == '-' && "Installed-Size"@[10] == 'S' && "Installed-Size"@[11] == 'i' && "Installed-Size"@[12] == 'z' && "Installed-Size"@[13] == 'e');
    assert("Depends"@[0] == 'D' && "Depends"@[1] == 'e' && "Depends"@[2] == 'p' && "Depends"@[3] == 'e' && "Depends"@[4] == 'n' && "Depends"@[5] == 'd' && "Depends"@[6] == 's');
    assert("Pre-Depends"@[0] == 'P' && "Pre-Depends"@[1] == 'r' && "Pre-Depends"@[2] == 'e' && "Pre-Depends"@[3] == '-' && "Pre-Depends"@[4] == 'D' && "Pre-Depends"@[5] == 'e' && "Pre-Depends"@[6] == 'p' && "Pre-Depends"@[7] == 'e' && "Pre-Depends"@[8] == 'n' && "Pre-Depends"@[9] == 'd' && "Pre-Depends"@[10] == 's');
    assert("Recommends"@[0] == 'R' && "Recommends"@[1] == 'e' && "Recommends"@[2] == 'c' && "Recommends"@[3] == 'o' && "Recommends"@[4] == 'm' && "Recommends"@[5] == 'm' && "Recommends"@[6] == 'e' && "Recommends"@[7] == 'n' && "Recommends"@[8] == 'd' && "Recommends"@[9] == 's');
    assert("Suggests"@[0] == 'S' && "Suggests"@[1] == 'u' && "Suggests"@[2] == 'g' && "Suggests"@[3] == 'g' && "Suggests"@[4] == 'e' && "Suggests"@[5] == 's' && "Suggests"@[6] == 't' && "Suggests"@[7] == 's');
    assert("Conflicts"@[0] == 'C' && "Conflicts"@[1] == 'o' && "Conflicts"@[2] == 'n' && "Conflicts"@[3] == 'f' && "Conflicts"@[4] == 'l' && "Conflicts"@[5] == 'i' && "Conflicts"@[6] == 'c' && "Conflicts"@[7] == 't' && "Conflicts"@[8] == 's');
    assert("Provides"@[0] == 'P' && "Provides"@[1] == 'r' && "Provides"@[2] == 'o' && "Provides"@[3] == 'v' && "Provides"@[4] == 'i' && "Provides"@[5] == 'd' && "Provides"@[6] == 'e' && "Provides"@[7] == 's');
    assert("Replaces"@[0] == 'R' && "Replaces"@[1] == 'e' && "Replaces"@[2] == 'p' && "Replaces"@[3] == 'l' && "Replaces"@[4] == 'a' && "Replaces"@[5] == 'c' && "Replaces"@[6] == 'e' && "Replaces"@[7] == 's');
    assert("Filename"@[0] == 'F' && "Filename"@[1] == 'i' && "Filename"@[2] == 'l' && "Filename"@[3] == 'e' && "Filename"@[4] == 'n' && "Filename"@[5] == 'a' && "Filename"@[6] == 'm' && "Filename"@[7] == 'e');
    assert("Size"@[0] == 'S' && "Size"@[1] == 'i' && "Size"@[2] == 'z' && "Size"@[3] == 'e');
    assert("MD5sum"@[0] == 'M' && "MD5sum"@[1] == 'D' && "MD5sum"@[2] == '5' && "MD5sum"@[3] == 's' && "MD5sum"@[4] == 'u' && "MD5sum"@[5] == 'm');
    assert("SHA256"@[0] == 'S' && "SHA256"@[1] == 'H' && "SHA256"@[2] == 'A' && "SHA256"@[3] == '2' && "SHA256"@[4] == '5' && "SHA256"@[5] == '6');
    assert("Section"@[0] == 'S' && "Section"@[1] == 'e' && "Section"@[2] == 'c' && "Section"@[3] == 't' && "Section"@[4] == 'i' && "Section"@[5] == 'o' && "Section"@[6] == 'n');
    assert("Priority"@[0] == 'P' && "Priority"@[1] == 'r' && "Priority"@[2] == 'i' && "Priority"@[3] == 'o' && "Priority"@[4] == 'r' && "Priority"@[5] == 'i' && "Priority"@[6] == 't' && "Priority"@[7] == 'y');
    assert("Homepage"@[0] == 'H' && "Homepage"@[1] == 'o' && "Homepage"@[2] == 'm' && "Homepage"@[3] == 'e' && "Homepage"@[4] == 'p' && "Homepage"@[5] == 'a' && "Homepage"@[6] == 'g' && "Homepage"@[7] == 'e');
    assert("Description"@[0] == 'D' && "Description"@[1] == 'e' && "Description"@[2] == 's' && "Description"@[3] == 'c' && "Description"@[4] == 'r' && "Description"@[5] == 'i' && "Description"@[6] == 'p' && "Description"@[7] == 't' && "Description"@[8] == 'i' && "Description"@[9] == 'o' && "Description"@[10] == 'n');
}


fn apply_apt_field(cur: &mut AptPackage, key: &Vec<char>, value: &Vec<char>)
    ensures
        final(cur)@ == apt_field(old(cur)@, key@, value@),
{
    proof {
        lemma_apt_keys_distinct();
    }
    if chars_equal(key, "Package") {
        cur.package = string_of(value.as_slice());
    } else if chars_equal(key, "Version") {
        cur.version = string_of(value.as_slice());
    } else if chars_equal(key, "Architecture") {
        cur.architecture = string_of(value.as_slice());
    } else if chars_equal(key, "Maintainer") {
        cur.maintainer = string_of(value.as_slice());
    } else if chars_equal(key, "Installed-Size") {
        let n = match parse_u64(value) {
            Some(n) => n,
            None => 0,
        };
        cur.installed_size = kib_to_bytes(n);
    } else if chars_equal(key, "Depends") {
        cur.depends = parse_depends(value);
    } else if chars_equal(key, "Pre-Depends") {
        cur.pre_depends = parse_depends(value);
    } else if chars_equal(key, "Recommends") {
        cur.recommends = comma_strings(value);
    } else if chars_equal(key, "Suggests") {
        cur.suggests = comma_strings(value);
    } else if chars_equal(key, "Conflicts") {
        cur.conflicts = comma_strings(value);
    } else if chars_equal(key, "Provides") {
        cur.provides = comma_strings(value);
    } else if chars_equal(key, "Replaces") {
        cur.replaces = comma_strings(value);
    } else if chars_equal(key, "Filename") {
        cur.filename = string_of(value.as_slice());
    } else if chars_equal(key, "Size") {
        cur.size = match parse_u64(value) {
            Some(n) => n,
            None => 0,
        };
    } else if chars_equal(key, "MD5sum") {
        cur.md5sum = string_of(value.as_slice());
    } else if chars_equal(key, "SHA256") {
        cur.sha256 = string_of(value.as_slice());
    } else if chars_equal(key, "Section") {
        cur.section = string_of(value.as_slice());
    } else if chars_equal(key, "Priority") {
        cur.priority = string_of(value.as_slice());
    } else if chars_equal(key, "Homepage") {
        cur.homepage = string_of(value.as_slice());
    } else if chars_equal(key, "Description") {
        cur.description = string_of(value.as_slice());
    }
}

/// Parses the content of an APT Packages index into its entries.
pub fn parse_packages(content: &str) -> (r: Vec<AptPackage>)
    ensures
        apt_views(r@) == packages_of(content@),
{
    let text = chars_of(content);
    let ls = lines(&text);
    let ghost lv = views_of(ls@);
    let mut packages: Vec<AptPackage> = Vec::new();
    let mut current = AptPackage::default();
    let mut in_description: bool = false;
    let mut i: usize = 0;
    while i < ls.len()
        invariant
            lv == views_of(ls@),
            lv == lines_of(content@),
            i <= ls@.len(),
            (apt_views(packages@), current@, in_description) == packages_scan(lv.subrange(0, i as int)),
        decreases ls@.len() - i,
    {
        let line = &ls[i];
        proof {
            assert(lv.subrange(0, i + 1).drop_last() =~= lv.subrange(0, i as int));
            assert(lv.subrange(0, i + 1).last() == line@);
            reveal_strlit("Description");
        }
        if line.len() == 0 {
            if !current.package.as_str().is_empty() {
                let ghost before = packages@;
                packages.push(current);
                proof {
                    assert(apt_views(packages@) =~= apt_views(before).push(current@));
                }
            }
            current = AptPackage::default();
            in_description = false;
        } else if line[0] == ' ' && in_description {
            let t = trimmed(line, 0, line.len());
            proof {
                assert(line@.subrange(0, line@.len() as int) =~= line@);
            }
            current.description.append("\n");
            let ts = string_of(t.as_slice());
            current.description.append(ts.as_str());
        } else {
            match split_key_value(line, ':') {
                Some((key, value)) => {
                    apply_apt_field(&mut current, &key, &value);
                    in_description = chars_equal(&key, "Description");
                },
                None => {
                    in_description = false;
                },
            }
        }
        i = i + 1;
    }
    proof {
        assert(lv.subrange(0, ls@.len() as int) =~= lv);
    }
    if !current.package.as_str().is_empty() {
        let ghost before = packages@;
        packages.push(current);
        proof {
            assert(apt_views(packages@) =~= apt_views(before).push(current@));
        }
    }
    packages
}


/// `s` without leading `c`s.
pub open spec fn strip_leading(s: Seq<char>, c: char) -> Seq<char>
    decreases s.len(),
{
    if s.len() > 0 && s[0] == c {
        strip_leading(s.drop_first(), c)
    } else {
        s
    }
}

/// `s` without trailing `c`s.
pub open spec fn strip_trailing(s: Seq<char>, c: char) -> Seq<char>
    decreases s.len(),
{
    if s.len() > 0 && s.last() == c {
        strip_trailing(s.drop_last(), c)
    } else {
        s
    }
}

/// The architectures of a `[...]` option field.
pub open spec fn option_archs(field: Seq<char>) -> Seq<Seq<char>> {
    let opts = strip_trailing(strip_leading(field, '['), ']');
    if opts.len() >= 5 && opts.subrange(0, 5) == "arch="@ {
        split_on(opts.subrange(5, opts.len() as int), ',')
    } else {
        seq!["amd64"@]
    }
}

pub struct AptSourceView {
    pub source_type: Seq<char>,
    pub uri: Seq<char>,
    pub distribution: Seq<char>,
    pub components: Seq<Seq<char>>,
    pub architectures: Seq<Seq<char>>,
}

/// What a sources.list line describes, if it is a `deb` or `deb-src`
/// entry with a URI, a distribution and at least one more field.
pub open spec fn source_line(line: Seq<char>) -> Option<AptSourceView> {
    let t = trim(line);
    let w = crate::text::words(t);
    if t.len() == 0 || t[0] == '#' || w.len() < 4 || (w[0] != "deb"@ && w[0] != "deb-src"@) {
        None
    } else {
        let opt = w[1].len() > 0 && w[1][0] == '[';
        let at: int = if opt { 2 } else { 1 };
        Some(AptSourceView {
            source_type: w[0],
            uri: w[at],
            distribution: w[at + 1],
            components: w.subrange(at + 2, w.len() as int),
            architectures: if opt { option_archs(w[1]) } else { seq!["amd64"@] },
        })
    }
}

fn strip_brackets(s: &Vec<char>) -> (r: Vec<char>)
    ensures
        r@ == strip_trailing(strip_leading(s@, '['), ']'),
{
    let mut a: usize = 0;
    proof {
        assert(s@.subrange(0, s@.len() as int) =~= s@);
    }
    while a < s.len() && s[a] == '['
        invariant
            a <= s@.len(),
            strip_leading(s@, '[') == strip_leading(s@.subrange(a as int, s@.len() as int), '['),
        decreases s@.len() - a,
    {
        proof {
            assert(s@.subrange(a as int, s@.len() as int).drop_first() =~= s@.subrange(a + 1, s@.len() as int));
        }
        a = a + 1;
    }
    let mut b: usize = s.len();
    let ghost lead = s@.subrange(a as int, s@.len() as int);
    proof {
        assert(strip_leading(lead, '[') == lead);
    }
    while b > a && s[b - 1] == ']'
        invariant
            a <= b <= s@.len(),
            lead == s@.subrange(a as int, s@.len() as int),
            strip_trailing(lead, ']') == strip_trailing(s@.subrange(a as int, b as int), ']'),
        decreases b - a,
    {
        proof {
            assert(s@.subrange(a as int, b as int).drop_last() =~= s@.subrange(a as int, b - 1));
        }
        b = b - 1;
    }
    slice_of(s, a, b)
}

fn chars_to_strings(v: &Vec<Vec<char>>, from: usize) -> (r: Vec<String>)
    requires
        from <= v@.len(),
    ensures
        strings_view(r@) == views_of(v@).subrange(from as int, v@.len() as int),
{
    let mut out: Vec<String> = Vec::new();
    let mut i: usize = from;
    while i < v.len()
        invariant
            from <= i <= v@.len(),
            strings_view(out@) == views_of(v@).subrange(from as int, i as int),
        decreases v@.len() - i,
    {
        let ghost before = out@;
        out.push(string_of(v[i].as_slice()));
        proof {
            assert(strings_view(out@) =~= strings_view(before).push(v@[i as int]@));
            assert(views_of(v@)[i as int] == v@[i as int]@);
            assert(views_of(v@).subrange(from as int, i + 1) =~= views_of(v@).subrange(from as int, i as int).push(v@[i as int]@));
        }
        i = i + 1;
    }
    out
}

fn amd64_only() -> (r: Vec<String>)
    ensures
        strings_view(r@) == seq!["amd64"@],
{
    let mut v: Vec<String> = Vec::new();
    v.push(String::from_str("amd64"));
    proof {
        assert(strings_view(v@) =~= seq!["amd64"@]);
    }
    v
}

impl AptSource {
    /// Parses a sources.list line such as
    /// `deb [arch=amd64,arm64] http://deb.debian.org/debian bookworm main`.
    pub fn parse(line: &str) -> (r: Option<AptSource>)
        ensures
            match r {
                Some(src) => source_line(line@) == Some(AptSourceView {
                    source_type: src.source_type@,
                    uri: src.uri@,
                    distribution: src.distribution@,
                    components: strings_view(src.components@),
                    architectures: strings_view(src.architectures@),
                }),
                None => source_line(line@) is None,
            },
    {
        let all = chars_of(line);
        let t = trimmed(&all, 0, all.len());
        proof {
            assert(all@.subrange(0, all@.len() as int) =~= all@);
        }
        if t.len() == 0 || t[0] == '#' {
            return None;
        }
        let parts = split_words(&t);
        let ghost w = views_of(parts@);
        if parts.len() < 4 {
            return None;
        }
        proof {
            assert(parts@[0]@ == w[0]);
            assert(parts@[1]@ == w[1]);
        }
        if !chars_equal(&parts[0], "deb") && !chars_equal(&parts[0], "deb-src") {
            return None;
        }
        let opt = parts[1].len() > 0 && parts[1][0] == '[';
        let (at, archs): (usize, Vec<String>) = if opt {
            let opts = strip_brackets(&parts[1]);
            let mut is_arch = opts.len() >= 5;
            if is_arch {
                let head = slice_of(&opts, 0, 5);
                is_arch = chars_equal(&head, "arch=");
            }
            if is_arch {
                let list = split_chars(&opts, 5, opts.len(), ',');
                let strs = chars_to_strings(&list, 0);
                proof {
                    assert(views_of(list@).subrange(0, list@.len() as int) =~= views_of(list@));
                }
                (2, strs)
            } else {
                (2, amd64_only())
            }
        } else {
            (1, amd64_only())
        };
        proof {
            assert(parts@[at as int]@ == w[at as int]);
            assert(parts@[at + 1]@ == w[at + 1]);
        }
        let components = chars_to_strings(&parts, at + 2);
        Some(AptSource {
            source_type: string_of(parts[0].as_slice()),
            uri: string_of(parts[at].as_slice()),
            distribution: string_of(parts[at + 1].as_slice()),
            components,
            architectures: archs,
        })
    }
}


/// The canonical record of an APT entry: Depends then Pre-Depends, the
/// SHA256 as checksum.
pub open spec fn apt_record(a: AptView) -> PackageView {
    PackageView {
        name: a.package,
        version: a.version,
        release: 1,
        arch: a.architecture,
        format: PackageFormat::Deb,
        description: a.description,
        maintainer: a.maintainer,
        license: Seq::empty(),
        homepage: a.homepage,
        size: a.size,
        installed_size: a.installed_size,
        dependencies: a.depends + a.pre_depends,
        conflicts: a.conflicts,
        provides: a.provides,
        replaces: a.replaces,
        files: Seq::empty(),
        checksum: a.sha256,
    }
}

impl PackageInfo {
    /// The canonical record of an APT entry.
    pub fn from_apt(apt: AptPackage) -> (r: PackageInfo)
        ensures
            r@ == apt_record(apt@),
    {
        let ghost av = apt@;
        let mut deps = apt.depends;
        let mut pre = apt.pre_depends;
        let ghost d0 = deps@;
        let ghost p0 = pre@;
        deps.append(&mut pre);
        proof {
            assert(deps_view(deps@) =~= deps_view(d0) + deps_view(p0));
        }
        let r = PackageInfo {
            name: apt.package,
            version: apt.version,
            release: 1,
            arch: apt.architecture,
            format: PackageFormat::Deb,
            description: apt.description,
            maintainer: apt.maintainer,
            license: String::new(),
            homepage: apt.homepage,
            size: apt.size,
            installed_size: apt.installed_size,
            dependencies: deps,
            conflicts: apt.conflicts,
            provides: apt.provides,
            replaces: apt.replaces,
            files: Vec::new(),
            checksum: apt.sha256,
        };
        proof {
            assert(strings_view(r.files@) =~= Seq::<Seq<char>>::empty());
            assert(r@ =~= apt_record(av));
        }
        r
    }
}

impl From<AptPackage> for PackageInfo {
    fn from(apt: AptPackage) -> PackageInfo {
        PackageInfo::from_apt(apt)
    }
}

impl vstd::std_specs::convert::FromSpecImpl<AptPackage> for PackageInfo {
    open spec fn obeys_from_spec() -> bool {
        false
    }

    open spec fn from_spec(v: AptPackage) -> PackageInfo {
        vstd::pervasive::arbitrary()
    }
}


impl AptPackage {
    /// Copies the entry.
    pub fn duplicate(&self) -> (r: AptPackage)
        ensures
            r@ == self@,
    {
        AptPackage {
            package: self.package.clone(),
            version: self.version.clone(),
            architecture: self.architecture.clone(),
            maintainer: self.maintainer.clone(),
            installed_size: self.installed_size,
            depends: crate::model::copy_dependencies(&self.depends),
            pre_depends: crate::model::copy_dependencies(&self.pre_depends),
            recommends: crate::model::copy_strings(&self.recommends),
            suggests: crate::model::copy_strings(&self.suggests),
            conflicts: crate::model::copy_strings(&self.conflicts),
            provides: crate::model::copy_strings(&self.provides),
            replaces: crate::model::copy_strings(&self.replaces),
            filename: self.filename.clone(),
            size: self.size,
            md5sum: self.md5sum.clone(),
            sha256: self.sha256.clone(),
            section: self.section.clone(),
            priority: self.priority.clone(),
            description: self.description.clone(),
            homepage: self.homepage.clone(),
        }
    }
}


/// Entries of `q`'s search: name or description contains it, ignoring case.
pub open spec fn apt_query(q: Seq<char>) -> spec_fn(AptPackage) -> bool {
    |p: AptPackage| query_matches(q, p.package@, p.description@)
}

} // verus!
