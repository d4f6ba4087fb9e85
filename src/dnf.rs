//! DNF/YUM (Fedora/RHEL) repositories: repodata locations, RPM versions
//! and requirements.
use crate::model::{
    deps_view, strings_view, ConstraintOp, Dependency, DependencyView, PackageFormat, PackageInfo,
    PackageView, Repository, VersionConstraint,
};
use crate::text::{
    chars_equal, chars_of, ends_with, occurs_in, find_char, find_text, first_index, first_occurrence, has_prefix,
    has_suffix, last_index, lines, lines_of, lower_of, lowercase, matches_lowered, parse_u64, query_matches,
    rfind_char, size_or_zero, slice_of, starts_with, string_of, trim, trimmed, views_of,
};
use vstd::prelude::*;
use vstd::string::StringExecFns;

verus! {

/// Fedora mirrors
pub const FEDORA_MIRROR: &'static str = "https://mirrors.fedoraproject.org/metalink";

pub const FEDORA_DL: &'static str = "https://download.fedoraproject.org/pub/fedora/linux";

/// URL of a repository's repomd.xml.
pub fn repomd_url(base: &str) -> (r: String)
    ensures
        r@ == base@ + "/repodata/repomd.xml"@,
{
    let mut s = String::from_str(base);
    s.append("/repodata/repomd.xml");
    s
}

/// URL of a repository's compressed primary.xml.
pub fn primary_xml_url(base: &str) -> (r: String)
    ensures
        r@ == base@ + "/repodata/primary.xml.gz"@,
{
    let mut s = String::from_str(base);
    s.append("/repodata/primary.xml.gz");
    s
}

pub open spec fn digit_char(d: nat) -> char {
    if d == 0 { '0' } else if d == 1 { '1' } else if d == 2 { '2' } else if d == 3 { '3' }
    else if d == 4 { '4' } else if d == 5 { '5' } else if d == 6 { '6' } else if d == 7 { '7' }
    else if d == 8 { '8' } else { '9' }
}

/// Decimal digits of `n`, without leading zeros.
pub open spec fn decimal(n: nat) -> Seq<char>
    decreases n,
{
    if n < 10 {
        seq![digit_char(n)]
    } else {
        decimal(n / 10).push(digit_char(n % 10))
    }
}

fn digit(d: u32) -> (c: char)
    requires
        d < 10,
    ensures
        c == digit_char(d as nat),
{
    if d == 0 { '0' } else if d == 1 { '1' } else if d == 2 { '2' } else if d == 3 { '3' }
    else if d == 4 { '4' } else if d == 5 { '5' } else if d == 6 { '6' } else if d == 7 { '7' }
    else if d == 8 { '8' } else { '9' }
}

/// The decimal form of `n`.
pub fn decimal_string(n: u32) -> (r: String)
    ensures
        r@ == decimal(n as nat),
{
    let mut digits: Vec<char> = Vec::new();
    let mut m: u32 = n;
    while m >= 10
        invariant
            decimal(n as nat) == decimal(m as nat) + digits@.reverse(),
        decreases m,
    {
        let ghost before = digits@;
        digits.push(digit(m % 10));
        proof {
            assert(decimal(m as nat) == decimal((m / 10) as nat).push(digit_char((m % 10) as nat)));
            assert(digits@.reverse() =~= seq![digit_char((m % 10) as nat)] + before.reverse());
            assert(decimal((m / 10) as nat).push(digit_char((m % 10) as nat)) + before.reverse() =~= decimal((m / 10) as nat) + digits@.reverse());
        }
        m = m / 10;
    }
    digits.push(digit(m));
    let mut out: Vec<char> = Vec::new();
    let mut i: usize = digits.len();
    while i > 0
        invariant
            i <= digits@.len(),
            out@ == digits@.subrange(i as int, digits@.len() as int).reverse(),
        decreases i,
    {
        let ghost before = out@;
        out.push(digits[i - 1]);
        proof {
            assert(out@ =~= digits@.subrange(i - 1, digits@.len() as int).reverse());
        }
        i = i - 1;
    }
    proof {
        assert(digits@.subrange(0, digits@.len() as int) =~= digits@);
        assert(decimal(m as nat) =~= seq![digit_char(m as nat)]);
        assert(digits@.reverse() =~= seq![digit_char(m as nat)] + digits@.drop_last().reverse());
    }
    string_of(out.as_slice())
}

/// RPM version (epoch:version-release).
#[derive(Debug, Clone)]
pub struct RpmVersion {
    pub epoch: u32,
    pub ver: String,
    pub rel: String,
}

impl Default for RpmVersion {
    fn default() -> (r: RpmVersion)
        ensures
            r.epoch == 0,
            r.ver@ == Seq::<char>::empty(),
            r.rel@ == Seq::<char>::empty(),
    {
        RpmVersion { epoch: 0, ver: String::new(), rel: String::new() }
    }
}

impl RpmVersion {
    /// `epoch:ver-rel`, or `ver-rel` when the epoch is 0.
    pub fn to_string(&self) -> (r: String)
        ensures
            r@ == if self.epoch > 0 {
                decimal(self.epoch as nat) + ":"@ + self.ver@ + "-"@ + self.rel@
            } else {
                self.ver@ + "-"@ + self.rel@
            },
    {
        let mut s = if self.epoch > 0 {
            let mut e = decimal_string(self.epoch);
            e.append(":");
            e.append(self.ver.as_str());
            e
        } else {
            self.ver.clone()
        };
        s.append("-");
        s.append(self.rel.as_str());
        s
    }
}

/// An RPM requirement as primary.xml states it.
#[derive(Debug, Clone)]
pub struct RpmRequire {
    pub name: String,
    pub flags: Option<String>,
    pub epoch: Option<u32>,
    pub ver: Option<String>,
    pub rel: Option<String>,
    pub pre: bool,
}

/// The operator an RPM comparison flag names.
pub open spec fn flag_op(f: Seq<char>) -> Option<ConstraintOp> {
    if f == "EQ"@ {
        Some(ConstraintOp::Eq)
    } else if f == "LT"@ {
        Some(ConstraintOp::Lt)
    } else if f == "LE"@ {
        Some(ConstraintOp::Le)
    } else if f == "GT"@ {
        Some(ConstraintOp::Gt)
    } else if f == "GE"@ {
        Some(ConstraintOp::Ge)
    } else {
        None
    }
}

impl RpmRequire {
    /// The dependency this requirement states: a constraint when both a
    /// known flag and a version are present, none otherwise.
    pub fn to_dependency(&self) -> (r: Dependency)
        ensures
            r.name@ == self.name@,
            r.version_constraint matches Some(c) ==> self.flags matches Some(f) && self.ver matches Some(v)
                && flag_op(f@) == Some(c.operator) && c.version@ == v@,
            r.version_constraint is None ==> !(self.flags matches Some(f) && self.ver is Some && flag_op(f@) is Some),
    {
        let constraint = match (&self.flags, &self.ver) {
            (Some(flags), Some(ver)) => {
                let f = crate::text::chars_of(flags.as_str());
                let op = if crate::text::chars_equal(&f, "EQ") {
                    ConstraintOp::Eq
                } else if crate::text::chars_equal(&f, "LT") {
                    ConstraintOp::Lt
                } else if crate::text::chars_equal(&f, "LE") {
                    ConstraintOp::Le
                } else if crate::text::chars_equal(&f, "GT") {
                    ConstraintOp::Gt
                } else if crate::text::chars_equal(&f, "GE") {
                    ConstraintOp::Ge
                } else {
                    return Dependency { name: self.name.clone(), version_constraint: None };
                };
                Some(VersionConstraint { operator: op, version: ver.clone() })
            },
            _ => None,
        };
        Dependency { name: self.name.clone(), version_constraint: constraint }
    }
}

/// An RPM package entry of primary.xml.
#[derive(Debug, Clone)]
pub struct DnfPackage {
    pub name: String,
    pub arch: String,
    pub version: RpmVersion,
    pub checksum: String,
    pub checksum_type: String,
    pub summary: String,
    pub description: String,
    pub url: String,
    pub license: String,
    pub vendor: String,
    pub packager: String,
    pub buildtime: u64,
    pub size_package: u64,
    pub size_installed: u64,
    pub size_archive: u64,
    pub location_href: String,
    pub requires: Vec<RpmRequire>,
    pub provides: Vec<String>,
    pub conflicts: Vec<String>,
    pub obsoletes: Vec<String>,
    pub files: Vec<String>,
}

impl Default for DnfPackage {
    fn default() -> (r: DnfPackage)
        ensures
            primary_view(r) == empty_primary(),
            other_fields_default(r),
    {
        DnfPackage {
            name: String::new(),
            arch: String::new(),
            version: RpmVersion::default(),
            checksum: String::new(),
            checksum_type: String::new(),
            summary: String::new(),
            description: String::new(),
            url: String::new(),
            license: String::new(),
            vendor: String::new(),
            packager: String::new(),
            buildtime: 0,
            size_package: 0,
            size_installed: 0,
            size_archive: 0,
            location_href: String::new(),
            requires: Vec::new(),
            provides: Vec::new(),
            conflicts: Vec::new(),
            obsoletes: Vec::new(),
            files: Vec::new(),
        }
    }
}

/// DNF repository manager: a base URL and the package entries read from
/// its metadata.
pub struct DnfRepository {
    base_url: String,
    packages: Vec<DnfPackage>,
}

impl DnfRepository {
    pub closed spec fn base_url(&self) -> Seq<char> {
        self.base_url@
    }

    pub closed spec fn packages(&self) -> Seq<DnfPackage> {
        self.packages@
    }

    /// A manager for the repository at `base_url`, with no packages.
    pub fn new(base_url: &str) -> (r: DnfRepository)
        ensures
            r.base_url() == base_url@,
            r.packages().len() == 0,
    {
        DnfRepository { base_url: String::from_str(base_url), packages: Vec::new() }
    }

    /// Locates primary.xml. Fetching it is the transport's part; nothing
    /// here can fail.
    pub fn sync(&mut self) -> (r: Result<(), crate::model::PkgError>)
        ensures
            r is Ok,
            final(self).base_url() == old(self).base_url(),
            final(self).packages() == old(self).packages(),
    {
        let _primary_url = primary_xml_url(self.base_url.as_str());
        Ok(())
    }

    /// Package entries whose name or summary contains `query`, ignoring
    /// case.
    pub fn search(&self, query: &str) -> (r: Vec<&DnfPackage>)
        ensures
            crate::text::derefs(r@) == self.packages().filter(dnf_query(query@)),
            forall|k: int| 0 <= k < r@.len() ==> self.packages().contains(*r@[k]),
            forall|k: int| 0 <= k < r@.len() ==> query_matches(query@, r@[k].name@, r@[k].summary@),
            forall|j: int| 0 <= j < self.packages().len() && query_matches(query@, self.packages()[j].name@, self.packages()[j].summary@)
                ==> exists|k: int| 0 <= k < r@.len() && r@[k] == &self.packages()[j],
    {
        let q = lowercase(query);
        let mut out: Vec<&DnfPackage> = Vec::new();
        proof {
            crate::text::lemma_filter_empty(self.packages@, dnf_query(query@));
        }
        let mut i: usize = 0;
        while i < self.packages.len()
            invariant
                q@ == lower_of(query@),
                i <= self.packages@.len(),
                crate::text::derefs(out@) == self.packages@.subrange(0, i as int).filter(dnf_query(query@)),
                forall|k: int| 0 <= k < out@.len() ==> self.packages@.contains(*out@[k]),
                forall|k: int| 0 <= k < out@.len() ==> query_matches(query@, out@[k].name@, out@[k].summary@),
                forall|j: int| 0 <= j < i && query_matches(query@, self.packages@[j].name@, self.packages@[j].summary@)
                    ==> exists|k: int| 0 <= k < out@.len() && out@[k] == &self.packages@[j],
            decreases self.packages@.len() - i,
        {
            let p = &self.packages[i];
            proof {
                crate::text::lemma_filter_step(self.packages@, i as int, dnf_query(query@));
            }
            if matches_lowered(q.as_str(), p.name.as_str(), p.summary.as_str()) {
                let ghost before = out@;
                out.push(p);
                proof {
                    crate::text::lemma_derefs_push(before, p);
                    assert(out@[before.len() as int] == p);
                    assert forall|j: int| 0 <= j < i && query_matches(query@, self.packages@[j].name@, self.packages@[j].summary@)
                        implies exists|k: int| 0 <= k < out@.len() && out@[k] == &self.packages@[j] by {
                        let k = choose|k: int| 0 <= k < before.len() && before[k] == &self.packages@[j];
                        assert(out@[k] == before[k]);
                    }
                }
            }
            i = i + 1;
        }
        proof {
            assert(self.packages@.subrange(0, self.packages@.len() as int) =~= self.packages@);
        }
        out
    }

    /// The last entry read for the package called `name`.
    pub fn get(&self, name: &str) -> (r: Option<&DnfPackage>)
        ensures
            r is None ==> forall|j: int| 0 <= j < self.packages().len() ==> self.packages()[j].name@ != name@,
            r matches Some(p) ==> exists|j: int|
                0 <= j < self.packages().len() && *p == self.packages()[j] && p.name@ == name@ && forall|k: int|
                    j < k < self.packages().len() ==> self.packages()[k].name@ != name@,
    {
        let key = String::from_str(name);
        let mut i: usize = self.packages.len();
        while i > 0
            invariant
                i <= self.packages@.len(),
                key@ == name@,
                forall|k: int| i <= k < self.packages@.len() ==> self.packages@[k].name@ != name@,
            decreases i,
        {
            if self.packages[i - 1].name == key {
                let found = &self.packages[i - 1];
                proof {
                    let j = i - 1;
                    assert(*found == self.packages()[j as int] && found.name@ == name@);
                }
                return Some(found);
            }
            i = i - 1;
        }
        None
    }

    /// Download URL of a package entry.
    pub fn get_download_url(&self, pkg: &DnfPackage) -> (r: String)
        ensures
            r@ == self.base_url() + "/"@ + pkg.location_href@,
    {
        let mut s = self.base_url.clone();
        s.append("/");
        s.append(pkg.location_href.as_str());
        s
    }
}

impl Default for DnfRepository {
    fn default() -> (r: DnfRepository)
        ensures
            r.base_url() == FEDORA_DL@ + "/releases/40/Everything/x86_64/os"@,
            r.packages().len() == 0,
    {
        let mut base = String::from_str(FEDORA_DL);
        base.append("/releases/40/Everything/x86_64/os");
        DnfRepository::new(base.as_str())
    }
}

/// Repository configuration of a DNF/YUM repository.
pub fn create_dnf_repo(name: &str, base_url: &str) -> (r: Repository)
    ensures
        r.name@ == name@,
        r.url@ == base_url@,
        r.format == PackageFormat::Rpm,
        r.enabled,
        r.gpg_key is None,
        r.priority == 90,
{
    Repository {
        name: String::from_str(name),
        url: String::from_str(base_url),
        format: PackageFormat::Rpm,
        enabled: true,
        gpg_key: None,
        priority: 90,
    }
}


/// The dependency an RPM requirement states.
pub open spec fn rpm_dep(q: RpmRequire) -> DependencyView {
    DependencyView {
        name: q.name@,
        constraint: match (q.flags, q.ver) {
            (Some(f), Some(v)) => match flag_op(f@) {
                Some(op) => Some((op, v@)),
                None => None,
            },
            _ => None,
        },
    }
}

/// The release number of an RPM release string: its first dot-separated
/// part read as a `u32`, or 1.
pub open spec fn rpm_release(rel: Seq<char>) -> u32 {
    match crate::text::parse_u64_spec(crate::text::before_char(rel, '.')) {
        Some(n) => if n <= u32::MAX {
            n as u32
        } else {
            1
        },
        None => 1,
    }
}

/// The canonical record of a primary.xml entry.
pub open spec fn dnf_record(d: DnfPackage) -> PackageView {
    PackageView {
        name: d.name@,
        version: d.version.ver@,
        release: rpm_release(d.version.rel@),
        arch: d.arch@,
        format: PackageFormat::Rpm,
        description: if d.description@.len() == 0 {
            d.summary@
        } else {
            d.description@
        },
        maintainer: d.packager@,
        license: d.license@,
        homepage: d.url@,
        size: d.size_package,
        installed_size: d.size_installed,
        dependencies: d.requires@.map_values(|q: RpmRequire| rpm_dep(q)),
        conflicts: strings_view(d.conflicts@),
        provides: strings_view(d.provides@),
        replaces: strings_view(d.obsoletes@),
        files: strings_view(d.files@),
        checksum: d.checksum@,
    }
}

impl PackageInfo {
    /// The canonical record of a primary.xml entry.
    pub fn from_dnf(dnf: DnfPackage) -> (r: PackageInfo)
        ensures
            r@ == dnf_record(dnf),
    {
        let ghost dv = dnf;
        let rel = crate::text::chars_of(dnf.version.rel.as_str());
        let dot = crate::text::find_char(&rel, 0, '.');
        proof {
            assert(rel@.subrange(0, rel@.len() as int) =~= rel@);
        }
        let head = crate::text::slice_of(&rel, 0, dot);
        let release: u32 = match crate::text::parse_u64(&head) {
            Some(n) => if n <= 4294967295 {
                n as u32
            } else {
                1
            },
            None => 1,
        };
        let mut deps: Vec<Dependency> = Vec::new();
        let mut i: usize = 0;
        while i < dnf.requires.len()
            invariant
                i <= dnf.requires@.len(),
                deps_view(deps@) == dnf.requires@.subrange(0, i as int).map_values(|q: RpmRequire| rpm_dep(q)),
            decreases dnf.requires@.len() - i,
        {
            let d = dnf.requires[i].to_dependency();
            let ghost before = deps@;
            deps.push(d);
            proof {
                assert(d@ == rpm_dep(dnf.requires@[i as int]));
                assert(deps_view(deps@) =~= deps_view(before).push(d@));
                assert(dnf.requires@.subrange(0, i + 1).map_values(|q: RpmRequire| rpm_dep(q)) =~= dnf.requires@.subrange(0, i as int).map_values(|q: RpmRequire| rpm_dep(q)).push(rpm_dep(dnf.requires@[i as int])));
            }
            i = i + 1;
        }
        proof {
            assert(dnf.requires@.subrange(0, dnf.requires@.len() as int) =~= dnf.requires@);
        }
        let description = if dnf.description.as_str().is_empty() {
            dnf.summary
        } else {
            dnf.description
        };
        let r = PackageInfo {
            name: dnf.name,
            version: dnf.version.ver,
            release,
            arch: dnf.arch,
            format: PackageFormat::Rpm,
            description,
            maintainer: dnf.packager,
            license: dnf.license,
            homepage: dnf.url,
            size: dnf.size_package,
            installed_size: dnf.size_installed,
            dependencies: deps,
            conflicts: dnf.conflicts,
            provides: dnf.provides,
            replaces: dnf.obsoletes,
            files: dnf.files,
            checksum: dnf.checksum,
        };
        proof {
            assert(r@ =~= dnf_record(dv));
        }
        r
    }
}

impl From<DnfPackage> for PackageInfo {
    fn from(dnf: DnfPackage) -> PackageInfo {
        PackageInfo::from_dnf(dnf)
    }
}

impl vstd::std_specs::convert::FromSpecImpl<DnfPackage> for PackageInfo {
    open spec fn obeys_from_spec() -> bool {
        false
    }

    open spec fn from_spec(v: DnfPackage) -> PackageInfo {
        vstd::pervasive::arbitrary()
    }
}


/// The text between `<tag>` and `</tag>` when the line is exactly such an
/// element with non-empty content.
pub open spec fn tag_value(line: Seq<char>, tag: Seq<char>) -> Option<Seq<char>> {
    let open = "<"@ + tag + ">"@;
    let close = "</"@ + tag + ">"@;
    if starts_with(line, open) && ends_with(line, close) && open.len() < line.len() - close.len() {
        Some(line.subrange(open.len() as int, line.len() - close.len()))
    } else {
        None
    }
}

/// The value of the first `attr="..."` in the line.
pub open spec fn attribute(line: Seq<char>, attr: Seq<char>) -> Option<Seq<char>> {
    match first_occurrence(line, attr + "=\""@) {
        Some(i) => quoted_from(line, i + attr.len() + 2),
        None => None,
    }
}

/// The text from `start` up to the next `"`, if there is one.
pub open spec fn quoted_from(line: Seq<char>, start: int) -> Option<Seq<char>> {
    match first_index(line.subrange(start, line.len() as int), '"') {
        Some(e) => Some(line.subrange(start, start + e)),
        None => None,
    }
}

/// The text between the first `>` and the last `<`, when not empty.
pub open spec fn tag_content(line: Seq<char>) -> Option<Seq<char>> {
    match (first_index(line, '>'), last_index(line, '<')) {
        (Some(a), Some(b)) => if a + 1 < b {
            Some(line.subrange(a + 1, b))
        } else {
            None
        },
        _ => None,
    }
}

fn literal(s: &str) -> (r: Vec<char>)
    ensures
        r@ == s@,
{
    chars_of(s)
}

fn concat3(a: &str, b: &Vec<char>, c: &str) -> (r: Vec<char>)
    ensures
        r@ == a@ + b@ + c@,
{
    let mut v = chars_of(a);
    let mut i: usize = 0;
    let ghost a0 = v@;
    while i < b.len()
        invariant
            i <= b@.len(),
            v@ == a0 + b@.subrange(0, i as int),
        decreases b@.len() - i,
    {
        v.push(b[i]);
        proof {
            assert(v@ =~= a0 + b@.subrange(0, i + 1));
        }
        i = i + 1;
    }
    let cs = chars_of(c);
    let ghost v0 = v@;
    let mut j: usize = 0;
    while j < cs.len()
        invariant
            j <= cs@.len(),
            v@ == v0 + cs@.subrange(0, j as int),
        decreases cs@.len() - j,
    {
        v.push(cs[j]);
        proof {
            assert(v@ =~= v0 + cs@.subrange(0, j + 1));
        }
        j = j + 1;
    }
    proof {
        assert(b@.subrange(0, b@.len() as int) =~= b@);
        assert(cs@.subrange(0, cs@.len() as int) =~= cs@);
        assert(v@ =~= a@ + b@ + c@);
    }
    v
}

/// The content of a one-line `<tag>...</tag>` element.
fn extract_tag_value(line: &Vec<char>, tag: &str) -> (r: Option<Vec<char>>)
    ensures
        match r {
            Some(v) => tag_value(line@, tag@) == Some(v@),
            None => tag_value(line@, tag@) is None,
        },
{
    let t = chars_of(tag);
    let open = concat3("<", &t, ">");
    let close = concat3("</", &t, ">");
    if has_prefix(line, &open) && has_suffix(line, &close) {
        let start = open.len();
        let end = line.len() - close.len();
        if start < end {
            return Some(slice_of(line, start, end));
        }
    }
    None
}

/// The value of the first `attr="..."` of a line.
fn extract_attribute(line: &Vec<char>, attr: &str) -> (r: Option<Vec<char>>)
    ensures
        match r {
            Some(v) => attribute(line@, attr@) == Some(v@),
            None => attribute(line@, attr@) is None,
        },
{
    let a = chars_of(attr);
    let empty: Vec<char> = Vec::new();
    let pattern = concat3(attr, &empty, "=\"");
    proof {
        assert(pattern@ =~= attr@ + "=\""@);
    }
    let n = line.len();
    match find_text(line, &pattern) {
        Some(i) => {
            assert(i + pattern@.len() <= n);
            let start = i + pattern.len();
            let end = find_char(line, start, '"');
            proof {
                reveal_strlit("=\"");
                assert(pattern@.len() == attr@.len() + 2);
                assert(start == i + attr@.len() + 2);
            }
            if end < line.len() {
                Some(slice_of(line, start, end))
            } else {
                None
            }
        },
        None => None,
    }
}

/// The text between the first `>` and the last `<` of a line.
fn extract_tag_content(line: &Vec<char>) -> (r: Option<Vec<char>>)
    ensures
        match r {
            Some(v) => tag_content(line@) == Some(v@),
            None => tag_content(line@) is None,
        },
{
    let start = find_char(line, 0, '>');
    proof {
        assert(line@.subrange(0, line@.len() as int) =~= line@);
    }
    if start >= line.len() {
        return None;
    }
    match rfind_char(line, '<') {
        Some(end) => {
            if start + 1 < end {
                Some(slice_of(line, start + 1, end))
            } else {
                None
            }
        },
        None => None,
    }
}

/// The fields of a primary.xml entry that the parser reads.
pub struct PrimaryView {
    pub name: Seq<char>,
    pub arch: Seq<char>,
    pub summary: Seq<char>,
    pub description: Seq<char>,
    pub url: Seq<char>,
    pub license: Seq<char>,
    pub location_href: Seq<char>,
    pub checksum_type: Seq<char>,
    pub checksum: Seq<char>,
    pub epoch: u32,
    pub ver: Seq<char>,
    pub rel: Seq<char>,
    pub size_package: u64,
    pub size_installed: u64,
}

pub open spec fn primary_view(d: DnfPackage) -> PrimaryView {
    PrimaryView {
        name: d.name@,
        arch: d.arch@,
        summary: d.summary@,
        description: d.description@,
        url: d.url@,
        license: d.license@,
        location_href: d.location_href@,
        checksum_type: d.checksum_type@,
        checksum: d.checksum@,
        epoch: d.version.epoch,
        ver: d.version.ver@,
        rel: d.version.rel@,
        size_package: d.size_package,
        size_installed: d.size_installed,
    }
}

/// The fields the parser never sets hold their defaults.
pub open spec fn other_fields_default(d: DnfPackage) -> bool {
    &&& d.vendor@.len() == 0
    &&& d.packager@.len() == 0
    &&& d.buildtime == 0
    &&& d.size_archive == 0
    &&& d.requires@.len() == 0
    &&& d.provides@.len() == 0
    &&& d.conflicts@.len() == 0
    &&& d.obsoletes@.len() == 0
    &&& d.files@.len() == 0
}

pub open spec fn empty_primary() -> PrimaryView {
    PrimaryView {
        name: Seq::empty(),
        arch: Seq::empty(),
        summary: Seq::empty(),
        description: Seq::empty(),
        url: Seq::empty(),
        license: Seq::empty(),
        location_href: Seq::empty(),
        checksum_type: Seq::empty(),
        checksum: Seq::empty(),
        epoch: 0,
        ver: Seq::empty(),
        rel: Seq::empty(),
        size_package: 0,
        size_installed: 0,
    }
}

/// An epoch attribute as `str::parse::<u32>` reads it, 0 when it does not
/// parse.
pub open spec fn epoch_or_zero(v: Seq<char>) -> u32 {
    match crate::text::parse_u64_spec(v) {
        Some(n) => if n <= u32::MAX {
            n as u32
        } else {
            0
        },
        None => 0,
    }
}

/// The entry after reading one line inside a `<package>` element.
pub open spec fn primary_field(cur: PrimaryView, line: Seq<char>) -> PrimaryView {
    if tag_value(line, "name"@) is Some {
        PrimaryView { name: tag_value(line, "name"@)->0, ..cur }
    } else if tag_value(line, "arch"@) is Some {
        PrimaryView { arch: tag_value(line, "arch"@)->0, ..cur }
    } else if tag_value(line, "summary"@) is Some {
        PrimaryView { summary: tag_value(line, "summary"@)->0, ..cur }
    } else if tag_value(line, "description"@) is Some {
        PrimaryView { description: tag_value(line, "description"@)->0, ..cur }
    } else if tag_value(line, "url"@) is Some {
        PrimaryView { url: tag_value(line, "url"@)->0, ..cur }
    } else if tag_value(line, "rpm:license"@) is Some {
        PrimaryView { license: tag_value(line, "rpm:license"@)->0, ..cur }
    } else if starts_with(line, "<location "@) {
        match attribute(line, "href"@) {
            Some(h) => PrimaryView { location_href: h, ..cur },
            None => cur,
        }
    } else if starts_with(line, "<checksum "@) {
        let c1 = match attribute(line, "type"@) {
            Some(t) => PrimaryView { checksum_type: t, ..cur },
            None => cur,
        };
        match tag_content(line) {
            Some(c) => PrimaryView { checksum: c, ..c1 },
            None => c1,
        }
    } else if starts_with(line, "<version "@) {
        PrimaryView {
            epoch: match attribute(line, "epoch"@) {
                Some(e) => epoch_or_zero(e),
                None => cur.epoch,
            },
            ver: match attribute(line, "ver"@) {
                Some(v) => v,
                None => cur.ver,
            },
            rel: match attribute(line, "rel"@) {
                Some(r) => r,
                None => cur.rel,
            },
            ..cur
        }
    } else if starts_with(line, "<size "@) {
        PrimaryView {
            size_package: match attribute(line, "package"@) {
                Some(p) => size_or_zero(p),
                None => cur.size_package,
            },
            size_installed: match attribute(line, "installed"@) {
                Some(p) => size_or_zero(p),
                None => cur.size_installed,
            },
            ..cur
        }
    } else {
        cur
    }
}

/// Reading one line of primary.xml: `<package ...>` starts an entry,
/// `</package>` ends it (kept when it has a name), and lines in between
/// set fields.
pub open spec fn primary_step(st: (Seq<PrimaryView>, PrimaryView, bool), raw: Seq<char>) -> (Seq<PrimaryView>, PrimaryView, bool) {
    let line = trim(raw);
    if starts_with(line, "<package "@) || line == "<package>"@ {
        (st.0, empty_primary(), true)
    } else if line == "</package>"@ {
        (if st.1.name.len() > 0 { st.0.push(st.1) } else { st.0 }, st.1, false)
    } else if st.2 {
        (st.0, primary_field(st.1, line), true)
    } else {
        st
    }
}

pub open spec fn primary_scan(ls: Seq<Seq<char>>) -> (Seq<PrimaryView>, PrimaryView, bool)
    decreases ls.len(),
{
    if ls.len() == 0 {
        (Seq::empty(), empty_primary(), false)
    } else {
        primary_step(primary_scan(ls.drop_last()), ls.last())
    }
}

fn copy_primary(d: &DnfPackage) -> (r: DnfPackage)
    requires
        other_fields_default(*d),
    ensures
        primary_view(r) == primary_view(*d),
        other_fields_default(r),
{
    let mut r = DnfPackage::default();
    r.name = d.name.clone();
    r.arch = d.arch.clone();
    r.summary = d.summary.clone();
    r.description = d.description.clone();
    r.url = d.url.clone();
    r.license = d.license.clone();
    r.location_href = d.location_href.clone();
    r.checksum_type = d.checksum_type.clone();
    r.checksum = d.checksum.clone();
    r.version = RpmVersion { epoch: d.version.epoch, ver: d.version.ver.clone(), rel: d.version.rel.clone() };
    r.size_package = d.size_package;
    r.size_installed = d.size_installed;
    r
}

fn read_primary_field(cur: &mut DnfPackage, line: &Vec<char>)
    requires
        other_fields_default(*old(cur)),
    ensures
        other_fields_default(*final(cur)),
        primary_view(*final(cur)) == primary_field(primary_view(*old(cur)), line@),
{
    if let Some(v) = extract_tag_value(line, "name") {
        cur.name = string_of(v.as_slice());
    } else if let Some(v) = extract_tag_value(line, "arch") {
        cur.arch = string_of(v.as_slice());
    } else if let Some(v) = extract_tag_value(line, "summary") {
        cur.summary = string_of(v.as_slice());
    } else if let Some(v) = extract_tag_value(line, "description") {
        cur.description = string_of(v.as_slice());
    } else if let Some(v) = extract_tag_value(line, "url") {
        cur.url = string_of(v.as_slice());
    } else if let Some(v) = extract_tag_value(line, "rpm:license") {
        cur.license = string_of(v.as_slice());
    } else if has_prefix(line, &literal("<location ")) {
        if let Some(h) = extract_attribute(line, "href") {
            cur.location_href = string_of(h.as_slice());
        }
    } else if has_prefix(line, &literal("<checksum ")) {
        if let Some(t) = extract_attribute(line, "type") {
            cur.checksum_type = string_of(t.as_slice());
        }
        if let Some(c) = extract_tag_content(line) {
            cur.checksum = string_of(c.as_slice());
        }
    } else if has_prefix(line, &literal("<version ")) {
        if let Some(e) = extract_attribute(line, "epoch") {
            cur.version.epoch = match parse_u64(&e) {
                Some(n) => if n <= 4294967295 {
                    n as u32
                } else {
                    0
                },
                None => 0,
            };
        }
        if let Some(v) = extract_attribute(line, "ver") {
            cur.version.ver = string_of(v.as_slice());
        }
        if let Some(r) = extract_attribute(line, "rel") {
            cur.version.rel = string_of(r.as_slice());
        }
    } else if has_prefix(line, &literal("<size ")) {
        if let Some(p) = extract_attribute(line, "package") {
            cur.size_package = match parse_u64(&p) {
                Some(n) => n,
                None => 0,
            };
        }
        if let Some(q) = extract_attribute(line, "installed") {
            cur.size_installed = match parse_u64(&q) {
                Some(n) => n,
                None => 0,
            };
        }
    }
}

pub open spec fn primary_views(v: Seq<DnfPackage>) -> Seq<PrimaryView> {
    v.map_values(|d: DnfPackage| primary_view(d))
}

/// Reads the package entries of a primary.xml document, one element per
/// line as the metadata is laid out.
pub fn parse_primary_xml(content: &str) -> (r: Vec<DnfPackage>)
    ensures
        primary_views(r@) == primary_scan(lines_of(content@)).0,
        forall|k: int| 0 <= k < r@.len() ==> other_fields_default(#[trigger] r@[k]),
{
    let text = chars_of(content);
    let ls = lines(&text);
    let ghost lv = views_of(ls@);
    let mut packages: Vec<DnfPackage> = Vec::new();
    let mut current = DnfPackage::default();
    let mut in_package: bool = false;
    let open_tag = literal("<package ");
    proof {
        assert(primary_view(current) =~= empty_primary());
    }
    let mut i: usize = 0;
    while i < ls.len()
        invariant
            lv == views_of(ls@),
            lv == lines_of(content@),
            open_tag@ == "<package "@,
            i <= ls@.len(),
            (primary_views(packages@), primary_view(current), in_package) == primary_scan(lv.subrange(0, i as int)),
            other_fields_default(current),
            forall|k: int| 0 <= k < packages@.len() ==> other_fields_default(#[trigger] packages@[k]),
        decreases ls@.len() - i,
    {
        proof {
            assert(lv.subrange(0, i + 1).drop_last() =~= lv.subrange(0, i as int));
            assert(lv.subrange(0, i + 1).last() == ls@[i as int]@);
        }
        let raw = &ls[i];
        let line = trimmed(raw, 0, raw.len());
        proof {
            assert(raw@.subrange(0, raw@.len() as int) =~= raw@);
        }
        if has_prefix(&line, &open_tag) || chars_equal(&line, "<package>") {
            in_package = true;
            current = DnfPackage::default();
            proof {
                assert(primary_view(current) =~= empty_primary());
            }
        } else if chars_equal(&line, "</package>") {
            if !current.name.as_str().is_empty() {
                let ghost before = packages@;
                packages.push(copy_primary(&current));
                proof {
                    assert(primary_views(packages@) =~= primary_views(before).push(primary_view(current)));
                }
            }
            in_package = false;
        } else if in_package {
            read_primary_field(&mut current, &line);
        }
        i = i + 1;
    }
    proof {
        assert(lv.subrange(0, ls@.len() as int) =~= lv);
    }
    packages
}


fn copy_opt(s: &Option<String>) -> (r: Option<String>)
    ensures
        r == *s,
{
    match s {
        Some(x) => Some(x.clone()),
        None => None,
    }
}

impl RpmRequire {
    /// Copies the requirement.
    pub fn duplicate(&self) -> (r: RpmRequire)
        ensures
            r == *self,
    {
        RpmRequire {
            name: self.name.clone(),
            flags: copy_opt(&self.flags),
            epoch: self.epoch,
            ver: copy_opt(&self.ver),
            rel: copy_opt(&self.rel),
            pre: self.pre,
        }
    }
}

impl DnfPackage {
    /// Copies the entry.
    pub fn duplicate(&self) -> (r: DnfPackage)
        ensures
            dnf_record(r) == dnf_record(*self),
            r.name@ == self.name@,
            r.summary@ == self.summary@,
    {
        let mut reqs: Vec<RpmRequire> = Vec::new();
        let mut i: usize = 0;
        while i < self.requires.len()
            invariant
                i <= self.requires@.len(),
                reqs@ == self.requires@.subrange(0, i as int),
            decreases self.requires@.len() - i,
        {
            reqs.push(self.requires[i].duplicate());
            proof {
                assert(reqs@ =~= self.requires@.subrange(0, i + 1));
            }
            i = i + 1;
        }
        proof {
            assert(reqs@ =~= self.requires@);
        }
        let r = DnfPackage {
            name: self.name.clone(),
            arch: self.arch.clone(),
            checksum: self.checksum.clone(),
            checksum_type: self.checksum_type.clone(),
            summary: self.summary.clone(),
            description: self.description.clone(),
            url: self.url.clone(),
            license: self.license.clone(),
            vendor: self.vendor.clone(),
            packager: self.packager.clone(),
            location_href: self.location_href.clone(),
            buildtime: self.buildtime,
            size_package: self.size_package,
            size_installed: self.size_installed,
            size_archive: self.size_archive,
            provides: crate::model::copy_strings(&self.provides),
            conflicts: crate::model::copy_strings(&self.conflicts),
            obsoletes: crate::model::copy_strings(&self.obsoletes),
            files: crate::model::copy_strings(&self.files),
            version: RpmVersion { epoch: self.version.epoch, ver: self.version.ver.clone(), rel: self.version.rel.clone() },
            requires: reqs,
        };
        proof {
            assert(dnf_record(r) =~= dnf_record(*self));
        }
        r
    }
}


/// Entries of `q`'s search: name or summary contains it, ignoring case.
pub open spec fn dnf_query(q: Seq<char>) -> spec_fn(DnfPackage) -> bool {
    |p: DnfPackage| query_matches(q, p.name@, p.summary@)
}

} // verus!
