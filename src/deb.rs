//! Debian control files.
use crate::model::{Dependency, DependencyView, PackageFormat, PackageInfo, PkgError};
use crate::text::{
    before_char, chars_equal, chars_of, comma_list, comma_strings, find_char, first_index, key_value,
    kib, kib_to_bytes, last_value, lines, or_empty, parse_u64, size_or_zero, split_chars, split_key_value,
    split_on, string_of, trim, trimmed, views_of,
};
use vstd::prelude::*;
use vstd::string::StringExecFns;

verus! {

/// The name of one Debian dependency: the first alternative, without any
/// parenthesised version.
pub open spec fn deb_dep_name(piece: Seq<char>) -> Seq<char> {
    let d = trim(before_char(trim(piece), '|'));
    match first_index(d, '(') {
        Some(i) => trim(d.subrange(0, i)),
        None => d,
    }
}

/// A comma-separated Debian dependency list, versions dropped.
pub open spec fn deb_deps(s: Seq<char>) -> Seq<DependencyView> {
    split_on(s, ',').map_values(|p: Seq<char>| DependencyView { name: deb_dep_name(p), constraint: None })
}

pub open spec fn control_kv() -> spec_fn(Seq<char>) -> Option<(Seq<char>, Seq<char>)> {
    |l: Seq<char>| key_value(l, ':')
}

fn dep_name(piece: &Vec<char>) -> (r: Vec<char>)
    ensures
        r@ == deb_dep_name(piece@),
{
    let t = trimmed(piece, 0, piece.len());
    proof {
        assert(piece@.subrange(0, piece@.len() as int) =~= piece@);
    }
    let bar = find_char(&t, 0, '|');
    proof {
        assert(t@.subrange(0, t@.len() as int) =~= t@);
    }
    let d = trimmed(&t, 0, bar);
    let paren = find_char(&d, 0, '(');
    proof {
        assert(d@.subrange(0, d@.len() as int) =~= d@);
    }
    if paren < d.len() {
        trimmed(&d, 0, paren)
    } else {
        d
    }
}

/// Parses a Debian dependency list; version restrictions are not kept.
fn parse_depends(deps: &Vec<char>) -> (r: Vec<Dependency>)
    ensures
        crate::model::deps_view(r@) == deb_deps(deps@),
{
    let parts = split_chars(deps, 0, deps.len(), ',');
    proof {
        assert(deps@.subrange(0, deps@.len() as int) =~= deps@);
    }
    let ghost p = split_on(deps@, ',');
    let mut out: Vec<Dependency> = Vec::new();
    let mut i: usize = 0;
    while i < parts.len()
        invariant
            views_of(parts@) == p,
            i <= parts@.len(),
            crate::model::deps_view(out@) == p.subrange(0, i as int).map_values(|q: Seq<char>| DependencyView { name: deb_dep_name(q), constraint: None }),
        decreases parts@.len() - i,
    {
        let n = dep_name(&parts[i]);
        proof {
            assert(parts@[i as int]@ == p[i as int]);
        }
        let ghost before = out@;
        out.push(Dependency { name: string_of(n.as_slice()), version_constraint: None });
        proof {
            assert(crate::model::deps_view(out@) =~= crate::model::deps_view(before).push(DependencyView { name: deb_dep_name(p[i as int]), constraint: None }));
            assert(p.subrange(0, i + 1).map_values(|q: Seq<char>| DependencyView { name: deb_dep_name(q), constraint: None }) =~= p.subrange(0, i as int).map_values(|q: Seq<char>| DependencyView { name: deb_dep_name(q), constraint: None }).push(DependencyView { name: deb_dep_name(p[i as int]), constraint: None }));
        }
        i = i + 1;
    }
    proof {
        assert(p.subrange(0, parts@.len() as int) =~= p);
    }
    out
}

proof fn lemma_control_keys_distinct()
    ensures
        "Package"@ != "Version"@,
        "Package"@ != "Architecture"@,
        "Package"@ != "Description"@,
        "Package"@ != "Maintainer"@,
        "Package"@ != "Homepage"@,
        "Package"@ != "Installed-Size"@,
        "Package"@ != "Depends"@,
        "Package"@ != "Conflicts"@,
        "Package"@ != "Provides"@,
        "Package"@ != "Replaces"@,
        "Version"@ != "Architecture"@,
        "Version"@ != "Description"@,
        "Version"@ != "Maintainer"@,
        "Version"@ != "Homepage"@,
        "Version"@ != "Installed-Size"@,
        "Version"@ != "Depends"@,
        "Version"@ != "Conflicts"@,
        "Version"@ != "Provides"@,
        "Version"@ != "Replaces"@,
        "Architecture"@ != "Description"@,
        "Architecture"@ != "Maintainer"@,
        "Architecture"@ != "Homepage"@,
        "Architecture"@ != "Installed-Size"@,
        "Architecture"@ != "Depends"@,
        "Architecture"@ != "Conflicts"@,
        "Architecture"@ != "Provides"@,
        "Architecture"@ != "Replaces"@,
        "Description"@ != "Maintainer"@,
        "Description"@ != "Homepage"@,
        "Description"@ != "Installed-Size"@,
        "Description"@ != "Depends"@,
        "Description"@ != "Conflicts"@,
        "Description"@ != "Provides"@,
        "Description"@ != "Replaces"@,
        "Maintainer"@ != "Homepage"@,
        "Maintainer"@ != "Installed-Size"@,
        "Maintainer"@ != "Depends"@,
        "Maintainer"@ != "Conflicts"@,
        "Maintainer"@ != "Provides"@,
        "Maintainer"@ != "Replaces"@,
        "Homepage"@ != "Installed-Size"@,
        "Homepage"@ != "Depends"@,
        "Homepage"@ != "Conflicts"@,
        "Homepage"@ != "Provides"@,
        "Homepage"@ != "Replaces"@,
        "Installed-Size"@ != "Depends"@,
        "Installed-Size"@ != "Conflicts"@,
        "Installed-Size"@ != "Provides"@,
        "Installed-Size"@ != "Replaces"@,
        "Depends"@ != "Conflicts"@,
        "Depends"@ != "Provides"@,
        "Depends"@ != "Replaces"@,
        "Conflicts"@ != "Provides"@,
        "Conflicts"@ != "Replaces"@,
        "Provides"@ != "Replaces"@,
{
    reveal_strlit("Package");
    reveal_strlit("Version");
    reveal_strlit("Architecture");
    reveal_strlit("Description");
    reveal_strlit("Maintainer");
    reveal_strlit("Homepage");
    reveal_strlit("Installed-Size");
    reveal_strlit("Depends");
    reveal_strlit("Conflicts");
    reveal_strlit("Provides");
    reveal_strlit("Replaces");
    assert("Package"@[0] == 'P' && "Package"@[1] == 'a' && "Package"@[2] == 'c');
    assert("Version"@[0] == 'V' && "Version"@[1] == 'e' && "Version"@[2] == 'r');
    assert("Architecture"@[0] == 'A' && "Architecture"@[1] == 'r' && "Architecture"@[2] == 'c');
    assert("Description"@[0] == 'D' && "Description"@[1] == 'e' && "Description"@[2] == 's');
    assert("Maintainer"@[0] == 'M' && "Maintainer"@[1] == 'a' && "Maintainer"@[2] == 'i');
    assert("Homepage"@[0] == 'H' && "Homepage"@[1] == 'o' && "Homepage"@[2] == 'm');
    assert("Installed-Size"@[0] == 'I' && "Installed-Size"@[1] == 'n' && "Installed-Size"@[2] == 's');
    assert("Depends"@[0] == 'D' && "Depends"@[1] == 'e' && "Depends"@[2] == 'p');
    assert("Conflicts"@[0] == 'C' && "Conflicts"@[1] == 'o' && "Conflicts"@[2] == 'n');
    assert("Provides"@[0] == 'P' && "Provides"@[1] == 'r' && "Provides"@[2] == 'o');
    assert("Replaces"@[0] == 'R' && "Replaces"@[1] == 'e' && "Replaces"@[2] == 'p');
}

/// A record with no metadata yet.
pub fn blank_record(format: PackageFormat) -> (r: PackageInfo)
    ensures
        r.name@.len() == 0,
        r.version@.len() == 0,
        r.release == 1,
        r.arch@.len() == 0,
        r.format == format,
        r.description@.len() == 0,
        r.maintainer@.len() == 0,
        r.license@.len() == 0,
        r.homepage@.len() == 0,
        r.size == 0,
        r.installed_size == 0,
        r.dependencies@.len() == 0,
        r.conflicts@.len() == 0,
        r.provides@.len() == 0,
        r.replaces@.len() == 0,
        r.files@.len() == 0,
        r.checksum@.len() == 0,
{
    PackageInfo {
        name: String::new(),
        version: String::new(),
        release: 1,
        arch: String::new(),
        format,
        description: String::new(),
        maintainer: String::new(),
        license: String::new(),
        homepage: String::new(),
        size: 0,
        installed_size: 0,
        dependencies: Vec::new(),
        conflicts: Vec::new(),
        provides: Vec::new(),
        replaces: Vec::new(),
        files: Vec::new(),
        checksum: String::new(),
    }
}

/// Parses the content of a control file into a Debian record. Each field
/// takes the value of its last `Key: value` line; Installed-Size is in
/// KiB (0 when it does not parse, saturating when it overflows).
pub fn parse_control(content: &str) -> (r: Result<PackageInfo, PkgError>)
    ensures
        r matches Ok(info) && ({
            let ls = crate::text::lines_of(content@);
            let f = |k: Seq<char>| last_value(ls, control_kv(), k);
            &&& info.name@ == or_empty(f("Package"@))
            &&& info.version@ == or_empty(f("Version"@))
            &&& info.arch@ == or_empty(f("Architecture"@))
            &&& info.description@ == or_empty(f("Description"@))
            &&& info.maintainer@ == or_empty(f("Maintainer"@))
            &&& info.homepage@ == or_empty(f("Homepage"@))
            &&& info.installed_size == match f("Installed-Size"@) {
                Some(v) => kib(size_or_zero(v)),
                None => 0,
            }
            &&& crate::model::deps_view(info.dependencies@) == match f("Depends"@) {
                Some(v) => deb_deps(v),
                None => Seq::empty(),
            }
            &&& crate::model::strings_view(info.conflicts@) == match f("Conflicts"@) {
                Some(v) => comma_list(v),
                None => Seq::empty(),
            }
            &&& crate::model::strings_view(info.provides@) == match f("Provides"@) {
                Some(v) => comma_list(v),
                None => Seq::empty(),
            }
            &&& crate::model::strings_view(info.replaces@) == match f("Replaces"@) {
                Some(v) => comma_list(v),
                None => Seq::empty(),
            }
            &&& info.release == 1
            &&& info.format == PackageFormat::Deb
            &&& info.license@.len() == 0
            &&& info.size == 0
            &&& info.files@.len() == 0
            &&& info.checksum@.len() == 0
        }),
{
    let text = chars_of(content);
    let ls = lines(&text);
    let ghost lv = views_of(ls@);
    let mut info = blank_record(PackageFormat::Deb);
    let mut i: usize = 0;
    while i < ls.len()
        invariant
            lv == views_of(ls@),
            lv == crate::text::lines_of(content@),
            i <= ls@.len(),
            info.name@ == or_empty(last_value(lv.subrange(0, i as int), control_kv(), "Package"@)),
            info.version@ == or_empty(last_value(lv.subrange(0, i as int), control_kv(), "Version"@)),
            info.arch@ == or_empty(last_value(lv.subrange(0, i as int), control_kv(), "Architecture"@)),
            info.description@ == or_empty(last_value(lv.subrange(0, i as int), control_kv(), "Description"@)),
            info.maintainer@ == or_empty(last_value(lv.subrange(0, i as int), control_kv(), "Maintainer"@)),
            info.homepage@ == or_empty(last_value(lv.subrange(0, i as int), control_kv(), "Homepage"@)),
            info.installed_size == match last_value(lv.subrange(0, i as int), control_kv(), "Installed-Size"@) {
                Some(v) => kib(size_or_zero(v)),
                None => 0,
            },
            crate::model::deps_view(info.dependencies@) == match last_value(lv.subrange(0, i as int), control_kv(), "Depends"@) {
                Some(v) => deb_deps(v),
                None => Seq::empty(),
            },
            crate::model::strings_view(info.conflicts@) == match last_value(lv.subrange(0, i as int), control_kv(), "Conflicts"@) {
                Some(v) => comma_list(v),
                None => Seq::empty(),
            },
            crate::model::strings_view(info.provides@) == match last_value(lv.subrange(0, i as int), control_kv(), "Provides"@) {
                Some(v) => comma_list(v),
                None => Seq::empty(),
            },
            crate::model::strings_view(info.replaces@) == match last_value(lv.subrange(0, i as int), control_kv(), "Replaces"@) {
                Some(v) => comma_list(v),
                None => Seq::empty(),
            },
            info.release == 1,
            info.format == PackageFormat::Deb,
            info.license@.len() == 0,
            info.size == 0,
            info.files@.len() == 0,
            info.checksum@.len() == 0,
        decreases ls@.len() - i,
    {
        proof {
            crate::text::lemma_last_value_step(lv, control_kv(), i as int);
            assert(lv[i as int] == ls@[i as int]@);
            lemma_control_keys_distinct();
        }
        match split_key_value(&ls[i], ':') {
            Some((key, value)) => {
                if chars_equal(&key, "Package") {
                    info.name = string_of(value.as_slice());
                } else if chars_equal(&key, "Version") {
                    info.version = string_of(value.as_slice());
                } else if chars_equal(&key, "Architecture") {
                    info.arch = string_of(value.as_slice());
                } else if chars_equal(&key, "Description") {
                    info.description = string_of(value.as_slice());
                } else if chars_equal(&key, "Maintainer") {
                    info.maintainer = string_of(value.as_slice());
                } else if chars_equal(&key, "Homepage") {
                    info.homepage = string_of(value.as_slice());
                } else if chars_equal(&key, "Installed-Size") {
                    let n = match parse_u64(&value) {
                        Some(n) => n,
                        None => 0,
                    };
                    info.installed_size = kib_to_bytes(n);
                } else if chars_equal(&key, "Depends") {
                    info.dependencies = parse_depends(&value);
                } else if chars_equal(&key, "Conflicts") {
                    info.conflicts = comma_strings(&value);
                } else if chars_equal(&key, "Provides") {
                    info.provides = comma_strings(&value);
                } else if chars_equal(&key, "Replaces") {
                    info.replaces = comma_strings(&value);
                }
            },
            None => {},
        }
        i = i + 1;
    }
    proof {
        assert(lv.subrange(0, ls@.len() as int) =~= lv);
    }
    Ok(info)
}


/// The record of a package file known only by its stem (its file name
/// without the last extension): version 1.0.0 for `arch`, no other
/// metadata.
pub fn record_from_stem(stem: &str, format: PackageFormat, arch: &str) -> (r: PackageInfo)
    ensures
        r.name@ == stem@,
        r.version@ == "1.0.0"@,
        r.arch@ == arch@,
        r.format == format,
        r.release == 1,
        r.dependencies@.len() == 0,
        r.files@.len() == 0,
{
    let mut info = blank_record(format);
    info.name = String::from_str(stem);
    info.version = String::from_str("1.0.0");
    info.arch = String::from_str(arch);
    info
}

} // verus!
