//! Native packages (`.pkg.tar.zst`) and their `.PKGINFO` metadata.
use crate::model::{Dependency, DependencyView, PackageFormat, PackageInfo, PkgError};
use crate::text::{
    all_values, chars_equal, chars_of, key_value, last_value, lines, or_empty, parse_u64,
    size_or_zero, split_key_value, string_of, trim, trimmed, views_of,
};
use vstd::prelude::*;
use vstd::string::StringExecFns;

verus! {

/// A `.PKGINFO` line: trimmed, blank and `#` lines skipped, split at the
/// first `=`.
pub open spec fn pkginfo_kv() -> spec_fn(Seq<char>) -> Option<(Seq<char>, Seq<char>)> {
    |l: Seq<char>| {
        let t = trim(l);
        if t.len() == 0 || t[0] == '#' {
            None
        } else {
            key_value(t, '=')
        }
    }
}

pub open spec fn plain_deps(names: Seq<Seq<char>>) -> Seq<DependencyView> {
    names.map_values(|n: Seq<char>| DependencyView { name: n, constraint: None })
}

proof fn lemma_pkginfo_keys_distinct()
    ensures
        "pkgname"@ != "pkgver"@,
        "pkgname"@ != "pkgdesc"@,
        "pkgname"@ != "url"@,
        "pkgname"@ != "size"@,
        "pkgname"@ != "arch"@,
        "pkgname"@ != "license"@,
        "pkgname"@ != "depend"@,
        "pkgname"@ != "conflict"@,
        "pkgname"@ != "provides"@,
        "pkgname"@ != "replaces"@,
        "pkgver"@ != "pkgdesc"@,
        "pkgver"@ != "url"@,
        "pkgver"@ != "size"@,
        "pkgver"@ != "arch"@,
        "pkgver"@ != "license"@,
        "pkgver"@ != "depend"@,
        "pkgver"@ != "conflict"@,
        "pkgver"@ != "provides"@,
        "pkgver"@ != "replaces"@,
        "pkgdesc"@ != "url"@,
        "pkgdesc"@ != "size"@,
        "pkgdesc"@ != "arch"@,
        "pkgdesc"@ != "license"@,
        "pkgdesc"@ != "depend"@,
        "pkgdesc"@ != "conflict"@,
        "pkgdesc"@ != "provides"@,
        "pkgdesc"@ != "replaces"@,
        "url"@ != "size"@,
        "url"@ != "arch"@,
        "url"@ != "license"@,
        "url"@ != "depend"@,
        "url"@ != "conflict"@,
        "url"@ != "provides"@,
        "url"@ != "replaces"@,
        "size"@ != "arch"@,
        "size"@ != "license"@,
        "size"@ != "depend"@,
        "size"@ != "conflict"@,
        "size"@ != "provides"@,
        "size"@ != "replaces"@,
        "arch"@ != "license"@,
        "arch"@ != "depend"@,
        "arch"@ != "conflict"@,
        "arch"@ != "provides"@,
        "arch"@ != "replaces"@,
        "license"@ != "depend"@,
        "license"@ != "conflict"@,
        "license"@ != "provides"@,
        "license"@ != "replaces"@,
        "depend"@ != "conflict"@,
        "depend"@ != "provides"@,
        "depend"@ != "replaces"@,
        "conflict"@ != "provides"@,
        "conflict"@ != "replaces"@,
        "provides"@ != "replaces"@,
{
    reveal_strlit("pkgname");
    reveal_strlit("pkgver");
    reveal_strlit("pkgdesc");
    reveal_strlit("url");
    reveal_strlit("size");
    reveal_strlit("arch");
    reveal_strlit("license");
    reveal_strlit("depend");
    reveal_strlit("conflict");
    reveal_strlit("provides");
    reveal_strlit("replaces");
    assert("pkgname"@[0] == 'p' && "pkgname"@[1] == 'k' && "pkgname"@[2] == 'g' && "pkgname"@[3] == 'n' && "pkgname"@[4] == 'a' && "pkgname"@[5] == 'm' && "pkgname"@[6] == 'e');
    assert("pkgver"@[0] == 'p' && "pkgver"@[1] == 'k' && "pkgver"@[2] == 'g' && "pkgver"@[3] == 'v' && "pkgver"@[4] == 'e' && "pkgver"@[5] == 'r');
    assert("pkgdesc"@[0] == 'p' && "pkgdesc"@[1] == 'k' && "pkgdesc"@[2] == 'g' && "pkgdesc"@[3] == 'd' && "pkgdesc"@[4] == 'e' && "pkgdesc"@[5] == 's' && "pkgdesc"@[6] == 'c');
    assert("url"@[0] == 'u' && "url"@[1] == 'r' && "url"@[2] == 'l');
    assert("size"@[0] == 's' && "size"@[1] == 'i' && "size"@[2] == 'z' && "size"@[3] == 'e');
    assert("arch"@[0] == 'a' && "arch"@[1] == 'r' && "arch"@[2] == 'c' && "arch"@[3] == 'h');
    assert("license"@[0] == 'l' && "license"@[1] == 'i' && "license"@[2] == 'c' && "license"@[3] == 'e' && "license"@[4] == 'n' && "license"@[5] == 's' && "license"@[6] == 'e');
    assert("depend"@[0] == 'd' && "depend"@[1] == 'e' && "depend"@[2] == 'p' && "depend"@[3] == 'e' && "depend"@[4] == 'n' && "depend"@[5] == 'd');
    assert("conflict"@[0] == 'c' && "conflict"@[1] == 'o' && "conflict"@[2] == 'n' && "conflict"@[3] == 'f' && "conflict"@[4] == 'l' && "conflict"@[5] == 'i' && "conflict"@[6] == 'c' && "conflict"@[7] == 't');
    assert("provides"@[0] == 'p' && "provides"@[1] == 'r' && "provides"@[2] == 'o' && "provides"@[3] == 'v' && "provides"@[4] == 'i' && "provides"@[5] == 'd' && "provides"@[6] == 'e' && "provides"@[7] == 's');
    assert("replaces"@[0] == 'r' && "replaces"@[1] == 'e' && "replaces"@[2] == 'p' && "replaces"@[3] == 'l' && "replaces"@[4] == 'a' && "replaces"@[5] == 'c' && "replaces"@[6] == 'e' && "replaces"@[7] == 's');
}


/// Parses `.PKGINFO` content into a native record. Single-valued keys
/// take their last value; `depend`, `conflict`, `provides` and `replaces`
/// collect every value in order; `size` is the installed size in bytes (0
/// when it does not parse).
pub fn parse_pkginfo(content: &str) -> (r: Result<PackageInfo, PkgError>)
    ensures
        r matches Ok(info) && ({
            let ls = crate::text::lines_of(content@);
            &&& info.name@ == or_empty(last_value(ls, pkginfo_kv(), "pkgname"@))
            &&& info.version@ == or_empty(last_value(ls, pkginfo_kv(), "pkgver"@))
            &&& info.description@ == or_empty(last_value(ls, pkginfo_kv(), "pkgdesc"@))
            &&& info.homepage@ == or_empty(last_value(ls, pkginfo_kv(), "url"@))
            &&& info.arch@ == or_empty(last_value(ls, pkginfo_kv(), "arch"@))
            &&& info.license@ == or_empty(last_value(ls, pkginfo_kv(), "license"@))
            &&& info.installed_size == match last_value(ls, pkginfo_kv(), "size"@) {
                Some(v) => size_or_zero(v),
                None => 0,
            }
            &&& crate::model::deps_view(info.dependencies@) == plain_deps(all_values(ls, pkginfo_kv(), "depend"@))
            &&& crate::model::strings_view(info.conflicts@) == all_values(ls, pkginfo_kv(), "conflict"@)
            &&& crate::model::strings_view(info.provides@) == all_values(ls, pkginfo_kv(), "provides"@)
            &&& crate::model::strings_view(info.replaces@) == all_values(ls, pkginfo_kv(), "replaces"@)
            &&& info.release == 1
            &&& info.format == PackageFormat::Native
            &&& info.maintainer@.len() == 0
            &&& info.size == 0
            &&& info.files@.len() == 0
            &&& info.checksum@.len() == 0
        }),
{
    let text = chars_of(content);
    let ls = lines(&text);
    let ghost lv = views_of(ls@);
    let mut info = crate::deb::blank_record(PackageFormat::Native);
    let mut i: usize = 0;
    while i < ls.len()
        invariant
            lv == views_of(ls@),
            lv == crate::text::lines_of(content@),
            i <= ls@.len(),
            info.name@ == or_empty(last_value(lv.subrange(0, i as int), pkginfo_kv(), "pkgname"@)),
            info.version@ == or_empty(last_value(lv.subrange(0, i as int), pkginfo_kv(), "pkgver"@)),
            info.description@ == or_empty(last_value(lv.subrange(0, i as int), pkginfo_kv(), "pkgdesc"@)),
            info.homepage@ == or_empty(last_value(lv.subrange(0, i as int), pkginfo_kv(), "url"@)),
            info.arch@ == or_empty(last_value(lv.subrange(0, i as int), pkginfo_kv(), "arch"@)),
            info.license@ == or_empty(last_value(lv.subrange(0, i as int), pkginfo_kv(), "license"@)),
            info.installed_size == match last_value(lv.subrange(0, i as int), pkginfo_kv(), "size"@) {
                Some(v) => size_or_zero(v),
                None => 0,
            },
            crate::model::deps_view(info.dependencies@) == plain_deps(all_values(lv.subrange(0, i as int), pkginfo_kv(), "depend"@)),
            crate::model::strings_view(info.conflicts@) == all_values(lv.subrange(0, i as int), pkginfo_kv(), "conflict"@),
            crate::model::strings_view(info.provides@) == all_values(lv.subrange(0, i as int), pkginfo_kv(), "provides"@),
            crate::model::strings_view(info.replaces@) == all_values(lv.subrange(0, i as int), pkginfo_kv(), "replaces"@),
            info.release == 1,
            info.format == PackageFormat::Native,
            info.maintainer@.len() == 0,
            info.size == 0,
            info.files@.len() == 0,
            info.checksum@.len() == 0,
        decreases ls@.len() - i,
    {
        proof {
            crate::text::lemma_last_value_step(lv, pkginfo_kv(), i as int);
            assert(lv[i as int] == ls@[i as int]@);
            lemma_pkginfo_keys_distinct();
        }
        let line = &ls[i];
        let t = trimmed(line, 0, line.len());
        proof {
            assert(line@.subrange(0, line@.len() as int) =~= line@);
        }
        if t.len() == 0 || t[0] == '#' {
            i = i + 1;
            continue;
        }
        match split_key_value(&t, '=') {
            Some((key, value)) => {
                if chars_equal(&key, "pkgname") {
                    info.name = string_of(value.as_slice());
                } else if chars_equal(&key, "pkgver") {
                    info.version = string_of(value.as_slice());
                } else if chars_equal(&key, "pkgdesc") {
                    info.description = string_of(value.as_slice());
                } else if chars_equal(&key, "url") {
                    info.homepage = string_of(value.as_slice());
                } else if chars_equal(&key, "size") {
                    info.installed_size = match parse_u64(&value) {
                        Some(n) => n,
                        None => 0,
                    };
                } else if chars_equal(&key, "arch") {
                    info.arch = string_of(value.as_slice());
                } else if chars_equal(&key, "license") {
                    info.license = string_of(value.as_slice());
                } else if chars_equal(&key, "depend") {
                    let ghost before = info.dependencies@;
                    info.dependencies.push(Dependency { name: string_of(value.as_slice()), version_constraint: None });
                    proof {
                        assert(crate::model::deps_view(info.dependencies@) =~= crate::model::deps_view(before).push(DependencyView { name: value@, constraint: None }));
                    }
                } else if chars_equal(&key, "conflict") {
                    let ghost before = info.conflicts@;
                    info.conflicts.push(string_of(value.as_slice()));
                    proof {
                        assert(crate::model::strings_view(info.conflicts@) =~= crate::model::strings_view(before).push(value@));
                    }
                } else if chars_equal(&key, "provides") {
                    let ghost before = info.provides@;
                    info.provides.push(string_of(value.as_slice()));
                    proof {
                        assert(crate::model::strings_view(info.provides@) =~= crate::model::strings_view(before).push(value@));
                    }
                } else if chars_equal(&key, "replaces") {
                    let ghost before = info.replaces@;
                    info.replaces.push(string_of(value.as_slice()));
                    proof {
                        assert(crate::model::strings_view(info.replaces@) =~= crate::model::strings_view(before).push(value@));
                    }
                }
            },
            None => {},
        }
        i = i + 1;
    }
    proof {
        assert(lv.subrange(0, ls@.len() as int) =~= lv);
    }
    Ok(info)
}


/// Describes a native package file by its stem (the file name without
/// its last extension): version 1.0.0 for x86_64, no other metadata.
pub fn parse_pkg(stem: &str) -> (r: Result<PackageInfo, PkgError>)
    ensures
        r matches Ok(info) && info.name@ == stem@ && info.version@ == "1.0.0"@ && info.arch@ == "x86_64"@
            && info.format == PackageFormat::Native && info.dependencies@.len() == 0,
{
    Ok(crate::deb::record_from_stem(stem, PackageFormat::Native, "x86_64"))
}

} // verus!
