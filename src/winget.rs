//! Winget (Windows) manifests and repository.
use crate::model::{
    deps_view, strings_view, Dependency, DependencyView, PackageFormat, PackageInfo, PackageView, PkgError,
    Repository,
};
use crate::text::{
    chars_equal, chars_of, key_value, lines, lines_of, lower_of, lowercase, matches_lowered, query_matches,
    slice_of, split_key_value, string_of, trim, trimmed, views_of,
};
use vstd::prelude::*;
use vstd::string::StringExecFns;

verus! {

pub const WINGET_MANIFEST_URL: &'static str = "https://cdn.winget.microsoft.com/cache";

pub const WINGET_GITHUB_URL: &'static str = "https://raw.githubusercontent.com/microsoft/winget-pkgs/master";

/// Installer technology of a Windows package.
#[derive(Debug, Clone, Copy, PartialEq, Eq, Structural)]
pub enum InstallerType {
    Msix,
    Msi,
    Exe,
    Zip,
    Inno,
    Nullsoft,
    Burn,
    Portable,
}

/// The installer type a lower-case name stands for; unknown names are
/// executables.
pub open spec fn installer_kind(l: Seq<char>) -> InstallerType {
    if l == "msix"@ || l == "appx"@ {
        InstallerType::Msix
    } else if l == "msi"@ {
        InstallerType::Msi
    } else if l == "exe"@ {
        InstallerType::Exe
    } else if l == "zip"@ {
        InstallerType::Zip
    } else if l == "inno"@ {
        InstallerType::Inno
    } else if l == "nullsoft"@ {
        InstallerType::Nullsoft
    } else if l == "burn"@ || l == "wix"@ {
        InstallerType::Burn
    } else if l == "portable"@ {
        InstallerType::Portable
    } else {
        InstallerType::Exe
    }
}

impl InstallerType {
    /// The installer type of an already lower-cased name.
    pub fn from_lowercase(l: &str) -> (r: InstallerType)
        ensures
            r == installer_kind(l@),
    {
        let c = chars_of(l);
        if chars_equal(&c, "msix") || chars_equal(&c, "appx") {
            InstallerType::Msix
        } else if chars_equal(&c, "msi") {
            InstallerType::Msi
        } else if chars_equal(&c, "exe") {
            InstallerType::Exe
        } else if chars_equal(&c, "zip") {
            InstallerType::Zip
        } else if chars_equal(&c, "inno") {
            InstallerType::Inno
        } else if chars_equal(&c, "nullsoft") {
            InstallerType::Nullsoft
        } else if chars_equal(&c, "burn") || chars_equal(&c, "wix") {
            InstallerType::Burn
        } else if chars_equal(&c, "portable") {
            InstallerType::Portable
        } else {
            InstallerType::Exe
        }
    }

    /// The installer type a name stands for, ignoring case.
    pub fn from_str(s: &str) -> (r: InstallerType)
        ensures
            r == installer_kind(lower_of(s@)),
    {
        let l = lowercase(s);
        InstallerType::from_lowercase(l.as_str())
    }
}

/// A Winget package manifest.
#[derive(Debug, Clone)]
pub struct WingetManifest {
    pub package_id: String,
    pub publisher: String,
    pub name: String,
    pub version: String,
    pub license: String,
    pub description: String,
    pub homepage: String,
    pub installer_type: InstallerType,
    pub installer_url: String,
    pub installer_sha256: String,
    pub architecture: String,
    pub dependencies: Vec<String>,
}

/// `s` without leading and trailing `c`s.
pub open spec fn strip_char(s: Seq<char>, c: char) -> Seq<char>
    decreases s.len(),
{
    if s.len() > 0 && s[0] == c {
        strip_char(s.drop_first(), c)
    } else if s.len() > 0 && s.last() == c {
        strip_char(s.drop_last(), c)
    } else {
        s
    }
}

fn strip_char_exec(s: &Vec<char>, c: char) -> (r: Vec<char>)
    ensures
        r@ == strip_char(s@, c),
{
    let mut a: usize = 0;
    let mut b: usize = s.len();
    proof {
        assert(s@.subrange(0, s@.len() as int) =~= s@);
    }
    while a < b && (s[a] == c || s[b - 1] == c)
        invariant
            a <= b <= s@.len(),
            strip_char(s@, c) == strip_char(s@.subrange(a as int, b as int), c),
        decreases b - a,
    {
        let ghost t = s@.subrange(a as int, b as int);
        if s[a] == c {
            proof {
                assert(t.drop_first() =~= s@.subrange(a + 1, b as int));
            }
            a = a + 1;
        } else {
            proof {
                assert(t.drop_last() =~= s@.subrange(a as int, b - 1));
            }
            b = b - 1;
        }
    }
    slice_of(s, a, b)
}

/// A manifest line: trimmed, split at the first `:`, the value stripped
/// of double and then single quotes.
pub open spec fn manifest_kv() -> spec_fn(Seq<char>) -> Option<(Seq<char>, Seq<char>)> {
    |l: Seq<char>| match key_value(trim(l), ':') {
        Some(p) => Some((p.0, strip_char(strip_char(p.1, '"'), '\''))),
        None => None,
    }
}

/// The value of the last line whose key is one of `keys`.
pub open spec fn last_in(
    ls: Seq<Seq<char>>,
    kv: spec_fn(Seq<char>) -> Option<(Seq<char>, Seq<char>)>,
    keys: Seq<Seq<char>>,
) -> Option<Seq<char>>
    decreases ls.len(),
{
    if ls.len() == 0 {
        None
    } else {
        match kv(ls.last()) {
            Some(p) => if keys.contains(p.0) {
                Some(p.1)
            } else {
                last_in(ls.drop_last(), kv, keys)
            },
            None => last_in(ls.drop_last(), kv, keys),
        }
    }
}

pub open spec fn value_or(v: Option<Seq<char>>, d: Seq<char>) -> Seq<char> {
    match v {
        Some(x) => x,
        None => d,
    }
}

proof fn lemma_manifest_keys_distinct()
    ensures
        "PackageIdentifier"@ != "Id"@,
        "PackageIdentifier"@ != "Publisher"@,
        "PackageIdentifier"@ != "PackageName"@,
        "PackageIdentifier"@ != "Name"@,
        "PackageIdentifier"@ != "PackageVersion"@,
        "PackageIdentifier"@ != "Version"@,
        "PackageIdentifier"@ != "License"@,
        "PackageIdentifier"@ != "ShortDescription"@,
        "PackageIdentifier"@ != "Description"@,
        "PackageIdentifier"@ != "PackageUrl"@,
        "PackageIdentifier"@ != "Homepage"@,
        "PackageIdentifier"@ != "InstallerUrl"@,
        "PackageIdentifier"@ != "InstallerSha256"@,
        "PackageIdentifier"@ != "Sha256"@,
        "PackageIdentifier"@ != "Architecture"@,
        "PackageIdentifier"@ != "InstallerType"@,
        "Id"@ != "Publisher"@,
        "Id"@ != "PackageName"@,
        "Id"@ != "Name"@,
        "Id"@ != "PackageVersion"@,
        "Id"@ != "Version"@,
        "Id"@ != "License"@,
        "Id"@ != "ShortDescription"@,
        "Id"@ != "Description"@,
        "Id"@ != "PackageUrl"@,
        "Id"@ != "Homepage"@,
        "Id"@ != "InstallerUrl"@,
        "Id"@ != "InstallerSha256"@,
        "Id"@ != "Sha256"@,
        "Id"@ != "Architecture"@,
        "Id"@ != "InstallerType"@,
        "Publisher"@ != "PackageName"@,
        "Publisher"@ != "Name"@,
        "Publisher"@ != "PackageVersion"@,
        "Publisher"@ != "Version"@,
        "Publisher"@ != "License"@,
        "Publisher"@ != "ShortDescription"@,
        "Publisher"@ != "Description"@,
        "Publisher"@ != "PackageUrl"@,
        "Publisher"@ != "Homepage"@,
        "Publisher"@ != "InstallerUrl"@,
        "Publisher"@ != "InstallerSha256"@,
        "Publisher"@ != "Sha256"@,
        "Publisher"@ != "Architecture"@,
        "Publisher"@ != "InstallerType"@,
        "PackageName"@ != "Name"@,
        "PackageName"@ != "PackageVersion"@,
        "PackageName"@ != "Version"@,
        "PackageName"@ != "License"@,
        "PackageName"@ != "ShortDescription"@,
        "PackageName"@ != "Description"@,
        "PackageName"@ != "PackageUrl"@,
        "PackageName"@ != "Homepage"@,
        "PackageName"@ != "InstallerUrl"@,
        "PackageName"@ != "InstallerSha256"@,
        "PackageName"@ != "Sha256"@,
        "PackageName"@ != "Architecture"@,
        "PackageName"@ != "InstallerType"@,
        "Name"@ != "PackageVersion"@,
        "Name"@ != "Version"@,
        "Name"@ != "License"@,
        "Name"@ != "ShortDescription"@,
        "Name"@ != "Description"@,
        "Name"@ != "PackageUrl"@,
        "Name"@ != "Homepage"@,
        "Name"@ != "InstallerUrl"@,
        "Name"@ != "InstallerSha256"@,
        "Name"@ != "Sha256"@,
        "Name"@ != "Architecture"@,
        "Name"@ != "InstallerType"@,
        "PackageVersion"@ != "Version"@,
        "PackageVersion"@ != "License"@,
        "PackageVersion"@ != "ShortDescription"@,
        "PackageVersion"@ != "Description"@,
        "PackageVersion"@ != "PackageUrl"@,
        "PackageVersion"@ != "Homepage"@,
        "PackageVersion"@ != "InstallerUrl"@,
        "PackageVersion"@ != "InstallerSha256"@,
        "PackageVersion"@ != "Sha256"@,
        "PackageVersion"@ != "Architecture"@,
        "PackageVersion"@ != "InstallerType"@,
        "Version"@ != "License"@,
        "Version"@ != "ShortDescription"@,
        "Version"@ != "Description"@,
        "Version"@ != "PackageUrl"@,
        "Version"@ != "Homepage"@,
        "Version"@ != "InstallerUrl"@,
        "Version"@ != "InstallerSha256"@,
        "Version"@ != "Sha256"@,
        "Version"@ != "Architecture"@,
        "Version"@ != "InstallerType"@,
        "License"@ != "ShortDescription"@,
        "License"@ != "Description"@,
        "License"@ != "PackageUrl"@,
        "License"@ != "Homepage"@,
        "License"@ != "InstallerUrl"@,
        "License"@ != "InstallerSha256"@,
        "License"@ != "Sha256"@,
        "License"@ != "Architecture"@,
        "License"@ != "InstallerType"@,
        "ShortDescription"@ != "Description"@,
        "ShortDescription"@ != "PackageUrl"@,
        "ShortDescription"@ != "Homepage"@,
        "ShortDescription"@ != "InstallerUrl"@,
        "ShortDescription"@ != "InstallerSha256"@,
        "ShortDescription"@ != "Sha256"@,
        "ShortDescription"@ != "Architecture"@,
        "ShortDescription"@ != "InstallerType"@,
        "Description"@ != "PackageUrl"@,
        "Description"@ != "Homepage"@,
        "Description"@ != "InstallerUrl"@,
        "Description"@ != "InstallerSha256"@,
        "Description"@ != "Sha256"@,
        "Description"@ != "Architecture"@,
        "Description"@ != "InstallerType"@,
        "PackageUrl"@ != "Homepage"@,
        "PackageUrl"@ != "InstallerUrl"@,
        "PackageUrl"@ != "InstallerSha256"@,
        "PackageUrl"@ != "Sha256"@,
        "PackageUrl"@ != "Architecture"@,
        "PackageUrl"@ != "InstallerType"@,
        "Homepage"@ != "InstallerUrl"@,
        "Homepage"@ != "InstallerSha256"@,
        "Homepage"@ != "Sha256"@,
        "Homepage"@ != "Architecture"@,
        "Homepage"@ != "InstallerType"@,
        "InstallerUrl"@ != "InstallerSha256"@,
        "InstallerUrl"@ != "Sha256"@,
        "InstallerUrl"@ != "Architecture"@,
        "InstallerUrl"@ != "InstallerType"@,
        "InstallerSha256"@ != "Sha256"@,
        "InstallerSha256"@ != "Architecture"@,
        "InstallerSha256"@ != "InstallerType"@,
        "Sha256"@ != "Architecture"@,
        "Sha256"@ != "InstallerType"@,
        "Architecture"@ != "InstallerType"@,
{
    reveal_strlit("PackageIdentifier");
    reveal_strlit("Id");
    reveal_strlit("Publisher");
    reveal_strlit("PackageName");
    reveal_strlit("Name");
    reveal_strlit("PackageVersion");
    reveal_strlit("Version");
    reveal_strlit("License");
    reveal_strlit("ShortDescription");
    reveal_strlit("Description");
    reveal_strlit("PackageUrl");
    reveal_strlit("Homepage");
    reveal_strlit("InstallerUrl");
    reveal_strlit("InstallerSha256");
    reveal_strlit("Sha256");
    reveal_strlit("Architecture");
    reveal_strlit("InstallerType");
    assert("PackageIdentifier"@[0] == 'P' && "PackageIdentifier"@[1] == 'a' && "PackageIdentifier"@[2] == 'c' && "PackageIdentifier"@[3] == 'k' && "PackageIdentifier"@[4] == 'a' && "PackageIdentifier"@[5] == 'g' && "PackageIdentifier"@[6] == 'e' && "PackageIdentifier"@[7] == 'I' && "PackageIdentifier"@[8] == 'd' && "PackageIdentifier"@[9] == 'e' && "PackageIdentifier"@[10] == 'n' && "PackageIdentifier"@[11] == 't' && "PackageIdentifier"@[12] == 'i' && "PackageIdentifier"@[13] == 'f' && "PackageIdentifier"@[14] == 'i' && "PackageIdentifier"@[15] == 'e' && "PackageIdentifier"@[16] == 'r');
    assert("Id"@[0] == 'I' && "Id"@[1] == 'd');
    assert("Publisher"@[0] == 'P' && "Publisher"@[1] == 'u' && "Publisher"@[2] == 'b' && "Publisher"@[3] == 'l' && "Publisher"@[4] == 'i' && "Publisher"@[5] == 's' && "Publisher"@[6] == 'h' && "Publisher"@[7] == 'e' && "Publisher"@[8] == 'r');
    assert("PackageName"@[0] == 'P' && "PackageName"@[1] == 'a' && "PackageName"@[2] == 'c' && "PackageName"@[3] == 'k' && "PackageName"@[4] == 'a' && "PackageName"@[5] == 'g' && "PackageName"@[6] == 'e' && "PackageName"@[7] == 'N' && "PackageName"@[8] == 'a' && "PackageName"@[9] == 'm' && "PackageName"@[10] == 'e');
    assert("Name"@[0] == 'N' && "Name"@[1] == 'a' && "Name"@[2] == 'm' && "Name"@[3] == 'e');
    assert("PackageVersion"@[0] == 'P' && "PackageVersion"@[1] == 'a' && "PackageVersion"@[2] == 'c' && "PackageVersion"@[3] == 'k' && "PackageVersion"@[4] == 'a' && "PackageVersion"@[5] == 'g' && "PackageVersion"@[6] == 'e' && "PackageVersion"@[7] == 'V' && "PackageVersion"@[8] == 'e' && "PackageVersion"@[9] == 'r' && "PackageVersion"@[10] == 's' && "PackageVersion"@[11] == 'i' && "PackageVersion"@[12] == 'o' && "PackageVersion"@[13] == 'n');
    assert("Version"@[0] == 'V' && "Version"@[1] == 'e' && "Version"@[2] == 'r' && "Version"@[3] == 's' && "Version"@[4] == 'i' && "Version"@[5] == 'o' && "Version"@[6] == 'n');
    assert("License"@[0] == 'L' && "License"@[1] == 'i' && "License"@[2] == 'c' && "License"@[3] == 'e' && "License"@[4] == 'n' && "License"@[5] == 's' && "License"@[6] == 'e');
    assert("ShortDescription"@[0] == 'S' && "ShortDescription"@[1] == 'h' && "ShortDescription"@[2] == 'o' && "ShortDescription"@[3] == 'r' && "ShortDescription"@[4] == 't' && "ShortDescription"@[5] == 'D' && "ShortDescription"@[6] == 'e' && "ShortDescription"@[7] == 's' && "ShortDescription"@[8] == 'c' && "ShortDescription"@[9] == 'r' && "ShortDescription"@[10] == 'i' && "ShortDescription"@[11] == 'p' && "ShortDescription"@[12] == 't' && "ShortDescription"@[13] == 'i' && "ShortDescription"@[14] == 'o' && "ShortDescription"@[15] == 'n');
    assert("Description"@[0] == 'D' && "Description"@[1] == 'e' && "Description"@[2] == 's' && "Description"@[3] == 'c' && "Description"@[4] == 'r' && "Description"@[5] == 'i' && "Description"@[6] == 'p' && "Description"@[7] == 't' && "Description"@[8] == 'i' && "Description"@[9] == 'o' && "Description"@[10] == 'n');
    assert("PackageUrl"@[0] == 'P' && "PackageUrl"@[1] == 'a' && "PackageUrl"@[2] == 'c' && "PackageUrl"@[3] == 'k' && "PackageUrl"@[4] == 'a' && "PackageUrl"@[5] == 'g' && "PackageUrl"@[6] == 'e' && "PackageUrl"@[7] == 'U' && "PackageUrl"@[8] == 'r' && "PackageUrl"@[9] == 'l');
    assert("Homepage"@[0] == 'H' && "Homepage"@[1] == 'o' && "Homepage"@[2] == 'm' && "Homepage"@[3] == 'e' && "Homepage"@[4] == 'p' && "Homepage"@[5] == 'a' && "Homepage"@[6] == 'g' && "Homepage"@[7] == 'e');
    assert("InstallerUrl"@[0] == 'I' && "InstallerUrl"@[1] == 'n' && "InstallerUrl"@[2] == 's' && "InstallerUrl"@[3] == 't' && "InstallerUrl"@[4] == 'a' && "InstallerUrl"@[5] == 'l' && "InstallerUrl"@[6] == 'l' && "InstallerUrl"@[7] == 'e' && "InstallerUrl"@[8] == 'r' && "InstallerUrl"@[9] == 'U' && "InstallerUrl"@[10] == 'r' && "InstallerUrl"@[11] == 'l');
    assert("InstallerSha256"@[0] == 'I' && "InstallerSha256"@[1] == 'n' && "InstallerSha256"@[2] == 's' && "InstallerSha256"@[3] == 't' && "InstallerSha256"@[4] == 'a' && "InstallerSha256"@[5] == 'l' && "InstallerSha256"@[6] == 'l' && "InstallerSha256"@[7] == 'e' && "InstallerSha256"@[8] == 'r' && "InstallerSha256"@[9] == 'S' && "InstallerSha256"@[10] == 'h' && "InstallerSha256"@[11] == 'a' && "InstallerSha256"@[12] == '2' && "InstallerSha256"@[13] == '5' && "InstallerSha256"@[14] == '6');
    assert("Sha256"@[0] == 'S' && "Sha256"@[1] == 'h' && "Sha256"@[2] == 'a' && "Sha256"@[3] == '2' && "Sha256"@[4] == '5' && "Sha256"@[5] == '6');
    assert("Architecture"@[0] == 'A' && "Architecture"@[1] == 'r' && "Architecture"@[2] == 'c' && "Architecture"@[3] == 'h' && "Architecture"@[4] == 'i' && "Architecture"@[5] == 't' && "Architecture"@[6] == 'e' && "Architecture"@[7] == 'c' && "Architecture"@[8] == 't' && "Architecture"@[9] == 'u' && "Architecture"@[10] == 'r' && "Architecture"@[11] == 'e');
    assert("InstallerType"@[0] == 'I' && "InstallerType"@[1] == 'n' && "InstallerType"@[2] == 's' && "InstallerType"@[3] == 't' && "InstallerType"@[4] == 'a' && "InstallerType"@[5] == 'l' && "InstallerType"@[6] == 'l' && "InstallerType"@[7] == 'e' && "InstallerType"@[8] == 'r' && "InstallerType"@[9] == 'T' && "InstallerType"@[10] == 'y' && "InstallerType"@[11] == 'p' && "InstallerType"@[12] == 'e');
}


/// Parses a Winget YAML manifest line by line. Each field takes its last
/// value under any of its key names; the package identifier is required.
pub fn parse_manifest(yaml_content: &str) -> (r: Result<WingetManifest, PkgError>)
    ensures
        ({
            let ls = lines_of(yaml_content@);
            let id = value_or(last_in(ls, manifest_kv(), seq!["PackageIdentifier"@, "Id"@]), Seq::empty());
            &&& id.len() == 0 ==> (r matches Err(PkgError::ExtractionError(e)) && e@ == "Missing PackageIdentifier"@)
            &&& id.len() > 0 ==> (r matches Ok(m) && ({
            &&& m.package_id@ == value_or(last_in(ls, manifest_kv(), seq!["PackageIdentifier"@, "Id"@]), Seq::empty())
            &&& m.publisher@ == value_or(last_in(ls, manifest_kv(), seq!["Publisher"@]), Seq::empty())
            &&& m.name@ == value_or(last_in(ls, manifest_kv(), seq!["PackageName"@, "Name"@]), Seq::empty())
            &&& m.version@ == value_or(last_in(ls, manifest_kv(), seq!["PackageVersion"@, "Version"@]), Seq::empty())
            &&& m.license@ == value_or(last_in(ls, manifest_kv(), seq!["License"@]), Seq::empty())
            &&& m.description@ == value_or(last_in(ls, manifest_kv(), seq!["ShortDescription"@, "Description"@]), Seq::empty())
            &&& m.homepage@ == value_or(last_in(ls, manifest_kv(), seq!["PackageUrl"@, "Homepage"@]), Seq::empty())
            &&& m.installer_url@ == value_or(last_in(ls, manifest_kv(), seq!["InstallerUrl"@]), Seq::empty())
            &&& m.installer_sha256@ == value_or(last_in(ls, manifest_kv(), seq!["InstallerSha256"@, "Sha256"@]), Seq::empty())
            &&& m.architecture@ == value_or(last_in(ls, manifest_kv(), seq!["Architecture"@]), "x64"@)
            &&& m.installer_type == match last_in(ls, manifest_kv(), seq!["InstallerType"@]) {
                Some(v) => installer_kind(lower_of(v)),
                None => InstallerType::Exe,
            }
            &&& m.dependencies@.len() == 0
            }))
        }),
{
    let text = chars_of(yaml_content);
    let ls = lines(&text);
    let ghost lv = views_of(ls@);
    let mut manifest = WingetManifest {
        package_id: String::new(),
        publisher: String::new(),
        name: String::new(),
        version: String::new(),
        license: String::new(),
        description: String::new(),
        homepage: String::new(),
        installer_type: InstallerType::Exe,
        installer_url: String::new(),
        installer_sha256: String::new(),
        architecture: String::from_str("x64"),
        dependencies: Vec::new(),
    };
    let mut i: usize = 0;
    while i < ls.len()
        invariant
            lv == views_of(ls@),
            lv == lines_of(yaml_content@),
            i <= ls@.len(),
            manifest.package_id@ == value_or(last_in(lv.subrange(0, i as int), manifest_kv(), seq!["PackageIdentifier"@, "Id"@]), Seq::empty()),
            manifest.publisher@ == value_or(last_in(lv.subrange(0, i as int), manifest_kv(), seq!["Publisher"@]), Seq::empty()),
            manifest.name@ == value_or(last_in(lv.subrange(0, i as int), manifest_kv(), seq!["PackageName"@, "Name"@]), Seq::empty()),
            manifest.version@ == value_or(last_in(lv.subrange(0, i as int), manifest_kv(), seq!["PackageVersion"@, "Version"@]), Seq::empty()),
            manifest.license@ == value_or(last_in(lv.subrange(0, i as int), manifest_kv(), seq!["License"@]), Seq::empty()),
            manifest.description@ == value_or(last_in(lv.subrange(0, i as int), manifest_kv(), seq!["ShortDescription"@, "Description"@]), Seq::empty()),
            manifest.homepage@ == value_or(last_in(lv.subrange(0, i as int), manifest_kv(), seq!["PackageUrl"@, "Homepage"@]), Seq::empty()),
            manifest.installer_url@ == value_or(last_in(lv.subrange(0, i as int), manifest_kv(), seq!["InstallerUrl"@]), Seq::empty()),
            manifest.installer_sha256@ == value_or(last_in(lv.subrange(0, i as int), manifest_kv(), seq!["InstallerSha256"@, "Sha256"@]), Seq::empty()),
            manifest.architecture@ == value_or(last_in(lv.subrange(0, i as int), manifest_kv(), seq!["Architecture"@]), "x64"@),
            manifest.installer_type == match last_in(lv.subrange(0, i as int), manifest_kv(), seq!["InstallerType"@]) {
                Some(v) => installer_kind(lower_of(v)),
                None => InstallerType::Exe,
            },
            manifest.dependencies@.len() == 0,
        decreases ls@.len() - i,
    {
        proof {
            assert(lv.subrange(0, i + 1).drop_last() =~= lv.subrange(0, i as int));
            assert(lv.subrange(0, i + 1).last() == ls@[i as int]@);
            lemma_manifest_keys_distinct();
            {
                let ks = seq!["PackageIdentifier"@, "Id"@];
                assert forall|k: Seq<char>| #[trigger] ks.contains(k) == (k == "PackageIdentifier"@ || k == "Id"@) by { if k == "PackageIdentifier"@ { assert(ks[0] == k); } if k == "Id"@ { assert(ks[1] == k); } }
            }
            {
                let ks = seq!["Publisher"@];
                assert forall|k: Seq<char>| #[trigger] ks.contains(k) == (k == "Publisher"@) by { if k == "Publisher"@ { assert(ks[0] == k); } }
            }
            {
                let ks = seq!["PackageName"@, "Name"@];
                assert forall|k: Seq<char>| #[trigger] ks.contains(k) == (k == "PackageName"@ || k == "Name"@) by { if k == "PackageName"@ { assert(ks[0] == k); } if k == "Name"@ { assert(ks[1] == k); } }
            }
            {
                let ks = seq!["PackageVersion"@, "Version"@];
                assert forall|k: Seq<char>| #[trigger] ks.contains(k) == (k == "PackageVersion"@ || k == "Version"@) by { if k == "PackageVersion"@ { assert(ks[0] == k); } if k == "Version"@ { assert(ks[1] == k); } }
            }
            {
                let ks = seq!["License"@];
                assert forall|k: Seq<char>| #[trigger] ks.contains(k) == (k == "License"@) by { if k == "License"@ { assert(ks[0] == k); } }
            }
            {
                let ks = seq!["ShortDescription"@, "Description"@];
                assert forall|k: Seq<char>| #[trigger] ks.contains(k) == (k == "ShortDescription"@ || k == "Description"@) by { if k == "ShortDescription"@ { assert(ks[0] == k); } if k == "Description"@ { assert(ks[1] == k); } }
            }
            {
                let ks = seq!["PackageUrl"@, "Homepage"@];
                assert forall|k: Seq<char>| #[trigger] ks.contains(k) == (k == "PackageUrl"@ || k == "Homepage"@) by { if k == "PackageUrl"@ { assert(ks[0] == k); } if k == "Homepage"@ { assert(ks[1] == k); } }
            }
            {
                let ks = seq!["InstallerUrl"@];
                assert forall|k: Seq<char>| #[trigger] ks.contains(k) == (k == "InstallerUrl"@) by { if k == "InstallerUrl"@ { assert(ks[0] == k); } }
            }
            {
                let ks = seq!["InstallerSha256"@, "Sha256"@];
                assert forall|k: Seq<char>| #[trigger] ks.contains(k) == (k == "InstallerSha256"@ || k == "Sha256"@) by { if k == "InstallerSha256"@ { assert(ks[0] == k); } if k == "Sha256"@ { assert(ks[1] == k); } }
            }
            {
                let ks = seq!["Architecture"@];
                assert forall|k: Seq<char>| #[trigger] ks.contains(k) == (k == "Architecture"@) by { if k == "Architecture"@ { assert(ks[0] == k); } }
            }
            {
                let ks = seq!["InstallerType"@];
                assert forall|k: Seq<char>| #[trigger] ks.contains(k) == (k == "InstallerType"@) by { if k == "InstallerType"@ { assert(ks[0] == k); } }
            }
        }
        let line = &ls[i];
        let t = trimmed(line, 0, line.len());
        proof {
            assert(line@.subrange(0, line@.len() as int) =~= line@);
        }
        match split_key_value(&t, ':') {
            Some((key, raw)) => {
                let v1 = strip_char_exec(&raw, '"');
                let value = strip_char_exec(&v1, '\'');
                if chars_equal(&key, "PackageIdentifier") || chars_equal(&key, "Id") {
                    manifest.package_id = string_of(value.as_slice());
                } else if chars_equal(&key, "Publisher") {
                    manifest.publisher = string_of(value.as_slice());
                } else if chars_equal(&key, "PackageName") || chars_equal(&key, "Name") {
                    manifest.name = string_of(value.as_slice());
                } else if chars_equal(&key, "PackageVersion") || chars_equal(&key, "Version") {
                    manifest.version = string_of(value.as_slice());
                } else if chars_equal(&key, "License") {
                    manifest.license = string_of(value.as_slice());
                } else if chars_equal(&key, "ShortDescription") || chars_equal(&key, "Description") {
                    manifest.description = string_of(value.as_slice());
                } else if chars_equal(&key, "PackageUrl") || chars_equal(&key, "Homepage") {
                    manifest.homepage = string_of(value.as_slice());
                } else if chars_equal(&key, "InstallerUrl") {
                    manifest.installer_url = string_of(value.as_slice());
                } else if chars_equal(&key, "InstallerSha256") || chars_equal(&key, "Sha256") {
                    manifest.installer_sha256 = string_of(value.as_slice());
                } else if chars_equal(&key, "Architecture") {
                    manifest.architecture = string_of(value.as_slice());
                } else if chars_equal(&key, "InstallerType") {
                    let vs = string_of(value.as_slice());
                    manifest.installer_type = InstallerType::from_str(vs.as_str());
                }
            },
            None => {},
        }
        i = i + 1;
    }
    proof {
        assert(lv.subrange(0, ls@.len() as int) =~= lv);
    }
    if manifest.package_id.as_str().is_empty() {
        return Err(PkgError::ExtractionError(String::from_str("Missing PackageIdentifier")));
    }
    Ok(manifest)
}

/// The package format of an installer type.
pub open spec fn installer_format(t: InstallerType) -> PackageFormat {
    match t {
        InstallerType::Msix => PackageFormat::Msix,
        _ => PackageFormat::Msi,
    }
}

/// The canonical record of a manifest.
pub open spec fn winget_record(m: WingetManifest) -> PackageView {
    PackageView {
        name: m.package_id@,
        version: m.version@,
        release: 1,
        arch: m.architecture@,
        format: installer_format(m.installer_type),
        description: m.description@,
        maintainer: m.publisher@,
        license: m.license@,
        homepage: m.homepage@,
        size: 0,
        installed_size: 0,
        dependencies: strings_view(m.dependencies@).map_values(|n: Seq<char>| DependencyView { name: n, constraint: None }),
        conflicts: Seq::empty(),
        provides: Seq::empty(),
        replaces: Seq::empty(),
        files: Seq::empty(),
        checksum: m.installer_sha256@,
    }
}

impl PackageInfo {
    /// The canonical record of a Winget manifest.
    pub fn from_winget(manifest: WingetManifest) -> (r: PackageInfo)
        ensures
            r@ == winget_record(manifest),
    {
        let ghost mv = manifest;
        let format = match manifest.installer_type {
            InstallerType::Msix => PackageFormat::Msix,
            _ => PackageFormat::Msi,
        };
        let mut deps: Vec<Dependency> = Vec::new();
        let mut i: usize = 0;
        while i < manifest.dependencies.len()
            invariant
                i <= manifest.dependencies@.len(),
                deps_view(deps@) == strings_view(manifest.dependencies@.subrange(0, i as int)).map_values(|n: Seq<char>| DependencyView { name: n, constraint: None }),
            decreases manifest.dependencies@.len() - i,
        {
            let ghost before = deps@;
            deps.push(Dependency { name: manifest.dependencies[i].clone(), version_constraint: None });
            proof {
                assert(strings_view(manifest.dependencies@.subrange(0, i + 1)) =~= strings_view(manifest.dependencies@.subrange(0, i as int)).push(manifest.dependencies@[i as int]@));
                assert(deps_view(deps@) =~= deps_view(before).push(DependencyView { name: manifest.dependencies@[i as int]@, constraint: None }));
                assert(deps_view(deps@) =~= strings_view(manifest.dependencies@.subrange(0, i + 1)).map_values(|n: Seq<char>| DependencyView { name: n, constraint: None }));
            }
            i = i + 1;
        }
        proof {
            assert(manifest.dependencies@.subrange(0, manifest.dependencies@.len() as int) =~= manifest.dependencies@);
        }
        let r = PackageInfo {
            name: manifest.package_id,
            version: manifest.version,
            release: 1,
            arch: manifest.architecture,
            format,
            description: manifest.description,
            maintainer: manifest.publisher,
            license: manifest.license,
            homepage: manifest.homepage,
            size: 0,
            installed_size: 0,
            dependencies: deps,
            conflicts: Vec::new(),
            provides: Vec::new(),
            replaces: Vec::new(),
            files: Vec::new(),
            checksum: manifest.installer_sha256,
        };
        proof {
            assert(strings_view(r.conflicts@) =~= Seq::<Seq<char>>::empty());
            assert(strings_view(r.provides@) =~= Seq::<Seq<char>>::empty());
            assert(strings_view(r.replaces@) =~= Seq::<Seq<char>>::empty());
            assert(strings_view(r.files@) =~= Seq::<Seq<char>>::empty());
            assert(r@ =~= winget_record(mv));
        }
        r
    }
}

impl From<WingetManifest> for PackageInfo {
    fn from(manifest: WingetManifest) -> PackageInfo {
        PackageInfo::from_winget(manifest)
    }
}

impl vstd::std_specs::convert::FromSpecImpl<WingetManifest> for PackageInfo {
    open spec fn obeys_from_spec() -> bool {
        false
    }

    open spec fn from_spec(v: WingetManifest) -> PackageInfo {
        vstd::pervasive::arbitrary()
    }
}

/// `q` occurs, ignoring case, in the identifier, name or description.
pub open spec fn manifest_matches(q: Seq<char>, m: WingetManifest) -> bool {
    query_matches(q, m.package_id@, m.name@) || query_matches(q, m.description@, m.description@)
}

/// Winget repository: the index location and the manifests read, one per
/// package identifier.
pub struct WingetRepository {
    cache: Vec<WingetManifest>,
    index_url: String,
}

impl WingetRepository {
    pub closed spec fn manifests(&self) -> Seq<WingetManifest> {
        self.cache@
    }

    pub closed spec fn index_url(&self) -> Seq<char> {
        self.index_url@
    }

    /// A repository with no manifests read yet.
    pub fn new() -> (r: WingetRepository)
        ensures
            r.manifests().len() == 0,
            r.index_url() == WINGET_MANIFEST_URL@,
    {
        WingetRepository { cache: Vec::new(), index_url: String::from_str(WINGET_MANIFEST_URL) }
    }

    /// Reading the index is the transport's part; nothing here can fail.
    pub fn sync(&mut self) -> (r: Result<(), PkgError>)
        ensures
            r is Ok,
            final(self).manifests() == old(self).manifests(),
    {
        Ok(())
    }

    /// Manifests whose identifier, name or description contains `query`,
    /// ignoring case.
    pub fn search(&self, query: &str) -> (r: Vec<&WingetManifest>)
        ensures
            crate::text::derefs(r@) == self.manifests().filter(winget_query(query@)),
            forall|k: int| 0 <= k < r@.len() ==> self.manifests().contains(*r@[k]),
            forall|k: int| 0 <= k < r@.len() ==> manifest_matches(query@, *r@[k]),
            forall|j: int| 0 <= j < self.manifests().len() && manifest_matches(query@, self.manifests()[j])
                ==> exists|k: int| 0 <= k < r@.len() && r@[k] == &self.manifests()[j],
    {
        let q = lowercase(query);
        let mut out: Vec<&WingetManifest> = Vec::new();
        proof {
            crate::text::lemma_filter_empty(self.cache@, winget_query(query@));
        }
        let mut i: usize = 0;
        while i < self.cache.len()
            invariant
                q@ == lower_of(query@),
                i <= self.cache@.len(),
                crate::text::derefs(out@) == self.cache@.subrange(0, i as int).filter(winget_query(query@)),
                forall|k: int| 0 <= k < out@.len() ==> self.cache@.contains(*out@[k]),
                forall|k: int| 0 <= k < out@.len() ==> manifest_matches(query@, *out@[k]),
                forall|j: int| 0 <= j < i && manifest_matches(query@, self.cache@[j])
                    ==> exists|k: int| 0 <= k < out@.len() && out@[k] == &self.cache@[j],
            decreases self.cache@.len() - i,
        {
            let m = &self.cache[i];
            proof {
                crate::text::lemma_filter_step(self.cache@, i as int, winget_query(query@));
            }
            if matches_lowered(q.as_str(), m.package_id.as_str(), m.name.as_str())
                || matches_lowered(q.as_str(), m.description.as_str(), m.description.as_str()) {
                let ghost before = out@;
                out.push(m);
                proof {
                    crate::text::lemma_derefs_push(before, m);
                    assert(out@[before.len() as int] == m);
                    assert forall|j: int| 0 <= j < i && manifest_matches(query@, self.cache@[j])
                        implies exists|k: int| 0 <= k < out@.len() && out@[k] == &self.cache@[j] by {
                        let k = choose|k: int| 0 <= k < before.len() && before[k] == &self.cache@[j];
                        assert(out@[k] == before[k]);
                    }
                }
            }
            i = i + 1;
        }
        proof {
            assert(self.cache@.subrange(0, self.cache@.len() as int) =~= self.cache@);
        }
        out
    }

    /// The manifest of `package_id`, if read.
    pub fn get(&self, package_id: &str) -> (r: Option<&WingetManifest>)
        ensures
            r is None ==> forall|j: int| 0 <= j < self.manifests().len() ==> self.manifests()[j].package_id@ != package_id@,
            r matches Some(m) ==> self.manifests().contains(*m) && m.package_id@ == package_id@,
            r matches Some(m) ==> exists|j: int|
                0 <= j < self.manifests().len() && *m == self.manifests()[j] && forall|k: int|
                    0 <= k < j ==> self.manifests()[k].package_id@ != package_id@,
    {
        let key = String::from_str(package_id);
        let mut i: usize = 0;
        while i < self.cache.len()
            invariant
                i <= self.cache@.len(),
                key@ == package_id@,
                forall|k: int| 0 <= k < i ==> self.cache@[k].package_id@ != package_id@,
            decreases self.cache@.len() - i,
        {
            if self.cache[i].package_id == key {
                let found = &self.cache[i];
                proof {
                    assert(self.manifests()[i as int] == *found);
                    assert(*found == self.manifests()[i as int] && forall|k: int|
                        0 <= k < i ==> self.manifests()[k].package_id@ != package_id@);
                }
                return Some(found);
            }
            i = i + 1;
        }
        None
    }

    /// The installer URL of a manifest.
    pub fn get_download_url(&self, manifest: &WingetManifest) -> (r: String)
        ensures
            r@ == manifest.installer_url@,
    {
        manifest.installer_url.clone()
    }
}

impl Default for WingetRepository {
    fn default() -> (r: WingetRepository)
        ensures
            r.manifests().len() == 0,
    {
        WingetRepository::new()
    }
}

/// Repository configuration of the Winget community index.
pub fn create_winget_repo() -> (r: Repository)
    ensures
        r.name@ == "winget"@,
        r.url@ == WINGET_MANIFEST_URL@,
        r.format == PackageFormat::Msix,
        r.enabled,
        r.gpg_key is None,
        r.priority == 50,
{
    Repository {
        name: String::from_str("winget"),
        url: String::from_str(WINGET_MANIFEST_URL),
        format: PackageFormat::Msix,
        enabled: true,
        gpg_key: None,
        priority: 50,
    }
}


impl WingetManifest {
    /// Copies the manifest.
    pub fn duplicate(&self) -> (r: WingetManifest)
        ensures
            winget_record(r) == winget_record(*self),
            r.package_id@ == self.package_id@,
    {
        let r = WingetManifest {
            package_id: self.package_id.clone(),
            publisher: self.publisher.clone(),
            name: self.name.clone(),
            version: self.version.clone(),
            license: self.license.clone(),
            description: self.description.clone(),
            homepage: self.homepage.clone(),
            installer_type: self.installer_type,
            installer_url: self.installer_url.clone(),
            installer_sha256: self.installer_sha256.clone(),
            architecture: self.architecture.clone(),
            dependencies: crate::model::copy_strings(&self.dependencies),
        };
        proof {
            assert(winget_record(r) =~= winget_record(*self));
        }
        r
    }
}


/// Manifests of `q`'s search.
pub open spec fn winget_query(q: Seq<char>) -> spec_fn(WingetManifest) -> bool {
    |m: WingetManifest| manifest_matches(q, m)
}


impl WingetRepository {
    /// Looks up the manifest of `package_id` (`Publisher.Name`). An id
    /// without a publisher part is refused; manifests not already read
    /// cannot be fetched from here, so every id is reported as not found.
    pub fn fetch_manifest(&mut self, package_id: &str) -> (r: Result<WingetManifest, PkgError>)
        ensures
            r matches Err(PkgError::PackageNotFound(n)) && n@ == package_id@,
            final(self).manifests() == old(self).manifests(),
    {
        let id = chars_of(package_id);
        let dot = crate::text::find_char(&id, 0, '.');
        if dot >= id.len() || dot == 0 {
            return Err(PkgError::PackageNotFound(String::from_str(package_id)));
        }
        Err(PkgError::PackageNotFound(String::from_str(package_id)))
    }
}

} // verus!
