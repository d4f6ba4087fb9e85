//! F-Droid (Android) repositories and apps.
use crate::model::{strings_view, DependencyView, PackageFormat, PackageInfo, PackageView, PkgError, Repository};
use crate::text::{chars_equal, chars_of, lower_of, lowercase, matches_lowered, query_matches};
use vstd::prelude::*;
use vstd::string::StringExecFns;

pub mod fdroid_repos;

verus! {

pub const PLAY_STORE_API: &'static str = "https://android.clients.google.com";

pub const PLAY_STORE_FDROID: &'static str = "https://f-droid.org/repo";

/// App category.
#[derive(Debug, Clone, Copy, PartialEq, Eq, Structural)]
pub enum AppCategory {
    Games,
    Business,
    Education,
    Entertainment,
    Finance,
    Health,
    Lifestyle,
    Music,
    News,
    Photography,
    Productivity,
    Shopping,
    Social,
    Sports,
    Tools,
    Travel,
    Utilities,
    Video,
    Weather,
    Unknown,
}

/// The category a lower-case name stands for.
pub open spec fn category_of(l: Seq<char>) -> AppCategory {
    if l == "games"@ || l == "game"@ {
        AppCategory::Games
    } else if l == "business"@ {
        AppCategory::Business
    } else if l == "education"@ {
        AppCategory::Education
    } else if l == "entertainment"@ {
        AppCategory::Entertainment
    } else if l == "finance"@ {
        AppCategory::Finance
    } else if l == "health"@ || l == "health_and_fitness"@ {
        AppCategory::Health
    } else if l == "lifestyle"@ {
        AppCategory::Lifestyle
    } else if l == "music"@ || l == "music_and_audio"@ {
        AppCategory::Music
    } else if l == "news"@ || l == "news_and_magazines"@ {
        AppCategory::News
    } else if l == "photography"@ {
        AppCategory::Photography
    } else if l == "productivity"@ {
        AppCategory::Productivity
    } else if l == "shopping"@ {
        AppCategory::Shopping
    } else if l == "social"@ {
        AppCategory::Social
    } else if l == "sports"@ {
        AppCategory::Sports
    } else if l == "tools"@ {
        AppCategory::Tools
    } else if l == "travel"@ || l == "travel_and_local"@ {
        AppCategory::Travel
    } else if l == "utilities"@ {
        AppCategory::Utilities
    } else if l == "video"@ || l == "video_players"@ {
        AppCategory::Video
    } else if l == "weather"@ {
        AppCategory::Weather
    } else {
        AppCategory::Unknown
    }
}

/// The name of a category.
pub open spec fn category_name(c: AppCategory) -> Seq<char> {
    match c {
        AppCategory::Games => "Games"@,
        AppCategory::Business => "Business"@,
        AppCategory::Education => "Education"@,
        AppCategory::Entertainment => "Entertainment"@,
        AppCategory::Finance => "Finance"@,
        AppCategory::Health => "Health"@,
        AppCategory::Lifestyle => "Lifestyle"@,
        AppCategory::Music => "Music"@,
        AppCategory::News => "News"@,
        AppCategory::Photography => "Photography"@,
        AppCategory::Productivity => "Productivity"@,
        AppCategory::Shopping => "Shopping"@,
        AppCategory::Social => "Social"@,
        AppCategory::Sports => "Sports"@,
        AppCategory::Tools => "Tools"@,
        AppCategory::Travel => "Travel"@,
        AppCategory::Utilities => "Utilities"@,
        AppCategory::Video => "Video"@,
        AppCategory::Weather => "Weather"@,
        AppCategory::Unknown => "Unknown"@,
    }
}

impl AppCategory {
    /// The category of an already lower-cased name.
    pub fn from_lowercase(l: &str) -> (r: AppCategory)
        ensures
            r == category_of(l@),
    {
        let c = chars_of(l);
        if chars_equal(&c, "games") || chars_equal(&c, "game") {
            AppCategory::Games
        } else if chars_equal(&c, "business") {
            AppCategory::Business
        } else if chars_equal(&c, "education") {
            AppCategory::Education
        } else if chars_equal(&c, "entertainment") {
            AppCategory::Entertainment
        } else if chars_equal(&c, "finance") {
            AppCategory::Finance
        } else if chars_equal(&c, "health") || chars_equal(&c, "health_and_fitness") {
            AppCategory::Health
        } else if chars_equal(&c, "lifestyle") {
            AppCategory::Lifestyle
        } else if chars_equal(&c, "music") || chars_equal(&c, "music_and_audio") {
            AppCategory::Music
        } else if chars_equal(&c, "news") || chars_equal(&c, "news_and_magazines") {
            AppCategory::News
        } else if chars_equal(&c, "photography") {
            AppCategory::Photography
        } else if chars_equal(&c, "productivity") {
            AppCategory::Productivity
        } else if chars_equal(&c, "shopping") {
            AppCategory::Shopping
        } else if chars_equal(&c, "social") {
            AppCategory::Social
        } else if chars_equal(&c, "sports") {
            AppCategory::Sports
        } else if chars_equal(&c, "tools") {
            AppCategory::Tools
        } else if chars_equal(&c, "travel") || chars_equal(&c, "travel_and_local") {
            AppCategory::Travel
        } else if chars_equal(&c, "utilities") {
            AppCategory::Utilities
        } else if chars_equal(&c, "video") || chars_equal(&c, "video_players") {
            AppCategory::Video
        } else if chars_equal(&c, "weather") {
            AppCategory::Weather
        } else {
            AppCategory::Unknown
        }
    }

    /// The category a name stands for, ignoring case.
    pub fn from_str(s: &str) -> (r: AppCategory)
        ensures
            r == category_of(lower_of(s@)),
    {
        let l = lowercase(s);
        AppCategory::from_lowercase(l.as_str())
    }

    /// The category's name.
    pub fn name(&self) -> (r: &'static str)
        ensures
            r@ == category_name(*self),
    {
        match self {
            AppCategory::Games => "Games",
            AppCategory::Business => "Business",
            AppCategory::Education => "Education",
            AppCategory::Entertainment => "Entertainment",
            AppCategory::Finance => "Finance",
            AppCategory::Health => "Health",
            AppCategory::Lifestyle => "Lifestyle",
            AppCategory::Music => "Music",
            AppCategory::News => "News",
            AppCategory::Photography => "Photography",
            AppCategory::Productivity => "Productivity",
            AppCategory::Shopping => "Shopping",
            AppCategory::Social => "Social",
            AppCategory::Sports => "Sports",
            AppCategory::Tools => "Tools",
            AppCategory::Travel => "Travel",
            AppCategory::Utilities => "Utilities",
            AppCategory::Video => "Video",
            AppCategory::Weather => "Weather",
            AppCategory::Unknown => "Unknown",
        }
    }
}

/// One published version of an F-Droid app.
#[derive(Debug, Clone)]
pub struct FDroidPackage {
    pub version_name: String,
    pub version_code: u32,
    pub apk_name: String,
    pub hash: String,
    pub hash_type: String,
    pub size: u64,
    pub min_sdk: u32,
    pub target_sdk: u32,
    pub native_code: Vec<String>,
    pub permissions: Vec<String>,
}

/// An F-Droid app and its published versions, newest first.
#[derive(Debug, Clone)]
pub struct FDroidApp {
    pub package_name: String,
    pub name: String,
    pub summary: String,
    pub description: String,
    pub license: String,
    pub web_site: String,
    pub source_code: String,
    pub issue_tracker: String,
    pub categories: Vec<String>,
    pub anti_features: Vec<String>,
    pub suggested_version_code: u32,
    pub packages: Vec<FDroidPackage>,
}

/// The canonical record of an F-Droid app, from its newest version.
pub open spec fn fdroid_record(app: FDroidApp) -> PackageView {
    let has = app.packages@.len() > 0;
    let p = app.packages@[0];
    PackageView {
        name: app.package_name@,
        version: if has { p.version_name@ } else { Seq::empty() },
        release: if has { p.version_code } else { 1 },
        arch: "any"@,
        format: PackageFormat::Android,
        description: if app.summary@.len() == 0 { app.description@ } else { app.summary@ },
        maintainer: Seq::empty(),
        license: app.license@,
        homepage: app.web_site@,
        size: if has { p.size } else { 0 },
        installed_size: 0,
        dependencies: Seq::empty(),
        conflicts: Seq::empty(),
        provides: Seq::empty(),
        replaces: Seq::empty(),
        files: Seq::empty(),
        checksum: if has { p.hash@ } else { Seq::empty() },
    }
}

impl PackageInfo {
    /// The canonical record of an F-Droid app.
    pub fn from_fdroid(app: FDroidApp) -> (r: PackageInfo)
        ensures
            r@ == fdroid_record(app),
    {
        let ghost av = app;
        let (version, release, size, checksum) = if app.packages.len() > 0 {
            let p = &app.packages[0];
            (p.version_name.clone(), p.version_code, p.size, p.hash.clone())
        } else {
            (String::new(), 1u32, 0u64, String::new())
        };
        let description = if app.summary.as_str().is_empty() {
            app.description
        } else {
            app.summary
        };
        let r = PackageInfo {
            name: app.package_name,
            version,
            release,
            arch: String::from_str("any"),
            format: PackageFormat::Android,
            description,
            maintainer: String::new(),
            license: app.license,
            homepage: app.web_site,
            size,
            installed_size: 0,
            dependencies: Vec::new(),
            conflicts: Vec::new(),
            provides: Vec::new(),
            replaces: Vec::new(),
            files: Vec::new(),
            checksum,
        };
        proof {
            assert(crate::model::deps_view(r.dependencies@) =~= Seq::<DependencyView>::empty());
            assert(strings_view(r.conflicts@) =~= Seq::<Seq<char>>::empty());
            assert(strings_view(r.provides@) =~= Seq::<Seq<char>>::empty());
            assert(strings_view(r.replaces@) =~= Seq::<Seq<char>>::empty());
            assert(strings_view(r.files@) =~= Seq::<Seq<char>>::empty());
            assert(r@ =~= fdroid_record(av));
        }
        r
    }
}

impl From<FDroidApp> for PackageInfo {
    fn from(app: FDroidApp) -> PackageInfo {
        PackageInfo::from_fdroid(app)
    }
}

impl vstd::std_specs::convert::FromSpecImpl<FDroidApp> for PackageInfo {
    open spec fn obeys_from_spec() -> bool {
        false
    }

    open spec fn from_spec(v: FDroidApp) -> PackageInfo {
        vstd::pervasive::arbitrary()
    }
}

pub open spec fn ascii_fold(c: char) -> u32 {
    if 'A' <= c && c <= 'Z' {
        (c as u32 + 32) as u32
    } else {
        c as u32
    }
}

/// Equal up to ASCII case.
pub open spec fn eq_ascii_case(a: Seq<char>, b: Seq<char>) -> bool {
    a.len() == b.len() && forall|i: int| 0 <= i < a.len() ==> ascii_fold(a[i]) == ascii_fold(b[i])
}

fn fold_char(c: char) -> (r: u32)
    ensures
        r == ascii_fold(c),
{
    if 'A' <= c && c <= 'Z' {
        c as u32 + 32
    } else {
        c as u32
    }
}

/// Whether `a` and `b` are equal up to ASCII case.
pub fn eq_ignore_ascii_case(a: &str, b: &str) -> (r: bool)
    ensures
        r == eq_ascii_case(a@, b@),
{
    let x = chars_of(a);
    let y = chars_of(b);
    if x.len() != y.len() {
        return false;
    }
    let mut i: usize = 0;
    while i < x.len()
        invariant
            x@ == a@,
            y@ == b@,
            x@.len() == y@.len(),
            i <= x@.len(),
            forall|j: int| 0 <= j < i ==> ascii_fold(a@[j]) == ascii_fold(b@[j]),
        decreases x@.len() - i,
    {
        if fold_char(x[i]) != fold_char(y[i]) {
            return false;
        }
        i = i + 1;
    }
    true
}

/// `q` occurs, ignoring case, in the package name, the name or the
/// summary.
pub open spec fn app_matches(q: Seq<char>, a: FDroidApp) -> bool {
    query_matches(q, a.package_name@, a.name@) || query_matches(q, a.summary@, a.summary@)
}

pub open spec fn in_category(a: FDroidApp, c: AppCategory) -> bool {
    exists|i: int| 0 <= i < a.categories@.len() && eq_ascii_case(a.categories@[i]@, category_name(c))
}

/// F-Droid repository manager: the repository URL and the apps read from
/// its index, one per package name.
pub struct PlayStoreRepository {
    use_fdroid: bool,
    fdroid_url: String,
    apps: Vec<FDroidApp>,
}

impl PlayStoreRepository {
    pub closed spec fn url(&self) -> Seq<char> {
        self.fdroid_url@
    }

    pub closed spec fn apps(&self) -> Seq<FDroidApp> {
        self.apps@
    }

    /// A manager for the main F-Droid repository.
    pub fn new_fdroid() -> (r: PlayStoreRepository)
        ensures
            r.url() == PLAY_STORE_FDROID@,
            r.apps().len() == 0,
    {
        PlayStoreRepository { use_fdroid: true, fdroid_url: String::from_str(PLAY_STORE_FDROID), apps: Vec::new() }
    }

    /// Uses the F-Droid repository at `url`.
    pub fn add_fdroid_repo(&mut self, url: &str)
        ensures
            final(self).url() == url@,
            final(self).apps() == old(self).apps(),
    {
        self.fdroid_url = String::from_str(url);
    }

    /// Locates the index. Fetching it is the transport's part; nothing
    /// here can fail.
    pub fn sync(&mut self) -> (r: Result<(), PkgError>)
        ensures
            r is Ok,
            final(self).url() == old(self).url(),
            final(self).apps() == old(self).apps(),
    {
        if self.use_fdroid {
            let mut index_url = self.fdroid_url.clone();
            index_url.append("/index-v2.json");
        }
        Ok(())
    }

    /// Apps whose package name, name or summary contains `query`, ignoring
    /// case.
    pub fn search(&self, query: &str) -> (r: Vec<&FDroidApp>)
        ensures
            crate::text::derefs(r@) == self.apps().filter(fdroid_query(query@)),
            forall|k: int| 0 <= k < r@.len() ==> self.apps().contains(*r@[k]),
            forall|k: int| 0 <= k < r@.len() ==> app_matches(query@, *r@[k]),
            forall|j: int| 0 <= j < self.apps().len() && app_matches(query@, self.apps()[j])
                ==> exists|k: int| 0 <= k < r@.len() && r@[k] == &self.apps()[j],
    {
        let q = lowercase(query);
        let mut out: Vec<&FDroidApp> = Vec::new();
        proof {
            crate::text::lemma_filter_empty(self.apps@, fdroid_query(query@));
        }
        let mut i: usize = 0;
        while i < self.apps.len()
            invariant
                q@ == lower_of(query@),
                i <= self.apps@.len(),
                crate::text::derefs(out@) == self.apps@.subrange(0, i as int).filter(fdroid_query(query@)),
                forall|k: int| 0 <= k < out@.len() ==> self.apps@.contains(*out@[k]),
                forall|k: int| 0 <= k < out@.len() ==> app_matches(query@, *out@[k]),
                forall|j: int| 0 <= j < i && app_matches(query@, self.apps@[j])
                    ==> exists|k: int| 0 <= k < out@.len() && out@[k] == &self.apps@[j],
            decreases self.apps@.len() - i,
        {
            let a = &self.apps[i];
            proof {
                crate::text::lemma_filter_step(self.apps@, i as int, fdroid_query(query@));
            }
            if matches_lowered(q.as_str(), a.package_name.as_str(), a.name.as_str())
                || matches_lowered(q.as_str(), a.summary.as_str(), a.summary.as_str()) {
                let ghost before = out@;
                out.push(a);
                proof {
                    crate::text::lemma_derefs_push(before, a);
                    assert(out@[before.len() as int] == a);
                    assert forall|j: int| 0 <= j < i && app_matches(query@, self.apps@[j])
                        implies exists|k: int| 0 <= k < out@.len() && out@[k] == &self.apps@[j] by {
                        let k = choose|k: int| 0 <= k < before.len() && before[k] == &self.apps@[j];
                        assert(out@[k] == before[k]);
                    }
                }
            }
            i = i + 1;
        }
        proof {
            assert(self.apps@.subrange(0, self.apps@.len() as int) =~= self.apps@);
        }
        out
    }

    /// The app called `package_name`, if read.
    pub fn get(&self, package_name: &str) -> (r: Option<&FDroidApp>)
        ensures
            r is None ==> forall|j: int| 0 <= j < self.apps().len() ==> self.apps()[j].package_name@ != package_name@,
            r matches Some(a) ==> self.apps().contains(*a) && a.package_name@ == package_name@,
            r matches Some(a) ==> exists|j: int|
                0 <= j < self.apps().len() && *a == self.apps()[j] && forall|k: int|
                    0 <= k < j ==> self.apps()[k].package_name@ != package_name@,
    {
        let key = String::from_str(package_name);
        let mut i: usize = 0;
        while i < self.apps.len()
            invariant
                i <= self.apps@.len(),
                key@ == package_name@,
                forall|k: int| 0 <= k < i ==> self.apps@[k].package_name@ != package_name@,
            decreases self.apps@.len() - i,
        {
            if self.apps[i].package_name == key {
                let found = &self.apps[i];
                proof {
                    assert(self.apps()[i as int] == *found);
                    assert(*found == self.apps()[i as int] && forall|k: int|
                        0 <= k < i ==> self.apps()[k].package_name@ != package_name@);
                }
                return Some(found);
            }
            i = i + 1;
        }
        None
    }

    /// Download URL of the newest version of `app`.
    pub fn get_download_url(&self, app: &FDroidApp) -> (r: Option<String>)
        ensures
            app.packages@.len() == 0 ==> r is None,
            app.packages@.len() > 0 ==> (r matches Some(u) && u@ == self.url() + "/"@ + app.packages@[0].apk_name@),
    {
        if app.packages.len() == 0 {
            return None;
        }
        let mut u = self.fdroid_url.clone();
        u.append("/");
        u.append(app.packages[0].apk_name.as_str());
        Some(u)
    }

    /// Apps listed under `category`, names compared ignoring ASCII case.
    pub fn search_by_category(&self, category: AppCategory) -> (r: Vec<&FDroidApp>)
        ensures
            forall|k: int| 0 <= k < r@.len() ==> self.apps().contains(*r@[k]) && in_category(*r@[k], category),
            forall|j: int| 0 <= j < self.apps().len() && in_category(self.apps()[j], category)
                ==> exists|k: int| 0 <= k < r@.len() && r@[k] == &self.apps()[j],
    {
        let cat = category.name();
        let mut out: Vec<&FDroidApp> = Vec::new();
        let mut i: usize = 0;
        while i < self.apps.len()
            invariant
                cat@ == category_name(category),
                i <= self.apps@.len(),
                forall|k: int| 0 <= k < out@.len() ==> self.apps@.contains(*out@[k]) && in_category(*out@[k], category),
                forall|j: int| 0 <= j < i && in_category(self.apps@[j], category)
                    ==> exists|k: int| 0 <= k < out@.len() && out@[k] == &self.apps@[j],
            decreases self.apps@.len() - i,
        {
            let a = &self.apps[i];
            let mut found = false;
            let mut c: usize = 0;
            while c < a.categories.len()
                invariant
                    cat@ == category_name(category),
                    c <= a.categories@.len(),
                    found == exists|m: int| 0 <= m < c && eq_ascii_case(a.categories@[m]@, category_name(category)),
                decreases a.categories@.len() - c,
            {
                if eq_ignore_ascii_case(a.categories[c].as_str(), cat) {
                    found = true;
                }
                c = c + 1;
            }
            if found {
                let ghost before = out@;
                out.push(a);
                proof {
                    assert(out@[before.len() as int] == a);
                    assert forall|j: int| 0 <= j < i && in_category(self.apps@[j], category)
                        implies exists|k: int| 0 <= k < out@.len() && out@[k] == &self.apps@[j] by {
                        let k = choose|k: int| 0 <= k < before.len() && before[k] == &self.apps@[j];
                        assert(out@[k] == before[k]);
                    }
                }
            }
            i = i + 1;
        }
        out
    }
}

impl Default for PlayStoreRepository {
    fn default() -> (r: PlayStoreRepository)
        ensures
            r.url() == PLAY_STORE_FDROID@,
            r.apps().len() == 0,
    {
        PlayStoreRepository::new_fdroid()
    }
}

/// Repository configuration of an F-Droid repository.
pub fn create_fdroid_repo(name: &str, url: &str) -> (r: Repository)
    ensures
        r.name@ == name@,
        r.url@ == url@,
        r.format == PackageFormat::Android,
        r.enabled,
        r.gpg_key is None,
        r.priority == 60,
{
    Repository {
        name: String::from_str(name),
        url: String::from_str(url),
        format: PackageFormat::Android,
        enabled: true,
        gpg_key: None,
        priority: 60,
    }
}

/// Repository configuration of the main F-Droid repository.
pub fn create_fdroid_main_repo() -> (r: Repository)
    ensures
        r.name@ == "fdroid"@,
        r.url@ == PLAY_STORE_FDROID@,
        r.format == PackageFormat::Android,
        r.enabled,
        r.priority == 60,
{
    create_fdroid_repo("fdroid", PLAY_STORE_FDROID)
}


impl FDroidPackage {
    /// Copies the version entry.
    pub fn duplicate(&self) -> (r: FDroidPackage)
        ensures
            r.version_name == self.version_name,
            r.version_code == self.version_code,
            r.apk_name == self.apk_name,
            r.hash == self.hash,
            r.size == self.size,
    {
        FDroidPackage {
            version_name: self.version_name.clone(),
            version_code: self.version_code,
            apk_name: self.apk_name.clone(),
            hash: self.hash.clone(),
            hash_type: self.hash_type.clone(),
            size: self.size,
            min_sdk: self.min_sdk,
            target_sdk: self.target_sdk,
            native_code: crate::model::copy_strings(&self.native_code),
            permissions: crate::model::copy_strings(&self.permissions),
        }
    }
}

impl FDroidApp {
    /// Copies the app.
    pub fn duplicate(&self) -> (r: FDroidApp)
        ensures
            fdroid_record(r) == fdroid_record(*self),
            r.package_name@ == self.package_name@,
    {
        let mut pkgs: Vec<FDroidPackage> = Vec::new();
        let mut i: usize = 0;
        while i < self.packages.len()
            invariant
                i <= self.packages@.len(),
                pkgs@.len() == i,
                forall|k: int| 0 <= k < i ==> pkgs@[k].version_name == self.packages@[k].version_name
                    && pkgs@[k].version_code == self.packages@[k].version_code && pkgs@[k].hash == self.packages@[k].hash
                    && pkgs@[k].size == self.packages@[k].size,
            decreases self.packages@.len() - i,
        {
            pkgs.push(self.packages[i].duplicate());
            i = i + 1;
        }
        let r = FDroidApp {
            package_name: self.package_name.clone(),
            name: self.name.clone(),
            summary: self.summary.clone(),
            description: self.description.clone(),
            license: self.license.clone(),
            web_site: self.web_site.clone(),
            source_code: self.source_code.clone(),
            issue_tracker: self.issue_tracker.clone(),
            categories: crate::model::copy_strings(&self.categories),
            anti_features: crate::model::copy_strings(&self.anti_features),
            suggested_version_code: self.suggested_version_code,
            packages: pkgs,
        };
        proof {
            assert(fdroid_record(r) =~= fdroid_record(*self));
        }
        r
    }
}


/// Apps of `q`'s search.
pub open spec fn fdroid_query(q: Seq<char>) -> spec_fn(FDroidApp) -> bool {
    |a: FDroidApp| app_matches(q, a)
}


/// Reads the apps of an F-Droid index. JSON decoding is not part of this
/// library, so no app is read from the text.
pub fn parse_fdroid_index(json: &str) -> (r: Result<Vec<FDroidApp>, PkgError>)
    ensures
        r matches Ok(v) && v@.len() == 0,
{
    Ok(Vec::new())
}

} // verus!
