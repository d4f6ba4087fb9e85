//! One view over every configured package source.
use crate::apt::{apt_record, AptPackage, AptRepository};
use crate::dnf::{dnf_record, DnfPackage, DnfRepository, FEDORA_DL};
use crate::model::{PackageInfo, PackageView, PkgConfig, PkgError, RepositorySource};
use crate::pacman::{pacman_record, PacmanPackage, PacmanRepository, ARCH_MIRROR};
use crate::playstore::{app_matches, fdroid_record, FDroidApp, PlayStoreRepository};
use crate::text::query_matches;
use crate::winget::{manifest_matches, winget_record, WingetManifest, WingetRepository};
use vstd::prelude::*;
use vstd::string::StringExecFns;

verus! {

impl Default for PkgConfig {
    fn default() -> (r: PkgConfig)
        ensures
            r.root@ == "/"@,
            r.cache_dir@ == "/var/cache/rpm-next"@,
            r.db_dir@ == "/var/lib/rpm-next"@,
            r.repos@.len() == 0,
            r.parallel_downloads == 4,
    {
        PkgConfig {
            root: String::from_str("/"),
            cache_dir: String::from_str("/var/cache/rpm-next"),
            db_dir: String::from_str("/var/lib/rpm-next"),
            repos: Vec::new(),
            parallel_downloads: 4,
        }
    }
}

/// Every source, in the order the manager consults them by default.
pub open spec fn all_sources() -> Seq<RepositorySource> {
    seq![
        RepositorySource::Native,
        RepositorySource::Apt,
        RepositorySource::Dnf,
        RepositorySource::Pacman,
        RepositorySource::Winget,
        RepositorySource::Android,
    ]
}

/// `p` is the record of an entry of `src` in `m` that matches `q`.
pub open spec fn found_in(m: UnifiedRepositoryManager, q: Seq<char>, src: RepositorySource, p: PackageView) -> bool {
    match src {
        RepositorySource::Apt => exists|e: AptPackage|
            m.apt_repo().packages().contains(e) && query_matches(q, e.package@, e.description@) && p == apt_record(e@),
        RepositorySource::Dnf => exists|e: DnfPackage|
            m.dnf_repo().packages().contains(e) && query_matches(q, e.name@, e.summary@) && p == dnf_record(e),
        RepositorySource::Pacman => exists|e: PacmanPackage|
            m.pacman_repo().packages().contains(e) && query_matches(q, e.name@, e.desc@) && p == pacman_record(e),
        RepositorySource::Winget => exists|e: WingetManifest|
            m.winget_repo().manifests().contains(e) && manifest_matches(q, e) && p == winget_record(e),
        RepositorySource::Android => exists|e: FDroidApp|
            m.playstore_repo().apps().contains(e) && app_matches(q, e) && p == fdroid_record(e),
        RepositorySource::Native => false,
    }
}

/// Every entry of `src` in `m` that matches `q` has its record, tagged
/// with `src`, in `res`.
pub open spec fn source_complete(
    m: UnifiedRepositoryManager,
    q: Seq<char>,
    src: RepositorySource,
    res: Seq<(RepositorySource, PackageInfo)>,
) -> bool {
    match src {
        RepositorySource::Apt => forall|j: int|
            0 <= j < m.apt_repo().packages().len() && query_matches(q, m.apt_repo().packages()[j].package@, m.apt_repo().packages()[j].description@)
                ==> exists|k: int| 0 <= k < res.len() && res[k].0 == src && res[k].1@ == apt_record(m.apt_repo().packages()[j]@),
        RepositorySource::Dnf => forall|j: int|
            0 <= j < m.dnf_repo().packages().len() && query_matches(q, m.dnf_repo().packages()[j].name@, m.dnf_repo().packages()[j].summary@)
                ==> exists|k: int| 0 <= k < res.len() && res[k].0 == src && res[k].1@ == dnf_record(m.dnf_repo().packages()[j]),
        RepositorySource::Pacman => forall|j: int|
            0 <= j < m.pacman_repo().packages().len() && query_matches(q, m.pacman_repo().packages()[j].name@, m.pacman_repo().packages()[j].desc@)
                ==> exists|k: int| 0 <= k < res.len() && res[k].0 == src && res[k].1@ == pacman_record(m.pacman_repo().packages()[j]),
        RepositorySource::Winget => forall|j: int|
            0 <= j < m.winget_repo().manifests().len() && manifest_matches(q, m.winget_repo().manifests()[j])
                ==> exists|k: int| 0 <= k < res.len() && res[k].0 == src && res[k].1@ == winget_record(m.winget_repo().manifests()[j]),
        RepositorySource::Android => forall|j: int|
            0 <= j < m.playstore_repo().apps().len() && app_matches(q, m.playstore_repo().apps()[j])
                ==> exists|k: int| 0 <= k < res.len() && res[k].0 == src && res[k].1@ == fdroid_record(m.playstore_repo().apps()[j]),
        RepositorySource::Native => true,
    }
}

/// Appending to `res` keeps every source complete that was.
proof fn lemma_complete_grows(
    m: UnifiedRepositoryManager,
    q: Seq<char>,
    src: RepositorySource,
    res: Seq<(RepositorySource, PackageInfo)>,
    more: Seq<(RepositorySource, PackageInfo)>,
)
    requires
        source_complete(m, q, src, res),
        more.len() >= res.len(),
        more.subrange(0, res.len() as int) == res,
    ensures
        source_complete(m, q, src, more),
{
    assert forall|k: int| 0 <= k < res.len() implies more[k] == res[k] by {
        assert(more.subrange(0, res.len() as int)[k] == more[k]);
    }
}

/// `p` is the record of an entry called `name` of `src` in `m`.
pub open spec fn named_entry(m: UnifiedRepositoryManager, name: Seq<char>, src: RepositorySource, p: PackageView) -> bool {
    match src {
        RepositorySource::Apt => exists|e: AptPackage|
            m.apt_repo().packages().contains(e) && e.package@ == name && p == apt_record(e@),
        RepositorySource::Dnf => exists|e: DnfPackage|
            m.dnf_repo().packages().contains(e) && e.name@ == name && p == dnf_record(e),
        RepositorySource::Pacman => exists|e: PacmanPackage|
            m.pacman_repo().packages().contains(e) && e.name@ == name && p == pacman_record(e),
        RepositorySource::Winget => exists|e: WingetManifest|
            m.winget_repo().manifests().contains(e) && e.package_id@ == name && p == winget_record(e),
        RepositorySource::Android => exists|e: FDroidApp|
            m.playstore_repo().apps().contains(e) && e.package_name@ == name && p == fdroid_record(e),
        RepositorySource::Native => false,
    }
}

/// Manages every package source and offers search and lookup across them.
pub struct UnifiedRepositoryManager {
    pub apt: AptRepository,
    pub dnf: DnfRepository,
    pub pacman: PacmanRepository,
    pub winget: WingetRepository,
    pub playstore: PlayStoreRepository,
    enabled_sources: Vec<RepositorySource>,
}

impl UnifiedRepositoryManager {
    pub closed spec fn enabled(&self) -> Seq<RepositorySource> {
        self.enabled_sources@
    }

    pub closed spec fn apt_repo(&self) -> AptRepository {
        self.apt
    }

    pub closed spec fn dnf_repo(&self) -> DnfRepository {
        self.dnf
    }

    pub closed spec fn pacman_repo(&self) -> PacmanRepository {
        self.pacman
    }

    pub closed spec fn winget_repo(&self) -> WingetRepository {
        self.winget
    }

    pub closed spec fn playstore_repo(&self) -> PlayStoreRepository {
        self.playstore
    }

    /// A manager with each source at its default location and every source
    /// enabled.
    pub fn new() -> (r: UnifiedRepositoryManager)
        ensures
            r.enabled() == all_sources(),
            r.dnf_repo().base_url() == FEDORA_DL@ + "/releases/40/Everything/x86_64/os"@,
            r.pacman_repo().mirror() == ARCH_MIRROR@,
            r.apt_repo().sources().len() == 0,
            r.apt_repo().packages().len() == 0,
            r.dnf_repo().packages().len() == 0,
            r.pacman_repo().packages().len() == 0,
            r.winget_repo().manifests().len() == 0,
            r.playstore_repo().apps().len() == 0,
    {
        let mut base = String::from_str(FEDORA_DL);
        base.append("/releases/40/Everything/x86_64/os");
        let mut enabled: Vec<RepositorySource> = Vec::new();
        enabled.push(RepositorySource::Native);
        enabled.push(RepositorySource::Apt);
        enabled.push(RepositorySource::Dnf);
        enabled.push(RepositorySource::Pacman);
        enabled.push(RepositorySource::Winget);
        enabled.push(RepositorySource::Android);
        let r = UnifiedRepositoryManager {
            apt: AptRepository::new(),
            dnf: DnfRepository::new(base.as_str()),
            pacman: PacmanRepository::new(ARCH_MIRROR),
            winget: WingetRepository::new(),
            playstore: PlayStoreRepository::new_fdroid(),
            enabled_sources: enabled,
        };
        proof {
            assert(r.enabled() =~= all_sources());
        }
        r
    }

    /// Adds the default APT sources: Debian bookworm and Ubuntu noble.
    pub fn configure_defaults(&mut self)
        ensures
            final(self).enabled() == old(self).enabled(),
            final(self).apt_repo().sources().len() == old(self).apt_repo().sources().len() + 2,
            final(self).apt_repo().sources()[old(self).apt_repo().sources().len() as int].distribution@ == "bookworm"@,
            final(self).apt_repo().sources()[old(self).apt_repo().sources().len() as int + 1].distribution@ == "noble"@,
    {
        self.apt.add_debian_sources("bookworm");
        let ghost mid = self.apt.sources();
        self.apt.add_ubuntu_sources("noble");
        proof {
            assert(self.apt.sources()[old(self).apt.sources().len() as int] == self.apt.sources().subrange(0, mid.len() as int)[old(self).apt.sources().len() as int]);
        }
    }

    /// Enables or disables a source. Enabling keeps the order and adds the
    /// source at the end when it was not enabled; disabling removes it.
    pub fn set_source_enabled(&mut self, source: RepositorySource, enabled: bool)
        ensures
            enabled && old(self).enabled().contains(source) ==> final(self).enabled() == old(self).enabled(),
            enabled && !old(self).enabled().contains(source) ==> final(self).enabled() == old(self).enabled().push(source),
            !enabled ==> final(self).enabled() == old(self).enabled().filter(|s: RepositorySource| s != source),
    {
        if enabled {
            let mut present = false;
            let mut i: usize = 0;
            while i < self.enabled_sources.len()
                invariant
                    self.enabled_sources@ == old(self).enabled_sources@,
                    i <= self.enabled_sources@.len(),
                    present == exists|k: int| 0 <= k < i && self.enabled_sources@[k] == source,
                decreases self.enabled_sources@.len() - i,
            {
                if self.enabled_sources[i] == source {
                    present = true;
                }
                i = i + 1;
            }
            if !present {
                self.enabled_sources.push(source);
            }
        } else {
            let mut kept: Vec<RepositorySource> = Vec::new();
            proof {
                reveal(Seq::filter);
                assert(self.enabled_sources@.subrange(0, 0) =~= Seq::<RepositorySource>::empty());
            }
            let mut i: usize = 0;
            while i < self.enabled_sources.len()
                invariant
                    self.enabled_sources@ == old(self).enabled_sources@,
                    i <= self.enabled_sources@.len(),
                    kept@ == self.enabled_sources@.subrange(0, i as int).filter(|s: RepositorySource| s != source),
                decreases self.enabled_sources@.len() - i,
            {
                let s = self.enabled_sources[i];
                proof {
                    assert(self.enabled_sources@.subrange(0, i + 1).drop_last() =~= self.enabled_sources@.subrange(0, i as int));
                    reveal(Seq::filter);
                    assert(self.enabled_sources@.subrange(0, i + 1) =~= self.enabled_sources@.subrange(0, i as int).push(s));
                }
                if s != source {
                    kept.push(s);
                }
                i = i + 1;
            }
            proof {
                assert(self.enabled_sources@.subrange(0, self.enabled_sources@.len() as int) =~= self.enabled_sources@);
            }
            self.enabled_sources = kept;
        }
    }

    /// Synchronises every enabled source. No source's synchronisation can
    /// fail here, so this always succeeds.
    pub fn sync_all(&mut self) -> (r: Result<(), PkgError>)
        ensures
            r is Ok,
            final(self).enabled() == old(self).enabled(),
    {
        let sources = self.enabled_sources.clone();
        let mut i: usize = 0;
        while i < sources.len()
            invariant
                self.enabled_sources@ == old(self).enabled_sources@,
            decreases sources@.len() - i,
        {
            let _ = match sources[i] {
                RepositorySource::Apt => self.apt.sync(),
                RepositorySource::Dnf => self.dnf.sync(),
                RepositorySource::Pacman => self.pacman.sync(),
                RepositorySource::Winget => self.winget.sync(),
                RepositorySource::Android => self.playstore.sync(),
                RepositorySource::Native => Ok(()),
            };
            i = i + 1;
        }
        Ok(())
    }

    /// Records from every enabled source whose search matches `query`,
    /// source by source in enabled order.
    pub fn search(&self, query: &str) -> (r: Vec<(RepositorySource, PackageInfo)>)
        ensures
            forall|k: int| 0 <= k < r@.len() ==> self.enabled().contains(r@[k].0) && found_in(*self, query@, r@[k].0, r@[k].1@),
            forall|i: int| 0 <= i < self.enabled().len() ==> source_complete(*self, query@, #[trigger] self.enabled()[i], r@),
    {
        let mut results: Vec<(RepositorySource, PackageInfo)> = Vec::new();
        let mut i: usize = 0;
        while i < self.enabled_sources.len()
            invariant
                i <= self.enabled_sources@.len(),
                forall|k: int| 0 <= k < results@.len() ==> self.enabled_sources@.contains(results@[k].0) && found_in(*self, query@, results@[k].0, results@[k].1@),
                forall|i2: int| 0 <= i2 < i ==> source_complete(*self, query@, #[trigger] self.enabled_sources@[i2], results@),
            decreases self.enabled_sources@.len() - i,
        {
            let source = self.enabled_sources[i];
            let ghost start = results@;
            proof {
                assert(self.enabled_sources@.contains(source) || self.enabled_sources@[i as int] == source);
                assert(self.enabled_sources@[i as int] == source);
            }
            match source {
                RepositorySource::Apt => {
                    let found = self.apt.search(query);
                    let mut j: usize = 0;
                    while j < found.len()
                        invariant
                            source == RepositorySource::Apt,
                            j <= found@.len(),
                            results@.len() >= start.len(),
                            results@.subrange(0, start.len() as int) == start,
                            forall|i2: int| 0 <= i2 < i ==> source_complete(*self, query@, #[trigger] self.enabled_sources@[i2], start),
                            forall|m2: int| #![trigger found@[m2]] 0 <= m2 < j ==> exists|k: int| 0 <= k < results@.len() && results@[k].0 == source && results@[k].1@ == apt_record((*found@[m2])@),
                            self.enabled_sources@.contains(source),
                            forall|m: int| 0 <= m < found@.len() ==> self.apt_repo().packages().contains(*found@[m]) && query_matches(query@, found@[m].package@, found@[m].description@),
                            forall|k: int| 0 <= k < results@.len() ==> self.enabled_sources@.contains(results@[k].0) && found_in(*self, query@, results@[k].0, results@[k].1@),
                        decreases found@.len() - j,
                    {
                        let ghost before = results@;
                        let e = found[j];
                        let rec = PackageInfo::from_apt(e.duplicate());
                        results.push((RepositorySource::Apt, rec));
                        proof {
                            assert(results@.subrange(0, start.len() as int) =~= start) by {
                                assert(before.subrange(0, start.len() as int) == start);
                            }
                            assert(results@[before.len() as int].1@ == apt_record((*found@[j as int])@));
                            assert forall|m2: int| #![trigger found@[m2]] 0 <= m2 < j + 1 implies exists|k: int| 0 <= k < results@.len() && results@[k].0 == source && results@[k].1@ == apt_record((*found@[m2])@) by {
                                if m2 < j {
                                    let k = choose|k: int| 0 <= k < before.len() && before[k].0 == source && before[k].1@ == apt_record((*found@[m2])@);
                                    assert(results@[k] == before[k]);
                                } else {
                                    assert(results@[before.len() as int].0 == source);
                                }
                            }
                            assert(self.apt_repo().packages().contains(*e));
                            assert forall|k: int| 0 <= k < results@.len() implies self.enabled_sources@.contains(results@[k].0) && found_in(*self, query@, results@[k].0, results@[k].1@) by {
                                if k < before.len() {
                                    assert(results@[k] == before[k]);
                                }
                            }
                        }
                        j = j + 1;
                    }
                    proof {
                        assert forall|j2: int| 0 <= j2 < self.apt_repo().packages().len() && query_matches(query@, self.apt_repo().packages()[j2].package@, self.apt_repo().packages()[j2].description@)
                            implies exists|k: int| 0 <= k < results@.len() && results@[k].0 == source && results@[k].1@ == apt_record(self.apt_repo().packages()[j2]@) by {
                            let m2 = choose|m2: int| 0 <= m2 < found@.len() && found@[m2] == &self.apt_repo().packages()[j2];
                        }
                        assert(source_complete(*self, query@, source, results@));
                        assert forall|i2: int| 0 <= i2 < i implies source_complete(*self, query@, #[trigger] self.enabled_sources@[i2], results@) by {
                            lemma_complete_grows(*self, query@, self.enabled_sources@[i2], start, results@);
                        }
                    }
                },
                RepositorySource::Dnf => {
                    let found = self.dnf.search(query);
                    let mut j: usize = 0;
                    while j < found.len()
                        invariant
                            source == RepositorySource::Dnf,
                            j <= found@.len(),
                            results@.len() >= start.len(),
                            results@.subrange(0, start.len() as int) == start,
                            forall|i2: int| 0 <= i2 < i ==> source_complete(*self, query@, #[trigger] self.enabled_sources@[i2], start),
                            forall|m2: int| #![trigger found@[m2]] 0 <= m2 < j ==> exists|k: int| 0 <= k < results@.len() && results@[k].0 == source && results@[k].1@ == dnf_record(*found@[m2]),
                            self.enabled_sources@.contains(source),
                            forall|m: int| 0 <= m < found@.len() ==> self.dnf_repo().packages().contains(*found@[m]) && query_matches(query@, found@[m].name@, found@[m].summary@),
                            forall|k: int| 0 <= k < results@.len() ==> self.enabled_sources@.contains(results@[k].0) && found_in(*self, query@, results@[k].0, results@[k].1@),
                        decreases found@.len() - j,
                    {
                        let ghost before = results@;
                        let e = found[j];
                        let rec = PackageInfo::from_dnf(e.duplicate());
                        results.push((RepositorySource::Dnf, rec));
                        proof {
                            assert(results@.subrange(0, start.len() as int) =~= start) by {
                                assert(before.subrange(0, start.len() as int) == start);
                            }
                            assert(results@[before.len() as int].1@ == dnf_record(*found@[j as int]));
                            assert forall|m2: int| #![trigger found@[m2]] 0 <= m2 < j + 1 implies exists|k: int| 0 <= k < results@.len() && results@[k].0 == source && results@[k].1@ == dnf_record(*found@[m2]) by {
                                if m2 < j {
                                    let k = choose|k: int| 0 <= k < before.len() && before[k].0 == source && before[k].1@ == dnf_record(*found@[m2]);
                                    assert(results@[k] == before[k]);
                                } else {
                                    assert(results@[before.len() as int].0 == source);
                                }
                            }
                            assert(self.dnf_repo().packages().contains(*e));
                            assert forall|k: int| 0 <= k < results@.len() implies self.enabled_sources@.contains(results@[k].0) && found_in(*self, query@, results@[k].0, results@[k].1@) by {
                                if k < before.len() {
                                    assert(results@[k] == before[k]);
                                }
                            }
                        }
                        j = j + 1;
                    }
                    proof {
                        assert forall|j2: int| 0 <= j2 < self.dnf_repo().packages().len() && query_matches(query@, self.dnf_repo().packages()[j2].name@, self.dnf_repo().packages()[j2].summary@)
                            implies exists|k: int| 0 <= k < results@.len() && results@[k].0 == source && results@[k].1@ == dnf_record(self.dnf_repo().packages()[j2]) by {
                            let m2 = choose|m2: int| 0 <= m2 < found@.len() && found@[m2] == &self.dnf_repo().packages()[j2];
                        }
                        assert(source_complete(*self, query@, source, results@));
                        assert forall|i2: int| 0 <= i2 < i implies source_complete(*self, query@, #[trigger] self.enabled_sources@[i2], results@) by {
                            lemma_complete_grows(*self, query@, self.enabled_sources@[i2], start, results@);
                        }
                    }
                },
                RepositorySource::Pacman => {
                    let found = self.pacman.search(query);
                    let mut j: usize = 0;
                    while j < found.len()
                        invariant
                            source == RepositorySource::Pacman,
                            j <= found@.len(),
                            results@.len() >= start.len(),
                            results@.subrange(0, start.len() as int) == start,
                            forall|i2: int| 0 <= i2 < i ==> source_complete(*self, query@, #[trigger] self.enabled_sources@[i2], start),
                            forall|m2: int| #![trigger found@[m2]] 0 <= m2 < j ==> exists|k: int| 0 <= k < results@.len() && results@[k].0 == source && results@[k].1@ == pacman_record(*found@[m2]),
                            self.enabled_sources@.contains(source),
                            forall|m: int| 0 <= m < found@.len() ==> self.pacman_repo().packages().contains(*found@[m]) && query_matches(query@, found@[m].name@, found@[m].desc@),
                            forall|k: int| 0 <= k < results@.len() ==> self.enabled_sources@.contains(results@[k].0) && found_in(*self, query@, results@[k].0, results@[k].1@),
                        decreases found@.len() - j,
                    {
                        let ghost before = results@;
                        let e = found[j];
                        let rec = PackageInfo::from_pacman(e.duplicate());
                        results.push((RepositorySource::Pacman, rec));
                        proof {
                            assert(results@.subrange(0, start.len() as int) =~= start) by {
                                assert(before.subrange(0, start.len() as int) == start);
                            }
                            assert(results@[before.len() as int].1@ == pacman_record(*found@[j as int]));
                            assert forall|m2: int| #![trigger found@[m2]] 0 <= m2 < j + 1 implies exists|k: int| 0 <= k < results@.len() && results@[k].0 == source && results@[k].1@ == pacman_record(*found@[m2]) by {
                                if m2 < j {
                                    let k = choose|k: int| 0 <= k < before.len() && before[k].0 == source && before[k].1@ == pacman_record(*found@[m2]);
                                    assert(results@[k] == before[k]);
                                } else {
                                    assert(results@[before.len() as int].0 == source);
                                }
                            }
                            assert(self.pacman_repo().packages().contains(*e));
                            assert forall|k: int| 0 <= k < results@.len() implies self.enabled_sources@.contains(results@[k].0) && found_in(*self, query@, results@[k].0, results@[k].1@) by {
                                if k < before.len() {
                                    assert(results@[k] == before[k]);
                                }
                            }
                        }
                        j = j + 1;
                    }
                    proof {
                        assert forall|j2: int| 0 <= j2 < self.pacman_repo().packages().len() && query_matches(query@, self.pacman_repo().packages()[j2].name@, self.pacman_repo().packages()[j2].desc@)
                            implies exists|k: int| 0 <= k < results@.len() && results@[k].0 == source && results@[k].1@ == pacman_record(self.pacman_repo().packages()[j2]) by {
                            let m2 = choose|m2: int| 0 <= m2 < found@.len() && found@[m2] == &self.pacman_repo().packages()[j2];
                        }
                        assert(source_complete(*self, query@, source, results@));
                        assert forall|i2: int| 0 <= i2 < i implies source_complete(*self, query@, #[trigger] self.enabled_sources@[i2], results@) by {
                            lemma_complete_grows(*self, query@, self.enabled_sources@[i2], start, results@);
                        }
                    }
                },
                RepositorySource::Winget => {
                    let found = self.winget.search(query);
                    let mut j: usize = 0;
                    while j < found.len()
                        invariant
                            source == RepositorySource::Winget,
                            j <= found@.len(),
                            results@.len() >= start.len(),
                            results@.subrange(0, start.len() as int) == start,
                            forall|i2: int| 0 <= i2 < i ==> source_complete(*self, query@, #[trigger] self.enabled_sources@[i2], start),
                            forall|m2: int| #![trigger found@[m2]] 0 <= m2 < j ==> exists|k: int| 0 <= k < results@.len() && results@[k].0 == source && results@[k].1@ == winget_record(*found@[m2]),
                            self.enabled_sources@.contains(source),
                            forall|m: int| 0 <= m < found@.len() ==> self.winget_repo().manifests().contains(*found@[m]) && manifest_matches(query@, *found@[m]),
                            forall|k: int| 0 <= k < results@.len() ==> self.enabled_sources@.contains(results@[k].0) && found_in(*self, query@, results@[k].0, results@[k].1@),
                        decreases found@.len() - j,
                    {
                        let ghost before = results@;
                        let e = found[j];
                        let rec = PackageInfo::from_winget(e.duplicate());
                        results.push((RepositorySource::Winget, rec));
                        proof {
                            assert(results@.subrange(0, start.len() as int) =~= start) by {
                                assert(before.subrange(0, start.len() as int) == start);
                            }
                            assert(results@[before.len() as int].1@ == winget_record(*found@[j as int]));
                            assert forall|m2: int| #![trigger found@[m2]] 0 <= m2 < j + 1 implies exists|k: int| 0 <= k < results@.len() && results@[k].0 == source && results@[k].1@ == winget_record(*found@[m2]) by {
                                if m2 < j {
                                    let k = choose|k: int| 0 <= k < before.len() && before[k].0 == source && before[k].1@ == winget_record(*found@[m2]);
                                    assert(results@[k] == before[k]);
                                } else {
                                    assert(results@[before.len() as int].0 == source);
                                }
                            }
                            assert(self.winget_repo().manifests().contains(*e));
                            assert forall|k: int| 0 <= k < results@.len() implies self.enabled_sources@.contains(results@[k].0) && found_in(*self, query@, results@[k].0, results@[k].1@) by {
                                if k < before.len() {
                                    assert(results@[k] == before[k]);
                                }
                            }
                        }
                        j = j + 1;
                    }
                    proof {
                        assert forall|j2: int| 0 <= j2 < self.winget_repo().manifests().len() && manifest_matches(query@, self.winget_repo().manifests()[j2])
                            implies exists|k: int| 0 <= k < results@.len() && results@[k].0 == source && results@[k].1@ == winget_record(self.winget_repo().manifests()[j2]) by {
                            let m2 = choose|m2: int| 0 <= m2 < found@.len() && found@[m2] == &self.winget_repo().manifests()[j2];
                        }
                        assert(source_complete(*self, query@, source, results@));
                        assert forall|i2: int| 0 <= i2 < i implies source_complete(*self, query@, #[trigger] self.enabled_sources@[i2], results@) by {
                            lemma_complete_grows(*self, query@, self.enabled_sources@[i2], start, results@);
                        }
                    }
                },
                RepositorySource::Android => {
                    let found = self.playstore.search(query);
                    let mut j: usize = 0;
                    while j < found.len()
                        invariant
                            source == RepositorySource::Android,
                            j <= found@.len(),
                            results@.len() >= start.len(),
                            results@.subrange(0, start.len() as int) == start,
                            forall|i2: int| 0 <= i2 < i ==> source_complete(*self, query@, #[trigger] self.enabled_sources@[i2], start),
                            forall|m2: int| #![trigger found@[m2]] 0 <= m2 < j ==> exists|k: int| 0 <= k < results@.len() && results@[k].0 == source && results@[k].1@ == fdroid_record(*found@[m2]),
                            self.enabled_sources@.contains(source),
                            forall|m: int| 0 <= m < found@.len() ==> self.playstore_repo().apps().contains(*found@[m]) && app_matches(query@, *found@[m]),
                            forall|k: int| 0 <= k < results@.len() ==> self.enabled_sources@.contains(results@[k].0) && found_in(*self, query@, results@[k].0, results@[k].1@),
                        decreases found@.len() - j,
                    {
                        let ghost before = results@;
                        let e = found[j];
                        let rec = PackageInfo::from_fdroid(e.duplicate());
                        results.push((RepositorySource::Android, rec));
                        proof {
                            assert(results@.subrange(0, start.len() as int) =~= start) by {
                                assert(before.subrange(0, start.len() as int) == start);
                            }
                            assert(results@[before.len() as int].1@ == fdroid_record(*found@[j as int]));
                            assert forall|m2: int| #![trigger found@[m2]] 0 <= m2 < j + 1 implies exists|k: int| 0 <= k < results@.len() && results@[k].0 == source && results@[k].1@ == fdroid_record(*found@[m2]) by {
                                if m2 < j {
                                    let k = choose|k: int| 0 <= k < before.len() && before[k].0 == source && before[k].1@ == fdroid_record(*found@[m2]);
                                    assert(results@[k] == before[k]);
                                } else {
                                    assert(results@[before.len() as int].0 == source);
                                }
                            }
                            assert(self.playstore_repo().apps().contains(*e));
                            assert forall|k: int| 0 <= k < results@.len() implies self.enabled_sources@.contains(results@[k].0) && found_in(*self, query@, results@[k].0, results@[k].1@) by {
                                if k < before.len() {
                                    assert(results@[k] == before[k]);
                                }
                            }
                        }
                        j = j + 1;
                    }
                    proof {
                        assert forall|j2: int| 0 <= j2 < self.playstore_repo().apps().len() && app_matches(query@, self.playstore_repo().apps()[j2])
                            implies exists|k: int| 0 <= k < results@.len() && results@[k].0 == source && results@[k].1@ == fdroid_record(self.playstore_repo().apps()[j2]) by {
                            let m2 = choose|m2: int| 0 <= m2 < found@.len() && found@[m2] == &self.playstore_repo().apps()[j2];
                        }
                        assert(source_complete(*self, query@, source, results@));
                        assert forall|i2: int| 0 <= i2 < i implies source_complete(*self, query@, #[trigger] self.enabled_sources@[i2], results@) by {
                            lemma_complete_grows(*self, query@, self.enabled_sources@[i2], start, results@);
                        }
                    }
                },
                RepositorySource::Native => {},
            }
            proof {
                assert(self.enabled_sources@[i as int] == source);
            }
            i = i + 1;
        }
        results
    }

    /// The package called `name` from the first source that has it, in the
    /// order Pacman, APT, DNF, Winget, F-Droid.
    pub fn get(&self, name: &str) -> (r: Option<(RepositorySource, PackageInfo)>)
        ensures
            r matches Some((s, p)) ==> named_entry(*self, name@, s, p@),
            r matches Some((s, p)) ==> s == RepositorySource::Pacman ==> exists|j: int|
                0 <= j < self.pacman_repo().packages().len() && self.pacman_repo().packages()[j].name@ == name@
                    && (forall|k: int| j < k < self.pacman_repo().packages().len() ==> self.pacman_repo().packages()[k].name@ != name@)
                    && p@ == pacman_record(self.pacman_repo().packages()[j]),
            r matches Some((s, p)) ==> s == RepositorySource::Apt ==> exists|j: int|
                0 <= j < self.apt_repo().packages().len() && self.apt_repo().packages()[j].package@ == name@
                    && (forall|k: int| j < k < self.apt_repo().packages().len() ==> self.apt_repo().packages()[k].package@ != name@)
                    && p@ == apt_record(self.apt_repo().packages()[j]@),
            r matches Some((s, p)) ==> s == RepositorySource::Dnf ==> exists|j: int|
                0 <= j < self.dnf_repo().packages().len() && self.dnf_repo().packages()[j].name@ == name@
                    && (forall|k: int| j < k < self.dnf_repo().packages().len() ==> self.dnf_repo().packages()[k].name@ != name@)
                    && p@ == dnf_record(self.dnf_repo().packages()[j]),
            r matches Some((s, p)) ==> s == RepositorySource::Winget ==> exists|j: int|
                0 <= j < self.winget_repo().manifests().len() && self.winget_repo().manifests()[j].package_id@ == name@
                    && (forall|k: int| 0 <= k < j ==> self.winget_repo().manifests()[k].package_id@ != name@)
                    && p@ == winget_record(self.winget_repo().manifests()[j]),
            r matches Some((s, p)) ==> s == RepositorySource::Android ==> exists|j: int|
                0 <= j < self.playstore_repo().apps().len() && self.playstore_repo().apps()[j].package_name@ == name@
                    && (forall|k: int| 0 <= k < j ==> self.playstore_repo().apps()[k].package_name@ != name@)
                    && p@ == fdroid_record(self.playstore_repo().apps()[j]),
            r is None ==> (forall|j: int| 0 <= j < self.pacman_repo().packages().len() ==> self.pacman_repo().packages()[j].name@ != name@)
                && (forall|j: int| 0 <= j < self.apt_repo().packages().len() ==> self.apt_repo().packages()[j].package@ != name@)
                && (forall|j: int| 0 <= j < self.dnf_repo().packages().len() ==> self.dnf_repo().packages()[j].name@ != name@)
                && (forall|j: int| 0 <= j < self.winget_repo().manifests().len() ==> self.winget_repo().manifests()[j].package_id@ != name@)
                && (forall|j: int| 0 <= j < self.playstore_repo().apps().len() ==> self.playstore_repo().apps()[j].package_name@ != name@),
            r matches Some((s, _)) ==> (s == RepositorySource::Apt || s == RepositorySource::Dnf || s == RepositorySource::Winget
                || s == RepositorySource::Android) ==> forall|j: int| 0 <= j < self.pacman_repo().packages().len() ==> self.pacman_repo().packages()[j].name@ != name@,
            r matches Some((s, _)) ==> (s == RepositorySource::Dnf || s == RepositorySource::Winget || s == RepositorySource::Android)
                ==> forall|j: int| 0 <= j < self.apt_repo().packages().len() ==> self.apt_repo().packages()[j].package@ != name@,
            r matches Some((s, _)) ==> (s == RepositorySource::Winget || s == RepositorySource::Android)
                ==> forall|j: int| 0 <= j < self.dnf_repo().packages().len() ==> self.dnf_repo().packages()[j].name@ != name@,
            r matches Some((s, _)) ==> s == RepositorySource::Android
                ==> forall|j: int| 0 <= j < self.winget_repo().manifests().len() ==> self.winget_repo().manifests()[j].package_id@ != name@,
    {
        if let Some(pkg) = self.pacman.get(name) {
            return Some((RepositorySource::Pacman, PackageInfo::from_pacman(pkg.duplicate())));
        }
        if let Some(pkg) = self.apt.get(name) {
            proof {
                let j = choose|j: int| 0 <= j < self.apt.packages().len() && *pkg == self.apt.packages()[j];
                assert(self.apt_repo().packages()[j] == *pkg);
                assert(self.apt_repo().packages().contains(*pkg));
            }
            return Some((RepositorySource::Apt, PackageInfo::from_apt(pkg.duplicate())));
        }
        if let Some(pkg) = self.dnf.get(name) {
            return Some((RepositorySource::Dnf, PackageInfo::from_dnf(pkg.duplicate())));
        }
        if let Some(m) = self.winget.get(name) {
            return Some((RepositorySource::Winget, PackageInfo::from_winget(m.duplicate())));
        }
        if let Some(app) = self.playstore.get(name) {
            return Some((RepositorySource::Android, PackageInfo::from_fdroid(app.duplicate())));
        }
        None
    }
}

impl Default for UnifiedRepositoryManager {
    fn default() -> (r: UnifiedRepositoryManager)
        ensures
            r.enabled() == all_sources(),
            r.apt_repo().sources().len() == 2,
    {
        let mut manager = UnifiedRepositoryManager::new();
        manager.configure_defaults();
        manager
    }
}

} // verus!
