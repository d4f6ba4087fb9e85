//! A cache of synchronised repository indexes.
use crate::model::{PackageFormat, PackageInfo, PkgError, Repository};
use crate::text::{lower_of, lowercase, matches_lowered, query_matches};
use vstd::prelude::*;
use vstd::string::StringExecFns;

verus! {

/// One repository's index.
pub struct RepositoryIndex {
    pub repo: Repository,
    pub packages: Vec<PackageInfo>,
    pub last_sync: u64,
}

/// Where the index of a repository of `format` lives under `url`.
pub open spec fn index_url(format: PackageFormat, url: Seq<char>) -> Option<Seq<char>> {
    match format {
        PackageFormat::Deb => Some(url + "/Packages.gz"@),
        PackageFormat::Rpm => Some(url + "/repodata/primary.xml.gz"@),
        PackageFormat::Native => Some(url + "/packages.json"@),
        _ => None,
    }
}

/// The file name of a package in a repository of its format.
pub open spec fn package_file(p: PackageInfo) -> Option<Seq<char>> {
    match p.format {
        PackageFormat::Deb => Some(p.name@ + "_"@ + p.version@ + ".deb"@),
        PackageFormat::Rpm => Some(p.name@ + "-"@ + p.version@ + "."@ + p.arch@ + ".rpm"@),
        PackageFormat::Native => Some(p.name@ + "-"@ + p.version@ + "-"@ + p.arch@ + ".pkg.tar.zst"@),
        _ => None,
    }
}

pub open spec fn index_has(ix: RepositoryIndex, name: Seq<char>) -> bool {
    exists|j: int| 0 <= j < ix.packages@.len() && ix.packages@[j].name@ == name
}

/// The index holds a record with `pkg`'s name and version.
pub open spec fn lists(ix: RepositoryIndex, pkg: PackageInfo) -> bool {
    exists|j: int| 0 <= j < ix.packages@.len() && #[trigger] ix.packages@[j].name@ == pkg.name@ && ix.packages@[j].version@ == pkg.version@
}

/// Some index is named `n`.
pub open spec fn indexed(ixs: Seq<RepositoryIndex>, n: Seq<char>) -> bool {
    exists|i: int| 0 <= i < ixs.len() && ixs[i].repo.name@ == n
}

/// `x` was already cached, or is the fresh index of an enabled repository
/// among the first `k`.
pub open spec fn traced(old_ixs: Seq<RepositoryIndex>, x: RepositoryIndex, repos: Seq<Repository>, k: int) -> bool {
    old_ixs.contains(x) || exists|m: int| 0 <= m < k && repos[m].enabled && x.repo == repos[m]
}

proof fn lemma_sync_all_step(
    old_ixs: Seq<RepositoryIndex>,
    before: Seq<RepositoryIndex>,
    after: Seq<RepositoryIndex>,
    repos: Seq<Repository>,
    k: int,
)
    requires
        0 <= k < repos.len(),
        repos[k].enabled,
        forall|x: int| 0 <= x < before.len() ==> #[trigger] traced(old_ixs, before[x], repos, k),
        forall|m: int| 0 <= m < k && repos[m].enabled ==> #[trigger] indexed(before, repos[m].name@),
        exists|i: int| 0 <= i < after.len() && after[i].repo.name@ == repos[k].name@ && after[i].repo == repos[k],
        forall|x: int| 0 <= x < before.len() && before[x].repo.name@ != repos[k].name@ ==> after.contains(#[trigger] before[x]),
        forall|x: int| 0 <= x < after.len() && after[x].repo.name@ != repos[k].name@ ==> before.contains(#[trigger] after[x]),
        forall|i: int, j: int| 0 <= i < after.len() && 0 <= j < after.len() && i != j ==> after[i].repo.name@ != after[j].repo.name@,
    ensures
        forall|x: int| 0 <= x < after.len() ==> #[trigger] traced(old_ixs, after[x], repos, k + 1),
        forall|m: int| 0 <= m < k + 1 && repos[m].enabled ==> #[trigger] indexed(after, repos[m].name@),
{
    let i0 = choose|i: int| 0 <= i < after.len() && after[i].repo.name@ == repos[k].name@ && after[i].repo == repos[k];
    assert forall|x: int| 0 <= x < after.len() implies #[trigger] traced(old_ixs, after[x], repos, k + 1) by {
        if after[x].repo.name@ != repos[k].name@ {
            let y = choose|y: int| 0 <= y < before.len() && before[y] == after[x];
            assert(traced(old_ixs, before[y], repos, k));
            if !old_ixs.contains(after[x]) {
                let m = choose|m: int| 0 <= m < k && repos[m].enabled && before[y].repo == repos[m];
                assert(0 <= m < k + 1 && repos[m].enabled && after[x].repo == repos[m]);
            }
        } else {
            assert(x == i0);
            assert(0 <= k < k + 1 && repos[k].enabled && after[x].repo == repos[k]);
        }
    }
    assert forall|m: int| 0 <= m < k + 1 && repos[m].enabled implies #[trigger] indexed(after, repos[m].name@) by {
        if m == k || repos[m].name@ == repos[k].name@ {
            assert(after[i0].repo.name@ == repos[m].name@);
        } else {
            assert(indexed(before, repos[m].name@));
            let y = choose|y: int| 0 <= y < before.len() && before[y].repo.name@ == repos[m].name@;
            assert(after.contains(before[y]));
            let z = choose|z: int| 0 <= z < after.len() && after[z] == before[y];
            assert(after[z].repo.name@ == repos[m].name@);
        }
    }
}

/// The records of `ixs` that satisfy `pred`, index by index, each index
/// in record order; equal records of different indexes are all kept.
pub open spec fn cache_matches(ixs: Seq<RepositoryIndex>, pred: spec_fn(PackageInfo) -> bool) -> Seq<PackageInfo>
    decreases ixs.len(),
{
    if ixs.len() == 0 {
        Seq::empty()
    } else {
        cache_matches(ixs.drop_last(), pred) + ixs.last().packages@.filter(pred)
    }
}

pub open spec fn record_query(q: Seq<char>) -> spec_fn(PackageInfo) -> bool {
    |p: PackageInfo| query_matches(q, p.name@, p.description@)
}

pub open spec fn record_named(n: Seq<char>) -> spec_fn(PackageInfo) -> bool {
    |p: PackageInfo| p.name@ == n
}

proof fn lemma_cache_step(ixs: Seq<RepositoryIndex>, i: int, pred: spec_fn(PackageInfo) -> bool)
    requires
        0 <= i < ixs.len(),
    ensures
        cache_matches(ixs.subrange(0, i + 1), pred) == cache_matches(ixs.subrange(0, i), pred) + ixs[i].packages@.filter(pred),
{
    assert(ixs.subrange(0, i + 1).drop_last() =~= ixs.subrange(0, i));
}

/// `x` is among the records `out` refers to.
pub open spec fn listed(out: Seq<&PackageInfo>, x: PackageInfo) -> bool {
    exists|k: int| 0 <= k < out.len() && *out[k] == x
}

proof fn lemma_listed_push(out: Seq<&PackageInfo>, y: &PackageInfo)
    ensures
        forall|x: PackageInfo| listed(out, x) ==> #[trigger] listed(out.push(y), x),
        listed(out.push(y), *y),
{
    assert forall|x: PackageInfo| listed(out, x) implies #[trigger] listed(out.push(y), x) by {
        let k = choose|k: int| 0 <= k < out.len() && *out[k] == x;
        assert(out.push(y)[k] == out[k]);
    }
    assert(out.push(y)[out.len() as int] == y);
}

/// Repository cache: a directory and one index per repository name.
pub struct RepositoryCache {
    cache_dir: String,
    repos: Vec<RepositoryIndex>,
}

impl RepositoryCache {
    pub closed spec fn indexes(&self) -> Seq<RepositoryIndex> {
        self.repos@
    }

    pub closed spec fn wf(&self) -> bool {
        forall|i: int, j: int|
            0 <= i < self.repos@.len() && 0 <= j < self.repos@.len() && i != j ==> self.repos@[i].repo.name@
                != self.repos@[j].repo.name@
    }

    /// An empty cache in `cache_dir`.
    pub fn new(cache_dir: String) -> (r: RepositoryCache)
        ensures
            r.wf(),
            r.indexes().len() == 0,
    {
        RepositoryCache { cache_dir, repos: Vec::new() }
    }

    /// Records a fresh (empty) index for `repo`, replacing any index of the
    /// same name. Fetching and parsing the index is the transport's part.
    /// Repositories whose format has no index layout are refused.
    pub fn sync(&mut self, repo: &Repository) -> (r: Result<(), PkgError>)
        requires
            old(self).wf(),
        ensures
            final(self).wf(),
            r is Ok <==> index_url(repo.format, repo.url@) is Some,
            r matches Err(e) ==> e is UnsupportedFormat && final(self).indexes() == old(self).indexes(),
            r is Ok ==> exists|i: int|
                0 <= i < final(self).indexes().len() && final(self).indexes()[i].repo.name@ == repo.name@
                    && final(self).indexes()[i].repo == *repo && final(self).indexes()[i].packages@.len() == 0,
            r is Ok ==> forall|x: int| 0 <= x < old(self).indexes().len() && old(self).indexes()[x].repo.name@ != repo.name@
                ==> final(self).indexes().contains(#[trigger] old(self).indexes()[x]),
            r is Ok ==> forall|x: int| 0 <= x < final(self).indexes().len() && final(self).indexes()[x].repo.name@ != repo.name@
                ==> old(self).indexes().contains(#[trigger] final(self).indexes()[x]),
    {
        let mut url = repo.url.clone();
        match repo.format {
            PackageFormat::Deb => url.append("/Packages.gz"),
            PackageFormat::Rpm => url.append("/repodata/primary.xml.gz"),
            PackageFormat::Native => url.append("/packages.json"),
            _ => {
                return Err(PkgError::UnsupportedFormat);
            },
        }
        let copy = Repository {
            name: repo.name.clone(),
            url: repo.url.clone(),
            format: repo.format,
            enabled: repo.enabled,
            gpg_key: match &repo.gpg_key {
                Some(k) => Some(k.clone()),
                None => None,
            },
            priority: repo.priority,
        };
        assert(copy == *repo);
        let index = RepositoryIndex { repo: copy, packages: Vec::new(), last_sync: 0 };
        let mut i: usize = 0;
        while i < self.repos.len()
            invariant
                self.repos@ == old(self).repos@,
                old(self).wf(),
                index.repo.name@ == repo.name@,
                index.repo == *repo,
                index.packages@.len() == 0,
                index_url(repo.format, repo.url@) is Some,
                i <= self.repos@.len(),
                forall|k: int| 0 <= k < i ==> self.repos@[k].repo.name@ != repo.name@,
            decreases self.repos@.len() - i,
        {
            if self.repos[i].repo.name == repo.name {
                let ghost before = self.repos@;
                self.repos.set(i, index);
                proof {
                    assert(self.repos@[i as int].repo.name@ == repo.name@);
                    assert forall|a: int, b: int| 0 <= a < self.repos@.len() && 0 <= b < self.repos@.len() && a != b
                        implies self.repos@[a].repo.name@ != self.repos@[b].repo.name@ by {
                        if a != i && b != i {
                            assert(before[a].repo.name@ != before[b].repo.name@);
                        } else if a == i {
                            assert(before[b].repo.name@ != before[a].repo.name@);
                        } else {
                            assert(before[a].repo.name@ != before[b].repo.name@);
                        }
                    }
                    assert(self.indexes()[i as int].packages@.len() == 0);
                    assert forall|x: int| 0 <= x < before.len() && before[x].repo.name@ != repo.name@
                        implies self.indexes().contains(#[trigger] before[x]) by {
                        assert(x != i);
                        assert(self.repos@[x] == before[x]);
                    }
                    assert forall|x: int| 0 <= x < self.repos@.len() && self.repos@[x].repo.name@ != repo.name@
                        implies before.contains(#[trigger] self.repos@[x]) by {
                        assert(x != i);
                        assert(self.repos@[x] == before[x]);
                    }
                }
                return Ok(());
            }
            i = i + 1;
        }
        let ghost before = self.repos@;
        self.repos.push(index);
        proof {
            assert(self.repos@[before.len() as int].repo.name@ == repo.name@);
            assert(self.indexes()[before.len() as int].packages@.len() == 0);
            assert forall|x: int| 0 <= x < before.len() && before[x].repo.name@ != repo.name@
                implies self.indexes().contains(#[trigger] before[x]) by {
                assert(self.repos@[x] == before[x]);
            }
            assert forall|x: int| 0 <= x < self.repos@.len() && self.repos@[x].repo.name@ != repo.name@
                implies before.contains(#[trigger] self.repos@[x]) by {
                if x < before.len() {
                    assert(self.repos@[x] == before[x]);
                }
            }
            assert forall|a: int, b: int| 0 <= a < self.repos@.len() && 0 <= b < self.repos@.len() && a != b
                implies self.repos@[a].repo.name@ != self.repos@[b].repo.name@ by {
                if a < before.len() && b < before.len() {
                    assert(before[a].repo.name@ != before[b].repo.name@);
                }
            }
        }
        Ok(())
    }

    /// Synchronises every enabled repository, stopping at the first that
    /// is refused. Disabled repositories are never indexed.
    pub fn sync_all(&mut self, repos: &[Repository]) -> (r: Result<(), PkgError>)
        requires
            old(self).wf(),
        ensures
            final(self).wf(),
            r is Ok <==> forall|k: int| 0 <= k < repos@.len() && repos@[k].enabled ==> index_url(repos@[k].format, repos@[k].url@) is Some,
            r matches Err(e) ==> e is UnsupportedFormat,
            r is Ok ==> forall|k: int| 0 <= k < repos@.len() && repos@[k].enabled ==> #[trigger] indexed(final(self).indexes(), repos@[k].name@),
            r is Ok ==> forall|x: int| 0 <= x < final(self).indexes().len() ==> #[trigger] traced(old(self).indexes(), final(self).indexes()[x], repos@, repos@.len() as int),
            r is Err ==> exists|k: int| 0 <= k < repos@.len() && repos@[k].enabled && index_url(repos@[k].format, repos@[k].url@) is None
                && (forall|m: int| 0 <= m < k && repos@[m].enabled ==> index_url(repos@[m].format, repos@[m].url@) is Some
                    && #[trigger] indexed(final(self).indexes(), repos@[m].name@))
                && forall|x: int| 0 <= x < final(self).indexes().len() ==> #[trigger] traced(old(self).indexes(), final(self).indexes()[x], repos@, k),
    {
        let mut k: usize = 0;
        proof {
            assert forall|x: int| 0 <= x < self.indexes().len() implies #[trigger] traced(old(self).indexes(), self.indexes()[x], repos@, 0) by {
                assert(old(self).indexes()[x] == self.indexes()[x]);
            }
        }
        while k < repos.len()
            invariant
                self.wf(),
                k <= repos@.len(),
                forall|m: int| 0 <= m < k && repos@[m].enabled ==> index_url(repos@[m].format, repos@[m].url@) is Some,
                forall|m: int| 0 <= m < k && repos@[m].enabled ==> #[trigger] indexed(self.indexes(), repos@[m].name@),
                forall|x: int| 0 <= x < self.indexes().len() ==> #[trigger] traced(old(self).indexes(), self.indexes()[x], repos@, k as int),
            decreases repos@.len() - k,
        {
            let ghost before = self.indexes();
            if repos[k].enabled {
                match self.sync(&repos[k]) {
                    Ok(()) => {},
                    Err(e) => {
                        proof {
                            assert(self.indexes() == before);
                        }
                        return Err(e);
                    },
                }
                proof {
                    lemma_sync_all_step(old(self).indexes(), before, self.indexes(), repos@, k as int);
                }
            } else {
                proof {
                    assert forall|x: int| 0 <= x < self.indexes().len() implies #[trigger] traced(old(self).indexes(), self.indexes()[x], repos@, k + 1) by {
                        assert(traced(old(self).indexes(), self.indexes()[x], repos@, k as int));
                    }
                }
            }
            k = k + 1;
        }
        Ok(())
    }

    /// Packages whose name or description contains `query`, ignoring case.
    pub fn search(&self, query: &str) -> (r: Vec<&PackageInfo>)
        ensures
            crate::text::derefs(r@) == cache_matches(self.indexes(), record_query(query@)),
            forall|k: int| 0 <= k < r@.len() ==> query_matches(query@, r@[k].name@, r@[k].description@)
                && exists|i: int| 0 <= i < self.indexes().len() && self.indexes()[i].packages@.contains(*r@[k]),
            forall|i: int, j: int| 0 <= i < self.indexes().len() && 0 <= j < self.indexes()[i].packages@.len()
                && query_matches(query@, self.indexes()[i].packages@[j].name@, self.indexes()[i].packages@[j].description@)
                ==> listed(r@, #[trigger] self.indexes()[i].packages@[j]),
    {
        let q = lowercase(query);
        let mut out: Vec<&PackageInfo> = Vec::new();
        proof {
            assert(self.repos@.subrange(0, 0) =~= Seq::<RepositoryIndex>::empty());
            crate::text::lemma_filter_empty(Seq::<PackageInfo>::empty(), record_query(query@));
        }
        let mut i: usize = 0;
        while i < self.repos.len()
            invariant
                q@ == lower_of(query@),
                i <= self.repos@.len(),
                crate::text::derefs(out@) == cache_matches(self.repos@.subrange(0, i as int), record_query(query@)),
                forall|k: int| 0 <= k < out@.len() ==> query_matches(query@, out@[k].name@, out@[k].description@)
                    && exists|i2: int| 0 <= i2 < self.repos@.len() && self.repos@[i2].packages@.contains(*out@[k]),
                forall|i2: int, j2: int| 0 <= i2 < i && 0 <= j2 < self.repos@[i2].packages@.len()
                    && query_matches(query@, self.repos@[i2].packages@[j2].name@, self.repos@[i2].packages@[j2].description@)
                    ==> listed(out@, #[trigger] self.repos@[i2].packages@[j2]),
            decreases self.repos@.len() - i,
        {
            let ix = &self.repos[i];
            let mut j: usize = 0;
            proof {
                crate::text::lemma_filter_empty(ix.packages@, record_query(query@));
                assert(crate::text::derefs(out@) =~= cache_matches(self.repos@.subrange(0, i as int), record_query(query@)) + ix.packages@.subrange(0, 0).filter(record_query(query@)));
            }
            while j < ix.packages.len()
                invariant
                    q@ == lower_of(query@),
                    i < self.repos@.len(),
                    ix == self.repos@[i as int],
                    j <= ix.packages@.len(),
                    crate::text::derefs(out@) == cache_matches(self.repos@.subrange(0, i as int), record_query(query@)) + ix.packages@.subrange(0, j as int).filter(record_query(query@)),
                    forall|k: int| 0 <= k < out@.len() ==> query_matches(query@, out@[k].name@, out@[k].description@)
                        && exists|i2: int| 0 <= i2 < self.repos@.len() && self.repos@[i2].packages@.contains(*out@[k]),
                    forall|i2: int, j2: int| 0 <= i2 < i && 0 <= j2 < self.repos@[i2].packages@.len()
                        && query_matches(query@, self.repos@[i2].packages@[j2].name@, self.repos@[i2].packages@[j2].description@)
                        ==> listed(out@, #[trigger] self.repos@[i2].packages@[j2]),
                    forall|j2: int| 0 <= j2 < j
                        && query_matches(query@, self.repos@[i as int].packages@[j2].name@, self.repos@[i as int].packages@[j2].description@)
                        ==> listed(out@, #[trigger] self.repos@[i as int].packages@[j2]),
                decreases ix.packages@.len() - j,
            {
                let p = &ix.packages[j];
                let ghost out0 = out@;
                proof {
                    crate::text::lemma_filter_step(ix.packages@, j as int, record_query(query@));
                }
                if matches_lowered(q.as_str(), p.name.as_str(), p.description.as_str()) {
                    let ghost before = out@;
                    proof {
                        assert(self.repos@[i as int].packages@[j as int] == *p);
                        assert(self.repos@[i as int].packages@.contains(*p));
                    }
                    out.push(p);
                    proof {
                        crate::text::lemma_derefs_push(before, p);
                        assert(ix.packages@.subrange(0, j + 1).filter(record_query(query@)) == ix.packages@.subrange(0, j as int).filter(record_query(query@)).push(*p));
                        assert(crate::text::derefs(out@) =~= cache_matches(self.repos@.subrange(0, i as int), record_query(query@)) + ix.packages@.subrange(0, j + 1).filter(record_query(query@)));
                        lemma_listed_push(before, p);
                        assert(out@ == before.push(p));
                        assert forall|k: int| 0 <= k < out@.len() implies query_matches(query@, out@[k].name@, out@[k].description@)
                            && exists|i2: int| 0 <= i2 < self.repos@.len() && self.repos@[i2].packages@.contains(*out@[k]) by {
                            if k < before.len() {
                                assert(out@[k] == before[k]);
                            } else {
                                assert(self.repos@[i as int].packages@.contains(*out@[k]));
                            }
                        }
                    }
                }
                j = j + 1;
            }
            proof {
                lemma_cache_step(self.repos@, i as int, record_query(query@));
                assert(ix.packages@.subrange(0, ix.packages@.len() as int) =~= ix.packages@);
            }
            i = i + 1;
        }
        proof {
            assert(self.indexes() == self.repos@);
            assert(self.repos@.subrange(0, self.repos@.len() as int) =~= self.repos@);
        }
        out
    }

    /// The package called `name` from the repository of highest priority
    /// that offers it (the first such one on equal priority).
    pub fn find(&self, name: &str) -> (r: Option<&PackageInfo>)
        ensures
            r is None <==> forall|i: int| 0 <= i < self.indexes().len() ==> !index_has(self.indexes()[i], name@),
            r matches Some(p) ==> p.name@ == name@ && exists|i: int|
                0 <= i < self.indexes().len() && self.indexes()[i].packages@.contains(*p) && forall|j: int|
                    0 <= j < self.indexes().len() && index_has(self.indexes()[j], name@)
                        ==> self.indexes()[j].repo.priority <= self.indexes()[i].repo.priority,
    {
        let key = String::from_str(name);
        let mut best: Option<(usize, usize)> = None;
        let mut i: usize = 0;
        while i < self.repos.len()
            invariant
                key@ == name@,
                i <= self.repos@.len(),
                best is None ==> forall|k: int| 0 <= k < i ==> !index_has(self.repos@[k], name@),
                best matches Some((b, j)) ==> b < i && j < self.repos@[b as int].packages@.len()
                    && self.repos@[b as int].packages@[j as int].name@ == name@ && forall|k: int|
                    0 <= k < i && index_has(self.repos@[k], name@) ==> self.repos@[k].repo.priority
                        <= self.repos@[b as int].repo.priority,
            decreases self.repos@.len() - i,
        {
            let ix = &self.repos[i];
            let mut j: usize = 0;
            let mut hit: Option<usize> = None;
            while j < ix.packages.len()
                invariant
                    key@ == name@,
                    ix == self.repos@[i as int],
                    j <= ix.packages@.len(),
                    hit is None ==> forall|m: int| 0 <= m < j ==> ix.packages@[m].name@ != name@,
                    hit matches Some(h) ==> h < ix.packages@.len() && ix.packages@[h as int].name@ == name@,
                decreases ix.packages@.len() - j,
            {
                if hit.is_none() && ix.packages[j].name == key {
                    hit = Some(j);
                }
                j = j + 1;
            }
            match hit {
                Some(h) => {
                    let better = match best {
                        None => true,
                        Some((b, _)) => ix.repo.priority > self.repos[b].repo.priority,
                    };
                    if better {
                        best = Some((i, h));
                    }
                },
                None => {},
            }
            i = i + 1;
        }
        match best {
            Some((b, j)) => {
                let p = &self.repos[b].packages[j];
                proof {
                    assert(self.indexes()[b as int].packages@[j as int] == *p);
                    assert(index_has(self.repos@[b as int], name@));
                }
                Some(p)
            },
            None => None,
        }
    }

    /// Every package called `name`, repository by repository.
    pub fn get_versions(&self, name: &str) -> (r: Vec<&PackageInfo>)
        ensures
            crate::text::derefs(r@) == cache_matches(self.indexes(), record_named(name@)),
            forall|k: int| 0 <= k < r@.len() ==> r@[k].name@ == name@ && exists|i: int|
                0 <= i < self.indexes().len() && self.indexes()[i].packages@.contains(*r@[k]),
            forall|i: int, j: int| 0 <= i < self.indexes().len() && 0 <= j < self.indexes()[i].packages@.len()
                && self.indexes()[i].packages@[j].name@ == name@ ==> listed(r@, #[trigger] self.indexes()[i].packages@[j]),
    {
        let key = String::from_str(name);
        let mut out: Vec<&PackageInfo> = Vec::new();
        proof {
            assert(self.repos@.subrange(0, 0) =~= Seq::<RepositoryIndex>::empty());
            crate::text::lemma_filter_empty(Seq::<PackageInfo>::empty(), record_named(name@));
        }
        let mut i: usize = 0;
        while i < self.repos.len()
            invariant
                key@ == name@,
                i <= self.repos@.len(),
                crate::text::derefs(out@) == cache_matches(self.repos@.subrange(0, i as int), record_named(name@)),
                forall|k: int| 0 <= k < out@.len() ==> out@[k].name@ == name@ && exists|i2: int|
                    0 <= i2 < self.repos@.len() && self.repos@[i2].packages@.contains(*out@[k]),
                forall|i2: int, j2: int| 0 <= i2 < i && 0 <= j2 < self.repos@[i2].packages@.len()
                    && self.repos@[i2].packages@[j2].name@ == name@ ==> listed(out@, #[trigger] self.repos@[i2].packages@[j2]),
            decreases self.repos@.len() - i,
        {
            let ix = &self.repos[i];
            let mut j: usize = 0;
            proof {
                crate::text::lemma_filter_empty(ix.packages@, record_named(name@));
                assert(crate::text::derefs(out@) =~= cache_matches(self.repos@.subrange(0, i as int), record_named(name@)) + ix.packages@.subrange(0, 0).filter(record_named(name@)));
            }
            while j < ix.packages.len()
                invariant
                    key@ == name@,
                    i < self.repos@.len(),
                    ix == self.repos@[i as int],
                    j <= ix.packages@.len(),
                    crate::text::derefs(out@) == cache_matches(self.repos@.subrange(0, i as int), record_named(name@)) + ix.packages@.subrange(0, j as int).filter(record_named(name@)),
                    forall|k: int| 0 <= k < out@.len() ==> out@[k].name@ == name@ && exists|i2: int|
                        0 <= i2 < self.repos@.len() && self.repos@[i2].packages@.contains(*out@[k]),
                    forall|i2: int, j2: int| 0 <= i2 < i && 0 <= j2 < self.repos@[i2].packages@.len()
                        && self.repos@[i2].packages@[j2].name@ == name@ ==> listed(out@, #[trigger] self.repos@[i2].packages@[j2]),
                    forall|j2: int| 0 <= j2 < j && self.repos@[i as int].packages@[j2].name@ == name@
                        ==> listed(out@, #[trigger] self.repos@[i as int].packages@[j2]),
                decreases ix.packages@.len() - j,
            {
                let ghost out0 = out@;
                proof {
                    crate::text::lemma_filter_step(ix.packages@, j as int, record_named(name@));
                }
                if ix.packages[j].name == key {
                    let ghost before = out@;
                    let p = &ix.packages[j];
                    proof {
                        assert(self.repos@[i as int].packages@[j as int] == *p);
                        assert(self.repos@[i as int].packages@.contains(*p));
                    }
                    out.push(p);
                    proof {
                        crate::text::lemma_derefs_push(before, p);
                        assert(ix.packages@.subrange(0, j + 1).filter(record_named(name@)) == ix.packages@.subrange(0, j as int).filter(record_named(name@)).push(*p));
                        assert(crate::text::derefs(out@) =~= cache_matches(self.repos@.subrange(0, i as int), record_named(name@)) + ix.packages@.subrange(0, j + 1).filter(record_named(name@)));
                        lemma_listed_push(before, p);
                        assert(out@ == before.push(p));
                        assert forall|k: int| 0 <= k < out@.len() implies out@[k].name@ == name@ && exists|i2: int|
                            0 <= i2 < self.repos@.len() && self.repos@[i2].packages@.contains(*out@[k]) by {
                            if k < before.len() {
                                assert(out@[k] == before[k]);
                            } else {
                                assert(self.repos@[i as int].packages@.contains(*out@[k]));
                            }
                        }
                    }
                }
                j = j + 1;
            }
            proof {
                lemma_cache_step(self.repos@, i as int, record_named(name@));
                assert(ix.packages@.subrange(0, ix.packages@.len() as int) =~= ix.packages@);
            }
            i = i + 1;
        }
        proof {
            assert(self.indexes() == self.repos@);
            assert(self.repos@.subrange(0, self.repos@.len() as int) =~= self.repos@);
        }
        out
    }

    /// Download URL of `pkg`: the first repository whose index lists the
    /// same name and version, joined with the file name its format uses.
    pub fn get_download_url(&self, pkg: &PackageInfo) -> (r: Option<String>)
        ensures
            r matches Some(u) ==> package_file(*pkg) matches Some(f) && exists|i: int|
                0 <= i < self.indexes().len() && u@ == self.indexes()[i].repo.url@ + "/"@ + f && lists(self.indexes()[i], *pkg)
                    && forall|i2: int| 0 <= i2 < i ==> !lists(self.indexes()[i2], *pkg),
            package_file(*pkg) is None ==> r is None,
            package_file(*pkg) is Some && (exists|i: int, j: int|
                0 <= i < self.indexes().len() && 0 <= j < self.indexes()[i].packages@.len()
                    && #[trigger] self.indexes()[i].packages@[j].name@ == pkg.name@
                    && self.indexes()[i].packages@[j].version@ == pkg.version@) ==> r is Some,
    {
        let mut i: usize = 0;
        while i < self.repos.len()
            invariant
                i <= self.repos@.len(),
                forall|i2: int, j2: int| 0 <= i2 < i && 0 <= j2 < self.repos@[i2].packages@.len()
                    ==> !(#[trigger] self.repos@[i2].packages@[j2].name@ == pkg.name@ && self.repos@[i2].packages@[j2].version@ == pkg.version@),
            decreases self.repos@.len() - i,
        {
            let ix = &self.repos[i];
            let mut listed = false;
            let mut j: usize = 0;
            while j < ix.packages.len()
                invariant
                    j <= ix.packages@.len(),
                    i < self.repos@.len(),
                    ix == self.repos@[i as int],
                    listed == exists|j2: int| 0 <= j2 < j && #[trigger] ix.packages@[j2].name@ == pkg.name@ && ix.packages@[j2].version@ == pkg.version@,
                decreases ix.packages@.len() - j,
            {
                if ix.packages[j].name == pkg.name && ix.packages[j].version == pkg.version {
                    listed = true;
                }
                j = j + 1;
            }
            if listed {
                let mut file = pkg.name.clone();
                match pkg.format {
                    PackageFormat::Deb => {
                        file.append("_");
                        file.append(pkg.version.as_str());
                        file.append(".deb");
                    },
                    PackageFormat::Rpm => {
                        file.append("-");
                        file.append(pkg.version.as_str());
                        file.append(".");
                        file.append(pkg.arch.as_str());
                        file.append(".rpm");
                    },
                    PackageFormat::Native => {
                        file.append("-");
                        file.append(pkg.version.as_str());
                        file.append("-");
                        file.append(pkg.arch.as_str());
                        file.append(".pkg.tar.zst");
                    },
                    _ => {
                        return None;
                    },
                }
                let mut url = ix.repo.url.clone();
                url.append("/");
                url.append(file.as_str());
                proof {
                    assert(url@ == self.indexes()[i as int].repo.url@ + "/"@ + file@);
                    assert(lists(self.indexes()[i as int], *pkg));
                    assert forall|i2: int| 0 <= i2 < i implies !lists(self.indexes()[i2], *pkg) by {
                        if lists(self.indexes()[i2], *pkg) {
                            let j2 = choose|j2: int| 0 <= j2 < self.repos@[i2].packages@.len() && #[trigger] self.repos@[i2].packages@[j2].name@ == pkg.name@
                                && self.repos@[i2].packages@[j2].version@ == pkg.version@;
                        }
                    }
                }
                return Some(url);
            }
            i = i + 1;
        }
        None
    }
}

impl Default for RepositoryCache {
    fn default() -> (r: RepositoryCache)
        ensures
            r.wf(),
            r.indexes().len() == 0,
    {
        RepositoryCache::new(String::from_str("/var/cache/rpm-next/repos"))
    }
}

} // verus!
