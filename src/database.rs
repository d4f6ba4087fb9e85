//! The installed-package ledger and the transaction value.
use crate::model::{PackageInfo, PackageView, PkgError};
use crate::resolver::{copy_records, insert_named, named_in, views};
use vstd::prelude::*;
use vstd::string::StringExecFns;

verus! {

/// The owner recorded for `path`, if any.
pub open spec fn owner_of(files: Seq<(String, String)>, path: Seq<char>) -> Option<Seq<char>> {
    if exists|i: int| 0 <= i < files.len() && files[i].0@ == path {
        Some(files[choose|i: int| 0 <= i < files.len() && files[i].0@ == path].1@)
    } else {
        None
    }
}

pub open spec fn keys_distinct(files: Seq<(String, String)>) -> bool {
    forall|i: int, j: int| 0 <= i < files.len() && 0 <= j < files.len() && i != j ==> files[i].0@ != files[j].0@
}

pub open spec fn names_unique(s: Seq<PackageView>) -> bool {
    forall|i: int, j: int| 0 <= i < s.len() && 0 <= j < s.len() && i != j ==> s[i].name != s[j].name
}

pub(crate) proof fn lemma_prefix_contains(s: Seq<Seq<char>>, i: int)
    requires
        0 <= i < s.len(),
    ensures
        forall|p: Seq<char>| s.subrange(0, i + 1).contains(p) == (s.subrange(0, i).contains(p) || p == s[i]),
{
    let t = s.subrange(0, i + 1);
    let u = s.subrange(0, i);
    assert(t =~= u.push(s[i]));
    assert forall|p: Seq<char>| s.subrange(0, i + 1).contains(p) == (s.subrange(0, i).contains(p) || p == s[i]) by {
        if u.contains(p) {
            let k = choose|k: int| 0 <= k < u.len() && u[k] == p;
            assert(t[k] == p);
        }
        if p == s[i] {
            assert(t[i] == p);
        }
        if t.contains(p) {
            let k = choose|k: int| 0 <= k < t.len() && t[k] == p;
            if k < i {
                assert(u[k] == p);
            }
        }
    }
}

/// Installed-package ledger: the installed records, one per name, and the
/// owner of each file path.
pub struct PackageDatabase {
    packages: Vec<PackageInfo>,
    files: Vec<(String, String)>,
}

impl PackageDatabase {
    pub closed spec fn installed(&self) -> Seq<PackageView> {
        views(self.packages@)
    }

    /// The owner of `path`, if the ledger records one.
    pub closed spec fn owner(&self, path: Seq<char>) -> Option<Seq<char>> {
        owner_of(self.files@, path)
    }

    pub closed spec fn wf(&self) -> bool {
        names_unique(views(self.packages@)) && keys_distinct(self.files@)
    }

    /// Installed records have distinct names.
    pub proof fn lemma_names_unique(&self)
        requires
            self.wf(),
        ensures
            names_unique(self.installed()),
    {
    }

    /// An empty ledger.
    pub fn new() -> (r: PackageDatabase)
        ensures
            r.wf(),
            r.installed().len() == 0,
            forall|p: Seq<char>| r.owner(p) is None,
    {
        PackageDatabase { packages: Vec::new(), files: Vec::new() }
    }

    /// Loads the ledger stored at `path`. No stored state means that
    /// nothing is installed; storage itself is handled outside the library.
    pub fn load(path: &str) -> (r: Result<PackageDatabase, PkgError>)
        ensures
            r matches Ok(db) ==> db.wf() && db.installed().len() == 0,
            r is Ok,
    {
        Ok(PackageDatabase::new())
    }

    /// Saves the ledger to `path`; storage itself is handled outside the
    /// library.
    pub fn save(&self, path: &str) -> (r: Result<(), PkgError>)
        ensures
            r is Ok,
    {
        Ok(())
    }

    /// Whether a package called `name` is installed.
    pub fn is_installed(&self, name: &str) -> (r: bool)
        ensures
            r == named_in(self.installed(), name@),
    {
        self.index_of(name).is_some()
    }

    fn index_of(&self, name: &str) -> (r: Option<usize>)
        ensures
            r matches Some(i) ==> i < self.installed().len() && self.installed()[i as int].name == name@,
            r is None ==> !named_in(self.installed(), name@),
    {
        let key = String::from_str(name);
        let mut i: usize = 0;
        while i < self.packages.len()
            invariant
                i <= self.packages@.len(),
                key@ == name@,
                forall|j: int| 0 <= j < i ==> self.packages@[j].name@ != name@,
            decreases self.packages@.len() - i,
        {
            if self.packages[i].name == key {
                return Some(i);
            }
            i = i + 1;
        }
        proof {
            if named_in(self.installed(), name@) {
                let j = choose|j: int| 0 <= j < self.installed().len() && self.installed()[j].name == name@;
                assert(self.packages@[j].name@ == name@);
            }
        }
        None
    }

    /// The installed record called `name`.
    pub fn get(&self, name: &str) -> (r: Option<&PackageInfo>)
        ensures
            r is Some <==> named_in(self.installed(), name@),
            r matches Some(p) ==> self.installed().contains(p@) && p@.name == name@,
    {
        match self.index_of(name) {
            Some(i) => {
                proof {
                    assert(self.installed()[i as int] == self.packages@[i as int]@);
                }
                Some(&self.packages[i])
            },
            None => None,
        }
    }

    /// The installed records, in the order they were registered.
    pub fn list(&self) -> (r: Vec<PackageInfo>)
        ensures
            views(r@) == self.installed(),
    {
        copy_records(&self.packages)
    }

    /// The package that owns `path`.
    pub fn file_owner(&self, path: &str) -> (r: Option<&str>)
        requires
            self.wf(),
        ensures
            r matches Some(o) ==> self.owner(path@) == Some(o@),
            r is None ==> self.owner(path@) is None,
    {
        let key = String::from_str(path);
        let mut i: usize = 0;
        while i < self.files.len()
            invariant
                i <= self.files@.len(),
                self.wf(),
                key@ == path@,
                forall|j: int| 0 <= j < i ==> self.files@[j].0@ != path@,
            decreases self.files@.len() - i,
        {
            if self.files[i].0 == key {
                proof {
                    let c = choose|c: int| 0 <= c < self.files@.len() && self.files@[c].0@ == path@;
                    assert(c == i);
                }
                return Some(self.files[i].1.as_str());
            }
            i = i + 1;
        }
        None
    }

    /// Records `owner` as the owner of `path`.
    fn set_owner(&mut self, path: &String, owner: &String)
        requires
            old(self).wf(),
        ensures
            final(self).wf(),
            final(self).installed() == old(self).installed(),
            forall|p: Seq<char>| final(self).owner(p) == if p == path@ {
                Some(owner@)
            } else {
                old(self).owner(p)
            },
    {
        let ghost before = self.files@;
        let mut i: usize = 0;
        while i < self.files.len()
            invariant
                self.files@ == before,
                self.packages@ == old(self).packages@,
                before == old(self).files@,
                self.wf(),
                i <= before.len(),
                forall|j: int| 0 <= j < i ==> before[j].0@ != path@,
            decreases before.len() - i,
        {
            if self.files[i].0 == *path {
                self.files.set(i, (path.clone(), owner.clone()));
                proof {
                    assert forall|a: int, b: int| 0 <= a < self.files@.len() && 0 <= b < self.files@.len() && a != b implies self.files@[a].0@ != self.files@[b].0@ by {
                        if a != i && b != i {
                            assert(before[a].0@ != before[b].0@);
                        } else if a == i {
                            assert(before[b].0@ != before[a].0@);
                        } else {
                            assert(before[a].0@ != before[b].0@);
                        }
                    }
                    assert forall|p: Seq<char>| self.owner(p) == if p == path@ { Some(owner@) } else { owner_of(before, p) } by {
                        if exists|k: int| 0 <= k < before.len() && before[k].0@ == p {
                            let k = choose|k: int| 0 <= k < before.len() && before[k].0@ == p;
                            assert(self.files@[k].0@ == p);
                        }
                        if exists|k: int| 0 <= k < self.files@.len() && self.files@[k].0@ == p {
                            let k = choose|k: int| 0 <= k < self.files@.len() && self.files@[k].0@ == p;
                            if k != i {
                                assert(before[k].0@ == p);
                            }
                        }
                    }
                }
                return;
            }
            i = i + 1;
        }
        self.files.push((path.clone(), owner.clone()));
        proof {
            assert forall|a: int, b: int| 0 <= a < self.files@.len() && 0 <= b < self.files@.len() && a != b implies self.files@[a].0@ != self.files@[b].0@ by {
                if a < before.len() && b < before.len() {
                    assert(before[a].0@ != before[b].0@);
                }
            }
            assert forall|p: Seq<char>| self.owner(p) == if p == path@ { Some(owner@) } else { owner_of(before, p) } by {
                if exists|k: int| 0 <= k < before.len() && before[k].0@ == p {
                    let k = choose|k: int| 0 <= k < before.len() && before[k].0@ == p;
                    assert(self.files@[k].0@ == p);
                }
                if p == path@ {
                    assert(self.files@[before.len() as int].0@ == p);
                }
            }
        }
    }

    /// Drops the ownership entry of `path`, if there is one.
    fn drop_owner(&mut self, path: &String)
        requires
            old(self).wf(),
        ensures
            final(self).wf(),
            final(self).installed() == old(self).installed(),
            forall|p: Seq<char>| final(self).owner(p) == if p == path@ {
                None
            } else {
                old(self).owner(p)
            },
    {
        let ghost before = self.files@;
        let mut i: usize = 0;
        while i < self.files.len()
            invariant
                self.files@ == before,
                self.packages@ == old(self).packages@,
                before == old(self).files@,
                self.wf(),
                i <= before.len(),
                forall|j: int| 0 <= j < i ==> before[j].0@ != path@,
            decreases before.len() - i,
        {
            if self.files[i].0 == *path {
                self.files.remove(i);
                proof {
                    assert forall|a: int, b: int| 0 <= a < self.files@.len() && 0 <= b < self.files@.len() && a != b implies self.files@[a].0@ != self.files@[b].0@ by {
                        let a2 = if a < i { a } else { a + 1 };
                        let b2 = if b < i { b } else { b + 1 };
                        assert(self.files@[a] == before[a2]);
                        assert(self.files@[b] == before[b2]);
                    }
                    assert forall|p: Seq<char>| self.owner(p) == if p == path@ { None } else { owner_of(before, p) } by {
                        if exists|k: int| 0 <= k < before.len() && before[k].0@ == p && p != path@ {
                            let k = choose|k: int| 0 <= k < before.len() && before[k].0@ == p;
                            if k < i {
                                assert(self.files@[k].0@ == p);
                            } else {
                                assert(self.files@[k - 1].0@ == p);
                            }
                        }
                        if exists|k: int| 0 <= k < self.files@.len() && self.files@[k].0@ == p {
                            let k = choose|k: int| 0 <= k < self.files@.len() && self.files@[k].0@ == p;
                            if k < i {
                                assert(before[k].0@ == p);
                            } else {
                                assert(before[k + 1].0@ == p);
                            }
                        }
                    }
                }
                return;
            }
            i = i + 1;
        }
        proof {
            assert forall|p: Seq<char>| p == path@ implies owner_of(before, p) is None by {
                if exists|k: int| 0 <= k < before.len() && before[k].0@ == p {
                    let k = choose|k: int| 0 <= k < before.len() && before[k].0@ == p;
                }
            }
        }
    }

    /// Records an installed package: it takes ownership of each of its
    /// files and replaces any installed record of the same name.
    pub fn register(&mut self, pkg: PackageInfo)
        requires
            old(self).wf(),
        ensures
            final(self).wf(),
            final(self).installed() == insert_named(old(self).installed(), pkg@),
            forall|p: Seq<char>| final(self).owner(p) == if pkg@.files.contains(p) {
                Some(pkg@.name)
            } else {
                old(self).owner(p)
            },
    {
        let mut i: usize = 0;
        while i < pkg.files.len()
            invariant
                self.wf(),
                i <= pkg.files@.len(),
                self.installed() == old(self).installed(),
                forall|p: Seq<char>| self.owner(p) == if pkg@.files.subrange(0, i as int).contains(p) {
                    Some(pkg@.name)
                } else {
                    old(self).owner(p)
                },
            decreases pkg.files@.len() - i,
        {
            self.set_owner(&pkg.files[i], &pkg.name);
            proof {
                lemma_prefix_contains(pkg@.files, i as int);
            }
            i = i + 1;
        }
        proof {
            assert(pkg@.files.subrange(0, pkg.files@.len() as int) =~= pkg@.files);
        }
        let ghost before = self.installed();
        let ghost files_before = self.files@;
        let ghost pv = pkg@;
        assert forall|p: Seq<char>| owner_of(files_before, p) == if pv.files.contains(p) { Some(pv.name) } else { old(self).owner(p) } by {
            assert(self.owner(p) == owner_of(files_before, p));
        }
        match self.index_of(pkg.name.as_str()) {
            Some(w) => {
                proof {
                    let c = choose|c: int| 0 <= c < before.len() && before[c].name == pkg@.name;
                    assert(c == w);
                }
                self.packages.set(w, pkg);
                proof {
                    assert(self.installed() =~= before.update(w as int, pkg@));
                }
            },
            None => {
                self.packages.push(pkg);
                proof {
                    assert(self.installed() =~= before.push(pkg@));
                }
            },
        }
        assert(self.files@ == files_before);
        assert forall|p: Seq<char>| self.owner(p) == if pv.files.contains(p) { Some(pv.name) } else { old(self).owner(p) } by {
            assert(self.owner(p) == owner_of(files_before, p));
        }
    }

    /// Removes the installed package called `name` and the ownership
    /// entries of its files, and returns its record.
    pub fn unregister(&mut self, name: &str) -> (r: Option<PackageInfo>)
        requires
            old(self).wf(),
        ensures
            final(self).wf(),
            r is Some <==> named_in(old(self).installed(), name@),
            r matches Some(p) ==> p@.name == name@ && exists|i: int|
                0 <= i < old(self).installed().len() && old(self).installed()[i] == p@
                    && final(self).installed() == old(self).installed().remove(i),
            r matches Some(p) ==> forall|q: Seq<char>| final(self).owner(q) == if p@.files.contains(q) {
                None
            } else {
                old(self).owner(q)
            },
            r is None ==> final(self).installed() == old(self).installed() && forall|q: Seq<char>|
                final(self).owner(q) == old(self).owner(q),
    {
        match self.index_of(name) {
            Some(w) => {
                let ghost before = self.installed();
                let pkg = self.packages.remove(w);
                proof {
                    assert(self.installed() =~= before.remove(w as int));
                    assert forall|a: int, b: int| 0 <= a < self.installed().len() && 0 <= b < self.installed().len() && a != b implies self.installed()[a].name != self.installed()[b].name by {
                        let a2 = if a < w { a } else { a + 1 };
                        let b2 = if b < w { b } else { b + 1 };
                        assert(self.installed()[a] == before[a2]);
                        assert(self.installed()[b] == before[b2]);
                    }
                }
                let ghost mid = self.installed();
                let mut i: usize = 0;
                while i < pkg.files.len()
                    invariant
                        self.wf(),
                        i <= pkg.files@.len(),
                        self.installed() == mid,
                        forall|q: Seq<char>| self.owner(q) == if pkg@.files.subrange(0, i as int).contains(q) {
                            None
                        } else {
                            old(self).owner(q)
                        },
                    decreases pkg.files@.len() - i,
                {
                    self.drop_owner(&pkg.files[i]);
                    proof {
                        lemma_prefix_contains(pkg@.files, i as int);
                    }
                    i = i + 1;
                }
                proof {
                    assert(pkg@.files.subrange(0, pkg.files@.len() as int) =~= pkg@.files);
                }
                Some(pkg)
            },
            None => None,
        }
    }
}

impl Default for PackageDatabase {
    fn default() -> (r: PackageDatabase)
        ensures
            r.wf(),
            r.installed().len() == 0,
    {
        PackageDatabase::new()
    }
}

} // verus!
