//! Transaction planning: installs from resolution, checked removals and
//! upgrades, size accounting, and applying a plan to the ledger.
use crate::database::{names_unique, PackageDatabase};
use crate::model::{PackageFormat, PackageInfo, PackageView, PkgConfig, PkgError};
use crate::resolver::{
    copy_records, named_in, request_views, resolution_error, resolution_valid, views, Resolver,
};
use crate::version::{cmp_versions, lemma_version_order_total_preorder, version_lt};
use std::cmp::Ordering;
use vstd::prelude::*;
use vstd::string::StringExecFns;

verus! {

pub open spec fn clamp_u64(x: int) -> u64 {
    if x > u64::MAX {
        u64::MAX
    } else {
        x as u64
    }
}

pub open spec fn clamp_i64(x: int) -> i64 {
    if x > i64::MAX {
        i64::MAX
    } else if x < i64::MIN {
        i64::MIN
    } else {
        x as i64
    }
}

/// Download bytes of `s`, summed with saturation.
pub open spec fn download_total(s: Seq<PackageView>) -> u64
    decreases s.len(),
{
    if s.len() == 0 {
        0
    } else {
        clamp_u64(download_total(s.drop_last()) + s.last().size)
    }
}

/// Installed bytes added by `s`, starting from `base`, summed with
/// saturation at each step.
pub open spec fn growth(base: i64, s: Seq<PackageView>) -> i64
    decreases s.len(),
{
    if s.len() == 0 {
        base
    } else {
        clamp_i64(growth(base, s.drop_last()) + s.last().installed_size)
    }
}

/// Net installed bytes of upgrades (new minus old), from `base`.
pub open spec fn upgrade_growth(base: i64, s: Seq<(PackageView, PackageView)>) -> i64
    decreases s.len(),
{
    if s.len() == 0 {
        base
    } else {
        clamp_i64(
            upgrade_growth(base, s.drop_last()) + s.last().1.installed_size - s.last().0.installed_size,
        )
    }
}

pub open spec fn pair_views(s: Seq<(PackageInfo, PackageInfo)>) -> Seq<(PackageView, PackageView)> {
    s.map_values(|p: (PackageInfo, PackageInfo)| (p.0@, p.1@))
}

pub open spec fn supported(f: PackageFormat) -> bool {
    f == PackageFormat::Native || f == PackageFormat::Deb || f == PackageFormat::Rpm
}

/// Installed package `y` depends on a removed name and is neither removed
/// itself nor upgraded to a record that drops that dependency.
pub open spec fn breaks_dependent(
    y: PackageView,
    removed: Seq<Seq<char>>,
    upgrades: Seq<(PackageView, PackageView)>,
    x: Seq<char>,
) -> bool {
    &&& removed.contains(x)
    &&& !removed.contains(y.name)
    &&& exists|d: int| 0 <= d < y.dependencies.len() && y.dependencies[d].name == x
    &&& !exists|u: int|
        0 <= u < upgrades.len() && upgrades[u].0.name == y.name && !exists|d: int|
            0 <= d < upgrades[u].1.dependencies.len() && upgrades[u].1.dependencies[d].name == x
}

/// No installed package is left depending on a removed name.
pub open spec fn removal_safe(
    inst: Seq<PackageView>,
    removed: Seq<Seq<char>>,
    upgrades: Seq<(PackageView, PackageView)>,
) -> bool {
    forall|i: int, x: Seq<char>| 0 <= i < inst.len() ==> !breaks_dependent(inst[i], removed, upgrades, x)
}

/// A plan: packages to install, names to remove, (old, new) upgrades, and
/// the byte totals.
pub struct Transaction {
    pub install: Vec<PackageInfo>,
    pub remove: Vec<String>,
    pub upgrade: Vec<(PackageInfo, PackageInfo)>,
    pub download_size: u64,
    pub size_change: i64,
}

impl Transaction {
    /// An empty plan.
    pub fn new() -> (r: Transaction)
        ensures
            r.install@.len() == 0,
            r.remove@.len() == 0,
            r.upgrade@.len() == 0,
            r.download_size == 0,
            r.size_change == 0,
    {
        Transaction { install: Vec::new(), remove: Vec::new(), upgrade: Vec::new(), download_size: 0, size_change: 0 }
    }

    /// Whether the plan installs, removes and upgrades nothing.
    pub fn is_empty(&self) -> (r: bool)
        ensures
            r == (self.install@.len() == 0 && self.remove@.len() == 0 && self.upgrade@.len() == 0),
    {
        self.install.len() == 0 && self.remove.len() == 0 && self.upgrade.len() == 0
    }
}

impl Default for Transaction {
    fn default() -> (r: Transaction)
        ensures
            r.install@.len() == 0,
            r.remove@.len() == 0,
            r.upgrade@.len() == 0,
            r.download_size == 0,
            r.size_change == 0,
    {
        Transaction::new()
    }
}

} // verus!

verus! {

proof fn lemma_insert_named_names(s: Seq<PackageView>, p: PackageView)
    requires
        names_unique(s),
    ensures
        names_unique(crate::resolver::insert_named(s, p)),
        forall|n: Seq<char>| named_in(crate::resolver::insert_named(s, p), n) == (named_in(s, n) || n == p.name),
{
    let t = crate::resolver::insert_named(s, p);
    if named_in(s, p.name) {
        let c = choose|i: int| 0 <= i < s.len() && s[i].name == p.name;
        assert(t == s.update(c, p));
        assert forall|n: Seq<char>| named_in(t, n) == (named_in(s, n) || n == p.name) by {
            if named_in(s, n) {
                let k = choose|k: int| 0 <= k < s.len() && s[k].name == n;
                assert(t[k].name == n);
            }
            if named_in(t, n) {
                let k = choose|k: int| 0 <= k < t.len() && t[k].name == n;
                if k != c {
                    assert(s[k].name == n);
                }
            }
            if n == p.name {
                assert(t[c].name == n);
            }
        }
        assert forall|a: int, b: int| 0 <= a < t.len() && 0 <= b < t.len() && a != b implies t[a].name != t[b].name by {
            if a != c && b != c {
                assert(s[a].name != s[b].name);
            } else if a == c {
                assert(s[b].name != s[c].name);
            } else {
                assert(s[a].name != s[c].name);
            }
        }
    } else {
        assert(t == s.push(p));
        assert forall|n: Seq<char>| named_in(t, n) == (named_in(s, n) || n == p.name) by {
            if named_in(s, n) {
                let k = choose|k: int| 0 <= k < s.len() && s[k].name == n;
                assert(t[k].name == n);
            }
            if named_in(t, n) {
                let k = choose|k: int| 0 <= k < t.len() && t[k].name == n;
                if k < s.len() {
                    assert(s[k].name == n);
                }
            }
            if n == p.name {
                assert(t[s.len() as int].name == n);
            }
        }
        assert forall|a: int, b: int| 0 <= a < t.len() && 0 <= b < t.len() && a != b implies t[a].name != t[b].name by {
            if a < s.len() && b < s.len() {
                assert(s[a].name != s[b].name);
            } else if a < s.len() {
                assert(s[a].name != p.name);
            } else if b < s.len() {
                assert(s[b].name != p.name);
            }
        }
    }
}

proof fn lemma_insert_named_keeps(s: Seq<PackageView>, p: PackageView)
    ensures
        crate::resolver::insert_named(s, p).contains(p),
        forall|x: PackageView| s.contains(x) && x.name != p.name ==> crate::resolver::insert_named(s, p).contains(x),
{
    let t = crate::resolver::insert_named(s, p);
    if named_in(s, p.name) {
        let c = choose|i: int| 0 <= i < s.len() && s[i].name == p.name;
        assert(t[c] == p);
        assert forall|x: PackageView| s.contains(x) && x.name != p.name implies t.contains(x) by {
            let k = choose|k: int| 0 <= k < s.len() && s[k] == x;
            assert(t[k] == x);
        }
    } else {
        assert(t[s.len() as int] == p);
        assert forall|x: PackageView| s.contains(x) && x.name != p.name implies t.contains(x) by {
            let k = choose|k: int| 0 <= k < s.len() && s[k] == x;
            assert(t[k] == x);
        }
    }
}

/// An upgrade-only plan: each pair keeps its name, the name is installed,
/// and no name is upgraded twice.
pub open spec fn upgrade_shape(ps: Seq<(PackageView, PackageView)>, ledger: Seq<PackageView>) -> bool {
    &&& forall|u: int| 0 <= u < ps.len() ==> #[trigger] ps[u].0.name == ps[u].1.name && named_in(ledger, ps[u].0.name)
    &&& forall|u: int, u2: int| 0 <= u < ps.len() && 0 <= u2 < ps.len() && u != u2 ==> ps[u].0.name != ps[u2].0.name
}

proof fn lemma_remove_names(s: Seq<PackageView>, i: int)
    requires
        names_unique(s),
        0 <= i < s.len(),
    ensures
        forall|n: Seq<char>| named_in(s.remove(i), n) == (named_in(s, n) && n != s[i].name),
{
    let t = s.remove(i);
    assert forall|n: Seq<char>| named_in(t, n) == (named_in(s, n) && n != s[i].name) by {
        if named_in(t, n) {
            let k = choose|k: int| 0 <= k < t.len() && t[k].name == n;
            let k2 = if k < i { k } else { k + 1 };
            assert(s[k2].name == n);
            assert(k2 != i);
        }
        if named_in(s, n) && n != s[i].name {
            let k = choose|k: int| 0 <= k < s.len() && s[k].name == n;
            if k < i {
                assert(t[k].name == n);
            } else {
                assert(t[k - 1].name == n);
            }
        }
    }
}

/// The names of `l` are those of `base` and those of `added`.
pub open spec fn names_after(l: Seq<PackageView>, base: Seq<PackageView>, added: Seq<PackageView>) -> bool {
    forall|n: Seq<char>| named_in(l, n) == (named_in(base, n) || named_in(added, n))
}

/// The package manager: configuration, installed ledger and catalog.
pub struct RpmNext {
    config: PkgConfig,
    database: PackageDatabase,
    catalog: Resolver,
}

impl RpmNext {
    pub closed spec fn ledger(&self) -> Seq<PackageView> {
        self.database.installed()
    }

    pub closed spec fn catalog(&self) -> Seq<PackageView> {
        self.catalog.catalog()
    }

    pub closed spec fn priorities(&self) -> Seq<i32> {
        self.catalog.priorities()
    }

    pub closed spec fn wf(&self) -> bool {
        self.database.wf() && self.catalog.wf()
    }

    /// A package manager with the ledger stored under the configured
    /// database directory and an empty catalog.
    pub fn new(config: PkgConfig) -> (r: Result<RpmNext, PkgError>)
        ensures
            r matches Ok(m) ==> m.wf() && m.ledger().len() == 0 && m.catalog().len() == 0,
            r is Ok,
    {
        let database = match PackageDatabase::load(config.db_dir.as_str()) {
            Ok(db) => db,
            Err(_) => PackageDatabase::new(),
        };
        Ok(RpmNext { config, database, catalog: Resolver::new() })
    }

    /// Adds the records of one source, with its priority, to the catalog.
    pub fn ingest(&mut self, priority: i32, records: Vec<PackageInfo>)
        requires
            old(self).wf(),
        ensures
            final(self).wf(),
            final(self).catalog() == old(self).catalog() + views(records@),
            final(self).priorities() == old(self).priorities() + Seq::new(
                records@.len(),
                |i: int| priority,
            ),
            final(self).ledger() == old(self).ledger(),
    {
        self.catalog.ingest(priority, records);
    }

    /// Compares two version strings: -1, 0 or 1.
    fn version_compare(&self, a: &str, b: &str) -> (r: i32)
        ensures
            r == match cmp_versions(a@, b@) {
                Ordering::Less => -1i32,
                Ordering::Equal => 0i32,
                Ordering::Greater => 1i32,
            },
    {
        match self.catalog.compare_versions(a, b) {
            Ordering::Less => -1,
            Ordering::Equal => 0,
            Ordering::Greater => 1,
        }
    }

    /// The best catalog record of `name`, if the catalog has one.
    fn find_package(&self, name: &str) -> (r: Result<Option<PackageInfo>, PkgError>)
        requires
            self.wf(),
        ensures
            r matches Ok(Some(p)) ==> exists|i: int|
                crate::resolver::is_choice(self.catalog(), self.priorities(), name@, None, i) && p@
                    == self.catalog()[i],
            r matches Ok(None) ==> !crate::resolver::has_name(self.catalog(), name@),
            r is Ok,
    {
        match self.catalog.find_best_version(name) {
            Ok(p) => {
                let ghost i = choose|i: int|
                    crate::resolver::is_choice(self.catalog.catalog(), self.catalog.priorities(), name@, None, i) && p@
                        == self.catalog.catalog()[i];
                assert(crate::resolver::is_choice(self.catalog(), self.priorities(), name@, None, i) && p@ == self.catalog()[i]);
                Ok(Some(p))
            },
            Err(_) => Ok(None),
        }
    }

    /// The installed record of `name`, or else its best catalog record.
    pub fn info(&self, name: &str) -> (r: Result<Option<PackageInfo>, PkgError>)
        requires
            self.wf(),
        ensures
            r is Ok,
            named_in(self.ledger(), name@) ==> (r matches Ok(Some(p)) && self.ledger().contains(p@) && p@.name == name@),
            !named_in(self.ledger(), name@) ==> (r matches Ok(Some(p)) ==> exists|i: int|
                crate::resolver::is_choice(self.catalog(), self.priorities(), name@, None, i) && p@
                    == self.catalog()[i]) && (r matches Ok(None) ==> !crate::resolver::has_name(
                self.catalog(),
                name@,
            )),
    {
        match self.database.get(name) {
            Some(p) => Ok(Some(p.duplicate())),
            None => self.find_package(name),
        }
    }
}


proof fn lemma_prefix_named(s: Seq<PackageView>, i: int)
    requires
        0 <= i < s.len(),
    ensures
        forall|n: Seq<char>| named_in(s.subrange(0, i + 1), n) == (named_in(s.subrange(0, i), n) || n == s[i].name),
{
    let t = s.subrange(0, i + 1);
    let u = s.subrange(0, i);
    assert forall|n: Seq<char>| named_in(t, n) == (named_in(u, n) || n == s[i].name) by {
        if named_in(u, n) {
            let k = choose|k: int| 0 <= k < u.len() && u[k].name == n;
            assert(t[k].name == n);
        }
        if n == s[i].name {
            assert(t[i].name == n);
        }
        if named_in(t, n) {
            let k = choose|k: int| 0 <= k < t.len() && t[k].name == n;
            if k < i {
                assert(u[k].name == n);
            }
        }
    }
}

impl RpmNext {
    fn download_package(&self, pkg: &PackageInfo) -> (r: Result<(), PkgError>)
        ensures
            r is Ok,
    {
        Ok(())
    }

    fn install_native(&self, pkg: &PackageInfo) -> (r: Result<(), PkgError>)
        ensures
            r is Ok,
    {
        Ok(())
    }

    fn install_deb(&self, pkg: &PackageInfo) -> (r: Result<(), PkgError>)
        ensures
            r is Ok,
    {
        Ok(())
    }

    fn install_rpm(&self, pkg: &PackageInfo) -> (r: Result<(), PkgError>)
        ensures
            r is Ok,
    {
        Ok(())
    }

    /// Installs one record: its format must have an installer; the ledger
    /// then records it.
    fn install_package(&mut self, pkg: &PackageInfo) -> (r: Result<(), PkgError>)
        requires
            old(self).wf(),
        ensures
            final(self).wf(),
            final(self).catalog() == old(self).catalog(),
            final(self).priorities() == old(self).priorities(),
            r is Ok <==> supported(pkg.format),
            r is Ok ==> final(self).ledger() == crate::resolver::insert_named(old(self).ledger(), pkg@),
            r matches Err(e) ==> e is UnsupportedFormat && final(self).ledger() == old(self).ledger(),
    {
        let step = match pkg.format {
            PackageFormat::Native => self.install_native(pkg),
            PackageFormat::Deb => self.install_deb(pkg),
            PackageFormat::Rpm => self.install_rpm(pkg),
            _ => {
                return Err(PkgError::UnsupportedFormat);
            },
        };
        match step {
            Ok(()) => {},
            Err(e) => {
                return Err(e);
            },
        }
        self.database.register(pkg.duplicate());
        Ok(())
    }

    /// Drops `name` from the ledger. Deleting its files is the executor's
    /// part.
    fn remove_package(&mut self, name: &str) -> (r: Result<(), PkgError>)
        requires
            old(self).wf(),
        ensures
            final(self).wf(),
            final(self).catalog() == old(self).catalog(),
            final(self).priorities() == old(self).priorities(),
            r is Ok,
            forall|n: Seq<char>| named_in(final(self).ledger(), n) == (named_in(old(self).ledger(), n) && n != name@),
            forall|x: PackageView| old(self).ledger().contains(x) && x.name != name@ ==> final(self).ledger().contains(x),
    {
        let ghost before = self.ledger();
        let removed = self.database.unregister(name);
        proof {
            old(self).database.lemma_names_unique();
            match removed {
                Some(p) => {
                    let i = choose|i: int|
                        0 <= i < before.len() && before[i] == p@
                            && self.ledger() == before.remove(i);
                    lemma_remove_names(before, i);
                    assert forall|x: PackageView| before.contains(x) && x.name != name@ implies self.ledger().contains(x) by {
                        let k = choose|k: int| 0 <= k < before.len() && before[k] == x;
                        assert(k != i);
                        if k < i {
                            assert(self.ledger()[k] == x);
                        } else {
                            assert(self.ledger()[k - 1] == x);
                        }
                    }
                },
                None => {},
            }
        }
        Ok(())
    }

    /// Applies a plan to the ledger in the prescribed order: removals,
    /// then installs, then upgrades (old out, new in), then saves.
    fn execute_transaction(&mut self, tx: &Transaction) -> (r: Result<(), PkgError>)
        requires
            old(self).wf(),
        ensures
            final(self).wf(),
            final(self).catalog() == old(self).catalog(),
            final(self).priorities() == old(self).priorities(),
            r is Ok <==> (forall|i: int| 0 <= i < tx.install@.len() ==> supported(#[trigger] tx.install@[i].format))
                && (forall|u: int| 0 <= u < tx.upgrade@.len() ==> supported(#[trigger] tx.upgrade@[u].1.format)),
            r matches Err(e) ==> e is UnsupportedFormat,
            r is Ok && tx.install@.len() == 0 && tx.remove@.len() == 0 && upgrade_shape(pair_views(tx.upgrade@), old(self).ledger())
                ==> (forall|n: Seq<char>| named_in(final(self).ledger(), n) == named_in(old(self).ledger(), n)) && (forall|u: int|
                0 <= u < tx.upgrade@.len() ==> final(self).ledger().contains(#[trigger] pair_views(tx.upgrade@)[u].1)),
            r is Ok && upgrade_shape(pair_views(tx.upgrade@), old(self).ledger()) && (forall|u: int|
                0 <= u < tx.upgrade@.len() ==> !crate::model::strings_view(tx.remove@).contains(#[trigger] pair_views(tx.upgrade@)[u].0.name))
                ==> (forall|n: Seq<char>| named_in(final(self).ledger(), n) == ((named_in(old(self).ledger(), n)
                && !crate::model::strings_view(tx.remove@).contains(n)) || named_in(views(tx.install@), n))) && (forall|u: int|
                0 <= u < tx.upgrade@.len() ==> final(self).ledger().contains(#[trigger] pair_views(tx.upgrade@)[u].1)),
            r is Ok && tx.upgrade@.len() == 0 ==> forall|n: Seq<char>| named_in(final(self).ledger(), n) == (
                (named_in(old(self).ledger(), n) && !crate::model::strings_view(tx.remove@).contains(n))
                    || named_in(views(tx.install@), n)),
    {
        let mut i: usize = 0;
        while i < tx.install.len()
            invariant
                self.wf(),
                self.catalog() == old(self).catalog(),
                self.priorities() == old(self).priorities(),
                self.ledger() == old(self).ledger(),
                i <= tx.install@.len(),
            decreases tx.install@.len() - i,
        {
            let _ = self.download_package(&tx.install[i]);
            i = i + 1;
        }
        let mut j: usize = 0;
        while j < tx.remove.len()
            invariant
                self.wf(),
                self.catalog() == old(self).catalog(),
                self.priorities() == old(self).priorities(),
                j <= tx.remove@.len(),
                tx.remove@.len() == 0 ==> self.ledger() == old(self).ledger(),
                forall|n: Seq<char>| named_in(self.ledger(), n) == (named_in(old(self).ledger(), n)
                    && !crate::model::strings_view(tx.remove@.subrange(0, j as int)).contains(n)),
            decreases tx.remove@.len() - j,
        {
            let _ = self.remove_package(tx.remove[j].as_str());
            proof {
                assert(crate::model::strings_view(tx.remove@.subrange(0, j + 1)) =~= crate::model::strings_view(tx.remove@).subrange(0, j + 1));
                assert(crate::model::strings_view(tx.remove@.subrange(0, j as int)) =~= crate::model::strings_view(tx.remove@).subrange(0, j as int));
                crate::database::lemma_prefix_contains(crate::model::strings_view(tx.remove@), j as int);
            }
            j = j + 1;
        }
        proof {
            assert(tx.remove@.subrange(0, tx.remove@.len() as int) =~= tx.remove@);
        }
        let ghost after_remove = self.ledger();
        let mut k: usize = 0;
        while k < tx.install.len()
            invariant
                self.wf(),
                self.catalog() == old(self).catalog(),
                self.priorities() == old(self).priorities(),
                k <= tx.install@.len(),
                tx.install@.len() == 0 ==> self.ledger() == after_remove,
                forall|i2: int| 0 <= i2 < k ==> supported(#[trigger] tx.install@[i2].format),
                names_after(self.ledger(), after_remove, views(tx.install@).subrange(0, k as int)),
            decreases tx.install@.len() - k,
        {
            let ghost before = self.ledger();
            proof {
                self.database.lemma_names_unique();
                assert forall|n: Seq<char>| named_in(before, n) == (named_in(after_remove, n)
                    || named_in(views(tx.install@).subrange(0, k as int), n)) by {
                    assert(named_in(self.ledger(), n) == (named_in(after_remove, n)
                    || named_in(views(tx.install@).subrange(0, k as int), n)));
                }
            }
            match self.install_package(&tx.install[k]) {
                Ok(()) => {},
                Err(e) => {
                    return Err(e);
                },
            }
            proof {
                lemma_insert_named_names(before, tx.install@[k as int]@);
                lemma_prefix_named(views(tx.install@), k as int);
                assert(views(tx.install@)[k as int] == tx.install@[k as int]@);
                assert forall|n: Seq<char>| named_in(self.ledger(), n) == (named_in(after_remove, n)
                    || named_in(views(tx.install@).subrange(0, k + 1), n)) by {
                    assert(named_in(self.ledger(), n) == (named_in(before, n) || n == tx.install@[k as int]@.name));
                }
            }
            proof {
                assert(names_after(self.ledger(), after_remove, views(tx.install@).subrange(0, k + 1)));
            }
            k = k + 1;
        }
        proof {
            assert(views(tx.install@).subrange(0, tx.install@.len() as int) =~= views(tx.install@));
            assert forall|n: Seq<char>| named_in(self.ledger(), n) == (named_in(after_remove, n)
                    || named_in(views(tx.install@), n)) by {
                assert(named_in(self.ledger(), n) == (named_in(after_remove, n)
                    || named_in(views(tx.install@).subrange(0, tx.install@.len() as int), n)));
            }
        }
        let ghost after_install = self.ledger();
        let mut u: usize = 0;
        while u < tx.upgrade.len()
            invariant
                upgrade_shape(pair_views(tx.upgrade@), after_install) ==> (
                forall|n: Seq<char>| named_in(self.ledger(), n) == named_in(after_install, n)),
                upgrade_shape(pair_views(tx.upgrade@), after_install) ==> (
                forall|u2: int| 0 <= u2 < u ==> self.ledger().contains(#[trigger] pair_views(tx.upgrade@)[u2].1)),
                forall|n: Seq<char>| named_in(after_install, n) == (named_in(after_remove, n) || named_in(views(tx.install@), n)),
                self.wf(),
                self.catalog() == old(self).catalog(),
                self.priorities() == old(self).priorities(),
                u <= tx.upgrade@.len(),
                forall|i2: int| 0 <= i2 < tx.install@.len() ==> supported(#[trigger] tx.install@[i2].format),
                forall|u2: int| 0 <= u2 < u ==> supported(#[trigger] tx.upgrade@[u2].1.format),
                tx.upgrade@.len() == 0 ==> forall|n: Seq<char>| named_in(self.ledger(), n) == (named_in(after_remove, n)
                    || named_in(views(tx.install@), n)),
                tx.install@.len() == 0 && tx.remove@.len() == 0 && upgrade_shape(pair_views(tx.upgrade@), old(self).ledger()) ==> (
                forall|n: Seq<char>| named_in(self.ledger(), n) == named_in(old(self).ledger(), n)),
                tx.install@.len() == 0 && tx.remove@.len() == 0 && upgrade_shape(pair_views(tx.upgrade@), old(self).ledger()) ==> (
                forall|u2: int| 0 <= u2 < u ==> self.ledger().contains(#[trigger] pair_views(tx.upgrade@)[u2].1)),
            decreases tx.upgrade@.len() - u,
        {
            let ghost l0 = self.ledger();
            let ghost ps = pair_views(tx.upgrade@);
            proof {
                self.database.lemma_names_unique();
            }
            let _ = self.remove_package(tx.upgrade[u].0.name.as_str());
            let ghost l1 = self.ledger();
            proof {
                self.database.lemma_names_unique();
            }
            match self.install_package(&tx.upgrade[u].1) {
                Ok(()) => {},
                Err(e) => {
                    return Err(e);
                },
            }
            proof {
                let pu = ps[u as int];
                assert(pu.0 == tx.upgrade@[u as int].0@ && pu.1 == tx.upgrade@[u as int].1@);
                lemma_insert_named_names(l1, pu.1);
                lemma_insert_named_keeps(l1, pu.1);
                if upgrade_shape(ps, after_install) {
                    assert(pu.0.name == pu.1.name);
                    assert(named_in(after_install, pu.0.name));
                    assert forall|n: Seq<char>| named_in(self.ledger(), n) == named_in(after_install, n) by {
                        assert(named_in(l0, n) == named_in(after_install, n));
                    }
                    assert forall|u2: int| 0 <= u2 < u + 1 implies self.ledger().contains(#[trigger] ps[u2].1) by {
                        if u2 < u {
                            assert(l0.contains(ps[u2].1));
                            assert(ps[u2].0.name != ps[u as int].0.name);
                            assert(ps[u2].1.name == ps[u2].0.name);
                            assert(l1.contains(ps[u2].1));
                        }
                    }
                }
                if tx.install@.len() == 0 && tx.remove@.len() == 0 && upgrade_shape(ps, old(self).ledger()) {
                    assert(pu.0.name == pu.1.name);
                    assert(named_in(old(self).ledger(), pu.0.name));
                    assert forall|n: Seq<char>| named_in(self.ledger(), n) == named_in(old(self).ledger(), n) by {
                        assert(named_in(l0, n) == named_in(old(self).ledger(), n));
                    }
                    assert forall|u2: int| 0 <= u2 < u + 1 implies self.ledger().contains(#[trigger] ps[u2].1) by {
                        if u2 < u {
                            assert(l0.contains(ps[u2].1));
                            assert(ps[u2].0.name != ps[u as int].0.name);
                            assert(ps[u2].1.name == ps[u2].0.name);
                            assert(l1.contains(ps[u2].1));
                        }
                    }
                }
            }
            u = u + 1;
        }
        let _ = self.database.save(self.config.db_dir.as_str());
        proof {
            let ps = pair_views(tx.upgrade@);
            assert forall|n: Seq<char>| named_in(after_remove, n) == (named_in(old(self).ledger(), n)
                && !crate::model::strings_view(tx.remove@).contains(n)) by {
                assert(named_in(after_remove, n) == (named_in(old(self).ledger(), n)
                    && !crate::model::strings_view(tx.remove@.subrange(0, tx.remove@.len() as int)).contains(n)));
            }
            if upgrade_shape(ps, old(self).ledger()) && (forall|u: int|
                0 <= u < tx.upgrade@.len() ==> !crate::model::strings_view(tx.remove@).contains(#[trigger] ps[u].0.name)) {
                assert forall|u: int| 0 <= u < ps.len() implies #[trigger] ps[u].0.name == ps[u].1.name && named_in(after_install, ps[u].0.name) by {
                    assert(named_in(old(self).ledger(), ps[u].0.name));
                    assert(!crate::model::strings_view(tx.remove@).contains(ps[u].0.name));
                }
                assert(upgrade_shape(ps, after_install));
            }
            if tx.upgrade@.len() == 0 {
                assert forall|n: Seq<char>| named_in(self.ledger(), n) == (
                    (named_in(old(self).ledger(), n) && !crate::model::strings_view(tx.remove@).contains(n))
                    || named_in(views(tx.install@), n)) by {
                    assert(named_in(after_remove, n) == (named_in(old(self).ledger(), n)
                        && !crate::model::strings_view(tx.remove@.subrange(0, tx.remove@.len() as int)).contains(n)));
                }
            }
        }
        Ok(())
    }
}


/// Whether some upgrade replaces `y` with a record that does not depend
/// on `x`.
fn upgraded_without(upgrades: &Vec<(PackageInfo, PackageInfo)>, y: &String, x: &String) -> (r: bool)
    ensures
        r == exists|u: int|
            0 <= u < upgrades@.len() && pair_views(upgrades@)[u].0.name == y@ && !exists|d: int|
                0 <= d < pair_views(upgrades@)[u].1.dependencies.len()
                    && pair_views(upgrades@)[u].1.dependencies[d].name == x@,
{
    let ghost pv = pair_views(upgrades@);
    let mut u: usize = 0;
    while u < upgrades.len()
        invariant
            pv == pair_views(upgrades@),
            u <= upgrades@.len(),
            forall|u2: int| 0 <= u2 < u ==> !(pv[u2].0.name == y@ && !exists|d: int|
                0 <= d < pv[u2].1.dependencies.len() && pv[u2].1.dependencies[d].name == x@),
        decreases upgrades@.len() - u,
    {
        if upgrades[u].0.name == *y {
            let deps = &upgrades[u].1.dependencies;
            let mut d: usize = 0;
            let mut found = false;
            while d < deps.len()
                invariant
                    pv == pair_views(upgrades@),
                    u < upgrades@.len(),
                    deps == upgrades@[u as int].1.dependencies,
                    d <= deps@.len(),
                    found == exists|d2: int| 0 <= d2 < d && pv[u as int].1.dependencies[d2].name == x@,
                decreases deps@.len() - d,
            {
                if deps[d].name == *x {
                    found = true;
                }
                proof {
                    assert(pv[u as int].1.dependencies[d as int] == deps@[d as int]@);
                }
                d = d + 1;
            }
            if !found {
                return true;
            }
        }
        u = u + 1;
    }
    false
}

pub open spec fn depends_message(y: Seq<char>, x: Seq<char>) -> Seq<char> {
    y + " depends on "@ + x
}

impl RpmNext {
    /// Rejects a plan that would leave an installed package depending on a
    /// removed name, unless that package is removed too or upgraded to a
    /// record without that dependency.
    fn check_remove_deps(&self, tx: &Transaction) -> (r: Result<(), PkgError>)
        requires
            self.wf(),
        ensures
            r is Ok <==> removal_safe(self.ledger(), crate::model::strings_view(tx.remove@), pair_views(tx.upgrade@)),
            r matches Err(e) ==> e matches PkgError::DependencyError(m) && exists|i: int, x: Seq<char>|
                0 <= i < self.ledger().len() && breaks_dependent(
                    self.ledger()[i],
                    crate::model::strings_view(tx.remove@),
                    pair_views(tx.upgrade@),
                    x,
                ) && m@ == depends_message(self.ledger()[i].name, x),
    {
        let ghost removed = crate::model::strings_view(tx.remove@);
        let ghost ups = pair_views(tx.upgrade@);
        let list = self.database.list();
        let ghost inst = self.ledger();
        let mut i: usize = 0;
        while i < list.len()
            invariant
                views(list@) == inst,
                inst == self.ledger(),
                removed == crate::model::strings_view(tx.remove@),
                ups == pair_views(tx.upgrade@),
                i <= list@.len(),
                forall|i2: int, x: Seq<char>| 0 <= i2 < i ==> !breaks_dependent(inst[i2], removed, ups, x),
            decreases list@.len() - i,
        {
            let y = &list[i];
            proof {
                assert(inst[i as int] == y@);
            }
            if !crate::resolver::contains_string(&tx.remove, &y.name) {
                let mut d: usize = 0;
                while d < y.dependencies.len()
                    invariant
                        views(list@) == inst,
                        inst == self.ledger(),
                        removed == crate::model::strings_view(tx.remove@),
                        ups == pair_views(tx.upgrade@),
                        i < list@.len(),
                        y == list@[i as int],
                        inst[i as int] == y@,
                        !removed.contains(y@.name),
                        d <= y.dependencies@.len(),
                        forall|d2: int| 0 <= d2 < d ==> !breaks_dependent(inst[i as int], removed, ups, #[trigger] y@.dependencies[d2].name),
                    decreases y.dependencies@.len() - d,
                {
                    let x = &y.dependencies[d].name;
                    proof {
                        assert(y@.dependencies[d as int].name == x@);
                    }
                    if crate::resolver::contains_string(&tx.remove, x) && !upgraded_without(&tx.upgrade, &y.name, x) {
                        let mut m = y.name.clone();
                        m.append(" depends on ");
                        m.append(x.as_str());
                        proof {
                            assert(breaks_dependent(inst[i as int], removed, ups, x@));
                            assert(m@ == depends_message(inst[i as int].name, x@));
                            assert(!removal_safe(inst, removed, ups));
                        }
                        return Err(PkgError::DependencyError(m));
                    }
                    d = d + 1;
                }
                proof {
                    assert forall|x: Seq<char>| !breaks_dependent(inst[i as int], removed, ups, x) by {
                        if exists|d2: int| 0 <= d2 < y@.dependencies.len() && y@.dependencies[d2].name == x {
                            let d2 = choose|d2: int| 0 <= d2 < y@.dependencies.len() && y@.dependencies[d2].name == x;
                            assert(!breaks_dependent(inst[i as int], removed, ups, y@.dependencies[d2].name));
                        }
                    }
                }
            }
            i = i + 1;
        }
        Ok(())
    }
}


/// `s` with repeated names dropped, first occurrences kept in order.
pub open spec fn dedup(s: Seq<Seq<char>>) -> Seq<Seq<char>>
    decreases s.len(),
{
    if s.len() == 0 {
        s
    } else {
        let d = dedup(s.drop_last());
        if d.contains(s.last()) {
            d
        } else {
            d.push(s.last())
        }
    }
}

proof fn lemma_dedup_contains(s: Seq<Seq<char>>)
    ensures
        forall|x: Seq<char>| #[trigger] dedup(s).contains(x) == s.contains(x),
    decreases s.len(),
{
    if s.len() > 0 {
        lemma_dedup_contains(s.drop_last());
        let d = dedup(s.drop_last());
        assert forall|x: Seq<char>| #[trigger] dedup(s).contains(x) == s.contains(x) by {
            if s.contains(x) {
                let k = choose|k: int| 0 <= k < s.len() && s[k] == x;
                if k < s.len() - 1 {
                    assert(s.drop_last()[k] == x);
                    assert(d.contains(x));
                    if !d.contains(s.last()) {
                        let m = choose|m: int| 0 <= m < d.len() && d[m] == x;
                        assert(d.push(s.last())[m] == x);
                    }
                } else if !d.contains(s.last()) {
                    assert(d.push(s.last())[d.len() as int] == x);
                }
            }
            if dedup(s).contains(x) {
                if d.contains(x) {
                    assert(s.drop_last().contains(x));
                    let k = choose|k: int| 0 <= k < s.drop_last().len() && s.drop_last()[k] == x;
                    assert(s[k] == x);
                } else {
                    let m = choose|m: int| 0 <= m < dedup(s).len() && dedup(s)[m] == x;
                    assert(s[s.len() - 1] == x);
                }
            }
        }
    }
}

proof fn lemma_removal_same(l: Seq<PackageView>, a: Seq<Seq<char>>, b: Seq<Seq<char>>, ups: Seq<(PackageView, PackageView)>)
    requires
        forall|x: Seq<char>| a.contains(x) == b.contains(x),
    ensures
        forall|y: PackageView, x: Seq<char>| #[trigger] breaks_dependent(y, a, ups, x) == breaks_dependent(y, b, ups, x),
        removal_safe(l, a, ups) == removal_safe(l, b, ups),
{
    assert forall|y: PackageView, x: Seq<char>| #[trigger] breaks_dependent(y, a, ups, x) == breaks_dependent(y, b, ups, x) by {
        assert(a.contains(x) == b.contains(x));
        assert(a.contains(y.name) == b.contains(y.name));
    }
    if removal_safe(l, a, ups) {
        assert forall|i: int, x: Seq<char>| 0 <= i < l.len() implies !breaks_dependent(l[i], b, ups, x) by {
            assert(!breaks_dependent(l[i], a, ups, x));
        }
    }
    if removal_safe(l, b, ups) {
        assert forall|i: int, x: Seq<char>| 0 <= i < l.len() implies !breaks_dependent(l[i], a, ups, x) by {
            assert(!breaks_dependent(l[i], b, ups, x));
        }
    }
}

/// The installed size of the ledger record called `n`.
pub open spec fn installed_size_of(l: Seq<PackageView>, n: Seq<char>) -> u64 {
    l[choose|i: int| 0 <= i < l.len() && l[i].name == n].installed_size
}

/// Installed bytes released by removing `names`, from `base`, with
/// saturation at each step.
pub open spec fn shrink(base: i64, l: Seq<PackageView>, names: Seq<Seq<char>>) -> i64
    decreases names.len(),
{
    if names.len() == 0 {
        base
    } else {
        clamp_i64(shrink(base, l, names.drop_last()) - installed_size_of(l, names.last()))
    }
}

fn add_clamped(a: i64, b: u64) -> (r: i64)
    ensures
        r == clamp_i64(a + b),
{
    let t: i128 = a as i128 + b as i128;
    if t > i64::MAX as i128 {
        i64::MAX
    } else {
        t as i64
    }
}

fn sub_clamped(a: i64, b: u64) -> (r: i64)
    ensures
        r == clamp_i64(a - b),
{
    let t: i128 = a as i128 - b as i128;
    if t < i64::MIN as i128 {
        i64::MIN
    } else {
        t as i64
    }
}

fn add_saturated(a: u64, b: u64) -> (r: u64)
    ensures
        r == clamp_u64(a + b),
{
    match a.checked_add(b) {
        Some(v) => v,
        None => u64::MAX,
    }
}

impl RpmNext {
    /// Resolves `names` against the catalog and the ledger and installs the
    /// result, dependencies first.
    pub fn install(&mut self, names: &[&str]) -> (r: Result<Transaction, PkgError>)
        requires
            old(self).wf(),
        ensures
            final(self).wf(),
            final(self).catalog() == old(self).catalog(),
            final(self).priorities() == old(self).priorities(),
            r matches Ok(tx) ==> resolution_valid(
                views(tx.install@),
                old(self).catalog(),
                old(self).priorities(),
                old(self).ledger(),
                request_views(names@),
            ) && tx.remove@.len() == 0 && tx.upgrade@.len() == 0 && tx.download_size == download_total(
                views(tx.install@),
            ) && tx.size_change == growth(0, views(tx.install@)) && (forall|i: int|
                0 <= i < tx.install@.len() ==> supported(#[trigger] tx.install@[i].format)) && names_after(
                final(self).ledger(),
                old(self).ledger(),
                views(tx.install@),
            ),
            (exists|q: int| 0 <= q < names@.len() && !findable(old(self).catalog(), old(self).ledger(), #[trigger] request_views(names@)[q]))
                ==> (r matches Err(PkgError::PackageNotFound(n)) && exists|q: int|
                #[trigger] first_unfindable(old(self).catalog(), old(self).ledger(), request_views(names@), q) && request_views(names@)[q] == n@)
                && final(self).ledger() == old(self).ledger(),
            r matches Err(e) ==> (e matches PkgError::PackageNotFound(n) && final(self).ledger() == old(self).ledger()
                && exists|q: int| #[trigger] first_unfindable(old(self).catalog(), old(self).ledger(), request_views(names@), q)
                && request_views(names@)[q] == n@) || (resolution_error(
                e,
                old(self).catalog(),
                old(self).priorities(),
                old(self).ledger(),
                request_views(names@),
            ) && final(self).ledger() == old(self).ledger()) || (e is UnsupportedFormat && exists|out: Seq<PackageView>|
                resolution_valid(out, old(self).catalog(), old(self).priorities(), old(self).ledger(), request_views(names@))
                && exists|i: int| 0 <= i < out.len() && !supported(#[trigger] out[i].format)),
    {
        let list = self.database.list();
        proof {
            self.database.lemma_names_unique();
        }
        let ghost reqs = request_views(names@);
        let recs = self.catalog.records();
        let mut q: usize = 0;
        while q < names.len()
            invariant
                self.wf(),
                q <= names@.len(),
                reqs == request_views(names@),
                views(list@) == self.ledger(),
                views(recs@) == self.catalog(),
                self.ledger() == old(self).ledger(),
                self.catalog() == old(self).catalog(),
                forall|q2: int| 0 <= q2 < q ==> findable(self.catalog(), self.ledger(), #[trigger] reqs[q2]),
            decreases names@.len() - q,
        {
            let n = String::from_str(names[q]);
            proof {
                assert(reqs[q as int] == n@);
            }
            let found = self.database.is_installed(names[q]) || self.catalog.find_best_version(names[q]).is_ok()
                || crate::resolver::provides_any(&list, &n) || crate::resolver::provides_any(recs, &n);
            if !found {
                proof {
                    assert(first_unfindable(self.catalog(), self.ledger(), reqs, q as int));
                    assert(forall|q3: int| 0 <= q3 < names@.len() && !findable(old(self).catalog(), old(self).ledger(), #[trigger] reqs[q3])
                        ==> q3 >= q);
                }
                return Err(PkgError::PackageNotFound(n));
            }
            q = q + 1;
        }
        let mut res = self.catalog.with_installed(list);
        let out = match res.resolve(names) {
            Ok(o) => o,
            Err(e) => {
                return Err(e);
            },
        };
        let ghost ov = views(out@);
        let mut dl: u64 = 0;
        let mut sc: i64 = 0;
        let mut i: usize = 0;
        while i < out.len()
            invariant
                ov == views(out@),
                resolution_valid(ov, old(self).catalog(), old(self).priorities(), old(self).ledger(), request_views(names@)),
                i <= out@.len(),
                dl == download_total(ov.subrange(0, i as int)),
                sc == growth(0, ov.subrange(0, i as int)),
            decreases out@.len() - i,
        {
            proof {
                assert(ov.subrange(0, i + 1).drop_last() =~= ov.subrange(0, i as int));
                assert(ov.subrange(0, i + 1).last() == out@[i as int]@);
            }
            dl = add_saturated(dl, out[i].size);
            sc = add_clamped(sc, out[i].installed_size);
            i = i + 1;
        }
        proof {
            assert(ov.subrange(0, out@.len() as int) =~= ov);
        }
        let tx = Transaction { install: out, remove: Vec::new(), upgrade: Vec::new(), download_size: dl, size_change: sc };
        match self.execute_transaction(&tx) {
            Ok(()) => {},
            Err(e) => {
                proof {
                    let i = choose|i: int| 0 <= i < tx.install@.len() && !supported(#[trigger] tx.install@[i].format);
                    assert(views(tx.install@)[i] == tx.install@[i]@);
                    assert(!supported(ov[i].format));
                }
                return Err(e);
            },
        }
        proof {
            assert forall|n: Seq<char>| !crate::model::strings_view(tx.remove@).contains(n) by {}
        }
        Ok(tx)
    }

    /// Removes the installed packages `names`. Each must be installed, and
    /// no other installed package may depend on one of them.
    pub fn remove(&mut self, names: &[&str]) -> (r: Result<Transaction, PkgError>)
        requires
            old(self).wf(),
        ensures
            final(self).wf(),
            final(self).catalog() == old(self).catalog(),
            final(self).priorities() == old(self).priorities(),
            r is Ok <==> (forall|q: int| 0 <= q < names@.len() ==> named_in(old(self).ledger(), #[trigger] request_views(names@)[q]))
                && removal_safe(old(self).ledger(), request_views(names@), Seq::empty()),
            r matches Ok(tx) ==> crate::model::strings_view(tx.remove@) == dedup(request_views(names@))
                && tx.install@.len() == 0 && tx.upgrade@.len() == 0 && tx.download_size == 0
                && tx.size_change == shrink(0, old(self).ledger(), dedup(request_views(names@)))
                && (forall|n: Seq<char>| named_in(final(self).ledger(), n) == (named_in(old(self).ledger(), n)
                && !request_views(names@).contains(n))),
            r is Err ==> final(self).ledger() == old(self).ledger(),
            r matches Err(e) ==> (e matches PkgError::NotInstalled(n) && exists|q: int|
                0 <= q < names@.len() && request_views(names@)[q] == n@ && !named_in(old(self).ledger(), n@)
                    && forall|q2: int| 0 <= q2 < q ==> named_in(old(self).ledger(), #[trigger] request_views(names@)[q2]))
                || (e matches PkgError::DependencyError(m) && (forall|q: int| 0 <= q < names@.len() ==> named_in(old(self).ledger(), #[trigger] request_views(names@)[q]))
                && exists|i: int, x: Seq<char>|
                0 <= i < old(self).ledger().len() && breaks_dependent(
                    old(self).ledger()[i],
                    request_views(names@),
                    Seq::empty(),
                    x,
                ) && m@ == depends_message(old(self).ledger()[i].name, x)),
    {
        let ghost reqs = request_views(names@);
        let ghost led = self.ledger();
        proof {
            self.database.lemma_names_unique();
        }
        let mut removal: Vec<String> = Vec::new();
        let mut sc: i64 = 0;
        let mut q: usize = 0;
        while q < names.len()
            invariant
                self.wf(),
                led == self.ledger(),
                led == old(self).ledger(),
                self.catalog() == old(self).catalog(),
                self.priorities() == old(self).priorities(),
                crate::database::names_unique(led),
                reqs == request_views(names@),
                q <= names@.len(),
                crate::model::strings_view(removal@) == dedup(reqs.subrange(0, q as int)),
                forall|q2: int| 0 <= q2 < q ==> named_in(led, #[trigger] reqs[q2]),
                sc == shrink(0, led, dedup(reqs.subrange(0, q as int))),
            decreases names@.len() - q,
        {
            let ghost d0 = dedup(reqs.subrange(0, q as int));
            proof {
                assert(reqs.subrange(0, q + 1).drop_last() =~= reqs.subrange(0, q as int));
                assert(reqs.subrange(0, q + 1).last() == reqs[q as int]);
                assert(reqs[q as int] == names@[q as int]@);
            }
            let nstr = String::from_str(names[q]);
            let repeated = crate::resolver::contains_string(&removal, &nstr);
            match self.database.get(names[q]) {
                Some(p) => {
                    if !repeated {
                        proof {
                            let j = choose|j: int| 0 <= j < led.len() && led[j] == p@;
                            let c = choose|c: int| 0 <= c < led.len() && led[c].name == reqs[q as int];
                            assert(c == j);
                            assert(d0.push(reqs[q as int]).drop_last() =~= d0);
                        }
                        sc = sub_clamped(sc, p.installed_size);
                    }
                },
                None => {
                    proof {
                        assert(reqs[q as int] == names@[q as int]@);
                        assert(reqs.contains(names@[q as int]@));
                    }
                    let n = String::from_str(names[q]);
                    proof {
                        assert(request_views(names@)[q as int] == n@);
                    }
                    return Err(PkgError::NotInstalled(n));
                },
            }
            if !repeated {
                let ghost rb = removal@;
                removal.push(nstr);
                proof {
                    assert(crate::model::strings_view(removal@) =~= crate::model::strings_view(rb).push(reqs[q as int]));
                }
            }
            q = q + 1;
        }
        proof {
            assert(reqs.subrange(0, names@.len() as int) =~= reqs);
            assert(pair_views(Seq::<(PackageInfo, PackageInfo)>::empty()) =~= Seq::<(PackageView, PackageView)>::empty());
            lemma_dedup_contains(reqs);
            lemma_removal_same(led, dedup(reqs), reqs, Seq::empty());
        }
        let tx = Transaction { install: Vec::new(), remove: removal, upgrade: Vec::new(), download_size: 0, size_change: sc };
        proof {
            assert(pair_views(tx.upgrade@) =~= Seq::<(PackageView, PackageView)>::empty());
        }
        match self.check_remove_deps(&tx) {
            Ok(()) => {},
            Err(e) => {
                return Err(e);
            },
        }
        match self.execute_transaction(&tx) {
            Ok(()) => {},
            Err(e) => {
                return Err(e);
            },
        }
        proof {
            assert forall|n: Seq<char>| !named_in(views(tx.install@), n) by {}
        }
        Ok(tx)
    }
}


/// The names an upgrade considers: the given ones, or every installed
/// name when none is given.
pub open spec fn upgrade_candidates(names: Seq<Seq<char>>, ledger: Seq<PackageView>) -> Seq<Seq<char>> {
    if names.len() == 0 {
        ledger.map_values(|p: PackageView| p.name)
    } else {
        names
    }
}

/// The catalog offers a record for `n` newer than the installed one.
pub open spec fn newer_available(
    cat: Seq<PackageView>,
    prios: Seq<i32>,
    ledger: Seq<PackageView>,
    n: Seq<char>,
) -> bool {
    exists|i: int, j: int|
        crate::resolver::is_choice(cat, prios, n, None, i) && 0 <= j < ledger.len() && ledger[j].name == n
            && version_lt(ledger[j].version, cat[i].version)
}

proof fn lemma_choice_unique(cat: Seq<PackageView>, prios: Seq<i32>, n: Seq<char>, i: int, i2: int)
    requires
        crate::resolver::is_choice(cat, prios, n, None, i),
        crate::resolver::is_choice(cat, prios, n, None, i2),
    ensures
        i == i2,
{
    if i < i2 {
        assert(crate::resolver::admissible(cat[i], n, None));
    } else if i2 < i {
        assert(crate::resolver::admissible(cat[i2], n, None));
    }
}

impl RpmNext {
    /// Upgrades `names` (every installed package when empty): each
    /// installed one whose best catalog record has a strictly newer version
    /// is replaced by that record; equal or older candidates are skipped.
    pub fn upgrade(&mut self, names: &[&str]) -> (r: Result<Transaction, PkgError>)
        requires
            old(self).wf(),
        ensures
            final(self).wf(),
            final(self).catalog() == old(self).catalog(),
            final(self).priorities() == old(self).priorities(),
            r matches Ok(tx) ==> tx.install@.len() == 0 && tx.remove@.len() == 0
                && tx.download_size == download_total(pair_views(tx.upgrade@).map_values(|p: (PackageView, PackageView)| p.1))
                && tx.size_change == upgrade_growth(0, pair_views(tx.upgrade@))
                && (forall|u: int| 0 <= u < tx.upgrade@.len() ==> {
                    let p = #[trigger] pair_views(tx.upgrade@)[u];
                    &&& old(self).ledger().contains(p.0)
                    &&& p.1.name == p.0.name
                    &&& upgrade_candidates(request_views(names@), old(self).ledger()).contains(p.0.name)
                    &&& exists|i: int|
                        crate::resolver::is_choice(old(self).catalog(), old(self).priorities(), p.0.name, None, i)
                            && p.1 == old(self).catalog()[i]
                    &&& version_lt(p.0.version, p.1.version)
                }) && (forall|n: Seq<char>|
                upgrade_candidates(request_views(names@), old(self).ledger()).contains(n) && newer_available(
                    old(self).catalog(),
                    old(self).priorities(),
                    old(self).ledger(),
                    n,
                ) ==> exists|u: int| 0 <= u < tx.upgrade@.len() && pair_views(tx.upgrade@)[u].0.name == n)
                && upgrade_shape(pair_views(tx.upgrade@), old(self).ledger())
                && (forall|n: Seq<char>| named_in(final(self).ledger(), n) == named_in(old(self).ledger(), n))
                && (forall|u: int| 0 <= u < tx.upgrade@.len() ==> final(self).ledger().contains(#[trigger] pair_views(tx.upgrade@)[u].1)),
            r matches Err(e) ==> e is UnsupportedFormat && exists|n: Seq<char>, i: int|
                upgrade_candidates(request_views(names@), old(self).ledger()).contains(n) && newer_available(
                    old(self).catalog(),
                    old(self).priorities(),
                    old(self).ledger(),
                    n,
                ) && #[trigger] crate::resolver::is_choice(old(self).catalog(), old(self).priorities(), n, None, i)
                && !supported(old(self).catalog()[i].format),
    {
        let ghost led = self.ledger();
        let ghost cat = self.catalog();
        let ghost prios = self.priorities();
        let ghost reqs = request_views(names@);
        proof {
            self.database.lemma_names_unique();
        }
        let mut cands: Vec<String> = Vec::new();
        if names.len() == 0 {
            let list = self.database.list();
            let mut t: usize = 0;
            while t < list.len()
                invariant
                    views(list@) == led,
                    t <= list@.len(),
                    crate::model::strings_view(cands@) == led.map_values(|p: PackageView| p.name).subrange(0, t as int),
                decreases list@.len() - t,
            {
                let ghost b0 = cands@;
                cands.push(list[t].name.clone());
                proof {
                    assert(crate::model::strings_view(cands@) =~= crate::model::strings_view(b0).push(list@[t as int].name@));
                    assert(led[t as int] == list@[t as int]@);
                    assert(crate::model::strings_view(cands@) =~= led.map_values(|p: PackageView| p.name).subrange(0, t + 1));
                }
                t = t + 1;
            }
            proof {
                assert(led.map_values(|p: PackageView| p.name).subrange(0, list@.len() as int) =~= led.map_values(|p: PackageView| p.name));
            }
        } else {
            let mut t: usize = 0;
            while t < names.len()
                invariant
                    reqs == request_views(names@),
                    t <= names@.len(),
                    crate::model::strings_view(cands@) == reqs.subrange(0, t as int),
                decreases names@.len() - t,
            {
                let ghost b0 = cands@;
                cands.push(String::from_str(names[t]));
                proof {
                    assert(crate::model::strings_view(cands@) =~= crate::model::strings_view(b0).push(names@[t as int]@));
                    assert(crate::model::strings_view(cands@) =~= reqs.subrange(0, t + 1));
                }
                t = t + 1;
            }
            proof {
                assert(reqs.subrange(0, names@.len() as int) =~= reqs);
            }
        }
        let ghost cv = crate::model::strings_view(cands@);
        assert(cv == upgrade_candidates(reqs, led));
        let mut ups: Vec<(PackageInfo, PackageInfo)> = Vec::new();
        let mut dl: u64 = 0;
        let mut sc: i64 = 0;
        let mut c: usize = 0;
        while c < cands.len()
            invariant
                self.wf(),
                led == self.ledger(),
                cat == self.catalog(),
                prios == self.priorities(),
                led == old(self).ledger(),
                cat == old(self).catalog(),
                prios == old(self).priorities(),
                crate::database::names_unique(led),
                cv == crate::model::strings_view(cands@),
                c <= cands@.len(),
                dl == download_total(pair_views(ups@).map_values(|p: (PackageView, PackageView)| p.1)),
                sc == upgrade_growth(0, pair_views(ups@)),
                forall|u: int| 0 <= u < ups@.len() ==> {
                    let p = #[trigger] pair_views(ups@)[u];
                    &&& led.contains(p.0)
                    &&& p.1.name == p.0.name
                    &&& cv.contains(p.0.name)
                    &&& exists|i: int| crate::resolver::is_choice(cat, prios, p.0.name, None, i) && p.1 == cat[i]
                    &&& version_lt(p.0.version, p.1.version)
                },
                forall|c2: int| 0 <= c2 < c && newer_available(cat, prios, led, #[trigger] cv[c2]) ==> exists|u: int|
                    0 <= u < ups@.len() && pair_views(ups@)[u].0.name == cv[c2],
                forall|u: int, u2: int| 0 <= u < ups@.len() && 0 <= u2 < ups@.len() && u != u2 ==> pair_views(ups@)[u].0.name != pair_views(ups@)[u2].0.name,
            decreases cands@.len() - c,
        {
            let ghost before = ups@;
            let mut dup = false;
            let mut w: usize = 0;
            while w < ups.len()
                invariant
                    w <= ups@.len(),
                    c < cands@.len(),
                    dup == exists|u: int| 0 <= u < w && pair_views(ups@)[u].0.name == cands@[c as int]@,
                decreases ups@.len() - w,
            {
                if ups[w].0.name == cands[c] {
                    dup = true;
                }
                proof {
                    assert(pair_views(ups@)[w as int].0.name == ups@[w as int].0.name@);
                }
                w = w + 1;
            }
            if dup {
                proof {
                    assert(cv[c as int] == cands@[c as int]@);
                    assert forall|c2: int| 0 <= c2 < c + 1 && newer_available(cat, prios, led, #[trigger] cv[c2]) implies exists|u: int|
                        0 <= u < ups@.len() && pair_views(ups@)[u].0.name == cv[c2] by {}
                }
                c = c + 1;
                continue;
            }
            match self.database.get(cands[c].as_str()) {
                Some(old_rec) => {
                    match self.find_package(cands[c].as_str()) {
                        Ok(Some(new_rec)) => {
                            let cmp = self.version_compare(new_rec.version.as_str(), old_rec.version.as_str());
                            proof {
                                lemma_version_order_total_preorder(new_rec.version@, old_rec.version@, old_rec.version@);
                            }
                            if cmp > 0 {
                                dl = add_saturated(dl, new_rec.size);
                                let t: i128 = sc as i128 + new_rec.installed_size as i128 - old_rec.installed_size as i128;
                                sc = if t > i64::MAX as i128 {
                                    i64::MAX
                                } else if t < i64::MIN as i128 {
                                    i64::MIN
                                } else {
                                    t as i64
                                };
                                ups.push((old_rec.duplicate(), new_rec));
                                proof {
                                    let pv = pair_views(ups@);
                                    assert(pv =~= pair_views(before).push(pv.last()));
                                    assert(pv.drop_last() =~= pair_views(before));
                                    assert(pv.map_values(|p: (PackageView, PackageView)| p.1).drop_last() =~= pair_views(before).map_values(|p: (PackageView, PackageView)| p.1));
                                    assert(cv[c as int] == cands@[c as int]@);
                                    assert(cv.contains(cv[c as int]));
                                    assert(pv[before.len() as int].0.name == cv[c as int]);
                                    assert forall|u: int| 0 <= u < before.len() implies pv[u] == pair_views(before)[u] by {}
                                }
                            } else {
                                proof {
                                    if newer_available(cat, prios, led, cv[c as int]) {
                                        let (i, j) = choose|i: int, j: int|
                                            crate::resolver::is_choice(cat, prios, cv[c as int], None, i) && 0 <= j < led.len() && led[j].name == cv[c as int]
                                                && version_lt(led[j].version, cat[i].version);
                                        let i2 = choose|i2: int| crate::resolver::is_choice(cat, prios, cv[c as int], None, i2) && new_rec@ == cat[i2];
                                        lemma_choice_unique(cat, prios, cv[c as int], i, i2);
                                        let j2 = choose|j2: int| 0 <= j2 < led.len() && led[j2] == old_rec@;
                                        assert(j == j2);
                                        lemma_version_order_total_preorder(old_rec.version@, new_rec.version@, old_rec.version@);
                                    }
                                }
                            }
                        },
                        _ => {
                            proof {
                                if newer_available(cat, prios, led, cv[c as int]) {
                                    let (i, j) = choose|i: int, j: int|
                                        crate::resolver::is_choice(cat, prios, cv[c as int], None, i) && 0 <= j < led.len() && led[j].name == cv[c as int]
                                            && version_lt(led[j].version, cat[i].version);
                                    assert(crate::resolver::has_name(cat, cv[c as int]));
                                }
                            }
                        },
                    }
                },
                None => {},
            }
            proof {
                assert forall|u: int| 0 <= u < before.len() implies pair_views(ups@)[u] == pair_views(before)[u] by {}
                assert forall|c2: int| 0 <= c2 < c + 1 && newer_available(cat, prios, led, #[trigger] cv[c2]) implies exists|u: int|
                    0 <= u < ups@.len() && pair_views(ups@)[u].0.name == cv[c2] by {
                    if c2 < c {
                        let u = choose|u: int| 0 <= u < before.len() && pair_views(before)[u].0.name == cv[c2];
                        assert(pair_views(ups@)[u] == pair_views(before)[u]);
                    } else {
                        assert(cv[c2] == cands@[c as int]@);
                        if ups@.len() == before.len() {
                            assert(false);
                        } else {
                            assert(pair_views(ups@)[before.len() as int].0.name == cv[c2]);
                        }
                    }
                }
            }
            c = c + 1;
        }
        let tx = Transaction { install: Vec::new(), remove: Vec::new(), upgrade: ups, download_size: dl, size_change: sc };
        let ghost ps = pair_views(tx.upgrade@);
        proof {
            assert forall|u: int| 0 <= u < ps.len() implies #[trigger] ps[u].0.name == ps[u].1.name && named_in(led, ps[u].0.name) by {
                let j = choose|j: int| 0 <= j < led.len() && led[j] == ps[u].0;
                assert(led[j].name == ps[u].0.name);
            }
            assert(upgrade_shape(ps, led));
        }
        match self.execute_transaction(&tx) {
            Ok(()) => {},
            Err(e) => {
                proof {
                    let u = choose|u: int| 0 <= u < tx.upgrade@.len() && !supported(#[trigger] tx.upgrade@[u].1.format);
                    let p = ps[u];
                    assert(p.1.format == tx.upgrade@[u].1.format);
                    let i = choose|i: int| crate::resolver::is_choice(cat, prios, p.0.name, None, i) && p.1 == cat[i];
                    let j = choose|j: int| 0 <= j < led.len() && led[j] == p.0;
                    assert(newer_available(cat, prios, led, p.0.name));
                    assert(crate::resolver::is_choice(cat, prios, p.0.name, None, i) && !supported(cat[i].format));
                }
                return Err(e);
            },
        }
        Ok(tx)
    }
}


/// Some installed or catalog record has the name `n` or provides it.
pub open spec fn findable(cat: Seq<PackageView>, inst: Seq<PackageView>, n: Seq<char>) -> bool {
    named_in(inst, n) || crate::resolver::has_name(cat, n) || crate::resolver::provided_in(inst, n)
        || crate::resolver::provided_in(cat, n)
}

/// `names[q]` is the first requested name that cannot be found.
pub open spec fn first_unfindable(cat: Seq<PackageView>, inst: Seq<PackageView>, names: Seq<Seq<char>>, q: int) -> bool {
    0 <= q < names.len() && !findable(cat, inst, names[q]) && forall|q2: int| 0 <= q2 < q ==> findable(cat, inst, #[trigger] names[q2])
}

/// A catalog record whose name or description contains `q`, ignoring case.
pub open spec fn record_matches(q: Seq<char>) -> spec_fn(PackageView) -> bool {
    |p: PackageView| crate::text::query_matches(q, p.name, p.description)
}

impl RpmNext {
    /// Catalog records whose name or description contains `query`,
    /// ignoring case, in catalog order.
    pub fn search(&self, query: &str) -> (r: Result<Vec<PackageInfo>, PkgError>)
        requires
            self.wf(),
        ensures
            r matches Ok(v) && views(v@) == self.catalog().filter(record_matches(query@)),
    {
        let q = crate::text::lowercase(query);
        let recs = self.catalog.records();
        let ghost cv = views(recs@);
        let mut out: Vec<PackageInfo> = Vec::new();
        proof {
            crate::text::lemma_filter_empty(cv, record_matches(query@));
            assert(views(out@) =~= Seq::<PackageView>::empty());
        }
        let mut i: usize = 0;
        while i < recs.len()
            invariant
                q@ == crate::text::lower_of(query@),
                cv == views(recs@),
                i <= recs@.len(),
                views(out@) == cv.subrange(0, i as int).filter(record_matches(query@)),
            decreases recs@.len() - i,
        {
            let p = &recs[i];
            proof {
                crate::text::lemma_filter_step(cv, i as int, record_matches(query@));
                assert(cv[i as int] == p@);
            }
            if crate::text::matches_lowered(q.as_str(), p.name.as_str(), p.description.as_str()) {
                let ghost before = out@;
                out.push(p.duplicate());
                proof {
                    assert(views(out@) =~= views(before).push(p@));
                }
            }
            i = i + 1;
        }
        proof {
            assert(cv.subrange(0, recs@.len() as int) =~= cv);
        }
        Ok(out)
    }
}

} // verus!
