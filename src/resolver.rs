//! Catalog queries and dependency resolution.
use crate::model::{
    deps_view, strings_view, ConstraintOp, Dependency, DependencyView, PackageInfo, PackageView,
    PkgError, VersionConstraint,
};
use crate::version::{
    cmp_versions, compare_components, lemma_version_order_total_preorder, version_components,
};
use std::cmp::Ordering;
use vstd::prelude::*;
use vstd::string::StringExecFns;

verus! {

/// Whether an operator accepts the result of comparing a version with the
/// constraint's version.
pub open spec fn op_holds(op: ConstraintOp, o: Ordering) -> bool {
    match op {
        ConstraintOp::Eq => o == Ordering::Equal,
        ConstraintOp::Lt => o == Ordering::Less,
        ConstraintOp::Le => o != Ordering::Greater,
        ConstraintOp::Gt => o == Ordering::Greater,
        ConstraintOp::Ge => o != Ordering::Less,
    }
}

/// `version` satisfies the constraint `(op, c)`.
pub open spec fn satisfies(version: Seq<char>, op: ConstraintOp, c: Seq<char>) -> bool {
    op_holds(op, cmp_versions(version, c))
}

/// Record `a` (with priority `pa`) ranks strictly above record `b`: a
/// higher version, or the same version from a source of higher priority.
pub open spec fn ranks_above(a: Seq<char>, pa: i32, b: Seq<char>, pb: i32) -> bool {
    cmp_versions(a, b) == Ordering::Greater || (cmp_versions(a, b) == Ordering::Equal && pa > pb)
}

/// A record is a candidate for `name` under an optional constraint.
pub open spec fn admissible(
    p: PackageView,
    name: Seq<char>,
    c: Option<(ConstraintOp, Seq<char>)>,
) -> bool {
    &&& p.name == name
    &&& match c {
        Some(k) => satisfies(p.version, k.0, k.1),
        None => true,
    }
}

pub open spec fn views(s: Seq<PackageInfo>) -> Seq<PackageView> {
    s.map_values(|p: PackageInfo| p@)
}

pub open spec fn constraint_view(c: Option<VersionConstraint>) -> Option<(ConstraintOp, Seq<char>)> {
    match c {
        Some(k) => Some((k.operator, k.version@)),
        None => None,
    }
}

/// Index `i` holds the chosen candidate: it is admissible, no admissible
/// record ranks above it, and it ranks above every admissible record
/// before it (the first of equally ranked candidates wins).
pub open spec fn is_choice(
    recs: Seq<PackageView>,
    prios: Seq<i32>,
    name: Seq<char>,
    c: Option<(ConstraintOp, Seq<char>)>,
    i: int,
) -> bool {
    &&& 0 <= i < recs.len()
    &&& admissible(recs[i], name, c)
    &&& forall|j: int|
        0 <= j < recs.len() && admissible(recs[j], name, c) ==> !ranks_above(
            recs[j].version,
            prios[j],
            recs[i].version,
            prios[i],
        )
    &&& forall|j: int|
        0 <= j < i && admissible(recs[j], name, c) ==> ranks_above(
            recs[i].version,
            prios[i],
            recs[j].version,
            prios[j],
        )
}

pub open spec fn has_admissible(
    recs: Seq<PackageView>,
    name: Seq<char>,
    c: Option<(ConstraintOp, Seq<char>)>,
) -> bool {
    exists|j: int| 0 <= j < recs.len() && admissible(recs[j], name, c)
}

pub open spec fn has_name(recs: Seq<PackageView>, name: Seq<char>) -> bool {
    exists|j: int| 0 <= j < recs.len() && recs[j].name == name
}

proof fn lemma_rank_order(a: Seq<char>, pa: i32, b: Seq<char>, pb: i32, c: Seq<char>, pc: i32)
    ensures
        ranks_above(a, pa, b, pb) ==> !ranks_above(b, pb, a, pa),
        ranks_above(a, pa, b, pb) && ranks_above(b, pb, c, pc) ==> ranks_above(a, pa, c, pc),
        ranks_above(a, pa, b, pb) && !ranks_above(c, pc, b, pb) ==> ranks_above(a, pa, c, pc),
{
    lemma_version_order_total_preorder(a, b, c);
    lemma_version_order_total_preorder(b, c, a);
    lemma_version_order_total_preorder(c, a, b);
    lemma_version_order_total_preorder(a, c, b);
    lemma_version_order_total_preorder(b, a, c);
    lemma_version_order_total_preorder(c, b, a);
}

/// Resolver state: the catalog (every record with its source priority),
/// the installed set and the last resolution result.
pub struct Resolver {
    packages: Vec<PackageInfo>,
    priorities: Vec<i32>,
    installed: Vec<PackageInfo>,
    solution: Vec<PackageInfo>,
}

pub open spec fn names_distinct(s: Seq<PackageView>) -> bool {
    forall|i: int, j: int| 0 <= i < s.len() && 0 <= j < s.len() && i != j ==> s[i].name != s[j].name
}

impl Resolver {
    pub closed spec fn catalog(&self) -> Seq<PackageView> {
        views(self.packages@)
    }

    pub closed spec fn priorities(&self) -> Seq<i32> {
        self.priorities@
    }

    pub closed spec fn installed_set(&self) -> Seq<PackageView> {
        views(self.installed@)
    }

    pub closed spec fn wf(&self) -> bool {
        &&& self.packages@.len() == self.priorities@.len()
        &&& names_distinct(self.installed_set())
    }

    /// An empty resolver.
    pub fn new() -> (r: Resolver)
        ensures
            r.wf(),
            r.catalog().len() == 0,
            r.installed_set().len() == 0,
    {
        Resolver { packages: Vec::new(), priorities: Vec::new(), installed: Vec::new(), solution: Vec::new() }
    }

    /// Adds the records of one source, tagged with its priority. Records
    /// are appended as given; nothing is deduplicated.
    pub fn ingest(&mut self, priority: i32, records: Vec<PackageInfo>)
        requires
            old(self).wf(),
        ensures
            final(self).wf(),
            final(self).catalog() == old(self).catalog() + views(records@),
            final(self).priorities() == old(self).priorities() + Seq::new(
                records@.len(),
                |i: int| priority,
            ),
            final(self).installed_set() == old(self).installed_set(),
    {
        let mut i: usize = 0;
        while i < records.len()
            invariant
                self.wf(),
                i <= records@.len(),
                self.catalog() == old(self).catalog() + views(records@.subrange(0, i as int)),
                self.priorities() == old(self).priorities() + Seq::new(i as nat, |k: int| priority),
                self.installed_set() == old(self).installed_set(),
            decreases records@.len() - i,
        {
            let ghost before = self.packages@;
            self.packages.push(records[i].duplicate());
            self.priorities.push(priority);
            proof {
                assert(views(self.packages@) =~= views(before).push(records@[i as int]@));
                assert(views(records@.subrange(0, i + 1)) =~= views(records@.subrange(0, i as int)).push(records@[i as int]@));
                assert(Seq::new((i + 1) as nat, |k: int| priority) =~= Seq::new(i as nat, |k: int| priority).push(priority));
            }
            i = i + 1;
        }
        proof {
            assert(records@.subrange(0, records@.len() as int) =~= records@);
        }
    }

    /// Adds available records from a source of default priority 0.
    pub fn add_available(&mut self, packages: Vec<PackageInfo>)
        requires
            old(self).wf(),
        ensures
            final(self).wf(),
            final(self).catalog() == old(self).catalog() + views(packages@),
            final(self).priorities() == old(self).priorities() + Seq::new(
                packages@.len(),
                |i: int| 0i32,
            ),
            final(self).installed_set() == old(self).installed_set(),
    {
        self.ingest(0, packages);
    }

    /// Compares two version strings by their numeric components.
    pub fn compare_versions(&self, a: &str, b: &str) -> (r: Ordering)
        ensures
            r == cmp_versions(a@, b@),
    {
        let va = version_components(a);
        let vb = version_components(b);
        compare_components(&va, &vb)
    }

    /// Whether `version` satisfies `constraint`.
    pub fn version_satisfies(&self, version: &str, constraint: &VersionConstraint) -> (r: bool)
        ensures
            r == satisfies(version@, constraint.operator, constraint.version@),
    {
        let cmp = self.compare_versions(version, constraint.version.as_str());
        match constraint.operator {
            ConstraintOp::Eq => matches!(cmp, Ordering::Equal),
            ConstraintOp::Lt => matches!(cmp, Ordering::Less),
            ConstraintOp::Le => !matches!(cmp, Ordering::Greater),
            ConstraintOp::Gt => matches!(cmp, Ordering::Greater),
            ConstraintOp::Ge => !matches!(cmp, Ordering::Less),
        }
    }

    /// Index of the best candidate for `name`, if there is any.
    fn choose_index(&self, name: &String, constraint: &Option<VersionConstraint>) -> (r: Option<
        usize,
    >)
        requires
            self.wf(),
        ensures
            r is Some <==> has_admissible(self.catalog(), name@, constraint_view(*constraint)),
            r matches Some(i) ==> is_choice(
                self.catalog(),
                self.priorities(),
                name@,
                constraint_view(*constraint),
                i as int,
            ),
    {
        let ghost recs = self.catalog();
        let ghost prios = self.priorities();
        let ghost c = constraint_view(*constraint);
        let mut best: Option<usize> = None;
        let mut k: usize = 0;
        while k < self.packages.len()
            invariant
                self.wf(),
                recs == self.catalog(),
                prios == self.priorities(),
                c == constraint_view(*constraint),
                k <= recs.len(),
                best is None ==> forall|j: int| 0 <= j < k ==> !admissible(recs[j], name@, c),
                best matches Some(b) ==> b < k,
                best matches Some(b) ==> admissible(recs[b as int], name@, c),
                best matches Some(b) ==> forall|j: int|
                    0 <= j < k && admissible(recs[j], name@, c) ==> !ranks_above(
                        recs[j].version,
                        prios[j],
                        recs[b as int].version,
                        prios[b as int],
                    ),
                best matches Some(b) ==> forall|j: int|
                    0 <= j < b && admissible(recs[j], name@, c) ==> ranks_above(
                        recs[b as int].version,
                        prios[b as int],
                        recs[j].version,
                        prios[j],
                    ),
            decreases recs.len() - k,
        {
            let p = &self.packages[k];
            let ok = if p.name == *name {
                match constraint {
                    Some(con) => self.version_satisfies(p.version.as_str(), con),
                    None => true,
                }
            } else {
                false
            };
            assert(ok == admissible(recs[k as int], name@, c));
            if ok {
                match best {
                    None => {
                        proof {
                            lemma_rank_order(recs[k as int].version, prios[k as int], recs[k as int].version, prios[k as int], recs[k as int].version, prios[k as int]);
                        }
                        best = Some(k);
                    },
                    Some(b) => {
                        let q = &self.packages[b];
                        let o = self.compare_versions(p.version.as_str(), q.version.as_str());
                        let above = match o {
                            Ordering::Greater => true,
                            Ordering::Equal => self.priorities[k] > self.priorities[b],
                            Ordering::Less => false,
                        };
                        proof {
                            assert(recs[k as int] == self.packages@[k as int]@);
                            assert(recs[b as int] == self.packages@[b as int]@);
                            assert(above == ranks_above(recs[k as int].version, prios[k as int], recs[b as int].version, prios[b as int]));
                            let nb: int = if above { k as int } else { b as int };
                            assert forall|j: int|
                                0 <= j <= k && admissible(recs[j], name@, c) implies !ranks_above(
                                    recs[j].version, prios[j], recs[nb].version, prios[nb])
                                && (j < nb ==> ranks_above(recs[nb].version, prios[nb], recs[j].version, prios[j])) by {
                                lemma_rank_order(recs[j].version, prios[j], recs[b as int].version, prios[b as int], recs[k as int].version, prios[k as int]);
                                lemma_rank_order(recs[k as int].version, prios[k as int], recs[b as int].version, prios[b as int], recs[j].version, prios[j]);
                                lemma_rank_order(recs[k as int].version, prios[k as int], recs[j].version, prios[j], recs[b as int].version, prios[b as int]);
                            }
                        }
                        if above {
                            best = Some(k);
                        }
                    },
                }
            }
            k = k + 1;
        }
        best
    }

    /// The best record of `name`: the highest version, and among equal
    /// versions the one from the source of highest priority.
    pub fn find_best_version(&self, name: &str) -> (r: Result<PackageInfo, PkgError>)
        requires
            self.wf(),
        ensures
            r is Ok <==> has_name(self.catalog(), name@),
            r matches Ok(p) ==> exists|i: int|
                is_choice(self.catalog(), self.priorities(), name@, None, i) && p@
                    == self.catalog()[i],
            r matches Err(e) ==> e matches PkgError::PackageNotFound(n) && n@ == name@,
    {
        let key = String::from_str(name);
        match self.choose_index(&key, &None) {
            Some(i) => Ok(self.packages[i].duplicate()),
            None => Err(PkgError::PackageNotFound(key)),
        }
    }

    /// The best record of `name` whose version satisfies `constraint`.
    pub fn find_version_satisfying(&self, name: &str, constraint: &VersionConstraint) -> (r: Result<
        PackageInfo,
        PkgError,
    >)
        requires
            self.wf(),
        ensures
            r is Ok <==> has_admissible(
                self.catalog(),
                name@,
                Some((constraint.operator, constraint.version@)),
            ),
            r matches Ok(p) ==> exists|i: int|
                is_choice(
                    self.catalog(),
                    self.priorities(),
                    name@,
                    Some((constraint.operator, constraint.version@)),
                    i,
                ) && p@ == self.catalog()[i],
            r matches Err(e) ==> if has_name(self.catalog(), name@) {
                e matches PkgError::DependencyError(n) && n@ == name@
            } else {
                e matches PkgError::PackageNotFound(n) && n@ == name@
            },
    {
        let key = String::from_str(name);
        let c = Some(constraint.duplicate());
        match self.choose_index(&key, &c) {
            Some(i) => Ok(self.packages[i].duplicate()),
            None => {
                match self.choose_index(&key, &None) {
                    Some(_) => Err(PkgError::DependencyError(key)),
                    None => Err(PkgError::PackageNotFound(key)),
                }
            },
        }
    }
}


pub open spec fn named_in(s: Seq<PackageView>, n: Seq<char>) -> bool {
    exists|i: int| 0 <= i < s.len() && s[i].name == n
}

pub open spec fn provided_in(s: Seq<PackageView>, n: Seq<char>) -> bool {
    exists|i: int, j: int| 0 <= i < s.len() && 0 <= j < s[i].provides.len() && s[i].provides[j] == n
}

/// A required name is met by the installed set and the planned records:
/// a record of that name, or a record that provides it.
pub open spec fn is_met(n: Seq<char>, inst: Seq<PackageView>, out: Seq<PackageView>) -> bool {
    named_in(inst, n) || named_in(out, n) || provided_in(inst, n) || provided_in(out, n)
}

/// Either record declares a conflict with the other's name.
pub open spec fn conflicting(a: PackageView, b: PackageView) -> bool {
    a.conflicts.contains(b.name) || b.conflicts.contains(a.name)
}

pub open spec fn conflict_free(out: Seq<PackageView>, inst: Seq<PackageView>) -> bool {
    &&& forall|i: int, j: int|
        0 <= i < out.len() && 0 <= j < out.len() && i != j ==> !conflicting(out[i], out[j])
    &&& forall|i: int, m: int| 0 <= i < out.len() && 0 <= m < inst.len() ==> !conflicting(out[i], inst[m])
}

/// Every dependency of `out[i]` that names a record of `out` names one
/// placed before position `i`.
pub open spec fn deps_before(out: Seq<PackageView>, i: int) -> bool {
    forall|d: int, j: int|
        0 <= d < out[i].dependencies.len() && 0 <= j < out.len() && out[j].name
            == out[i].dependencies[d].name ==> j < i
}

/// `out[i]` depends on a record of `out` placed at position `k` or later.
pub open spec fn waits_from(out: Seq<PackageView>, i: int, k: int) -> bool {
    exists|d: int, j: int|
        0 <= d < out[i].dependencies.len() && k <= j < out.len() && out[j].name
            == out[i].dependencies[d].name
}

/// The shape of an ordering pass: a prefix in dependency order, followed
/// by a remainder, appended as it stood, in which every record waits on a
/// record of the remainder (a dependency cycle).
pub open spec fn ordered_output(out: Seq<PackageView>) -> bool {
    exists|k: int| #[trigger] ordered_at(out, k)
}

/// `out` is in dependency order up to position `k`, and every record from
/// `k` on waits on a record from `k` on.
pub open spec fn ordered_at(out: Seq<PackageView>, k: int) -> bool {
    &&& 0 <= k <= out.len()
    &&& forall|i: int| 0 <= i < k ==> #[trigger] deps_before(out, i)
    &&& forall|i: int| k <= i < out.len() ==> #[trigger] waits_from(out, i, k)
}

pub open spec fn count_unplaced(s: Seq<bool>) -> nat
    decreases s.len(),
{
    if s.len() == 0 {
        0
    } else {
        count_unplaced(s.drop_last()) + if s.last() {
            0nat
        } else {
            1nat
        }
    }
}

proof fn lemma_count_place(s: Seq<bool>, j: int)
    requires
        0 <= j < s.len(),
        !s[j],
    ensures
        count_unplaced(s.update(j, true)) + 1 == count_unplaced(s),
    decreases s.len(),
{
    if j < s.len() - 1 {
        assert(s.update(j, true).drop_last() =~= s.drop_last().update(j, true));
        lemma_count_place(s.drop_last(), j);
    } else {
        assert(s.update(j, true).drop_last() =~= s.drop_last());
    }
}

proof fn lemma_count_zero(s: Seq<bool>)
    requires
        count_unplaced(s) == 0,
    ensures
        forall|m: int| 0 <= m < s.len() ==> s[m],
    decreases s.len(),
{
    if s.len() > 0 {
        lemma_count_zero(s.drop_last());
        assert forall|m: int| 0 <= m < s.len() implies s[m] by {
            if m < s.len() - 1 {
                assert(s[m] == s.drop_last()[m]);
            }
        }
    }
}

proof fn lemma_count_all(n: nat)
    ensures
        count_unplaced(Seq::new(n, |i: int| false)) == n,
    decreases n,
{
    if n > 0 {
        assert(Seq::new(n, |i: int| false).drop_last() =~= Seq::new((n - 1) as nat, |i: int| false));
        lemma_count_all((n - 1) as nat);
    }
}

/// `m` occurs in `order`.
pub open spec fn occurs(order: Seq<usize>, m: int) -> bool {
    exists|i: int| 0 <= i < order.len() && order[i] == m
}

proof fn lemma_count_full(s: Seq<bool>)
    requires
        forall|m: int| 0 <= m < s.len() ==> s[m],
    ensures
        count_unplaced(s) == 0,
    decreases s.len(),
{
    if s.len() > 0 {
        lemma_count_full(s.drop_last());
    }
}

/// Placing `j` keeps `placed` in step with `order` and `order` free of
/// repeats.
proof fn lemma_place(old_order: Seq<usize>, old_placed: Seq<bool>, j: usize, n: usize)
    requires
        old_placed.len() == n,
        j < n,
        !old_placed[j as int],
        forall|m: int| 0 <= m < n ==> (old_placed[m] <==> exists|i: int| 0 <= i < old_order.len() && old_order[i] == m),
        forall|i: int| 0 <= i < old_order.len() ==> old_order[i] < n,
        forall|i: int, i2: int| 0 <= i < old_order.len() && 0 <= i2 < old_order.len() && i != i2 ==> old_order[i] != old_order[i2],
    ensures
        forall|m: int| 0 <= m < n ==> (old_placed.update(j as int, true)[m] <==> exists|i: int| 0 <= i < old_order.push(j).len() && old_order.push(j)[i] == m),
        forall|i: int| 0 <= i < old_order.push(j).len() ==> old_order.push(j)[i] < n,
        forall|i: int, i2: int| 0 <= i < old_order.push(j).len() && 0 <= i2 < old_order.push(j).len() && i != i2 ==> old_order.push(j)[i] != old_order.push(j)[i2],
{
    let order = old_order.push(j);
    let placed = old_placed.update(j as int, true);
    assert forall|m: int| 0 <= m < n implies (placed[m] <==> exists|i: int| 0 <= i < order.len() && order[i] == m) by {
        if m != j {
            if old_placed[m] {
                let i = choose|i: int| 0 <= i < old_order.len() && old_order[i] == m;
                assert(order[i] == m);
            }
            if exists|i: int| 0 <= i < order.len() && order[i] == m {
                let i = choose|i: int| 0 <= i < order.len() && order[i] == m;
                assert(i < old_order.len());
                assert(old_order[i] == m);
            }
        } else {
            assert(order[old_order.len() as int] == m);
        }
    }
    assert forall|i: int, i2: int| 0 <= i < order.len() && 0 <= i2 < order.len() && i != i2 implies order[i] != order[i2] by {
        if i == old_order.len() && i2 < old_order.len() {
            assert(old_placed[old_order[i2] as int]);
        }
        if i2 == old_order.len() && i < old_order.len() {
            assert(old_placed[old_order[i] as int]);
        }
    }
}

/// Record `j` still waits on an unplaced record.
pub open spec fn pending(planned: Seq<PackageView>, placed: Seq<bool>, j: int) -> bool {
    exists|d: int, m: int|
        0 <= d < planned[j].dependencies.len() && 0 <= m < planned.len() && !placed[m]
            && planned[m].name == planned[j].dependencies[d].name
}

/// Position `i` of `order` is placed after every planned record it
/// depends on.
pub open spec fn placed_after_deps(planned: Seq<PackageView>, order: Seq<usize>, i: int) -> bool {
    forall|d: int, m: int|
        0 <= d < planned[order[i] as int].dependencies.len() && 0 <= m < planned.len()
            && planned[m].name == planned[order[i] as int].dependencies[d].name ==> exists|i2: int|
            0 <= i2 < i && order[i2] == m
}

pub open spec fn waits_after(planned: Seq<PackageView>, order: Seq<usize>, i: int, k: int) -> bool {
    exists|d: int, m: int|
        0 <= d < planned[order[i] as int].dependencies.len() && 0 <= m < planned.len()
            && planned[m].name == planned[order[i] as int].dependencies[d].name && !(exists|i2: int|
            0 <= i2 < k && order[i2] == m)
}

fn has_pending_dep(planned: &Vec<PackageInfo>, placed: &Vec<bool>, j: usize) -> (r: bool)
    requires
        placed@.len() == planned@.len(),
        j < planned@.len(),
    ensures
        r == pending(views(planned@), placed@, j as int),
{
    let ghost pv = views(planned@);
    let deps = &planned[j].dependencies;
    let mut d: usize = 0;
    while d < deps.len()
        invariant
            pv == views(planned@),
            placed@.len() == planned@.len(),
            j < planned@.len(),
            deps == planned@[j as int].dependencies,
            d <= deps@.len(),
            forall|d2: int, m: int|
                0 <= d2 < d && 0 <= m < pv.len() && !placed@[m] ==> pv[m].name
                    != pv[j as int].dependencies[d2].name,
        decreases deps@.len() - d,
    {
        let mut m: usize = 0;
        while m < planned.len()
            invariant
                pv == views(planned@),
                placed@.len() == planned@.len(),
                j < planned@.len(),
                deps == planned@[j as int].dependencies,
                d < deps@.len(),
                m <= planned@.len(),
                forall|m2: int|
                    0 <= m2 < m && !placed@[m2] ==> pv[m2].name != pv[j as int].dependencies[d as int].name,
            decreases planned@.len() - m,
        {
            if !placed[m] && planned[m].name == deps[d].name {
                assert(pv[j as int].dependencies[d as int] == deps@[d as int]@);
                return true;
            }
            m = m + 1;
        }
        d = d + 1;
    }
    false
}

/// Orders planned records: repeated passes place, in input order, each
/// record whose dependencies among the planned records are all placed; a
/// pass that places nothing appends the rest in input order.
#[verifier::rlimit(60)]
fn plan_order(planned: &Vec<PackageInfo>) -> (r: (Vec<usize>, Ghost<int>))
    ensures
        r.0@.len() == planned@.len(),
        forall|i: int| 0 <= i < r.0@.len() ==> r.0@[i] < planned@.len(),
        forall|i: int, i2: int| 0 <= i < r.0@.len() && 0 <= i2 < r.0@.len() && i != i2 ==> r.0@[i] != r.0@[i2],
        forall|m: int| 0 <= m < planned@.len() ==> #[trigger] occurs(r.0@, m),
        0 <= r.1@ <= planned@.len(),
        forall|i: int| 0 <= i < r.1@ ==> placed_after_deps(views(planned@), r.0@, i),
        forall|i: int| r.1@ <= i < planned@.len() ==> waits_after(views(planned@), r.0@, i, r.1@),
{
    let ghost pv = views(planned@);
    let n = planned.len();
    let mut placed: Vec<bool> = Vec::new();
    let mut t: usize = 0;
    while t < n
        invariant
            t <= n,
            placed@ == Seq::new(t as nat, |i: int| false),
        decreases n - t,
    {
        placed.push(false);
        proof {
            assert(placed@ =~= Seq::new((t + 1) as nat, |i: int| false));
        }
        t = t + 1;
    }
    proof {
        lemma_count_all(n as nat);
    }
    let mut order: Vec<usize> = Vec::new();
    let ghost mut k: int = 0;
    let mut done: bool = false;
    while order.len() < n
        invariant
            pv == views(planned@),
            n == planned@.len(),
            placed@.len() == n,
            forall|m: int| 0 <= m < n ==> (placed@[m] <==> exists|i: int| 0 <= i < order@.len() && order@[i] == m),
            forall|i: int| 0 <= i < order@.len() ==> order@[i] < n,
            forall|i: int, i2: int| 0 <= i < order@.len() && 0 <= i2 < order@.len() && i != i2 ==> order@[i] != order@[i2],
            order@.len() + count_unplaced(placed@) == n,
            !done ==> k == order@.len(),
            done ==> order@.len() == n,
            0 <= k <= order@.len(),
            forall|i: int| 0 <= i < k ==> placed_after_deps(pv, order@, i),
            forall|i: int| k <= i < order@.len() ==> waits_after(pv, order@, i, k),
        decreases n - order@.len(),
    {
        let before = order.len();
        let ghost start_placed = placed@;
        let mut j: usize = 0;
        while j < n
            invariant
                pv == views(planned@),
                n == planned@.len(),
                placed@.len() == n,
                !done,
                before < n,
                j <= n,
                forall|m: int| 0 <= m < n ==> (placed@[m] <==> exists|i: int| 0 <= i < order@.len() && order@[i] == m),
                forall|i: int| 0 <= i < order@.len() ==> order@[i] < n,
                forall|i: int, i2: int| 0 <= i < order@.len() && 0 <= i2 < order@.len() && i != i2 ==> order@[i] != order@[i2],
                order@.len() + count_unplaced(placed@) == n,
                before <= order@.len(),
                forall|i: int| 0 <= i < order@.len() ==> placed_after_deps(pv, order@, i),
                order@.len() == before ==> placed@ == start_placed,
                order@.len() == before ==> forall|j2: int| 0 <= j2 < j ==> placed@[j2] || pending(pv, placed@, j2),
            decreases n - j,
        {
            if !placed[j] && !has_pending_dep(planned, &placed, j) {
                let ghost old_order = order@;
                let ghost old_placed = placed@;
                proof {
                    lemma_count_place(placed@, j as int);
                }
                placed.set(j, true);
                order.push(j);
                proof {
                    lemma_place(old_order, old_placed, j, n);
                    assert forall|i: int| 0 <= i < order@.len() implies placed_after_deps(pv, order@, i) by {
                        if i < old_order.len() {
                            assert(placed_after_deps(pv, old_order, i));
                            assert forall|d: int, m: int|
                                0 <= d < pv[order@[i] as int].dependencies.len() && 0 <= m < pv.len()
                                    && pv[m].name == pv[order@[i] as int].dependencies[d].name implies exists|i2: int|
                                    0 <= i2 < i && order@[i2] == m by {
                                let i2 = choose|i2: int| 0 <= i2 < i && old_order[i2] == m;
                                assert(order@[i2] == m);
                            }
                        } else {
                            assert forall|d: int, m: int|
                                0 <= d < pv[order@[i] as int].dependencies.len() && 0 <= m < pv.len()
                                    && pv[m].name == pv[order@[i] as int].dependencies[d].name implies exists|i2: int|
                                    0 <= i2 < i && order@[i2] == m by {
                                assert(old_placed[m]);
                                let i2 = choose|i2: int| 0 <= i2 < old_order.len() && old_order[i2] == m;
                                assert(order@[i2] == m);
                            }
                        }
                    }
                }
            }
            j = j + 1;
        }
        if order.len() == before {
            proof {
                k = before as int;
            }
            let ghost stuck = placed@;
            let mut j2: usize = 0;
            while j2 < n
                invariant
                    pv == views(planned@),
                    n == planned@.len(),
                    placed@.len() == n,
                    stuck.len() == n,
                    j2 <= n,
                    k == before,
                    forall|m: int| 0 <= m < n ==> (placed@[m] <==> exists|i: int| 0 <= i < order@.len() && order@[i] == m),
                    forall|m: int| 0 <= m < n ==> (stuck[m] <==> exists|i: int| 0 <= i < k && order@[i] == m),
                    forall|m: int| 0 <= m < n && m >= j2 ==> placed@[m] == stuck[m],
                    forall|m: int| 0 <= m < n ==> stuck[m] || pending(pv, stuck, m),
                    forall|i: int| 0 <= i < order@.len() ==> order@[i] < n,
                    forall|i: int, i2: int| 0 <= i < order@.len() && 0 <= i2 < order@.len() && i != i2 ==> order@[i] != order@[i2],
                    order@.len() + count_unplaced(placed@) == n,
                    before <= order@.len(),
                    forall|i: int| 0 <= i < k ==> placed_after_deps(pv, order@, i),
                    forall|i: int| k <= i < order@.len() ==> waits_after(pv, order@, i, k),
                    forall|m: int| 0 <= m < j2 ==> placed@[m],
                decreases n - j2,
            {
                if !placed[j2] {
                    let ghost old_order = order@;
                    let ghost old_placed = placed@;
                    proof {
                        lemma_count_place(placed@, j2 as int);
                    }
                    placed.set(j2, true);
                    order.push(j2);
                    proof {
                        lemma_place(old_order, old_placed, j2, n);
                        assert forall|m: int| 0 <= m < n implies (stuck[m] <==> exists|i: int| 0 <= i < k && order@[i] == m) by {
                            if exists|i: int| 0 <= i < k && old_order[i] == m {
                                let i = choose|i: int| 0 <= i < k && old_order[i] == m;
                                assert(order@[i] == m);
                            }
                            if exists|i: int| 0 <= i < k && order@[i] == m {
                                let i = choose|i: int| 0 <= i < k && order@[i] == m;
                                assert(old_order[i] == m);
                            }
                        }
                        assert forall|i: int| 0 <= i < k implies placed_after_deps(pv, order@, i) by {
                            assert(placed_after_deps(pv, old_order, i));
                            assert forall|d: int, m: int|
                                0 <= d < pv[order@[i] as int].dependencies.len() && 0 <= m < pv.len()
                                    && pv[m].name == pv[order@[i] as int].dependencies[d].name implies exists|i2: int|
                                    0 <= i2 < i && order@[i2] == m by {
                                let i2 = choose|i2: int| 0 <= i2 < i && old_order[i2] == m;
                                assert(order@[i2] == m);
                            }
                        }
                        assert forall|i: int| k <= i < order@.len() implies waits_after(pv, order@, i, k) by {
                            let oi = order@[i] as int;
                            if i < old_order.len() {
                                assert(waits_after(pv, old_order, i, k));
                                let (d, m) = choose|d: int, m: int|
                                    0 <= d < pv[old_order[i] as int].dependencies.len() && 0 <= m < pv.len()
                                        && pv[m].name == pv[old_order[i] as int].dependencies[d].name && !(exists|i2: int|
                                        0 <= i2 < k && old_order[i2] == m);
                                if exists|i2: int| 0 <= i2 < k && order@[i2] == m {
                                    let i2 = choose|i2: int| 0 <= i2 < k && order@[i2] == m;
                                    assert(old_order[i2] == m);
                                }
                            } else {
                                assert(oi == j2);
                                assert(!stuck[oi]);
                                assert(pending(pv, stuck, oi));
                                let (d, m) = choose|d: int, m: int|
                                    0 <= d < pv[oi].dependencies.len() && 0 <= m < pv.len() && !stuck[m]
                                        && pv[m].name == pv[oi].dependencies[d].name;
                                assert(!(exists|i2: int| 0 <= i2 < k && order@[i2] == m));
                            }
                        }
                    }
                }
                j2 = j2 + 1;
            }
            proof {
                lemma_count_full(placed@);
            }
            done = true;
        } else {
            proof {
                k = order@.len() as int;
            }
        }
    }
    proof {
        assert(count_unplaced(placed@) == 0);
        lemma_count_zero(placed@);
        assert forall|m: int| 0 <= m < n implies #[trigger] occurs(order@, m) by {
            assert(placed@[m]);
        }
    }
    (order, Ghost(k))
}


proof fn lemma_distinct_bound(s: Seq<int>, m: int)
    requires
        0 <= m,
        s.no_duplicates(),
        forall|i: int| 0 <= i < s.len() ==> 0 <= #[trigger] s[i] < m,
    ensures
        s.len() <= m,
{
    s.unique_seq_to_set();
    vstd::set_lib::lemma_int_range(0, m);
    assert(s.to_set().subset_of(vstd::set_lib::set_int_range(0, m)));
    vstd::set_lib::lemma_len_subset(s.to_set(), vstd::set_lib::set_int_range(0, m));
}

/// Whether `v` holds the string `s`.
pub fn contains_string(v: &Vec<String>, s: &String) -> (r: bool)
    ensures
        r == strings_view(v@).contains(s@),
{
    let mut i: usize = 0;
    while i < v.len()
        invariant
            i <= v@.len(),
            forall|j: int| 0 <= j < i ==> v@[j]@ != s@,
        decreases v@.len() - i,
    {
        if v[i] == *s {
            assert(strings_view(v@)[i as int] == s@);
            return true;
        }
        i = i + 1;
    }
    proof {
        if strings_view(v@).contains(s@) {
            let j = choose|j: int| 0 <= j < strings_view(v@).len() && strings_view(v@)[j] == s@;
            assert(v@[j]@ == s@);
        }
    }
    false
}

/// Position of the record called `name`, if any.
fn index_named(recs: &Vec<PackageInfo>, name: &String) -> (r: Option<usize>)
    ensures
        r matches Some(i) ==> i < recs@.len() && recs@[i as int].name@ == name@,
        r is None ==> !named_in(views(recs@), name@),
{
    let mut i: usize = 0;
    while i < recs.len()
        invariant
            i <= recs@.len(),
            forall|j: int| 0 <= j < i ==> recs@[j].name@ != name@,
        decreases recs@.len() - i,
    {
        if recs[i].name == *name {
            return Some(i);
        }
        i = i + 1;
    }
    proof {
        if named_in(views(recs@), name@) {
            let j = choose|j: int| 0 <= j < views(recs@).len() && views(recs@)[j].name == name@;
            assert(recs@[j].name@ == name@);
        }
    }
    None
}

/// Whether some record of `recs` provides `name`.
pub(crate) fn provides_any(recs: &Vec<PackageInfo>, name: &String) -> (r: bool)
    ensures
        r == provided_in(views(recs@), name@),
{
    let mut i: usize = 0;
    while i < recs.len()
        invariant
            i <= recs@.len(),
            forall|k: int, j: int|
                0 <= k < i && 0 <= j < recs@[k].provides@.len() ==> recs@[k].provides@[j]@ != name@,
        decreases recs@.len() - i,
    {
        if contains_string(&recs[i].provides, name) {
            proof {
                let j = choose|j: int| 0 <= j < strings_view(recs@[i as int].provides@).len() && strings_view(recs@[i as int].provides@)[j] == name@;
                assert(views(recs@)[i as int].provides[j] == name@);
            }
            return true;
        }
        proof {
            assert forall|j: int| 0 <= j < recs@[i as int].provides@.len() implies recs@[i as int].provides@[j]@ != name@ by {
                assert(strings_view(recs@[i as int].provides@)[j] == recs@[i as int].provides@[j]@);
            }
        }
        i = i + 1;
    }
    proof {
        if provided_in(views(recs@), name@) {
            let (k, j) = choose|k: int, j: int| 0 <= k < views(recs@).len() && 0 <= j < views(recs@)[k].provides.len() && views(recs@)[k].provides[j] == name@;
            assert(recs@[k].provides@[j]@ == name@);
        }
    }
    false
}

/// Whether `a` and `b` declare a conflict with each other.
fn records_conflict(a: &PackageInfo, b: &PackageInfo) -> (r: bool)
    ensures
        r == conflicting(a@, b@),
{
    contains_string(&a.conflicts, &b.name) || contains_string(&b.conflicts, &a.name)
}

/// Finds a conflicting pair: a planned record and a planned (`false`) or
/// installed (`true`) one.
fn find_conflict(out: &Vec<PackageInfo>, inst: &Vec<PackageInfo>) -> (r: Option<(usize, bool, usize)>)
    ensures
        r is None ==> conflict_free(views(out@), views(inst@)),
        r matches Some((i, in_inst, j)) ==> i < out@.len() && if in_inst {
            j < inst@.len() && conflicting(out@[i as int]@, inst@[j as int]@)
        } else {
            j < out@.len() && i != j && conflicting(out@[i as int]@, out@[j as int]@)
        },
{
    let ghost ov = views(out@);
    let ghost iv = views(inst@);
    let mut i: usize = 0;
    while i < out.len()
        invariant
            ov == views(out@),
            iv == views(inst@),
            i <= out@.len(),
            forall|a: int, b: int| 0 <= a < i && 0 <= b < out@.len() && a != b ==> !conflicting(ov[a], ov[b]),
            forall|a: int, m: int| 0 <= a < i && 0 <= m < inst@.len() ==> !conflicting(ov[a], iv[m]),
        decreases out@.len() - i,
    {
        let mut j: usize = 0;
        while j < out.len()
            invariant
                ov == views(out@),
                i < out@.len(),
                j <= out@.len(),
                forall|b: int| 0 <= b < j && i != b ==> !conflicting(ov[i as int], ov[b]),
            decreases out@.len() - j,
        {
            if i != j && records_conflict(&out[i], &out[j]) {
                return Some((i, false, j));
            }
            j = j + 1;
        }
        let mut m: usize = 0;
        while m < inst.len()
            invariant
                ov == views(out@),
                iv == views(inst@),
                i < out@.len(),
                m <= inst@.len(),
                forall|b: int| 0 <= b < m ==> !conflicting(ov[i as int], iv[b]),
            decreases inst@.len() - m,
        {
            if records_conflict(&out[i], &inst[m]) {
                return Some((i, true, m));
            }
            m = m + 1;
        }
        proof {
            assert forall|a: int, b: int| 0 <= a < i + 1 && 0 <= b < out@.len() && a != b implies !conflicting(ov[a], ov[b]) by {
                if a == i {
                } else {
                }
            }
        }
        i = i + 1;
    }
    None
}

/// `n` is requested, or named by a dependency of a record of `p`.
pub open spec fn demanded(reqs: Seq<Seq<char>>, p: Seq<PackageView>, n: Seq<char>) -> bool {
    reqs.contains(n) || exists|i: int, d: int|
        0 <= i < p.len() && 0 <= d < p[i].dependencies.len() && #[trigger] p[i].dependencies[d].name == n
}

/// `n` is demanded with constraint `c`: requested (no constraint), or a
/// dependency of a record of `p` with that constraint.
pub open spec fn demand_of(
    reqs: Seq<Seq<char>>,
    p: Seq<PackageView>,
    n: Seq<char>,
    c: Option<(ConstraintOp, Seq<char>)>,
) -> bool {
    (reqs.contains(n) && c is None) || exists|i: int, d: int|
        0 <= i < p.len() && 0 <= d < p[i].dependencies.len() && #[trigger] p[i].dependencies[d].name == n
            && p[i].dependencies[d].constraint == c
}

/// A plan the resolver may have chosen: distinct catalog records, none
/// installed, each the best candidate for some demand on its name.
pub open spec fn chosen_plan(
    cat: Seq<PackageView>,
    prios: Seq<i32>,
    inst: Seq<PackageView>,
    reqs: Seq<Seq<char>>,
    p: Seq<PackageView>,
) -> bool {
    &&& names_distinct(p)
    &&& forall|k: int| 0 <= k < p.len() ==> !named_in(inst, #[trigger] p[k].name)
    &&& forall|k: int| 0 <= k < p.len() ==> #[trigger] chosen_at(cat, prios, reqs, p, k)
}

/// `p[k]` is the best candidate for some demand on its name.
pub open spec fn chosen_at(cat: Seq<PackageView>, prios: Seq<i32>, reqs: Seq<Seq<char>>, p: Seq<PackageView>, k: int) -> bool {
    exists|c: Option<(ConstraintOp, Seq<char>)>, i: int|
        #![trigger is_choice(cat, prios, p[k].name, c, i)]
        demand_of(reqs, p, p[k].name, c) && is_choice(cat, prios, p[k].name, c, i) && cat[i] == p[k]
}

/// Every pending worklist entry is a demand of the requests or the plan.
pub open spec fn stack_demands(reqs: Seq<Seq<char>>, p: Seq<PackageView>, st: Seq<(String, Option<VersionConstraint>)>) -> bool {
    forall|t: int| 0 <= t < st.len() ==> #[trigger] demand_of(reqs, p, st[t].0@, constraint_view(st[t].1))
}

/// Every demanded name is installed, planned, or has no catalog record.
pub open spec fn closed_plan(
    cat: Seq<PackageView>,
    inst: Seq<PackageView>,
    reqs: Seq<Seq<char>>,
    p: Seq<PackageView>,
) -> bool {
    forall|n: Seq<char>| #[trigger] demanded(reqs, p, n) ==> named_in(inst, n) || named_in(p, n) || !has_name(cat, n)
}

/// Every constrained dependency that names a record of `out` is met by
/// that record's version.
pub open spec fn constraints_met(out: Seq<PackageView>) -> bool {
    forall|i: int, d: int, j: int|
        0 <= i < out.len() && 0 <= d < out[i].dependencies.len() && 0 <= j < out.len()
            && #[trigger] out[j].name == #[trigger] out[i].dependencies[d].name
            && out[i].dependencies[d].constraint is Some ==> satisfies(
            out[j].version,
            (out[i].dependencies[d].constraint->0).0,
            (out[i].dependencies[d].constraint->0).1,
        )
}

/// Every record of `out` is a record of the catalog.
pub open spec fn from_catalog(out: Seq<PackageView>, catalog: Seq<PackageView>) -> bool {
    forall|i: int| 0 <= i < out.len() ==> #[trigger] catalog.contains(out[i])
}

pub open spec fn request_views(requests: Seq<&str>) -> Seq<Seq<char>> {
    requests.map_values(|r: &str| r@)
}

/// What a successful resolution guarantees: records drawn from the
/// catalog, one per name, none already installed, every requested name and
/// every dependency met, no conflicts, and the order of the ordering pass.
pub open spec fn resolution_valid(
    out: Seq<PackageView>,
    catalog: Seq<PackageView>,
    prios: Seq<i32>,
    inst: Seq<PackageView>,
    requests: Seq<Seq<char>>,
) -> bool {
    &&& from_catalog(out, catalog)
    &&& names_distinct(out)
    &&& forall|i: int| 0 <= i < out.len() ==> !named_in(inst, out[i].name)
    &&& forall|r: int| 0 <= r < requests.len() ==> is_met(requests[r], inst, out)
    &&& forall|i: int, d: int|
        0 <= i < out.len() && 0 <= d < out[i].dependencies.len() ==> is_met(
            out[i].dependencies[d].name,
            inst,
            out,
        )
    &&& conflict_free(out, inst)
    &&& ordered_output(out)
    &&& constraints_met(out)
    &&& chosen_plan(catalog, prios, inst, requests, out)
    &&& closed_plan(catalog, inst, requests, out)
}

pub open spec fn conflict_message(a: PackageView, b: PackageView) -> Seq<char> {
    a.name + " conflicts with "@ + b.name
}

/// Planned record `a` conflicts with planned record `b` (`b >= 0`) or with
/// installed record `-b - 1` (`b < 0`), and `m` names both.
pub open spec fn conflict_at(p: Seq<PackageView>, inst: Seq<PackageView>, a: int, b: int, m: Seq<char>) -> bool {
    0 <= a < p.len() && if b >= 0 {
        b < p.len() && a != b && conflicting(p[a], p[b]) && m == conflict_message(p[a], p[b])
    } else {
        -b - 1 < inst.len() && conflicting(p[a], inst[-b - 1]) && m == conflict_message(p[a], inst[-b - 1])
    }
}

/// What a failed resolution reports, each error justified by a plan the
/// resolver may have chosen for these requests:
/// `PackageNotFound(n)`: in a closed plan, `n` is demanded but neither
/// installed, planned, in the catalog nor provided by anything;
/// `DependencyError(n)`: a demand on `n` with a constraint that no catalog
/// record of `n` meets, or that the planned record of `n` breaks;
/// `ConflictError(m)`: in a closed plan, two planned records, or a planned
/// and an installed one, conflict, and `m` names both.
pub open spec fn resolution_error(
    e: PkgError,
    catalog: Seq<PackageView>,
    prios: Seq<i32>,
    inst: Seq<PackageView>,
    reqs: Seq<Seq<char>>,
) -> bool {
    match e {
        PkgError::PackageNotFound(n) => not_found_justified(catalog, prios, inst, reqs, n@),
        PkgError::DependencyError(n) => dependency_justified(catalog, prios, inst, reqs, n@),
        PkgError::ConflictError(m) => conflict_justified(catalog, prios, inst, reqs, m@),
        _ => false,
    }
}

pub open spec fn not_found_justified(
    catalog: Seq<PackageView>,
    prios: Seq<i32>,
    inst: Seq<PackageView>,
    reqs: Seq<Seq<char>>,
    n: Seq<char>,
) -> bool {
    exists|p: Seq<PackageView>| #[trigger] unmet_in(catalog, prios, inst, reqs, p, n)
}

pub open spec fn dependency_justified(
    catalog: Seq<PackageView>,
    prios: Seq<i32>,
    inst: Seq<PackageView>,
    reqs: Seq<Seq<char>>,
    n: Seq<char>,
) -> bool {
    exists|p: Seq<PackageView>, c: Option<(ConstraintOp, Seq<char>)>| #[trigger] unsatisfiable_in(catalog, prios, inst, reqs, p, n, c)
}

pub open spec fn conflict_justified(
    catalog: Seq<PackageView>,
    prios: Seq<i32>,
    inst: Seq<PackageView>,
    reqs: Seq<Seq<char>>,
    m: Seq<char>,
) -> bool {
    exists|p: Seq<PackageView>, a: int, b: int|
        chosen_plan(catalog, prios, inst, reqs, p) && closed_plan(catalog, inst, reqs, p) && #[trigger] conflict_at(p, inst, a, b, m)
}

/// In the closed plan `p`, `n` is demanded but neither installed, planned,
/// in the catalog nor provided by anything.
pub open spec fn unmet_in(
    catalog: Seq<PackageView>,
    prios: Seq<i32>,
    inst: Seq<PackageView>,
    reqs: Seq<Seq<char>>,
    p: Seq<PackageView>,
    n: Seq<char>,
) -> bool {
    chosen_plan(catalog, prios, inst, reqs, p) && closed_plan(catalog, inst, reqs, p) && demanded(reqs, p, n)
        && !named_in(inst, n) && !has_name(catalog, n) && !provided_in(inst, n) && !provided_in(p, n)
}

/// In the plan `p`, `n` is demanded with constraint `c`, and either no
/// catalog record of `n` meets `c` or the planned record of `n` breaks it.
pub open spec fn unsatisfiable_in(
    catalog: Seq<PackageView>,
    prios: Seq<i32>,
    inst: Seq<PackageView>,
    reqs: Seq<Seq<char>>,
    p: Seq<PackageView>,
    n: Seq<char>,
    c: Option<(ConstraintOp, Seq<char>)>,
) -> bool {
    chosen_plan(catalog, prios, inst, reqs, p) && demand_of(reqs, p, n, c) && !named_in(inst, n) && (
    (!named_in(p, n) && has_name(catalog, n) && !has_admissible(catalog, n, c)) || (c is Some && exists|j: int|
        0 <= j < p.len() && p[j].name == n && !satisfies(p[j].version, (c->0).0, (c->0).1)))
}

/// Copies a list of records.
pub fn copy_records(v: &Vec<PackageInfo>) -> (r: Vec<PackageInfo>)
    ensures
        views(r@) == views(v@),
{
    let mut out: Vec<PackageInfo> = Vec::new();
    let mut i: usize = 0;
    while i < v.len()
        invariant
            i <= v@.len(),
            views(out@) == views(v@.subrange(0, i as int)),
        decreases v@.len() - i,
    {
        out.push(v[i].duplicate());
        proof {
            assert(views(v@.subrange(0, i + 1)) =~= views(v@.subrange(0, i as int)).push(v@[i as int]@));
        }
        i = i + 1;
    }
    proof {
        assert(v@.subrange(0, v@.len() as int) =~= v@);
    }
    out
}


pub open spec fn stack_has(st: Seq<(String, Option<VersionConstraint>)>, n: Seq<char>) -> bool {
    exists|t: int| 0 <= t < st.len() && st[t].0@ == n
}

/// Reordering the planned records by a permutation keeps what resolution
/// guarantees of them, and yields the order of the ordering pass.
proof fn lemma_reorder(
    pv: Seq<PackageView>,
    order: Seq<usize>,
    k: int,
    ov: Seq<PackageView>,
    inst: Seq<PackageView>,
)
    requires
        order.len() == pv.len(),
        ov.len() == pv.len(),
        forall|i: int| 0 <= i < order.len() ==> order[i] < pv.len(),
        forall|i: int, i2: int| 0 <= i < order.len() && 0 <= i2 < order.len() && i != i2 ==> order[i] != order[i2],
        forall|m: int| 0 <= m < pv.len() ==> #[trigger] occurs(order, m),
        0 <= k <= pv.len(),
        forall|i: int| 0 <= i < k ==> placed_after_deps(pv, order, i),
        forall|i: int| k <= i < pv.len() ==> waits_after(pv, order, i, k),
        forall|t: int| 0 <= t < ov.len() ==> ov[t] == pv[order[t] as int],
    ensures
        names_distinct(pv) ==> names_distinct(ov),
        forall|n: Seq<char>| named_in(pv, n) ==> named_in(ov, n),
        forall|n: Seq<char>| provided_in(pv, n) ==> provided_in(ov, n),
        conflict_free(pv, inst) ==> conflict_free(ov, inst),
        ordered_output(ov),
{
    if names_distinct(pv) {
        assert forall|i: int, j: int| 0 <= i < ov.len() && 0 <= j < ov.len() && i != j implies ov[i].name != ov[j].name by {
            assert(order[i] != order[j]);
        }
    }
    assert forall|n: Seq<char>| named_in(pv, n) implies named_in(ov, n) by {
        let m = choose|m: int| 0 <= m < pv.len() && pv[m].name == n;
        assert(occurs(order, m));
        let t = choose|t: int| 0 <= t < order.len() && order[t] == m;
        assert(ov[t].name == n);
    }
    assert forall|n: Seq<char>| provided_in(pv, n) implies provided_in(ov, n) by {
        let (m, j) = choose|m: int, j: int| 0 <= m < pv.len() && 0 <= j < pv[m].provides.len() && pv[m].provides[j] == n;
        assert(occurs(order, m));
        let t = choose|t: int| 0 <= t < order.len() && order[t] == m;
        assert(ov[t].provides[j] == n);
    }
    if conflict_free(pv, inst) {
        assert forall|i: int, j: int| 0 <= i < ov.len() && 0 <= j < ov.len() && i != j implies !conflicting(ov[i], ov[j]) by {
            assert(order[i] != order[j]);
        }
        assert forall|i: int, m: int| 0 <= i < ov.len() && 0 <= m < inst.len() implies !conflicting(ov[i], inst[m]) by {
            assert(ov[i] == pv[order[i] as int]);
        }
    }
    assert forall|i: int| 0 <= i < k implies #[trigger] deps_before(ov, i) by {
        assert(placed_after_deps(pv, order, i));
        assert forall|d: int, j: int|
            0 <= d < ov[i].dependencies.len() && 0 <= j < ov.len() && ov[j].name
                == ov[i].dependencies[d].name implies j < i by {
            let m = order[j] as int;
            assert(pv[m].name == pv[order[i] as int].dependencies[d].name);
            let i2 = choose|i2: int| 0 <= i2 < i && order[i2] == m;
            if i2 != j {
                assert(order[i2] != order[j]);
            }
        }
    }
    assert forall|i: int| k <= i < ov.len() implies #[trigger] waits_from(ov, i, k) by {
        assert(waits_after(pv, order, i, k));
        let (d, m) = choose|d: int, m: int|
            0 <= d < pv[order[i] as int].dependencies.len() && 0 <= m < pv.len()
                && pv[m].name == pv[order[i] as int].dependencies[d].name && !(exists|i2: int|
                0 <= i2 < k && order[i2] == m);
        assert(occurs(order, m));
        let j = choose|j: int| 0 <= j < order.len() && order[j] == m;
        assert(k <= j);
        assert(ov[j].name == ov[i].dependencies[d].name);
    }
    assert(ordered_at(ov, k));
}


proof fn lemma_demand_grows(reqs: Seq<Seq<char>>, p: Seq<PackageView>, x: PackageView)
    ensures
        forall|n: Seq<char>, c: Option<(ConstraintOp, Seq<char>)>| #[trigger] demand_of(reqs, p, n, c) ==> demand_of(reqs, p.push(x), n, c),
        forall|n: Seq<char>| #[trigger] demanded(reqs, p, n) ==> demanded(reqs, p.push(x), n),
{
    assert forall|n: Seq<char>, c: Option<(ConstraintOp, Seq<char>)>| #[trigger] demand_of(reqs, p, n, c) implies demand_of(reqs, p.push(x), n, c) by {
        if !(reqs.contains(n) && c is None) {
            let (i, d) = choose|i: int, d: int| 0 <= i < p.len() && 0 <= d < p[i].dependencies.len() && #[trigger] p[i].dependencies[d].name == n
                && p[i].dependencies[d].constraint == c;
            assert(p.push(x)[i] == p[i]);
        }
    }
    assert forall|n: Seq<char>| #[trigger] demanded(reqs, p, n) implies demanded(reqs, p.push(x), n) by {
        if !reqs.contains(n) {
            let (i, d) = choose|i: int, d: int| 0 <= i < p.len() && 0 <= d < p[i].dependencies.len() && #[trigger] p[i].dependencies[d].name == n;
            assert(p.push(x)[i] == p[i]);
        }
    }
}

proof fn lemma_stack_pop(reqs: Seq<Seq<char>>, p: Seq<PackageView>, st: Seq<(String, Option<VersionConstraint>)>)
    requires
        stack_demands(reqs, p, st),
        st.len() > 0,
    ensures
        stack_demands(reqs, p, st.drop_last()),
        demand_of(reqs, p, st.last().0@, constraint_view(st.last().1)),
{
    assert forall|t: int| 0 <= t < st.drop_last().len() implies #[trigger] demand_of(reqs, p, st.drop_last()[t].0@, constraint_view(st.drop_last()[t].1)) by {
        assert(st.drop_last()[t] == st[t]);
        assert(demand_of(reqs, p, st[t].0@, constraint_view(st[t].1)));
    }
    assert(demand_of(reqs, p, st[st.len() - 1].0@, constraint_view(st[st.len() - 1].1)));
}

proof fn lemma_stack_push(reqs: Seq<Seq<char>>, p: Seq<PackageView>, st: Seq<(String, Option<VersionConstraint>)>, e: (String, Option<VersionConstraint>))
    requires
        stack_demands(reqs, p, st),
        demand_of(reqs, p, e.0@, constraint_view(e.1)),
    ensures
        stack_demands(reqs, p, st.push(e)),
{
    assert forall|t: int| 0 <= t < st.push(e).len() implies #[trigger] demand_of(reqs, p, st.push(e)[t].0@, constraint_view(st.push(e)[t].1)) by {
        if t < st.len() {
            assert(st.push(e)[t] == st[t]);
            assert(demand_of(reqs, p, st[t].0@, constraint_view(st[t].1)));
        }
    }
}

proof fn lemma_stack_grow(reqs: Seq<Seq<char>>, p: Seq<PackageView>, x: PackageView, st: Seq<(String, Option<VersionConstraint>)>)
    requires
        stack_demands(reqs, p, st),
    ensures
        stack_demands(reqs, p.push(x), st),
{
    lemma_demand_grows(reqs, p, x);
    assert forall|t: int| 0 <= t < st.len() implies #[trigger] demand_of(reqs, p.push(x), st[t].0@, constraint_view(st[t].1)) by {
        assert(demand_of(reqs, p, st[t].0@, constraint_view(st[t].1)));
    }
}

proof fn lemma_demand_of_demanded(reqs: Seq<Seq<char>>, p: Seq<PackageView>, n: Seq<char>, c: Option<(ConstraintOp, Seq<char>)>)
    requires
        demand_of(reqs, p, n, c),
    ensures
        demanded(reqs, p, n),
{
    if !(reqs.contains(n) && c is None) {
        let (i, d) = choose|i: int, d: int| 0 <= i < p.len() && 0 <= d < p[i].dependencies.len() && #[trigger] p[i].dependencies[d].name == n
            && p[i].dependencies[d].constraint == c;
        assert(p[i].dependencies[d].name == n);
    }
}

proof fn lemma_chosen(
    cat: Seq<PackageView>,
    prios: Seq<i32>,
    inst: Seq<PackageView>,
    reqs: Seq<Seq<char>>,
    pv: Seq<PackageView>,
    dem: Seq<Option<(ConstraintOp, Seq<char>)>>,
    idx: Seq<int>,
)
    requires
        names_distinct(pv),
        forall|k: int| 0 <= k < pv.len() ==> !named_in(inst, #[trigger] pv[k].name),
        dem.len() == pv.len(),
        idx.len() == pv.len(),
        forall|k: int| #![trigger dem[k]] 0 <= k < pv.len() ==> demand_of(reqs, pv, pv[k].name, dem[k]) && is_choice(cat, prios, pv[k].name, dem[k], idx[k])
            && cat[idx[k]] == pv[k],
    ensures
        chosen_plan(cat, prios, inst, reqs, pv),
{
    assert forall|k: int| 0 <= k < pv.len() implies #[trigger] chosen_at(cat, prios, reqs, pv, k) by {
        let c = dem[k];
        let i = idx[k];
        assert(demand_of(reqs, pv, pv[k].name, c) && is_choice(cat, prios, pv[k].name, c, i) && cat[i] == pv[k]);
    }
}

/// A permutation keeps the demands, the plan's choices, its closure and its
/// constraints.
proof fn lemma_reorder_plan(
    cat: Seq<PackageView>,
    prios: Seq<i32>,
    inst: Seq<PackageView>,
    reqs: Seq<Seq<char>>,
    pv: Seq<PackageView>,
    order: Seq<usize>,
    ov: Seq<PackageView>,
)
    requires
        order.len() == pv.len(),
        ov.len() == pv.len(),
        forall|i: int| 0 <= i < order.len() ==> order[i] < pv.len(),
        forall|i: int, i2: int| 0 <= i < order.len() && 0 <= i2 < order.len() && i != i2 ==> order[i] != order[i2],
        forall|m: int| 0 <= m < pv.len() ==> #[trigger] occurs(order, m),
        forall|t: int| 0 <= t < ov.len() ==> ov[t] == pv[order[t] as int],
        chosen_plan(cat, prios, inst, reqs, pv),
        closed_plan(cat, inst, reqs, pv),
        constraints_met(pv),
        names_distinct(ov),
    ensures
        chosen_plan(cat, prios, inst, reqs, ov),
        closed_plan(cat, inst, reqs, ov),
        constraints_met(ov),
{
    assert forall|n: Seq<char>, c: Option<(ConstraintOp, Seq<char>)>| #[trigger] demand_of(reqs, pv, n, c) implies demand_of(reqs, ov, n, c) by {
        if !(reqs.contains(n) && c is None) {
            let (i, d) = choose|i: int, d: int| 0 <= i < pv.len() && 0 <= d < pv[i].dependencies.len() && #[trigger] pv[i].dependencies[d].name == n
                && pv[i].dependencies[d].constraint == c;
            assert(occurs(order, i));
            let t = choose|t: int| 0 <= t < order.len() && order[t] == i;
            assert(ov[t].dependencies[d].name == n);
        }
    }
    assert forall|n: Seq<char>| #[trigger] demanded(reqs, ov, n) implies demanded(reqs, pv, n) by {
        if !reqs.contains(n) {
            let (t, d) = choose|t: int, d: int| 0 <= t < ov.len() && 0 <= d < ov[t].dependencies.len() && #[trigger] ov[t].dependencies[d].name == n;
            assert(pv[order[t] as int].dependencies[d].name == n);
        }
    }
    assert forall|k: int| 0 <= k < ov.len() implies !named_in(inst, #[trigger] ov[k].name) by {
        assert(ov[k] == pv[order[k] as int]);
    }
    assert forall|k: int| 0 <= k < ov.len() implies #[trigger] chosen_at(cat, prios, reqs, ov, k) by {
        let m = order[k] as int;
        assert(ov[k] == pv[m]);
        assert(chosen_at(cat, prios, reqs, pv, m));
        let (c, i) = choose|c: Option<(ConstraintOp, Seq<char>)>, i: int|
            #![trigger is_choice(cat, prios, pv[m].name, c, i)]
            demand_of(reqs, pv, pv[m].name, c) && is_choice(cat, prios, pv[m].name, c, i) && cat[i] == pv[m];
        assert(demand_of(reqs, ov, ov[k].name, c));
        assert(is_choice(cat, prios, ov[k].name, c, i));
    }
    assert forall|n: Seq<char>| #[trigger] demanded(reqs, ov, n) implies named_in(inst, n) || named_in(ov, n) || !has_name(cat, n) by {
        assert(demanded(reqs, pv, n));
        if named_in(pv, n) {
            let m = choose|m: int| 0 <= m < pv.len() && pv[m].name == n;
            assert(occurs(order, m));
            let t = choose|t: int| 0 <= t < order.len() && order[t] == m;
            assert(ov[t].name == n);
        }
    }
    assert forall|i: int, d: int, j: int|
        0 <= i < ov.len() && 0 <= d < ov[i].dependencies.len() && 0 <= j < ov.len()
            && #[trigger] ov[j].name == #[trigger] ov[i].dependencies[d].name
            && ov[i].dependencies[d].constraint is Some implies satisfies(
            ov[j].version,
            (ov[i].dependencies[d].constraint->0).0,
            (ov[i].dependencies[d].constraint->0).1,
        ) by {
        assert(ov[i] == pv[order[i] as int]);
        assert(ov[j] == pv[order[j] as int]);
        assert(pv[order[j] as int].name == pv[order[i] as int].dependencies[d].name);
    }
}

impl Resolver {
    /// Resolves the requested names against the catalog and the installed
    /// set into the records to install, dependencies first.
    ///
    /// Each name is expanded at most once. An installed name is already
    /// satisfied. A name with catalog records takes the best record that
    /// meets the constraint of the dependency that asked for it (any
    /// record when none was given); a name with no catalog record must be
    /// provided by an installed or planned record. Planned records may not
    /// conflict with each other or with installed ones. The result is then
    /// ordered so that dependencies come first; records caught in a cycle
    /// are appended in planning order.
    pub fn resolve(&mut self, requests: &[&str]) -> (r: Result<Vec<PackageInfo>, PkgError>)
        requires
            old(self).wf(),
        ensures
            final(self).wf(),
            final(self).catalog() == old(self).catalog(),
            final(self).priorities() == old(self).priorities(),
            final(self).installed_set() == old(self).installed_set(),
            r matches Ok(out) ==> resolution_valid(
                views(out@),
                old(self).catalog(),
                old(self).priorities(),
                old(self).installed_set(),
                request_views(requests@),
            ),
            r matches Err(e) ==> resolution_error(
                e,
                old(self).catalog(),
                old(self).priorities(),
                old(self).installed_set(),
                request_views(requests@),
            ),
    {
        self.solution = Vec::new();
        let ghost cat = self.catalog();
        let ghost prios = self.priorities();
        let ghost inst = self.installed_set();
        let ghost reqs = request_views(requests@);
        assert(cat == old(self).catalog() && prios == old(self).priorities() && inst == old(self).installed_set());
        let mut stack: Vec<(String, Option<VersionConstraint>)> = Vec::new();
        let mut q: usize = 0;
        while q < requests.len()
            invariant
                q <= requests@.len(),
                reqs == request_views(requests@),
                stack@.len() == q,
                forall|t: int| 0 <= t < q ==> stack@[t].0@ == reqs[t] && stack@[t].1 is None,
            decreases requests@.len() - q,
        {
            stack.push((String::from_str(requests[q]), None));
            q = q + 1;
        }
        let mut seen: Vec<String> = Vec::new();
        let mut virtuals: Vec<String> = Vec::new();
        let mut planned: Vec<PackageInfo> = Vec::new();
        let ghost mut idx: Seq<int> = Seq::empty();
        let ghost mut dem: Seq<Option<(ConstraintOp, Seq<char>)>> = Seq::empty();
        proof {
            assert forall|r: int| 0 <= r < reqs.len() implies strings_view(seen@).contains(reqs[r]) || stack_has(stack@, reqs[r]) by {
                assert(stack@[r].0@ == reqs[r]);
            }
            assert forall|t: int| 0 <= t < stack@.len() implies #[trigger] demand_of(reqs, views(planned@), stack@[t].0@, constraint_view(stack@[t].1)) by {
                assert(reqs[t] == stack@[t].0@);
                assert(reqs.contains(stack@[t].0@));
            }
            assert(stack_demands(reqs, views(planned@), stack@));
        }
        while stack.len() > 0
            invariant
                self.wf(),
                self.catalog() == cat,
                self.priorities() == prios,
                self.installed_set() == inst,
                cat == old(self).catalog(),
                prios == old(self).priorities(),
                inst == old(self).installed_set(),
                reqs == request_views(requests@),
                idx.len() == planned@.len(),
                dem.len() == planned@.len(),
                forall|k: int| 0 <= k < idx.len() ==> 0 <= #[trigger] idx[k] < cat.len() && views(planned@)[k] == cat[idx[k]],
                forall|k: int| #![trigger dem[k]] 0 <= k < planned@.len() ==> demand_of(reqs, views(planned@), views(planned@)[k].name, dem[k])
                    && is_choice(cat, prios, views(planned@)[k].name, dem[k], idx[k]),
                stack_demands(reqs, views(planned@), stack@),
                forall|t: int| 0 <= t < seen@.len() ==> #[trigger] demanded(reqs, views(planned@), seen@[t]@),
                forall|t: int| 0 <= t < virtuals@.len() ==> #[trigger] demanded(reqs, views(planned@), virtuals@[t]@),
                idx.no_duplicates(),
                names_distinct(views(planned@)),
                forall|k: int| 0 <= k < planned@.len() ==> !named_in(inst, #[trigger] views(planned@)[k].name),
                forall|k: int| 0 <= k < planned@.len() ==> strings_view(seen@).contains(#[trigger] views(planned@)[k].name),
                forall|t: int| 0 <= t < seen@.len() ==> named_in(inst, #[trigger] seen@[t]@) || named_in(views(planned@), seen@[t]@)
                    || strings_view(virtuals@).contains(seen@[t]@),
                forall|t: int| 0 <= t < virtuals@.len() ==> !has_name(cat, #[trigger] virtuals@[t]@) && !named_in(inst, virtuals@[t]@),
                forall|k: int, d: int| 0 <= k < planned@.len() && 0 <= d < views(planned@)[k].dependencies.len() ==> {
                    let n = #[trigger] views(planned@)[k].dependencies[d].name;
                    strings_view(seen@).contains(n) || stack_has(stack@, n) || named_in(inst, n)
                },
                forall|r: int| 0 <= r < reqs.len() ==> strings_view(seen@).contains(#[trigger] reqs[r]) || stack_has(stack@, reqs[r]),
                planned@.len() <= cat.len(),
            decreases cat.len() - planned@.len(), stack@.len(),
        {
            let ghost old_stack = stack@;
            let ghost old_seen = seen@;
            let ghost old_planned = views(planned@);
            let (name, c) = stack.pop().unwrap();
            let ghost cv = constraint_view(c);
            proof {
                assert(stack@ == old_stack.drop_last());
                assert(old_stack[old_stack.len() - 1].0@ == name@);
                lemma_stack_pop(reqs, old_planned, old_stack);
                assert(demand_of(reqs, old_planned, name@, cv));
                assert forall|x: Seq<char>| stack_has(old_stack, x) implies x == name@ || stack_has(stack@, x) by {
                    let t = choose|t: int| 0 <= t < old_stack.len() && old_stack[t].0@ == x;
                    if t < old_stack.len() - 1 {
                        assert(stack@[t] == old_stack[t]);
                    }
                }
            }
            if contains_string(&seen, &name) {
                continue;
            }
            seen.push(name.clone());
            proof {
                assert(strings_view(seen@) =~= strings_view(old_seen).push(name@));
                assert forall|x: Seq<char>| strings_view(old_seen).contains(x) implies strings_view(seen@).contains(x) by {
                    let t = choose|t: int| 0 <= t < strings_view(old_seen).len() && strings_view(old_seen)[t] == x;
                    assert(strings_view(seen@)[t] == x);
                }
                assert(strings_view(seen@)[old_seen.len() as int] == name@);
                lemma_demand_of_demanded(reqs, old_planned, name@, cv);
                assert forall|t: int| 0 <= t < seen@.len() implies #[trigger] demanded(reqs, views(planned@), seen@[t]@) by {
                    if t < old_seen.len() {
                        assert(seen@[t] == old_seen[t]);
                    }
                }
            }
            match index_named(&self.installed, &name) {
                Some(w) => {
                    proof {
                        assert(inst[w as int].name == name@);
                    }
                    continue;
                },
                None => {},
            }
            if self.choose_index(&name, &None).is_none() {
                let ghost old_virtuals = virtuals@;
                virtuals.push(name);
                proof {
                    assert(strings_view(virtuals@) =~= strings_view(old_virtuals).push(name@));
                    assert forall|x: Seq<char>| strings_view(old_virtuals).contains(x) implies strings_view(virtuals@).contains(x) by {
                        let t = choose|t: int| 0 <= t < strings_view(old_virtuals).len() && strings_view(old_virtuals)[t] == x;
                        assert(strings_view(virtuals@)[t] == x);
                    }
                    assert(strings_view(virtuals@)[old_virtuals.len() as int] == name@);
                    assert forall|t: int| 0 <= t < virtuals@.len() implies #[trigger] demanded(reqs, views(planned@), virtuals@[t]@) by {
                        if t < old_virtuals.len() {
                            assert(virtuals@[t] == old_virtuals[t]);
                        }
                    }
                    assert(!has_name(cat, name@)) by {
                        if has_name(cat, name@) {
                            let j = choose|j: int| 0 <= j < cat.len() && cat[j].name == name@;
                            assert(admissible(cat[j], name@, None));
                        }
                    }
                }
                continue;
            }
            let found = match c {
                Some(con) => self.find_version_satisfying(name.as_str(), &con),
                None => self.find_best_version(name.as_str()),
            };
            let pkg = match found {
                Ok(p) => p,
                Err(e) => {
                    proof {
                        lemma_chosen(cat, prios, inst, reqs, old_planned, dem, idx);
                        assert forall|k: int| 0 <= k < old_planned.len() implies old_planned[k].name != name@ by {
                            assert(strings_view(old_seen).contains(old_planned[k].name));
                        }
                        assert(!named_in(old_planned, name@));
                        assert(has_name(cat, name@)) by {
                            let j = choose|j: int| 0 <= j < cat.len() && admissible(cat[j], name@, None);
                        }
                        assert(!has_admissible(cat, name@, cv));
                        assert(unsatisfiable_in(cat, prios, inst, reqs, old_planned, name@, cv));
                    }
                    return Err(e);
                },
            };
            let ghost ci = choose|i: int| is_choice(cat, prios, name@, cv, i) && pkg@ == cat[i];
            proof {
                assert(exists|i: int| is_choice(cat, prios, name@, cv, i) && pkg@ == cat[i]);
                lemma_demand_grows(reqs, old_planned, pkg@);
                lemma_stack_grow(reqs, old_planned, pkg@, stack@);
            }
            let ghost base = stack@;
            let mut d: usize = 0;
            while d < pkg.dependencies.len()
                invariant
                    self.wf(),
                    self.catalog() == cat,
                    self.installed_set() == inst,
                    d <= pkg.dependencies@.len(),
                    stack@.len() >= base.len(),
                    stack@.subrange(0, base.len() as int) == base,
                    old_planned == views(planned@),
                    stack_demands(reqs, old_planned.push(pkg@), stack@),
                    forall|d2: int| 0 <= d2 < d ==> {
                        let n = #[trigger] pkg.dependencies@[d2].name@;
                        strings_view(seen@).contains(n) || stack_has(stack@, n) || named_in(inst, n)
                    },
                decreases pkg.dependencies@.len() - d,
            {
                let dep = &pkg.dependencies[d];
                let ghost before = stack@;
                let known = contains_string(&seen, &dep.name);
                let at = index_named(&self.installed, &dep.name);
                proof {
                    if let Some(w) = at {
                        assert(inst[w as int].name == dep.name@);
                    }
                }
                if !known && at.is_none() {
                    let vc = match &dep.version_constraint {
                        Some(x) => Some(x.duplicate()),
                        None => None,
                    };
                    stack.push((dep.name.clone(), vc));
                    proof {
                        assert(stack@[before.len() as int].0@ == dep.name@);
                        let np = old_planned.push(pkg@);
                        assert(np[old_planned.len() as int] == pkg@);
                        assert(pkg@.dependencies[d as int] == pkg.dependencies@[d as int]@);
                        assert(np[old_planned.len() as int].dependencies[d as int].name == dep.name@);
                        assert(np[old_planned.len() as int].dependencies[d as int].constraint == constraint_view(vc));
                        assert(demand_of(reqs, np, dep.name@, constraint_view(vc)));
                        lemma_stack_push(reqs, np, before, stack@[before.len() as int]);
                        assert(stack@ =~= before.push(stack@[before.len() as int]));
                    }
                }
                proof {
                    assert(stack@.subrange(0, base.len() as int) =~= base) by {
                        assert(before.subrange(0, base.len() as int) == base);
                    }
                    assert forall|x: Seq<char>| stack_has(before, x) implies stack_has(stack@, x) by {
                        let t = choose|t: int| 0 <= t < before.len() && before[t].0@ == x;
                        assert(stack@[t] == before[t]);
                    }
                }
                d = d + 1;
            }
            proof {
                assert forall|x: Seq<char>| stack_has(base, x) implies stack_has(stack@, x) by {
                    let t = choose|t: int| 0 <= t < base.len() && base[t].0@ == x;
                    assert(stack@.subrange(0, base.len() as int)[t] == base[t]);
                }
                assert(!strings_view(old_seen).contains(name@));
                assert forall|k: int| 0 <= k < idx.len() implies idx[k] != ci by {
                    assert(strings_view(old_seen).contains(old_planned[k].name));
                }
                assert forall|k: int| 0 <= k < old_planned.len() implies old_planned[k].name != name@ by {
                    assert(strings_view(old_seen).contains(old_planned[k].name));
                }
            }
            planned.push(pkg);
            proof {
                assert(views(planned@) =~= old_planned.push(cat[ci]));
                let np = views(planned@);
                let old_dem = dem;
                dem = dem.push(cv);
                assert forall|t: int| 0 <= t < seen@.len() implies #[trigger] demanded(reqs, np, seen@[t]@) by {
                    assert(demanded(reqs, old_planned, seen@[t]@));
                }
                assert forall|t: int| 0 <= t < virtuals@.len() implies #[trigger] demanded(reqs, np, virtuals@[t]@) by {
                    assert(demanded(reqs, old_planned, virtuals@[t]@));
                }
                let old_idx = idx;
                idx = idx.push(ci);
                assert forall|k: int| #![trigger dem[k]] 0 <= k < planned@.len() implies demand_of(reqs, np, np[k].name, dem[k])
                    && is_choice(cat, prios, np[k].name, dem[k], idx[k]) by {
                    if k < old_planned.len() {
                        assert(np[k] == old_planned[k]);
                        assert(old_dem[k] == dem[k]);
                        assert(old_idx[k] == idx[k]);
                        assert(demand_of(reqs, old_planned, old_planned[k].name, old_dem[k]));
                    } else {
                        assert(np[k] == cat[ci]);
                    }
                }
                assert forall|a: int, b: int| 0 <= a < idx.len() && 0 <= b < idx.len() && a != b implies idx[a] != idx[b] by {
                    if a < old_idx.len() && b < old_idx.len() {
                        assert(old_idx[a] != old_idx[b]);
                    }
                }
                lemma_distinct_bound(idx, cat.len() as int);
                assert forall|x: Seq<char>| named_in(old_planned, x) implies named_in(views(planned@), x) by {
                    let k = choose|k: int| 0 <= k < old_planned.len() && old_planned[k].name == x;
                    assert(views(planned@)[k].name == x);
                }
                assert(named_in(views(planned@), name@)) by {
                    assert(views(planned@)[old_planned.len() as int].name == name@);
                }
            }
        }
        proof {
            assert forall|x: Seq<char>| !stack_has(stack@, x) by {}
            lemma_chosen(cat, prios, inst, reqs, views(planned@), dem, idx);
            assert forall|n: Seq<char>| #[trigger] demanded(reqs, views(planned@), n) implies named_in(inst, n) || named_in(views(planned@), n)
                || !has_name(cat, n) by {
                if reqs.contains(n) {
                    let r = choose|r: int| 0 <= r < reqs.len() && reqs[r] == n;
                    assert(strings_view(seen@).contains(reqs[r]) || stack_has(stack@, reqs[r]));
                } else {
                    let (i, d) = choose|i: int, d: int| 0 <= i < views(planned@).len() && 0 <= d < views(planned@)[i].dependencies.len()
                        && #[trigger] views(planned@)[i].dependencies[d].name == n;
                    assert(strings_view(seen@).contains(n) || stack_has(stack@, n) || named_in(inst, n));
                }
                if strings_view(seen@).contains(n) {
                    let t = choose|t: int| 0 <= t < strings_view(seen@).len() && strings_view(seen@)[t] == n;
                    assert(seen@[t]@ == n);
                    if strings_view(virtuals@).contains(n) {
                        let w = choose|w: int| 0 <= w < strings_view(virtuals@).len() && strings_view(virtuals@)[w] == n;
                        assert(virtuals@[w]@ == n);
                    }
                }
            }
            assert(closed_plan(cat, inst, reqs, views(planned@)));
        }
        let mut v: usize = 0;
        while v < virtuals.len()
            invariant
                self.wf(),
                self.catalog() == cat,
                self.priorities() == prios,
                self.installed_set() == inst,
                cat == old(self).catalog(),
                prios == old(self).priorities(),
                inst == old(self).installed_set(),
                v <= virtuals@.len(),
                forall|t: int| 0 <= t < virtuals@.len() ==> !has_name(cat, #[trigger] virtuals@[t]@) && !named_in(inst, virtuals@[t]@),
                forall|t: int| 0 <= t < v ==> provided_in(inst, #[trigger] virtuals@[t]@) || provided_in(views(planned@), virtuals@[t]@),
                forall|t: int| 0 <= t < virtuals@.len() ==> #[trigger] demanded(reqs, views(planned@), virtuals@[t]@),
                chosen_plan(cat, prios, inst, reqs, views(planned@)),
                closed_plan(cat, inst, reqs, views(planned@)),
                reqs == request_views(requests@),
                self.installed_set() == inst,
            decreases virtuals@.len() - v,
        {
            if !provides_any(&self.installed, &virtuals[v]) && !provides_any(&planned, &virtuals[v]) {
                let n = virtuals[v].clone();
                proof {
                    let pv = views(planned@);
                    assert(demanded(reqs, pv, n@));
                    assert(chosen_plan(cat, prios, inst, reqs, pv) && closed_plan(cat, inst, reqs, pv) && demanded(reqs, pv, n@)
                        && !named_in(inst, n@) && !has_name(cat, n@) && !provided_in(inst, n@) && !provided_in(pv, n@));
                    assert(unmet_in(cat, prios, inst, reqs, pv, n@));
                    assert(cat == old(self).catalog() && prios == old(self).priorities() && inst == old(self).installed_set());
                    assert(unmet_in(old(self).catalog(), old(self).priorities(), old(self).installed_set(), request_views(requests@), pv, n@));

                }
                return Err(PkgError::PackageNotFound(n));
            }
            v = v + 1;
        }
        let mut k: usize = 0;
        while k < planned.len()
            invariant
                self.wf(),
                self.catalog() == cat,
                self.priorities() == prios,
                self.installed_set() == inst,
                cat == old(self).catalog(),
                prios == old(self).priorities(),
                inst == old(self).installed_set(),
                reqs == request_views(requests@),
                chosen_plan(cat, prios, inst, reqs, views(planned@)),
                closed_plan(cat, inst, reqs, views(planned@)),
                k <= planned@.len(),
                forall|i: int, d: int, j: int|
                    0 <= i < k && 0 <= d < views(planned@)[i].dependencies.len() && 0 <= j < planned@.len()
                        && #[trigger] views(planned@)[j].name == #[trigger] views(planned@)[i].dependencies[d].name
                        && views(planned@)[i].dependencies[d].constraint is Some ==> satisfies(
                        views(planned@)[j].version,
                        (views(planned@)[i].dependencies[d].constraint->0).0,
                        (views(planned@)[i].dependencies[d].constraint->0).1,
                    ),
            decreases planned@.len() - k,
        {
            let ghost pv = views(planned@);
            let deps = &planned[k].dependencies;
            let mut d: usize = 0;
            while d < deps.len()
                invariant
                    pv == views(planned@),
                    k < planned@.len(),
                    deps == planned@[k as int].dependencies,
                    d <= deps@.len(),
                    forall|d2: int, j: int|
                        0 <= d2 < d && 0 <= j < pv.len() && #[trigger] pv[j].name == #[trigger] pv[k as int].dependencies[d2].name
                            && pv[k as int].dependencies[d2].constraint is Some ==> satisfies(
                            pv[j].version,
                            (pv[k as int].dependencies[d2].constraint->0).0,
                            (pv[k as int].dependencies[d2].constraint->0).1,
                        ),
                    chosen_plan(cat, prios, inst, reqs, pv),
                    self.wf(),
                    self.catalog() == cat,
                    self.priorities() == prios,
                    self.installed_set() == inst,
                    cat == old(self).catalog(),
                    prios == old(self).priorities(),
                    inst == old(self).installed_set(),
                    reqs == request_views(requests@),
                decreases deps@.len() - d,
            {
                proof {
                    assert(pv[k as int].dependencies[d as int] == deps@[d as int]@);
                }
                match &deps[d].version_constraint {
                    Some(con) => {
                        match index_named(&planned, &deps[d].name) {
                            Some(j) => {
                                if !self.version_satisfies(planned[j].version.as_str(), con) {
                                    let n = deps[d].name.clone();
                                    proof {
                                        let c = pv[k as int].dependencies[d as int].constraint;
                                        assert(pv[k as int].dependencies[d as int].name == n@);
                                        assert(demand_of(reqs, pv, n@, c));
                                        assert(pv[j as int].name == n@);
                                        assert(!named_in(inst, n@));
                                        assert(unsatisfiable_in(cat, prios, inst, reqs, pv, n@, c));
                                    }
                                    return Err(PkgError::DependencyError(n));
                                }
                                proof {
                                    assert forall|j2: int| 0 <= j2 < pv.len() && pv[j2].name == pv[k as int].dependencies[d as int].name
                                        implies j2 == j by {
                                        if j2 != j {
                                            assert(pv[j2].name != pv[j as int].name);
                                        }
                                    }
                                }
                            },
                            None => {},
                        }
                    },
                    None => {},
                }
                d = d + 1;
            }
            k = k + 1;
        }
        proof {
            assert(constraints_met(views(planned@)));
        }
        match find_conflict(&planned, &self.installed) {
            Some((i, in_inst, j)) => {
                let mut msg = planned[i].name.clone();
                msg.append(" conflicts with ");
                if in_inst {
                    msg.append(self.installed[j].name.as_str());
                } else {
                    msg.append(planned[j].name.as_str());
                }
                proof {
                    let pv = views(planned@);
                    let b: int = if in_inst { -(j as int) - 1 } else { j as int };
                    if in_inst {
                        assert(inst[j as int] == self.installed@[j as int]@);
                    }
                    assert(conflict_at(pv, inst, i as int, b, msg@));
                    assert(chosen_plan(cat, prios, inst, reqs, pv) && closed_plan(cat, inst, reqs, pv));
                    assert(cat == old(self).catalog() && prios == old(self).priorities() && inst == old(self).installed_set());
                }
                return Err(PkgError::ConflictError(msg));
            },
            None => {},
        }
        let (order, Ghost(k)) = plan_order(&planned);
        let mut out: Vec<PackageInfo> = Vec::new();
        let mut t: usize = 0;
        while t < order.len()
            invariant
                order@.len() == planned@.len(),
                forall|i: int| 0 <= i < order@.len() ==> order@[i] < planned@.len(),
                t <= order@.len(),
                self.wf(),
                self.catalog() == cat,
                self.priorities() == prios,
                self.installed_set() == inst,
                out@.len() == t,
                forall|u: int| 0 <= u < t ==> out@[u]@ == planned@[order@[u] as int]@,
                chosen_plan(cat, prios, inst, reqs, views(planned@)),
                closed_plan(cat, inst, reqs, views(planned@)),
                constraints_met(views(planned@)),
            decreases order@.len() - t,
        {
            out.push(planned[order[t]].duplicate());
            t = t + 1;
        }
        let ghost pv = views(planned@);
        let ghost ov = views(out@);
        proof {
            assert forall|u: int| 0 <= u < ov.len() implies ov[u] == pv[order@[u] as int] by {
                assert(out@[u]@ == planned@[order@[u] as int]@);
            }
            lemma_reorder(pv, order@, k, ov, inst);
            lemma_reorder_plan(cat, prios, inst, reqs, pv, order@, ov);
            assert forall|i: int| 0 <= i < ov.len() implies #[trigger] cat.contains(ov[i]) && !named_in(inst, ov[i].name) by {
                let m = order@[i] as int;
                assert(ov[i] == pv[m]);
                assert(pv[m] == cat[idx[m]]);
            }
            assert forall|n: Seq<char>| strings_view(seen@).contains(n) implies is_met(n, inst, ov) by {
                let t2 = choose|t2: int| 0 <= t2 < strings_view(seen@).len() && strings_view(seen@)[t2] == n;
                assert(seen@[t2]@ == n);
                if strings_view(virtuals@).contains(n) {
                    let w = choose|w: int| 0 <= w < strings_view(virtuals@).len() && strings_view(virtuals@)[w] == n;
                    assert(virtuals@[w]@ == n);
                }
            }
            assert forall|i: int, d: int|
                0 <= i < ov.len() && 0 <= d < ov[i].dependencies.len() implies is_met(ov[i].dependencies[d].name, inst, ov) by {
                let m = order@[i] as int;
                assert(ov[i] == pv[m]);
                assert(pv[m].dependencies[d].name == ov[i].dependencies[d].name);
            }
            assert forall|r: int| 0 <= r < reqs.len() implies is_met(reqs[r], inst, ov) by {
                assert(strings_view(seen@).contains(reqs[r]) || stack_has(stack@, reqs[r]));
            }
        }
        self.solution = copy_records(&out);
        Ok(out)
    }
}


/// `s` with `p` in place of the record of the same name, or with `p`
/// appended when there is none.
pub open spec fn insert_named(s: Seq<PackageView>, p: PackageView) -> Seq<PackageView> {
    if named_in(s, p.name) {
        s.update(choose|i: int| 0 <= i < s.len() && s[i].name == p.name, p)
    } else {
        s.push(p)
    }
}

pub open spec fn insert_all(s: Seq<PackageView>, ps: Seq<PackageView>) -> Seq<PackageView>
    decreases ps.len(),
{
    if ps.len() == 0 {
        s
    } else {
        insert_named(insert_all(s, ps.drop_last()), ps.last())
    }
}

impl Resolver {
    /// Records installed packages; a record replaces an installed one of
    /// the same name.
    pub fn set_installed(&mut self, packages: Vec<PackageInfo>)
        requires
            old(self).wf(),
        ensures
            final(self).wf(),
            final(self).catalog() == old(self).catalog(),
            final(self).priorities() == old(self).priorities(),
            final(self).installed_set() == insert_all(old(self).installed_set(), views(packages@)),
    {
        let mut i: usize = 0;
        while i < packages.len()
            invariant
                self.wf(),
                i <= packages@.len(),
                self.catalog() == old(self).catalog(),
                self.priorities() == old(self).priorities(),
                self.installed_set() == insert_all(old(self).installed_set(), views(packages@.subrange(0, i as int))),
            decreases packages@.len() - i,
        {
            let pkg = packages[i].duplicate();
            let ghost before = self.installed_set();
            proof {
                assert(views(packages@.subrange(0, i + 1)).drop_last() =~= views(packages@.subrange(0, i as int)));
                assert(views(packages@.subrange(0, i + 1)).last() == pkg@);
            }
            match index_named(&self.installed, &pkg.name) {
                Some(w) => {
                    proof {
                        assert(before[w as int].name == pkg@.name);
                        let c = choose|c: int| 0 <= c < before.len() && before[c].name == pkg@.name;
                        assert(c == w);
                    }
                    self.installed.set(w, pkg);
                    proof {
                        assert(self.installed_set() =~= before.update(w as int, pkg@));
                    }
                },
                None => {
                    self.installed.push(pkg);
                    proof {
                        assert(self.installed_set() =~= before.push(pkg@));
                    }
                },
            }
            i = i + 1;
        }
        proof {
            assert(packages@.subrange(0, packages@.len() as int) =~= packages@);
        }
    }
}

impl Default for Resolver {
    fn default() -> (r: Resolver)
        ensures
            r.wf(),
            r.catalog().len() == 0,
            r.installed_set().len() == 0,
    {
        Resolver::new()
    }
}

/// The records of `out` form no dependency cycle: every non-empty set of
/// positions holds one whose dependencies name no record of the set.
pub open spec fn acyclic(out: Seq<PackageView>) -> bool {
    forall|s: Set<int>|
        #![trigger has_source(out, s)]
        s.subset_of(vstd::set_lib::set_int_range(0, out.len() as int)) && s.len() > 0 && s.finite()
            ==> has_source(out, s)
}

pub open spec fn has_source(out: Seq<PackageView>, s: Set<int>) -> bool {
    exists|i: int|
        s.contains(i) && forall|d: int, j: int|
            0 <= d < out[i].dependencies.len() && 0 <= j < out.len() && out[j].name
                == out[i].dependencies[d].name ==> !s.contains(j)
}

/// In a resolved output without dependency cycles, every dependency of a
/// record that appears in the output appears strictly before it.
pub proof fn lemma_acyclic_output_in_dependency_order(out: Seq<PackageView>)
    requires
        ordered_output(out),
        acyclic(out),
    ensures
        forall|i: int, d: int, j: int|
            0 <= i < out.len() && 0 <= d < out[i].dependencies.len() && 0 <= j < out.len()
                && out[j].name == out[i].dependencies[d].name ==> j < i,
{
    let k = choose|k: int| #[trigger] ordered_at(out, k);
    if k < out.len() {
        let s = vstd::set_lib::set_int_range(k, out.len() as int);
        vstd::set_lib::lemma_int_range(k, out.len() as int);
        assert(s.contains(k));
        assert(has_source(out, s));
        let i = choose|i: int|
            s.contains(i) && forall|d: int, j: int|
                0 <= d < out[i].dependencies.len() && 0 <= j < out.len() && out[j].name
                    == out[i].dependencies[d].name ==> !s.contains(j);
        assert(waits_from(out, i, k));
        let (d, j) = choose|d: int, j: int|
            0 <= d < out[i].dependencies.len() && k <= j < out.len() && out[j].name
                == out[i].dependencies[d].name;
        assert(s.contains(j));
    }
    assert forall|i: int, d: int, j: int|
        0 <= i < out.len() && 0 <= d < out[i].dependencies.len() && 0 <= j < out.len()
            && out[j].name == out[i].dependencies[d].name implies j < i by {
        assert(deps_before(out, i));
    }
}

/// Of two records of one name with the same version string, the one from
/// the source of higher priority is chosen over the other.
pub proof fn lemma_priority_breaks_ties(
    recs: Seq<PackageView>,
    prios: Seq<i32>,
    name: Seq<char>,
    hi: int,
    lo: int,
)
    requires
        recs.len() == prios.len(),
        0 <= hi < recs.len(),
        0 <= lo < recs.len(),
        recs[hi].name == name,
        recs[lo].name == name,
        recs[hi].version == recs[lo].version,
        prios[hi] > prios[lo],
    ensures
        !is_choice(recs, prios, name, None, lo),
{
    lemma_version_order_total_preorder(recs[hi].version, recs[lo].version, recs[lo].version);
    assert(admissible(recs[hi], name, None));
    assert(ranks_above(recs[hi].version, prios[hi], recs[lo].version, prios[lo]));
}


impl Resolver {
    /// A resolver over the same catalog with `installed` as its installed
    /// set.
    pub fn with_installed(&self, installed: Vec<PackageInfo>) -> (r: Resolver)
        requires
            self.wf(),
            names_distinct(views(installed@)),
        ensures
            r.wf(),
            r.catalog() == self.catalog(),
            r.priorities() == self.priorities(),
            r.installed_set() == views(installed@),
    {
        let mut prios: Vec<i32> = Vec::new();
        let mut i: usize = 0;
        while i < self.priorities.len()
            invariant
                i <= self.priorities@.len(),
                prios@ == self.priorities@.subrange(0, i as int),
            decreases self.priorities@.len() - i,
        {
            prios.push(self.priorities[i]);
            proof {
                assert(prios@ =~= self.priorities@.subrange(0, i + 1));
            }
            i = i + 1;
        }
        proof {
            assert(prios@ =~= self.priorities@);
        }
        let packages = copy_records(&self.packages);
        assert(packages@.len() == views(packages@).len());
        assert(self.packages@.len() == views(self.packages@).len());
        Resolver { packages, priorities: prios, installed, solution: Vec::new() }
    }
}


/// Conflict rejection: no successful resolution holds two records that
/// conflict, or a record that conflicts with an installed one.
pub proof fn lemma_resolution_has_no_conflict(
    out: Seq<PackageView>,
    cat: Seq<PackageView>,
    prios: Seq<i32>,
    inst: Seq<PackageView>,
    reqs: Seq<Seq<char>>,
)
    requires
        resolution_valid(out, cat, prios, inst, reqs),
    ensures
        forall|a: int, b: int| 0 <= a < out.len() && 0 <= b < out.len() && a != b ==> !conflicting(out[a], out[b]),
        forall|a: int, m: int| 0 <= a < out.len() && 0 <= m < inst.len() ==> !conflicting(out[a], inst[m]),
{
}

/// A requested name that no installed or catalog record has or provides
/// cannot be resolved.
pub proof fn lemma_unmeetable_request_fails(
    out: Seq<PackageView>,
    cat: Seq<PackageView>,
    prios: Seq<i32>,
    inst: Seq<PackageView>,
    reqs: Seq<Seq<char>>,
    r: int,
)
    requires
        0 <= r < reqs.len(),
        !named_in(inst, reqs[r]),
        !has_name(cat, reqs[r]),
        !provided_in(inst, reqs[r]),
        !provided_in(cat, reqs[r]),
    ensures
        !resolution_valid(out, cat, prios, inst, reqs),
{
    if resolution_valid(out, cat, prios, inst, reqs) {
        assert(is_met(reqs[r], inst, out));
        if named_in(out, reqs[r]) {
            let k = choose|k: int| 0 <= k < out.len() && out[k].name == reqs[r];
            assert(cat.contains(out[k]));
            let c = choose|c: int| 0 <= c < cat.len() && cat[c] == out[k];
        }
        if provided_in(out, reqs[r]) {
            let (k, j) = choose|k: int, j: int| 0 <= k < out.len() && 0 <= j < out[k].provides.len() && out[k].provides[j] == reqs[r];
            assert(cat.contains(out[k]));
            let c = choose|c: int| 0 <= c < cat.len() && cat[c] == out[k];
            assert(cat[c].provides[j] == reqs[r]);
        }
    }
}


impl Resolver {
    /// The catalog records, in ingestion order.
    pub(crate) fn records(&self) -> (r: &Vec<PackageInfo>)
        ensures
            views(r@) == self.catalog(),
    {
        &self.packages
    }
}

} // verus!
