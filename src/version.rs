//! Version algebra: a cross-ecosystem order on version strings, and
//! constraint satisfaction defined from that order.
use crate::text::views_of;
use std::cmp::Ordering;
use vstd::prelude::*;
use vstd::string::StrSliceExecFns;

verus! {

pub open spec fn is_digit(c: char) -> bool {
    '0' <= c && c <= '9'
}

/// A run of digits without its leading zeros: the canonical form of the
/// unsigned integer it denotes.
pub open spec fn strip_zeros(d: Seq<char>) -> Seq<char>
    decreases d.len(),
{
    if d.len() > 0 && d[0] == '0' {
        strip_zeros(d.drop_first())
    } else {
        d
    }
}

/// Appends the run that just ended, if there is one.
pub open spec fn close_run(done: Seq<Seq<char>>, cur: Option<Seq<char>>) -> Seq<Seq<char>> {
    match cur {
        Some(d) => done.push(strip_zeros(d)),
        None => done,
    }
}

/// Left-to-right scan: the finished components and the digit run in
/// progress at the end of `s`, if any.
pub open spec fn scan_runs(s: Seq<char>) -> (Seq<Seq<char>>, Option<Seq<char>>)
    decreases s.len(),
{
    if s.len() == 0 {
        (Seq::empty(), None)
    } else {
        let prev = scan_runs(s.drop_last());
        let c = s.last();
        if is_digit(c) {
            let d = match prev.1 {
                Some(x) => x.push(c),
                None => seq![c],
            };
            (prev.0, Some(d))
        } else {
            (close_run(prev.0, prev.1), None)
        }
    }
}

/// The numeric components of a version string: its maximal digit runs, in
/// order, each in canonical form (leading zeros removed).
pub open spec fn components(s: Seq<char>) -> Seq<Seq<char>> {
    close_run(scan_runs(s).0, scan_runs(s).1)
}

/// Character-by-character order; a proper prefix is smaller.
pub open spec fn cmp_chars(a: Seq<char>, b: Seq<char>) -> Ordering
    decreases a.len(),
{
    if a.len() == 0 || b.len() == 0 {
        if a.len() < b.len() {
            Ordering::Less
        } else if a.len() > b.len() {
            Ordering::Greater
        } else {
            Ordering::Equal
        }
    } else if a[0] < b[0] {
        Ordering::Less
    } else if a[0] > b[0] {
        Ordering::Greater
    } else {
        cmp_chars(a.drop_first(), b.drop_first())
    }
}

/// Order of two canonical digit runs: the order of the integers they
/// denote (fewer digits is smaller; equal lengths compare digit by digit).
pub open spec fn cmp_run(a: Seq<char>, b: Seq<char>) -> Ordering {
    if a.len() < b.len() {
        Ordering::Less
    } else if a.len() > b.len() {
        Ordering::Greater
    } else {
        cmp_chars(a, b)
    }
}

/// Lexicographic order on component sequences; a proper prefix is smaller.
pub open spec fn cmp_components(a: Seq<Seq<char>>, b: Seq<Seq<char>>) -> Ordering
    decreases a.len(),
{
    if a.len() == 0 || b.len() == 0 {
        if a.len() < b.len() {
            Ordering::Less
        } else if a.len() > b.len() {
            Ordering::Greater
        } else {
            Ordering::Equal
        }
    } else if cmp_run(a[0], b[0]) != Ordering::Equal {
        cmp_run(a[0], b[0])
    } else {
        cmp_components(a.drop_first(), b.drop_first())
    }
}

/// The order on version strings.
pub open spec fn cmp_versions(a: Seq<char>, b: Seq<char>) -> Ordering {
    cmp_components(components(a), components(b))
}

pub open spec fn reverse(o: Ordering) -> Ordering {
    match o {
        Ordering::Less => Ordering::Greater,
        Ordering::Greater => Ordering::Less,
        Ordering::Equal => Ordering::Equal,
    }
}

pub open spec fn version_le(a: Seq<char>, b: Seq<char>) -> bool {
    cmp_versions(a, b) != Ordering::Greater
}

pub open spec fn version_lt(a: Seq<char>, b: Seq<char>) -> bool {
    cmp_versions(a, b) == Ordering::Less
}

fn strip_leading_zeros(d: &Vec<char>) -> (r: Vec<char>)
    ensures
        r@ == strip_zeros(d@),
{
    let mut i: usize = 0;
    proof {
        assert(d@.subrange(0, d@.len() as int) =~= d@);
    }
    while i < d.len() && d[i] == '0'
        invariant
            i <= d@.len(),
            strip_zeros(d@) == strip_zeros(d@.subrange(i as int, d@.len() as int)),
        decreases d@.len() - i,
    {
        proof {
            assert(d@.subrange(i as int, d@.len() as int).drop_first() =~= d@.subrange(i + 1, d@.len() as int));
        }
        i = i + 1;
    }
    crate::text::slice_of(d, i, d.len())
}

/// Splits a version string into its numeric components.
pub fn version_components(s: &str) -> (r: Vec<Vec<char>>)
    ensures
        views_of(r@) == components(s@),
{
    let n = s.unicode_len();
    let mut out: Vec<Vec<char>> = Vec::new();
    let mut in_run: bool = false;
    let mut cur: Vec<char> = Vec::new();
    let mut i: usize = 0;
    while i < n
        invariant
            n == s@.len(),
            i <= n,
            views_of(out@) == scan_runs(s@.subrange(0, i as int)).0,
            in_run == scan_runs(s@.subrange(0, i as int)).1 is Some,
            in_run ==> cur@ == scan_runs(s@.subrange(0, i as int)).1->0,
        decreases n - i,
    {
        let c = s.get_char(i);
        proof {
            assert(s@.subrange(0, i + 1).drop_last() =~= s@.subrange(0, i as int));
        }
        if '0' <= c && c <= '9' {
            if !in_run {
                cur = Vec::new();
                proof {
                    assert(cur@.push(c) =~= seq![c]);
                }
            }
            cur.push(c);
            in_run = true;
        } else {
            if in_run {
                let ghost before = out@;
                out.push(strip_leading_zeros(&cur));
                proof {
                    assert(views_of(out@) =~= views_of(before).push(strip_zeros(cur@)));
                }
            }
            in_run = false;
        }
        i = i + 1;
    }
    proof {
        assert(s@.subrange(0, n as int) =~= s@);
    }
    if in_run {
        let ghost before = out@;
        out.push(strip_leading_zeros(&cur));
        proof {
            assert(views_of(out@) =~= views_of(before).push(strip_zeros(cur@)));
        }
    }
    out
}

fn compare_run(a: &Vec<char>, b: &Vec<char>) -> (r: Ordering)
    ensures
        r == cmp_run(a@, b@),
{
    if a.len() < b.len() {
        return Ordering::Less;
    } else if a.len() > b.len() {
        return Ordering::Greater;
    }
    let mut i: usize = 0;
    proof {
        assert(a@.skip(0) =~= a@);
        assert(b@.skip(0) =~= b@);
    }
    while i < a.len()
        invariant
            a@.len() == b@.len(),
            i <= a@.len(),
            cmp_chars(a@, b@) == cmp_chars(a@.skip(i as int), b@.skip(i as int)),
        decreases a@.len() - i,
    {
        if a[i] < b[i] {
            return Ordering::Less;
        } else if a[i] > b[i] {
            return Ordering::Greater;
        }
        proof {
            assert(a@.skip(i as int).drop_first() =~= a@.skip(i + 1));
            assert(b@.skip(i as int).drop_first() =~= b@.skip(i + 1));
        }
        i = i + 1;
    }
    Ordering::Equal
}

/// Compares two component sequences.
pub fn compare_components(a: &Vec<Vec<char>>, b: &Vec<Vec<char>>) -> (r: Ordering)
    ensures
        r == cmp_components(views_of(a@), views_of(b@)),
{
    let ghost av = views_of(a@);
    let ghost bv = views_of(b@);
    let mut i: usize = 0;
    proof {
        assert(av.skip(0) =~= av);
        assert(bv.skip(0) =~= bv);
    }
    while i < a.len() && i < b.len()
        invariant
            av == views_of(a@),
            bv == views_of(b@),
            i <= a@.len(),
            i <= b@.len(),
            cmp_components(av, bv) == cmp_components(av.skip(i as int), bv.skip(i as int)),
        decreases a@.len() - i,
    {
        let o = compare_run(&a[i], &b[i]);
        proof {
            assert(av.skip(i as int)[0] == a@[i as int]@);
            assert(bv.skip(i as int)[0] == b@[i as int]@);
        }
        match o {
            Ordering::Equal => {},
            _ => {
                return o;
            },
        }
        proof {
            assert(av.skip(i as int).drop_first() =~= av.skip(i + 1));
            assert(bv.skip(i as int).drop_first() =~= bv.skip(i + 1));
        }
        i = i + 1;
    }
    if a.len() < b.len() {
        Ordering::Less
    } else if a.len() > b.len() {
        Ordering::Greater
    } else {
        Ordering::Equal
    }
}

proof fn lemma_chars_antisym(a: Seq<char>, b: Seq<char>)
    ensures
        cmp_chars(a, b) == reverse(cmp_chars(b, a)),
        cmp_chars(a, b) == Ordering::Equal <==> a == b,
    decreases a.len(),
{
    if a.len() > 0 && b.len() > 0 {
        lemma_chars_antisym(a.drop_first(), b.drop_first());
        if a[0] == b[0] && a.drop_first() == b.drop_first() {
            assert(a =~= seq![a[0]] + a.drop_first());
            assert(b =~= seq![b[0]] + b.drop_first());
        }
        if a == b {
            assert(a.drop_first() == b.drop_first());
        }
    } else if a.len() == 0 && b.len() == 0 {
        assert(a =~= b);
    }
}

proof fn lemma_chars_trans(a: Seq<char>, b: Seq<char>, c: Seq<char>)
    requires
        cmp_chars(a, b) != Ordering::Greater,
        cmp_chars(b, c) != Ordering::Greater,
    ensures
        cmp_chars(a, c) != Ordering::Greater,
        cmp_chars(a, b) == Ordering::Less || cmp_chars(b, c) == Ordering::Less ==> cmp_chars(a, c) == Ordering::Less,
    decreases a.len(),
{
    if a.len() > 0 && b.len() > 0 && c.len() > 0 && a[0] == b[0] && b[0] == c[0] {
        lemma_chars_trans(a.drop_first(), b.drop_first(), c.drop_first());
    }
}

proof fn lemma_run_order(a: Seq<char>, b: Seq<char>, c: Seq<char>)
    ensures
        cmp_run(a, b) == reverse(cmp_run(b, a)),
        cmp_run(a, b) == Ordering::Equal <==> a == b,
        cmp_run(a, b) != Ordering::Greater && cmp_run(b, c) != Ordering::Greater ==> cmp_run(a, c) != Ordering::Greater,
        cmp_run(a, b) != Ordering::Greater && cmp_run(b, c) != Ordering::Greater && (cmp_run(a, b) == Ordering::Less
            || cmp_run(b, c) == Ordering::Less) ==> cmp_run(a, c) == Ordering::Less,
{
    lemma_chars_antisym(a, b);
    if a.len() == b.len() && b.len() == c.len() && cmp_chars(a, b) != Ordering::Greater && cmp_chars(b, c) != Ordering::Greater {
        lemma_chars_trans(a, b, c);
    }
}

proof fn lemma_cmp_antisym(a: Seq<Seq<char>>, b: Seq<Seq<char>>)
    ensures
        cmp_components(a, b) == reverse(cmp_components(b, a)),
        cmp_components(a, b) == Ordering::Equal <==> a == b,
    decreases a.len(),
{
    if a.len() > 0 && b.len() > 0 {
        lemma_run_order(a[0], b[0], b[0]);
        lemma_run_order(b[0], a[0], a[0]);
        lemma_cmp_antisym(a.drop_first(), b.drop_first());
        if a[0] == b[0] && a.drop_first() == b.drop_first() {
            assert(a =~= seq![a[0]] + a.drop_first());
            assert(b =~= seq![b[0]] + b.drop_first());
        }
        if a == b {
            assert(a.drop_first() == b.drop_first());
        }
    } else if a.len() == 0 && b.len() == 0 {
        assert(a =~= b);
    }
}

proof fn lemma_cmp_trans(a: Seq<Seq<char>>, b: Seq<Seq<char>>, c: Seq<Seq<char>>)
    requires
        cmp_components(a, b) != Ordering::Greater,
        cmp_components(b, c) != Ordering::Greater,
    ensures
        cmp_components(a, c) != Ordering::Greater,
        cmp_components(a, b) == Ordering::Less || cmp_components(b, c) == Ordering::Less
            ==> cmp_components(a, c) == Ordering::Less,
    decreases a.len(),
{
    if a.len() > 0 && b.len() > 0 && c.len() > 0 {
        lemma_run_order(a[0], b[0], c[0]);
        lemma_run_order(b[0], a[0], c[0]);
        lemma_run_order(a[0], c[0], b[0]);
        if cmp_run(a[0], b[0]) == Ordering::Equal && cmp_run(b[0], c[0]) == Ordering::Equal {
            lemma_cmp_trans(a.drop_first(), b.drop_first(), c.drop_first());
        }
    }
}

/// The comparator is a total preorder on version strings: exactly one of
/// less, equal and greater holds, swapping the arguments reverses the
/// result, "equal" means equal canonical digit runs, and "not greater"
/// and "less" are both transitive.
pub proof fn lemma_version_order_total_preorder(a: Seq<char>, b: Seq<char>, c: Seq<char>)
    ensures
        cmp_versions(a, b) == Ordering::Less || cmp_versions(a, b) == Ordering::Equal
            || cmp_versions(a, b) == Ordering::Greater,
        cmp_versions(a, b) == reverse(cmp_versions(b, a)),
        cmp_versions(a, b) == Ordering::Equal <==> components(a) == components(b),
        cmp_versions(a, a) == Ordering::Equal,
        version_le(a, b) && version_le(b, c) ==> version_le(a, c),
        version_lt(a, b) && version_le(b, c) ==> version_lt(a, c),
        version_le(a, b) && version_lt(b, c) ==> version_lt(a, c),
        version_le(a, b) || version_le(b, a),
{
    lemma_cmp_antisym(components(a), components(b));
    lemma_cmp_antisym(components(a), components(a));
    if version_le(a, b) && version_le(b, c) {
        lemma_cmp_trans(components(a), components(b), components(c));
    }
}

} // verus!
