//! Deduplication, grouping and counting over import lists.
use vstd::prelude::*;
use crate::model::{ImportOrigin, StolenPath, StolenPathV, UseKind, UseKindV};
use crate::snapshot::{sorted_set, sorted_unique};

verus! {

pub open spec fn absolute_of(i: StolenPathV) -> bool {
    match i.is_absolute {
        Some(b) => b,
        None => false,
    }
}

pub open spec fn origin_of(i: StolenPathV) -> ImportOrigin {
    match i.origin {
        Some(o) => o,
        None => ImportOrigin::UnknownExternal,
    }
}

/// The identity `unique` compares: path, kind, absoluteness, re-export flag.
pub open spec fn dedup_key(i: StolenPathV) -> (Seq<char>, UseKindV, bool, bool) {
    (i.full_path, i.kind, absolute_of(i), i.is_public_use)
}

/// The identity `unique_prefer_pub_use` compares: path, kind, absoluteness.
pub open spec fn prefer_key(i: StolenPathV) -> (Seq<char>, UseKindV, bool) {
    (i.full_path, i.kind, absolute_of(i))
}

/// The first occurrence of each key, in order.
pub open spec fn unique_spec(s: Seq<StolenPathV>) -> Seq<StolenPathV>
    decreases s.len(),
{
    if s.len() == 0 {
        Seq::empty()
    } else {
        let r = unique_spec(s.drop_last());
        if r.map_values(|x: StolenPathV| dedup_key(x)).contains(dedup_key(s.last())) {
            r
        } else {
            r.push(s.last())
        }
    }
}

/// The position of the first entry of `r` with key `k`, or -1.
pub open spec fn find_prefer(r: Seq<StolenPathV>, k: (Seq<char>, UseKindV, bool)) -> int
    decreases r.len(),
{
    if r.len() == 0 {
        -1
    } else {
        let j = find_prefer(r.drop_last(), k);
        if j >= 0 {
            j
        } else if prefer_key(r.last()) == k {
            r.len() - 1
        } else {
            -1
        }
    }
}

/// One entry per key, at the place the key was first seen; a public
/// re-export replaces a private import of the same key.
pub open spec fn prefer_spec(s: Seq<StolenPathV>) -> Seq<StolenPathV>
    decreases s.len(),
{
    if s.len() == 0 {
        Seq::empty()
    } else {
        let r = prefer_spec(s.drop_last());
        let x = s.last();
        let j = find_prefer(r, prefer_key(x));
        if j < 0 {
            r.push(x)
        } else if x.is_public_use && !r[j].is_public_use {
            r.update(j, x)
        } else {
            r
        }
    }
}

proof fn lemma_find_prefer_first(r: Seq<StolenPathV>, k: (Seq<char>, UseKindV, bool), p: int)
    requires
        0 <= p <= r.len(),
        forall|t: int| 0 <= t < p ==> prefer_key(#[trigger] r[t]) != k,
        p < r.len() ==> prefer_key(r[p]) == k,
    ensures
        find_prefer(r, k) == if p < r.len() {
            p
        } else {
            -1
        },
    decreases r.len(),
{
    if r.len() > 0 {
        let q = r.drop_last();
        if p < r.len() - 1 {
            assert forall|t: int| 0 <= t < p implies prefer_key(#[trigger] q[t]) != k by {
                assert(q[t] == r[t]);
            }
            assert(q[p] == r[p]);
            lemma_find_prefer_first(q, k, p);
        } else {
            let pq = q.len() as int;
            assert forall|t: int| 0 <= t < pq implies prefer_key(#[trigger] q[t]) != k by {
                assert(q[t] == r[t]);
            }
            lemma_find_prefer_first(q, k, pq);
        }
    }
}

fn same_kind(a: &UseKind, b: &UseKind) -> (r: bool)
    ensures
        r == (a.deep_view() == b.deep_view()),
{
    match (a, b) {
        (UseKind::Name, UseKind::Name) => true,
        (UseKind::Glob, UseKind::Glob) => true,
        (UseKind::Rename { alias: x }, UseKind::Rename { alias: y }) => x.eq(y),
        _ => false,
    }
}

fn abs_of(i: &StolenPath) -> (r: bool)
    ensures
        r == absolute_of(i.deep_view()),
{
    match i.is_absolute {
        Some(b) => b,
        None => false,
    }
}

fn same_prefer_key(a: &StolenPath, b: &StolenPath) -> (r: bool)
    ensures
        r == (prefer_key(a.deep_view()) == prefer_key(b.deep_view())),
{
    a.full_path.eq(&b.full_path) && same_kind(&a.kind, &b.kind) && abs_of(a) == abs_of(b)
}

fn same_dedup_key(a: &StolenPath, b: &StolenPath) -> (r: bool)
    ensures
        r == (dedup_key(a.deep_view()) == dedup_key(b.deep_view())),
{
    same_prefer_key(a, b) && a.is_public_use == b.is_public_use
}

/// Counts over an import list.
pub struct ImportSummary {
    pub total: usize,
    /// Imports per origin (absent origins count as unknown), in origin order,
    /// origins with no import left out.
    pub by_origin: Vec<(ImportOrigin, usize)>,
    /// Imports per root, roots in text order.
    pub by_root: Vec<(String, usize)>,
    pub pub_use_count: usize,
    pub glob_count: usize,
    pub rename_count: usize,
    pub absolute_count: usize,
}

/// The imports of origin `o`, in order.
pub open spec fn of_origin(s: Seq<StolenPathV>, o: ImportOrigin) -> Seq<StolenPathV> {
    s.filter(|i: StolenPathV| origin_of(i) == o)
}

/// The imports with root `r`, in order.
pub open spec fn of_root(s: Seq<StolenPathV>, r: Seq<char>) -> Seq<StolenPathV> {
    s.filter(|i: StolenPathV| i.root == r)
}

pub open spec fn count_where(s: Seq<StolenPathV>, p: spec_fn(StolenPathV) -> bool) -> nat {
    s.filter(p).len()
}

/// Extension methods on import lists.
pub trait ImportVecExt: Sized {
    spec fn items(&self) -> Seq<StolenPathV>;

    /// Deduplicates, keeping the first occurrence of each (path, kind,
    /// absoluteness, re-export flag).
    fn unique(self) -> (r: Vec<StolenPath>)
        ensures
            r.deep_view() == unique_spec(self.items()),
    ;

    /// Deduplicates by (path, kind, absoluteness), keeping the place of the
    /// first occurrence and preferring a public re-export.
    fn unique_prefer_pub_use(self) -> (r: Vec<StolenPath>)
        ensures
            r.deep_view() == prefer_spec(self.items()),
    ;

    /// The imports grouped by origin, in origin order; each group keeps the
    /// order of the list.
    fn group_by_origin_owned(&self) -> (r: Vec<(ImportOrigin, Vec<StolenPath>)>)
        ensures
            forall|g: int|
                0 <= g < r@.len() ==> (#[trigger] r@[g]).1.deep_view() == of_origin(self.items(), r@[g].0) && r@[g].1@.len() > 0,
            forall|o: ImportOrigin|
                #[trigger] of_origin(self.items(), o).len() > 0 ==> exists|g: int|
                    0 <= g < r@.len() && (#[trigger] r@[g]).0 == o,
    ;

    /// The imports grouped by origin, in origin order, borrowed; each group
    /// keeps the order of the list.
    fn group_by_origin(&self) -> (r: Vec<(ImportOrigin, Vec<&StolenPath>)>)
        ensures
            forall|g: int|
                0 <= g < r@.len() ==> (#[trigger] r@[g]).1.deep_view() == of_origin(self.items(), r@[g].0) && r@[g].1@.len() > 0,
            forall|o: ImportOrigin|
                #[trigger] of_origin(self.items(), o).len() > 0 ==> exists|g: int|
                    0 <= g < r@.len() && (#[trigger] r@[g]).0 == o,
    ;

    /// The imports grouped by root, roots in text order; each group keeps
    /// the order of the list.
    fn group_by_root(&self) -> (r: Vec<(String, Vec<StolenPath>)>)
        ensures
            r@.len() == sorted_set(self.items().map_values(|i: StolenPathV| i.root)).len(),
            forall|g: int|
                0 <= g < r@.len() ==> (#[trigger] r@[g]).0@ == sorted_set(
                    self.items().map_values(|i: StolenPathV| i.root),
                )[g] && r@[g].1.deep_view() == of_root(self.items(), r@[g].0@),
    ;

    /// Counts by origin and by form.
    fn summary(&self) -> (r: ImportSummary)
        ensures
            r.total == self.items().len(),
            r.pub_use_count == count_where(self.items(), |i: StolenPathV| i.is_public_use),
            r.glob_count == count_where(self.items(), |i: StolenPathV| i.kind is Glob),
            r.rename_count == count_where(self.items(), |i: StolenPathV| i.kind is Rename),
            r.absolute_count == count_where(self.items(), |i: StolenPathV| absolute_of(i)),
            forall|g: int|
                0 <= g < r.by_origin@.len() ==> (#[trigger] r.by_origin@[g]).1 == of_origin(self.items(), r.by_origin@[g].0).len() && r.by_origin@[g].1 > 0,
            forall|o: ImportOrigin|
                #[trigger] of_origin(self.items(), o).len() > 0 ==> exists|g: int|
                    0 <= g < r.by_origin@.len() && (#[trigger] r.by_origin@[g]).0 == o,
            r.by_root@.len() == sorted_set(self.items().map_values(|i: StolenPathV| i.root)).len(),
            forall|g: int|
                0 <= g < r.by_root@.len() ==> (#[trigger] r.by_root@[g]).0@ == sorted_set(
                    self.items().map_values(|i: StolenPathV| i.root),
                )[g] && r.by_root@[g].1 == of_root(self.items(), r.by_root@[g].0@).len(),
    ;
}

/// The origins in their declaration order.
fn all_origins() -> (r: Vec<ImportOrigin>)
    ensures
        forall|o: ImportOrigin| r@.contains(o),
{
    let mut v: Vec<ImportOrigin> = Vec::new();
    v.push(ImportOrigin::Internal);
    v.push(ImportOrigin::Std);
    v.push(ImportOrigin::Core);
    v.push(ImportOrigin::Alloc);
    v.push(ImportOrigin::WorkspaceMember);
    v.push(ImportOrigin::Dependency);
    v.push(ImportOrigin::UnknownExternal);
    proof {
        assert forall|o: ImportOrigin| v@.contains(o) by {
            match o {
                ImportOrigin::Internal => assert(v@[0] == o),
                ImportOrigin::Std => assert(v@[1] == o),
                ImportOrigin::Core => assert(v@[2] == o),
                ImportOrigin::Alloc => assert(v@[3] == o),
                ImportOrigin::WorkspaceMember => assert(v@[4] == o),
                ImportOrigin::Dependency => assert(v@[5] == o),
                ImportOrigin::UnknownExternal => assert(v@[6] == o),
            }
        }
    }
    v
}

fn with_origin(v: &Vec<StolenPath>, o: ImportOrigin) -> (r: Vec<StolenPath>)
    ensures
        r.deep_view() == of_origin(v.deep_view(), o),
{
    let ghost s = v.deep_view();
    let ghost pred = |i: StolenPathV| origin_of(i) == o;
    let mut out: Vec<StolenPath> = Vec::new();
    let mut n: usize = 0;
    proof {
        reveal(Seq::filter);
        assert(s.take(0).filter(pred) =~= Seq::<StolenPathV>::empty());
        assert(out.deep_view() =~= Seq::<StolenPathV>::empty());
    }
    while n < v.len()
        invariant
            n <= v.len(),
            s == v.deep_view(),
            pred == (|i: StolenPathV| origin_of(i) == o),
            out.deep_view() == s.take(n as int).filter(pred),
        decreases v.len() - n,
    {
        let ghost prev = out.deep_view();
        let x = &v[n];
        let o2 = match x.origin {
            Some(y) => y,
            None => ImportOrigin::UnknownExternal,
        };
        if o2 == o {
            let c = x.clone();
            out.push(c);
            proof {
                assert(out.deep_view() =~= prev.push(c.deep_view()));
            }
        }
        proof {
            reveal(Seq::filter);
            let t = s.take(n + 1);
            assert(t.drop_last() =~= s.take(n as int));
            assert(t.last() == x.deep_view());
        }
        n += 1;
    }
    proof {
        assert(s.take(v.len() as int) =~= s);
    }
    out
}

fn with_origin_refs<'a>(v: &'a Vec<StolenPath>, o: ImportOrigin) -> (r: Vec<&'a StolenPath>)
    ensures
        r.deep_view() == of_origin(v.deep_view(), o),
{
    let ghost s = v.deep_view();
    let ghost pred = |i: StolenPathV| origin_of(i) == o;
    let mut out: Vec<&'a StolenPath> = Vec::new();
    let mut n: usize = 0;
    proof {
        reveal(Seq::filter);
        assert(s.take(0).filter(pred) =~= Seq::<StolenPathV>::empty());
        assert(out.deep_view() =~= Seq::<StolenPathV>::empty());
    }
    while n < v.len()
        invariant
            n <= v.len(),
            s == v.deep_view(),
            pred == (|i: StolenPathV| origin_of(i) == o),
            out.deep_view() == s.take(n as int).filter(pred),
        decreases v.len() - n,
    {
        let ghost prev = out.deep_view();
        let x = &v[n];
        let o2 = match x.origin {
            Some(y) => y,
            None => ImportOrigin::UnknownExternal,
        };
        if o2 == o {
            out.push(x);
            proof {
                assert(out.deep_view() =~= prev.push(x.deep_view()));
            }
        }
        proof {
            reveal(Seq::filter);
            let t = s.take(n + 1);
            assert(t.drop_last() =~= s.take(n as int));
            assert(t.last() == x.deep_view());
        }
        n += 1;
    }
    proof {
        assert(s.take(v.len() as int) =~= s);
    }
    out
}

fn with_root(v: &Vec<StolenPath>, root: &String) -> (r: Vec<StolenPath>)
    ensures
        r.deep_view() == of_root(v.deep_view(), root@),
{
    let ghost s = v.deep_view();
    let ghost pred = |i: StolenPathV| i.root == root@;
    let mut out: Vec<StolenPath> = Vec::new();
    let mut n: usize = 0;
    proof {
        reveal(Seq::filter);
        assert(s.take(0).filter(pred) =~= Seq::<StolenPathV>::empty());
        assert(out.deep_view() =~= Seq::<StolenPathV>::empty());
    }
    while n < v.len()
        invariant
            n <= v.len(),
            s == v.deep_view(),
            pred == (|i: StolenPathV| i.root == root@),
            out.deep_view() == s.take(n as int).filter(pred),
        decreases v.len() - n,
    {
        let ghost prev = out.deep_view();
        let x = &v[n];
        let hit = x.root.eq(root);
        if hit {
            let c = x.clone();
            out.push(c);
            proof {
                assert(out.deep_view() =~= prev.push(c.deep_view()));
            }
        }
        proof {
            reveal(Seq::filter);
            let t = s.take(n + 1);
            assert(t.drop_last() =~= s.take(n as int));
            assert(t.last() == x.deep_view());
        }
        n += 1;
    }
    proof {
        assert(s.take(v.len() as int) =~= s);
    }
    out
}

fn count_flag(v: &Vec<StolenPath>, which: u8) -> (r: usize)
    requires
        which < 4,
    ensures
        which == 0 ==> r == count_where(v.deep_view(), |i: StolenPathV| i.is_public_use),
        which == 1 ==> r == count_where(v.deep_view(), |i: StolenPathV| i.kind is Glob),
        which == 2 ==> r == count_where(v.deep_view(), |i: StolenPathV| i.kind is Rename),
        which == 3 ==> r == count_where(v.deep_view(), |i: StolenPathV| absolute_of(i)),
{
    let ghost s = v.deep_view();
    let ghost pred = |i: StolenPathV|
        if which == 0 {
            i.is_public_use
        } else if which == 1 {
            i.kind is Glob
        } else if which == 2 {
            i.kind is Rename
        } else {
            absolute_of(i)
        };
    let mut c: usize = 0;
    let mut n: usize = 0;
    proof {
        reveal(Seq::filter);
        assert(s.take(0).filter(pred) =~= Seq::<StolenPathV>::empty());
    }
    while n < v.len()
        invariant
            n <= v.len(),
            which < 4,
            s == v.deep_view(),
            pred == (|i: StolenPathV|
                if which == 0 {
                    i.is_public_use
                } else if which == 1 {
                    i.kind is Glob
                } else if which == 2 {
                    i.kind is Rename
                } else {
                    absolute_of(i)
                }),
            c == s.take(n as int).filter(pred).len(),
            c <= n,
        decreases v.len() - n,
    {
        let x = &v[n];
        let hit = if which == 0 {
            x.is_public_use
        } else if which == 1 {
            match x.kind {
                UseKind::Glob => true,
                _ => false,
            }
        } else if which == 2 {
            match x.kind {
                UseKind::Rename { .. } => true,
                _ => false,
            }
        } else {
            abs_of(x)
        };
        proof {
            reveal(Seq::filter);
            let t = s.take(n + 1);
            assert(t.drop_last() =~= s.take(n as int));
            assert(t.last() == x.deep_view());
            assert(hit == pred(x.deep_view()));
        }
        if hit {
            c += 1;
        }
        n += 1;
    }
    proof {
        assert(s.take(v.len() as int) =~= s);
        if which == 0 {
            assert(pred == (|i: StolenPathV| i.is_public_use));
        } else if which == 1 {
            assert(pred == (|i: StolenPathV| i.kind is Glob));
        } else if which == 2 {
            assert(pred == (|i: StolenPathV| i.kind is Rename));
        } else {
            assert(pred == (|i: StolenPathV| absolute_of(i)));
        }
    }
    c
}

impl ImportVecExt for Vec<StolenPath> {
    open spec fn items(&self) -> Seq<StolenPathV> {
        self.deep_view()
    }

    fn unique(self) -> (r: Vec<StolenPath>) {
        let ghost s = self.deep_view();
        let mut out: Vec<StolenPath> = Vec::new();
        let mut i: usize = 0;
        proof {
            assert(s.take(0) =~= Seq::<StolenPathV>::empty());
            assert(out.deep_view() =~= Seq::<StolenPathV>::empty());
        }
        while i < self.len()
            invariant
                i <= self.len(),
                s == self.deep_view(),
                out.deep_view() == unique_spec(s.take(i as int)),
            decreases self.len() - i,
        {
            let ghost prev = out.deep_view();
            let x = &self[i];
            let mut seen = false;
            let mut j: usize = 0;
            while j < out.len()
                invariant
                    j <= out.len(),
                    prev == out.deep_view(),
                    seen == exists|t: int| 0 <= t < j && dedup_key(#[trigger] prev[t]) == dedup_key(x.deep_view()),
                decreases out.len() - j,
            {
                proof {
                    assert(prev[j as int] == out@[j as int].deep_view());
                }
                let hit = same_dedup_key(&out[j], x);
                if hit {
                    seen = true;
                }
                proof {
                    if !hit {
                        assert forall|t: int| 0 <= t < j + 1 && dedup_key(#[trigger] prev[t]) == dedup_key(x.deep_view()) implies t < j by {}
                    }
                }
                j += 1;
            }
            proof {
                let keys = prev.map_values(|y: StolenPathV| dedup_key(y));
                if seen {
                    let t = choose|t: int| 0 <= t < out.len() && dedup_key(#[trigger] prev[t]) == dedup_key(x.deep_view());
                    assert(keys[t] == dedup_key(x.deep_view()));
                } else {
                    assert(!keys.contains(dedup_key(x.deep_view()))) by {
                        if keys.contains(dedup_key(x.deep_view())) {
                            let t = choose|t: int| 0 <= t < keys.len() && keys[t] == dedup_key(x.deep_view());
                            assert(dedup_key(prev[t]) == dedup_key(x.deep_view()));
                        }
                    }
                }
                let tk = s.take(i + 1);
                assert(tk.drop_last() =~= s.take(i as int));
                assert(tk.last() == x.deep_view());
            }
            if !seen {
                let c = x.clone();
                out.push(c);
                proof {
                    assert(out.deep_view() =~= prev.push(c.deep_view()));
                }
            }
            i += 1;
        }
        proof {
            assert(s.take(self.len() as int) =~= s);
        }
        out
    }

    fn unique_prefer_pub_use(self) -> (r: Vec<StolenPath>) {
        let ghost s = self.deep_view();
        let mut out: Vec<StolenPath> = Vec::new();
        let mut i: usize = 0;
        proof {
            assert(s.take(0) =~= Seq::<StolenPathV>::empty());
            assert(out.deep_view() =~= Seq::<StolenPathV>::empty());
        }
        while i < self.len()
            invariant
                i <= self.len(),
                s == self.deep_view(),
                out.deep_view() == prefer_spec(s.take(i as int)),
            decreases self.len() - i,
        {
            let ghost prev = out.deep_view();
            let x = &self[i];
            let mut p: usize = 0;
            while p < out.len() && !same_prefer_key(&out[p], x)
                invariant
                    p <= out.len(),
                    prev == out.deep_view(),
                    forall|t: int| 0 <= t < p ==> prefer_key(#[trigger] prev[t]) != prefer_key(x.deep_view()),
                decreases out.len() - p,
            {
                p += 1;
            }
            proof {
                if p < out.len() {
                    assert(prev[p as int] == out@[p as int].deep_view());
                }
                lemma_find_prefer_first(prev, prefer_key(x.deep_view()), p as int);
                let tk = s.take(i + 1);
                assert(tk.drop_last() =~= s.take(i as int));
                assert(tk.last() == x.deep_view());
            }
            if p == out.len() {
                let c = x.clone();
                out.push(c);
                proof {
                    assert(out.deep_view() =~= prev.push(c.deep_view()));
                }
            } else if x.is_public_use && !out[p].is_public_use {
                let c = x.clone();
                out.set(p, c);
                proof {
                    assert(out.deep_view() =~= prev.update(p as int, c.deep_view()));
                }
            }
            i += 1;
        }
        proof {
            assert(s.take(self.len() as int) =~= s);
        }
        out
    }

    fn group_by_origin_owned(&self) -> (r: Vec<(ImportOrigin, Vec<StolenPath>)>) {
        let origins = all_origins();
        let mut out: Vec<(ImportOrigin, Vec<StolenPath>)> = Vec::new();
        let mut k: usize = 0;
        while k < origins.len()
            invariant
                k <= origins.len(),
                forall|o: ImportOrigin| origins@.contains(o),
                forall|g: int|
                    0 <= g < out@.len() ==> (#[trigger] out@[g]).1.deep_view() == of_origin(self.deep_view(), out@[g].0) && out@[g].1@.len() > 0,
                forall|j: int|
                    0 <= j < k && of_origin(self.deep_view(), origins@[j]).len() > 0
                        ==> exists|g: int| 0 <= g < out@.len() && (#[trigger] out@[g]).0 == origins@[j],
            decreases origins.len() - k,
        {
            let o = origins[k];
            let g = with_origin(self, o);
            let ghost before = out@;
            if g.len() > 0 {
                out.push((o, g));
                proof {
                    assert(out@[before.len() as int].0 == o);
                }
            }
            proof {
                assert forall|j: int|
                    0 <= j < k + 1 && of_origin(self.deep_view(), origins@[j]).len() > 0
                        implies exists|g: int| 0 <= g < out@.len() && (#[trigger] out@[g]).0 == origins@[j] by {
                    if j < k {
                        let g0 = choose|g: int| 0 <= g < before.len() && (#[trigger] before[g]).0 == origins@[j];
                        assert(out@[g0] == before[g0]);
                    } else {
                        assert(out@[before.len() as int].0 == origins@[j]);
                    }
                }
            }
            k += 1;
        }
        proof {
            assert forall|o: ImportOrigin|
                #[trigger] of_origin(self.items(), o).len() > 0 implies exists|g: int|
                    0 <= g < out@.len() && (#[trigger] out@[g]).0 == o by {
                assert(origins@.contains(o));
                let j = choose|j: int| 0 <= j < origins@.len() && origins@[j] == o;
                assert(of_origin(self.deep_view(), origins@[j]).len() > 0);
            }
        }
        out
    }

    fn group_by_origin(&self) -> (r: Vec<(ImportOrigin, Vec<&StolenPath>)>) {
        let origins = all_origins();
        let mut out: Vec<(ImportOrigin, Vec<&StolenPath>)> = Vec::new();
        let mut k: usize = 0;
        while k < origins.len()
            invariant
                k <= origins.len(),
                forall|o: ImportOrigin| origins@.contains(o),
                forall|g: int|
                    0 <= g < out@.len() ==> (#[trigger] out@[g]).1.deep_view() == of_origin(self.deep_view(), out@[g].0) && out@[g].1@.len() > 0,
                forall|j: int|
                    0 <= j < k && of_origin(self.deep_view(), origins@[j]).len() > 0
                        ==> exists|g: int| 0 <= g < out@.len() && (#[trigger] out@[g]).0 == origins@[j],
            decreases origins.len() - k,
        {
            let o = origins[k];
            let g = with_origin_refs(self, o);
            let ghost before = out@;
            if g.len() > 0 {
                out.push((o, g));
                proof {
                    assert(out@[before.len() as int].0 == o);
                }
            }
            proof {
                assert forall|j: int|
                    0 <= j < k + 1 && of_origin(self.deep_view(), origins@[j]).len() > 0
                        implies exists|g: int| 0 <= g < out@.len() && (#[trigger] out@[g]).0 == origins@[j] by {
                    if j < k {
                        let g0 = choose|g: int| 0 <= g < before.len() && (#[trigger] before[g]).0 == origins@[j];
                        assert(out@[g0] == before[g0]);
                    } else {
                        assert(out@[before.len() as int].0 == origins@[j]);
                    }
                }
            }
            k += 1;
        }
        proof {
            assert forall|o: ImportOrigin|
                #[trigger] of_origin(self.items(), o).len() > 0 implies exists|g: int|
                    0 <= g < out@.len() && (#[trigger] out@[g]).0 == o by {
                assert(origins@.contains(o));
                let j = choose|j: int| 0 <= j < origins@.len() && origins@[j] == o;
                assert(of_origin(self.deep_view(), origins@[j]).len() > 0);
            }
        }
        out
    }

    fn group_by_root(&self) -> (r: Vec<(String, Vec<StolenPath>)>) {
        let ghost items = self.deep_view();
        let mut roots: Vec<String> = Vec::new();
        let mut n: usize = 0;
        while n < self.len()
            invariant
                n <= self.len(),
                items == self.deep_view(),
                roots.deep_view() == items.take(n as int).map_values(|i: StolenPathV| i.root),
            decreases self.len() - n,
        {
            let ghost o = roots.deep_view();
            let x = self[n].root.clone();
            roots.push(x);
            proof {
                assert(roots.deep_view() =~= o.push(x@));
                assert(items.take(n + 1) =~= items.take(n as int).push(self@[n as int].deep_view()));
                assert(items.take(n + 1).map_values(|i: StolenPathV| i.root) =~= o.push(x@));
            }
            n += 1;
        }
        proof {
            assert(items.take(self.len() as int) =~= items);
        }
        let keys = sorted_unique(&roots);
        let mut out: Vec<(String, Vec<StolenPath>)> = Vec::new();
        let mut k: usize = 0;
        while k < keys.len()
            invariant
                k <= keys.len(),
                items == self.deep_view(),
                keys.deep_view() == sorted_set(items.map_values(|i: StolenPathV| i.root)),
                out@.len() == k,
                forall|g: int|
                    0 <= g < k ==> (#[trigger] out@[g]).0@ == keys.deep_view()[g] && out@[g].1.deep_view() == of_root(
                        items,
                        out@[g].0@,
                    ),
            decreases keys.len() - k,
        {
            let key = keys[k].clone();
            let group = with_root(self, &key);
            proof {
                assert(key@ == keys.deep_view()[k as int]);
            }
            out.push((key, group));
            k += 1;
        }
        out
    }

    fn summary(&self) -> (r: ImportSummary) {
        let origins = all_origins();
        let mut by_origin: Vec<(ImportOrigin, usize)> = Vec::new();
        let mut k: usize = 0;
        while k < origins.len()
            invariant
                k <= origins.len(),
                forall|o: ImportOrigin| origins@.contains(o),
                forall|g: int|
                    0 <= g < by_origin@.len() ==> (#[trigger] by_origin@[g]).1 == of_origin(self.deep_view(), by_origin@[g].0).len() && by_origin@[g].1 > 0,
                forall|j: int|
                    0 <= j < k && of_origin(self.deep_view(), origins@[j]).len() > 0
                        ==> exists|g: int| 0 <= g < by_origin@.len() && (#[trigger] by_origin@[g]).0 == origins@[j],
            decreases origins.len() - k,
        {
            let o = origins[k];
            let g = with_origin(self, o);
            let ghost before = by_origin@;
            if g.len() > 0 {
                by_origin.push((o, g.len()));
                proof {
                    assert(by_origin@[before.len() as int].0 == o);
                }
            }
            proof {
                assert forall|j: int|
                    0 <= j < k + 1 && of_origin(self.deep_view(), origins@[j]).len() > 0
                        implies exists|g: int| 0 <= g < by_origin@.len() && (#[trigger] by_origin@[g]).0 == origins@[j] by {
                    if j < k {
                        let g0 = choose|g: int| 0 <= g < before.len() && (#[trigger] before[g]).0 == origins@[j];
                        assert(by_origin@[g0] == before[g0]);
                    } else {
                        assert(by_origin@[before.len() as int].0 == origins@[j]);
                    }
                }
            }
            k += 1;
        }
        proof {
            assert forall|o: ImportOrigin|
                #[trigger] of_origin(self.items(), o).len() > 0 implies exists|g: int|
                    0 <= g < by_origin@.len() && (#[trigger] by_origin@[g]).0 == o by {
                assert(origins@.contains(o));
                let j = choose|j: int| 0 <= j < origins@.len() && origins@[j] == o;
                assert(of_origin(self.deep_view(), origins@[j]).len() > 0);
            }
        }
        let pub_use_count = count_flag(self, 0);
        let glob_count = count_flag(self, 1);
        let rename_count = count_flag(self, 2);
        let absolute_count = count_flag(self, 3);
        let groups = self.group_by_root();
        let mut by_root: Vec<(String, usize)> = Vec::new();
        let mut q: usize = 0;
        while q < groups.len()
            invariant
                q <= groups.len(),
                by_root@.len() == q,
                forall|g: int|
                    0 <= g < q ==> (#[trigger] by_root@[g]).0@ == groups@[g].0@ && by_root@[g].1 == groups@[g].1@.len(),
            decreases groups.len() - q,
        {
            by_root.push((groups[q].0.clone(), groups[q].1.len()));
            q += 1;
        }
        proof {
            assert forall|g: int| 0 <= g < by_root@.len() implies (#[trigger] by_root@[g]).0@ == sorted_set(
                self.items().map_values(|i: StolenPathV| i.root),
            )[g] && by_root@[g].1 == of_root(self.items(), by_root@[g].0@).len() by {
                assert(groups@[g].1.deep_view().len() == groups@[g].1@.len());
            }
        }
        let ghost bo = by_origin@;
        let r = ImportSummary {
            total: self.len(),
            by_origin,
            by_root,
            pub_use_count,
            glob_count,
            rename_count,
            absolute_count,
        };
        proof {
            assert(r.by_origin@ == bo);
            assert forall|o: ImportOrigin|
                #[trigger] of_origin(self.items(), o).len() > 0 implies exists|g: int|
                    0 <= g < r.by_origin@.len() && (#[trigger] r.by_origin@[g]).0 == o by {
                let g = choose|g: int| 0 <= g < bo.len() && (#[trigger] bo[g]).0 == o;
                assert(r.by_origin@[g] == bo[g]);
            }
        }
        r
    }
}

} // verus!
