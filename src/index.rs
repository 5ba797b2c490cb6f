//! The enclosing-scope span index: the spans of every function-like
//! declaration, looked up by a raw (file, line, column) location.
use vstd::prelude::*;
use crate::extract::{enter_impl, enter_mod, enter_trait, fn_fq, fn_identity, fn_role, top_scope, Scope, ScopeV};
use crate::model::{FileLocation, FnKind, FnKindV, LocationV};
use crate::syntax::{Node, Pos, SourceUnit};

verus! {

/// The inclusive extent of one function-like declaration.
pub struct FnSpan {
    pub fq_name: String,
    pub is_public: bool,
    pub kind: FnKind,
    pub file: String,
    pub start: Option<Pos>,
    pub end: Option<Pos>,
}

pub struct FnSpanV {
    pub fq_name: Seq<char>,
    pub is_public: bool,
    pub kind: FnKindV,
    pub file: Seq<char>,
    pub start: Option<Pos>,
    pub end: Option<Pos>,
}

impl DeepView for FnSpan {
    type V = FnSpanV;

    open spec fn deep_view(&self) -> FnSpanV {
        FnSpanV {
            fq_name: self.fq_name@,
            is_public: self.is_public,
            kind: self.kind.deep_view(),
            file: self.file@,
            start: self.start,
            end: self.end,
        }
    }
}

impl Clone for FnSpan {
    fn clone(&self) -> (r: Self)
        ensures
            r.deep_view() == self.deep_view(),
    {
        FnSpan {
            fq_name: self.fq_name.clone(),
            is_public: self.is_public,
            kind: self.kind.clone(),
            file: self.file.clone(),
            start: self.start,
            end: self.end,
        }
    }
}

/// Whether (line, col) is at or after `a`.
pub open spec fn pos_le(a: Pos, line: u32, col: u32) -> bool {
    line > a.0 || (line == a.0 && col >= a.1)
}

/// Whether (line, col) is at or before `b`.
pub open spec fn pos_ge(b: Pos, line: u32, col: u32) -> bool {
    line < b.0 || (line == b.0 && col <= b.1)
}

/// A span contains a location when both carry positions, the files match,
/// and the location lies within the span's inclusive start and end.
pub open spec fn span_contains(s: FnSpanV, loc: LocationV) -> bool {
    &&& s.file == loc.0
    &&& loc.1 is Some && loc.2 is Some
    &&& s.start is Some && s.end is Some
    &&& pos_le(s.start->Some_0, loc.1->Some_0, loc.2->Some_0)
    &&& pos_ge(s.end->Some_0, loc.1->Some_0, loc.2->Some_0)
}

/// The line extent of a span: end line minus start line, or zero when the
/// end line comes first.
pub open spec fn span_extent(s: FnSpanV) -> int {
    let sl = match s.start {
        Some(p) => p.0 as int,
        None => 0,
    };
    let el = match s.end {
        Some(p) => p.0 as int,
        None => u32::MAX as int,
    };
    if el >= sl {
        el - sl
    } else {
        0
    }
}

impl FnSpan {
    pub fn contains(&self, loc: &FileLocation) -> (r: bool)
        ensures
            r == span_contains(self.deep_view(), loc.deep_view()),
    {
        if self.file != loc.path {
            return false;
        }
        let (line, col) = match (loc.line, loc.column) {
            (Some(l), Some(c)) => (l, c),
            _ => return false,
        };
        let (sl, sc) = match self.start {
            Some(x) => x,
            None => return false,
        };
        let (el, ec) = match self.end {
            Some(x) => x,
            None => return false,
        };
        (line > sl || (line == sl && col >= sc)) && (line < el || (line == el && col <= ec))
    }

    fn extent(&self) -> (r: u32)
        ensures
            r as int == span_extent(self.deep_view()),
    {
        let sl = match self.start {
            Some(p) => p.0,
            None => 0,
        };
        let el = match self.end {
            Some(p) => p.0,
            None => u32::MAX,
        };
        if el >= sl {
            el - sl
        } else {
            0
        }
    }
}

/// The spans of a node visited in scope `c`: each function-like node adds
/// its own span, then those inside its body, in traversal order.
pub open spec fn spans_node(crate_id: Seq<char>, file: Seq<char>, c: ScopeV, n: Node) -> Seq<FnSpanV>
    decreases n,
{
    match n {
        Node::Mod { name, items } => spans_nodes(crate_id, file, enter_mod(c, name@), items@),
        Node::Impl { self_ty, trait_path, items } => spans_nodes(
            crate_id,
            file,
            enter_impl(c, self_ty@, trait_path.deep_view()),
            items@,
        ),
        Node::Trait { name, items } => spans_nodes(crate_id, file, enter_trait(c, name@), items@),
        Node::Fn { decl, body } => seq![span_of(crate_id, file, c, n)] + spans_nodes(crate_id, file, c, body@),
        Node::ImplFn { decl, body } => seq![span_of(crate_id, file, c, n)] + spans_nodes(crate_id, file, c, body@),
        Node::TraitFn { decl, body } => seq![span_of(crate_id, file, c, n)] + spans_nodes(crate_id, file, c, body@),
        _ => Seq::empty(),
    }
}

pub open spec fn spans_nodes(crate_id: Seq<char>, file: Seq<char>, c: ScopeV, s: Seq<Node>) -> Seq<FnSpanV>
    decreases s,
{
    if s.len() == 0 {
        Seq::empty()
    } else {
        spans_nodes(crate_id, file, c, s.drop_last()) + spans_node(crate_id, file, c, s.last())
    }
}

pub open spec fn span_of(crate_id: Seq<char>, file: Seq<char>, c: ScopeV, n: Node) -> FnSpanV {
    FnSpanV {
        fq_name: fn_fq(crate_id, c, n),
        is_public: fn_role(c, n).1,
        kind: fn_role(c, n).0,
        file,
        start: crate::extract::fn_decl_of(n).start,
        end: crate::extract::fn_decl_of(n).end,
    }
}

fn push_span(crate_name: &str, file: &str, c: &Scope, n: &Node, out: &mut Vec<FnSpan>)
    requires
        crate::extract::is_fn_node(*n),
    ensures
        final(out).deep_view() == old(out).deep_view().push(span_of(crate_name@, file@, c.deep_view(), *n)),
{
    let (kind, is_public, fq_name) = fn_identity(crate_name, c, n);
    let (start, end) = match n {
        Node::Fn { decl, .. } => (decl.start, decl.end),
        Node::ImplFn { decl, .. } => (decl.start, decl.end),
        Node::TraitFn { decl, .. } => (decl.start, decl.end),
        _ => (None, None),
    };
    let s = FnSpan { fq_name, is_public, kind, file: String::from_str(file), start, end };
    out.push(s);
    proof {
        assert(out.deep_view() =~= old(out).deep_view().push(s.deep_view()));
    }
}

fn walk_span_node(crate_name: &str, file: &str, c: &Scope, n: &Node, out: &mut Vec<FnSpan>)
    ensures
        final(out).deep_view() == old(out).deep_view() + spans_node(crate_name@, file@, c.deep_view(), *n),
    decreases n,
{
    let ghost before = out.deep_view();
    match n {
        Node::Mod { name, items } => {
            let inner = c.with_mod(name);
            walk_span_nodes(crate_name, file, &inner, items, out);
        },
        Node::Impl { self_ty, trait_path, items } => {
            let inner = c.with_impl(self_ty, trait_path);
            walk_span_nodes(crate_name, file, &inner, items, out);
        },
        Node::Trait { name, items } => {
            let inner = c.with_trait(name);
            walk_span_nodes(crate_name, file, &inner, items, out);
        },
        Node::Fn { body, .. } => {
            push_span(crate_name, file, c, n, out);
            walk_span_nodes(crate_name, file, c, body, out);
            proof {
                assert(out.deep_view() =~= before + spans_node(crate_name@, file@, c.deep_view(), *n));
            }
        },
        Node::ImplFn { body, .. } => {
            push_span(crate_name, file, c, n, out);
            walk_span_nodes(crate_name, file, c, body, out);
            proof {
                assert(out.deep_view() =~= before + spans_node(crate_name@, file@, c.deep_view(), *n));
            }
        },
        Node::TraitFn { body, .. } => {
            push_span(crate_name, file, c, n, out);
            walk_span_nodes(crate_name, file, c, body, out);
            proof {
                assert(out.deep_view() =~= before + spans_node(crate_name@, file@, c.deep_view(), *n));
            }
        },
        _ => {
            proof {
                assert(out.deep_view() =~= before + Seq::<FnSpanV>::empty());
            }
        },
    }
}

fn walk_span_nodes(crate_name: &str, file: &str, c: &Scope, nodes: &Vec<Node>, out: &mut Vec<FnSpan>)
    ensures
        final(out).deep_view() == old(out).deep_view() + spans_nodes(crate_name@, file@, c.deep_view(), nodes@),
    decreases nodes,
{
    let ghost before = out.deep_view();
    let mut i: usize = 0;
    proof {
        assert(nodes@.take(0) =~= Seq::<Node>::empty());
        assert(before + Seq::<FnSpanV>::empty() =~= before);
    }
    while i < nodes.len()
        invariant
            i <= nodes.len(),
            out.deep_view() == before + spans_nodes(crate_name@, file@, c.deep_view(), nodes@.take(i as int)),
        decreases nodes.len() - i,
    {
        walk_span_node(crate_name, file, c, &nodes[i], out);
        proof {
            let s = nodes@.take(i + 1);
            assert(s.drop_last() =~= nodes@.take(i as int));
            assert(s.last() == nodes@[i as int]);
            assert(out.deep_view() =~= before + spans_nodes(crate_name@, file@, c.deep_view(), s));
        }
        i += 1;
    }
    proof {
        assert(nodes@.take(nodes.len() as int) =~= nodes@);
    }
}

/// The sort key of a span: its start line, 0 when it has none.
pub open spec fn start_line(s: FnSpanV) -> int {
    match s.start {
        Some(p) => p.0 as int,
        None => 0,
    }
}

/// Inserts `x` after every leading span whose start line is not after its
/// own (a stable insertion).
pub open spec fn insert_by_start(s: Seq<FnSpanV>, x: FnSpanV) -> Seq<FnSpanV>
    decreases s.len(),
{
    if s.len() == 0 {
        seq![x]
    } else if start_line(s[0]) <= start_line(x) {
        seq![s[0]] + insert_by_start(s.drop_first(), x)
    } else {
        seq![x] + s
    }
}

/// `s` stably sorted by start line.
pub open spec fn sort_by_start(s: Seq<FnSpanV>) -> Seq<FnSpanV>
    decreases s.len(),
{
    if s.len() == 0 {
        Seq::empty()
    } else {
        insert_by_start(sort_by_start(s.drop_last()), s.last())
    }
}

proof fn lemma_insert_at(s: Seq<FnSpanV>, x: FnSpanV, p: int)
    requires
        0 <= p <= s.len(),
        forall|j: int| 0 <= j < p ==> start_line(#[trigger] s[j]) <= start_line(x),
        p < s.len() ==> start_line(s[p]) > start_line(x),
    ensures
        insert_by_start(s, x) == s.take(p) + seq![x] + s.skip(p),
    decreases p,
{
    if p == 0 {
        assert(s.take(0) + seq![x] + s.skip(0) =~= seq![x] + s);
    } else {
        let t = s.drop_first();
        assert(start_line(s[0]) <= start_line(x));
        assert forall|j: int| 0 <= j < p - 1 implies start_line(#[trigger] t[j]) <= start_line(x) by {
            assert(t[j] == s[j + 1]);
        }
        lemma_insert_at(t, x, p - 1);
        assert(seq![s[0]] + (t.take(p - 1) + seq![x] + t.skip(p - 1)) =~= s.take(p) + seq![x] + s.skip(p));
    }
}

fn span_start_line(s: &FnSpan) -> (r: u32)
    ensures
        r as int == start_line(s.deep_view()),
{
    match s.start {
        Some(p) => p.0,
        None => 0,
    }
}

/// Stably sorts spans by start line.
fn sort_spans(v: Vec<FnSpan>) -> (r: Vec<FnSpan>)
    ensures
        r.deep_view() == sort_by_start(v.deep_view()),
{
    let ghost all = v.deep_view();
    let mut out: Vec<FnSpan> = Vec::new();
    let mut i: usize = 0;
    proof {
        assert(out.deep_view() =~= Seq::<FnSpanV>::empty());
        assert(all.take(0) =~= Seq::<FnSpanV>::empty());
    }
    while i < v.len()
        invariant
            i <= v.len(),
            all == v.deep_view(),
            out.deep_view() == sort_by_start(all.take(i as int)),
        decreases v.len() - i,
    {
        let x = v[i].clone();
        let key = span_start_line(&x);
        let ghost s = out.deep_view();
        let mut p: usize = 0;
        while p < out.len() && span_start_line(&out[p]) <= key
            invariant
                p <= out.len(),
                s == out.deep_view(),
                key as int == start_line(x.deep_view()),
                forall|j: int| 0 <= j < p ==> start_line(#[trigger] s[j]) <= start_line(x.deep_view()),
            decreases out.len() - p,
        {
            proof {
                assert(s[p as int] == out@[p as int].deep_view());
            }
            p += 1;
        }
        proof {
            if p < out.len() {
                assert(s[p as int] == out@[p as int].deep_view());
            }
            lemma_insert_at(s, x.deep_view(), p as int);
            let t = all.take(i + 1);
            assert(t.drop_last() =~= all.take(i as int));
            assert(t.last() == v@[i as int].deep_view());
        }
        let ghost xv = x.deep_view();
        out.insert(p, x);
        proof {
            assert(out.deep_view() =~= s.take(p as int) + seq![xv] + s.skip(p as int));
        }
        i += 1;
    }
    proof {
        assert(all.take(v.len() as int) =~= all);
    }
    out
}

/// Function spans of one or more units, in insertion order.
pub struct EnclosingIndex {
    pub spans: Vec<FnSpan>,
}

/// Whether `i` is the answer of a lookup: its span contains `loc`, no
/// containing span has a smaller extent, and none before it an equal one.
pub open spec fn is_best_match(spans: Seq<FnSpanV>, loc: LocationV, i: int) -> bool {
    &&& 0 <= i < spans.len()
    &&& span_contains(spans[i], loc)
    &&& forall|j: int|
        0 <= j < spans.len() && span_contains(spans[j], loc) ==> span_extent(spans[i]) <= span_extent(
            spans[j],
        )
    &&& forall|j: int| 0 <= j < i && span_contains(spans[j], loc) ==> span_extent(spans[i]) < span_extent(spans[j])
}

impl EnclosingIndex {
    pub open spec fn view_spans(&self) -> Seq<FnSpanV> {
        self.spans.deep_view()
    }

    pub fn new() -> (r: EnclosingIndex)
        ensures
            r.view_spans() == Seq::<FnSpanV>::empty(),
    {
        let r = EnclosingIndex { spans: Vec::new() };
        proof {
            assert(r.view_spans() =~= Seq::<FnSpanV>::empty());
        }
        r
    }

    /// The index of one unit: its spans in traversal order, then stably
    /// sorted by start line.
    pub fn build(crate_name: &str, unit: &SourceUnit) -> (r: EnclosingIndex)
        ensures
            r.view_spans() == sort_by_start(spans_nodes(crate_name@, unit.path@, top_scope(), unit.items@)),
    {
        let mut out: Vec<FnSpan> = Vec::new();
        let c = Scope::top();
        walk_span_nodes(crate_name, unit.path.as_str(), &c, &unit.items, &mut out);
        proof {
            assert(out.deep_view() =~= spans_nodes(crate_name@, unit.path@, top_scope(), unit.items@));
        }
        EnclosingIndex { spans: sort_spans(out) }
    }

    /// Appends the spans of `other` after those of `self`.
    pub fn merge(self, other: EnclosingIndex) -> (r: EnclosingIndex)
        ensures
            r.view_spans() == self.view_spans() + other.view_spans(),
    {
        let mut spans = self.spans;
        let mut more = other.spans;
        let ghost a = spans.deep_view();
        let ghost b = more.deep_view();
        spans.append(&mut more);
        proof {
            assert(spans.deep_view() =~= a + b);
        }
        EnclosingIndex { spans }
    }

    /// The containing span with the smallest line extent; among equal
    /// extents, the first in insertion order.
    pub fn enclosing(&self, loc: &FileLocation) -> (r: Option<&FnSpan>)
        ensures
            r is None <==> forall|j: int|
                0 <= j < self.view_spans().len() ==> !span_contains(self.view_spans()[j], loc.deep_view()),
            r is Some ==> exists|i: int|
                is_best_match(self.view_spans(), loc.deep_view(), i) && r->Some_0 == &self.spans@[i],
    {
        let ghost v = self.view_spans();
        let mut best: Option<usize> = None;
        let mut best_ext: u32 = 0;
        let mut i: usize = 0;
        while i < self.spans.len()
            invariant
                i <= self.spans.len(),
                v == self.view_spans(),
                best is None ==> forall|j: int| 0 <= j < i ==> !span_contains(v[j], loc.deep_view()),
                best is Some ==> {
                    let b = best->Some_0 as int;
                    &&& b < i
                    &&& span_contains(v[b], loc.deep_view())
                    &&& best_ext as int == span_extent(v[b])
                    &&& forall|j: int|
                        0 <= j < i && span_contains(v[j], loc.deep_view()) ==> span_extent(v[b]) <= span_extent(
                            v[j],
                        )
                    &&& forall|j: int|
                        0 <= j < b && span_contains(v[j], loc.deep_view()) ==> span_extent(v[b]) < span_extent(
                            v[j],
                        )
                },
            decreases self.spans.len() - i,
        {
            let s = &self.spans[i];
            proof {
                assert(s.deep_view() == v[i as int]);
            }
            if s.contains(loc) {
                let e = s.extent();
                match best {
                    None => {
                        best = Some(i);
                        best_ext = e;
                    },
                    Some(_) => {
                        if e < best_ext {
                            best = Some(i);
                            best_ext = e;
                        }
                    },
                }
            }
            i += 1;
        }
        match best {
            Some(b) => Some(&self.spans[b]),
            None => None,
        }
    }
}

} // verus!
