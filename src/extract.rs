//! The fact extractor: walks one source unit, tracking the enclosing module
//! path, type or trait block and function, and emits the facts.
use vstd::prelude::*;
use vstd::string::*;
use crate::model::{
    clone_opt_string, clone_strings, CallOccurrence, CallOccurrenceV, CapturedFn, CapturedFnV,
    ExportedSymbol, ExportedSymbolV, FileLocation, FnKind, FnKindV, LocationV, MacroDef, MacroDefV,
    MacroInvocation, MacroInvocationV, PathOccurrence, PathOccurrenceV, StolenPath, StolenPathV,
    UseKind, UseKindV,
};
use crate::syntax::{FnDecl, Node, Pos, SourceUnit, UseTree};

verus! {

// ---------------------------------------------------------------------
// Text helpers
// ---------------------------------------------------------------------

/// `parts` joined with `sep` between consecutive parts.
pub open spec fn join_spec(parts: Seq<Seq<char>>, sep: Seq<char>) -> Seq<char>
    decreases parts.len(),
{
    if parts.len() == 0 {
        Seq::empty()
    } else if parts.len() == 1 {
        parts[0]
    } else {
        join_spec(parts.drop_last(), sep) + sep + parts.last()
    }
}

pub open spec fn colons() -> Seq<char> {
    seq![':', ':']
}

/// Joins `parts` with `::`.
pub fn join_path(parts: &Vec<String>) -> (r: String)
    ensures
        r@ == join_spec(parts.deep_view(), colons()),
{
    let mut r = String::new();
    let mut i: usize = 0;
    while i < parts.len()
        invariant
            i <= parts.len(),
            r@ == join_spec(parts.deep_view().take(i as int), colons()),
        decreases parts.len() - i,
    {
        proof {
            reveal_strlit("::");
            assert(parts.deep_view().take(i + 1).drop_last() =~= parts.deep_view().take(i as int));
        }
        if i > 0 {
            r.append("::");
        }
        r.append(parts[i].as_str());
        i += 1;
    }
    proof {
        assert(parts.deep_view().take(parts.len() as int) =~= parts.deep_view());
    }
    r
}

pub open spec fn loc_spec(file: Seq<char>, p: Option<Pos>) -> LocationV {
    match p {
        Some(q) => (file, Some(q.0), Some(q.1)),
        None => (file, None, None),
    }
}

pub fn location_of(file: &str, p: Option<Pos>) -> (r: FileLocation)
    ensures
        r.deep_view() == loc_spec(file@, p),
{
    match p {
        Some(q) => FileLocation { path: String::from_str(file), line: Some(q.0), column: Some(q.1) },
        None => FileLocation { path: String::from_str(file), line: None, column: None },
    }
}

// ---------------------------------------------------------------------
// Scope tracking and fully qualified names
// ---------------------------------------------------------------------

/// The lexical context at one point of the walk.
pub struct Scope {
    pub mods: Vec<String>,
    pub impl_self: Option<String>,
    pub impl_trait: Option<String>,
    pub in_trait: Option<String>,
    pub current_fn: Option<String>,
    pub current_public: Option<bool>,
}

pub struct ScopeV {
    pub mods: Seq<Seq<char>>,
    pub impl_self: Option<Seq<char>>,
    pub impl_trait: Option<Seq<char>>,
    pub in_trait: Option<Seq<char>>,
    pub current_fn: Option<Seq<char>>,
    pub current_public: Option<bool>,
}

impl DeepView for Scope {
    type V = ScopeV;

    open spec fn deep_view(&self) -> ScopeV {
        ScopeV {
            mods: self.mods.deep_view(),
            impl_self: self.impl_self.deep_view(),
            impl_trait: self.impl_trait.deep_view(),
            in_trait: self.in_trait.deep_view(),
            current_fn: self.current_fn.deep_view(),
            current_public: self.current_public,
        }
    }
}

/// The scope at the top of a unit: no module, block or function.
pub open spec fn top_scope() -> ScopeV {
    ScopeV {
        mods: Seq::empty(),
        impl_self: None,
        impl_trait: None,
        in_trait: None,
        current_fn: None,
        current_public: None,
    }
}

impl Scope {
    pub fn top() -> (r: Scope)
        ensures
            r.deep_view() == top_scope(),
    {
        let r = Scope {
            mods: Vec::new(),
            impl_self: None,
            impl_trait: None,
            in_trait: None,
            current_fn: None,
            current_public: None,
        };
        proof {
            assert(r.mods.deep_view() =~= Seq::<Seq<char>>::empty());
        }
        r
    }

    fn copy(&self) -> (r: Scope)
        ensures
            r.deep_view() == self.deep_view(),
    {
        Scope {
            mods: clone_strings(&self.mods),
            impl_self: clone_opt_string(&self.impl_self),
            impl_trait: clone_opt_string(&self.impl_trait),
            in_trait: clone_opt_string(&self.in_trait),
            current_fn: clone_opt_string(&self.current_fn),
            current_public: self.current_public,
        }
    }
}

pub open spec fn enter_mod(c: ScopeV, name: Seq<char>) -> ScopeV {
    ScopeV { mods: c.mods.push(name), ..c }
}

pub open spec fn enter_impl(c: ScopeV, self_ty: Seq<char>, tr: Option<Seq<char>>) -> ScopeV {
    ScopeV { impl_self: Some(self_ty), impl_trait: tr, ..c }
}

pub open spec fn enter_trait(c: ScopeV, name: Seq<char>) -> ScopeV {
    ScopeV { in_trait: Some(name), ..c }
}

pub open spec fn enter_fn(c: ScopeV, fq: Seq<char>, public: bool) -> ScopeV {
    ScopeV { current_fn: Some(fq), current_public: Some(public), ..c }
}

/// The segments of a fully qualified name: crate id, module path, the
/// trait or self-type qualifier if any, then the name.
pub open spec fn fq_parts(crate_id: Seq<char>, mods: Seq<Seq<char>>, kind: FnKindV, name: Seq<char>) -> Seq<Seq<char>> {
    match kind {
        FnKindV::FreeFn => seq![crate_id] + mods + seq![name],
        FnKindV::ImplMethod { self_ty, .. } => seq![crate_id] + mods + seq![self_ty, name],
        FnKindV::TraitMethod { trait_name } => seq![crate_id] + mods + seq![trait_name, name],
    }
}

pub open spec fn fq_spec(crate_id: Seq<char>, mods: Seq<Seq<char>>, kind: FnKindV, name: Seq<char>) -> Seq<char> {
    join_spec(fq_parts(crate_id, mods, kind, name), colons())
}

/// Composes the fully qualified name of a function-like declaration.
pub fn fq_name(crate_name: &str, mod_path: &Vec<String>, kind: &FnKind, name: &str) -> (r: String)
    ensures
        r@ == fq_spec(crate_name@, mod_path.deep_view(), kind.deep_view(), name@),
{
    let mut parts: Vec<String> = Vec::new();
    parts.push(String::from_str(crate_name));
    let mut i: usize = 0;
    while i < mod_path.len()
        invariant
            i <= mod_path.len(),
            parts.len() == i + 1,
            parts@[0]@ == crate_name@,
            forall|j: int| 0 <= j < i ==> parts@[j + 1]@ == mod_path@[j]@,
        decreases mod_path.len() - i,
    {
        parts.push(mod_path[i].clone());
        i += 1;
    }
    match kind {
        FnKind::FreeFn => {},
        FnKind::ImplMethod { self_ty, .. } => parts.push(self_ty.clone()),
        FnKind::TraitMethod { trait_name } => parts.push(trait_name.clone()),
    }
    parts.push(String::from_str(name));
    proof {
        assert(parts.deep_view() =~= fq_parts(crate_name@, mod_path.deep_view(), kind.deep_view(), name@));
    }
    join_path(&parts)
}

/// The kind and visibility a function-like node takes in scope `c`: a free
/// function inside a trait block counts as a trait method; an impl method
/// without a known block is qualified `<impl>`, a trait method `<trait>`.
/// Trait methods are always public.
pub open spec fn fn_role(c: ScopeV, n: Node) -> (FnKindV, bool) {
    match n {
        Node::Fn { decl, .. } => match c.in_trait {
            Some(tr) => (FnKindV::TraitMethod { trait_name: tr }, true),
            None => (FnKindV::FreeFn, decl.vis_public),
        },
        Node::ImplFn { decl, .. } => (
            FnKindV::ImplMethod {
                self_ty: match c.impl_self {
                    Some(t) => t,
                    None => "<impl>"@,
                },
                trait_ty: c.impl_trait,
            },
            decl.vis_public,
        ),
        Node::TraitFn { .. } => (
            FnKindV::TraitMethod {
                trait_name: match c.in_trait {
                    Some(t) => t,
                    None => "<trait>"@,
                },
            },
            true,
        ),
        _ => (FnKindV::FreeFn, false),
    }
}

pub open spec fn is_fn_node(n: Node) -> bool {
    n is Fn || n is ImplFn || n is TraitFn
}

pub open spec fn fn_decl_of(n: Node) -> FnDecl {
    match n {
        Node::Fn { decl, .. } => decl,
        Node::ImplFn { decl, .. } => decl,
        Node::TraitFn { decl, .. } => decl,
        _ => arbitrary(),
    }
}

/// The fully qualified name a function-like node takes in scope `c`.
pub open spec fn fn_fq(crate_id: Seq<char>, c: ScopeV, n: Node) -> Seq<char> {
    fq_spec(crate_id, c.mods, fn_role(c, n).0, fn_decl_of(n).name@)
}

/// Computes `fn_role` and `fn_fq` for a function-like node.
pub fn fn_identity(crate_name: &str, c: &Scope, n: &Node) -> (r: (FnKind, bool, String))
    requires
        is_fn_node(*n),
    ensures
        r.0.deep_view() == fn_role(c.deep_view(), *n).0,
        r.1 == fn_role(c.deep_view(), *n).1,
        r.2@ == fn_fq(crate_name@, c.deep_view(), *n),
{
    match n {
        Node::Fn { decl, .. } => {
            let kind = match &c.in_trait {
                Some(tr) => FnKind::TraitMethod { trait_name: tr.clone() },
                None => FnKind::FreeFn,
            };
            let public = c.in_trait.is_some() || decl.vis_public;
            let fq = fq_name(crate_name, &c.mods, &kind, decl.name.as_str());
            (kind, public, fq)
        },
        Node::ImplFn { decl, .. } => {
            let self_ty = match &c.impl_self {
                Some(t) => t.clone(),
                None => String::from_str("<impl>"),
            };
            let kind = FnKind::ImplMethod { self_ty, trait_ty: clone_opt_string(&c.impl_trait) };
            let fq = fq_name(crate_name, &c.mods, &kind, decl.name.as_str());
            (kind, decl.vis_public, fq)
        },
        Node::TraitFn { decl, .. } => {
            let tr = match &c.in_trait {
                Some(t) => t.clone(),
                None => String::from_str("<trait>"),
            };
            let kind = FnKind::TraitMethod { trait_name: tr };
            let fq = fq_name(crate_name, &c.mods, &kind, decl.name.as_str());
            (kind, true, fq)
        },
        _ => {
            proof {
                assert(false);
            }
            (FnKind::FreeFn, false, String::new())
        },
    }
}


// ---------------------------------------------------------------------
// Occurrences: macro definitions and invocations, paths, calls
// ---------------------------------------------------------------------

/// The four occurrence sequences of a walk.
pub struct Occurrences {
    pub macros_def: Vec<MacroDef>,
    pub macros_inv: Vec<MacroInvocation>,
    pub paths: Vec<PathOccurrence>,
    pub calls: Vec<CallOccurrence>,
}

pub struct OccV {
    pub defs: Seq<MacroDefV>,
    pub invs: Seq<MacroInvocationV>,
    pub paths: Seq<PathOccurrenceV>,
    pub calls: Seq<CallOccurrenceV>,
}

impl DeepView for Occurrences {
    type V = OccV;

    open spec fn deep_view(&self) -> OccV {
        OccV {
            defs: self.macros_def.deep_view(),
            invs: self.macros_inv.deep_view(),
            paths: self.paths.deep_view(),
            calls: self.calls.deep_view(),
        }
    }
}

pub open spec fn occ_empty() -> OccV {
    OccV { defs: Seq::empty(), invs: Seq::empty(), paths: Seq::empty(), calls: Seq::empty() }
}

pub open spec fn occ_cat(a: OccV, b: OccV) -> OccV {
    OccV { defs: a.defs + b.defs, invs: a.invs + b.invs, paths: a.paths + b.paths, calls: a.calls + b.calls }
}

pub proof fn lemma_occ_cat_assoc(a: OccV, b: OccV, c: OccV)
    ensures
        occ_cat(occ_cat(a, b), c) == occ_cat(a, occ_cat(b, c)),
        occ_cat(a, occ_empty()) == a,
{
    assert(occ_cat(occ_cat(a, b), c).defs =~= occ_cat(a, occ_cat(b, c)).defs);
    assert(occ_cat(occ_cat(a, b), c).invs =~= occ_cat(a, occ_cat(b, c)).invs);
    assert(occ_cat(occ_cat(a, b), c).paths =~= occ_cat(a, occ_cat(b, c)).paths);
    assert(occ_cat(occ_cat(a, b), c).calls =~= occ_cat(a, occ_cat(b, c)).calls);
    assert(occ_cat(a, occ_empty()).defs =~= a.defs);
    assert(occ_cat(a, occ_empty()).invs =~= a.invs);
    assert(occ_cat(a, occ_empty()).paths =~= a.paths);
    assert(occ_cat(a, occ_empty()).calls =~= a.calls);
}

/// The noise filter on path references: multi-segment paths, and the
/// single-segment roots `std`, `core`, `alloc`, `crate`, `self`, `super`.
pub open spec fn kept_path(segs: Seq<Seq<char>>) -> bool {
    segs.len() >= 2 || (segs.len() == 1 && (segs[0] == "std"@ || segs[0] == "core"@ || segs[0]
        == "alloc"@ || segs[0] == "crate"@ || segs[0] == "self"@ || segs[0] == "super"@))
}

/// Whether a macro node is a `macro_rules!` definition.
pub open spec fn is_macro_rules(in_item_position: bool, path: Seq<Seq<char>>) -> bool {
    in_item_position && path.len() == 1 && path[0] == "macro_rules"@
}

/// The facts of one node visited in scope `c`.
pub open spec fn occ_node(crate_id: Seq<char>, file: Seq<char>, c: ScopeV, n: Node) -> OccV
    decreases n,
{
    match n {
        Node::Mod { name, items } => occ_nodes(crate_id, file, enter_mod(c, name@), items@),
        Node::Impl { self_ty, trait_path, items } => occ_nodes(
            crate_id,
            file,
            enter_impl(c, self_ty@, trait_path.deep_view()),
            items@,
        ),
        Node::Trait { name, items } => occ_nodes(crate_id, file, enter_trait(c, name@), items@),
        Node::Fn { body, .. } => occ_nodes(
            crate_id,
            file,
            enter_fn(c, fn_fq(crate_id, c, n), fn_role(c, n).1),
            body@,
        ),
        Node::ImplFn { body, .. } => occ_nodes(
            crate_id,
            file,
            enter_fn(c, fn_fq(crate_id, c, n), fn_role(c, n).1),
            body@,
        ),
        Node::TraitFn { body, .. } => occ_nodes(
            crate_id,
            file,
            enter_fn(c, fn_fq(crate_id, c, n), fn_role(c, n).1),
            body@,
        ),
        Node::Macro { ident, path, start, in_item_position } => {
            if is_macro_rules(in_item_position, path.deep_view()) {
                OccV {
                    defs: seq![
                        MacroDefV {
                            name: match ident {
                                Some(i) => i@,
                                None => "<macro>"@,
                            },
                            mod_path: c.mods,
                            location: loc_spec(file, start),
                        },
                    ],
                    ..occ_empty()
                }
            } else {
                OccV {
                    invs: seq![
                        MacroInvocationV {
                            name: if path@.len() > 0 {
                                path@.last()@
                            } else {
                                "<macro>"@
                            },
                            mod_path: c.mods,
                            path: if path@.len() > 0 {
                                Some(join_spec(path.deep_view(), colons()))
                            } else {
                                None
                            },
                            location: loc_spec(file, start),
                            enclosing_fn: c.current_fn,
                            enclosing_public: c.current_public,
                        },
                    ],
                    ..occ_empty()
                }
            }
        },
        Node::PathRef { segments, start } => {
            if kept_path(segments.deep_view()) {
                OccV {
                    paths: seq![
                        PathOccurrenceV {
                            path: join_spec(segments.deep_view(), colons()),
                            mod_path: c.mods,
                            location: loc_spec(file, start),
                            enclosing_fn: c.current_fn,
                            enclosing_public: c.current_public,
                        },
                    ],
                    ..occ_empty()
                }
            } else {
                occ_empty()
            }
        },
        Node::MethodCall { method, start } => OccV {
            calls: seq![
                CallOccurrenceV {
                    callee: method@,
                    mod_path: c.mods,
                    location: loc_spec(file, start),
                    enclosing_fn: c.current_fn,
                    enclosing_public: c.current_public,
                },
            ],
            ..occ_empty()
        },
        Node::Call { callee, start } => OccV {
            calls: seq![
                CallOccurrenceV {
                    callee: callee@,
                    mod_path: c.mods,
                    location: loc_spec(file, start),
                    enclosing_fn: c.current_fn,
                    enclosing_public: c.current_public,
                },
            ],
            ..occ_empty()
        },
        Node::Use { .. } => occ_empty(),
    }
}

/// The facts of a node sequence visited in scope `c`, in order.
pub open spec fn occ_nodes(crate_id: Seq<char>, file: Seq<char>, c: ScopeV, s: Seq<Node>) -> OccV
    decreases s,
{
    if s.len() == 0 {
        occ_empty()
    } else {
        occ_cat(occ_nodes(crate_id, file, c, s.drop_last()), occ_node(crate_id, file, c, s.last()))
    }
}


impl Scope {
    pub(crate) fn with_mod(&self, name: &String) -> (r: Scope)
        ensures
            r.deep_view() == enter_mod(self.deep_view(), name@),
    {
        let mut r = self.copy();
        r.mods.push(name.clone());
        proof {
            assert(r.mods.deep_view() =~= self.mods.deep_view().push(name@));
        }
        r
    }

    pub(crate) fn with_impl(&self, self_ty: &String, tr: &Option<String>) -> (r: Scope)
        ensures
            r.deep_view() == enter_impl(self.deep_view(), self_ty@, tr.deep_view()),
    {
        let mut r = self.copy();
        r.impl_self = Some(self_ty.clone());
        r.impl_trait = clone_opt_string(tr);
        r
    }

    pub(crate) fn with_trait(&self, name: &String) -> (r: Scope)
        ensures
            r.deep_view() == enter_trait(self.deep_view(), name@),
    {
        let mut r = self.copy();
        r.in_trait = Some(name.clone());
        r
    }

    fn with_fn(&self, fq: String, public: bool) -> (r: Scope)
        ensures
            r.deep_view() == enter_fn(self.deep_view(), fq@, public),
    {
        let mut r = self.copy();
        r.current_fn = Some(fq);
        r.current_public = Some(public);
        r
    }
}

impl Occurrences {
    pub fn new() -> (r: Occurrences)
        ensures
            r.deep_view() == occ_empty(),
    {
        let r = Occurrences { macros_def: Vec::new(), macros_inv: Vec::new(), paths: Vec::new(), calls: Vec::new() };
        proof {
            assert(r.deep_view().defs =~= Seq::<MacroDefV>::empty());
            assert(r.deep_view().invs =~= Seq::<MacroInvocationV>::empty());
            assert(r.deep_view().paths =~= Seq::<PathOccurrenceV>::empty());
            assert(r.deep_view().calls =~= Seq::<CallOccurrenceV>::empty());
        }
        r
    }
}

fn walk_occ_node(crate_name: &str, file: &str, c: &Scope, n: &Node, out: &mut Occurrences)
    ensures
        final(out).deep_view() == occ_cat(
            old(out).deep_view(),
            occ_node(crate_name@, file@, c.deep_view(), *n),
        ),
    decreases n,
{
    let ghost before = out.deep_view();
    proof {
        reveal_strlit("<macro>");
        reveal_strlit("macro_rules");
        reveal_strlit("std");
        reveal_strlit("core");
        reveal_strlit("alloc");
        reveal_strlit("crate");
        reveal_strlit("self");
        reveal_strlit("super");
    }
    match n {
        Node::Mod { name, items } => {
            let inner = c.with_mod(name);
            walk_occ_nodes(crate_name, file, &inner, items, out);
        },
        Node::Impl { self_ty, trait_path, items } => {
            let inner = c.with_impl(self_ty, trait_path);
            walk_occ_nodes(crate_name, file, &inner, items, out);
        },
        Node::Trait { name, items } => {
            let inner = c.with_trait(name);
            walk_occ_nodes(crate_name, file, &inner, items, out);
        },
        Node::Fn { body, .. } => {
            let (_, public, fq) = fn_identity(crate_name, c, n);
            let inner = c.with_fn(fq, public);
            walk_occ_nodes(crate_name, file, &inner, body, out);
        },
        Node::ImplFn { body, .. } => {
            let (_, public, fq) = fn_identity(crate_name, c, n);
            let inner = c.with_fn(fq, public);
            walk_occ_nodes(crate_name, file, &inner, body, out);
        },
        Node::TraitFn { body, .. } => {
            let (_, public, fq) = fn_identity(crate_name, c, n);
            let inner = c.with_fn(fq, public);
            walk_occ_nodes(crate_name, file, &inner, body, out);
        },
        Node::Macro { ident, path, start, in_item_position } => {
            let macro_rules = String::from_str("macro_rules");
            if *in_item_position && path.len() == 1 && path[0] == macro_rules {
                let name = match ident {
                    Some(i) => i.clone(),
                    None => String::from_str("<macro>"),
                };
                let d = MacroDef { name, mod_path: clone_strings(&c.mods), location: location_of(file, *start) };
                out.macros_def.push(d);
                proof {
                    assert(out.deep_view().defs =~= before.defs + seq![d.deep_view()]);
                    assert(out.deep_view().invs =~= before.invs + Seq::empty());
                    assert(out.deep_view().paths =~= before.paths + Seq::empty());
                    assert(out.deep_view().calls =~= before.calls + Seq::empty());
                }
            } else {
                let (name, full) = if path.len() > 0 {
                    (path[path.len() - 1].clone(), Some(join_path(path)))
                } else {
                    (String::from_str("<macro>"), None)
                };
                let m = MacroInvocation {
                    name,
                    mod_path: clone_strings(&c.mods),
                    path: full,
                    location: location_of(file, *start),
                    enclosing_fn: clone_opt_string(&c.current_fn),
                    enclosing_public: c.current_public,
                };
                out.macros_inv.push(m);
                proof {
                    assert(out.deep_view().defs =~= before.defs + Seq::empty());
                    assert(out.deep_view().invs =~= before.invs + seq![m.deep_view()]);
                    assert(out.deep_view().paths =~= before.paths + Seq::empty());
                    assert(out.deep_view().calls =~= before.calls + Seq::empty());
                }
            }
        },
        Node::PathRef { segments, start } => {
            if keep_path(segments) {
                let p = PathOccurrence {
                    path: join_path(segments),
                    mod_path: clone_strings(&c.mods),
                    location: location_of(file, *start),
                    enclosing_fn: clone_opt_string(&c.current_fn),
                    enclosing_public: c.current_public,
                };
                out.paths.push(p);
                proof {
                    assert(out.deep_view().defs =~= before.defs + Seq::empty());
                    assert(out.deep_view().invs =~= before.invs + Seq::empty());
                    assert(out.deep_view().paths =~= before.paths + seq![p.deep_view()]);
                    assert(out.deep_view().calls =~= before.calls + Seq::empty());
                }
            } else {
                proof {
                    lemma_occ_cat_assoc(before, occ_empty(), occ_empty());
                }
            }
        },
        Node::MethodCall { method, start } => {
            let k = CallOccurrence {
                callee: method.clone(),
                mod_path: clone_strings(&c.mods),
                location: location_of(file, *start),
                enclosing_fn: clone_opt_string(&c.current_fn),
                enclosing_public: c.current_public,
            };
            out.calls.push(k);
            proof {
                assert(out.deep_view().defs =~= before.defs + Seq::empty());
                assert(out.deep_view().invs =~= before.invs + Seq::empty());
                assert(out.deep_view().paths =~= before.paths + Seq::empty());
                assert(out.deep_view().calls =~= before.calls + seq![k.deep_view()]);
            }
        },
        Node::Call { callee, start } => {
            let k = CallOccurrence {
                callee: callee.clone(),
                mod_path: clone_strings(&c.mods),
                location: location_of(file, *start),
                enclosing_fn: clone_opt_string(&c.current_fn),
                enclosing_public: c.current_public,
            };
            out.calls.push(k);
            proof {
                assert(out.deep_view().defs =~= before.defs + Seq::empty());
                assert(out.deep_view().invs =~= before.invs + Seq::empty());
                assert(out.deep_view().paths =~= before.paths + Seq::empty());
                assert(out.deep_view().calls =~= before.calls + seq![k.deep_view()]);
            }
        },
        Node::Use { .. } => {
            proof {
                lemma_occ_cat_assoc(before, occ_empty(), occ_empty());
            }
        },
    }
}

fn walk_occ_nodes(crate_name: &str, file: &str, c: &Scope, nodes: &Vec<Node>, out: &mut Occurrences)
    ensures
        final(out).deep_view() == occ_cat(
            old(out).deep_view(),
            occ_nodes(crate_name@, file@, c.deep_view(), nodes@),
        ),
    decreases nodes,
{
    let ghost before = out.deep_view();
    let mut i: usize = 0;
    proof {
        lemma_occ_cat_assoc(before, occ_empty(), occ_empty());
        assert(nodes@.take(0) =~= Seq::<Node>::empty());
    }
    while i < nodes.len()
        invariant
            i <= nodes.len(),
            out.deep_view() == occ_cat(before, occ_nodes(crate_name@, file@, c.deep_view(), nodes@.take(i as int))),
        decreases nodes.len() - i,
    {
        walk_occ_node(crate_name, file, c, &nodes[i], out);
        proof {
            let s = nodes@.take(i + 1);
            assert(s.drop_last() =~= nodes@.take(i as int));
            assert(s.last() == nodes@[i as int]);
            lemma_occ_cat_assoc(
                before,
                occ_nodes(crate_name@, file@, c.deep_view(), nodes@.take(i as int)),
                occ_node(crate_name@, file@, c.deep_view(), nodes@[i as int]),
            );
        }
        i += 1;
    }
    proof {
        assert(nodes@.take(nodes.len() as int) =~= nodes@);
    }
}

/// Applies the noise filter on path references.
fn keep_path(segs: &Vec<String>) -> (r: bool)
    ensures
        r == kept_path(segs.deep_view()),
{
    if segs.len() >= 2 {
        true
    } else if segs.len() == 1 {
        let s = &segs[0];
        let roots = ["std", "core", "alloc", "crate", "self", "super"];
        proof {
            reveal_strlit("std");
            reveal_strlit("core");
            reveal_strlit("alloc");
            reveal_strlit("crate");
            reveal_strlit("self");
            reveal_strlit("super");
        }
        let mut found = false;
        let mut j: usize = 0;
        while j < 6
            invariant
                j <= 6,
                found == exists|k: int| 0 <= k < j && s@ == roots[k]@,
            decreases 6 - j,
        {
            if *s == String::from_str(roots[j]) {
                found = true;
            }
            j += 1;
        }
        proof {
            assert(roots[0]@ == "std"@);
        }
        found
    } else {
        false
    }
}

/// The macro definitions, macro invocations, path references and calls of
/// one unit, each annotated with its module path and enclosing function.
pub fn extract_occurrences(crate_name: &str, unit: &SourceUnit) -> (r: (
    Vec<MacroDef>,
    Vec<MacroInvocation>,
    Vec<PathOccurrence>,
    Vec<CallOccurrence>,
))
    ensures
        r.0.deep_view() == occ_nodes(crate_name@, unit.path@, top_scope(), unit.items@).defs,
        r.1.deep_view() == occ_nodes(crate_name@, unit.path@, top_scope(), unit.items@).invs,
        r.2.deep_view() == occ_nodes(crate_name@, unit.path@, top_scope(), unit.items@).paths,
        r.3.deep_view() == occ_nodes(crate_name@, unit.path@, top_scope(), unit.items@).calls,
{
    let mut out = Occurrences::new();
    let c = Scope::top();
    walk_occ_nodes(crate_name, unit.path.as_str(), &c, &unit.items, &mut out);
    proof {
        assert(out.deep_view().defs =~= occ_nodes(crate_name@, unit.path@, top_scope(), unit.items@).defs);
        assert(out.deep_view().invs =~= occ_nodes(crate_name@, unit.path@, top_scope(), unit.items@).invs);
        assert(out.deep_view().paths =~= occ_nodes(crate_name@, unit.path@, top_scope(), unit.items@).paths);
        assert(out.deep_view().calls =~= occ_nodes(crate_name@, unit.path@, top_scope(), unit.items@).calls);
    }
    (out.macros_def, out.macros_inv, out.paths, out.calls)
}


// ---------------------------------------------------------------------
// Declared functions
// ---------------------------------------------------------------------

/// Whether an attribute list holds a doc comment.
pub open spec fn has_doc_attr(attrs: Seq<Seq<char>>) -> bool {
    attrs.contains("doc"@)
}

/// The fact of a function-like node declared in scope `c`.
pub open spec fn captured_spec(crate_id: Seq<char>, file: Seq<char>, c: ScopeV, n: Node) -> CapturedFnV {
    let decl = fn_decl_of(n);
    CapturedFnV {
        name: decl.name@,
        fq_name: fn_fq(crate_id, c, n),
        is_public: fn_role(c, n).1,
        has_docs: has_doc_attr(decl.attrs.deep_view()),
        is_async: decl.is_async,
        is_unsafe: decl.is_unsafe,
        is_const: decl.is_const,
        is_generic: decl.is_generic,
        args: decl.args.deep_view(),
        return_ty: decl.return_ty.deep_view(),
        kind: fn_role(c, n).0,
        mod_path: c.mods,
        attrs: decl.attrs.deep_view(),
        signature: decl.signature@,
        location: loc_spec(file, decl.start),
    }
}

/// The methods declared directly in a type-implementation block
/// (`impl_block`) or a trait definition (otherwise).
pub open spec fn fns_members(crate_id: Seq<char>, file: Seq<char>, c: ScopeV, s: Seq<Node>, impl_block: bool) -> Seq<CapturedFnV>
    decreases s.len(),
{
    if s.len() == 0 {
        Seq::empty()
    } else {
        let n = s.last();
        fns_members(crate_id, file, c, s.drop_last(), impl_block) + if (impl_block && n is ImplFn) || (!impl_block
            && n is TraitFn) {
            seq![captured_spec(crate_id, file, c, n)]
        } else {
            Seq::empty()
        }
    }
}

/// The function facts of one module-level node: free functions, the
/// methods of implementation blocks and trait definitions, and those of
/// inline modules. Function bodies are not entered.
pub open spec fn fns_node(crate_id: Seq<char>, file: Seq<char>, c: ScopeV, n: Node) -> Seq<CapturedFnV>
    decreases n,
{
    match n {
        Node::Mod { name, items } => fns_nodes(crate_id, file, enter_mod(c, name@), items@),
        Node::Fn { .. } => seq![captured_spec(crate_id, file, c, n)],
        Node::Impl { self_ty, trait_path, items } => fns_members(
            crate_id,
            file,
            enter_impl(c, self_ty@, trait_path.deep_view()),
            items@,
            true,
        ),
        Node::Trait { name, items } => fns_members(crate_id, file, enter_trait(c, name@), items@, false),
        _ => Seq::empty(),
    }
}

pub open spec fn fns_nodes(crate_id: Seq<char>, file: Seq<char>, c: ScopeV, s: Seq<Node>) -> Seq<CapturedFnV>
    decreases s,
{
    if s.len() == 0 {
        Seq::empty()
    } else {
        fns_nodes(crate_id, file, c, s.drop_last()) + fns_node(crate_id, file, c, s.last())
    }
}

fn has_doc(attrs: &Vec<String>) -> (r: bool)
    ensures
        r == has_doc_attr(attrs.deep_view()),
{
    let doc = String::from_str("doc");
    let mut i: usize = 0;
    while i < attrs.len()
        invariant
            i <= attrs.len(),
            doc@ == "doc"@,
            forall|j: int| 0 <= j < i ==> attrs@[j]@ != doc@,
        decreases attrs.len() - i,
    {
        if attrs[i].eq(&doc) {
            proof {
                assert(attrs.deep_view()[i as int] == attrs@[i as int]@);
                assert(attrs.deep_view()[i as int] == "doc"@);
            }
            return true;
        }
        i += 1;
    }
    proof {
        assert(!attrs.deep_view().contains("doc"@)) by {
            if attrs.deep_view().contains("doc"@) {
                let k = choose|k: int| 0 <= k < attrs.deep_view().len() && attrs.deep_view()[k] == "doc"@;
                assert(attrs@[k]@ == doc@);
            }
        }
    }
    false
}

fn captured(crate_name: &str, file: &str, c: &Scope, n: &Node) -> (r: CapturedFn)
    requires
        is_fn_node(*n),
    ensures
        r.deep_view() == captured_spec(crate_name@, file@, c.deep_view(), *n),
{
    let (kind, is_public, fq) = fn_identity(crate_name, c, n);
    let decl = match n {
        Node::Fn { decl, .. } => decl,
        Node::ImplFn { decl, .. } => decl,
        Node::TraitFn { decl, .. } => decl,
        _ => {
            return vstd::pervasive::unreached();
        },
    };
    CapturedFn {
        name: decl.name.clone(),
        fq_name: fq,
        is_public,
        has_docs: has_doc(&decl.attrs),
        is_async: decl.is_async,
        is_unsafe: decl.is_unsafe,
        is_const: decl.is_const,
        is_generic: decl.is_generic,
        args: clone_strings(&decl.args),
        return_ty: clone_opt_string(&decl.return_ty),
        kind,
        mod_path: clone_strings(&c.mods),
        attrs: clone_strings(&decl.attrs),
        signature: decl.signature.clone(),
        location: location_of(file, decl.start),
    }
}

fn walk_fn_members(crate_name: &str, file: &str, c: &Scope, nodes: &Vec<Node>, impl_block: bool, out: &mut Vec<CapturedFn>)
    ensures
        final(out).deep_view() == old(out).deep_view() + fns_members(crate_name@, file@, c.deep_view(), nodes@, impl_block),
{
    let ghost before = out.deep_view();
    let mut i: usize = 0;
    proof {
        assert(nodes@.take(0) =~= Seq::<Node>::empty());
        assert(before + Seq::<CapturedFnV>::empty() =~= before);
    }
    while i < nodes.len()
        invariant
            i <= nodes.len(),
            out.deep_view() == before + fns_members(crate_name@, file@, c.deep_view(), nodes@.take(i as int), impl_block),
        decreases nodes.len() - i,
    {
        let n = &nodes[i];
        let ghost prev = out.deep_view();
        let take = match n {
            Node::ImplFn { .. } => impl_block,
            Node::TraitFn { .. } => !impl_block,
            _ => false,
        };
        if take {
            let f = captured(crate_name, file, c, n);
            out.push(f);
            proof {
                assert(out.deep_view() =~= prev + seq![f.deep_view()]);
            }
        }
        proof {
            let s = nodes@.take(i + 1);
            assert(s.drop_last() =~= nodes@.take(i as int));
            assert(s.last() == nodes@[i as int]);
            if !take {
                assert(out.deep_view() =~= prev + Seq::<CapturedFnV>::empty());
            }
            assert(out.deep_view() =~= before + fns_members(crate_name@, file@, c.deep_view(), s, impl_block));
        }
        i += 1;
    }
    proof {
        assert(nodes@.take(nodes.len() as int) =~= nodes@);
    }
}

fn walk_fn_node(crate_name: &str, file: &str, c: &Scope, n: &Node, out: &mut Vec<CapturedFn>)
    ensures
        final(out).deep_view() == old(out).deep_view() + fns_node(crate_name@, file@, c.deep_view(), *n),
    decreases n,
{
    let ghost before = out.deep_view();
    match n {
        Node::Mod { name, items } => {
            let inner = c.with_mod(name);
            walk_fn_nodes(crate_name, file, &inner, items, out);
        },
        Node::Fn { .. } => {
            let f = captured(crate_name, file, c, n);
            out.push(f);
            proof {
                assert(out.deep_view() =~= before + seq![f.deep_view()]);
            }
        },
        Node::Impl { self_ty, trait_path, items } => {
            let inner = c.with_impl(self_ty, trait_path);
            walk_fn_members(crate_name, file, &inner, items, true, out);
        },
        Node::Trait { name, items } => {
            let inner = c.with_trait(name);
            walk_fn_members(crate_name, file, &inner, items, false, out);
        },
        _ => {
            proof {
                assert(out.deep_view() =~= before + Seq::<CapturedFnV>::empty());
            }
        },
    }
}

fn walk_fn_nodes(crate_name: &str, file: &str, c: &Scope, nodes: &Vec<Node>, out: &mut Vec<CapturedFn>)
    ensures
        final(out).deep_view() == old(out).deep_view() + fns_nodes(crate_name@, file@, c.deep_view(), nodes@),
    decreases nodes,
{
    let ghost before = out.deep_view();
    let mut i: usize = 0;
    proof {
        assert(nodes@.take(0) =~= Seq::<Node>::empty());
        assert(before + Seq::<CapturedFnV>::empty() =~= before);
    }
    while i < nodes.len()
        invariant
            i <= nodes.len(),
            out.deep_view() == before + fns_nodes(crate_name@, file@, c.deep_view(), nodes@.take(i as int)),
        decreases nodes.len() - i,
    {
        walk_fn_node(crate_name, file, c, &nodes[i], out);
        proof {
            let s = nodes@.take(i + 1);
            assert(s.drop_last() =~= nodes@.take(i as int));
            assert(s.last() == nodes@[i as int]);
            assert(out.deep_view() =~= before + fns_nodes(crate_name@, file@, c.deep_view(), s));
        }
        i += 1;
    }
    proof {
        assert(nodes@.take(nodes.len() as int) =~= nodes@);
    }
}

/// The declared functions of one unit: free functions, methods of
/// implementation blocks, trait methods, in every inline module.
pub fn extract_functions(crate_name: &str, unit: &SourceUnit) -> (r: Vec<CapturedFn>)
    ensures
        r.deep_view() == fns_nodes(crate_name@, unit.path@, top_scope(), unit.items@),
{
    let mut out: Vec<CapturedFn> = Vec::new();
    let c = Scope::top();
    walk_fn_nodes(crate_name, unit.path.as_str(), &c, &unit.items, &mut out);
    proof {
        assert(out.deep_view() =~= fns_nodes(crate_name@, unit.path@, top_scope(), unit.items@));
    }
    out
}

/// Whether a unit declares itself free of the standard library.
pub open spec fn unit_is_no_std(attrs: Seq<Seq<char>>) -> bool {
    attrs.contains("no_std"@)
}

pub fn crate_is_no_std(unit: &SourceUnit) -> (r: bool)
    ensures
        r == unit_is_no_std(unit.attrs.deep_view()),
{
    let target = String::from_str("no_std");
    let mut i: usize = 0;
    while i < unit.attrs.len()
        invariant
            i <= unit.attrs.len(),
            target@ == "no_std"@,
            forall|j: int| 0 <= j < i ==> unit.attrs@[j]@ != target@,
        decreases unit.attrs.len() - i,
    {
        if unit.attrs[i].eq(&target) {
            proof {
                assert(unit.attrs.deep_view()[i as int] == unit.attrs@[i as int]@);
                assert(unit.attrs.deep_view()[i as int] == "no_std"@);
            }
            return true;
        }
        i += 1;
    }
    proof {
        assert(!unit.attrs.deep_view().contains("no_std"@)) by {
            if unit.attrs.deep_view().contains("no_std"@) {
                let k = choose|k: int| 0 <= k < unit.attrs.deep_view().len() && unit.attrs.deep_view()[k] == "no_std"@;
                assert(unit.attrs@[k]@ == target@);
            }
        }
    }
    false
}

// ---------------------------------------------------------------------
// Imports and re-exports
// ---------------------------------------------------------------------

/// Whether an import root is relative to the crate itself.
pub open spec fn is_internal_root(root: Seq<char>) -> bool {
    root == "crate"@ || root == "self"@ || root == "super"@
}

/// The fact of one flattened import leaf with the segments `segs`; an empty
/// path yields nothing.
pub open spec fn import_leaf(
    file: Seq<char>,
    mods: Seq<Seq<char>>,
    segs: Seq<Seq<char>>,
    is_pub: bool,
    is_abs: bool,
    kind: UseKindV,
    start: Option<Pos>,
) -> Seq<StolenPathV> {
    if segs.len() == 0 {
        Seq::empty()
    } else {
        seq![
            StolenPathV {
                root: segs[0],
                segments: segs.drop_first(),
                mod_path: mods,
                is_internal: is_internal_root(segs[0]),
                is_public_use: is_pub,
                kind: kind,
                full_path: if is_abs {
                    colons() + join_spec(segs, colons())
                } else {
                    join_spec(segs, colons())
                },
                location: loc_spec(file, start),
                origin: None,
                is_absolute: Some(is_abs),
            },
        ]
    }
}

/// Flattens an import tree under the accumulated `prefix`. A bare `self`
/// leaf imports the prefix itself.
pub open spec fn flatten_use(
    file: Seq<char>,
    mods: Seq<Seq<char>>,
    prefix: Seq<Seq<char>>,
    is_pub: bool,
    is_abs: bool,
    t: UseTree,
) -> Seq<StolenPathV>
    decreases t,
{
    match t {
        UseTree::Path { ident, tree } => flatten_use(file, mods, prefix.push(ident@), is_pub, is_abs, *tree),
        UseTree::Group { items } => flatten_use_group(file, mods, prefix, is_pub, is_abs, items@),
        UseTree::Name { ident, start } => if ident@ == "self"@ {
            import_leaf(file, mods, prefix, is_pub, is_abs, UseKindV::Name, start)
        } else {
            import_leaf(file, mods, prefix.push(ident@), is_pub, is_abs, UseKindV::Name, start)
        },
        UseTree::Rename { ident, rename, start } => import_leaf(
            file,
            mods,
            prefix.push(ident@),
            is_pub,
            is_abs,
            UseKindV::Rename { alias: rename@ },
            start,
        ),
        UseTree::Glob { start } => import_leaf(file, mods, prefix.push("*"@), is_pub, is_abs, UseKindV::Glob, start),
    }
}

pub open spec fn flatten_use_group(
    file: Seq<char>,
    mods: Seq<Seq<char>>,
    prefix: Seq<Seq<char>>,
    is_pub: bool,
    is_abs: bool,
    s: Seq<UseTree>,
) -> Seq<StolenPathV>
    decreases s,
{
    if s.len() == 0 {
        Seq::empty()
    } else {
        flatten_use_group(file, mods, prefix, is_pub, is_abs, s.drop_last()) + flatten_use(
            file,
            mods,
            prefix,
            is_pub,
            is_abs,
            s.last(),
        )
    }
}

/// The imports of module-level nodes, inline modules included.
pub open spec fn imports_node(file: Seq<char>, mods: Seq<Seq<char>>, n: Node) -> Seq<StolenPathV>
    decreases n,
{
    match n {
        Node::Use { vis_public, leading_colon, tree } => flatten_use(file, mods, Seq::empty(), vis_public, leading_colon, tree),
        Node::Mod { name, items } => imports_nodes(file, mods.push(name@), items@),
        _ => Seq::empty(),
    }
}

pub open spec fn imports_nodes(file: Seq<char>, mods: Seq<Seq<char>>, s: Seq<Node>) -> Seq<StolenPathV>
    decreases s,
{
    if s.len() == 0 {
        Seq::empty()
    } else {
        imports_nodes(file, mods, s.drop_last()) + imports_node(file, mods, s.last())
    }
}

fn push_string(v: &Vec<String>, x: &String) -> (r: Vec<String>)
    ensures
        r.deep_view() == v.deep_view().push(x@),
{
    let mut r = clone_strings(v);
    r.push(x.clone());
    proof {
        assert(r.deep_view() =~= v.deep_view().push(x@));
    }
    r
}

fn emit_import(
    file: &str,
    mods: &Vec<String>,
    segs: &Vec<String>,
    is_pub: bool,
    is_abs: bool,
    kind: UseKind,
    start: Option<Pos>,
    out: &mut Vec<StolenPath>,
)
    ensures
        final(out).deep_view() == old(out).deep_view() + import_leaf(
            file@,
            mods.deep_view(),
            segs.deep_view(),
            is_pub,
            is_abs,
            kind.deep_view(),
            start,
        ),
{
    let ghost before = out.deep_view();
    if segs.len() == 0 {
        proof {
            assert(out.deep_view() =~= before + Seq::<StolenPathV>::empty());
        }
        return;
    }
    let root = segs[0].clone();
    let mut rest: Vec<String> = Vec::new();
    let mut i: usize = 1;
    while i < segs.len()
        invariant
            1 <= i <= segs.len(),
            rest.len() == i - 1,
            forall|j: int| 0 <= j < i - 1 ==> rest@[j]@ == segs@[j + 1]@,
        decreases segs.len() - i,
    {
        rest.push(segs[i].clone());
        i += 1;
    }
    proof {
        assert(rest.deep_view() =~= segs.deep_view().drop_first());
        reveal_strlit("crate");
        reveal_strlit("self");
        reveal_strlit("super");
        reveal_strlit("::");
    }
    let is_internal = root == String::from_str("crate") || root == String::from_str("self") || root
        == String::from_str("super");
    let base = join_path(segs);
    let full_path = if is_abs {
        let mut f = String::from_str("::");
        f.append(base.as_str());
        f
    } else {
        base
    };
    let p = StolenPath {
        root,
        segments: rest,
        mod_path: clone_strings(mods),
        is_internal,
        is_public_use: is_pub,
        kind,
        full_path,
        location: location_of(file, start),
        origin: None,
        is_absolute: Some(is_abs),
    };
    proof {
        assert(p.root@ == segs.deep_view()[0]);
        assert(is_internal == is_internal_root(segs.deep_view()[0]));
        assert(p.full_path@ == (if is_abs {
            colons() + join_spec(segs.deep_view(), colons())
        } else {
            join_spec(segs.deep_view(), colons())
        }));
    }
    out.push(p);
    proof {
        assert(out.deep_view() =~= before + seq![p.deep_view()]);
    }
}

fn walk_use(
    file: &str,
    mods: &Vec<String>,
    prefix: &Vec<String>,
    is_pub: bool,
    is_abs: bool,
    t: &UseTree,
    out: &mut Vec<StolenPath>,
)
    ensures
        final(out).deep_view() == old(out).deep_view() + flatten_use(
            file@,
            mods.deep_view(),
            prefix.deep_view(),
            is_pub,
            is_abs,
            *t,
        ),
    decreases t,
{
    proof {
        reveal_strlit("self");
        reveal_strlit("*");
    }
    match t {
        UseTree::Path { ident, tree } => {
            let next = push_string(prefix, ident);
            walk_use(file, mods, &next, is_pub, is_abs, tree, out);
        },
        UseTree::Group { items } => {
            walk_use_group(file, mods, prefix, is_pub, is_abs, items, out);
        },
        UseTree::Name { ident, start } => {
            if *ident == String::from_str("self") {
                emit_import(file, mods, prefix, is_pub, is_abs, UseKind::Name, *start, out);
            } else {
                let segs = push_string(prefix, ident);
                emit_import(file, mods, &segs, is_pub, is_abs, UseKind::Name, *start, out);
            }
        },
        UseTree::Rename { ident, rename, start } => {
            let segs = push_string(prefix, ident);
            emit_import(file, mods, &segs, is_pub, is_abs, UseKind::Rename { alias: rename.clone() }, *start, out);
        },
        UseTree::Glob { start } => {
            let segs = push_string(prefix, &String::from_str("*"));
            emit_import(file, mods, &segs, is_pub, is_abs, UseKind::Glob, *start, out);
        },
    }
}

fn walk_use_group(
    file: &str,
    mods: &Vec<String>,
    prefix: &Vec<String>,
    is_pub: bool,
    is_abs: bool,
    items: &Vec<UseTree>,
    out: &mut Vec<StolenPath>,
)
    ensures
        final(out).deep_view() == old(out).deep_view() + flatten_use_group(
            file@,
            mods.deep_view(),
            prefix.deep_view(),
            is_pub,
            is_abs,
            items@,
        ),
    decreases items,
{
    let ghost before = out.deep_view();
    let mut i: usize = 0;
    proof {
        assert(items@.take(0) =~= Seq::<UseTree>::empty());
        assert(before + Seq::<StolenPathV>::empty() =~= before);
    }
    while i < items.len()
        invariant
            i <= items.len(),
            out.deep_view() == before + flatten_use_group(
                file@,
                mods.deep_view(),
                prefix.deep_view(),
                is_pub,
                is_abs,
                items@.take(i as int),
            ),
        decreases items.len() - i,
    {
        walk_use(file, mods, prefix, is_pub, is_abs, &items[i], out);
        proof {
            let s = items@.take(i + 1);
            assert(s.drop_last() =~= items@.take(i as int));
            assert(s.last() == items@[i as int]);
            assert(out.deep_view() =~= before + flatten_use_group(
                file@,
                mods.deep_view(),
                prefix.deep_view(),
                is_pub,
                is_abs,
                s,
            ));
        }
        i += 1;
    }
    proof {
        assert(items@.take(items.len() as int) =~= items@);
    }
}

fn walk_import_node(file: &str, mods: &Vec<String>, n: &Node, out: &mut Vec<StolenPath>)
    ensures
        final(out).deep_view() == old(out).deep_view() + imports_node(file@, mods.deep_view(), *n),
    decreases n,
{
    let ghost before = out.deep_view();
    match n {
        Node::Use { vis_public, leading_colon, tree } => {
            let empty: Vec<String> = Vec::new();
            proof {
                assert(empty.deep_view() =~= Seq::<Seq<char>>::empty());
            }
            walk_use(file, mods, &empty, *vis_public, *leading_colon, tree, out);
        },
        Node::Mod { name, items } => {
            let inner = push_string(mods, name);
            walk_import_nodes(file, &inner, items, out);
        },
        _ => {
            proof {
                assert(out.deep_view() =~= before + Seq::<StolenPathV>::empty());
            }
        },
    }
}

fn walk_import_nodes(file: &str, mods: &Vec<String>, nodes: &Vec<Node>, out: &mut Vec<StolenPath>)
    ensures
        final(out).deep_view() == old(out).deep_view() + imports_nodes(file@, mods.deep_view(), nodes@),
    decreases nodes,
{
    let ghost before = out.deep_view();
    let mut i: usize = 0;
    proof {
        assert(nodes@.take(0) =~= Seq::<Node>::empty());
        assert(before + Seq::<StolenPathV>::empty() =~= before);
    }
    while i < nodes.len()
        invariant
            i <= nodes.len(),
            out.deep_view() == before + imports_nodes(file@, mods.deep_view(), nodes@.take(i as int)),
        decreases nodes.len() - i,
    {
        walk_import_node(file, mods, &nodes[i], out);
        proof {
            let s = nodes@.take(i + 1);
            assert(s.drop_last() =~= nodes@.take(i as int));
            assert(s.last() == nodes@[i as int]);
            assert(out.deep_view() =~= before + imports_nodes(file@, mods.deep_view(), s));
        }
        i += 1;
    }
    proof {
        assert(nodes@.take(nodes.len() as int) =~= nodes@);
    }
}

/// The imports of one unit, every leaf of every import tree flattened into
/// one fact, with the module path it stands in; origins are not yet set.
pub fn extract_imports(unit: &SourceUnit) -> (r: Vec<StolenPath>)
    ensures
        r.deep_view() == imports_nodes(unit.path@, Seq::empty(), unit.items@),
{
    let mut out: Vec<StolenPath> = Vec::new();
    let mods: Vec<String> = Vec::new();
    proof {
        assert(mods.deep_view() =~= Seq::<Seq<char>>::empty());
    }
    walk_import_nodes(unit.path.as_str(), &mods, &unit.items, &mut out);
    proof {
        assert(out.deep_view() =~= imports_nodes(unit.path@, Seq::empty(), unit.items@));
    }
    out
}

/// One re-export leaf.
pub open spec fn export_leaf(
    file: Seq<char>,
    mods: Seq<Seq<char>>,
    exported_as: Seq<char>,
    segs: Seq<Seq<char>>,
    start: Option<Pos>,
) -> ExportedSymbolV {
    ExportedSymbolV {
        exported_as,
        source_path: join_spec(segs, colons()),
        mod_path: mods,
        location: loc_spec(file, start),
    }
}

/// Flattens a public import tree into re-export facts, by the same rule as
/// imports: a bare `self` leaf re-exports the prefix under its last segment.
pub open spec fn flatten_export(file: Seq<char>, mods: Seq<Seq<char>>, prefix: Seq<Seq<char>>, t: UseTree) -> Seq<ExportedSymbolV>
    decreases t,
{
    match t {
        UseTree::Path { ident, tree } => flatten_export(file, mods, prefix.push(ident@), *tree),
        UseTree::Group { items } => flatten_export_group(file, mods, prefix, items@),
        UseTree::Name { ident, start } => if ident@ == "self"@ {
            if prefix.len() == 0 {
                Seq::empty()
            } else {
                seq![export_leaf(file, mods, prefix.last(), prefix, start)]
            }
        } else {
            seq![export_leaf(file, mods, ident@, prefix.push(ident@), start)]
        },
        UseTree::Rename { ident, rename, start } => seq![export_leaf(file, mods, rename@, prefix.push(ident@), start)],
        UseTree::Glob { start } => seq![export_leaf(file, mods, "*"@, prefix.push("*"@), start)],
    }
}

pub open spec fn flatten_export_group(file: Seq<char>, mods: Seq<Seq<char>>, prefix: Seq<Seq<char>>, s: Seq<UseTree>) -> Seq<ExportedSymbolV>
    decreases s,
{
    if s.len() == 0 {
        Seq::empty()
    } else {
        flatten_export_group(file, mods, prefix, s.drop_last()) + flatten_export(file, mods, prefix, s.last())
    }
}

/// The re-exports of module-level public imports, inline modules included.
pub open spec fn exports_node(file: Seq<char>, mods: Seq<Seq<char>>, n: Node) -> Seq<ExportedSymbolV>
    decreases n,
{
    match n {
        Node::Use { vis_public, tree, .. } => if vis_public {
            flatten_export(file, mods, Seq::empty(), tree)
        } else {
            Seq::empty()
        },
        Node::Mod { name, items } => exports_nodes(file, mods.push(name@), items@),
        _ => Seq::empty(),
    }
}

pub open spec fn exports_nodes(file: Seq<char>, mods: Seq<Seq<char>>, s: Seq<Node>) -> Seq<ExportedSymbolV>
    decreases s,
{
    if s.len() == 0 {
        Seq::empty()
    } else {
        exports_nodes(file, mods, s.drop_last()) + exports_node(file, mods, s.last())
    }
}

fn emit_export(file: &str, mods: &Vec<String>, exported_as: String, segs: &Vec<String>, start: Option<Pos>, out: &mut Vec<ExportedSymbol>)
    ensures
        final(out).deep_view() == old(out).deep_view().push(
            export_leaf(file@, mods.deep_view(), exported_as@, segs.deep_view(), start),
        ),
{
    let e = ExportedSymbol {
        exported_as,
        source_path: join_path(segs),
        mod_path: clone_strings(mods),
        location: location_of(file, start),
    };
    out.push(e);
    proof {
        assert(out.deep_view() =~= old(out).deep_view().push(e.deep_view()));
    }
}

fn walk_export(file: &str, mods: &Vec<String>, prefix: &Vec<String>, t: &UseTree, out: &mut Vec<ExportedSymbol>)
    ensures
        final(out).deep_view() == old(out).deep_view() + flatten_export(file@, mods.deep_view(), prefix.deep_view(), *t),
    decreases t,
{
    let ghost before = out.deep_view();
    proof {
        reveal_strlit("self");
        reveal_strlit("*");
    }
    match t {
        UseTree::Path { ident, tree } => {
            let next = push_string(prefix, ident);
            walk_export(file, mods, &next, tree, out);
        },
        UseTree::Group { items } => {
            walk_export_group(file, mods, prefix, items, out);
        },
        UseTree::Name { ident, start } => {
            if *ident == String::from_str("self") {
                if prefix.len() == 0 {
                    proof {
                        assert(out.deep_view() =~= before + Seq::<ExportedSymbolV>::empty());
                    }
                } else {
                    emit_export(file, mods, prefix[prefix.len() - 1].clone(), prefix, *start, out);
                    proof {
                        assert(out.deep_view() =~= before + seq![
                            export_leaf(file@, mods.deep_view(), prefix.deep_view().last(), prefix.deep_view(), *start),
                        ]);
                    }
                }
            } else {
                let segs = push_string(prefix, ident);
                emit_export(file, mods, ident.clone(), &segs, *start, out);
                proof {
                    assert(out.deep_view() =~= before + seq![
                        export_leaf(file@, mods.deep_view(), ident@, prefix.deep_view().push(ident@), *start),
                    ]);
                }
            }
        },
        UseTree::Rename { ident, rename, start } => {
            let segs = push_string(prefix, ident);
            emit_export(file, mods, rename.clone(), &segs, *start, out);
            proof {
                assert(out.deep_view() =~= before + seq![
                    export_leaf(file@, mods.deep_view(), rename@, prefix.deep_view().push(ident@), *start),
                ]);
            }
        },
        UseTree::Glob { start } => {
            let star = String::from_str("*");
            let segs = push_string(prefix, &star);
            emit_export(file, mods, star, &segs, *start, out);
            proof {
                assert(out.deep_view() =~= before + seq![
                    export_leaf(file@, mods.deep_view(), "*"@, prefix.deep_view().push("*"@), *start),
                ]);
            }
        },
    }
}

fn walk_export_group(file: &str, mods: &Vec<String>, prefix: &Vec<String>, items: &Vec<UseTree>, out: &mut Vec<ExportedSymbol>)
    ensures
        final(out).deep_view() == old(out).deep_view() + flatten_export_group(file@, mods.deep_view(), prefix.deep_view(), items@),
    decreases items,
{
    let ghost before = out.deep_view();
    let mut i: usize = 0;
    proof {
        assert(items@.take(0) =~= Seq::<UseTree>::empty());
        assert(before + Seq::<ExportedSymbolV>::empty() =~= before);
    }
    while i < items.len()
        invariant
            i <= items.len(),
            out.deep_view() == before + flatten_export_group(file@, mods.deep_view(), prefix.deep_view(), items@.take(i as int)),
        decreases items.len() - i,
    {
        walk_export(file, mods, prefix, &items[i], out);
        proof {
            let s = items@.take(i + 1);
            assert(s.drop_last() =~= items@.take(i as int));
            assert(s.last() == items@[i as int]);
            assert(out.deep_view() =~= before + flatten_export_group(file@, mods.deep_view(), prefix.deep_view(), s));
        }
        i += 1;
    }
    proof {
        assert(items@.take(items.len() as int) =~= items@);
    }
}

fn walk_export_node(file: &str, mods: &Vec<String>, n: &Node, out: &mut Vec<ExportedSymbol>)
    ensures
        final(out).deep_view() == old(out).deep_view() + exports_node(file@, mods.deep_view(), *n),
    decreases n,
{
    let ghost before = out.deep_view();
    match n {
        Node::Use { vis_public, tree, .. } => {
            if *vis_public {
                let empty: Vec<String> = Vec::new();
                proof {
                    assert(empty.deep_view() =~= Seq::<Seq<char>>::empty());
                }
                walk_export(file, mods, &empty, tree, out);
            } else {
                proof {
                    assert(out.deep_view() =~= before + Seq::<ExportedSymbolV>::empty());
                }
            }
        },
        Node::Mod { name, items } => {
            let inner = push_string(mods, name);
            walk_export_nodes(file, &inner, items, out);
        },
        _ => {
            proof {
                assert(out.deep_view() =~= before + Seq::<ExportedSymbolV>::empty());
            }
        },
    }
}

fn walk_export_nodes(file: &str, mods: &Vec<String>, nodes: &Vec<Node>, out: &mut Vec<ExportedSymbol>)
    ensures
        final(out).deep_view() == old(out).deep_view() + exports_nodes(file@, mods.deep_view(), nodes@),
    decreases nodes,
{
    let ghost before = out.deep_view();
    let mut i: usize = 0;
    proof {
        assert(nodes@.take(0) =~= Seq::<Node>::empty());
        assert(before + Seq::<ExportedSymbolV>::empty() =~= before);
    }
    while i < nodes.len()
        invariant
            i <= nodes.len(),
            out.deep_view() == before + exports_nodes(file@, mods.deep_view(), nodes@.take(i as int)),
        decreases nodes.len() - i,
    {
        walk_export_node(file, mods, &nodes[i], out);
        proof {
            let s = nodes@.take(i + 1);
            assert(s.drop_last() =~= nodes@.take(i as int));
            assert(s.last() == nodes@[i as int]);
            assert(out.deep_view() =~= before + exports_nodes(file@, mods.deep_view(), s));
        }
        i += 1;
    }
    proof {
        assert(nodes@.take(nodes.len() as int) =~= nodes@);
    }
}

/// The public re-exports of one unit.
pub fn extract_public_surface(unit: &SourceUnit) -> (r: Vec<ExportedSymbol>)
    ensures
        r.deep_view() == exports_nodes(unit.path@, Seq::empty(), unit.items@),
{
    let mut out: Vec<ExportedSymbol> = Vec::new();
    let mods: Vec<String> = Vec::new();
    proof {
        assert(mods.deep_view() =~= Seq::<Seq<char>>::empty());
    }
    walk_export_nodes(unit.path.as_str(), &mods, &unit.items, &mut out);
    proof {
        assert(out.deep_view() =~= exports_nodes(unit.path@, Seq::empty(), unit.items@));
    }
    out
}

// ---------------------------------------------------------------------
// Laws of the occurrence annotations
// ---------------------------------------------------------------------

/// No function-like node anywhere in `n`.
pub open spec fn fn_free_node(n: Node) -> bool
    decreases n,
{
    match n {
        Node::Fn { .. } => false,
        Node::ImplFn { .. } => false,
        Node::TraitFn { .. } => false,
        Node::Mod { items, .. } => fn_free_nodes(items@),
        Node::Impl { items, .. } => fn_free_nodes(items@),
        Node::Trait { items, .. } => fn_free_nodes(items@),
        _ => true,
    }
}

pub open spec fn fn_free_nodes(s: Seq<Node>) -> bool
    decreases s,
{
    if s.len() == 0 {
        true
    } else {
        fn_free_nodes(s.drop_last()) && fn_free_node(s.last())
    }
}

/// The body of a function-like node.
pub open spec fn body_of(n: Node) -> Seq<Node> {
    match n {
        Node::Fn { body, .. } => body@,
        Node::ImplFn { body, .. } => body@,
        Node::TraitFn { body, .. } => body@,
        _ => Seq::empty(),
    }
}

/// Every macro invocation, path and call in `o` carries the enclosing
/// function `f` and visibility `p`.
pub open spec fn annotated(o: OccV, f: Option<Seq<char>>, p: Option<bool>) -> bool {
    &&& forall|i: int| 0 <= i < o.invs.len() ==> (#[trigger] o.invs[i]).enclosing_fn == f && o.invs[i].enclosing_public == p
    &&& forall|i: int| 0 <= i < o.paths.len() ==> (#[trigger] o.paths[i]).enclosing_fn == f && o.paths[i].enclosing_public == p
    &&& forall|i: int| 0 <= i < o.calls.len() ==> (#[trigger] o.calls[i]).enclosing_fn == f && o.calls[i].enclosing_public == p
}

proof fn lemma_annotated_cat(a: OccV, b: OccV, f: Option<Seq<char>>, p: Option<bool>)
    requires
        annotated(a, f, p),
        annotated(b, f, p),
    ensures
        annotated(occ_cat(a, b), f, p),
{
    let o = occ_cat(a, b);
    assert forall|i: int| 0 <= i < o.invs.len() implies (#[trigger] o.invs[i]).enclosing_fn == f && o.invs[i].enclosing_public == p by {
        if i >= a.invs.len() {
            assert(o.invs[i] == b.invs[i - a.invs.len()]);
        }
    }
    assert forall|i: int| 0 <= i < o.paths.len() implies (#[trigger] o.paths[i]).enclosing_fn == f && o.paths[i].enclosing_public == p by {
        if i >= a.paths.len() {
            assert(o.paths[i] == b.paths[i - a.paths.len()]);
        }
    }
    assert forall|i: int| 0 <= i < o.calls.len() implies (#[trigger] o.calls[i]).enclosing_fn == f && o.calls[i].enclosing_public == p by {
        if i >= a.calls.len() {
            assert(o.calls[i] == b.calls[i - a.calls.len()]);
        }
    }
}

proof fn lemma_scope_node(crate_id: Seq<char>, file: Seq<char>, c: ScopeV, n: Node)
    requires
        fn_free_node(n),
    ensures
        annotated(occ_node(crate_id, file, c, n), c.current_fn, c.current_public),
    decreases n,
{
    match n {
        Node::Mod { name, items } => {
            lemma_scope_nodes(crate_id, file, enter_mod(c, name@), items@);
        },
        Node::Impl { self_ty, trait_path, items } => {
            lemma_scope_nodes(crate_id, file, enter_impl(c, self_ty@, trait_path.deep_view()), items@);
        },
        Node::Trait { name, items } => {
            lemma_scope_nodes(crate_id, file, enter_trait(c, name@), items@);
        },
        _ => {},
    }
}

proof fn lemma_scope_nodes(crate_id: Seq<char>, file: Seq<char>, c: ScopeV, s: Seq<Node>)
    requires
        fn_free_nodes(s),
    ensures
        annotated(occ_nodes(crate_id, file, c, s), c.current_fn, c.current_public),
    decreases s,
{
    if s.len() > 0 {
        lemma_scope_nodes(crate_id, file, c, s.drop_last());
        lemma_scope_node(crate_id, file, c, s.last());
        lemma_annotated_cat(
            occ_nodes(crate_id, file, c, s.drop_last()),
            occ_node(crate_id, file, c, s.last()),
            c.current_fn,
            c.current_public,
        );
    }
}

/// Every occurrence recorded in the body of a function (one without a
/// nested function) carries that function's fully qualified name and its
/// computed visibility.
pub proof fn lemma_body_occurrences_annotated(crate_id: Seq<char>, file: Seq<char>, c: ScopeV, n: Node)
    requires
        is_fn_node(n),
        fn_free_nodes(body_of(n)),
    ensures
        annotated(occ_node(crate_id, file, c, n), Some(fn_fq(crate_id, c, n)), Some(fn_role(c, n).1)),
{
    lemma_scope_nodes(crate_id, file, enter_fn(c, fn_fq(crate_id, c, n), fn_role(c, n).1), body_of(n));
}

/// Every occurrence recorded at module scope (outside any function) carries
/// no enclosing function and no visibility.
pub proof fn lemma_module_scope_unannotated(crate_id: Seq<char>, file: Seq<char>, s: Seq<Node>)
    requires
        fn_free_nodes(s),
    ensures
        annotated(occ_nodes(crate_id, file, top_scope(), s), None, None),
{
    lemma_scope_nodes(crate_id, file, top_scope(), s);
}

/// Every macro invocation, path and call in `o` carries some enclosing
/// function and some visibility.
pub open spec fn annotated_some(o: OccV) -> bool {
    &&& forall|i: int| 0 <= i < o.invs.len() ==> (#[trigger] o.invs[i]).enclosing_fn is Some && o.invs[i].enclosing_public is Some
    &&& forall|i: int| 0 <= i < o.paths.len() ==> (#[trigger] o.paths[i]).enclosing_fn is Some && o.paths[i].enclosing_public is Some
    &&& forall|i: int| 0 <= i < o.calls.len() ==> (#[trigger] o.calls[i]).enclosing_fn is Some && o.calls[i].enclosing_public is Some
}

proof fn lemma_some_cat(a: OccV, b: OccV)
    requires
        annotated_some(a),
        annotated_some(b),
    ensures
        annotated_some(occ_cat(a, b)),
{
    let o = occ_cat(a, b);
    assert forall|i: int| 0 <= i < o.invs.len() implies (#[trigger] o.invs[i]).enclosing_fn is Some && o.invs[i].enclosing_public is Some by {
        if i >= a.invs.len() {
            assert(o.invs[i] == b.invs[i - a.invs.len()]);
        }
    }
    assert forall|i: int| 0 <= i < o.paths.len() implies (#[trigger] o.paths[i]).enclosing_fn is Some && o.paths[i].enclosing_public is Some by {
        if i >= a.paths.len() {
            assert(o.paths[i] == b.paths[i - a.paths.len()]);
        }
    }
    assert forall|i: int| 0 <= i < o.calls.len() implies (#[trigger] o.calls[i]).enclosing_fn is Some && o.calls[i].enclosing_public is Some by {
        if i >= a.calls.len() {
            assert(o.calls[i] == b.calls[i - a.calls.len()]);
        }
    }
}

proof fn lemma_inside_node(crate_id: Seq<char>, file: Seq<char>, c: ScopeV, n: Node)
    requires
        c.current_fn is Some,
        c.current_public is Some,
    ensures
        annotated_some(occ_node(crate_id, file, c, n)),
    decreases n,
{
    match n {
        Node::Mod { name, items } => {
            lemma_inside_nodes(crate_id, file, enter_mod(c, name@), items@);
        },
        Node::Impl { self_ty, trait_path, items } => {
            lemma_inside_nodes(crate_id, file, enter_impl(c, self_ty@, trait_path.deep_view()), items@);
        },
        Node::Trait { name, items } => {
            lemma_inside_nodes(crate_id, file, enter_trait(c, name@), items@);
        },
        Node::Fn { body, .. } => {
            lemma_inside_nodes(crate_id, file, enter_fn(c, fn_fq(crate_id, c, n), fn_role(c, n).1), body@);
        },
        Node::ImplFn { body, .. } => {
            lemma_inside_nodes(crate_id, file, enter_fn(c, fn_fq(crate_id, c, n), fn_role(c, n).1), body@);
        },
        Node::TraitFn { body, .. } => {
            lemma_inside_nodes(crate_id, file, enter_fn(c, fn_fq(crate_id, c, n), fn_role(c, n).1), body@);
        },
        _ => {},
    }
}

/// The annotation of an occurrence is the innermost enclosing function:
/// a leaf occurrence is annotated with the function of the scope it is
/// recorded in; entering a function sets that scope's function to the
/// function's fully qualified name and visibility; entering a module,
/// type or trait block keeps it; the top of a unit has none.
pub proof fn lemma_annotation_is_innermost_function(crate_id: Seq<char>, file: Seq<char>, c: ScopeV, n: Node, name: Seq<char>, self_ty: Seq<char>, tr: Option<Seq<char>>)
    ensures
        (n is Macro || n is PathRef || n is MethodCall || n is Call || n is Use) ==> annotated(
            occ_node(crate_id, file, c, n),
            c.current_fn,
            c.current_public,
        ),
        is_fn_node(n) ==> occ_node(crate_id, file, c, n) == occ_nodes(
            crate_id,
            file,
            enter_fn(c, fn_fq(crate_id, c, n), fn_role(c, n).1),
            body_of(n),
        ),
        enter_fn(c, fn_fq(crate_id, c, n), fn_role(c, n).1).current_fn == Some(fn_fq(crate_id, c, n)),
        enter_fn(c, fn_fq(crate_id, c, n), fn_role(c, n).1).current_public == Some(fn_role(c, n).1),
        enter_mod(c, name).current_fn == c.current_fn && enter_mod(c, name).current_public == c.current_public,
        enter_impl(c, self_ty, tr).current_fn == c.current_fn && enter_impl(c, self_ty, tr).current_public
            == c.current_public,
        enter_trait(c, name).current_fn == c.current_fn && enter_trait(c, name).current_public == c.current_public,
        top_scope().current_fn is None && top_scope().current_public is None,
{
    if n is Macro || n is PathRef || n is MethodCall || n is Call || n is Use {
        lemma_scope_node(crate_id, file, c, n);
    }
}

/// Every occurrence recorded anywhere inside a function body, nested
/// functions included, carries an enclosing function and its visibility.
pub proof fn lemma_inside_nodes(crate_id: Seq<char>, file: Seq<char>, c: ScopeV, s: Seq<Node>)
    requires
        c.current_fn is Some,
        c.current_public is Some,
    ensures
        annotated_some(occ_nodes(crate_id, file, c, s)),
    decreases s,
{
    if s.len() > 0 {
        lemma_inside_nodes(crate_id, file, c, s.drop_last());
        lemma_inside_node(crate_id, file, c, s.last());
        lemma_some_cat(occ_nodes(crate_id, file, c, s.drop_last()), occ_node(crate_id, file, c, s.last()));
    }
}

/// Every macro invocation, path and call in `o` has an enclosing function
/// exactly when it has an enclosing visibility.
pub open spec fn annotation_paired(o: OccV) -> bool {
    &&& forall|i: int| 0 <= i < o.invs.len() ==> ((#[trigger] o.invs[i]).enclosing_fn is Some <==> o.invs[i].enclosing_public is Some)
    &&& forall|i: int| 0 <= i < o.paths.len() ==> ((#[trigger] o.paths[i]).enclosing_fn is Some <==> o.paths[i].enclosing_public is Some)
    &&& forall|i: int| 0 <= i < o.calls.len() ==> ((#[trigger] o.calls[i]).enclosing_fn is Some <==> o.calls[i].enclosing_public is Some)
}

proof fn lemma_paired_cat(a: OccV, b: OccV)
    requires
        annotation_paired(a),
        annotation_paired(b),
    ensures
        annotation_paired(occ_cat(a, b)),
{
    let o = occ_cat(a, b);
    assert forall|i: int| 0 <= i < o.invs.len() implies ((#[trigger] o.invs[i]).enclosing_fn is Some <==> o.invs[i].enclosing_public is Some) by {
        if i >= a.invs.len() {
            assert(o.invs[i] == b.invs[i - a.invs.len()]);
        }
    }
    assert forall|i: int| 0 <= i < o.paths.len() implies ((#[trigger] o.paths[i]).enclosing_fn is Some <==> o.paths[i].enclosing_public is Some) by {
        if i >= a.paths.len() {
            assert(o.paths[i] == b.paths[i - a.paths.len()]);
        }
    }
    assert forall|i: int| 0 <= i < o.calls.len() implies ((#[trigger] o.calls[i]).enclosing_fn is Some <==> o.calls[i].enclosing_public is Some) by {
        if i >= a.calls.len() {
            assert(o.calls[i] == b.calls[i - a.calls.len()]);
        }
    }
}

proof fn lemma_paired_node(crate_id: Seq<char>, file: Seq<char>, c: ScopeV, n: Node)
    requires
        c.current_fn is Some <==> c.current_public is Some,
    ensures
        annotation_paired(occ_node(crate_id, file, c, n)),
    decreases n,
{
    match n {
        Node::Mod { name, items } => {
            lemma_paired_nodes(crate_id, file, enter_mod(c, name@), items@);
        },
        Node::Impl { self_ty, trait_path, items } => {
            lemma_paired_nodes(crate_id, file, enter_impl(c, self_ty@, trait_path.deep_view()), items@);
        },
        Node::Trait { name, items } => {
            lemma_paired_nodes(crate_id, file, enter_trait(c, name@), items@);
        },
        Node::Fn { body, .. } => {
            lemma_paired_nodes(crate_id, file, enter_fn(c, fn_fq(crate_id, c, n), fn_role(c, n).1), body@);
        },
        Node::ImplFn { body, .. } => {
            lemma_paired_nodes(crate_id, file, enter_fn(c, fn_fq(crate_id, c, n), fn_role(c, n).1), body@);
        },
        Node::TraitFn { body, .. } => {
            lemma_paired_nodes(crate_id, file, enter_fn(c, fn_fq(crate_id, c, n), fn_role(c, n).1), body@);
        },
        _ => {},
    }
}

/// Every occurrence of a walk from the top of a unit (or from any scope
/// whose function and visibility are both set or both absent) has an
/// enclosing function exactly when it has an enclosing visibility.
pub proof fn lemma_paired_nodes(crate_id: Seq<char>, file: Seq<char>, c: ScopeV, s: Seq<Node>)
    requires
        c.current_fn is Some <==> c.current_public is Some,
    ensures
        annotation_paired(occ_nodes(crate_id, file, c, s)),
    decreases s,
{
    if s.len() > 0 {
        lemma_paired_nodes(crate_id, file, c, s.drop_last());
        lemma_paired_node(crate_id, file, c, s.last());
        lemma_paired_cat(occ_nodes(crate_id, file, c, s.drop_last()), occ_node(crate_id, file, c, s.last()));
    }
}

/// The facts of a node list are those of the nodes before `i`, then those
/// of node `i` as one block, then those of the nodes after it.
pub proof fn lemma_occ_split(crate_id: Seq<char>, file: Seq<char>, c: ScopeV, s: Seq<Node>, i: int)
    requires
        0 <= i < s.len(),
    ensures
        occ_nodes(crate_id, file, c, s) == occ_cat(
            occ_cat(occ_nodes(crate_id, file, c, s.take(i)), occ_node(crate_id, file, c, s[i])),
            occ_nodes(crate_id, file, c, s.skip(i + 1)),
        ),
    decreases s.len(),
{
    let d = s.drop_last();
    if i == s.len() - 1 {
        assert(s.take(i) =~= d);
        assert(s.skip(i + 1) =~= Seq::<Node>::empty());
        lemma_occ_cat_assoc(occ_nodes(crate_id, file, c, d), occ_node(crate_id, file, c, s[i]), occ_empty());
        lemma_occ_cat_assoc(occ_cat(occ_nodes(crate_id, file, c, d), occ_node(crate_id, file, c, s[i])), occ_empty(), occ_empty());
    } else {
        lemma_occ_split(crate_id, file, c, d, i);
        assert(d.take(i) =~= s.take(i));
        assert(d[i] == s[i]);
        let rest = s.skip(i + 1);
        assert(rest.drop_last() =~= d.skip(i + 1));
        assert(rest.last() == s.last());
        let a = occ_cat(occ_nodes(crate_id, file, c, s.take(i)), occ_node(crate_id, file, c, s[i]));
        lemma_occ_cat_assoc(a, occ_nodes(crate_id, file, c, d.skip(i + 1)), occ_node(crate_id, file, c, s.last()));
    }
}

/// The block of facts of a node holding no function carries the function
/// of the scope it stands in, whatever stands beside it: none at module
/// scope, the enclosing function's name and visibility inside a body.
pub proof fn lemma_block_annotated(crate_id: Seq<char>, file: Seq<char>, c: ScopeV, s: Seq<Node>, i: int)
    requires
        0 <= i < s.len(),
        fn_free_node(s[i]),
    ensures
        annotated(occ_node(crate_id, file, c, s[i]), c.current_fn, c.current_public),
        occ_nodes(crate_id, file, c, s) == occ_cat(
            occ_cat(occ_nodes(crate_id, file, c, s.take(i)), occ_node(crate_id, file, c, s[i])),
            occ_nodes(crate_id, file, c, s.skip(i + 1)),
        ),
{
    lemma_scope_node(crate_id, file, c, s[i]);
    lemma_occ_split(crate_id, file, c, s, i);
}

/// The qualifier a kind adds to a fully qualified name.
pub open spec fn qualifier(k: FnKindV) -> Option<Seq<char>> {
    match k {
        FnKindV::FreeFn => None,
        FnKindV::ImplMethod { self_ty, .. } => Some(self_ty),
        FnKindV::TraitMethod { trait_name } => Some(trait_name),
    }
}

/// Fully qualified names are composed from (crate id, module path, kind,
/// name) alone, and two kinds yield the same segments only when they add
/// the same self-type or trait qualifier.
pub proof fn lemma_fq_identity(crate_id: Seq<char>, mods: Seq<Seq<char>>, k1: FnKindV, k2: FnKindV, name: Seq<char>)
    ensures
        qualifier(k1) == qualifier(k2) ==> fq_spec(crate_id, mods, k1, name) == fq_spec(crate_id, mods, k2, name),
        fq_parts(crate_id, mods, k1, name) == fq_parts(crate_id, mods, k2, name) ==> qualifier(k1) == qualifier(
            k2,
        ),
{
    let p1 = fq_parts(crate_id, mods, k1, name);
    let p2 = fq_parts(crate_id, mods, k2, name);
    if qualifier(k1) == qualifier(k2) {
        assert(p1 =~= p2);
    }
    assert(p1.len() == mods.len() + if qualifier(k1) is Some { 3int } else { 2int });
    assert(p2.len() == mods.len() + if qualifier(k2) is Some { 3int } else { 2int });
    if p1 == p2 {
        if qualifier(k1) is Some && qualifier(k2) is Some {
            assert(p1[p1.len() - 2] == qualifier(k1)->Some_0);
            assert(p2[p2.len() - 2] == qualifier(k2)->Some_0);
        }
    }
}

proof fn lemma_join_push(p: Seq<Seq<char>>, x: Seq<char>)
    requires
        p.len() >= 1,
    ensures
        join_spec(p.push(x), colons()) == join_spec(p, colons()) + colons() + x,
{
    assert(p.push(x).drop_last() =~= p);
}

/// The text of a fully qualified name: the crate and module part, then
/// `::` and the qualifier if any, then `::` and the name.
proof fn lemma_fq_text(crate_id: Seq<char>, mods: Seq<Seq<char>>, k: FnKindV, name: Seq<char>)
    ensures
        fq_spec(crate_id, mods, k, name) == match qualifier(k) {
            None => join_spec(seq![crate_id] + mods, colons()) + colons() + name,
            Some(q) => join_spec(seq![crate_id] + mods, colons()) + colons() + q + colons() + name,
        },
{
    let p = seq![crate_id] + mods;
    match qualifier(k) {
        None => {
            assert(fq_parts(crate_id, mods, k, name) =~= p.push(name));
            lemma_join_push(p, name);
        },
        Some(q) => {
            assert(fq_parts(crate_id, mods, k, name) =~= p.push(q).push(name));
            lemma_join_push(p, q);
            lemma_join_push(p.push(q), name);
            assert(join_spec(p, colons()) + colons() + q + colons() + name =~= (join_spec(p, colons()) + colons()
                + q) + colons() + name);
        },
    }
}

/// Two kinds give the same fully qualified name only when they add the
/// same self-type or trait qualifier (a free function never shares its
/// name with a method).
pub proof fn lemma_fq_names_distinct(crate_id: Seq<char>, mods: Seq<Seq<char>>, k1: FnKindV, k2: FnKindV, name: Seq<char>)
    requires
        fq_spec(crate_id, mods, k1, name) == fq_spec(crate_id, mods, k2, name),
    ensures
        qualifier(k1) == qualifier(k2),
{
    lemma_fq_text(crate_id, mods, k1, name);
    lemma_fq_text(crate_id, mods, k2, name);
    let j = join_spec(seq![crate_id] + mods, colons());
    let t = fq_spec(crate_id, mods, k1, name);
    match (qualifier(k1), qualifier(k2)) {
        (Some(q1), Some(q2)) => {
            assert(t.len() == j.len() + 4 + q1.len() + name.len());
            assert(t.len() == j.len() + 4 + q2.len() + name.len());
            assert(q1.len() == q2.len());
            let st = j.len() as int + 2;
            assert(q1 =~= t.subrange(st, st + q1.len()));
            assert(q2 =~= t.subrange(st, st + q2.len()));
        },
        (None, Some(q2)) => {
            assert(t.len() == j.len() + 2 + name.len());
            assert(t.len() == j.len() + 4 + q2.len() + name.len());
        },
        (Some(q1), None) => {
            assert(t.len() == j.len() + 2 + name.len());
            assert(t.len() == j.len() + 4 + q1.len() + name.len());
        },
        (None, None) => {},
    }
}

// ---------------------------------------------------------------------
// Laws of the import facts
// ---------------------------------------------------------------------

/// Every identifier of an import tree is non-empty.
pub open spec fn use_tree_wf(t: UseTree) -> bool
    decreases t,
{
    match t {
        UseTree::Path { ident, tree } => ident@.len() > 0 && use_tree_wf(*tree),
        UseTree::Group { items } => use_group_wf(items@),
        UseTree::Name { ident, .. } => ident@.len() > 0,
        UseTree::Rename { ident, .. } => ident@.len() > 0,
        UseTree::Glob { .. } => true,
    }
}

pub open spec fn use_group_wf(s: Seq<UseTree>) -> bool
    decreases s,
{
    s.len() == 0 || (use_group_wf(s.drop_last()) && use_tree_wf(s.last()))
}

/// Every identifier of the import trees and module names is non-empty.
pub open spec fn imports_wf_node(n: Node) -> bool
    decreases n,
{
    match n {
        Node::Use { tree, .. } => use_tree_wf(tree),
        Node::Mod { name, items } => name@.len() > 0 && imports_wf_nodes(items@),
        _ => true,
    }
}

pub open spec fn imports_wf_nodes(s: Seq<Node>) -> bool
    decreases s,
{
    s.len() == 0 || (imports_wf_nodes(s.drop_last()) && imports_wf_node(s.last()))
}

/// A non-empty root; no further segment only when the full path is the
/// root alone.
pub open spec fn import_shape_ok(x: StolenPathV) -> bool {
    x.root.len() > 0 && (x.segments.len() == 0 ==> (x.full_path == x.root || x.full_path == colons() + x.root))
}

pub open spec fn all_shape_ok(s: Seq<StolenPathV>) -> bool {
    forall|i: int| 0 <= i < s.len() ==> import_shape_ok(#[trigger] s[i])
}

proof fn lemma_shape_cat(a: Seq<StolenPathV>, b: Seq<StolenPathV>)
    requires
        all_shape_ok(a),
        all_shape_ok(b),
    ensures
        all_shape_ok(a + b),
{
    assert forall|i: int| 0 <= i < (a + b).len() implies import_shape_ok(#[trigger] (a + b)[i]) by {
        if i >= a.len() {
            assert((a + b)[i] == b[i - a.len()]);
        }
    }
}

proof fn lemma_flatten_shape(
    file: Seq<char>,
    mods: Seq<Seq<char>>,
    prefix: Seq<Seq<char>>,
    is_pub: bool,
    is_abs: bool,
    t: UseTree,
)
    requires
        forall|i: int| 0 <= i < prefix.len() ==> (#[trigger] prefix[i]).len() > 0,
        use_tree_wf(t),
    ensures
        all_shape_ok(flatten_use(file, mods, prefix, is_pub, is_abs, t)),
    decreases t,
{
    reveal_strlit("*");
    match t {
        UseTree::Path { ident, tree } => {
            let p = prefix.push(ident@);
            assert forall|i: int| 0 <= i < p.len() implies (#[trigger] p[i]).len() > 0 by {
                if i < prefix.len() {
                    assert(p[i] == prefix[i]);
                }
            }
            lemma_flatten_shape(file, mods, p, is_pub, is_abs, *tree);
        },
        UseTree::Group { items } => {
            lemma_flatten_group_shape(file, mods, prefix, is_pub, is_abs, items@);
        },
        UseTree::Name { ident, .. } => {
            let segs = if ident@ == "self"@ { prefix } else { prefix.push(ident@) };
            if segs.len() > 0 {
                assert(segs[0].len() > 0);
                if segs.len() == 1 {
                    assert(segs.drop_first().len() == 0);
                    assert(join_spec(segs, colons()) == segs[0]);
                }
            }
        },
        UseTree::Rename { ident, .. } => {
            let segs = prefix.push(ident@);
            assert(segs[0].len() > 0);
            if segs.len() == 1 {
                assert(join_spec(segs, colons()) == segs[0]);
            }
        },
        UseTree::Glob { .. } => {
            let segs = prefix.push("*"@);
            assert(segs[0].len() > 0);
            if segs.len() == 1 {
                assert(join_spec(segs, colons()) == segs[0]);
            }
        },
    }
}

proof fn lemma_flatten_group_shape(
    file: Seq<char>,
    mods: Seq<Seq<char>>,
    prefix: Seq<Seq<char>>,
    is_pub: bool,
    is_abs: bool,
    s: Seq<UseTree>,
)
    requires
        forall|i: int| 0 <= i < prefix.len() ==> (#[trigger] prefix[i]).len() > 0,
        use_group_wf(s),
    ensures
        all_shape_ok(flatten_use_group(file, mods, prefix, is_pub, is_abs, s)),
    decreases s,
{
    if s.len() > 0 {
        lemma_flatten_group_shape(file, mods, prefix, is_pub, is_abs, s.drop_last());
        lemma_flatten_shape(file, mods, prefix, is_pub, is_abs, s.last());
        lemma_shape_cat(
            flatten_use_group(file, mods, prefix, is_pub, is_abs, s.drop_last()),
            flatten_use(file, mods, prefix, is_pub, is_abs, s.last()),
        );
    }
}

proof fn lemma_imports_node_shape(file: Seq<char>, mods: Seq<Seq<char>>, n: Node)
    requires
        imports_wf_node(n),
    ensures
        all_shape_ok(imports_node(file, mods, n)),
    decreases n,
{
    match n {
        Node::Use { vis_public, leading_colon, tree } => {
            lemma_flatten_shape(file, mods, Seq::empty(), vis_public, leading_colon, tree);
        },
        Node::Mod { name, items } => {
            lemma_imports_nodes_shape(file, mods.push(name@), items@);
        },
        _ => {},
    }
}

/// Every import fact of a unit whose identifiers are non-empty has a
/// non-empty root, and has no further segment only when its path is that
/// single segment.
pub proof fn lemma_imports_nodes_shape(file: Seq<char>, mods: Seq<Seq<char>>, s: Seq<Node>)
    requires
        imports_wf_nodes(s),
    ensures
        all_shape_ok(imports_nodes(file, mods, s)),
    decreases s,
{
    if s.len() > 0 {
        lemma_imports_nodes_shape(file, mods, s.drop_last());
        lemma_imports_node_shape(file, mods, s.last());
        lemma_shape_cat(imports_nodes(file, mods, s.drop_last()), imports_node(file, mods, s.last()));
    }
}

} // verus!



