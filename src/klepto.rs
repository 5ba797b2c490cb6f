//! The merged fact set of a codebase: extraction over every unit, the
//! import origin classifier, the span index, and the finders.
use vstd::prelude::*;
use crate::extract::{
    crate_is_no_std, exports_nodes, extract_functions, extract_imports, extract_occurrences,
    extract_public_surface, fns_nodes, imports_nodes, occ_cat, occ_empty, occ_nodes, top_scope,
    unit_is_no_std, OccV,
};
use crate::index::{sort_by_start, spans_nodes, EnclosingIndex, FnSpanV};
use crate::model::{
    append_deep, CallOccurrence, CallOccurrenceV, CapturedFn, CapturedFnV, DocCoverage, ExportedSymbol,
    ExportedSymbolV, ImportOrigin, MacroDef, MacroInvocation, MacroInvocationV, PathOccurrence,
    PathOccurrenceV, PublicSurface, StolenPath, StolenPathV,
};
use crate::syntax::SourceUnit;
use crate::text::{contains_text, dashes_to_underscores, replace_dashes, text_contains};

verus! {

/// The facts of every unit of a codebase, merged in unit order.
pub struct Klepto {
    pub crate_name: String,
    pub files: Vec<SourceUnit>,
    pub functions: Vec<CapturedFn>,
    pub imports: Vec<StolenPath>,
    pub exports: Vec<ExportedSymbol>,
    pub macros_def: Vec<MacroDef>,
    pub macros_inv: Vec<MacroInvocation>,
    pub paths: Vec<PathOccurrence>,
    pub calls: Vec<CallOccurrence>,
    pub no_std_detected: bool,
    pub index: EnclosingIndex,
}

// ---------------------------------------------------------------------
// Merged facts over units
// ---------------------------------------------------------------------

pub open spec fn all_functions(crate_id: Seq<char>, units: Seq<SourceUnit>) -> Seq<CapturedFnV>
    decreases units.len(),
{
    if units.len() == 0 {
        Seq::empty()
    } else {
        all_functions(crate_id, units.drop_last()) + fns_nodes(
            crate_id,
            units.last().path@,
            top_scope(),
            units.last().items@,
        )
    }
}

pub open spec fn all_imports(units: Seq<SourceUnit>) -> Seq<StolenPathV>
    decreases units.len(),
{
    if units.len() == 0 {
        Seq::empty()
    } else {
        all_imports(units.drop_last()) + imports_nodes(units.last().path@, Seq::empty(), units.last().items@)
    }
}

pub open spec fn all_exports(units: Seq<SourceUnit>) -> Seq<ExportedSymbolV>
    decreases units.len(),
{
    if units.len() == 0 {
        Seq::empty()
    } else {
        all_exports(units.drop_last()) + exports_nodes(units.last().path@, Seq::empty(), units.last().items@)
    }
}

pub open spec fn all_occurrences(crate_id: Seq<char>, units: Seq<SourceUnit>) -> OccV
    decreases units.len(),
{
    if units.len() == 0 {
        occ_empty()
    } else {
        occ_cat(
            all_occurrences(crate_id, units.drop_last()),
            occ_nodes(crate_id, units.last().path@, top_scope(), units.last().items@),
        )
    }
}

pub open spec fn all_spans(crate_id: Seq<char>, units: Seq<SourceUnit>) -> Seq<FnSpanV>
    decreases units.len(),
{
    if units.len() == 0 {
        Seq::empty()
    } else {
        all_spans(crate_id, units.drop_last()) + sort_by_start(
            spans_nodes(crate_id, units.last().path@, top_scope(), units.last().items@),
        )
    }
}

pub open spec fn any_no_std(units: Seq<SourceUnit>) -> bool {
    exists|i: int| 0 <= i < units.len() && unit_is_no_std(#[trigger] units[i].attrs.deep_view())
}

// ---------------------------------------------------------------------
// Import origin classifier
// ---------------------------------------------------------------------

/// The origin of an import: internal roots first, then the platform
/// namespaces, then workspace members, then dependencies; roots compared
/// with `-` normalized to `_`.
pub open spec fn origin_spec(imp: StolenPathV, workspace: Seq<Seq<char>>, deps: Seq<Seq<char>>) -> ImportOrigin {
    let root = dashes_to_underscores(imp.root);
    if imp.is_internal {
        ImportOrigin::Internal
    } else if root == "std"@ {
        ImportOrigin::Std
    } else if root == "core"@ {
        ImportOrigin::Core
    } else if root == "alloc"@ {
        ImportOrigin::Alloc
    } else if workspace.contains(root) {
        ImportOrigin::WorkspaceMember
    } else if deps.contains(root) {
        ImportOrigin::Dependency
    } else {
        ImportOrigin::UnknownExternal
    }
}

pub open spec fn classified(imp: StolenPathV, workspace: Seq<Seq<char>>, deps: Seq<Seq<char>>) -> StolenPathV {
    StolenPathV { origin: Some(origin_spec(imp, workspace, deps)), ..imp }
}

/// A crate root with `-` replaced by `_`.
pub fn norm_crate_root(s: &str) -> (r: String)
    ensures
        r@ == dashes_to_underscores(s@),
{
    replace_dashes(s)
}

/// Whether `names` holds `s`.
pub fn names_contain(names: &Vec<String>, s: &String) -> (r: bool)
    ensures
        r == names.deep_view().contains(s@),
{
    let mut i: usize = 0;
    while i < names.len()
        invariant
            i <= names.len(),
            forall|j: int| 0 <= j < i ==> names@[j]@ != s@,
        decreases names.len() - i,
    {
        if names[i].eq(s) {
            proof {
                assert(names.deep_view()[i as int] == s@);
            }
            return true;
        }
        i += 1;
    }
    proof {
        if names.deep_view().contains(s@) {
            let k = choose|k: int| 0 <= k < names.deep_view().len() && names.deep_view()[k] == s@;
            assert(names@[k]@ == s@);
        }
    }
    false
}

/// Assigns each import its origin.
pub fn classify_imports(imports: &mut Vec<StolenPath>, workspace_members: &Vec<String>, dependency_crates: &Vec<String>)
    ensures
        final(imports).deep_view() == old(imports).deep_view().map_values(
            |x: StolenPathV| classified(x, workspace_members.deep_view(), dependency_crates.deep_view()),
        ),
{
    let ghost orig = imports.deep_view();
    let ghost ws = workspace_members.deep_view();
    let ghost ds = dependency_crates.deep_view();
    let std_s = String::from_str("std");
    let core_s = String::from_str("core");
    let alloc_s = String::from_str("alloc");
    let mut out: Vec<StolenPath> = Vec::new();
    let mut i: usize = 0;
    while i < imports.len()
        invariant
            i <= imports.len(),
            imports.deep_view() == orig,
            ws == workspace_members.deep_view(),
            ds == dependency_crates.deep_view(),
            std_s@ == "std"@,
            core_s@ == "core"@,
            alloc_s@ == "alloc"@,
            out.deep_view() == orig.take(i as int).map_values(|x: StolenPathV| classified(x, ws, ds)),
        decreases imports.len() - i,
    {
        let ghost o = out.deep_view();
        let mut x = imports[i].clone();
        let root = norm_crate_root(x.root.as_str());
        let origin = if x.is_internal {
            ImportOrigin::Internal
        } else if root.eq(&std_s) {
            ImportOrigin::Std
        } else if root.eq(&core_s) {
            ImportOrigin::Core
        } else if root.eq(&alloc_s) {
            ImportOrigin::Alloc
        } else if names_contain(workspace_members, &root) {
            ImportOrigin::WorkspaceMember
        } else if names_contain(dependency_crates, &root) {
            ImportOrigin::Dependency
        } else {
            ImportOrigin::UnknownExternal
        };
        x.origin = Some(origin);
        proof {
            assert(orig[i as int] == imports@[i as int].deep_view());
            assert(x.deep_view() == classified(orig[i as int], ws, ds));
        }
        out.push(x);
        proof {
            assert(out.deep_view() =~= o.push(x.deep_view()));
            assert(orig.take(i + 1) =~= orig.take(i as int).push(orig[i as int]));
            assert(orig.take(i + 1).map_values(|x: StolenPathV| classified(x, ws, ds)) =~= o.push(
                x.deep_view(),
            ));
        }
        i += 1;
    }
    proof {
        assert(orig.take(imports.len() as int) =~= orig);
    }
    *imports = out;
}

// ---------------------------------------------------------------------
// Building the merged fact set
// ---------------------------------------------------------------------

impl Klepto {
    /// Extracts every unit and merges the facts in unit order; classifies the
    /// merged imports against the two name sets; merges the span indexes.
    pub fn from_units(crate_name: &str, units: Vec<SourceUnit>, workspace_members: &Vec<String>, dependency_crates: &Vec<String>) -> (r: Klepto)
        ensures
            r.crate_name@ == crate_name@,
            r.files@ == units@,
            r.functions.deep_view() == all_functions(crate_name@, units@),
            r.imports.deep_view() == all_imports(units@).map_values(
                |x: StolenPathV| classified(x, workspace_members.deep_view(), dependency_crates.deep_view()),
            ),
            r.exports.deep_view() == all_exports(units@),
            r.macros_def.deep_view() == all_occurrences(crate_name@, units@).defs,
            r.macros_inv.deep_view() == all_occurrences(crate_name@, units@).invs,
            r.paths.deep_view() == all_occurrences(crate_name@, units@).paths,
            r.calls.deep_view() == all_occurrences(crate_name@, units@).calls,
            r.no_std_detected == any_no_std(units@),
            r.index.view_spans() == all_spans(crate_name@, units@),
    {
        let mut functions: Vec<CapturedFn> = Vec::new();
        let mut imports: Vec<StolenPath> = Vec::new();
        let mut exports: Vec<ExportedSymbol> = Vec::new();
        let mut macros_def: Vec<MacroDef> = Vec::new();
        let mut macros_inv: Vec<MacroInvocation> = Vec::new();
        let mut paths: Vec<PathOccurrence> = Vec::new();
        let mut calls: Vec<CallOccurrence> = Vec::new();
        let mut no_std_detected = false;
        let mut index = EnclosingIndex::new();
                let mut i: usize = 0;
        proof {
            assert(units@.take(0) =~= Seq::<SourceUnit>::empty());
            assert(functions.deep_view() =~= Seq::<CapturedFnV>::empty());
            assert(imports.deep_view() =~= Seq::<StolenPathV>::empty());
            assert(exports.deep_view() =~= Seq::<ExportedSymbolV>::empty());
            assert(macros_def.deep_view() =~= occ_empty().defs);
            assert(macros_inv.deep_view() =~= occ_empty().invs);
            assert(paths.deep_view() =~= occ_empty().paths);
            assert(calls.deep_view() =~= occ_empty().calls);
        }
        while i < units.len()
            invariant
                i <= units.len(),
                functions.deep_view() == all_functions(crate_name@, units@.take(i as int)),
                imports.deep_view() == all_imports(units@.take(i as int)),
                exports.deep_view() == all_exports(units@.take(i as int)),
                macros_def.deep_view() == all_occurrences(crate_name@, units@.take(i as int)).defs,
                macros_inv.deep_view() == all_occurrences(crate_name@, units@.take(i as int)).invs,
                paths.deep_view() == all_occurrences(crate_name@, units@.take(i as int)).paths,
                calls.deep_view() == all_occurrences(crate_name@, units@.take(i as int)).calls,
                no_std_detected == any_no_std(units@.take(i as int)),
                index.view_spans() == all_spans(crate_name@, units@.take(i as int)),
            decreases units.len() - i,
        {
            let u = &units[i];
            let ghost t = units@.take(i + 1);
            proof {
                assert(t.drop_last() =~= units@.take(i as int));
                assert(t.last() == units@[i as int]);
            }
            if crate_is_no_std(u) {
                no_std_detected = true;
            }
            proof {
                if no_std_detected {
                    if unit_is_no_std(u.attrs.deep_view()) {
                        assert(t[i as int] == *u);
                    } else {
                        let k = choose|k: int| 0 <= k < i && unit_is_no_std(#[trigger] units@.take(i as int)[k].attrs.deep_view());
                        assert(t[k] == units@.take(i as int)[k]);
                    }
                } else {
                    assert forall|k: int| 0 <= k < t.len() implies !unit_is_no_std(#[trigger] t[k].attrs.deep_view()) by {
                        if k < i {
                            assert(t[k] == units@.take(i as int)[k]);
                        }
                    }
                }
            }
            let ghost f0 = functions.deep_view();
            let fs = extract_functions(crate_name, u);
            append_deep(&mut functions, fs);
            let ghost i0 = imports.deep_view();
            let is = extract_imports(u);
            append_deep(&mut imports, is);
            let ghost e0 = exports.deep_view();
            let es = extract_public_surface(u);
            append_deep(&mut exports, es);
            let ghost d0 = macros_def.deep_view();
            let ghost v0 = macros_inv.deep_view();
            let ghost p0 = paths.deep_view();
            let ghost c0 = calls.deep_view();
            let (md, mi, po, co) = extract_occurrences(crate_name, u);
            append_deep(&mut macros_def, md);
            append_deep(&mut macros_inv, mi);
            append_deep(&mut paths, po);
            append_deep(&mut calls, co);
            index = index.merge(EnclosingIndex::build(crate_name, u));
            proof {
                assert(functions.deep_view() =~= f0 + fns_nodes(crate_name@, u.path@, top_scope(), u.items@));
                assert(imports.deep_view() =~= i0 + imports_nodes(u.path@, Seq::empty(), u.items@));
                assert(exports.deep_view() =~= e0 + exports_nodes(u.path@, Seq::empty(), u.items@));
                assert(macros_def.deep_view() =~= d0 + occ_nodes(crate_name@, u.path@, top_scope(), u.items@).defs);
                assert(macros_inv.deep_view() =~= v0 + occ_nodes(crate_name@, u.path@, top_scope(), u.items@).invs);
                assert(paths.deep_view() =~= p0 + occ_nodes(crate_name@, u.path@, top_scope(), u.items@).paths);
                assert(calls.deep_view() =~= c0 + occ_nodes(crate_name@, u.path@, top_scope(), u.items@).calls);
            }
            i += 1;
        }
        proof {
            assert(units@.take(units.len() as int) =~= units@);
        }
        classify_imports(&mut imports, workspace_members, dependency_crates);
        Klepto {
            crate_name: String::from_str(crate_name),
            files: units,
            functions,
            imports,
            exports,
            macros_def,
            macros_inv,
            paths,
            calls,
            no_std_detected,
            index,
        }
    }

    // -----------------------------------------------------------------
    // Finders
    // -----------------------------------------------------------------

    /// The public re-exports.
    pub fn public_surface(&self) -> (r: PublicSurface)
        ensures
            r.exports.deep_view() == self.exports.deep_view(),
    {
        let mut out: Vec<ExportedSymbol> = Vec::new();
        let mut i: usize = 0;
        while i < self.exports.len()
            invariant
                i <= self.exports.len(),
                out.deep_view() == self.exports.deep_view().take(i as int),
            decreases self.exports.len() - i,
        {
            let ghost o = out.deep_view();
            let e = self.exports[i].clone();
            out.push(e);
            proof {
                assert(out.deep_view() =~= o.push(e.deep_view()));
                assert(self.exports.deep_view().take(i + 1) =~= self.exports.deep_view().take(i as int).push(
                    self.exports.deep_view()[i as int],
                ));
            }
            i += 1;
        }
        proof {
            assert(self.exports.deep_view().take(self.exports.len() as int) =~= self.exports.deep_view());
        }
        PublicSurface { exports: out }
    }

    /// The path references whose text equals `needle`, in order.
    pub fn find_paths(&self, needle: &str) -> (r: Vec<PathOccurrence>)
        ensures
            r.deep_view() == self.paths.deep_view().filter(|p: PathOccurrenceV| p.path == needle@),
    {
        let ghost pred = |p: PathOccurrenceV| p.path == needle@;
        let target = String::from_str(needle);
        let mut out: Vec<PathOccurrence> = Vec::new();
        let mut i: usize = 0;
        proof {
            reveal(Seq::filter);
            assert(self.paths.deep_view().take(0).filter(pred) =~= Seq::<PathOccurrenceV>::empty());
            assert(out.deep_view() =~= Seq::<PathOccurrenceV>::empty());
        }
        while i < self.paths.len()
            invariant
                i <= self.paths.len(),
                target@ == needle@,
                pred == (|p: PathOccurrenceV| p.path == needle@),
                out.deep_view() == self.paths.deep_view().take(i as int).filter(pred),
            decreases self.paths.len() - i,
        {
            let ghost o = out.deep_view();
            let p = &self.paths[i];
            let hit = p.path.eq(&target);
            if hit {
                out.push(p.clone());
                proof {
                    assert(out.deep_view() =~= o.push(p.deep_view()));
                }
            }
            proof {
                reveal(Seq::filter);
                let t = self.paths.deep_view().take(i + 1);
                assert(t.drop_last() =~= self.paths.deep_view().take(i as int));
                assert(t.last() == p.deep_view());
                assert(t.filter(pred) == (if pred(t.last()) {
                    t.drop_last().filter(pred).push(t.last())
                } else {
                    t.drop_last().filter(pred)
                }));
            }
            i += 1;
        }
        proof {
            assert(self.paths.deep_view().take(self.paths.len() as int) =~= self.paths.deep_view());
        }
        out
    }

    /// The macro invocations named `name`, in order.
    pub fn find_macro_invocations(&self, name: &str) -> (r: Vec<MacroInvocation>)
        ensures
            r.deep_view() == self.macros_inv.deep_view().filter(|m: MacroInvocationV| m.name == name@),
    {
        let ghost pred = |m: MacroInvocationV| m.name == name@;
        let target = String::from_str(name);
        let mut out: Vec<MacroInvocation> = Vec::new();
        let mut i: usize = 0;
        proof {
            reveal(Seq::filter);
            assert(self.macros_inv.deep_view().take(0).filter(pred) =~= Seq::<MacroInvocationV>::empty());
            assert(out.deep_view() =~= Seq::<MacroInvocationV>::empty());
        }
        while i < self.macros_inv.len()
            invariant
                i <= self.macros_inv.len(),
                target@ == name@,
                pred == (|m: MacroInvocationV| m.name == name@),
                out.deep_view() == self.macros_inv.deep_view().take(i as int).filter(pred),
            decreases self.macros_inv.len() - i,
        {
            let ghost o = out.deep_view();
            let m = &self.macros_inv[i];
            let hit = m.name.eq(&target);
            if hit {
                out.push(m.clone());
                proof {
                    assert(out.deep_view() =~= o.push(m.deep_view()));
                }
            }
            proof {
                reveal(Seq::filter);
                let t = self.macros_inv.deep_view().take(i + 1);
                assert(t.drop_last() =~= self.macros_inv.deep_view().take(i as int));
                assert(t.last() == m.deep_view());
                assert(t.filter(pred) == (if pred(t.last()) {
                    t.drop_last().filter(pred).push(t.last())
                } else {
                    t.drop_last().filter(pred)
                }));
            }
            i += 1;
        }
        proof {
            assert(self.macros_inv.deep_view().take(self.macros_inv.len() as int) =~= self.macros_inv.deep_view());
        }
        out
    }

    /// The calls whose callee text contains `callee_contains`, in order.
    pub fn find_calls(&self, callee_contains: &str) -> (r: Vec<CallOccurrence>)
        ensures
            r.deep_view() == self.calls.deep_view().filter(
                |c: CallOccurrenceV| contains_text(c.callee, callee_contains@),
            ),
    {
        let ghost pred = |c: CallOccurrenceV| contains_text(c.callee, callee_contains@);
        let mut out: Vec<CallOccurrence> = Vec::new();
        let mut i: usize = 0;
        proof {
            reveal(Seq::filter);
            assert(self.calls.deep_view().take(0).filter(pred) =~= Seq::<CallOccurrenceV>::empty());
            assert(out.deep_view() =~= Seq::<CallOccurrenceV>::empty());
        }
        while i < self.calls.len()
            invariant
                i <= self.calls.len(),
                out.deep_view() == self.calls.deep_view().take(i as int).filter(pred),
                pred == (|c: CallOccurrenceV| contains_text(c.callee, callee_contains@)),
            decreases self.calls.len() - i,
        {
            let ghost o = out.deep_view();
            let c = &self.calls[i];
            let hit = text_contains(c.callee.as_str(), callee_contains);
            if hit {
                out.push(c.clone());
                proof {
                    assert(out.deep_view() =~= o.push(c.deep_view()));
                }
            }
            proof {
                reveal(Seq::filter);
                let t = self.calls.deep_view().take(i + 1);
                assert(t.drop_last() =~= self.calls.deep_view().take(i as int));
                assert(t.last() == c.deep_view());
                assert(t.filter(pred) == (if pred(t.last()) {
                    t.drop_last().filter(pred).push(t.last())
                } else {
                    t.drop_last().filter(pred)
                }));
            }
            i += 1;
        }
        proof {
            assert(self.calls.deep_view().take(self.calls.len() as int) =~= self.calls.deep_view());
        }
        out
    }

    /// Public and documented-public function counts.
    pub fn doc_coverage(&self) -> (r: DocCoverage)
        ensures
            r.public_total == self.functions.deep_view().filter(|f: CapturedFnV| f.is_public).len(),
            r.public_documented == self.functions.deep_view().filter(
                |f: CapturedFnV| f.is_public && f.has_docs,
            ).len(),
            r.public_documented <= r.public_total,
    {
        let ghost v = self.functions.deep_view();
        let ghost p1 = |f: CapturedFnV| f.is_public;
        let ghost p2 = |f: CapturedFnV| f.is_public && f.has_docs;
        let mut total: usize = 0;
        let mut documented: usize = 0;
        let mut i: usize = 0;
        proof {
            reveal(Seq::filter);
            assert(v.take(0).filter(p1) =~= Seq::<CapturedFnV>::empty());
            assert(v.take(0).filter(p2) =~= Seq::<CapturedFnV>::empty());
        }
        while i < self.functions.len()
            invariant
                i <= self.functions.len(),
                v == self.functions.deep_view(),
                p1 == (|f: CapturedFnV| f.is_public),
                p2 == (|f: CapturedFnV| f.is_public && f.has_docs),
                total == v.take(i as int).filter(p1).len(),
                documented == v.take(i as int).filter(p2).len(),
                documented <= total <= i,
            decreases self.functions.len() - i,
        {
            let f = &self.functions[i];
            proof {
                reveal(Seq::filter);
                let t = v.take(i + 1);
                assert(t.drop_last() =~= v.take(i as int));
                assert(t.last() == f.deep_view());
            }
            proof {
                reveal(Seq::filter);
            }
            if f.is_public {
                total += 1;
                if f.has_docs {
                    documented += 1;
                }
            }
            i += 1;
        }
        proof {
            assert(v.take(self.functions.len() as int) =~= v);
        }
        DocCoverage { public_total: total, public_documented: documented }
    }
}

} // verus!
