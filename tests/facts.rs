use klepto::extract::{extract_functions, extract_imports, extract_occurrences, extract_public_surface, fq_name};
use klepto::index::{EnclosingIndex, FnSpan};
use klepto::klepto::{classify_imports, norm_crate_root, Klepto};
use klepto::model::{FileLocation, FnKind, ImportOrigin, UseKind, UseSiteKind};
use klepto::query::ImportQuery;
use klepto::report::{findings_to_table, truncate};
use klepto::rules::{BuiltinRule, Rule, RuleRunner, StdInNoStdCrate, UndocumentedPublicApi, UnwrapInPublicApi};
use klepto::snapshot::{ExportFinger, FnFinger, Snapshot};
use klepto::syntax::{FnDecl, Node, SourceUnit, UseTree};
use klepto::use_sites::split_dep_path;

fn s(x: &str) -> String {
    x.to_string()
}

fn decl(name: &str, public: bool, docs: bool, ret: Option<&str>, start: (u32, u32), end: (u32, u32)) -> FnDecl {
    FnDecl {
        vis_public: public,
        attrs: if docs { vec![s("doc")] } else { vec![] },
        name: s(name),
        is_async: false,
        is_unsafe: false,
        is_const: false,
        is_generic: false,
        args: vec![s("x : u32")],
        return_ty: ret.map(s),
        signature: format!("fn {} (x : u32) -> {}", name, ret.unwrap_or("()")),
        start: Some(start),
        end: Some(end),
    }
}

fn name_leaf(ident: &str) -> UseTree {
    UseTree::Name { ident: s(ident), start: Some((1, 0)) }
}

fn path(ident: &str, tree: UseTree) -> UseTree {
    UseTree::Path { ident: s(ident), tree: Box::new(tree) }
}

fn use_item(public: bool, tree: UseTree) -> Node {
    Node::Use { vis_public: public, leading_colon: false, tree }
}

fn unit(path: &str, attrs: Vec<String>, items: Vec<Node>) -> SourceUnit {
    SourceUnit { path: s(path), attrs, items }
}

fn loc(file: &str, line: u32, col: u32) -> FileLocation {
    FileLocation { path: s(file), line: Some(line), column: Some(col) }
}

/// `use foo::{bar, baz as qux, *};`
fn scenario_d_unit() -> SourceUnit {
    let tree = path(
        "foo",
        UseTree::Group {
            items: vec![
                name_leaf("bar"),
                UseTree::Rename { ident: s("baz"), rename: s("qux"), start: Some((1, 14)) },
                UseTree::Glob { start: Some((1, 26)) },
            ],
        },
    );
    unit("src/lib.rs", vec![], vec![use_item(false, tree)])
}

#[test]
fn nested_import_decomposes_into_three_facts() {
    let imports = extract_imports(&scenario_d_unit());
    assert_eq!(imports.len(), 3);
    assert_eq!(imports[0].full_path, "foo::bar");
    assert!(matches!(imports[0].kind, UseKind::Name));
    assert_eq!(imports[1].full_path, "foo::baz");
    match &imports[1].kind {
        UseKind::Rename { alias } => assert_eq!(alias, "qux"),
        _ => panic!("expected a rename"),
    }
    assert_eq!(imports[2].full_path, "foo::*");
    assert!(matches!(imports[2].kind, UseKind::Glob));
    for i in &imports {
        assert_eq!(i.root, "foo");
        assert!(!i.is_internal);
        assert_eq!(i.is_absolute, Some(false));
        assert!(i.origin.is_none());
    }
}

#[test]
fn self_leaf_imports_the_prefix_itself() {
    let tree = path("crate", path("model", UseTree::Group { items: vec![name_leaf("self"), name_leaf("Item")] }));
    let u = unit("src/a.rs", vec![], vec![use_item(true, tree)]);
    let imports = extract_imports(&u);
    assert_eq!(imports.len(), 2);
    assert_eq!(imports[0].full_path, "crate::model");
    assert_eq!(imports[0].segments, vec![s("model")]);
    assert!(imports[0].is_internal);
    assert!(imports[0].is_public_use);
    assert_eq!(imports[1].full_path, "crate::model::Item");
    let exports = extract_public_surface(&u);
    assert_eq!(exports.len(), 2);
    assert_eq!(exports[0].exported_as, "model");
    assert_eq!(exports[0].source_path, "crate::model");
    assert_eq!(exports[1].exported_as, "Item");
    assert_eq!(exports[1].source_path, "crate::model::Item");
}

#[test]
fn single_segment_import_has_no_further_segments() {
    let u = unit(
        "src/a.rs",
        vec![],
        vec![Node::Use { vis_public: false, leading_colon: true, tree: name_leaf("serde") }],
    );
    let imports = extract_imports(&u);
    assert_eq!(imports.len(), 1);
    assert_eq!(imports[0].root, "serde");
    assert!(imports[0].segments.is_empty());
    assert_eq!(imports[0].full_path, "::serde");
    assert_eq!(imports[0].is_absolute, Some(true));
}

#[test]
fn imports_in_inline_modules_carry_the_module_path() {
    let inner = Node::Mod { name: s("inner"), items: vec![use_item(false, path("std", path("sync", name_leaf("Arc"))))] };
    let u = unit("src/a.rs", vec![], vec![inner]);
    let imports = extract_imports(&u);
    assert_eq!(imports.len(), 1);
    assert_eq!(imports[0].mod_path, vec![s("inner")]);
    assert_eq!(imports[0].full_path, "std::sync::Arc");
}

#[test]
fn fq_names_follow_the_scope() {
    let mods = vec![s("a"), s("b")];
    assert_eq!(fq_name("crate", &mods, &FnKind::FreeFn, "f"), "crate::a::b::f");
    let m = FnKind::ImplMethod { self_ty: s("Foo"), trait_ty: None };
    assert_eq!(fq_name("crate", &mods, &m, "f"), "crate::a::b::Foo::f");
    let t = FnKind::TraitMethod { trait_name: s("Bar") };
    assert_eq!(fq_name("crate", &mods, &t, "f"), "crate::a::b::Bar::f");
    assert_eq!(fq_name("crate", &mods, &t, "f"), fq_name("crate", &mods, &t, "f"));
}

fn sample_unit() -> SourceUnit {
    let body = vec![
        Node::MethodCall { method: s("unwrap"), start: Some((3, 8)) },
        Node::Macro { ident: None, path: vec![s("panic")], start: Some((4, 8)), in_item_position: false },
        Node::PathRef { segments: vec![s("std"), s("mem"), s("swap")], start: Some((5, 8)) },
        Node::PathRef { segments: vec![s("x")], start: Some((5, 20)) },
    ];
    let f = Node::Fn { decl: decl("f", true, false, Some("u32"), (2, 0), (6, 1)), body };
    let imp = Node::Impl {
        self_ty: s("Foo"),
        trait_path: Some(s("Display")),
        items: vec![Node::ImplFn { decl: decl("fmt", false, true, None, (8, 4), (10, 5)), body: vec![] }],
    };
    let tr = Node::Trait {
        name: s("Shape"),
        items: vec![Node::TraitFn { decl: decl("area", false, false, Some("f64"), (12, 4), (12, 30)), body: vec![] }],
    };
    let m = Node::Mod {
        name: s("a"),
        items: vec![Node::Fn { decl: decl("g", false, true, None, (14, 4), (16, 5)), body: vec![] }],
    };
    let top_macro = Node::Macro { ident: Some(s("mymac")), path: vec![s("macro_rules")], start: Some((18, 0)), in_item_position: true };
    let top_call = Node::Call { callee: s("helper"), start: Some((19, 0)) };
    unit("src/lib.rs", vec![], vec![f, imp, tr, m, top_macro, top_call])
}

#[test]
fn functions_of_every_kind_are_captured() {
    let fns = extract_functions("crate", &sample_unit());
    let names: Vec<&str> = fns.iter().map(|f| f.fq_name.as_str()).collect();
    assert_eq!(names, vec!["crate::f", "crate::Foo::fmt", "crate::Shape::area", "crate::a::g"]);
    assert!(fns[0].is_public && !fns[0].has_docs());
    assert!(!fns[1].is_public());
    assert!(fns[2].is_public, "trait methods are public");
    assert_eq!(fns[3].mod_path, vec![s("a")]);
    assert_eq!(fns[0].location.line, Some(2));
    match &fns[1].kind {
        FnKind::ImplMethod { self_ty, trait_ty } => {
            assert_eq!(self_ty, "Foo");
            assert_eq!(trait_ty.as_deref(), Some("Display"));
        }
        _ => panic!("expected an impl method"),
    }
}

#[test]
fn occurrences_carry_the_enclosing_function() {
    let (defs, invs, paths, calls) = extract_occurrences("crate", &sample_unit());
    assert_eq!(defs.len(), 1);
    assert_eq!(defs[0].name, "mymac");
    assert_eq!(invs.len(), 1);
    assert_eq!(invs[0].name, "panic");
    assert_eq!(invs[0].enclosing_fn.as_deref(), Some("crate::f"));
    assert_eq!(invs[0].enclosing_public, Some(true));
    assert_eq!(paths.len(), 1, "single-segment paths are filtered");
    assert_eq!(paths[0].path, "std::mem::swap");
    assert_eq!(paths[0].enclosing_fn.as_deref(), Some("crate::f"));
    assert_eq!(calls.len(), 2);
    assert_eq!(calls[0].callee, "unwrap");
    assert_eq!(calls[0].enclosing_public, Some(true));
    assert_eq!(calls[1].callee, "helper");
    assert_eq!(calls[1].enclosing_fn, None);
    assert_eq!(calls[1].enclosing_public, None);
}

#[test]
fn span_contains_is_inclusive_and_file_bound() {
    let span = FnSpan {
        fq_name: s("crate::f"),
        is_public: true,
        kind: FnKind::FreeFn,
        file: s("src/lib.rs"),
        start: Some((2, 4)),
        end: Some((6, 1)),
    };
    assert!(span.contains(&loc("src/lib.rs", 2, 4)));
    assert!(span.contains(&loc("src/lib.rs", 6, 1)));
    assert!(span.contains(&loc("src/lib.rs", 4, 0)));
    assert!(!span.contains(&loc("src/lib.rs", 2, 3)));
    assert!(!span.contains(&loc("src/lib.rs", 6, 2)));
    assert!(!span.contains(&loc("src/other.rs", 4, 0)));
    assert!(!span.contains(&FileLocation { path: s("src/lib.rs"), line: None, column: None }));
}

#[test]
fn index_returns_the_smallest_containing_span() {
    let inner = Node::Fn { decl: decl("inner", false, false, None, (3, 4), (5, 5)), body: vec![] };
    let outer = Node::Fn { decl: decl("outer", true, false, None, (1, 0), (10, 1)), body: vec![inner] };
    let u = unit("src/lib.rs", vec![], vec![outer]);
    let idx = EnclosingIndex::build("crate", &u);
    assert_eq!(idx.spans.len(), 2);
    assert_eq!(idx.enclosing(&loc("src/lib.rs", 4, 0)).map(|s| s.fq_name.as_str()), Some("crate::inner"));
    assert_eq!(idx.enclosing(&loc("src/lib.rs", 8, 0)).map(|s| s.fq_name.as_str()), Some("crate::outer"));
    assert!(idx.enclosing(&loc("src/lib.rs", 12, 0)).is_none());
    assert!(idx.enclosing(&loc("src/main.rs", 4, 0)).is_none());
    let other = EnclosingIndex::build("crate", &unit("src/main.rs", vec![], vec![Node::Fn {
        decl: decl("main", false, false, None, (1, 0), (3, 1)),
        body: vec![],
    }]));
    let merged = idx.merge(other);
    assert_eq!(merged.enclosing(&loc("src/main.rs", 2, 0)).map(|s| s.fq_name.as_str()), Some("crate::main"));
}

#[test]
fn equal_extents_resolve_to_the_first_span() {
    let a = Node::Fn { decl: decl("a", false, false, None, (1, 0), (3, 9)), body: vec![] };
    let b = Node::Fn { decl: decl("b", false, false, None, (1, 5), (3, 20)), body: vec![] };
    let idx = EnclosingIndex::build("c", &unit("f.rs", vec![], vec![a, b]));
    assert_eq!(idx.enclosing(&loc("f.rs", 2, 0)).map(|s| s.fq_name.as_str()), Some("c::a"));
}

fn classified_klepto(u: SourceUnit) -> Klepto {
    Klepto::from_units("crate", vec![u], &vec![s("my_ws")], &vec![s("serde"), s("regex")])
}

#[test]
fn classifier_assigns_each_origin() {
    let items = vec![
        use_item(false, path("crate", name_leaf("a"))),
        use_item(false, path("std", name_leaf("fmt"))),
        use_item(false, path("core", name_leaf("mem"))),
        use_item(false, path("alloc", name_leaf("vec"))),
        use_item(false, path("my-ws", name_leaf("x"))),
        use_item(false, path("serde", name_leaf("Serialize"))),
        use_item(false, path("rand", name_leaf("random"))),
    ];
    let k = classified_klepto(unit("src/lib.rs", vec![], items));
    let origins: Vec<Option<ImportOrigin>> = k.imports.iter().map(|i| i.origin).collect();
    assert_eq!(
        origins,
        vec![
            Some(ImportOrigin::Internal),
            Some(ImportOrigin::Std),
            Some(ImportOrigin::Core),
            Some(ImportOrigin::Alloc),
            Some(ImportOrigin::WorkspaceMember),
            Some(ImportOrigin::Dependency),
            Some(ImportOrigin::UnknownExternal),
        ]
    );
    let deps = k.imports().deps_only().collect();
    assert_eq!(deps.len(), 1);
    assert_eq!(deps[0].root, "serde");
    let stdish = k.imports().stdish_only().collect();
    assert_eq!(stdish.len(), 3);
    let std_only = k.imports().root("std").collect();
    assert_eq!(std_only.len(), 1);
    let internal = k.imports().internal_only().collect();
    assert_eq!(internal.len(), 1);
    assert_eq!(k.imports().full_path_starts_with("my-ws::").collect().len(), 1);
}

#[test]
fn classify_imports_in_place_normalizes_dashes() {
    let mut imports = extract_imports(&unit("a.rs", vec![], vec![use_item(false, path("my-dep", name_leaf("X")))]));
    classify_imports(&mut imports, &vec![], &vec![s("my_dep")]);
    assert_eq!(imports[0].origin, Some(ImportOrigin::Dependency));
    assert_eq!(norm_crate_root("a-b-c"), "a_b_c");
}

#[test]
fn undocumented_public_function_yields_one_finding() {
    let f = Node::Fn { decl: decl("f", true, false, None, (1, 0), (2, 1)), body: vec![] };
    let g = Node::Fn { decl: decl("g", true, true, None, (3, 0), (4, 1)), body: vec![] };
    let k = Klepto::from_units("crate", vec![unit("src/a.rs", vec![], vec![Node::Mod { name: s("a"), items: vec![f, g] }])], &vec![], &vec![]);
    let findings = UndocumentedPublicApi.run(&k);
    assert_eq!(findings.len(), 1);
    assert_eq!(findings[0].code, "KLEP001");
    assert!(findings[0].message.contains("crate::a::f"));
    assert_eq!(UndocumentedPublicApi.code(), "KLEP001");
}

#[test]
fn std_import_in_no_std_unit_yields_one_finding() {
    let u = unit("src/lib.rs", vec![s("no_std")], vec![use_item(false, path("std", path("sync", name_leaf("Arc"))))]);
    let k = classified_klepto(u);
    assert!(k.no_std_detected);
    let findings = StdInNoStdCrate.run(&k);
    assert_eq!(findings.len(), 1);
    assert!(findings[0].message.contains("std::sync::Arc"));
    assert_eq!(findings[0].code, "KLEP004");
}

#[test]
fn std_rule_is_silent_without_no_std() {
    let u = unit("src/lib.rs", vec![], vec![use_item(false, path("std", path("sync", name_leaf("Arc"))))]);
    let k = classified_klepto(u);
    assert!(StdInNoStdCrate.run(&k).is_empty());
}

#[test]
fn default_rules_run_in_registration_order() {
    let k = classified_klepto(sample_unit());
    let findings = RuleRunner::new(&k).with_default_rules().run();
    let codes: Vec<&str> = findings.iter().map(|f| f.code.as_str()).collect();
    assert_eq!(codes, vec!["KLEP001", "KLEP001", "KLEP002", "KLEP003"]);
    let unwraps = UnwrapInPublicApi.run(&k);
    assert_eq!(unwraps[0].message, "panic-ish call inside public fn crate::f: unwrap");
    let only = k.rules().add_rule(BuiltinRule::PanicMacrosInPublicApi).run();
    assert_eq!(only.len(), 1);
    assert_eq!(only[0].message, "macro panic! inside public fn crate::f");
}

#[test]
fn finders_filter_occurrences() {
    let k = classified_klepto(sample_unit());
    assert_eq!(k.find_paths("std::mem::swap").len(), 1);
    assert_eq!(k.find_paths("std::mem").len(), 0);
    assert_eq!(k.find_macro_invocations("panic").len(), 1);
    assert_eq!(k.find_calls("wrap").len(), 1);
    assert_eq!(k.public_surface().exports.len(), 0);
}

#[test]
fn doc_coverage_counts() {
    let k = classified_klepto(sample_unit());
    let c = k.doc_coverage();
    assert_eq!(c.public_total, 2);
    assert_eq!(c.public_documented, 0);
    assert!(!c.is_complete());
    let empty = Klepto::from_units("crate", vec![], &vec![], &vec![]);
    let c0 = empty.doc_coverage();
    assert_eq!(c0.public_total, 0);
    assert!(c0.is_complete());
}

#[test]
fn function_queries_compose() {
    let k = classified_klepto(sample_unit());
    assert_eq!(k.public_api().collect().len(), 2);
    assert_eq!(k.undocumented_public_api().collect().len(), 2);
    assert_eq!(k.functions().in_impl("Foo").collect().len(), 1);
    assert_eq!(k.functions().impls_trait("Display").collect().len(), 1);
    assert_eq!(k.functions().in_trait("Shape").collect()[0].name, "area");
    assert_eq!(k.functions().return_type_contains("u32").collect().len(), 1);
    assert_eq!(k.functions().takes_arg("u32").collect().len(), 4);
    assert_eq!(k.functions().has_attr("doc").collect().len(), 2);
    assert_eq!(k.functions().name_matches("^(f|g)$").collect().len(), 2);
    assert_eq!(k.functions().name_matches("(").collect().len(), 0);
    assert_eq!(k.functions().named("ar").is_async(false).collect().len(), 1);
    assert_eq!(k.functions().collect().len(), 4);
}

#[test]
fn use_sites_for_dependencies_and_internal_roots() {
    let body = vec![
        Node::PathRef { segments: vec![s("serde"), s("json"), s("to_string")], start: Some((2, 4)) },
        Node::Macro { ident: None, path: vec![s("crate"), s("mymac")], start: Some((3, 4)), in_item_position: false },
    ];
    let items = vec![
        use_item(false, path("serde", name_leaf("Serialize"))),
        use_item(false, path("crate", path("model", name_leaf("X")))),
        Node::Fn { decl: decl("run", true, false, None, (1, 0), (5, 1)), body },
    ];
    let k = classified_klepto(unit("src/lib.rs", vec![], items));
    let deps = k.dep_use_sites(&vec![s("serde")]);
    assert_eq!(deps.len(), 2);
    assert_eq!(deps[0].path, "serde::Serialize");
    assert_eq!(deps[0].head, "Serialize");
    assert_eq!(deps[0].scope, "file");
    assert!(matches!(deps[1].kind, UseSiteKind::Path));
    assert_eq!(deps[1].head, "json");
    assert_eq!(deps[1].scope, "crate::run");
    let internal = k.internal_use_sites();
    assert_eq!(internal.len(), 2);
    assert_eq!(internal[0].path, "crate::model::X");
    assert!(matches!(internal[1].kind, UseSiteKind::MacroCall));
    assert_eq!(internal[1].path, "crate::mymac");
}

#[test]
fn split_dep_path_trims_and_strips_leading_colons() {
    assert_eq!(
        split_dep_path("  ::serde::de::Error "),
        Some((s("serde"), s("de"), s("serde::de::Error")))
    );
    assert_eq!(split_dep_path("println"), None);
}

fn finger(fq: &str, sig: &str) -> FnFinger {
    FnFinger { fq_name: s(fq), sig_hash: format!("h({})", sig), signature: s(sig), location: loc("a.rs", 1, 0) }
}

fn snap(functions: Vec<FnFinger>, exports: Vec<(&str, &str)>, imports: Vec<&str>) -> Snapshot {
    Snapshot {
        crate_name: s("crate"),
        no_std: false,
        functions,
        exports: exports
            .into_iter()
            .map(|(a, b)| ExportFinger { exported_as: s(a), source_path: s(b), location: loc("a.rs", 1, 0) })
            .collect(),
        imports: imports.into_iter().map(s).collect(),
    }
}

#[test]
fn changed_return_type_is_one_changed_signature() {
    let old = snap(vec![finger("crate::a::f", "fn f () -> u32")], vec![], vec![]);
    let new = snap(vec![finger("crate::a::f", "fn f () -> u64")], vec![], vec![]);
    let d = new.diff(&old);
    assert_eq!(d.changed_signatures.len(), 1);
    assert_eq!(d.changed_signatures[0].0.fq_name, "crate::a::f");
    assert_eq!(d.changed_signatures[0].0.signature, "fn f () -> u32");
    assert_eq!(d.changed_signatures[0].1.signature, "fn f () -> u64");
    assert!(d.added_functions.is_empty());
    assert!(d.removed_functions.is_empty());
}

#[test]
fn diff_with_itself_is_empty() {
    let a = snap(
        vec![finger("c::b", "x"), finger("c::a", "y"), finger("c::a", "z")],
        vec![("X", "c::X"), ("X", "c::X")],
        vec!["std::fmt", "std::fmt", "serde"],
    );
    let d = a.diff(&a);
    assert!(d.added_functions.is_empty() && d.removed_functions.is_empty() && d.changed_signatures.is_empty());
    assert!(d.added_exports.is_empty() && d.removed_exports.is_empty());
    assert!(d.added_imports.is_empty() && d.removed_imports.is_empty());
}

#[test]
fn swapping_snapshots_swaps_added_and_removed() {
    let a = snap(vec![finger("c::f", "1"), finger("c::g", "2")], vec![("A", "c::A")], vec!["x", "y"]);
    let b = snap(vec![finger("c::g", "3"), finger("c::h", "4")], vec![("B", "c::B")], vec!["y", "z"]);
    let ab = b.diff(&a);
    let ba = a.diff(&b);
    let names = |v: &Vec<FnFinger>| v.iter().map(|f| f.fq_name.clone()).collect::<Vec<_>>();
    assert_eq!(names(&ab.added_functions), vec![s("c::h")]);
    assert_eq!(names(&ab.removed_functions), vec![s("c::f")]);
    assert_eq!(names(&ab.added_functions), names(&ba.removed_functions));
    assert_eq!(names(&ab.removed_functions), names(&ba.added_functions));
    assert_eq!(ab.added_imports, vec![s("z")]);
    assert_eq!(ab.added_imports, ba.removed_imports);
    assert_eq!(ab.added_exports[0].exported_as, "B");
    assert_eq!(ba.removed_exports[0].exported_as, "B");
    assert_eq!(ab.changed_signatures[0].0.signature, ba.changed_signatures[0].1.signature);
    assert_eq!(ab.changed_signatures[0].1.signature, ba.changed_signatures[0].0.signature);
}

#[test]
fn added_functions_come_out_in_name_order() {
    let old = snap(vec![], vec![], vec![]);
    let new = snap(vec![finger("c::zeta", "1"), finger("c::alpha", "2"), finger("c::mid", "3")], vec![], vec![]);
    let d = new.diff(&old);
    let names: Vec<&str> = d.added_functions.iter().map(|f| f.fq_name.as_str()).collect();
    assert_eq!(names, vec!["c::alpha", "c::mid", "c::zeta"]);
}

#[test]
fn snapshot_hashes_signatures_and_sorts_imports() {
    let items = vec![
        use_item(false, path("std", name_leaf("fmt"))),
        use_item(false, path("alloc", name_leaf("vec"))),
        use_item(false, path("std", name_leaf("fmt"))),
        Node::Fn { decl: decl("f", true, false, None, (1, 0), (2, 1)), body: vec![] },
    ];
    let k = classified_klepto(unit("src/lib.rs", vec![], items));
    let snap = k.snapshot();
    assert_eq!(snap.imports, vec![s("alloc::vec"), s("std::fmt")]);
    assert_eq!(snap.functions.len(), 1);
    let h = &snap.functions[0].sig_hash;
    assert_eq!(h.len(), 64);
    assert_ne!(h, &snap.functions[0].signature);
    assert!(h.chars().all(|c| c.is_ascii_hexdigit()));
    let again = Snapshot::from_klepto(&k);
    assert_eq!(&again.functions[0].sig_hash, h);
    let d = k.diff_snapshot(&snap);
    assert!(d.added_functions.is_empty() && d.changed_signatures.is_empty());
}

#[test]
fn table_has_fixed_columns_and_truncates_locations() {
    assert_eq!(truncate("abcdef", 10), "abcdef");
    assert_eq!(truncate("abcdefghij", 6), "abc...");
    let k = Klepto::from_units(
        "crate",
        vec![unit(
            "src/a/very/long/directory/name/file.rs",
            vec![],
            vec![Node::Fn { decl: decl("f", true, false, None, (12, 3), (13, 1)), body: vec![] }],
        )],
        &vec![],
        &vec![],
    );
    let findings = UndocumentedPublicApi.run(&k);
    let table = findings_to_table(&findings);
    let lines: Vec<&str> = table.lines().collect();
    assert_eq!(lines[0], "SEV  CODE    LOCATION                         MESSAGE");
    assert_eq!(lines[2], "Warn KLEP001 src/a/very/long/directory/na...  public function missing docs: crate::f");
    let short = FnSpan { fq_name: s("x"), is_public: true, kind: FnKind::FreeFn, file: s("a.rs"), start: None, end: None };
    assert!(!short.contains(&loc("a.rs", 1, 1)));
}

#[test]
fn public_use_filter_drops_private_imports() {
    let imports = extract_imports(&scenario_d_unit());
    let q = ImportQuery::new(imports);
    assert_eq!(q.public_use_only().collect().len(), 0);
}

#[test]
fn index_spans_are_ordered_by_start_line() {
    let inner = Node::Fn { decl: decl("inner", false, false, None, (1, 0), (2, 0)), body: vec![] };
    let outer = Node::Fn { decl: decl("outer", false, false, None, (5, 0), (9, 0)), body: vec![inner] };
    let later = Node::Fn { decl: decl("later", false, false, None, (5, 0), (6, 0)), body: vec![] };
    let idx = EnclosingIndex::build("c", &unit("f.rs", vec![], vec![outer, later]));
    let names: Vec<&str> = idx.spans.iter().map(|s| s.fq_name.as_str()).collect();
    assert_eq!(names, vec!["c::inner", "c::outer", "c::later"]);
}

#[test]
fn coverage_is_complete_when_every_public_function_is_documented() {
    let f = Node::Fn { decl: decl("f", true, true, None, (1, 0), (2, 1)), body: vec![] };
    let k = Klepto::from_units("crate", vec![unit("a.rs", vec![], vec![f])], &vec![], &vec![]);
    let c = k.doc_coverage();
    assert_eq!((c.public_total, c.public_documented), (1, 1));
    assert!(c.is_complete());
}

#[test]
fn export_diff_is_keyed_and_ordered() {
    let old = snap(vec![], vec![], vec![]);
    let ab = snap(vec![], vec![("b", "c::b"), ("a", "c::a"), ("a", "c::a")], vec![]);
    let ba = snap(vec![], vec![("a", "c::a"), ("b", "c::b")], vec![]);
    let d1 = ab.diff(&old);
    let d2 = ba.diff(&old);
    let names = |v: &Vec<ExportFinger>| v.iter().map(|e| e.exported_as.clone()).collect::<Vec<_>>();
    assert_eq!(names(&d1.added_exports), vec![s("a"), s("b")]);
    assert_eq!(names(&d1.added_exports), names(&d2.added_exports));
    assert_eq!(names(&old.diff(&ab).removed_exports), vec![s("a"), s("b")]);
}

fn finger_at(fq: &str, sig: &str, file: &str) -> FnFinger {
    FnFinger { fq_name: s(fq), sig_hash: format!("h({})", sig), signature: s(sig), location: loc(file, 1, 0) }
}

#[test]
fn equal_keys_keep_the_least_location_whatever_the_order() {
    let old = snap(vec![], vec![], vec![]);
    let mut x = snap(vec![], vec![], vec![]);
    x.exports = vec![
        ExportFinger { exported_as: s("b"), source_path: s("f::b"), location: loc("y.rs", 1, 0) },
        ExportFinger { exported_as: s("b"), source_path: s("f::b"), location: loc("x.rs", 1, 0) },
    ];
    let mut y = snap(vec![], vec![], vec![]);
    y.exports = vec![x.exports[1].clone(), x.exports[0].clone()];
    assert_eq!(x.diff(&old).added_exports[0].location.path, "x.rs");
    assert_eq!(y.diff(&old).added_exports[0].location.path, "x.rs");

    let a = snap(vec![finger_at("c::f", "one", "y.rs"), finger_at("c::f", "two", "x.rs")], vec![], vec![]);
    let b = snap(vec![finger_at("c::f", "two", "x.rs"), finger_at("c::f", "one", "y.rs")], vec![], vec![]);
    assert!(a.diff(&b).changed_signatures.is_empty());
    assert!(b.diff(&a).changed_signatures.is_empty());
    assert_eq!(a.diff(&old).added_functions[0].signature, "two");
}
