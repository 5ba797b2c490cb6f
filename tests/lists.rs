use klepto::text::trim_text;
use klepto::extract::extract_imports;
use klepto::find::Finder;
use klepto::imports_ext::ImportVecExt;
use klepto::klepto::Klepto;
use klepto::model::ImportOrigin;
use klepto::syntax::{FnDecl, Node, SourceUnit, UseTree};

fn s(x: &str) -> String {
    x.to_string()
}

fn leaf(root: &str, name: &str) -> UseTree {
    UseTree::Path { ident: s(root), tree: Box::new(UseTree::Name { ident: s(name), start: None }) }
}

fn use_item(public: bool, tree: UseTree) -> Node {
    Node::Use { vis_public: public, leading_colon: false, tree }
}

fn unit(items: Vec<Node>) -> SourceUnit {
    SourceUnit { path: s("src/lib.rs"), attrs: vec![], items }
}

#[test]
fn unique_keeps_first_occurrence_per_visibility() {
    let imports = extract_imports(&unit(vec![
        use_item(false, leaf("std", "fmt")),
        use_item(true, leaf("std", "fmt")),
        use_item(false, leaf("std", "fmt")),
        use_item(false, leaf("std", "mem")),
    ]));
    let u = imports.unique();
    assert_eq!(u.len(), 3);
    assert!(!u[0].is_public_use);
    assert!(u[1].is_public_use);
    assert_eq!(u[2].full_path, "std::mem");
}

#[test]
fn unique_prefer_pub_use_replaces_in_place() {
    let imports = extract_imports(&unit(vec![
        use_item(false, leaf("std", "fmt")),
        use_item(false, leaf("std", "mem")),
        use_item(true, leaf("std", "fmt")),
    ]));
    let u = imports.unique_prefer_pub_use();
    assert_eq!(u.len(), 2);
    assert_eq!(u[0].full_path, "std::fmt");
    assert!(u[0].is_public_use);
    assert_eq!(u[1].full_path, "std::mem");
}

#[test]
fn summary_and_groups_count_by_origin() {
    let k = Klepto::from_units(
        "crate",
        vec![unit(vec![
            use_item(true, leaf("std", "fmt")),
            use_item(false, leaf("serde", "Serialize")),
            use_item(false, UseTree::Path { ident: s("serde"), tree: Box::new(UseTree::Glob { start: None }) }),
            use_item(false, UseTree::Path {
                ident: s("crate"),
                tree: Box::new(UseTree::Rename { ident: s("a"), rename: s("b"), start: None }),
            }),
        ])],
        &vec![],
        &vec![s("serde")],
    );
    let sum = k.imports.summary();
    assert_eq!(sum.total, 4);
    assert_eq!(sum.pub_use_count, 1);
    assert_eq!(sum.glob_count, 1);
    assert_eq!(sum.rename_count, 1);
    assert_eq!(sum.absolute_count, 0);
    assert_eq!(
        sum.by_origin,
        vec![(ImportOrigin::Internal, 1), (ImportOrigin::Std, 1), (ImportOrigin::Dependency, 2)]
    );
    assert_eq!(sum.by_root, vec![(s("crate"), 1), (s("serde"), 2), (s("std"), 1)]);
    let roots = k.imports.group_by_root();
    assert_eq!(roots.len(), 3);
    assert_eq!(roots[1].0, "serde");
    assert_eq!(roots[1].1.len(), 2);
    let groups = k.imports.group_by_origin_owned();
    assert_eq!(groups.len(), 3);
    assert_eq!(groups[2].0, ImportOrigin::Dependency);
    assert_eq!(groups[2].1.len(), 2);
}

#[test]
fn finder_selects_accessor_calls() {
    let decl = FnDecl {
        vis_public: true,
        attrs: vec![],
        name: s("f"),
        is_async: false,
        is_unsafe: false,
        is_const: false,
        is_generic: false,
        args: vec![],
        return_ty: None,
        signature: s("fn f ()"),
        start: Some((1, 0)),
        end: Some((5, 1)),
    };
    let body = vec![
        Node::MethodCall { method: s("unwrap"), start: Some((2, 4)) },
        Node::Call { callee: s("x . expect"), start: Some((3, 4)) },
        Node::Call { callee: s("unwrap_or_default"), start: Some((4, 4)) },
        Node::Macro { ident: None, path: vec![s("println")], start: Some((4, 8)), in_item_position: false },
    ];
    let k = Klepto::from_units("crate", vec![unit(vec![Node::Fn { decl, body }])], &vec![], &vec![]);
    let f = Finder::new(&k);
    assert_eq!(f.unwrap_calls().len(), 1);
    assert_eq!(f.expect_calls().len(), 0);
    assert_eq!(f.calls_containing("unwrap").len(), 2);
    assert_eq!(f.macros("println").len(), 1);
    assert_eq!(f.paths_eq("std::fmt").len(), 0);
}

#[test]
fn query_filter_narrows_with_a_predicate() {
    let k = Klepto::from_units(
        "crate",
        vec![unit(vec![
            use_item(false, leaf("std", "fmt")),
            use_item(false, leaf("std", "mem")),
            use_item(false, leaf("serde", "Serialize")),
        ])],
        &vec![],
        &vec![],
    );
    let picked = k.imports().root("std").filter(|i| i.full_path.ends_with("mem"));
    assert_eq!(picked.len(), 1);
    assert_eq!(picked[0].full_path, "std::mem");
    let none = k.functions().filter(|_| true);
    assert!(none.is_empty());
}

#[test]
fn borrowed_groups_match_owned_groups() {
    let k = Klepto::from_units(
        "crate",
        vec![unit(vec![use_item(false, leaf("std", "fmt")), use_item(false, leaf("serde", "de"))])],
        &vec![],
        &vec![s("serde")],
    );
    let borrowed = k.imports.group_by_origin();
    let owned = k.imports.group_by_origin_owned();
    assert_eq!(borrowed.len(), owned.len());
    assert_eq!(borrowed[1].0, ImportOrigin::Dependency);
    assert_eq!(borrowed[1].1[0].full_path, "serde::de");
}

#[test]
fn trimming_removes_unicode_white_space_only_at_the_ends() {
    assert_eq!(trim_text("\u{3000}\t a b \u{a0}\n"), "a b");
    assert_eq!(trim_text("   "), "");
    assert_eq!(trim_text("x"), "x");
    assert_eq!(klepto::klepto::norm_crate_root("-a-"), "_a_");
}
