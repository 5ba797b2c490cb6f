//! The parsed form of one source unit that extraction reads: the item tree
//! with its inline modules, type and trait blocks, function bodies, import
//! trees, and the macro, path and call occurrences in traversal order.
use vstd::prelude::*;

verus! {

/// A (line, column) position.
pub type Pos = (u32, u32);

/// A nested import declaration. A parsed tree's identifiers are non-empty
/// (`use_tree_wf` states it).
pub enum UseTree {
    Path { ident: String, tree: Box<UseTree> },
    Group { items: Vec<UseTree> },
    Name { ident: String, start: Option<Pos> },
    Rename { ident: String, rename: String, start: Option<Pos> },
    Glob { start: Option<Pos> },
}

/// The header of a function-like declaration.
pub struct FnDecl {
    /// Its own visibility modifier marks it externally visible.
    pub vis_public: bool,
    /// The path of each attribute, `::`-joined (`doc`, `test`, `tokio::main`).
    pub attrs: Vec<String>,
    pub name: String,
    pub is_async: bool,
    pub is_unsafe: bool,
    pub is_const: bool,
    pub is_generic: bool,
    /// The rendered text of each parameter.
    pub args: Vec<String>,
    /// The rendered return type, if one is written.
    pub return_ty: Option<String>,
    /// The rendered signature.
    pub signature: String,
    /// Inclusive start and end of the whole declaration.
    pub start: Option<Pos>,
    pub end: Option<Pos>,
}

/// One node of the tree, in traversal order. Container nodes hold the nodes
/// found inside them (including the paths in their headers); leaf nodes are
/// occurrences.
pub enum Node {
    /// An import declaration; `leading_colon` marks an absolute one.
    Use { vis_public: bool, leading_colon: bool, tree: UseTree },
    /// An inline module block.
    Mod { name: String, items: Vec<Node> },
    /// A free function item.
    Fn { decl: FnDecl, body: Vec<Node> },
    /// A type-implementation block; `self_ty` is the implemented type's
    /// terminal name (or its full text), `trait_path` the implemented trait.
    Impl { self_ty: String, trait_path: Option<String>, items: Vec<Node> },
    /// A trait definition.
    Trait { name: String, items: Vec<Node> },
    /// A method inside an implementation block.
    ImplFn { decl: FnDecl, body: Vec<Node> },
    /// A method declared inside a trait definition.
    TraitFn { decl: FnDecl, body: Vec<Node> },
    /// A macro invocation; `ident` is the name a `macro_rules!` item
    /// defines, `in_item_position` marks an invocation standing as an item.
    Macro { ident: Option<String>, path: Vec<String>, start: Option<Pos>, in_item_position: bool },
    /// A path reference, by segments.
    PathRef { segments: Vec<String>, start: Option<Pos> },
    /// A method call, by method name.
    MethodCall { method: String, start: Option<Pos> },
    /// A call, by the rendered text of its callee expression.
    Call { callee: String, start: Option<Pos> },
}

/// One parsed source unit.
pub struct SourceUnit {
    /// The file identity.
    pub path: String,
    /// The path of each inner attribute of the unit (`no_std`, ...).
    pub attrs: Vec<String>,
    pub items: Vec<Node>,
}

} // verus!
