//! The fact records that extraction produces and the derived views read.
use vstd::prelude::*;

verus! {

/// A position in a source unit; line and column are absent when the
/// unit carries no position data.
pub struct FileLocation {
    pub path: String,
    pub line: Option<u32>,
    pub column: Option<u32>,
}

impl Clone for FileLocation {
    fn clone(&self) -> (r: Self)
        ensures
            r.deep_view() == self.deep_view(),
    {
        FileLocation { path: self.path.clone(), line: self.line, column: self.column }
    }
}

/// How a function-like declaration stands in its enclosing scope.
pub enum FnKind {
    FreeFn,
    ImplMethod { self_ty: String, trait_ty: Option<String> },
    TraitMethod { trait_name: String },
}

impl Clone for FnKind {
    fn clone(&self) -> (r: Self)
        ensures
            r.deep_view() == self.deep_view(),
    {
        match self {
            FnKind::FreeFn => FnKind::FreeFn,
            FnKind::ImplMethod { self_ty, trait_ty } => FnKind::ImplMethod {
                self_ty: self_ty.clone(),
                trait_ty: clone_opt_string(trait_ty),
            },
            FnKind::TraitMethod { trait_name } => FnKind::TraitMethod {
                trait_name: trait_name.clone(),
            },
        }
    }
}

/// One declared function, method or trait method.
pub struct CapturedFn {
    pub name: String,
    pub fq_name: String,
    pub is_public: bool,
    pub has_docs: bool,
    pub is_async: bool,
    pub is_unsafe: bool,
    pub is_const: bool,
    pub is_generic: bool,
    pub args: Vec<String>,
    pub return_ty: Option<String>,
    pub kind: FnKind,
    pub mod_path: Vec<String>,
    pub attrs: Vec<String>,
    pub signature: String,
    pub location: FileLocation,
}

impl CapturedFn {
    pub fn is_public(&self) -> (r: bool)
        ensures
            r == self.is_public,
    {
        self.is_public
    }

    pub fn has_docs(&self) -> (r: bool)
        ensures
            r == self.has_docs,
    {
        self.has_docs
    }
}

impl Clone for CapturedFn {
    fn clone(&self) -> (r: Self)
        ensures
            r.deep_view() == self.deep_view(),
    {
        CapturedFn {
            name: self.name.clone(),
            fq_name: self.fq_name.clone(),
            is_public: self.is_public,
            has_docs: self.has_docs,
            is_async: self.is_async,
            is_unsafe: self.is_unsafe,
            is_const: self.is_const,
            is_generic: self.is_generic,
            args: clone_strings(&self.args),
            return_ty: clone_opt_string(&self.return_ty),
            kind: self.kind.clone(),
            mod_path: clone_strings(&self.mod_path),
            attrs: clone_strings(&self.attrs),
            signature: self.signature.clone(),
            location: self.location.clone(),
        }
    }
}

/// The leaf form of one flattened import.
pub enum UseKind {
    Name,
    Glob,
    Rename { alias: String },
}

impl Clone for UseKind {
    fn clone(&self) -> (r: Self)
        ensures
            r.deep_view() == self.deep_view(),
    {
        match self {
            UseKind::Name => UseKind::Name,
            UseKind::Glob => UseKind::Glob,
            UseKind::Rename { alias } => UseKind::Rename { alias: alias.clone() },
        }
    }
}

/// Where an import's root comes from.
#[derive(Debug, Clone, Copy, PartialEq, Eq, Structural, Hash, PartialOrd, Ord)]
pub enum ImportOrigin {
    Internal,
    Std,
    Core,
    Alloc,
    WorkspaceMember,
    Dependency,
    UnknownExternal,
}

/// One flattened import leaf.
pub struct StolenPath {
    pub root: String,
    pub segments: Vec<String>,
    pub mod_path: Vec<String>,
    pub is_internal: bool,
    pub is_public_use: bool,
    pub kind: UseKind,
    pub full_path: String,
    pub location: FileLocation,
    pub origin: Option<ImportOrigin>,
    pub is_absolute: Option<bool>,
}

impl Clone for StolenPath {
    fn clone(&self) -> (r: Self)
        ensures
            r.deep_view() == self.deep_view(),
    {
        StolenPath {
            root: self.root.clone(),
            segments: clone_strings(&self.segments),
            mod_path: clone_strings(&self.mod_path),
            is_internal: self.is_internal,
            is_public_use: self.is_public_use,
            kind: self.kind.clone(),
            full_path: self.full_path.clone(),
            location: self.location.clone(),
            origin: self.origin,
            is_absolute: self.is_absolute,
        }
    }
}

/// One publicly re-exported name.
pub struct ExportedSymbol {
    pub exported_as: String,
    pub source_path: String,
    pub mod_path: Vec<String>,
    pub location: FileLocation,
}

impl Clone for ExportedSymbol {
    fn clone(&self) -> (r: Self)
        ensures
            r.deep_view() == self.deep_view(),
    {
        ExportedSymbol {
            exported_as: self.exported_as.clone(),
            source_path: self.source_path.clone(),
            mod_path: clone_strings(&self.mod_path),
            location: self.location.clone(),
        }
    }
}

/// A `macro_rules!` definition.
pub struct MacroDef {
    pub name: String,
    pub mod_path: Vec<String>,
    pub location: FileLocation,
}

/// A macro invocation with the function scope it was found in.
pub struct MacroInvocation {
    pub name: String,
    pub mod_path: Vec<String>,
    pub path: Option<String>,
    pub location: FileLocation,
    pub enclosing_fn: Option<String>,
    pub enclosing_public: Option<bool>,
}

impl Clone for MacroInvocation {
    fn clone(&self) -> (r: Self)
        ensures
            r.deep_view() == self.deep_view(),
    {
        MacroInvocation {
            name: self.name.clone(),
            mod_path: clone_strings(&self.mod_path),
            path: clone_opt_string(&self.path),
            location: self.location.clone(),
            enclosing_fn: clone_opt_string(&self.enclosing_fn),
            enclosing_public: self.enclosing_public,
        }
    }
}

/// A qualified path reference with the function scope it was found in.
pub struct PathOccurrence {
    pub path: String,
    pub mod_path: Vec<String>,
    pub location: FileLocation,
    pub enclosing_fn: Option<String>,
    pub enclosing_public: Option<bool>,
}

impl Clone for PathOccurrence {
    fn clone(&self) -> (r: Self)
        ensures
            r.deep_view() == self.deep_view(),
    {
        PathOccurrence {
            path: self.path.clone(),
            mod_path: clone_strings(&self.mod_path),
            location: self.location.clone(),
            enclosing_fn: clone_opt_string(&self.enclosing_fn),
            enclosing_public: self.enclosing_public,
        }
    }
}

/// A call or method call with the function scope it was found in.
pub struct CallOccurrence {
    pub callee: String,
    pub mod_path: Vec<String>,
    pub location: FileLocation,
    pub enclosing_fn: Option<String>,
    pub enclosing_public: Option<bool>,
}

impl Clone for CallOccurrence {
    fn clone(&self) -> (r: Self)
        ensures
            r.deep_view() == self.deep_view(),
    {
        CallOccurrence {
            callee: self.callee.clone(),
            mod_path: clone_strings(&self.mod_path),
            location: self.location.clone(),
            enclosing_fn: clone_opt_string(&self.enclosing_fn),
            enclosing_public: self.enclosing_public,
        }
    }
}

#[derive(Debug, Clone, Copy, PartialEq, Eq, Structural)]
pub enum Severity {
    Info,
    Warn,
    Deny,
}

/// One rule violation. `extra` is a list of named values that renderers
/// print as a structured payload.
pub struct Finding {
    pub severity: Severity,
    pub code: String,
    pub message: String,
    pub location: FileLocation,
    pub extra: Vec<(String, String)>,
}

/// Counts behind the documentation coverage figure.
pub struct DocCoverage {
    pub public_total: usize,
    pub public_documented: usize,
}

/// The coverage as a percentage: documented * 100 / total, and exactly 100
/// when there is no public function.
pub open spec fn coverage_percent(documented: nat, total: nat) -> real {
    if total == 0 {
        100real
    } else {
        (documented as real) * 100real / (total as real)
    }
}

impl DocCoverage {
    pub open spec fn percent(&self) -> real {
        coverage_percent(self.public_documented as nat, self.public_total as nat)
    }

    /// Whether the percentage is exactly 100.
    pub fn is_complete(&self) -> (r: bool)
        ensures
            r == (self.percent() == 100real),
    {
        if self.public_total == 0 {
            true
        } else {
            proof {
                let d = self.public_documented as real;
                let t = self.public_total as real;
                assert(t > 0real);
                assert((d * 100real / t == 100real) == (d == t)) by (nonlinear_arith)
                    requires t > 0real;
            }
            self.public_documented == self.public_total
        }
    }
}

/// The coverage is exactly 100 when there is no public function; with at
/// least one public function it is 100 only when every one is documented,
/// so over counts with an undocumented public function it is 100 exactly
/// when the total is 0.
pub proof fn lemma_coverage_full_iff_no_public(documented: nat, total: nat)
    requires
        documented <= total,
        total == 0 || documented < total,
    ensures
        (coverage_percent(documented, total) == 100real) <==> total == 0,
{
    if total > 0 {
        let d = documented as real;
        let t = total as real;
        assert(d < t);
        assert(d * 100real / t != 100real) by (nonlinear_arith)
            requires d < t, t > 0real;
    }
}

/// The publicly re-exported names of a codebase.
pub struct PublicSurface {
    pub exports: Vec<ExportedSymbol>,
}

/// How a use site refers to its root.
#[derive(Debug, Clone, Copy, PartialEq, Eq, Structural)]
pub enum UseSiteKind {
    UseStmt,
    ExternCrate,
    Attribute,
    MacroCall,
    Path,
}

/// One normalized reference to a symbol under a root of interest.
pub struct UseSite {
    pub dep: String,
    pub path: String,
    pub head: String,
    pub kind: UseSiteKind,
    pub location: FileLocation,
    pub scope: String,
}


/// Model of a location: file, line, column.
pub type LocationV = (Seq<char>, Option<u32>, Option<u32>);

impl DeepView for FileLocation {
    type V = LocationV;

    open spec fn deep_view(&self) -> LocationV {
        (self.path@, self.line, self.column)
    }
}

/// Model of a function kind.
pub enum FnKindV {
    FreeFn,
    ImplMethod { self_ty: Seq<char>, trait_ty: Option<Seq<char>> },
    TraitMethod { trait_name: Seq<char> },
}

impl DeepView for FnKind {
    type V = FnKindV;

    open spec fn deep_view(&self) -> FnKindV {
        match self {
            FnKind::FreeFn => FnKindV::FreeFn,
            FnKind::ImplMethod { self_ty, trait_ty } => FnKindV::ImplMethod {
                self_ty: self_ty@,
                trait_ty: trait_ty.deep_view(),
            },
            FnKind::TraitMethod { trait_name } => FnKindV::TraitMethod {
                trait_name: trait_name@,
            },
        }
    }
}

pub struct CapturedFnV {
    pub name: Seq<char>,
    pub fq_name: Seq<char>,
    pub is_public: bool,
    pub has_docs: bool,
    pub is_async: bool,
    pub is_unsafe: bool,
    pub is_const: bool,
    pub is_generic: bool,
    pub args: Seq<Seq<char>>,
    pub return_ty: Option<Seq<char>>,
    pub kind: FnKindV,
    pub mod_path: Seq<Seq<char>>,
    pub attrs: Seq<Seq<char>>,
    pub signature: Seq<char>,
    pub location: LocationV,
}

impl DeepView for CapturedFn {
    type V = CapturedFnV;

    open spec fn deep_view(&self) -> CapturedFnV {
        CapturedFnV {
            name: self.name@,
            fq_name: self.fq_name@,
            is_public: self.is_public,
            has_docs: self.has_docs,
            is_async: self.is_async,
            is_unsafe: self.is_unsafe,
            is_const: self.is_const,
            is_generic: self.is_generic,
            args: self.args.deep_view(),
            return_ty: self.return_ty.deep_view(),
            kind: self.kind.deep_view(),
            mod_path: self.mod_path.deep_view(),
            attrs: self.attrs.deep_view(),
            signature: self.signature@,
            location: self.location.deep_view(),
        }
    }
}

pub enum UseKindV {
    Name,
    Glob,
    Rename { alias: Seq<char> },
}

impl DeepView for UseKind {
    type V = UseKindV;

    open spec fn deep_view(&self) -> UseKindV {
        match self {
            UseKind::Name => UseKindV::Name,
            UseKind::Glob => UseKindV::Glob,
            UseKind::Rename { alias } => UseKindV::Rename { alias: alias@ },
        }
    }
}

pub struct StolenPathV {
    pub root: Seq<char>,
    pub segments: Seq<Seq<char>>,
    pub mod_path: Seq<Seq<char>>,
    pub is_internal: bool,
    pub is_public_use: bool,
    pub kind: UseKindV,
    pub full_path: Seq<char>,
    pub location: LocationV,
    pub origin: Option<ImportOrigin>,
    pub is_absolute: Option<bool>,
}

impl DeepView for StolenPath {
    type V = StolenPathV;

    open spec fn deep_view(&self) -> StolenPathV {
        StolenPathV {
            root: self.root@,
            segments: self.segments.deep_view(),
            mod_path: self.mod_path.deep_view(),
            is_internal: self.is_internal,
            is_public_use: self.is_public_use,
            kind: self.kind.deep_view(),
            full_path: self.full_path@,
            location: self.location.deep_view(),
            origin: self.origin,
            is_absolute: self.is_absolute,
        }
    }
}

pub struct ExportedSymbolV {
    pub exported_as: Seq<char>,
    pub source_path: Seq<char>,
    pub mod_path: Seq<Seq<char>>,
    pub location: LocationV,
}

impl DeepView for ExportedSymbol {
    type V = ExportedSymbolV;

    open spec fn deep_view(&self) -> ExportedSymbolV {
        ExportedSymbolV {
            exported_as: self.exported_as@,
            source_path: self.source_path@,
            mod_path: self.mod_path.deep_view(),
            location: self.location.deep_view(),
        }
    }
}

pub struct MacroDefV {
    pub name: Seq<char>,
    pub mod_path: Seq<Seq<char>>,
    pub location: LocationV,
}

impl DeepView for MacroDef {
    type V = MacroDefV;

    open spec fn deep_view(&self) -> MacroDefV {
        MacroDefV {
            name: self.name@,
            mod_path: self.mod_path.deep_view(),
            location: self.location.deep_view(),
        }
    }
}

pub struct MacroInvocationV {
    pub name: Seq<char>,
    pub mod_path: Seq<Seq<char>>,
    pub path: Option<Seq<char>>,
    pub location: LocationV,
    pub enclosing_fn: Option<Seq<char>>,
    pub enclosing_public: Option<bool>,
}

impl DeepView for MacroInvocation {
    type V = MacroInvocationV;

    open spec fn deep_view(&self) -> MacroInvocationV {
        MacroInvocationV {
            name: self.name@,
            mod_path: self.mod_path.deep_view(),
            path: self.path.deep_view(),
            location: self.location.deep_view(),
            enclosing_fn: self.enclosing_fn.deep_view(),
            enclosing_public: self.enclosing_public,
        }
    }
}

pub struct PathOccurrenceV {
    pub path: Seq<char>,
    pub mod_path: Seq<Seq<char>>,
    pub location: LocationV,
    pub enclosing_fn: Option<Seq<char>>,
    pub enclosing_public: Option<bool>,
}

impl DeepView for PathOccurrence {
    type V = PathOccurrenceV;

    open spec fn deep_view(&self) -> PathOccurrenceV {
        PathOccurrenceV {
            path: self.path@,
            mod_path: self.mod_path.deep_view(),
            location: self.location.deep_view(),
            enclosing_fn: self.enclosing_fn.deep_view(),
            enclosing_public: self.enclosing_public,
        }
    }
}

pub struct CallOccurrenceV {
    pub callee: Seq<char>,
    pub mod_path: Seq<Seq<char>>,
    pub location: LocationV,
    pub enclosing_fn: Option<Seq<char>>,
    pub enclosing_public: Option<bool>,
}

impl DeepView for CallOccurrence {
    type V = CallOccurrenceV;

    open spec fn deep_view(&self) -> CallOccurrenceV {
        CallOccurrenceV {
            callee: self.callee@,
            mod_path: self.mod_path.deep_view(),
            location: self.location.deep_view(),
            enclosing_fn: self.enclosing_fn.deep_view(),
            enclosing_public: self.enclosing_public,
        }
    }
}

pub struct FindingV {
    pub severity: Severity,
    pub code: Seq<char>,
    pub message: Seq<char>,
    pub location: LocationV,
    pub extra: Seq<(Seq<char>, Seq<char>)>,
}

impl DeepView for Finding {
    type V = FindingV;

    open spec fn deep_view(&self) -> FindingV {
        FindingV {
            severity: self.severity,
            code: self.code@,
            message: self.message@,
            location: self.location.deep_view(),
            extra: self.extra.deep_view(),
        }
    }
}

pub struct UseSiteV {
    pub dep: Seq<char>,
    pub path: Seq<char>,
    pub head: Seq<char>,
    pub kind: UseSiteKind,
    pub location: LocationV,
    pub scope: Seq<char>,
}

impl DeepView for UseSite {
    type V = UseSiteV;

    open spec fn deep_view(&self) -> UseSiteV {
        UseSiteV {
            dep: self.dep@,
            path: self.path@,
            head: self.head@,
            kind: self.kind,
            location: self.location.deep_view(),
            scope: self.scope@,
        }
    }
}

/// Moves the items of `b` to the end of `a`.
pub fn append_deep<T: DeepView>(a: &mut Vec<T>, b: Vec<T>)
    ensures
        final(a).deep_view() == old(a).deep_view() + b.deep_view(),
{
    let mut b = b;
    let ghost a0 = a@;
    let ghost b0 = b@;
    a.append(&mut b);
    proof {
        assert(a@ == a0 + b0);
        assert(a.deep_view() =~= old(a).deep_view() + Seq::new(b0.len(), |i: int| b0[i].deep_view()));
    }
}

pub fn clone_opt_string(o: &Option<String>) -> (r: Option<String>)
    ensures
        r.deep_view() == o.deep_view(),
{
    match o {
        Some(s) => Some(s.clone()),
        None => None,
    }
}

pub fn clone_strings(v: &Vec<String>) -> (r: Vec<String>)
    ensures
        r.deep_view() == v.deep_view(),
{
    let mut r: Vec<String> = Vec::new();
    let mut i: usize = 0;
    while i < v.len()
        invariant
            i <= v.len(),
            r.len() == i,
            forall|j: int| 0 <= j < i ==> r@[j]@ == v@[j]@,
        decreases v.len() - i,
    {
        r.push(v[i].clone());
        i += 1;
    }
    proof {
        assert(r.deep_view() =~= v.deep_view());
    }
    r
}

} // verus!
