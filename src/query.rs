//! The query engine: conjunctive, composable filters over function and
//! import facts.
use vstd::prelude::*;
use crate::klepto::{names_contain, Klepto};
use crate::model::{
    CapturedFn, CapturedFnV, FnKind, FnKindV, ImportOrigin, StolenPath,
    StolenPathV,
};
use crate::text::{contains_text, starts_with_text, text_contains, text_starts_with};

verus! {

/// Whether `pattern` compiles as a regular expression.
pub uninterp spec fn regex_valid(pattern: Seq<char>) -> bool;

/// Whether the compiled `pattern` matches somewhere in `text`.
pub uninterp spec fn regex_finds(pattern: Seq<char>, text: Seq<char>) -> bool;

/// Relies on `regex::Regex::new` (which fails exactly on patterns that do
/// not compile) and `Regex::is_match`.
#[verifier::external_body]
fn regex_is_match(pattern: &str, text: &str) -> (r: Option<bool>)
    ensures
        r == if regex_valid(pattern@) {
            Some(regex_finds(pattern@, text@))
        } else {
            None
        },
{
    match regex::Regex::new(pattern) {
        Ok(re) => Some(re.is_match(text)),
        Err(_) => None,
    }
}

/// The outcome of the name pattern filter: no pattern keeps everything; a
/// pattern that does not compile keeps nothing.
pub open spec fn pattern_hit(pattern: Option<Seq<char>>, name: Seq<char>) -> bool {
    match pattern {
        None => true,
        Some(p) => regex_valid(p) && regex_finds(p, name),
    }
}

/// A filter over function facts; every set criterion must hold.
pub struct FnQuery {
    items: Vec<CapturedFn>,
    public_only: bool,
    no_docs: bool,
    in_impl: Option<String>,
    impls_trait: Option<String>,
    in_trait: Option<String>,
    name_contains: Option<String>,
    name_regex: Option<String>,
    returns_contains: Option<String>,
    takes_arg_contains: Option<String>,
    is_async: Option<bool>,
    is_unsafe: Option<bool>,
    is_const: Option<bool>,
    is_generic: Option<bool>,
    has_attr: Option<String>,
}

pub open spec fn opt_holds<T>(o: Option<T>, p: spec_fn(T) -> bool) -> bool {
    match o {
        Some(x) => p(x),
        None => true,
    }
}

/// The criteria of a function query.
pub struct FnCriteria {
    pub public_only: bool,
    pub no_docs: bool,
    pub in_impl: Option<Seq<char>>,
    pub impls_trait: Option<Seq<char>>,
    pub in_trait: Option<Seq<char>>,
    pub name_contains: Option<Seq<char>>,
    pub name_regex: Option<Seq<char>>,
    pub returns_contains: Option<Seq<char>>,
    pub takes_arg_contains: Option<Seq<char>>,
    pub is_async: Option<bool>,
    pub is_unsafe: Option<bool>,
    pub is_const: Option<bool>,
    pub is_generic: Option<bool>,
    pub has_attr: Option<Seq<char>>,
}

pub open spec fn no_fn_criteria() -> FnCriteria {
    FnCriteria {
        public_only: false,
        no_docs: false,
        in_impl: None,
        impls_trait: None,
        in_trait: None,
        name_contains: None,
        name_regex: None,
        returns_contains: None,
        takes_arg_contains: None,
        is_async: None,
        is_unsafe: None,
        is_const: None,
        is_generic: None,
        has_attr: None,
    }
}

/// Whether `f` meets every criterion of `c` other than the name pattern,
/// and `regex_hit` says whether it meets that one.
pub open spec fn fn_passes_spec(c: FnCriteria, f: CapturedFnV, regex_hit: bool) -> bool {
    &&& c.public_only ==> f.is_public
    &&& c.no_docs ==> !f.has_docs
    &&& opt_holds(
        c.in_impl,
        |ty: Seq<char>|
            match f.kind {
                FnKindV::ImplMethod { self_ty, .. } => self_ty == ty,
                _ => false,
            },
    )
    &&& opt_holds(
        c.impls_trait,
        |tr: Seq<char>|
            match f.kind {
                FnKindV::ImplMethod { trait_ty, .. } => trait_ty == Some(tr),
                _ => false,
            },
    )
    &&& opt_holds(
        c.in_trait,
        |tr: Seq<char>|
            match f.kind {
                FnKindV::TraitMethod { trait_name } => trait_name == tr,
                _ => false,
            },
    )
    &&& opt_holds(c.name_contains, |s: Seq<char>| contains_text(f.name, s))
    &&& regex_hit
    &&& opt_holds(
        c.returns_contains,
        |s: Seq<char>|
            contains_text(
                match f.return_ty {
                    Some(t) => t,
                    None => Seq::empty(),
                },
                s,
            ),
    )
    &&& opt_holds(
        c.takes_arg_contains,
        |s: Seq<char>| exists|i: int| 0 <= i < f.args.len() && contains_text(#[trigger] f.args[i], s),
    )
    &&& opt_holds(c.is_async, |b: bool| f.is_async == b)
    &&& opt_holds(c.is_unsafe, |b: bool| f.is_unsafe == b)
    &&& opt_holds(c.is_const, |b: bool| f.is_const == b)
    &&& opt_holds(c.is_generic, |b: bool| f.is_generic == b)
    &&& opt_holds(c.has_attr, |a: Seq<char>| f.attrs.contains(a))
}

/// Whether `f` is kept by the criteria `c`.
pub open spec fn fn_kept(c: FnCriteria, f: CapturedFnV) -> bool {
    fn_passes_spec(c, f, pattern_hit(c.name_regex, f.name))
}

impl FnQuery {
    pub closed spec fn items_view(&self) -> Seq<CapturedFnV> {
        self.items.deep_view()
    }

    pub closed spec fn criteria(&self) -> FnCriteria {
        FnCriteria {
            public_only: self.public_only,
            no_docs: self.no_docs,
            in_impl: self.in_impl.deep_view(),
            impls_trait: self.impls_trait.deep_view(),
            in_trait: self.in_trait.deep_view(),
            name_contains: self.name_contains.deep_view(),
            name_regex: self.name_regex.deep_view(),
            returns_contains: self.returns_contains.deep_view(),
            takes_arg_contains: self.takes_arg_contains.deep_view(),
            is_async: self.is_async,
            is_unsafe: self.is_unsafe,
            is_const: self.is_const,
            is_generic: self.is_generic,
            has_attr: self.has_attr.deep_view(),
        }
    }

    /// An unfiltered query over `items`.
    pub fn new(items: Vec<CapturedFn>) -> (r: FnQuery)
        ensures
            r.items_view() == items.deep_view(),
            r.criteria() == no_fn_criteria(),
    {
        FnQuery {
            items,
            public_only: false,
            no_docs: false,
            in_impl: None,
            impls_trait: None,
            in_trait: None,
            name_contains: None,
            name_regex: None,
            returns_contains: None,
            takes_arg_contains: None,
            is_async: None,
            is_unsafe: None,
            is_const: None,
            is_generic: None,
            has_attr: None,
        }
    }

    pub fn public_only(self) -> (r: FnQuery)
        ensures
            r.items_view() == self.items_view(),
            r.criteria() == (FnCriteria { public_only: true, ..self.criteria() }),
    {
        FnQuery { public_only: true, ..self }
    }

    pub fn no_docs(self) -> (r: FnQuery)
        ensures
            r.items_view() == self.items_view(),
            r.criteria() == (FnCriteria { no_docs: true, ..self.criteria() }),
    {
        FnQuery { no_docs: true, ..self }
    }

    /// Keeps methods of implementation blocks for the type named `ty`.
    pub fn in_impl(self, ty: &str) -> (r: FnQuery)
        ensures
            r.items_view() == self.items_view(),
            r.criteria() == (FnCriteria { in_impl: Some(ty@), ..self.criteria() }),
    {
        FnQuery { in_impl: Some(String::from_str(ty)), ..self }
    }

    /// Keeps methods of implementations of the trait named `tr`.
    pub fn impls_trait(self, tr: &str) -> (r: FnQuery)
        ensures
            r.items_view() == self.items_view(),
            r.criteria() == (FnCriteria { impls_trait: Some(tr@), ..self.criteria() }),
    {
        FnQuery { impls_trait: Some(String::from_str(tr)), ..self }
    }

    /// Keeps methods declared in the trait named `tr`.
    pub fn in_trait(self, tr: &str) -> (r: FnQuery)
        ensures
            r.items_view() == self.items_view(),
            r.criteria() == (FnCriteria { in_trait: Some(tr@), ..self.criteria() }),
    {
        FnQuery { in_trait: Some(String::from_str(tr)), ..self }
    }

    /// Keeps functions whose name contains `n`.
    pub fn named(self, n: &str) -> (r: FnQuery)
        ensures
            r.items_view() == self.items_view(),
            r.criteria() == (FnCriteria { name_contains: Some(n@), ..self.criteria() }),
    {
        self.name_contains(n)
    }

    /// Keeps functions whose name contains `s`.
    pub fn name_contains(self, s: &str) -> (r: FnQuery)
        ensures
            r.items_view() == self.items_view(),
            r.criteria() == (FnCriteria { name_contains: Some(s@), ..self.criteria() }),
    {
        FnQuery { name_contains: Some(String::from_str(s)), ..self }
    }

    /// Keeps functions whose name the regular expression `re` matches.
    pub fn name_matches(self, re: &str) -> (r: FnQuery)
        ensures
            r.items_view() == self.items_view(),
            r.criteria() == (FnCriteria { name_regex: Some(re@), ..self.criteria() }),
    {
        FnQuery { name_regex: Some(String::from_str(re)), ..self }
    }

    /// Keeps functions whose return type text contains `s` (no return
    /// type counts as empty text).
    pub fn return_type_contains(self, s: &str) -> (r: FnQuery)
        ensures
            r.items_view() == self.items_view(),
            r.criteria() == (FnCriteria { returns_contains: Some(s@), ..self.criteria() }),
    {
        FnQuery { returns_contains: Some(String::from_str(s)), ..self }
    }

    /// Keeps functions with an argument whose text contains `s`.
    pub fn takes_arg(self, s: &str) -> (r: FnQuery)
        ensures
            r.items_view() == self.items_view(),
            r.criteria() == (FnCriteria { takes_arg_contains: Some(s@), ..self.criteria() }),
    {
        FnQuery { takes_arg_contains: Some(String::from_str(s)), ..self }
    }

    pub fn is_async(self, yes: bool) -> (r: FnQuery)
        ensures
            r.items_view() == self.items_view(),
            r.criteria() == (FnCriteria { is_async: Some(yes), ..self.criteria() }),
    {
        FnQuery { is_async: Some(yes), ..self }
    }

    pub fn is_unsafe(self, yes: bool) -> (r: FnQuery)
        ensures
            r.items_view() == self.items_view(),
            r.criteria() == (FnCriteria { is_unsafe: Some(yes), ..self.criteria() }),
    {
        FnQuery { is_unsafe: Some(yes), ..self }
    }

    pub fn is_const(self, yes: bool) -> (r: FnQuery)
        ensures
            r.items_view() == self.items_view(),
            r.criteria() == (FnCriteria { is_const: Some(yes), ..self.criteria() }),
    {
        FnQuery { is_const: Some(yes), ..self }
    }

    pub fn is_generic(self, yes: bool) -> (r: FnQuery)
        ensures
            r.items_view() == self.items_view(),
            r.criteria() == (FnCriteria { is_generic: Some(yes), ..self.criteria() }),
    {
        FnQuery { is_generic: Some(yes), ..self }
    }

    /// Keeps functions carrying an attribute whose path is `a`.
    pub fn has_attr(self, a: &str) -> (r: FnQuery)
        ensures
            r.items_view() == self.items_view(),
            r.criteria() == (FnCriteria { has_attr: Some(a@), ..self.criteria() }),
    {
        FnQuery { has_attr: Some(String::from_str(a)), ..self }
    }

    /// Whether `f` meets every criterion, given whether it meets the name
    /// pattern.
    pub fn fn_passes(&self, f: &CapturedFn, regex_hit: bool) -> (r: bool)
        ensures
            r == fn_passes_spec(self.criteria(), f.deep_view(), regex_hit),
    {
        if self.public_only && !f.is_public {
            return false;
        }
        if self.no_docs && f.has_docs {
            return false;
        }
        match &self.in_impl {
            Some(ty) => match &f.kind {
                FnKind::ImplMethod { self_ty, .. } => {
                    if !self_ty.eq(ty) {
                        return false;
                    }
                },
                _ => return false,
            },
            None => {},
        }
        match &self.impls_trait {
            Some(tr) => match &f.kind {
                FnKind::ImplMethod { trait_ty, .. } => match trait_ty {
                    Some(t) => {
                        if !t.eq(tr) {
                            return false;
                        }
                    },
                    None => return false,
                },
                _ => return false,
            },
            None => {},
        }
        match &self.in_trait {
            Some(tr) => match &f.kind {
                FnKind::TraitMethod { trait_name } => {
                    if !trait_name.eq(tr) {
                        return false;
                    }
                },
                _ => return false,
            },
            None => {},
        }
        match &self.name_contains {
            Some(s) => {
                if !text_contains(f.name.as_str(), s.as_str()) {
                    return false;
                }
            },
            None => {},
        }
        if !regex_hit {
            return false;
        }
        match &self.returns_contains {
            Some(s) => {
                let hit = match &f.return_ty {
                    Some(t) => text_contains(t.as_str(), s.as_str()),
                    None => text_contains("", s.as_str()),
                };
                proof {
                    if f.return_ty is None {
                        assert(""@ =~= Seq::<char>::empty()) by {
                            reveal_strlit("");
                        }
                    }
                }
                if !hit {
                    return false;
                }
            },
            None => {},
        }
        match &self.takes_arg_contains {
            Some(s) => {
                let mut found = false;
                let mut i: usize = 0;
                while i < f.args.len()
                    invariant
                        i <= f.args.len(),
                        found == exists|j: int| 0 <= j < i && contains_text(#[trigger] f.args.deep_view()[j], s@),
                    decreases f.args.len() - i,
                {
                    let h = text_contains(f.args[i].as_str(), s.as_str());
                    proof {
                        assert(f.args.deep_view()[i as int] == f.args@[i as int]@);
                    }
                    if h {
                        found = true;
                    }
                    i += 1;
                }
                if !found {
                    return false;
                }
            },
            None => {},
        }
        if let Some(b) = self.is_async {
            if f.is_async != b {
                return false;
            }
        }
        if let Some(b) = self.is_unsafe {
            if f.is_unsafe != b {
                return false;
            }
        }
        if let Some(b) = self.is_const {
            if f.is_const != b {
                return false;
            }
        }
        if let Some(b) = self.is_generic {
            if f.is_generic != b {
                return false;
            }
        }
        match &self.has_attr {
            Some(a) => names_contain(&f.attrs, a),
            None => true,
        }
    }

    /// The kept functions without those on which `f` answers false, in
    /// order.
    pub fn filter<F: Fn(&CapturedFn) -> bool>(self, f: F) -> (r: Vec<CapturedFn>)
        requires
            forall|x: &CapturedFn| call_requires(f, (x,)),
        ensures
            exists|kept: Seq<CapturedFn>|
                kept.map_values(|x: CapturedFn| x.deep_view()) == self.items_view().filter(|g: CapturedFnV| fn_kept(self.criteria(), g))
                    && narrowed_by(f, kept, r@),
    {
        let c = self.collect();
        let ghost cv = c@;
        let r = narrow(c, f);
        proof {
            assert(cv.map_values(|x: CapturedFn| x.deep_view()) =~= self.items_view().filter(|g: CapturedFnV| fn_kept(self.criteria(), g)));
        }
        r
    }

    /// The kept functions, in order.
    pub fn collect(self) -> (r: Vec<CapturedFn>)
        ensures
            r.deep_view() == self.items_view().filter(|f: CapturedFnV| fn_kept(self.criteria(), f)),
    {
        let ghost v = self.items_view();
        let ghost pred = |f: CapturedFnV| fn_kept(self.criteria(), f);
        let mut out: Vec<CapturedFn> = Vec::new();
        let mut i: usize = 0;
        proof {
            reveal(Seq::filter);
            assert(v.take(0).filter(pred) =~= Seq::<CapturedFnV>::empty());
            assert(out.deep_view() =~= Seq::<CapturedFnV>::empty());
        }
        while i < self.items.len()
            invariant
                i <= self.items.len(),
                v == self.items_view(),
                pred == (|f: CapturedFnV| fn_kept(self.criteria(), f)),
                out.deep_view() == v.take(i as int).filter(pred),
            decreases self.items.len() - i,
        {
            let ghost o = out.deep_view();
            let f = &self.items[i];
            let hit = match &self.name_regex {
                Some(p) => match regex_is_match(p.as_str(), f.name.as_str()) {
                    Some(b) => b,
                    None => false,
                },
                None => true,
            };
            let keep = self.fn_passes(f, hit);
            if keep {
                let c = f.clone();
                out.push(c);
                proof {
                    assert(out.deep_view() =~= o.push(c.deep_view()));
                }
            }
            proof {
                reveal(Seq::filter);
                let t = v.take(i + 1);
                assert(t.drop_last() =~= v.take(i as int));
                assert(t.last() == f.deep_view());
            }
            i += 1;
        }
        proof {
            assert(v.take(self.items.len() as int) =~= v);
        }
        out
    }
}

/// A filter over import facts; every set criterion must hold.
pub struct ImportQuery {
    items: Vec<StolenPath>,
    root: Option<String>,
    internal_only: bool,
    public_use_only: bool,
    full_prefix: Option<String>,
    origin: Option<ImportOrigin>,
    stdish_only: bool,
}

/// The platform namespaces.
pub open spec fn is_stdish(o: Option<ImportOrigin>) -> bool {
    o == Some(ImportOrigin::Std) || o == Some(ImportOrigin::Core) || o == Some(ImportOrigin::Alloc)
}

/// The criteria of an import query.
pub struct ImportCriteria {
    pub root: Option<Seq<char>>,
    pub internal_only: bool,
    pub public_use_only: bool,
    pub full_prefix: Option<Seq<char>>,
    pub origin: Option<ImportOrigin>,
    pub stdish_only: bool,
}

pub open spec fn no_import_criteria() -> ImportCriteria {
    ImportCriteria {
        root: None,
        internal_only: false,
        public_use_only: false,
        full_prefix: None,
        origin: None,
        stdish_only: false,
    }
}

/// Whether `i` meets every criterion of `c`.
pub open spec fn import_kept(c: ImportCriteria, i: StolenPathV) -> bool {
    &&& opt_holds(c.root, |r: Seq<char>| i.root == r)
    &&& c.internal_only ==> i.is_internal
    &&& c.public_use_only ==> i.is_public_use
    &&& opt_holds(c.full_prefix, |p: Seq<char>| starts_with_text(i.full_path, p))
    &&& opt_holds(c.origin, |o: ImportOrigin| i.origin == Some(o))
    &&& c.stdish_only ==> is_stdish(i.origin)
}

impl ImportQuery {
    pub closed spec fn items_view(&self) -> Seq<StolenPathV> {
        self.items.deep_view()
    }

    pub closed spec fn criteria(&self) -> ImportCriteria {
        ImportCriteria {
            root: self.root.deep_view(),
            internal_only: self.internal_only,
            public_use_only: self.public_use_only,
            full_prefix: self.full_prefix.deep_view(),
            origin: self.origin,
            stdish_only: self.stdish_only,
        }
    }

    /// An unfiltered query over `items`.
    pub fn new(items: Vec<StolenPath>) -> (r: ImportQuery)
        ensures
            r.items_view() == items.deep_view(),
            r.criteria() == no_import_criteria(),
    {
        ImportQuery {
            items,
            root: None,
            internal_only: false,
            public_use_only: false,
            full_prefix: None,
            origin: None,
            stdish_only: false,
        }
    }

    pub fn root(self, r: &str) -> (q: ImportQuery)
        ensures
            q.items_view() == self.items_view(),
            q.criteria() == (ImportCriteria { root: Some(r@), ..self.criteria() }),
    {
        ImportQuery { root: Some(String::from_str(r)), ..self }
    }

    pub fn internal_only(self) -> (q: ImportQuery)
        ensures
            q.items_view() == self.items_view(),
            q.criteria() == (ImportCriteria { internal_only: true, ..self.criteria() }),
    {
        ImportQuery { internal_only: true, ..self }
    }

    pub fn public_use_only(self) -> (q: ImportQuery)
        ensures
            q.items_view() == self.items_view(),
            q.criteria() == (ImportCriteria { public_use_only: true, ..self.criteria() }),
    {
        ImportQuery { public_use_only: true, ..self }
    }

    pub fn full_path_starts_with(self, p: &str) -> (q: ImportQuery)
        ensures
            q.items_view() == self.items_view(),
            q.criteria() == (ImportCriteria { full_prefix: Some(p@), ..self.criteria() }),
    {
        ImportQuery { full_prefix: Some(String::from_str(p)), ..self }
    }

    pub fn origin(self, o: ImportOrigin) -> (q: ImportQuery)
        ensures
            q.items_view() == self.items_view(),
            q.criteria() == (ImportCriteria { origin: Some(o), ..self.criteria() }),
    {
        ImportQuery { origin: Some(o), ..self }
    }

    pub fn workspace_only(self) -> (q: ImportQuery)
        ensures
            q.items_view() == self.items_view(),
            q.criteria() == (ImportCriteria { origin: Some(ImportOrigin::WorkspaceMember), ..self.criteria() }),
    {
        self.origin(ImportOrigin::WorkspaceMember)
    }

    pub fn deps_only(self) -> (q: ImportQuery)
        ensures
            q.items_view() == self.items_view(),
            q.criteria() == (ImportCriteria { origin: Some(ImportOrigin::Dependency), ..self.criteria() }),
    {
        self.origin(ImportOrigin::Dependency)
    }

    /// Keeps imports of the platform namespaces (`std`, `core`, `alloc`).
    pub fn stdish_only(self) -> (q: ImportQuery)
        ensures
            q.items_view() == self.items_view(),
            q.criteria() == (ImportCriteria { stdish_only: true, ..self.criteria() }),
    {
        ImportQuery { stdish_only: true, ..self }
    }

    fn import_passes(&self, i: &StolenPath) -> (r: bool)
        ensures
            r == import_kept(self.criteria(), i.deep_view()),
    {
        match &self.root {
            Some(r) => {
                if !i.root.eq(r) {
                    return false;
                }
            },
            None => {},
        }
        if self.internal_only && !i.is_internal {
            return false;
        }
        if self.public_use_only && !i.is_public_use {
            return false;
        }
        match &self.full_prefix {
            Some(p) => {
                if !text_starts_with(i.full_path.as_str(), p.as_str()) {
                    return false;
                }
            },
            None => {},
        }
        match self.origin {
            Some(o) => {
                if i.origin != Some(o) {
                    return false;
                }
            },
            None => {},
        }
        if self.stdish_only {
            let s = i.origin == Some(ImportOrigin::Std) || i.origin == Some(ImportOrigin::Core) || i.origin
                == Some(ImportOrigin::Alloc);
            if !s {
                return false;
            }
        }
        true
    }

    /// The kept imports without those on which `f` answers false, in order.
    pub fn filter<F: Fn(&StolenPath) -> bool>(self, f: F) -> (r: Vec<StolenPath>)
        requires
            forall|x: &StolenPath| call_requires(f, (x,)),
        ensures
            exists|kept: Seq<StolenPath>|
                kept.map_values(|x: StolenPath| x.deep_view()) == self.items_view().filter(|g: StolenPathV| import_kept(self.criteria(), g))
                    && narrowed_by(f, kept, r@),
    {
        let c = self.collect();
        let ghost cv = c@;
        let r = narrow(c, f);
        proof {
            assert(cv.map_values(|x: StolenPath| x.deep_view()) =~= self.items_view().filter(|g: StolenPathV| import_kept(self.criteria(), g)));
        }
        r
    }

    /// The kept imports, in order.
    pub fn collect(self) -> (r: Vec<StolenPath>)
        ensures
            r.deep_view() == self.items_view().filter(|i: StolenPathV| import_kept(self.criteria(), i)),
    {
        let ghost v = self.items_view();
        let ghost pred = |i: StolenPathV| import_kept(self.criteria(), i);
        let mut out: Vec<StolenPath> = Vec::new();
        let mut n: usize = 0;
        proof {
            reveal(Seq::filter);
            assert(v.take(0).filter(pred) =~= Seq::<StolenPathV>::empty());
            assert(out.deep_view() =~= Seq::<StolenPathV>::empty());
        }
        while n < self.items.len()
            invariant
                n <= self.items.len(),
                v == self.items_view(),
                pred == (|i: StolenPathV| import_kept(self.criteria(), i)),
                out.deep_view() == v.take(n as int).filter(pred),
            decreases self.items.len() - n,
        {
            let ghost o = out.deep_view();
            let x = &self.items[n];
            let keep = self.import_passes(x);
            if keep {
                let c = x.clone();
                out.push(c);
                proof {
                    assert(out.deep_view() =~= o.push(c.deep_view()));
                }
            }
            proof {
                reveal(Seq::filter);
                let t = v.take(n + 1);
                assert(t.drop_last() =~= v.take(n as int));
                assert(t.last() == x.deep_view());
            }
            n += 1;
        }
        proof {
            assert(v.take(self.items.len() as int) =~= v);
        }
        out
    }
}

/// The items of `s` whose flag in `keep` is set, in order.
pub open spec fn select<T>(s: Seq<T>, keep: Seq<bool>) -> Seq<T>
    decreases s.len(),
{
    if s.len() == 0 || keep.len() == 0 {
        Seq::empty()
    } else {
        select(s.drop_last(), keep.drop_last()) + if keep.last() {
            seq![s.last()]
        } else {
            Seq::empty()
        }
    }
}

/// `r` is `s` without the items on which `f` answered false, in order.
pub open spec fn narrowed_by<T, F: Fn(&T) -> bool>(f: F, s: Seq<T>, r: Seq<T>) -> bool {
    exists|keep: Seq<bool>|
        keep.len() == s.len() && (forall|j: int| 0 <= j < s.len() ==> call_ensures(f, (&s[j],), #[trigger] keep[j]))
            && r == select(s, keep)
}

/// The items of `v` that `f` accepts, in order.
fn narrow<T, F: Fn(&T) -> bool>(v: Vec<T>, f: F) -> (r: Vec<T>)
    requires
        forall|x: &T| call_requires(f, (x,)),
    ensures
        narrowed_by(f, v@, r@),
{
    let ghost orig = v@;
    let n = v.len();
    let mut rest = v;
    let mut rev: Vec<T> = Vec::new();
    while rest.len() > 0
        invariant
            n == orig.len(),
            rest.len() + rev.len() == n,
            forall|k: int| 0 <= k < rest.len() ==> #[trigger] rest@[k] == orig[k],
            forall|k: int| 0 <= k < rev.len() ==> #[trigger] rev@[k] == orig[n - 1 - k],
        decreases rest.len(),
    {
        let ghost before = rest@;
        match rest.pop() {
            Some(x) => {
                proof {
                    assert(x == orig[before.len() - 1]);
                    assert forall|k: int| 0 <= k < rest.len() implies #[trigger] rest@[k] == orig[k] by {
                        assert(rest@[k] == before[k]);
                    }
                }
                rev.push(x);
            },
            None => {},
        }
    }
    let mut out: Vec<T> = Vec::new();
    let ghost mut keep: Seq<bool> = Seq::empty();
    let mut i: usize = 0;
    proof {
        assert(orig.take(0) =~= Seq::<T>::empty());
    }
    while i < n
        invariant
            n == orig.len(),
            i <= n,
            rev.len() == n - i,
            forall|k: int| 0 <= k < rev.len() ==> #[trigger] rev@[k] == orig[n - 1 - k],
            keep.len() == i,
            forall|j: int| 0 <= j < i ==> call_ensures(f, (&orig[j],), #[trigger] keep[j]),
            out@ == select(orig.take(i as int), keep),
            forall|x: &T| call_requires(f, (x,)),
        decreases n - i,
    {
        let ghost before = rev@;
        let ghost o = out@;
        match rev.pop() {
            Some(x) => {
                proof {
                    assert(x == orig[i as int]);
                    assert forall|k: int| 0 <= k < rev.len() implies #[trigger] rev@[k] == orig[n - 1 - k] by {
                        assert(rev@[k] == before[k]);
                    }
                }
                let b = f(&x);
                proof {
                    let t = orig.take(i + 1);
                    let kk = keep.push(b);
                    assert(t.drop_last() =~= orig.take(i as int));
                    assert(kk.drop_last() =~= keep);
                    assert(t.last() == x);
                    keep = kk;
                }
                if b {
                    out.push(x);
                    proof {
                        assert(out@ =~= o.push(x));
                    }
                } else {
                    proof {
                        assert(o + Seq::<T>::empty() =~= o);
                    }
                }
            },
            None => {
                proof {
                    assert(false);
                }
            },
        }
        i += 1;
    }
    proof {
        assert(orig.take(n as int) =~= orig);
    }
    out
}

fn clone_functions(v: &Vec<CapturedFn>) -> (r: Vec<CapturedFn>)
    ensures
        r.deep_view() == v.deep_view(),
{
    let mut r: Vec<CapturedFn> = Vec::new();
    let mut i: usize = 0;
    while i < v.len()
        invariant
            i <= v.len(),
            r.len() == i,
            forall|j: int| 0 <= j < i ==> r@[j].deep_view() == v@[j].deep_view(),
        decreases v.len() - i,
    {
        r.push(v[i].clone());
        i += 1;
    }
    proof {
        assert(r.deep_view() =~= v.deep_view());
    }
    r
}

fn clone_imports(v: &Vec<StolenPath>) -> (r: Vec<StolenPath>)
    ensures
        r.deep_view() == v.deep_view(),
{
    let mut r: Vec<StolenPath> = Vec::new();
    let mut i: usize = 0;
    while i < v.len()
        invariant
            i <= v.len(),
            r.len() == i,
            forall|j: int| 0 <= j < i ==> r@[j].deep_view() == v@[j].deep_view(),
        decreases v.len() - i,
    {
        r.push(v[i].clone());
        i += 1;
    }
    proof {
        assert(r.deep_view() =~= v.deep_view());
    }
    r
}

impl Klepto {
    /// An unfiltered query over the functions.
    pub fn functions(&self) -> (r: FnQuery)
        ensures
            r.items_view() == self.functions.deep_view(),
            r.criteria() == no_fn_criteria(),
    {
        FnQuery::new(clone_functions(&self.functions))
    }

    /// An unfiltered query over the imports.
    pub fn imports(&self) -> (r: ImportQuery)
        ensures
            r.items_view() == self.imports.deep_view(),
            r.criteria() == no_import_criteria(),
    {
        ImportQuery::new(clone_imports(&self.imports))
    }

    /// The public functions.
    pub fn public_api(&self) -> (r: FnQuery)
        ensures
            r.items_view() == self.functions.deep_view(),
            r.criteria() == (FnCriteria { public_only: true, ..no_fn_criteria() }),
    {
        self.functions().public_only()
    }

    /// The public functions without documentation.
    pub fn undocumented_public_api(&self) -> (r: FnQuery)
        ensures
            r.items_view() == self.functions.deep_view(),
            r.criteria() == (FnCriteria { public_only: true, no_docs: true, ..no_fn_criteria() }),
    {
        self.functions().public_only().no_docs()
    }
}

} // verus!
