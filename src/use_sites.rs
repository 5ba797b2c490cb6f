//! Cross-reference views: imports, path references and macro calls under
//! roots of interest, normalized into use sites.
use vstd::prelude::*;
use vstd::string::*;
use crate::extract::{colons, join_path, join_spec};
use crate::klepto::{names_contain, norm_crate_root, Klepto};
use crate::model::{
    MacroInvocationV, PathOccurrenceV, StolenPathV, UseSite,
    UseSiteKind, UseSiteV,
};
use crate::text::{
    dashes_to_underscores, split_at_colons, split_colons, starts_with_text, text_starts_with,
    trim_text, trimmed,
};

verus! {

/// `(root, head, full path)` of a path text that has already been trimmed:
/// a leading `::` is dropped, the rest split at `::`; a single segment gives
/// nothing.
pub open spec fn split_path_spec(t: Seq<char>) -> Option<(Seq<char>, Seq<char>, Seq<char>)> {
    let s = if starts_with_text(t, colons()) {
        t.skip(2)
    } else {
        t
    };
    let parts = split_colons(s);
    if parts.len() < 2 {
        None
    } else {
        Some((parts[0], parts[1], join_spec(parts, colons())))
    }
}

pub open spec fn split_dep_spec(raw: Seq<char>) -> Option<(Seq<char>, Seq<char>, Seq<char>)> {
    split_path_spec(trimmed(raw))
}

/// Splits a trimmed path text into root, head and full path.
pub fn split_path_text(t: &str) -> (r: Option<(String, String, String)>)
    ensures
        match r {
            Some(x) => split_path_spec(t@) == Some((x.0@, x.1@, x.2@)),
            None => split_path_spec(t@) is None,
        },
{
    proof {
        reveal_strlit("::");
        assert("::"@ =~= colons());
    }
    let s = if text_starts_with(t, "::") {
        let rest = t.substring_char(2, t.unicode_len());
        proof {
            assert(rest@ =~= t@.skip(2));
        }
        rest
    } else {
        t
    };
    let parts = split_at_colons(s);
    if parts.len() < 2 {
        return None;
    }
    let dep = parts[0].clone();
    let head = parts[1].clone();
    let full = join_path(&parts);
    Some((dep, head, full))
}

/// Splits a path text (trimmed first) into root, head and full path.
pub fn split_dep_path(raw: &str) -> (r: Option<(String, String, String)>)
    ensures
        match r {
            Some(x) => split_dep_spec(raw@) == Some((x.0@, x.1@, x.2@)),
            None => split_dep_spec(raw@) is None,
        },
{
    let t = trim_text(raw);
    split_path_text(t)
}

/// The scope label of an occurrence: its enclosing function, else its
/// module as `crate::<path>`, else `file`.
pub open spec fn scope_label(enclosing_fn: Option<Seq<char>>, mods: Seq<Seq<char>>) -> Seq<char> {
    match enclosing_fn {
        Some(f) => f,
        None => if mods.len() == 0 {
            "file"@
        } else {
            "crate::"@ + join_spec(mods, colons())
        },
    }
}

pub fn scope_from(enclosing_fn: &Option<String>, mod_path: &Vec<String>) -> (r: String)
    ensures
        r@ == scope_label(enclosing_fn.deep_view(), mod_path.deep_view()),
{
    match enclosing_fn {
        Some(f) => f.clone(),
        None => if mod_path.len() == 0 {
            String::from_str("file")
        } else {
            let mut s = String::from_str("crate::");
            let j = join_path(mod_path);
            s.append(j.as_str());
            s
        },
    }
}

/// Which roots a view keeps.
pub enum RootFilter {
    /// Roots whose normalized form is among these names (normalized too).
    Deps { names: Vec<String> },
    /// `crate`, `self`, `super`, and the normalized crate id.
    Internal { crate_id: String },
}


/// The model of a root filter.
pub enum Roots {
    Deps(Seq<Seq<char>>),
    Internal(Seq<char>),
}

impl DeepView for RootFilter {
    type V = Roots;

    open spec fn deep_view(&self) -> Roots {
        match self {
            RootFilter::Deps { names } => Roots::Deps(names.deep_view()),
            RootFilter::Internal { crate_id } => Roots::Internal(crate_id@),
        }
    }
}

pub open spec fn root_selected(f: Roots, root: Seq<char>) -> bool {
    match f {
        Roots::Deps(names) => names.map_values(|n: Seq<char>| dashes_to_underscores(n)).contains(
            dashes_to_underscores(root),
        ),
        Roots::Internal(crate_id) => root == "crate"@ || root == "self"@ || root == "super"@
            || dashes_to_underscores(root) == crate_id,
    }
}

fn select_root(f: &RootFilter, root: &str) -> (r: bool)
    ensures
        r == root_selected(f.deep_view(), root@),
{
    match f {
        RootFilter::Deps { names } => {
            let mut normed: Vec<String> = Vec::new();
            let mut i: usize = 0;
            while i < names.len()
                invariant
                    i <= names.len(),
                    normed.deep_view() == names.deep_view().take(i as int).map_values(
                        |n: Seq<char>| dashes_to_underscores(n),
                    ),
                decreases names.len() - i,
            {
                let ghost o = normed.deep_view();
                let x = norm_crate_root(names[i].as_str());
                normed.push(x);
                proof {
                    assert(normed.deep_view() =~= o.push(x@));
                    assert(names.deep_view().take(i + 1) =~= names.deep_view().take(i as int).push(
                        names@[i as int]@,
                    ));
                    assert(names.deep_view().take(i + 1).map_values(|n: Seq<char>| dashes_to_underscores(n))
                        =~= o.push(x@));
                }
                i += 1;
            }
            proof {
                assert(names.deep_view().take(names.len() as int) =~= names.deep_view());
            }
            let r = norm_crate_root(root);
            names_contain(&normed, &r)
        },
        RootFilter::Internal { crate_id } => {
            let r = String::from_str(root);
            proof {
                reveal_strlit("crate");
                reveal_strlit("self");
                reveal_strlit("super");
            }
            if r.eq(&String::from_str("crate")) || r.eq(&String::from_str("self")) || r.eq(
                &String::from_str("super"),
            ) {
                return true;
            }
            let n = norm_crate_root(root);
            n.eq(crate_id)
        },
    }
}

// ---------------------------------------------------------------------
// The three sources of use sites
// ---------------------------------------------------------------------

pub open spec fn import_site(imp: StolenPathV) -> UseSiteV {
    UseSiteV {
        dep: imp.root,
        path: imp.full_path,
        head: if imp.segments.len() > 0 {
            imp.segments[0]
        } else {
            "*"@
        },
        kind: UseSiteKind::UseStmt,
        location: imp.location,
        scope: scope_label(None, imp.mod_path),
    }
}

pub open spec fn import_sites(f: Roots, s: Seq<StolenPathV>) -> Seq<UseSiteV>
    decreases s.len(),
{
    if s.len() == 0 {
        Seq::empty()
    } else {
        import_sites(f, s.drop_last()) + if root_selected(f, s.last().root) {
            seq![import_site(s.last())]
        } else {
            Seq::empty()
        }
    }
}

pub open spec fn path_sites(f: Roots, s: Seq<PathOccurrenceV>) -> Seq<UseSiteV>
    decreases s.len(),
{
    if s.len() == 0 {
        Seq::empty()
    } else {
        let p = s.last();
        path_sites(f, s.drop_last()) + match split_dep_spec(p.path) {
            Some(x) => if root_selected(f, x.0) {
                seq![
                    UseSiteV {
                        dep: x.0,
                        path: x.2,
                        head: x.1,
                        kind: UseSiteKind::Path,
                        location: p.location,
                        scope: scope_label(p.enclosing_fn, p.mod_path),
                    },
                ]
            } else {
                Seq::empty()
            },
            None => Seq::empty(),
        }
    }
}

pub open spec fn macro_sites(f: Roots, s: Seq<MacroInvocationV>) -> Seq<UseSiteV>
    decreases s.len(),
{
    if s.len() == 0 {
        Seq::empty()
    } else {
        let m = s.last();
        macro_sites(f, s.drop_last()) + match m.path {
            Some(p) => match split_dep_spec(p) {
                Some(x) => if root_selected(f, x.0) {
                    seq![
                        UseSiteV {
                            dep: x.0,
                            path: x.2,
                            head: x.1,
                            kind: UseSiteKind::MacroCall,
                            location: m.location,
                            scope: scope_label(m.enclosing_fn, m.mod_path),
                        },
                    ]
                } else {
                    Seq::empty()
                },
                None => Seq::empty(),
            },
            None => Seq::empty(),
        }
    }
}

pub open spec fn use_sites_spec(k: &Klepto, f: Roots) -> Seq<UseSiteV> {
    import_sites(f, k.imports.deep_view()) + path_sites(f, k.paths.deep_view()) + macro_sites(
        f,
        k.macros_inv.deep_view(),
    )
}

impl Klepto {
    fn collect_use_sites(&self, f: &RootFilter) -> (r: Vec<UseSite>)
        ensures
            r.deep_view() == use_sites_spec(self, f.deep_view()),
    {
        let mut out: Vec<UseSite> = Vec::new();
        let ghost iv = self.imports.deep_view();
        let mut i: usize = 0;
        proof {
            assert(out.deep_view() =~= Seq::<UseSiteV>::empty());
            assert(iv.take(0) =~= Seq::<StolenPathV>::empty());
            reveal_strlit("*");
        }
        while i < self.imports.len()
            invariant
                i <= self.imports.len(),
                iv == self.imports.deep_view(),
                out.deep_view() == import_sites(f.deep_view(), iv.take(i as int)),
            decreases self.imports.len() - i,
        {
            let ghost o = out.deep_view();
            let imp = &self.imports[i];
            proof {
                let t = iv.take(i + 1);
                assert(t.drop_last() =~= iv.take(i as int));
                assert(t.last() == imp.deep_view());
            }
            if select_root(f, imp.root.as_str()) {
                let head = if imp.segments.len() > 0 {
                    imp.segments[0].clone()
                } else {
                    String::from_str("*")
                };
                let u = UseSite {
                    dep: imp.root.clone(),
                    path: imp.full_path.clone(),
                    head,
                    kind: UseSiteKind::UseStmt,
                    location: imp.location.clone(),
                    scope: scope_from(&None, &imp.mod_path),
                };
                out.push(u);
                proof {
                    assert(out.deep_view() =~= o.push(u.deep_view()));
                    assert(u.deep_view() == import_site(imp.deep_view()));
                }
            } else {
                proof {
                    assert(o + Seq::<UseSiteV>::empty() =~= o);
                }
            }
            i += 1;
        }
        proof {
            assert(iv.take(self.imports.len() as int) =~= iv);
        }
        let ghost a = out.deep_view();
        let ghost pv = self.paths.deep_view();
        let mut j: usize = 0;
        proof {
            assert(pv.take(0) =~= Seq::<PathOccurrenceV>::empty());
            assert(a + Seq::<UseSiteV>::empty() =~= a);
        }
        while j < self.paths.len()
            invariant
                j <= self.paths.len(),
                pv == self.paths.deep_view(),
                out.deep_view() == a + path_sites(f.deep_view(), pv.take(j as int)),
            decreases self.paths.len() - j,
        {
            let ghost o = out.deep_view();
            let p = &self.paths[j];
            proof {
                let t = pv.take(j + 1);
                assert(t.drop_last() =~= pv.take(j as int));
                assert(t.last() == p.deep_view());
            }
            match split_dep_path(p.path.as_str()) {
                Some((dep, head, full)) => {
                    if select_root(f, dep.as_str()) {
                        let u = UseSite {
                            dep,
                            path: full,
                            head,
                            kind: UseSiteKind::Path,
                            location: p.location.clone(),
                            scope: scope_from(&p.enclosing_fn, &p.mod_path),
                        };
                        out.push(u);
                        proof {
                            assert(out.deep_view() =~= o.push(u.deep_view()));
                        }
                    }
                },
                None => {},
            }
            proof {
                assert(out.deep_view() =~= a + path_sites(f.deep_view(), pv.take(j + 1)));
            }
            j += 1;
        }
        proof {
            assert(pv.take(self.paths.len() as int) =~= pv);
        }
        let ghost b = out.deep_view();
        let ghost mv = self.macros_inv.deep_view();
        let mut n: usize = 0;
        proof {
            assert(mv.take(0) =~= Seq::<MacroInvocationV>::empty());
            assert(b + Seq::<UseSiteV>::empty() =~= b);
        }
        while n < self.macros_inv.len()
            invariant
                n <= self.macros_inv.len(),
                mv == self.macros_inv.deep_view(),
                out.deep_view() == b + macro_sites(f.deep_view(), mv.take(n as int)),
            decreases self.macros_inv.len() - n,
        {
            let ghost o = out.deep_view();
            let m = &self.macros_inv[n];
            proof {
                let t = mv.take(n + 1);
                assert(t.drop_last() =~= mv.take(n as int));
                assert(t.last() == m.deep_view());
            }
            match &m.path {
                Some(mp) => match split_dep_path(mp.as_str()) {
                    Some((dep, head, full)) => {
                        if select_root(f, dep.as_str()) {
                            let u = UseSite {
                                dep,
                                path: full,
                                head,
                                kind: UseSiteKind::MacroCall,
                                location: m.location.clone(),
                                scope: scope_from(&m.enclosing_fn, &m.mod_path),
                            };
                            out.push(u);
                            proof {
                                assert(out.deep_view() =~= o.push(u.deep_view()));
                            }
                        }
                    },
                    None => {},
                },
                None => {},
            }
            proof {
                assert(out.deep_view() =~= b + macro_sites(f.deep_view(), mv.take(n + 1)));
            }
            n += 1;
        }
        proof {
            assert(mv.take(self.macros_inv.len() as int) =~= mv);
        }
        out
    }

    /// Use sites under the roots named in `used_deps` (compared with `-`
    /// normalized to `_`): imports, then paths, then macro calls.
    pub fn dep_use_sites(&self, used_deps: &Vec<String>) -> (r: Vec<UseSite>)
        ensures
            r.deep_view() == use_sites_spec(self, Roots::Deps(used_deps.deep_view())),
    {
        let mut names: Vec<String> = Vec::new();
        let mut i: usize = 0;
        while i < used_deps.len()
            invariant
                i <= used_deps.len(),
                names.len() == i,
                forall|j: int| 0 <= j < i ==> names@[j]@ == used_deps@[j]@,
            decreases used_deps.len() - i,
        {
            names.push(used_deps[i].clone());
            i += 1;
        }
        let f = RootFilter::Deps { names };
        proof {
            assert(names.deep_view() =~= used_deps.deep_view());
        }
        self.collect_use_sites(&f)
    }

    /// Use sites under the crate's own roots: `crate`, `self`, `super`, and
    /// the crate id (normalized): imports, then paths, then macro calls.
    pub fn internal_use_sites(&self) -> (r: Vec<UseSite>)
        ensures
            r.deep_view() == use_sites_spec(self, Roots::Internal(dashes_to_underscores(self.crate_name@))),
    {
        let f = RootFilter::Internal { crate_id: norm_crate_root(self.crate_name.as_str()) };
        self.collect_use_sites(&f)
    }
}

} // verus!
