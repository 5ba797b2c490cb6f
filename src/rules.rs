//! The rule engine: total functions from the fact set to findings, run in
//! registration order.
use vstd::prelude::*;
use vstd::string::*;
use crate::klepto::Klepto;
use crate::model::{
    CallOccurrenceV, CapturedFnV, Finding, FindingV, LocationV, MacroInvocationV, PathOccurrenceV,
    Severity, StolenPathV,
};
use crate::text::{contains_text, ends_with_text, occurs_at, starts_with_text, text_ends_with, text_starts_with};

verus! {

/// A rule: a stable code, a name, and the findings it draws from the facts.
pub trait Rule {
    spec fn code_spec(&self) -> Seq<char>;

    fn code(&self) -> (r: String)
        ensures
            r@ == self.code_spec(),
    ;

    fn name(&self) -> (r: String);

    spec fn findings(&self, k: &Klepto) -> Seq<FindingV>;

    fn run(&self, k: &Klepto) -> (r: Vec<Finding>)
        ensures
            r.deep_view() == self.findings(k),
    ;
}

/// `enclosing_fn` as text, `<unknown>` when absent.
pub open spec fn fn_label(f: Option<Seq<char>>) -> Seq<char> {
    match f {
        Some(x) => x,
        None => "<unknown>"@,
    }
}

pub open spec fn finding(sev: Severity, code: Seq<char>, message: Seq<char>, location: LocationV, extra: Seq<(Seq<char>, Seq<char>)>) -> FindingV {
    FindingV { severity: sev, code, message, location, extra }
}

// ---------------------------------------------------------------------
// Undocumented public API
// ---------------------------------------------------------------------

pub struct UndocumentedPublicApi;

pub open spec fn undocumented_findings(s: Seq<CapturedFnV>) -> Seq<FindingV>
    decreases s.len(),
{
    if s.len() == 0 {
        Seq::empty()
    } else {
        let f = s.last();
        undocumented_findings(s.drop_last()) + if f.is_public && !f.has_docs {
            seq![
                finding(
                    Severity::Warn,
                    "KLEP001"@,
                    "public function missing docs: "@ + f.fq_name,
                    f.location,
                    seq![("signature"@, f.signature)],
                ),
            ]
        } else {
            Seq::empty()
        }
    }
}

/// Whether a function is public and undocumented.
pub open spec fn undocumented(f: CapturedFnV) -> bool {
    f.is_public && !f.has_docs
}

/// The finding for an undocumented public function.
pub open spec fn undocumented_finding(f: CapturedFnV) -> FindingV {
    finding(
        Severity::Warn,
        "KLEP001"@,
        "public function missing docs: "@ + f.fq_name,
        f.location,
        seq![("signature"@, f.signature)],
    )
}

proof fn lemma_undocumented_as_filter(s: Seq<CapturedFnV>)
    ensures
        undocumented_findings(s) == s.filter(|f: CapturedFnV| undocumented(f)).map_values(
            |f: CapturedFnV| undocumented_finding(f),
        ),
    decreases s.len(),
{
    reveal(Seq::filter);
    if s.len() > 0 {
        lemma_undocumented_as_filter(s.drop_last());
        let p = |f: CapturedFnV| undocumented(f);
        let g = |f: CapturedFnV| undocumented_finding(f);
        if p(s.last()) {
            assert(s.filter(p).map_values(g) =~= s.drop_last().filter(p).map_values(g).push(g(s.last())));
        } else {
            assert(s.filter(p).map_values(g) =~= s.drop_last().filter(p).map_values(g) + Seq::empty());
        }
    }
}

/// With exactly one public function lacking documentation, the rule yields
/// exactly one finding, which names that function's fully qualified name
/// and stands at its location.
pub proof fn lemma_one_undocumented_function(fns: Seq<CapturedFnV>, i: int)
    requires
        0 <= i < fns.len(),
        undocumented(fns[i]),
        forall|j: int| 0 <= j < fns.len() && j != i ==> !undocumented(#[trigger] fns[j]),
    ensures
        undocumented_findings(fns).len() == 1,
        undocumented_findings(fns)[0].code == "KLEP001"@,
        contains_text(undocumented_findings(fns)[0].message, fns[i].fq_name),
        undocumented_findings(fns)[0].location == fns[i].location,
{
    lemma_undocumented_as_filter(fns);
    let p = |f: CapturedFnV| undocumented(f);
    lemma_filter_single(fns, p, i);
    let m = undocumented_finding(fns[i]).message;
    let pre = "public function missing docs: "@;
    assert(m.subrange(pre.len() as int, pre.len() + fns[i].fq_name.len() as int) =~= fns[i].fq_name);
    assert(occurs_at(m, fns[i].fq_name, pre.len() as int));
}

/// Filtering by a predicate that exactly one element meets leaves that
/// element alone.
proof fn lemma_filter_single<A>(s: Seq<A>, p: spec_fn(A) -> bool, i: int)
    requires
        0 <= i < s.len(),
        p(s[i]),
        forall|j: int| 0 <= j < s.len() && j != i ==> !p(#[trigger] s[j]),
    ensures
        s.filter(p) == seq![s[i]],
    decreases s.len(),
{
    reveal(Seq::filter);
    let d = s.drop_last();
    if i == s.len() - 1 {
        lemma_filter_none_of(d, p);
        assert(d.filter(p).push(s.last()) =~= seq![s[i]]);
    } else {
        assert forall|j: int| 0 <= j < d.len() && j != i implies !p(#[trigger] d[j]) by {
            assert(d[j] == s[j]);
        }
        assert(d[i] == s[i]);
        lemma_filter_single(d, p, i);
        assert(!p(s[s.len() - 1]));
    }
}

proof fn lemma_filter_none_of<A>(s: Seq<A>, p: spec_fn(A) -> bool)
    requires
        forall|j: int| 0 <= j < s.len() ==> !p(#[trigger] s[j]),
    ensures
        s.filter(p).len() == 0,
    decreases s.len(),
{
    reveal(Seq::filter);
    if s.len() > 0 {
        let d = s.drop_last();
        assert forall|j: int| 0 <= j < d.len() implies !p(#[trigger] d[j]) by {
            assert(d[j] == s[j]);
        }
        lemma_filter_none_of(d, p);
    }
}

impl Rule for UndocumentedPublicApi {
    open spec fn code_spec(&self) -> Seq<char> {
        "KLEP001"@
    }

    fn code(&self) -> (r: String) {
        String::from_str("KLEP001")
    }

    fn name(&self) -> (r: String) {
        String::from_str("Undocumented public API")
    }

    open spec fn findings(&self, k: &Klepto) -> Seq<FindingV> {
        undocumented_findings(k.functions.deep_view())
    }

    fn run(&self, k: &Klepto) -> (r: Vec<Finding>) {
        let ghost v = k.functions.deep_view();
        let mut out: Vec<Finding> = Vec::new();
        let mut i: usize = 0;
        proof {
            assert(out.deep_view() =~= Seq::<FindingV>::empty());
            assert(v.take(0) =~= Seq::<CapturedFnV>::empty());
        }
        while i < k.functions.len()
            invariant
                i <= k.functions.len(),
                v == k.functions.deep_view(),
                out.deep_view() == undocumented_findings(v.take(i as int)),
            decreases k.functions.len() - i,
        {
            let ghost o = out.deep_view();
            let f = &k.functions[i];
            proof {
                let t = v.take(i + 1);
                assert(t.drop_last() =~= v.take(i as int));
                assert(t.last() == f.deep_view());
            }
            if f.is_public && !f.has_docs {
                let mut message = String::from_str("public function missing docs: ");
                message.append(f.fq_name.as_str());
                let mut extra: Vec<(String, String)> = Vec::new();
                extra.push((String::from_str("signature"), f.signature.clone()));
                let x = Finding {
                    severity: Severity::Warn,
                    code: String::from_str("KLEP001"),
                    message,
                    location: f.location.clone(),
                    extra,
                };
                proof {
                    assert(x.extra.deep_view() =~= seq![("signature"@, f.signature@)]);
                }
                out.push(x);
                proof {
                    assert(out.deep_view() =~= o.push(x.deep_view()));
                }
            } else {
                proof {
                    assert(o + Seq::<FindingV>::empty() =~= o);
                }
            }
            i += 1;
        }
        proof {
            assert(v.take(k.functions.len() as int) =~= v);
        }
        out
    }
}

// ---------------------------------------------------------------------
// Panic-prone accessor calls in public API
// ---------------------------------------------------------------------

pub struct UnwrapInPublicApi;

/// A callee that is `unwrap` or `expect`, or a member access onto one.
pub open spec fn is_panicky_callee(c: Seq<char>) -> bool {
    c == "unwrap"@ || ends_with_text(c, ".unwrap"@) || c == "expect"@ || ends_with_text(c, ".expect"@)
}

pub open spec fn unwrap_findings(s: Seq<CallOccurrenceV>) -> Seq<FindingV>
    decreases s.len(),
{
    if s.len() == 0 {
        Seq::empty()
    } else {
        let c = s.last();
        unwrap_findings(s.drop_last()) + if c.enclosing_public == Some(true) && is_panicky_callee(c.callee) {
            seq![
                finding(
                    Severity::Warn,
                    "KLEP002"@,
                    "panic-ish call inside public fn "@ + fn_label(c.enclosing_fn) + ": "@ + c.callee,
                    c.location,
                    seq![("enclosing_fn"@, fn_label(c.enclosing_fn)), ("callee"@, c.callee)],
                ),
            ]
        } else {
            Seq::empty()
        }
    }
}

fn label_of(f: &Option<String>) -> (r: String)
    ensures
        r@ == fn_label(f.deep_view()),
{
    match f {
        Some(x) => x.clone(),
        None => String::from_str("<unknown>"),
    }
}

fn panicky_callee(c: &String) -> (r: bool)
    ensures
        r == is_panicky_callee(c@),
{
    let unwrap = String::from_str("unwrap");
    let expect = String::from_str("expect");
    c.eq(&unwrap) || text_ends_with(c.as_str(), ".unwrap") || c.eq(&expect) || text_ends_with(
        c.as_str(),
        ".expect",
    )
}

impl Rule for UnwrapInPublicApi {
    open spec fn code_spec(&self) -> Seq<char> {
        "KLEP002"@
    }

    fn code(&self) -> (r: String) {
        String::from_str("KLEP002")
    }

    fn name(&self) -> (r: String) {
        String::from_str("unwrap/expect in public API")
    }

    open spec fn findings(&self, k: &Klepto) -> Seq<FindingV> {
        unwrap_findings(k.calls.deep_view())
    }

    fn run(&self, k: &Klepto) -> (r: Vec<Finding>) {
        let ghost v = k.calls.deep_view();
        let mut out: Vec<Finding> = Vec::new();
        let mut i: usize = 0;
        proof {
            assert(out.deep_view() =~= Seq::<FindingV>::empty());
            assert(v.take(0) =~= Seq::<CallOccurrenceV>::empty());
        }
        while i < k.calls.len()
            invariant
                i <= k.calls.len(),
                v == k.calls.deep_view(),
                out.deep_view() == unwrap_findings(v.take(i as int)),
            decreases k.calls.len() - i,
        {
            let ghost o = out.deep_view();
            let c = &k.calls[i];
            proof {
                let t = v.take(i + 1);
                assert(t.drop_last() =~= v.take(i as int));
                assert(t.last() == c.deep_view());
            }
            if c.enclosing_public == Some(true) && panicky_callee(&c.callee) {
                let label = label_of(&c.enclosing_fn);
                let mut message = String::from_str("panic-ish call inside public fn ");
                message.append(label.as_str());
                message.append(": ");
                message.append(c.callee.as_str());
                let mut extra: Vec<(String, String)> = Vec::new();
                extra.push((String::from_str("enclosing_fn"), label));
                extra.push((String::from_str("callee"), c.callee.clone()));
                let x = Finding {
                    severity: Severity::Warn,
                    code: String::from_str("KLEP002"),
                    message,
                    location: c.location.clone(),
                    extra,
                };
                proof {
                    assert(x.extra.deep_view() =~= seq![
                        ("enclosing_fn"@, fn_label(c.enclosing_fn.deep_view())),
                        ("callee"@, c.callee@),
                    ]);
                }
                out.push(x);
                proof {
                    assert(out.deep_view() =~= o.push(x.deep_view()));
                }
            } else {
                proof {
                    assert(o + Seq::<FindingV>::empty() =~= o);
                }
            }
            i += 1;
        }
        proof {
            assert(v.take(k.calls.len() as int) =~= v);
        }
        out
    }
}

// ---------------------------------------------------------------------
// Panic-style macros in public API
// ---------------------------------------------------------------------

pub struct PanicMacrosInPublicApi;

pub open spec fn is_panic_macro(name: Seq<char>) -> bool {
    name == "panic"@ || name == "todo"@ || name == "unreachable"@
}

pub open spec fn panic_macro_findings(s: Seq<MacroInvocationV>) -> Seq<FindingV>
    decreases s.len(),
{
    if s.len() == 0 {
        Seq::empty()
    } else {
        let m = s.last();
        panic_macro_findings(s.drop_last()) + if m.enclosing_public == Some(true) && is_panic_macro(m.name) {
            seq![
                finding(
                    Severity::Warn,
                    "KLEP003"@,
                    "macro "@ + m.name + "! inside public fn "@ + fn_label(m.enclosing_fn),
                    m.location,
                    seq![("enclosing_fn"@, fn_label(m.enclosing_fn)), ("macro"@, m.name)],
                ),
            ]
        } else {
            Seq::empty()
        }
    }
}

fn panic_macro(name: &String) -> (r: bool)
    ensures
        r == is_panic_macro(name@),
{
    name.eq(&String::from_str("panic")) || name.eq(&String::from_str("todo")) || name.eq(
        &String::from_str("unreachable"),
    )
}

impl Rule for PanicMacrosInPublicApi {
    open spec fn code_spec(&self) -> Seq<char> {
        "KLEP003"@
    }

    fn code(&self) -> (r: String) {
        String::from_str("KLEP003")
    }

    fn name(&self) -> (r: String) {
        String::from_str("panic/todo/unreachable in public modules")
    }

    open spec fn findings(&self, k: &Klepto) -> Seq<FindingV> {
        panic_macro_findings(k.macros_inv.deep_view())
    }

    fn run(&self, k: &Klepto) -> (r: Vec<Finding>) {
        let ghost v = k.macros_inv.deep_view();
        let mut out: Vec<Finding> = Vec::new();
        let mut i: usize = 0;
        proof {
            assert(out.deep_view() =~= Seq::<FindingV>::empty());
            assert(v.take(0) =~= Seq::<MacroInvocationV>::empty());
        }
        while i < k.macros_inv.len()
            invariant
                i <= k.macros_inv.len(),
                v == k.macros_inv.deep_view(),
                out.deep_view() == panic_macro_findings(v.take(i as int)),
            decreases k.macros_inv.len() - i,
        {
            let ghost o = out.deep_view();
            let m = &k.macros_inv[i];
            proof {
                let t = v.take(i + 1);
                assert(t.drop_last() =~= v.take(i as int));
                assert(t.last() == m.deep_view());
            }
            if m.enclosing_public == Some(true) && panic_macro(&m.name) {
                let label = label_of(&m.enclosing_fn);
                let mut message = String::from_str("macro ");
                message.append(m.name.as_str());
                message.append("! inside public fn ");
                message.append(label.as_str());
                let mut extra: Vec<(String, String)> = Vec::new();
                extra.push((String::from_str("enclosing_fn"), label));
                extra.push((String::from_str("macro"), m.name.clone()));
                let x = Finding {
                    severity: Severity::Warn,
                    code: String::from_str("KLEP003"),
                    message,
                    location: m.location.clone(),
                    extra,
                };
                proof {
                    assert(x.message@ =~= "macro "@ + m.name@ + "! inside public fn "@ + fn_label(
                        m.enclosing_fn.deep_view(),
                    ));
                    assert(x.extra.deep_view() =~= seq![
                        ("enclosing_fn"@, fn_label(m.enclosing_fn.deep_view())),
                        ("macro"@, m.name@),
                    ]);
                }
                out.push(x);
                proof {
                    assert(out.deep_view() =~= o.push(x.deep_view()));
                }
            } else {
                proof {
                    assert(o + Seq::<FindingV>::empty() =~= o);
                }
            }
            i += 1;
        }
        proof {
            assert(v.take(k.macros_inv.len() as int) =~= v);
        }
        out
    }
}

// ---------------------------------------------------------------------
// Standard library in a no-std codebase
// ---------------------------------------------------------------------

pub struct StdInNoStdCrate;

pub open spec fn std_import_findings(s: Seq<StolenPathV>) -> Seq<FindingV>
    decreases s.len(),
{
    if s.len() == 0 {
        Seq::empty()
    } else {
        let i = s.last();
        std_import_findings(s.drop_last()) + if i.root == "std"@ {
            seq![
                finding(
                    Severity::Deny,
                    "KLEP004"@,
                    "std import in no_std crate: "@ + i.full_path,
                    i.location,
                    seq![("import"@, i.full_path)],
                ),
            ]
        } else {
            Seq::empty()
        }
    }
}

/// A path whose root is `std`.
pub open spec fn is_std_path(p: Seq<char>) -> bool {
    p == "std"@ || starts_with_text(p, "std::"@)
}

pub open spec fn std_path_findings(s: Seq<PathOccurrenceV>) -> Seq<FindingV>
    decreases s.len(),
{
    if s.len() == 0 {
        Seq::empty()
    } else {
        let p = s.last();
        std_path_findings(s.drop_last()) + if is_std_path(p.path) {
            seq![
                finding(
                    Severity::Deny,
                    "KLEP004"@,
                    "std path in no_std crate: "@ + p.path,
                    p.location,
                    seq![("path"@, p.path)],
                ),
            ]
        } else {
            Seq::empty()
        }
    }
}

impl Rule for StdInNoStdCrate {
    open spec fn code_spec(&self) -> Seq<char> {
        "KLEP004"@
    }

    fn code(&self) -> (r: String) {
        String::from_str("KLEP004")
    }

    fn name(&self) -> (r: String) {
        String::from_str("std usage in no_std crate")
    }

    open spec fn findings(&self, k: &Klepto) -> Seq<FindingV> {
        if k.no_std_detected {
            std_import_findings(k.imports.deep_view()) + std_path_findings(k.paths.deep_view())
        } else {
            Seq::empty()
        }
    }

    fn run(&self, k: &Klepto) -> (r: Vec<Finding>) {
        let mut out: Vec<Finding> = Vec::new();
        proof {
            assert(out.deep_view() =~= Seq::<FindingV>::empty());
        }
        if !k.no_std_detected {
            return out;
        }
        let std_s = String::from_str("std");
        let ghost v = k.imports.deep_view();
        let mut i: usize = 0;
        proof {
            assert(v.take(0) =~= Seq::<StolenPathV>::empty());
        }
        while i < k.imports.len()
            invariant
                i <= k.imports.len(),
                v == k.imports.deep_view(),
                std_s@ == "std"@,
                out.deep_view() == std_import_findings(v.take(i as int)),
            decreases k.imports.len() - i,
        {
            let ghost o = out.deep_view();
            let imp = &k.imports[i];
            proof {
                let t = v.take(i + 1);
                assert(t.drop_last() =~= v.take(i as int));
                assert(t.last() == imp.deep_view());
            }
            if imp.root.eq(&std_s) {
                let mut message = String::from_str("std import in no_std crate: ");
                message.append(imp.full_path.as_str());
                let mut extra: Vec<(String, String)> = Vec::new();
                extra.push((String::from_str("import"), imp.full_path.clone()));
                let x = Finding {
                    severity: Severity::Deny,
                    code: String::from_str("KLEP004"),
                    message,
                    location: imp.location.clone(),
                    extra,
                };
                proof {
                    assert(x.extra.deep_view() =~= seq![("import"@, imp.full_path@)]);
                }
                out.push(x);
                proof {
                    assert(out.deep_view() =~= o.push(x.deep_view()));
                }
            } else {
                proof {
                    assert(o + Seq::<FindingV>::empty() =~= o);
                }
            }
            i += 1;
        }
        proof {
            assert(v.take(k.imports.len() as int) =~= v);
        }
        let ghost a = out.deep_view();
        let ghost w = k.paths.deep_view();
        let mut j: usize = 0;
        proof {
            assert(w.take(0) =~= Seq::<PathOccurrenceV>::empty());
            assert(a + Seq::<FindingV>::empty() =~= a);
            reveal_strlit("std");
        }
        while j < k.paths.len()
            invariant
                j <= k.paths.len(),
                w == k.paths.deep_view(),
                std_s@ == "std"@,
                out.deep_view() == a + std_path_findings(w.take(j as int)),
            decreases k.paths.len() - j,
        {
            let ghost o = out.deep_view();
            let p = &k.paths[j];
            proof {
                let t = w.take(j + 1);
                assert(t.drop_last() =~= w.take(j as int));
                assert(t.last() == p.deep_view());
            }
            if p.path.eq(&std_s) || text_starts_with(p.path.as_str(), "std::") {
                let mut message = String::from_str("std path in no_std crate: ");
                message.append(p.path.as_str());
                let mut extra: Vec<(String, String)> = Vec::new();
                extra.push((String::from_str("path"), p.path.clone()));
                let x = Finding {
                    severity: Severity::Deny,
                    code: String::from_str("KLEP004"),
                    message,
                    location: p.location.clone(),
                    extra,
                };
                proof {
                    assert(x.extra.deep_view() =~= seq![("path"@, p.path@)]);
                }
                out.push(x);
                proof {
                    assert(out.deep_view() =~= o.push(x.deep_view()));
                }
            } else {
                proof {
                    assert(o + Seq::<FindingV>::empty() =~= o);
                }
            }
            proof {
                assert(out.deep_view() =~= a + std_path_findings(w.take(j + 1)));
            }
            j += 1;
        }
        proof {
            assert(w.take(k.paths.len() as int) =~= w);
        }
        out
    }
}

// ---------------------------------------------------------------------
// The runner
// ---------------------------------------------------------------------

/// The fixed catalog of rules.
#[derive(Clone, Copy, PartialEq, Eq, Structural, Debug)]
pub enum BuiltinRule {
    UndocumentedPublicApi,
    UnwrapInPublicApi,
    StdInNoStdCrate,
    PanicMacrosInPublicApi,
}

pub open spec fn rule_findings(r: BuiltinRule, k: &Klepto) -> Seq<FindingV> {
    match r {
        BuiltinRule::UndocumentedPublicApi => UndocumentedPublicApi.findings(k),
        BuiltinRule::UnwrapInPublicApi => UnwrapInPublicApi.findings(k),
        BuiltinRule::StdInNoStdCrate => StdInNoStdCrate.findings(k),
        BuiltinRule::PanicMacrosInPublicApi => PanicMacrosInPublicApi.findings(k),
    }
}

/// The findings of `rules` run in order, concatenated.
pub open spec fn all_findings(rules: Seq<BuiltinRule>, k: &Klepto) -> Seq<FindingV>
    decreases rules.len(),
{
    if rules.len() == 0 {
        Seq::empty()
    } else {
        all_findings(rules.drop_last(), k) + rule_findings(rules.last(), k)
    }
}

/// A registered list of rules over one fact set.
pub struct RuleRunner<'k> {
    k: &'k Klepto,
    rules: Vec<BuiltinRule>,
}

impl<'k> RuleRunner<'k> {
    pub closed spec fn facts(&self) -> &'k Klepto {
        self.k
    }

    pub closed spec fn registered(&self) -> Seq<BuiltinRule> {
        self.rules@
    }

    pub fn new(k: &'k Klepto) -> (r: RuleRunner<'k>)
        ensures
            r.facts() == k,
            r.registered() == Seq::<BuiltinRule>::empty(),
    {
        RuleRunner { k, rules: Vec::new() }
    }

    /// Registers the four reference rules: undocumented public API, risky
    /// calls, standard-library usage, panic-style macros.
    pub fn with_default_rules(self) -> (r: RuleRunner<'k>)
        ensures
            r.facts() == self.facts(),
            r.registered() == self.registered() + seq![
                BuiltinRule::UndocumentedPublicApi,
                BuiltinRule::UnwrapInPublicApi,
                BuiltinRule::StdInNoStdCrate,
                BuiltinRule::PanicMacrosInPublicApi,
            ],
    {
        let mut rules = self.rules;
        rules.push(BuiltinRule::UndocumentedPublicApi);
        rules.push(BuiltinRule::UnwrapInPublicApi);
        rules.push(BuiltinRule::StdInNoStdCrate);
        rules.push(BuiltinRule::PanicMacrosInPublicApi);
        proof {
            assert(rules@ =~= self.rules@ + seq![
                BuiltinRule::UndocumentedPublicApi,
                BuiltinRule::UnwrapInPublicApi,
                BuiltinRule::StdInNoStdCrate,
                BuiltinRule::PanicMacrosInPublicApi,
            ]);
        }
        RuleRunner { k: self.k, rules }
    }

    pub fn add_rule(self, r: BuiltinRule) -> (res: RuleRunner<'k>)
        ensures
            res.facts() == self.facts(),
            res.registered() == self.registered().push(r),
    {
        let mut rules = self.rules;
        rules.push(r);
        RuleRunner { k: self.k, rules }
    }

    /// Runs every rule in registration order and concatenates the findings.
    pub fn run(self) -> (r: Vec<Finding>)
        ensures
            r.deep_view() == all_findings(self.registered(), self.facts()),
    {
        let k = self.k;
        let mut out: Vec<Finding> = Vec::new();
        let mut i: usize = 0;
        proof {
            assert(out.deep_view() =~= Seq::<FindingV>::empty());
            assert(self.rules@.take(0) =~= Seq::<BuiltinRule>::empty());
        }
        while i < self.rules.len()
            invariant
                i <= self.rules.len(),
                k == self.k,
                out.deep_view() == all_findings(self.rules@.take(i as int), k),
            decreases self.rules.len() - i,
        {
            let found = match self.rules[i] {
                BuiltinRule::UndocumentedPublicApi => UndocumentedPublicApi.run(k),
                BuiltinRule::UnwrapInPublicApi => UnwrapInPublicApi.run(k),
                BuiltinRule::StdInNoStdCrate => StdInNoStdCrate.run(k),
                BuiltinRule::PanicMacrosInPublicApi => PanicMacrosInPublicApi.run(k),
            };
            crate::model::append_deep(&mut out, found);
            proof {
                let t = self.rules@.take(i + 1);
                assert(t.drop_last() =~= self.rules@.take(i as int));
                assert(t.last() == self.rules@[i as int]);
            }
            i += 1;
        }
        proof {
            assert(self.rules@.take(self.rules.len() as int) =~= self.rules@);
        }
        out
    }
}

impl Klepto {
    /// A runner over `self` with no rule registered.
    pub fn rules(&self) -> (r: RuleRunner<'_>)
        ensures
            r.facts() == self,
            r.registered() == Seq::<BuiltinRule>::empty(),
    {
        RuleRunner::new(self)
    }
}

} // verus!
