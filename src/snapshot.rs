//! Snapshots of a run's public projections, and the diff of two snapshots.
use vstd::prelude::*;
use crate::klepto::Klepto;
use crate::model::{CapturedFnV, ExportedSymbolV, FileLocation, LocationV, StolenPathV};
use crate::text::{lemma_lt_irreflexive, lemma_lt_total, lemma_lt_transitive, seq_lt, text_lt};

verus! {

/// The fingerprint of one function: its identity, the hash of its
/// signature text, the text itself and where it was declared.
pub struct FnFinger {
    pub fq_name: String,
    pub sig_hash: String,
    pub signature: String,
    pub location: FileLocation,
}

pub struct FnFingerV {
    pub fq_name: Seq<char>,
    pub sig_hash: Seq<char>,
    pub signature: Seq<char>,
    pub location: LocationV,
}

impl DeepView for FnFinger {
    type V = FnFingerV;

    open spec fn deep_view(&self) -> FnFingerV {
        FnFingerV {
            fq_name: self.fq_name@,
            sig_hash: self.sig_hash@,
            signature: self.signature@,
            location: self.location.deep_view(),
        }
    }
}

impl Clone for FnFinger {
    fn clone(&self) -> (r: Self)
        ensures
            r.deep_view() == self.deep_view(),
    {
        FnFinger {
            fq_name: self.fq_name.clone(),
            sig_hash: self.sig_hash.clone(),
            signature: self.signature.clone(),
            location: self.location.clone(),
        }
    }
}

/// The fingerprint of one re-export.
pub struct ExportFinger {
    pub exported_as: String,
    pub source_path: String,
    pub location: FileLocation,
}

pub struct ExportFingerV {
    pub exported_as: Seq<char>,
    pub source_path: Seq<char>,
    pub location: LocationV,
}

impl DeepView for ExportFinger {
    type V = ExportFingerV;

    open spec fn deep_view(&self) -> ExportFingerV {
        ExportFingerV {
            exported_as: self.exported_as@,
            source_path: self.source_path@,
            location: self.location.deep_view(),
        }
    }
}

impl Clone for ExportFinger {
    fn clone(&self) -> (r: Self)
        ensures
            r.deep_view() == self.deep_view(),
    {
        ExportFinger {
            exported_as: self.exported_as.clone(),
            source_path: self.source_path.clone(),
            location: self.location.clone(),
        }
    }
}

/// The persisted summary of one run.
pub struct Snapshot {
    pub crate_name: String,
    pub no_std: bool,
    pub functions: Vec<FnFinger>,
    pub exports: Vec<ExportFinger>,
    pub imports: Vec<String>,
}

/// What changed between two snapshots.
pub struct SnapshotDiff {
    pub added_functions: Vec<FnFinger>,
    pub removed_functions: Vec<FnFinger>,
    /// (old, new) fingerprints of functions whose signature hash changed.
    pub changed_signatures: Vec<(FnFinger, FnFinger)>,
    pub added_exports: Vec<ExportFinger>,
    pub removed_exports: Vec<ExportFinger>,
    pub added_imports: Vec<String>,
    pub removed_imports: Vec<String>,
}

// ---------------------------------------------------------------------
// Ordered key sets and keyed maps
// ---------------------------------------------------------------------

/// Each element strictly before the next.
pub open spec fn strictly_sorted(s: Seq<Seq<char>>) -> bool {
    forall|i: int| 0 <= i < s.len() - 1 ==> seq_lt(#[trigger] s[i], s[i + 1])
}

/// Inserts `x` into an ordered text set, unless it is present.
pub open spec fn set_insert(s: Seq<Seq<char>>, x: Seq<char>) -> Seq<Seq<char>>
    decreases s.len(),
{
    if s.len() == 0 {
        seq![x]
    } else if seq_lt(s[0], x) {
        seq![s[0]] + set_insert(s.drop_first(), x)
    } else if s[0] == x {
        s
    } else {
        seq![x] + s
    }
}

/// The distinct texts of `s`, in order.
pub open spec fn sorted_set(s: Seq<Seq<char>>) -> Seq<Seq<char>>
    decreases s.len(),
{
    if s.len() == 0 {
        Seq::empty()
    } else {
        set_insert(sorted_set(s.drop_last()), s.last())
    }
}

/// Order on optional numbers: absent first.
pub open spec fn opt_lt(a: Option<u32>, b: Option<u32>) -> bool {
    match (a, b) {
        (None, Some(_)) => true,
        (Some(x), Some(y)) => x < y,
        _ => false,
    }
}

/// Order on locations: by path, then line, then column.
pub open spec fn loc_lt(a: LocationV, b: LocationV) -> bool {
    seq_lt(a.0, b.0) || (a.0 == b.0 && (opt_lt(a.1, b.1) || (a.1 == b.1 && opt_lt(a.2, b.2))))
}

/// Order on fingerprints of one name: by location, then signature text,
/// then hash.
pub open spec fn finger_lt(a: FnFingerV, b: FnFingerV) -> bool {
    loc_lt(a.location, b.location) || (a.location == b.location && (seq_lt(a.signature, b.signature) || (
    a.signature == b.signature && seq_lt(a.sig_hash, b.sig_hash))))
}

/// Of two fingerprints of one name, the one that stands: the least.
pub open spec fn preferred_finger(kept: FnFingerV, x: FnFingerV) -> FnFingerV {
    if finger_lt(x, kept) {
        x
    } else {
        kept
    }
}

/// Inserts `x` into a map ordered by name; of two entries of the same name
/// the least in (location, signature, hash) order stands.
pub open spec fn map_insert(s: Seq<FnFingerV>, x: FnFingerV) -> Seq<FnFingerV>
    decreases s.len(),
{
    if s.len() == 0 {
        seq![x]
    } else if seq_lt(s[0].fq_name, x.fq_name) {
        seq![s[0]] + map_insert(s.drop_first(), x)
    } else if s[0].fq_name == x.fq_name {
        seq![preferred_finger(s[0], x)] + s.drop_first()
    } else {
        seq![x] + s
    }
}

/// The fingerprints keyed by name, ordered by name; of equal names the
/// least in (location, signature, hash) order stands.
pub open spec fn fn_map(s: Seq<FnFingerV>) -> Seq<FnFingerV>
    decreases s.len(),
{
    if s.len() == 0 {
        Seq::empty()
    } else {
        map_insert(fn_map(s.drop_last()), s.last())
    }
}

pub open spec fn keys_of(s: Seq<FnFingerV>) -> Seq<Seq<char>> {
    s.map_values(|f: FnFingerV| f.fq_name)
}

/// The first entry named `k`.
pub open spec fn lookup(s: Seq<FnFingerV>, k: Seq<char>) -> FnFingerV
    decreases s.len(),
{
    if s.len() == 0 {
        arbitrary()
    } else if s[0].fq_name == k {
        s[0]
    } else {
        lookup(s.drop_first(), k)
    }
}

pub open spec fn export_key(e: ExportFingerV) -> (Seq<char>, Seq<char>) {
    (e.exported_as, e.source_path)
}

pub open spec fn export_keys(s: Seq<ExportFingerV>) -> Seq<(Seq<char>, Seq<char>)> {
    s.map_values(|e: ExportFingerV| export_key(e))
}

// ---------------------------------------------------------------------
// The diff, as sequences
// ---------------------------------------------------------------------

pub open spec fn added_fns(new: Seq<FnFingerV>, old: Seq<FnFingerV>) -> Seq<FnFingerV> {
    let om = fn_map(old);
    fn_map(new).filter(|f: FnFingerV| !keys_of(om).contains(f.fq_name))
}

pub open spec fn changed_fns(new: Seq<FnFingerV>, old: Seq<FnFingerV>) -> Seq<(FnFingerV, FnFingerV)> {
    let om = fn_map(old);
    fn_map(new).filter(
        |f: FnFingerV| keys_of(om).contains(f.fq_name) && lookup(om, f.fq_name).sig_hash != f.sig_hash,
    ).map_values(|f: FnFingerV| (lookup(om, f.fq_name), f))
}

/// Order on re-export keys: by exported name, then by source path.
pub open spec fn key_lt(a: (Seq<char>, Seq<char>), b: (Seq<char>, Seq<char>)) -> bool {
    seq_lt(a.0, b.0) || (a.0 == b.0 && seq_lt(a.1, b.1))
}

/// Of two re-exports of one key, the one that stands: the one at the least
/// location.
pub open spec fn preferred_export(kept: ExportFingerV, x: ExportFingerV) -> ExportFingerV {
    if loc_lt(x.location, kept.location) {
        x
    } else {
        kept
    }
}

/// Inserts `x` into re-exports ordered by key; of two entries of the same
/// key the one at the least location stands.
pub open spec fn export_insert(s: Seq<ExportFingerV>, x: ExportFingerV) -> Seq<ExportFingerV>
    decreases s.len(),
{
    if s.len() == 0 {
        seq![x]
    } else if key_lt(export_key(s[0]), export_key(x)) {
        seq![s[0]] + export_insert(s.drop_first(), x)
    } else if export_key(s[0]) == export_key(x) {
        seq![preferred_export(s[0], x)] + s.drop_first()
    } else {
        seq![x] + s
    }
}

/// The re-exports keyed by (name, source path), one per key, ordered by
/// key; of equal keys the one at the least location stands.
pub open spec fn export_map(s: Seq<ExportFingerV>) -> Seq<ExportFingerV>
    decreases s.len(),
{
    if s.len() == 0 {
        Seq::empty()
    } else {
        export_insert(export_map(s.drop_last()), s.last())
    }
}

/// The entries of `src` whose key is not a key of `other`, in order.
pub open spec fn exports_not_in(src: Seq<ExportFingerV>, other: Seq<ExportFingerV>) -> Seq<ExportFingerV> {
    src.filter(|e: ExportFingerV| !export_keys(other).contains(export_key(e)))
}

/// The re-exports of `new` whose key `old` lacks: one per key, ordered by
/// key.
pub open spec fn added_exports_of(new: Seq<ExportFingerV>, old: Seq<ExportFingerV>) -> Seq<ExportFingerV> {
    exports_not_in(export_map(new), export_map(old))
}

pub open spec fn added_imports_of(new: Seq<Seq<char>>, old: Seq<Seq<char>>) -> Seq<Seq<char>> {
    sorted_set(new).filter(|s: Seq<char>| !sorted_set(old).contains(s))
}

pub struct SnapshotV {
    pub functions: Seq<FnFingerV>,
    pub exports: Seq<ExportFingerV>,
    pub imports: Seq<Seq<char>>,
}

impl Snapshot {
    pub open spec fn view_parts(&self) -> SnapshotV {
        SnapshotV {
            functions: self.functions.deep_view(),
            exports: self.exports.deep_view(),
            imports: self.imports.deep_view(),
        }
    }
}

pub struct SnapshotDiffV {
    pub added_functions: Seq<FnFingerV>,
    pub removed_functions: Seq<FnFingerV>,
    pub changed_signatures: Seq<(FnFingerV, FnFingerV)>,
    pub added_exports: Seq<ExportFingerV>,
    pub removed_exports: Seq<ExportFingerV>,
    pub added_imports: Seq<Seq<char>>,
    pub removed_imports: Seq<Seq<char>>,
}

impl DeepView for SnapshotDiff {
    type V = SnapshotDiffV;

    open spec fn deep_view(&self) -> SnapshotDiffV {
        SnapshotDiffV {
            added_functions: self.added_functions.deep_view(),
            removed_functions: self.removed_functions.deep_view(),
            changed_signatures: self.changed_signatures.deep_view(),
            added_exports: self.added_exports.deep_view(),
            removed_exports: self.removed_exports.deep_view(),
            added_imports: self.added_imports.deep_view(),
            removed_imports: self.removed_imports.deep_view(),
        }
    }
}

/// The diff of `new` against `old`.
pub open spec fn diff_spec(new: SnapshotV, old: SnapshotV) -> SnapshotDiffV {
    SnapshotDiffV {
        added_functions: added_fns(new.functions, old.functions),
        removed_functions: added_fns(old.functions, new.functions),
        changed_signatures: changed_fns(new.functions, old.functions),
        added_exports: added_exports_of(new.exports, old.exports),
        removed_exports: added_exports_of(old.exports, new.exports),
        added_imports: added_imports_of(new.imports, old.imports),
        removed_imports: added_imports_of(old.imports, new.imports),
    }
}

// ---------------------------------------------------------------------
// Building the ordered structures
// ---------------------------------------------------------------------

proof fn lemma_set_insert_at(s: Seq<Seq<char>>, x: Seq<char>, p: int)
    requires
        0 <= p <= s.len(),
        forall|j: int| 0 <= j < p ==> seq_lt(#[trigger] s[j], x),
        p < s.len() ==> !seq_lt(s[p], x),
    ensures
        set_insert(s, x) == if p < s.len() && s[p] == x {
            s
        } else {
            s.take(p) + seq![x] + s.skip(p)
        },
    decreases p,
{
    if p == 0 {
        if s.len() == 0 {
            assert(s.take(0) + seq![x] + s.skip(0) =~= seq![x]);
        } else {
            assert(s.take(0) + seq![x] + s.skip(0) =~= seq![x] + s);
        }
    } else {
        let t = s.drop_first();
        assert(seq_lt(s[0], x));
        assert forall|j: int| 0 <= j < p - 1 implies seq_lt(#[trigger] t[j], x) by {
            assert(t[j] == s[j + 1]);
        }
        lemma_set_insert_at(t, x, p - 1);
        if p < s.len() && s[p] == x {
            assert(seq![s[0]] + t =~= s);
        } else {
            assert(seq![s[0]] + (t.take(p - 1) + seq![x] + t.skip(p - 1)) =~= s.take(p) + seq![x] + s.skip(p));
        }
    }
}

fn set_insert_exec(v: &mut Vec<String>, x: String)
    ensures
        final(v).deep_view() == set_insert(old(v).deep_view(), x@),
{
    let ghost s = v.deep_view();
    let mut p: usize = 0;
    while p < v.len() && text_lt(v[p].as_str(), x.as_str())
        invariant
            p <= v.len(),
            s == v.deep_view(),
            forall|j: int| 0 <= j < p ==> seq_lt(#[trigger] s[j], x@),
        decreases v.len() - p,
    {
        proof {
            assert(s[p as int] == v@[p as int]@);
        }
        p += 1;
    }
    proof {
        if p < v.len() {
            assert(s[p as int] == v@[p as int]@);
        }
        lemma_set_insert_at(s, x@, p as int);
    }
    if p < v.len() && v[p].eq(&x) {
        return;
    }
    let ghost x_view = x@;
    v.insert(p, x);
    proof {
        assert(v.deep_view() =~= s.take(p as int) + seq![x_view] + s.skip(p as int));
    }
}

/// The distinct texts of `v`, in order.
pub fn sorted_unique(v: &Vec<String>) -> (r: Vec<String>)
    ensures
        r.deep_view() == sorted_set(v.deep_view()),
{
    let mut out: Vec<String> = Vec::new();
    let mut i: usize = 0;
    proof {
        assert(out.deep_view() =~= Seq::<Seq<char>>::empty());
        assert(v.deep_view().take(0) =~= Seq::<Seq<char>>::empty());
    }
    while i < v.len()
        invariant
            i <= v.len(),
            out.deep_view() == sorted_set(v.deep_view().take(i as int)),
        decreases v.len() - i,
    {
        set_insert_exec(&mut out, v[i].clone());
        proof {
            let t = v.deep_view().take(i + 1);
            assert(t.drop_last() =~= v.deep_view().take(i as int));
            assert(t.last() == v@[i as int]@);
        }
        i += 1;
    }
    proof {
        assert(v.deep_view().take(v.len() as int) =~= v.deep_view());
    }
    out
}

proof fn lemma_map_insert_at(s: Seq<FnFingerV>, x: FnFingerV, p: int)
    requires
        0 <= p <= s.len(),
        forall|j: int| 0 <= j < p ==> seq_lt(#[trigger] s[j].fq_name, x.fq_name),
        p < s.len() ==> !seq_lt(s[p].fq_name, x.fq_name),
    ensures
        map_insert(s, x) == if p < s.len() && s[p].fq_name == x.fq_name {
            s.update(p, preferred_finger(s[p], x))
        } else {
            s.take(p) + seq![x] + s.skip(p)
        },
    decreases p,
{
    if p == 0 {
        if s.len() == 0 {
            assert(s.take(0) + seq![x] + s.skip(0) =~= seq![x]);
        } else if s[0].fq_name == x.fq_name {
            assert(seq![preferred_finger(s[0], x)] + s.drop_first() =~= s.update(0, preferred_finger(s[0], x)));
        } else {
            assert(s.take(0) + seq![x] + s.skip(0) =~= seq![x] + s);
        }
    } else {
        let t = s.drop_first();
        assert(seq_lt(s[0].fq_name, x.fq_name));
        assert forall|j: int| 0 <= j < p - 1 implies seq_lt(#[trigger] t[j].fq_name, x.fq_name) by {
            assert(t[j] == s[j + 1]);
        }
        lemma_map_insert_at(t, x, p - 1);
        if p < s.len() && s[p].fq_name == x.fq_name {
            assert(t[p - 1] == s[p]);
            assert(seq![s[0]] + t.update(p - 1, preferred_finger(t[p - 1], x)) =~= s.update(
                p,
                preferred_finger(s[p], x),
            ));
        } else {
            assert(seq![s[0]] + (t.take(p - 1) + seq![x] + t.skip(p - 1)) =~= s.take(p) + seq![x] + s.skip(p));
        }
    }
}

fn opt_less(a: Option<u32>, b: Option<u32>) -> (r: bool)
    ensures
        r == opt_lt(a, b),
{
    match (a, b) {
        (None, Some(_)) => true,
        (Some(x), Some(y)) => x < y,
        _ => false,
    }
}

fn location_less(a: &FileLocation, b: &FileLocation) -> (r: bool)
    ensures
        r == loc_lt(a.deep_view(), b.deep_view()),
{
    text_lt(a.path.as_str(), b.path.as_str()) || (a.path.eq(&b.path) && (opt_less(a.line, b.line) || (a.line
        == b.line && opt_less(a.column, b.column))))
}

fn finger_less(a: &FnFinger, b: &FnFinger) -> (r: bool)
    ensures
        r == finger_lt(a.deep_view(), b.deep_view()),
{
    let same_loc = a.location.path.eq(&b.location.path) && a.location.line == b.location.line && a.location.column
        == b.location.column;
    location_less(&a.location, &b.location) || (same_loc && (text_lt(a.signature.as_str(), b.signature.as_str())
        || (a.signature.eq(&b.signature) && text_lt(a.sig_hash.as_str(), b.sig_hash.as_str()))))
}

fn map_insert_exec(v: &mut Vec<FnFinger>, x: FnFinger)
    ensures
        final(v).deep_view() == map_insert(old(v).deep_view(), x.deep_view()),
{
    let ghost s = v.deep_view();
    let ghost xv = x.deep_view();
    let mut p: usize = 0;
    while p < v.len() && text_lt(v[p].fq_name.as_str(), x.fq_name.as_str())
        invariant
            p <= v.len(),
            s == v.deep_view(),
            xv == x.deep_view(),
            forall|j: int| 0 <= j < p ==> seq_lt(#[trigger] s[j].fq_name, xv.fq_name),
        decreases v.len() - p,
    {
        proof {
            assert(s[p as int] == v@[p as int].deep_view());
        }
        p += 1;
    }
    proof {
        if p < v.len() {
            assert(s[p as int] == v@[p as int].deep_view());
        }
        lemma_map_insert_at(s, xv, p as int);
    }
    if p < v.len() && v[p].fq_name.eq(&x.fq_name) {
        if finger_less(&x, &v[p]) {
            v.set(p, x);
            proof {
                assert(v.deep_view() =~= s.update(p as int, xv));
            }
        } else {
            proof {
                assert(s.update(p as int, s[p as int]) =~= s);
            }
        }
    } else {
        v.insert(p, x);
        proof {
            assert(v.deep_view() =~= s.take(p as int) + seq![xv] + s.skip(p as int));
        }
    }
}

proof fn lemma_export_insert_at(s: Seq<ExportFingerV>, x: ExportFingerV, p: int)
    requires
        0 <= p <= s.len(),
        forall|j: int| 0 <= j < p ==> key_lt(export_key(#[trigger] s[j]), export_key(x)),
        p < s.len() ==> !key_lt(export_key(s[p]), export_key(x)),
    ensures
        export_insert(s, x) == if p < s.len() && export_key(s[p]) == export_key(x) {
            s.update(p, preferred_export(s[p], x))
        } else {
            s.take(p) + seq![x] + s.skip(p)
        },
    decreases p,
{
    if p == 0 {
        if s.len() == 0 {
            assert(s.take(0) + seq![x] + s.skip(0) =~= seq![x]);
        } else if export_key(s[0]) == export_key(x) {
            assert(seq![preferred_export(s[0], x)] + s.drop_first() =~= s.update(0, preferred_export(s[0], x)));
        } else {
            assert(s.take(0) + seq![x] + s.skip(0) =~= seq![x] + s);
        }
    } else {
        let t = s.drop_first();
        assert(key_lt(export_key(s[0]), export_key(x)));
        assert forall|j: int| 0 <= j < p - 1 implies key_lt(export_key(#[trigger] t[j]), export_key(x)) by {
            assert(t[j] == s[j + 1]);
        }
        lemma_export_insert_at(t, x, p - 1);
        if p < s.len() && export_key(s[p]) == export_key(x) {
            assert(t[p - 1] == s[p]);
            assert(seq![s[0]] + t.update(p - 1, preferred_export(t[p - 1], x)) =~= s.update(
                p,
                preferred_export(s[p], x),
            ));
        } else {
            assert(seq![s[0]] + (t.take(p - 1) + seq![x] + t.skip(p - 1)) =~= s.take(p) + seq![x] + s.skip(p));
        }
    }
}

fn export_key_lt(a: &ExportFinger, b: &ExportFinger) -> (r: bool)
    ensures
        r == key_lt(export_key(a.deep_view()), export_key(b.deep_view())),
{
    text_lt(a.exported_as.as_str(), b.exported_as.as_str()) || (a.exported_as.eq(&b.exported_as) && text_lt(
        a.source_path.as_str(),
        b.source_path.as_str(),
    ))
}

fn export_insert_exec(v: &mut Vec<ExportFinger>, x: ExportFinger)
    ensures
        final(v).deep_view() == export_insert(old(v).deep_view(), x.deep_view()),
{
    let ghost s = v.deep_view();
    let ghost xv = x.deep_view();
    let mut p: usize = 0;
    while p < v.len() && export_key_lt(&v[p], &x)
        invariant
            p <= v.len(),
            s == v.deep_view(),
            xv == x.deep_view(),
            forall|j: int| 0 <= j < p ==> key_lt(export_key(#[trigger] s[j]), export_key(xv)),
        decreases v.len() - p,
    {
        proof {
            assert(s[p as int] == v@[p as int].deep_view());
        }
        p += 1;
    }
    proof {
        if p < v.len() {
            assert(s[p as int] == v@[p as int].deep_view());
        }
        lemma_export_insert_at(s, xv, p as int);
    }
    if p < v.len() && v[p].exported_as.eq(&x.exported_as) && v[p].source_path.eq(&x.source_path) {
        if location_less(&x.location, &v[p].location) {
            v.set(p, x);
            proof {
                assert(v.deep_view() =~= s.update(p as int, xv));
            }
        } else {
            proof {
                assert(s.update(p as int, s[p as int]) =~= s);
            }
        }
    } else {
        v.insert(p, x);
        proof {
            assert(v.deep_view() =~= s.take(p as int) + seq![xv] + s.skip(p as int));
        }
    }
}

/// The re-exports keyed and ordered by (name, source path), of equal keys
/// the one at the least location standing.
pub fn keyed_exports(v: &Vec<ExportFinger>) -> (r: Vec<ExportFinger>)
    ensures
        r.deep_view() == export_map(v.deep_view()),
{
    let mut out: Vec<ExportFinger> = Vec::new();
    let mut i: usize = 0;
    proof {
        assert(out.deep_view() =~= Seq::<ExportFingerV>::empty());
        assert(v.deep_view().take(0) =~= Seq::<ExportFingerV>::empty());
    }
    while i < v.len()
        invariant
            i <= v.len(),
            out.deep_view() == export_map(v.deep_view().take(i as int)),
        decreases v.len() - i,
    {
        export_insert_exec(&mut out, v[i].clone());
        proof {
            let t = v.deep_view().take(i + 1);
            assert(t.drop_last() =~= v.deep_view().take(i as int));
            assert(t.last() == v@[i as int].deep_view());
        }
        i += 1;
    }
    proof {
        assert(v.deep_view().take(v.len() as int) =~= v.deep_view());
    }
    out
}

/// The fingerprints keyed and ordered by name, of equal names the least in
/// (location, signature, hash) order standing.
pub fn keyed_functions(v: &Vec<FnFinger>) -> (r: Vec<FnFinger>)
    ensures
        r.deep_view() == fn_map(v.deep_view()),
{
    let mut out: Vec<FnFinger> = Vec::new();
    let mut i: usize = 0;
    proof {
        assert(out.deep_view() =~= Seq::<FnFingerV>::empty());
        assert(v.deep_view().take(0) =~= Seq::<FnFingerV>::empty());
    }
    while i < v.len()
        invariant
            i <= v.len(),
            out.deep_view() == fn_map(v.deep_view().take(i as int)),
        decreases v.len() - i,
    {
        map_insert_exec(&mut out, v[i].clone());
        proof {
            let t = v.deep_view().take(i + 1);
            assert(t.drop_last() =~= v.deep_view().take(i as int));
            assert(t.last() == v@[i as int].deep_view());
        }
        i += 1;
    }
    proof {
        assert(v.deep_view().take(v.len() as int) =~= v.deep_view());
    }
    out
}

// ---------------------------------------------------------------------
// Diff
// ---------------------------------------------------------------------

fn keys_contain(m: &Vec<FnFinger>, k: &String) -> (r: bool)
    ensures
        r == keys_of(m.deep_view()).contains(k@),
{
    let mut i: usize = 0;
    while i < m.len()
        invariant
            i <= m.len(),
            forall|j: int| 0 <= j < i ==> m@[j].fq_name@ != k@,
        decreases m.len() - i,
    {
        if m[i].fq_name.eq(k) {
            proof {
                assert(keys_of(m.deep_view())[i as int] == k@);
            }
            return true;
        }
        i += 1;
    }
    proof {
        if keys_of(m.deep_view()).contains(k@) {
            let j = choose|j: int| 0 <= j < keys_of(m.deep_view()).len() && keys_of(m.deep_view())[j] == k@;
            assert(m@[j].fq_name@ == k@);
        }
    }
    false
}

fn lookup_exec<'a>(m: &'a Vec<FnFinger>, k: &String) -> (r: &'a FnFinger)
    requires
        keys_of(m.deep_view()).contains(k@),
    ensures
        r.deep_view() == lookup(m.deep_view(), k@),
{
    let ghost s = m.deep_view();
    let mut i: usize = 0;
    proof {
        assert(s.skip(0) =~= s);
    }
    while i < m.len()
        invariant
            i <= m.len(),
            s == m.deep_view(),
            keys_of(s).contains(k@),
            forall|j: int| 0 <= j < i ==> m@[j].fq_name@ != k@,
            lookup(s, k@) == lookup(s.skip(i as int), k@),
        decreases m.len() - i,
    {
        proof {
            assert(s.skip(i as int)[0] == m@[i as int].deep_view());
            assert(s.skip(i as int).drop_first() =~= s.skip(i + 1));
        }
        if m[i].fq_name.eq(k) {
            return &m[i];
        }
        i += 1;
    }
    proof {
        let j = choose|j: int| 0 <= j < keys_of(s).len() && keys_of(s)[j] == k@;
        assert(m@[j].fq_name@ == k@);
    }
    &m[0]
}

/// The entries of `src` whose name is not a key of `other`, in order.
fn fns_absent_from(src: &Vec<FnFinger>, other: &Vec<FnFinger>) -> (r: Vec<FnFinger>)
    ensures
        r.deep_view() == src.deep_view().filter(|f: FnFingerV| !keys_of(other.deep_view()).contains(f.fq_name)),
{
    let ghost v = src.deep_view();
    let ghost pred = |f: FnFingerV| !keys_of(other.deep_view()).contains(f.fq_name);
    let mut out: Vec<FnFinger> = Vec::new();
    let mut i: usize = 0;
    proof {
        reveal(Seq::filter);
        assert(v.take(0).filter(pred) =~= Seq::<FnFingerV>::empty());
        assert(out.deep_view() =~= Seq::<FnFingerV>::empty());
    }
    while i < src.len()
        invariant
            i <= src.len(),
            v == src.deep_view(),
            pred == (|f: FnFingerV| !keys_of(other.deep_view()).contains(f.fq_name)),
            out.deep_view() == v.take(i as int).filter(pred),
        decreases src.len() - i,
    {
        let ghost o = out.deep_view();
        let f = &src[i];
        let present = keys_contain(other, &f.fq_name);
        if !present {
            let c = f.clone();
            out.push(c);
            proof {
                assert(out.deep_view() =~= o.push(c.deep_view()));
            }
        }
        proof {
            reveal(Seq::filter);
            let t = v.take(i + 1);
            assert(t.drop_last() =~= v.take(i as int));
            assert(t.last() == f.deep_view());
        }
        i += 1;
    }
    proof {
        assert(v.take(src.len() as int) =~= v);
    }
    out
}

/// The (old, new) pairs of the entries of `nm` whose name is a key of `om`
/// with another signature hash, in the order of `nm`.
fn changed_pairs(nm: &Vec<FnFinger>, om: &Vec<FnFinger>) -> (r: Vec<(FnFinger, FnFinger)>)
    ensures
        r.deep_view() == nm.deep_view().filter(
            |f: FnFingerV|
                keys_of(om.deep_view()).contains(f.fq_name) && lookup(om.deep_view(), f.fq_name).sig_hash
                    != f.sig_hash,
        ).map_values(|f: FnFingerV| (lookup(om.deep_view(), f.fq_name), f)),
{
    let ghost v = nm.deep_view();
    let ghost w = om.deep_view();
    let ghost pred = |f: FnFingerV| keys_of(w).contains(f.fq_name) && lookup(w, f.fq_name).sig_hash != f.sig_hash;
    let ghost pair = |f: FnFingerV| (lookup(w, f.fq_name), f);
    let mut out: Vec<(FnFinger, FnFinger)> = Vec::new();
    let mut i: usize = 0;
    proof {
        reveal(Seq::filter);
        assert(v.take(0).filter(pred) =~= Seq::<FnFingerV>::empty());
        assert(out.deep_view() =~= Seq::<(FnFingerV, FnFingerV)>::empty());
        assert(v.take(0).filter(pred).map_values(pair) =~= Seq::<(FnFingerV, FnFingerV)>::empty());
    }
    while i < nm.len()
        invariant
            i <= nm.len(),
            v == nm.deep_view(),
            w == om.deep_view(),
            pred == (|f: FnFingerV| keys_of(w).contains(f.fq_name) && lookup(w, f.fq_name).sig_hash != f.sig_hash),
            pair == (|f: FnFingerV| (lookup(w, f.fq_name), f)),
            out.deep_view() == v.take(i as int).filter(pred).map_values(pair),
        decreases nm.len() - i,
    {
        let ghost o = out.deep_view();
        let f = &nm[i];
        let present = keys_contain(om, &f.fq_name);
        let mut hit = false;
        if present {
            let g = lookup_exec(om, &f.fq_name);
            if !g.sig_hash.eq(&f.sig_hash) {
                hit = true;
                let pr = (g.clone(), f.clone());
                out.push(pr);
                proof {
                    assert(out.deep_view() =~= o.push(pair(f.deep_view())));
                }
            }
        }
        proof {
            reveal(Seq::filter);
            let t = v.take(i + 1);
            assert(t.drop_last() =~= v.take(i as int));
            assert(t.last() == f.deep_view());
            assert(hit == pred(f.deep_view()));
            if hit {
                assert(t.filter(pred).map_values(pair) =~= v.take(i as int).filter(pred).map_values(pair).push(
                    pair(f.deep_view()),
                ));
            }
        }
        i += 1;
    }
    proof {
        assert(v.take(nm.len() as int) =~= v);
    }
    out
}

fn export_keys_contain(v: &Vec<ExportFinger>, e: &ExportFinger) -> (r: bool)
    ensures
        r == export_keys(v.deep_view()).contains(export_key(e.deep_view())),
{
    let mut i: usize = 0;
    while i < v.len()
        invariant
            i <= v.len(),
            forall|j: int|
                0 <= j < i ==> !(v@[j].exported_as@ == e.exported_as@ && v@[j].source_path@ == e.source_path@),
        decreases v.len() - i,
    {
        if v[i].exported_as.eq(&e.exported_as) && v[i].source_path.eq(&e.source_path) {
            proof {
                assert(export_keys(v.deep_view())[i as int] == export_key(e.deep_view()));
            }
            return true;
        }
        i += 1;
    }
    proof {
        if export_keys(v.deep_view()).contains(export_key(e.deep_view())) {
            let j = choose|j: int|
                0 <= j < export_keys(v.deep_view()).len() && export_keys(v.deep_view())[j] == export_key(
                    e.deep_view(),
                );
            assert(v@[j].exported_as@ == e.exported_as@);
        }
    }
    false
}

fn exports_absent_from(src: &Vec<ExportFinger>, other: &Vec<ExportFinger>) -> (r: Vec<ExportFinger>)
    ensures
        r.deep_view() == exports_not_in(src.deep_view(), other.deep_view()),
{
    let ghost v = src.deep_view();
    let ghost pred = |e: ExportFingerV| !export_keys(other.deep_view()).contains(export_key(e));
    let mut out: Vec<ExportFinger> = Vec::new();
    let mut i: usize = 0;
    proof {
        reveal(Seq::filter);
        assert(v.take(0).filter(pred) =~= Seq::<ExportFingerV>::empty());
        assert(out.deep_view() =~= Seq::<ExportFingerV>::empty());
    }
    while i < src.len()
        invariant
            i <= src.len(),
            v == src.deep_view(),
            pred == (|e: ExportFingerV| !export_keys(other.deep_view()).contains(export_key(e))),
            out.deep_view() == v.take(i as int).filter(pred),
        decreases src.len() - i,
    {
        let ghost o = out.deep_view();
        let e = &src[i];
        let present = export_keys_contain(other, e);
        if !present {
            let c = e.clone();
            out.push(c);
            proof {
                assert(out.deep_view() =~= o.push(c.deep_view()));
            }
        }
        proof {
            reveal(Seq::filter);
            let t = v.take(i + 1);
            assert(t.drop_last() =~= v.take(i as int));
            assert(t.last() == e.deep_view());
        }
        i += 1;
    }
    proof {
        assert(v.take(src.len() as int) =~= v);
    }
    out
}

fn texts_contain(v: &Vec<String>, s: &String) -> (r: bool)
    ensures
        r == v.deep_view().contains(s@),
{
    crate::klepto::names_contain(v, s)
}

fn texts_absent_from(src: &Vec<String>, other: &Vec<String>) -> (r: Vec<String>)
    ensures
        r.deep_view() == src.deep_view().filter(|s: Seq<char>| !other.deep_view().contains(s)),
{
    let ghost v = src.deep_view();
    let ghost pred = |s: Seq<char>| !other.deep_view().contains(s);
    let mut out: Vec<String> = Vec::new();
    let mut i: usize = 0;
    proof {
        reveal(Seq::filter);
        assert(v.take(0).filter(pred) =~= Seq::<Seq<char>>::empty());
        assert(out.deep_view() =~= Seq::<Seq<char>>::empty());
    }
    while i < src.len()
        invariant
            i <= src.len(),
            v == src.deep_view(),
            pred == (|s: Seq<char>| !other.deep_view().contains(s)),
            out.deep_view() == v.take(i as int).filter(pred),
        decreases src.len() - i,
    {
        let ghost o = out.deep_view();
        let x = &src[i];
        let present = texts_contain(other, x);
        if !present {
            let c = x.clone();
            out.push(c);
            proof {
                assert(out.deep_view() =~= o.push(c@));
            }
        }
        proof {
            reveal(Seq::filter);
            let t = v.take(i + 1);
            assert(t.drop_last() =~= v.take(i as int));
            assert(t.last() == x@);
        }
        i += 1;
    }
    proof {
        assert(v.take(src.len() as int) =~= v);
    }
    out
}

impl Snapshot {
    /// The diff of `self` (the new run) against `old`: functions keyed by
    /// name (added, removed, and changed where the signature hash differs),
    /// re-exports keyed by (name, source path), imports as text sets.
    pub fn diff(&self, old: &Snapshot) -> (r: SnapshotDiff)
        ensures
            r.deep_view() == diff_spec(self.view_parts(), old.view_parts()),
    {
        let nm = keyed_functions(&self.functions);
        let om = keyed_functions(&old.functions);
        let added_functions = fns_absent_from(&nm, &om);
        let removed_functions = fns_absent_from(&om, &nm);
        let changed_signatures = changed_pairs(&nm, &om);
        let ne = keyed_exports(&self.exports);
        let oe = keyed_exports(&old.exports);
        let added_exports = exports_absent_from(&ne, &oe);
        let removed_exports = exports_absent_from(&oe, &ne);
        let ni = sorted_unique(&self.imports);
        let oi = sorted_unique(&old.imports);
        let added_imports = texts_absent_from(&ni, &oi);
        let removed_imports = texts_absent_from(&oi, &ni);
        SnapshotDiff {
            added_functions,
            removed_functions,
            changed_signatures,
            added_exports,
            removed_exports,
            added_imports,
            removed_imports,
        }
    }
}

// ---------------------------------------------------------------------
// Laws of the diff
// ---------------------------------------------------------------------

/// Filtering a sequence by "its key is absent from the keys of a sequence
/// holding every element" leaves nothing.
proof fn lemma_filter_absent_empty<A, K>(s: Seq<A>, all: Seq<A>, key: spec_fn(A) -> K)
    requires
        forall|i: int| 0 <= i < s.len() ==> all.contains(#[trigger] s[i]),
    ensures
        s.filter(|x: A| !all.map_values(key).contains(key(x))).len() == 0,
    decreases s.len(),
{
    reveal(Seq::filter);
    if s.len() > 0 {
        let t = s.drop_last();
        assert forall|i: int| 0 <= i < t.len() implies all.contains(#[trigger] t[i]) by {
            assert(t[i] == s[i]);
        }
        lemma_filter_absent_empty(t, all, key);
        let x = s.last();
        assert(all.contains(x));
        let j = choose|j: int| 0 <= j < all.len() && all[j] == x;
        assert(all.map_values(key)[j] == key(x));
    }
}

proof fn lemma_filter_absent_self<A, K>(s: Seq<A>, key: spec_fn(A) -> K)
    ensures
        s.filter(|x: A| !s.map_values(key).contains(key(x))).len() == 0,
{
    lemma_filter_absent_empty(s, s, key);
}

/// The first entry of `map_insert(s, x)` is `x` or the first of `s`.
proof fn lemma_map_insert_head(s: Seq<FnFingerV>, x: FnFingerV)
    ensures
        map_insert(s, x).len() >= 1,
        map_insert(s, x)[0] == x || (s.len() > 0 && map_insert(s, x)[0] == s[0]),
    decreases s.len(),
{
}

proof fn lemma_map_insert_sorted(s: Seq<FnFingerV>, x: FnFingerV)
    requires
        strictly_sorted(keys_of(s)),
    ensures
        strictly_sorted(keys_of(map_insert(s, x))),
    decreases s.len(),
{
    let r = map_insert(s, x);
    if s.len() == 0 {
    } else if seq_lt(s[0].fq_name, x.fq_name) {
        let t = s.drop_first();
        assert forall|i: int| 0 <= i < keys_of(t).len() - 1 implies seq_lt(
            #[trigger] keys_of(t)[i],
            keys_of(t)[i + 1],
        ) by {
            assert(keys_of(t)[i] == keys_of(s)[i + 1]);
            assert(keys_of(t)[i + 1] == keys_of(s)[i + 2]);
        }
        lemma_map_insert_sorted(t, x);
        lemma_map_insert_head(t, x);
        let m = map_insert(t, x);
        assert(r == seq![s[0]] + m);
        assert forall|i: int| 0 <= i < keys_of(r).len() - 1 implies seq_lt(
            #[trigger] keys_of(r)[i],
            keys_of(r)[i + 1],
        ) by {
            if i == 0 {
                if m[0] != x {
                    assert(keys_of(s)[0] == s[0].fq_name);
                    assert(keys_of(s)[1] == s[1].fq_name);
                }
            } else {
                assert(keys_of(r)[i] == keys_of(m)[i - 1]);
                assert(keys_of(r)[i + 1] == keys_of(m)[i]);
            }
        }
    } else if s[0].fq_name == x.fq_name {
        assert forall|i: int| 0 <= i < keys_of(r).len() - 1 implies seq_lt(
            #[trigger] keys_of(r)[i],
            keys_of(r)[i + 1],
        ) by {
            assert(keys_of(r)[i + 1] == keys_of(s)[i + 1]);
            if i > 0 {
                assert(keys_of(r)[i] == keys_of(s)[i]);
            } else {
                assert(keys_of(r)[0] == keys_of(s)[0]);
            }
        }
    } else {
        lemma_lt_total(s[0].fq_name, x.fq_name);
        assert forall|i: int| 0 <= i < keys_of(r).len() - 1 implies seq_lt(
            #[trigger] keys_of(r)[i],
            keys_of(r)[i + 1],
        ) by {
            if i > 0 {
                assert(keys_of(r)[i] == keys_of(s)[i - 1]);
                assert(keys_of(r)[i + 1] == keys_of(s)[i]);
            }
        }
    }
}

proof fn lemma_fn_map_sorted(s: Seq<FnFingerV>)
    ensures
        strictly_sorted(keys_of(fn_map(s))),
    decreases s.len(),
{
    if s.len() > 0 {
        lemma_fn_map_sorted(s.drop_last());
        lemma_map_insert_sorted(fn_map(s.drop_last()), s.last());
    }
}

/// In a strictly sorted sequence every element is before every later one.
proof fn lemma_sorted_pairs(s: Seq<Seq<char>>, i: int, j: int)
    requires
        strictly_sorted(s),
        0 <= i < j < s.len(),
    ensures
        seq_lt(s[i], s[j]),
    decreases j - i,
{
    if j > i + 1 {
        lemma_sorted_pairs(s, i, j - 1);
        lemma_lt_transitive(s[i], s[j - 1], s[j]);
    }
}

/// With distinct ordered keys, looking an entry's key up finds the entry.
proof fn lemma_lookup_own(m: Seq<FnFingerV>, i: int)
    requires
        strictly_sorted(keys_of(m)),
        0 <= i < m.len(),
    ensures
        lookup(m, m[i].fq_name) == m[i],
    decreases i,
{
    if i > 0 {
        lemma_sorted_pairs(keys_of(m), 0, i);
        lemma_lt_irreflexive(m[i].fq_name);
        let t = m.drop_first();
        assert forall|k: int| 0 <= k < keys_of(t).len() - 1 implies seq_lt(
            #[trigger] keys_of(t)[k],
            keys_of(t)[k + 1],
        ) by {
            assert(keys_of(t)[k] == keys_of(m)[k + 1]);
            assert(keys_of(t)[k + 1] == keys_of(m)[k + 2]);
        }
        lemma_lookup_own(t, i - 1);
    }
}

/// Diffing a snapshot against itself yields nothing in any category.
pub proof fn lemma_diff_with_itself(s: SnapshotV)
    ensures
        diff_spec(s, s).added_functions.len() == 0,
        diff_spec(s, s).removed_functions.len() == 0,
        diff_spec(s, s).changed_signatures.len() == 0,
        diff_spec(s, s).added_exports.len() == 0,
        diff_spec(s, s).removed_exports.len() == 0,
        diff_spec(s, s).added_imports.len() == 0,
        diff_spec(s, s).removed_imports.len() == 0,
{
    let m = fn_map(s.functions);
    lemma_filter_absent_self(m, |f: FnFingerV| f.fq_name);
    assert(keys_of(m) == m.map_values(|f: FnFingerV| f.fq_name));
    assert(added_fns(s.functions, s.functions) == m.filter(
        |x: FnFingerV| !m.map_values(|f: FnFingerV| f.fq_name).contains((|f: FnFingerV| f.fq_name)(x)),
    )) by {
        assert((|f: FnFingerV| !keys_of(m).contains(f.fq_name)) == (|x: FnFingerV|
            !m.map_values(|f: FnFingerV| f.fq_name).contains((|f: FnFingerV| f.fq_name)(x))));
    }
    let em = export_map(s.exports);
    lemma_filter_absent_self(em, |e: ExportFingerV| export_key(e));
    assert(added_exports_of(s.exports, s.exports) == em.filter(
        |x: ExportFingerV| !em.map_values(|e: ExportFingerV| export_key(e)).contains(
            (|e: ExportFingerV| export_key(e))(x),
        ),
    )) by {
        assert((|e: ExportFingerV| !export_keys(em).contains(export_key(e))) == (|x: ExportFingerV|
            !em.map_values(|e: ExportFingerV| export_key(e)).contains(
                (|e: ExportFingerV| export_key(e))(x),
            )));
    }
    let ss = sorted_set(s.imports);
    lemma_filter_absent_self(ss, |x: Seq<char>| x);
    assert(ss.map_values(|x: Seq<char>| x) =~= ss);
    assert(added_imports_of(s.imports, s.imports) == ss.filter(
        |y: Seq<char>| !ss.map_values(|x: Seq<char>| x).contains((|x: Seq<char>| x)(y)),
    )) by {
        assert((|t: Seq<char>| !sorted_set(s.imports).contains(t)) == (|y: Seq<char>|
            !ss.map_values(|x: Seq<char>| x).contains((|x: Seq<char>| x)(y))));
    }
    // No entry of a keyed map differs from itself.
    lemma_fn_map_sorted(s.functions);
    let pred = |f: FnFingerV| keys_of(m).contains(f.fq_name) && lookup(m, f.fq_name).sig_hash != f.sig_hash;
    assert forall|i: int| 0 <= i < m.len() implies !pred(#[trigger] m[i]) by {
        lemma_lookup_own(m, i);
    }
    lemma_filter_none(m, pred);
}

proof fn lemma_filter_none<A>(s: Seq<A>, pred: spec_fn(A) -> bool)
    requires
        forall|i: int| 0 <= i < s.len() ==> !pred(#[trigger] s[i]),
    ensures
        s.filter(pred).len() == 0,
    decreases s.len(),
{
    reveal(Seq::filter);
    if s.len() > 0 {
        let t = s.drop_last();
        assert forall|i: int| 0 <= i < t.len() implies !pred(#[trigger] t[i]) by {
            assert(t[i] == s[i]);
        }
        lemma_filter_none(t, pred);
    }
}

/// Swapping the two snapshots swaps what was added and what was removed,
/// for functions, re-exports and imports.
pub proof fn lemma_diff_swap_added_removed(a: SnapshotV, b: SnapshotV)
    ensures
        diff_spec(b, a).added_functions == diff_spec(a, b).removed_functions,
        diff_spec(b, a).removed_functions == diff_spec(a, b).added_functions,
        diff_spec(b, a).added_exports == diff_spec(a, b).removed_exports,
        diff_spec(b, a).removed_exports == diff_spec(a, b).added_exports,
        diff_spec(b, a).added_imports == diff_spec(a, b).removed_imports,
        diff_spec(b, a).removed_imports == diff_spec(a, b).added_imports,
{
}

// ---------------------------------------------------------------------
// Taking a snapshot
// ---------------------------------------------------------------------

/// What `blake3` makes of the UTF-8 bytes of a text, as lowercase hex.
pub uninterp spec fn blake3_hex(s: Seq<char>) -> Seq<char>;

/// Relies on `blake3::Hasher` (`new`, `update`, `finalize`) and
/// `Hash::to_hex`: the digest of the text's bytes as 64 hex digits.
#[verifier::external_body]
fn hash_sig(s: &str) -> (r: String)
    ensures
        r@ == blake3_hex(s@),
        r@.len() == 64,
{
    let mut h = blake3::Hasher::new();
    h.update(s.as_bytes());
    h.finalize().to_hex().to_string()
}

pub open spec fn finger_of(f: CapturedFnV) -> FnFingerV {
    FnFingerV { fq_name: f.fq_name, sig_hash: blake3_hex(f.signature), signature: f.signature, location: f.location }
}

pub open spec fn export_finger_of(e: ExportedSymbolV) -> ExportFingerV {
    ExportFingerV { exported_as: e.exported_as, source_path: e.source_path, location: e.location }
}

impl Snapshot {
    /// Captures the function fingerprints, the re-exports, and the distinct
    /// import paths in order.
    pub fn from_klepto(k: &Klepto) -> (r: Snapshot)
        ensures
            r.crate_name@ == k.crate_name@,
            r.no_std == k.no_std_detected,
            r.functions.deep_view() == k.functions.deep_view().map_values(|f: CapturedFnV| finger_of(f)),
            r.exports.deep_view() == k.exports.deep_view().map_values(|e: ExportedSymbolV| export_finger_of(e)),
            r.imports.deep_view() == sorted_set(k.imports.deep_view().map_values(|i: StolenPathV| i.full_path)),
    {
        let mut functions: Vec<FnFinger> = Vec::new();
        let mut i: usize = 0;
        while i < k.functions.len()
            invariant
                i <= k.functions.len(),
                functions.deep_view() == k.functions.deep_view().take(i as int).map_values(
                    |f: CapturedFnV| finger_of(f),
                ),
            decreases k.functions.len() - i,
        {
            let ghost o = functions.deep_view();
            let f = &k.functions[i];
            let g = FnFinger {
                fq_name: f.fq_name.clone(),
                sig_hash: hash_sig(f.signature.as_str()),
                signature: f.signature.clone(),
                location: f.location.clone(),
            };
            functions.push(g);
            proof {
                assert(functions.deep_view() =~= o.push(g.deep_view()));
                assert(k.functions.deep_view().take(i + 1) =~= k.functions.deep_view().take(i as int).push(
                    f.deep_view(),
                ));
                assert(k.functions.deep_view().take(i + 1).map_values(|f: CapturedFnV| finger_of(f)) =~= o.push(
                    g.deep_view(),
                ));
            }
            i += 1;
        }
        let mut exports: Vec<ExportFinger> = Vec::new();
        let mut j: usize = 0;
        while j < k.exports.len()
            invariant
                j <= k.exports.len(),
                exports.deep_view() == k.exports.deep_view().take(j as int).map_values(
                    |e: ExportedSymbolV| export_finger_of(e),
                ),
            decreases k.exports.len() - j,
        {
            let ghost o = exports.deep_view();
            let e = &k.exports[j];
            let g = ExportFinger {
                exported_as: e.exported_as.clone(),
                source_path: e.source_path.clone(),
                location: e.location.clone(),
            };
            exports.push(g);
            proof {
                assert(exports.deep_view() =~= o.push(g.deep_view()));
                assert(k.exports.deep_view().take(j + 1) =~= k.exports.deep_view().take(j as int).push(
                    e.deep_view(),
                ));
                assert(k.exports.deep_view().take(j + 1).map_values(|e: ExportedSymbolV| export_finger_of(e)) =~= o.push(
                    g.deep_view(),
                ));
            }
            j += 1;
        }
        let mut paths: Vec<String> = Vec::new();
        let mut n: usize = 0;
        while n < k.imports.len()
            invariant
                n <= k.imports.len(),
                paths.deep_view() == k.imports.deep_view().take(n as int).map_values(|i: StolenPathV| i.full_path),
            decreases k.imports.len() - n,
        {
            let ghost o = paths.deep_view();
            let p = k.imports[n].full_path.clone();
            paths.push(p);
            proof {
                assert(paths.deep_view() =~= o.push(p@));
                assert(k.imports.deep_view().take(n + 1) =~= k.imports.deep_view().take(n as int).push(
                    k.imports@[n as int].deep_view(),
                ));
                assert(k.imports.deep_view().take(n + 1).map_values(|i: StolenPathV| i.full_path) =~= o.push(p@));
            }
            n += 1;
        }
        proof {
            assert(k.functions.deep_view().take(k.functions.len() as int) =~= k.functions.deep_view());
            assert(k.exports.deep_view().take(k.exports.len() as int) =~= k.exports.deep_view());
            assert(k.imports.deep_view().take(k.imports.len() as int) =~= k.imports.deep_view());
        }
        let imports = sorted_unique(&paths);
        Snapshot {
            crate_name: k.crate_name.clone(),
            no_std: k.no_std_detected,
            functions,
            exports,
            imports,
        }
    }
}

impl Klepto {
    pub fn snapshot(&self) -> (r: Snapshot)
        ensures
            r.crate_name@ == self.crate_name@,
            r.functions.deep_view() == self.functions.deep_view().map_values(|f: CapturedFnV| finger_of(f)),
            r.exports.deep_view() == self.exports.deep_view().map_values(|e: ExportedSymbolV| export_finger_of(e)),
            r.imports.deep_view() == sorted_set(self.imports.deep_view().map_values(|i: StolenPathV| i.full_path)),
            r.no_std == self.no_std_detected,
    {
        Snapshot::from_klepto(self)
    }

    /// The snapshot model of the facts of `self`.
    pub open spec fn snapshot_parts(&self) -> SnapshotV {
        SnapshotV {
            functions: self.functions.deep_view().map_values(|f: CapturedFnV| finger_of(f)),
            exports: self.exports.deep_view().map_values(|e: ExportedSymbolV| export_finger_of(e)),
            imports: sorted_set(self.imports.deep_view().map_values(|i: StolenPathV| i.full_path)),
        }
    }

    /// The diff of a fresh snapshot of `self` against `old`.
    pub fn diff_snapshot(&self, old: &Snapshot) -> (r: SnapshotDiff)
        ensures
            r.deep_view() == diff_spec(self.snapshot_parts(), old.view_parts()),
    {
        let s = self.snapshot();
        proof {
            assert(s.view_parts() == self.snapshot_parts());
        }
        s.diff(old)
    }
}

/// Every entry's name before every later entry's name.
pub open spec fn names_sorted(s: Seq<FnFingerV>) -> bool {
    forall|i: int, j: int| 0 <= i < j < s.len() ==> seq_lt(#[trigger] s[i].fq_name, #[trigger] s[j].fq_name)
}

proof fn lemma_names_sorted(s: Seq<FnFingerV>)
    requires
        strictly_sorted(keys_of(s)),
    ensures
        names_sorted(s),
{
    assert forall|i: int, j: int| 0 <= i < j < s.len() implies seq_lt(#[trigger] s[i].fq_name, #[trigger] s[j].fq_name) by {
        lemma_sorted_pairs(keys_of(s), i, j);
    }
}

proof fn lemma_filter_names_sorted(s: Seq<FnFingerV>, p: spec_fn(FnFingerV) -> bool)
    requires
        names_sorted(s),
    ensures
        names_sorted(s.filter(p)),
    decreases s.len(),
{
    reveal(Seq::filter);
    if s.len() > 0 {
        let d = s.drop_last();
        assert(names_sorted(d)) by {
            assert forall|i: int, j: int| 0 <= i < j < d.len() implies seq_lt(#[trigger] d[i].fq_name, #[trigger] d[j].fq_name) by {
                assert(d[i] == s[i] && d[j] == s[j]);
            }
        }
        lemma_filter_names_sorted(d, p);
        let fd = d.filter(p);
        let f = s.filter(p);
        if p(s.last()) {
            assert forall|i: int, j: int| 0 <= i < j < f.len() implies seq_lt(#[trigger] f[i].fq_name, #[trigger] f[j].fq_name) by {
                if j < fd.len() {
                    assert(f[i] == fd[i] && f[j] == fd[j]);
                } else {
                    assert(f[i] == fd[i]);
                    assert(fd.contains(fd[i]));
                    d.lemma_filter_contains_rev(p, fd[i]);
                    let k = choose|k: int| 0 <= k < d.len() && d[k] == fd[i];
                    assert(s[k] == d[k]);
                    assert(f[j] == s.last());
                    assert(s.last() == s[s.len() - 1]);
                }
            }
        }
    }
}

pub open spec fn has_name(s: Seq<FnFingerV>, k: Seq<char>) -> bool {
    exists|i: int| 0 <= i < s.len() && (#[trigger] s[i]).fq_name == k
}

/// Two sequences ordered by name with the same names have the same names
/// in the same places.
proof fn lemma_sorted_same_names(x: Seq<FnFingerV>, y: Seq<FnFingerV>)
    requires
        names_sorted(x),
        names_sorted(y),
        forall|k: Seq<char>| has_name(x, k) <==> has_name(y, k),
    ensures
        x.len() == y.len(),
        forall|i: int| 0 <= i < x.len() ==> (#[trigger] x[i]).fq_name == y[i].fq_name,
    decreases x.len(),
{
    if x.len() == 0 {
        if y.len() > 0 {
            assert(has_name(y, y[0].fq_name));
        }
    } else {
        assert(has_name(x, x[0].fq_name));
        assert(has_name(y, x[0].fq_name));
        let j = choose|j: int| 0 <= j < y.len() && (#[trigger] y[j]).fq_name == x[0].fq_name;
        assert(has_name(y, y[0].fq_name));
        assert(has_name(x, y[0].fq_name));
        let i = choose|i: int| 0 <= i < x.len() && (#[trigger] x[i]).fq_name == y[0].fq_name;
        if j > 0 {
            assert(seq_lt(y[0].fq_name, y[j].fq_name));
            if i > 0 {
                assert(seq_lt(x[0].fq_name, x[i].fq_name));
                lemma_lt_total(x[0].fq_name, x[i].fq_name);
            } else {
                lemma_lt_irreflexive(x[0].fq_name);
            }
        }
        assert(j == 0);
        let x1 = x.drop_first();
        let y1 = y.drop_first();
        assert(names_sorted(x1)) by {
            assert forall|a: int, b: int| 0 <= a < b < x1.len() implies seq_lt(#[trigger] x1[a].fq_name, #[trigger] x1[b].fq_name) by {
                assert(x1[a] == x[a + 1] && x1[b] == x[b + 1]);
            }
        }
        assert(names_sorted(y1)) by {
            assert forall|a: int, b: int| 0 <= a < b < y1.len() implies seq_lt(#[trigger] y1[a].fq_name, #[trigger] y1[b].fq_name) by {
                assert(y1[a] == y[a + 1] && y1[b] == y[b + 1]);
            }
        }
        assert forall|k: Seq<char>| has_name(x1, k) <==> has_name(y1, k) by {
            if has_name(x1, k) {
                let a = choose|a: int| 0 <= a < x1.len() && (#[trigger] x1[a]).fq_name == k;
                assert(x[a + 1].fq_name == k);
                assert(seq_lt(x[0].fq_name, x[a + 1].fq_name));
                lemma_lt_irreflexive(k);
                assert(has_name(x, k));
                let b = choose|b: int| 0 <= b < y.len() && (#[trigger] y[b]).fq_name == k;
                assert(b != 0);
                assert(y1[b - 1] == y[b]);
            }
            if has_name(y1, k) {
                let a = choose|a: int| 0 <= a < y1.len() && (#[trigger] y1[a]).fq_name == k;
                assert(y[a + 1].fq_name == k);
                assert(seq_lt(y[0].fq_name, y[a + 1].fq_name));
                lemma_lt_irreflexive(k);
                assert(has_name(y, k));
                let b = choose|b: int| 0 <= b < x.len() && (#[trigger] x[b]).fq_name == k;
                assert(b != 0);
                assert(x1[b - 1] == x[b]);
            }
        }
        lemma_sorted_same_names(x1, y1);
        assert forall|i: int| 0 <= i < x.len() implies (#[trigger] x[i]).fq_name == y[i].fq_name by {
            if i > 0 {
                assert(x[i] == x1[i - 1] && y[i] == y1[i - 1]);
            }
        }
    }
}

/// An entry of a keyed map is what looking its name up finds.
proof fn lemma_lookup_member(m: Seq<FnFingerV>, f: FnFingerV)
    requires
        strictly_sorted(keys_of(m)),
        m.contains(f),
    ensures
        lookup(m, f.fq_name) == f,
        keys_of(m).contains(f.fq_name),
{
    let i = choose|i: int| 0 <= i < m.len() && m[i] == f;
    lemma_lookup_own(m, i);
    assert(keys_of(m)[i] == f.fq_name);
}

/// Looking up a name that a keyed map holds finds an entry of that name.
proof fn lemma_lookup_found(m: Seq<FnFingerV>, k: Seq<char>)
    requires
        keys_of(m).contains(k),
    ensures
        m.contains(lookup(m, k)),
        lookup(m, k).fq_name == k,
    decreases m.len(),
{
    if m[0].fq_name != k {
        let t = m.drop_first();
        let i = choose|i: int| 0 <= i < keys_of(m).len() && keys_of(m)[i] == k;
        assert(i > 0);
        assert(keys_of(t)[i - 1] == k);
        lemma_lookup_found(t, k);
        let j = choose|j: int| 0 <= j < t.len() && t[j] == lookup(t, k);
        assert(m[j + 1] == t[j]);
    } else {
        assert(m[0] == lookup(m, k));
    }
}

/// Swapping the two snapshots swaps the (old, new) order of each changed
/// signature pair.
pub proof fn lemma_diff_swap_changed(a: SnapshotV, b: SnapshotV)
    ensures
        diff_spec(b, a).changed_signatures == diff_spec(a, b).changed_signatures.map_values(
            |p: (FnFingerV, FnFingerV)| (p.1, p.0),
        ),
{
    let am = fn_map(a.functions);
    let bm = fn_map(b.functions);
    lemma_fn_map_sorted(a.functions);
    lemma_fn_map_sorted(b.functions);
    lemma_names_sorted(am);
    lemma_names_sorted(bm);
    let pb = |f: FnFingerV| keys_of(bm).contains(f.fq_name) && lookup(bm, f.fq_name).sig_hash != f.sig_hash;
    let pa = |f: FnFingerV| keys_of(am).contains(f.fq_name) && lookup(am, f.fq_name).sig_hash != f.sig_hash;
    let x = am.filter(pb);
    let y = bm.filter(pa);
    lemma_filter_names_sorted(am, pb);
    lemma_filter_names_sorted(bm, pa);
    assert forall|k: Seq<char>| has_name(x, k) <==> has_name(y, k) by {
        if has_name(x, k) {
            let i = choose|i: int| 0 <= i < x.len() && (#[trigger] x[i]).fq_name == k;
            am.lemma_filter_pred(pb, i);
            assert(x.contains(x[i]));
            am.lemma_filter_contains_rev(pb, x[i]);
            lemma_lookup_member(am, x[i]);
            let g = lookup(bm, k);
            lemma_lookup_found(bm, k);
            let j = choose|j: int| 0 <= j < bm.len() && bm[j] == g;
            lemma_lookup_own(bm, j);
            assert(pa(bm[j]));
            bm.lemma_filter_contains(pa, j);
            let t = choose|t: int| 0 <= t < y.len() && y[t] == bm[j];
            assert(y[t].fq_name == k);
        }
        if has_name(y, k) {
            let i = choose|i: int| 0 <= i < y.len() && (#[trigger] y[i]).fq_name == k;
            bm.lemma_filter_pred(pa, i);
            assert(y.contains(y[i]));
            bm.lemma_filter_contains_rev(pa, y[i]);
            lemma_lookup_member(bm, y[i]);
            let g = lookup(am, k);
            lemma_lookup_found(am, k);
            let j = choose|j: int| 0 <= j < am.len() && am[j] == g;
            lemma_lookup_own(am, j);
            assert(pb(am[j]));
            am.lemma_filter_contains(pb, j);
            let t = choose|t: int| 0 <= t < x.len() && x[t] == am[j];
            assert(x[t].fq_name == k);
        }
    }
    lemma_sorted_same_names(x, y);
    let lhs = diff_spec(b, a).changed_signatures;
    let rhs = diff_spec(a, b).changed_signatures.map_values(|p: (FnFingerV, FnFingerV)| (p.1, p.0));
    assert(lhs == y.map_values(|f: FnFingerV| (lookup(am, f.fq_name), f)));
    assert(diff_spec(a, b).changed_signatures == x.map_values(|f: FnFingerV| (lookup(bm, f.fq_name), f)));
    assert forall|i: int| 0 <= i < lhs.len() implies lhs[i] == rhs[i] by {
        assert(x.contains(x[i]));
        am.lemma_filter_contains_rev(pb, x[i]);
        lemma_lookup_member(am, x[i]);
        assert(y.contains(y[i]));
        bm.lemma_filter_contains_rev(pa, y[i]);
        lemma_lookup_member(bm, y[i]);
    }
    assert(lhs =~= rhs);
}


proof fn lemma_map_insert_contents(m: Seq<FnFingerV>, x: FnFingerV)
    ensures
        !keys_of(m).contains(x.fq_name) ==> map_insert(m, x).contains(x),
        forall|y: FnFingerV| #[trigger] map_insert(m, x).contains(y) ==> y == x || m.contains(y),
        forall|y: FnFingerV| m.contains(y) && y.fq_name != x.fq_name ==> #[trigger] map_insert(m, x).contains(y),
    decreases m.len(),
{
    let r = map_insert(m, x);
    if m.len() == 0 {
        assert(r[0] == x);
    } else if seq_lt(m[0].fq_name, x.fq_name) {
        let t = m.drop_first();
        lemma_map_insert_contents(t, x);
        let rt = map_insert(t, x);
        assert(r == seq![m[0]] + rt);
        if !keys_of(m).contains(x.fq_name) {
            assert(!keys_of(t).contains(x.fq_name)) by {
                if keys_of(t).contains(x.fq_name) {
                    let j = choose|j: int| 0 <= j < keys_of(t).len() && keys_of(t)[j] == x.fq_name;
                    assert(keys_of(m)[j + 1] == x.fq_name);
                }
            }
            let j = choose|j: int| 0 <= j < rt.len() && rt[j] == x;
            assert(r[j + 1] == x);
        }
        assert forall|y: FnFingerV| #[trigger] r.contains(y) implies y == x || m.contains(y) by {
            let a = choose|a: int| 0 <= a < r.len() && r[a] == y;
            if a == 0 {
                assert(m[0] == y);
            } else {
                assert(rt[a - 1] == y);
                assert(rt.contains(y));
                if y != x {
                    let b = choose|b: int| 0 <= b < t.len() && t[b] == y;
                    assert(m[b + 1] == y);
                }
            }
        }
        assert forall|y: FnFingerV| m.contains(y) && y.fq_name != x.fq_name implies #[trigger] r.contains(y) by {
            let a = choose|a: int| 0 <= a < m.len() && m[a] == y;
            if a == 0 {
                assert(r[0] == y);
            } else {
                assert(t[a - 1] == y);
                assert(t.contains(y));
                assert(map_insert(t, x).contains(y));
                let b = choose|b: int| 0 <= b < rt.len() && rt[b] == y;
                assert(r[b + 1] == y);
            }
        }
    } else if m[0].fq_name == x.fq_name {
        assert(keys_of(m)[0] == x.fq_name);
        assert(r[0] == preferred_finger(m[0], x));
        assert forall|y: FnFingerV| #[trigger] r.contains(y) implies y == x || m.contains(y) by {
            let a = choose|a: int| 0 <= a < r.len() && r[a] == y;
            if a > 0 {
                assert(m[a] == y);
            } else if y != x {
                assert(m[0] == y);
            }
        }
        assert forall|y: FnFingerV| m.contains(y) && y.fq_name != x.fq_name implies #[trigger] r.contains(y) by {
            let a = choose|a: int| 0 <= a < m.len() && m[a] == y;
            assert(a != 0);
            assert(r[a] == y);
        }
    } else {
        assert(r[0] == x);
        assert forall|y: FnFingerV| #[trigger] r.contains(y) implies y == x || m.contains(y) by {
            let a = choose|a: int| 0 <= a < r.len() && r[a] == y;
            if a > 0 {
                assert(m[a - 1] == y);
            }
        }
        assert forall|y: FnFingerV| m.contains(y) && y.fq_name != x.fq_name implies #[trigger] r.contains(y) by {
            let a = choose|a: int| 0 <= a < m.len() && m[a] == y;
            assert(r[a + 1] == y);
        }
    }
}

/// Every entry of the keyed map comes from the list.
proof fn lemma_fn_map_from_list(s: Seq<FnFingerV>)
    ensures
        forall|y: FnFingerV| #[trigger] fn_map(s).contains(y) ==> s.contains(y),
    decreases s.len(),
{
    if s.len() > 0 {
        let d = s.drop_last();
        lemma_fn_map_from_list(d);
        lemma_map_insert_contents(fn_map(d), s.last());
        assert forall|y: FnFingerV| #[trigger] fn_map(s).contains(y) implies s.contains(y) by {
            if y == s.last() {
                assert(s[s.len() - 1] == y);
            } else {
                assert(fn_map(d).contains(y));
                let a = choose|a: int| 0 <= a < d.len() && d[a] == y;
                assert(s[a] == y);
            }
        }
    }
}

/// An entry whose name no later entry repeats stands in the keyed map.
proof fn lemma_fn_map_keeps(s: Seq<FnFingerV>, i: int)
    requires
        0 <= i < s.len(),
        forall|j: int| 0 <= j < s.len() && j != i ==> (#[trigger] s[j]).fq_name != s[i].fq_name,
    ensures
        fn_map(s).contains(s[i]),
    decreases s.len(),
{
    let d = s.drop_last();
    lemma_map_insert_contents(fn_map(d), s.last());
    if i < s.len() - 1 {
        assert forall|j: int| 0 <= j < d.len() && j != i implies (#[trigger] d[j]).fq_name != d[i].fq_name by {
            assert(d[j] == s[j]);
        }
        assert(d[i] == s[i]);
        lemma_fn_map_keeps(d, i);
        assert(s.last() == s[s.len() - 1]);
    } else {
        lemma_fn_map_from_list(d);
        assert(!keys_of(fn_map(d)).contains(s[i].fq_name)) by {
            if keys_of(fn_map(d)).contains(s[i].fq_name) {
                let j = choose|j: int| 0 <= j < keys_of(fn_map(d)).len() && keys_of(fn_map(d))[j] == s[i].fq_name;
                let y = fn_map(d)[j];
                assert(fn_map(d).contains(y));
                let a = choose|a: int| 0 <= a < d.len() && d[a] == y;
                assert(s[a] == y);
            }
        }
    }
}

/// When the only function named `k` changes its signature hash between
/// `old` and `new`, the diff holds exactly one changed pair for `k`, the
/// (old, new) pair, and `k` is neither added nor removed.
pub proof fn lemma_one_changed_signature(new: Seq<FnFingerV>, old: Seq<FnFingerV>, i_new: int, i_old: int)
    requires
        0 <= i_new < new.len(),
        0 <= i_old < old.len(),
        new[i_new].fq_name == old[i_old].fq_name,
        forall|j: int| 0 <= j < new.len() && j != i_new ==> (#[trigger] new[j]).fq_name != new[i_new].fq_name,
        forall|j: int| 0 <= j < old.len() && j != i_old ==> (#[trigger] old[j]).fq_name != old[i_old].fq_name,
        new[i_new].sig_hash != old[i_old].sig_hash,
    ensures
        exists|p: int| 0 <= p < changed_fns(new, old).len() && changed_fns(new, old)[p] == (old[i_old], new[i_new]),
        forall|p: int|
            0 <= p < changed_fns(new, old).len() && (#[trigger] changed_fns(new, old)[p]).1.fq_name
                == new[i_new].fq_name ==> changed_fns(new, old)[p] == (old[i_old], new[i_new]),
        forall|p: int, q: int|
            0 <= p < q < changed_fns(new, old).len() ==> (#[trigger] changed_fns(new, old)[p]).1.fq_name
                != (#[trigger] changed_fns(new, old)[q]).1.fq_name,
        forall|p: int|
            0 <= p < added_fns(new, old).len() ==> (#[trigger] added_fns(new, old)[p]).fq_name != new[i_new].fq_name,
        forall|p: int|
            0 <= p < added_fns(old, new).len() ==> (#[trigger] added_fns(old, new)[p]).fq_name != new[i_new].fq_name,
{
    let k = new[i_new].fq_name;
    let nf = new[i_new];
    let of = old[i_old];
    let nm = fn_map(new);
    let om = fn_map(old);
    lemma_fn_map_sorted(new);
    lemma_fn_map_sorted(old);
    lemma_fn_map_from_list(new);
    lemma_fn_map_from_list(old);
    lemma_fn_map_keeps(new, i_new);
    lemma_fn_map_keeps(old, i_old);
    lemma_lookup_member(om, of);
    lemma_lookup_member(nm, nf);
    let pb = |f: FnFingerV| keys_of(om).contains(f.fq_name) && lookup(om, f.fq_name).sig_hash != f.sig_hash;
    let pair = |f: FnFingerV| (lookup(om, f.fq_name), f);
    let x = nm.filter(pb);
    let c = changed_fns(new, old);
    assert(c == x.map_values(pair));
    // the pair is there
    let jn = choose|j: int| 0 <= j < nm.len() && nm[j] == nf;
    assert(pb(nm[jn]));
    nm.lemma_filter_contains(pb, jn);
    let t = choose|t: int| 0 <= t < x.len() && x[t] == nf;
    assert(c[t] == (of, nf));
    // every pair named k is that pair
    assert forall|p: int| 0 <= p < c.len() && (#[trigger] c[p]).1.fq_name == k implies c[p] == (of, nf) by {
        assert(c[p].1 == x[p]);
        assert(x.contains(x[p]));
        nm.lemma_filter_contains_rev(pb, x[p]);
        assert(new.contains(x[p]));
        let a = choose|a: int| 0 <= a < new.len() && new[a] == x[p];
        assert(a == i_new);
    }
    // names in the changed list are distinct
    lemma_names_sorted(nm);
    lemma_filter_names_sorted(nm, pb);
    assert forall|p: int, q: int| 0 <= p < q < c.len() implies (#[trigger] c[p]).1.fq_name != (#[trigger] c[q]).1.fq_name by {
        assert(c[p].1 == x[p] && c[q].1 == x[q]);
        assert(seq_lt(x[p].fq_name, x[q].fq_name));
        lemma_lt_irreflexive(x[p].fq_name);
    }
    // not added, not removed
    let pa = |f: FnFingerV| !keys_of(om).contains(f.fq_name);
    assert forall|p: int| 0 <= p < added_fns(new, old).len() implies (#[trigger] added_fns(new, old)[p]).fq_name != k by {
        assert(added_fns(new, old) == nm.filter(pa));
        nm.lemma_filter_pred(pa, p);
    }
    let pr = |f: FnFingerV| !keys_of(nm).contains(f.fq_name);
    assert forall|p: int| 0 <= p < added_fns(old, new).len() implies (#[trigger] added_fns(old, new)[p]).fq_name != k by {
        assert(added_fns(old, new) == om.filter(pr));
        om.lemma_filter_pred(pr, p);
    }
}


// ---------------------------------------------------------------------
// Independence from input order
// ---------------------------------------------------------------------

proof fn lemma_loc_order(a: LocationV, b: LocationV, c: LocationV)
    ensures
        !loc_lt(a, a),
        a != b ==> (loc_lt(a, b) || loc_lt(b, a)),
        !(loc_lt(a, b) && loc_lt(b, a)),
        loc_lt(a, b) && loc_lt(b, c) ==> loc_lt(a, c),
{
    lemma_lt_irreflexive(a.0);
    lemma_lt_total(a.0, b.0);
    lemma_lt_total(b.0, c.0);
    lemma_lt_total(a.0, c.0);
    if seq_lt(a.0, b.0) && seq_lt(b.0, c.0) {
        lemma_lt_transitive(a.0, b.0, c.0);
    }
    if a != b {
        assert(a.0 != b.0 || a.1 != b.1 || a.2 != b.2);
    }
}

proof fn lemma_finger_order(a: FnFingerV, b: FnFingerV, c: FnFingerV)
    ensures
        !finger_lt(a, a),
        a != b && a.fq_name == b.fq_name ==> (finger_lt(a, b) || finger_lt(b, a)),
        !(finger_lt(a, b) && finger_lt(b, a)),
        finger_lt(a, b) && finger_lt(b, c) ==> finger_lt(a, c),
{
    lemma_loc_order(a.location, b.location, c.location);
    lemma_loc_order(b.location, c.location, a.location);
    lemma_loc_order(b.location, a.location, c.location);
    lemma_lt_irreflexive(a.signature);
    lemma_lt_irreflexive(a.sig_hash);
    lemma_lt_total(a.signature, b.signature);
    lemma_lt_total(a.sig_hash, b.sig_hash);
    lemma_lt_total(b.signature, c.signature);
    lemma_lt_total(b.sig_hash, c.sig_hash);
    lemma_lt_total(a.signature, c.signature);
    lemma_lt_total(a.sig_hash, c.sig_hash);
    if seq_lt(a.signature, b.signature) && seq_lt(b.signature, c.signature) {
        lemma_lt_transitive(a.signature, b.signature, c.signature);
    }
    if seq_lt(a.sig_hash, b.sig_hash) && seq_lt(b.sig_hash, c.sig_hash) {
        lemma_lt_transitive(a.sig_hash, b.sig_hash, c.sig_hash);
    }
}

/// `y` is, of the entries of `s` named like it, the least.
pub open spec fn least_of_name(s: Seq<FnFingerV>, y: FnFingerV) -> bool {
    s.contains(y) && forall|z: FnFingerV| #[trigger] s.contains(z) && z.fq_name == y.fq_name ==> !finger_lt(z, y)
}

proof fn lemma_keys_contains(m: Seq<FnFingerV>, k: Seq<char>)
    ensures
        keys_of(m).contains(k) <==> exists|y: FnFingerV| #[trigger] m.contains(y) && y.fq_name == k,
{
    if keys_of(m).contains(k) {
        let j = choose|j: int| 0 <= j < keys_of(m).len() && keys_of(m)[j] == k;
        assert(m.contains(m[j]));
    }
    if exists|y: FnFingerV| #[trigger] m.contains(y) && y.fq_name == k {
        let y = choose|y: FnFingerV| #[trigger] m.contains(y) && y.fq_name == k;
        let j = choose|j: int| 0 <= j < m.len() && m[j] == y;
        assert(keys_of(m)[j] == k);
    }
}

/// What inserting into a keyed map holds: the other names unchanged, and
/// for the inserted name the preferred of the old entry and the new one.
proof fn lemma_map_insert_exact(m: Seq<FnFingerV>, x: FnFingerV, y: FnFingerV)
    requires
        strictly_sorted(keys_of(m)),
    ensures
        map_insert(m, x).contains(y) <==> (if y.fq_name != x.fq_name {
            m.contains(y)
        } else if keys_of(m).contains(x.fq_name) {
            y == preferred_finger(lookup(m, x.fq_name), x)
        } else {
            y == x
        }),
    decreases m.len(),
{
    let r = map_insert(m, x);
    lemma_map_insert_contents(m, x);
    if m.len() == 0 {
        if r.contains(y) {
            assert(r[0] == y);
        }
    } else if seq_lt(m[0].fq_name, x.fq_name) {
        let t = m.drop_first();
        assert(strictly_sorted(keys_of(t))) by {
            assert forall|i: int| 0 <= i < keys_of(t).len() - 1 implies seq_lt(#[trigger] keys_of(t)[i], keys_of(t)[i + 1]) by {
                assert(keys_of(t)[i] == keys_of(m)[i + 1]);
                assert(keys_of(t)[i + 1] == keys_of(m)[i + 2]);
            }
        }
        lemma_map_insert_exact(t, x, y);
        let rt = map_insert(t, x);
        assert(r == seq![m[0]] + rt);
        lemma_lt_irreflexive(x.fq_name);
        assert(keys_of(m).contains(x.fq_name) <==> keys_of(t).contains(x.fq_name)) by {
            if keys_of(m).contains(x.fq_name) {
                let j = choose|j: int| 0 <= j < keys_of(m).len() && keys_of(m)[j] == x.fq_name;
                assert(j != 0);
                assert(keys_of(t)[j - 1] == x.fq_name);
            }
            if keys_of(t).contains(x.fq_name) {
                let j = choose|j: int| 0 <= j < keys_of(t).len() && keys_of(t)[j] == x.fq_name;
                assert(keys_of(m)[j + 1] == x.fq_name);
            }
        }
        assert(lookup(m, x.fq_name) == lookup(t, x.fq_name));
        assert(r.contains(y) <==> (y == m[0] || rt.contains(y))) by {
            if r.contains(y) {
                let a = choose|a: int| 0 <= a < r.len() && r[a] == y;
                if a > 0 {
                    assert(rt[a - 1] == y);
                }
            }
            if y == m[0] {
                assert(r[0] == y);
            }
            if rt.contains(y) {
                let a = choose|a: int| 0 <= a < rt.len() && rt[a] == y;
                assert(r[a + 1] == y);
            }
        }
        assert(m.contains(y) <==> (y == m[0] || t.contains(y))) by {
            if m.contains(y) {
                let a = choose|a: int| 0 <= a < m.len() && m[a] == y;
                if a > 0 {
                    assert(t[a - 1] == y);
                }
            }
            if y == m[0] {
                assert(m[0] == y);
            }
            if t.contains(y) {
                let a = choose|a: int| 0 <= a < t.len() && t[a] == y;
                assert(m[a + 1] == y);
            }
        }
    } else if m[0].fq_name == x.fq_name {
        let p = preferred_finger(m[0], x);
        assert(keys_of(m)[0] == x.fq_name);
        assert(lookup(m, x.fq_name) == m[0]);
        assert(r == seq![p] + m.drop_first());
        if r.contains(y) {
            let a = choose|a: int| 0 <= a < r.len() && r[a] == y;
            if a > 0 {
                assert(m[a] == y);
                lemma_sorted_pairs(keys_of(m), 0, a);
                lemma_lt_irreflexive(m[0].fq_name);
            }
        }
        if y.fq_name != x.fq_name && m.contains(y) {
            let a = choose|a: int| 0 <= a < m.len() && m[a] == y;
            assert(a != 0);
            assert(r[a] == y);
        }
        if y.fq_name == x.fq_name && y == p {
            assert(r[0] == y);
        }
    } else {
        lemma_lt_total(m[0].fq_name, x.fq_name);
        assert(!keys_of(m).contains(x.fq_name)) by {
            if keys_of(m).contains(x.fq_name) {
                let j = choose|j: int| 0 <= j < keys_of(m).len() && keys_of(m)[j] == x.fq_name;
                if j > 0 {
                    lemma_sorted_pairs(keys_of(m), 0, j);
                    lemma_lt_total(m[0].fq_name, x.fq_name);
                }
            }
        }
        assert(r == seq![x] + m);
        if r.contains(y) {
            let a = choose|a: int| 0 <= a < r.len() && r[a] == y;
            if a > 0 {
                assert(m[a - 1] == y);
                if y.fq_name == x.fq_name {
                    assert(keys_of(m)[a - 1] == x.fq_name);
                }
            }
        }
        if y.fq_name != x.fq_name && m.contains(y) {
            let a = choose|a: int| 0 <= a < m.len() && m[a] == y;
            assert(r[a + 1] == y);
        }
        if y == x {
            assert(r[0] == y);
        }
    }
}

/// The keyed map holds exactly the least entry of each name of the list.
proof fn lemma_fn_map_least(s: Seq<FnFingerV>, y: FnFingerV)
    ensures
        fn_map(s).contains(y) <==> least_of_name(s, y),
    decreases s.len(),
{
    if s.len() == 0 {
        assert(!fn_map(s).contains(y));
    } else {
        let d = s.drop_last();
        let x = s.last();
        let m = fn_map(d);
        lemma_fn_map_sorted(d);
        lemma_map_insert_exact(m, x, y);
        lemma_fn_map_least(d, y);
        assert forall|z: FnFingerV| #[trigger] s.contains(z) <==> (d.contains(z) || z == x) by {
            if s.contains(z) {
                let a = choose|a: int| 0 <= a < s.len() && s[a] == z;
                if a < d.len() {
                    assert(d[a] == z);
                }
            }
            if d.contains(z) {
                let a = choose|a: int| 0 <= a < d.len() && d[a] == z;
                assert(s[a] == z);
            }
            if z == x {
                assert(s[s.len() - 1] == z);
            }
        }
        lemma_finger_order(y, x, y);
        if y.fq_name != x.fq_name {
            if least_of_name(d, y) {
                assert(s.contains(y));
                assert forall|z: FnFingerV| #[trigger] s.contains(z) && z.fq_name == y.fq_name implies !finger_lt(z, y) by {
                    assert(d.contains(z));
                }
            }
            if least_of_name(s, y) {
                assert(d.contains(y));
                assert forall|z: FnFingerV| #[trigger] d.contains(z) && z.fq_name == y.fq_name implies !finger_lt(z, y) by {
                    assert(s.contains(z));
                }
            }
        } else {
            lemma_keys_contains(m, x.fq_name);
            if keys_of(m).contains(x.fq_name) {
                lemma_lookup_found(m, x.fq_name);
                let mk = lookup(m, x.fq_name);
                lemma_fn_map_least(d, mk);
                let p = preferred_finger(mk, x);
                lemma_finger_order(mk, x, mk);
                // p is least in s
                assert(least_of_name(s, p)) by {
                    assert forall|z: FnFingerV| #[trigger] s.contains(z) && z.fq_name == p.fq_name implies !finger_lt(z, p) by {
                        lemma_finger_order(z, x, mk);
                        lemma_finger_order(z, mk, x);
                        if z != x {
                            assert(d.contains(z));
                        }
                    }
                }
                // any least entry is p
                if least_of_name(s, y) && y != p {
                    lemma_finger_order(y, p, y);
                    assert(s.contains(p));
                }
            } else {
                // no entry of `d` bears this name
                assert forall|z: FnFingerV| #[trigger] s.contains(z) && z.fq_name == x.fq_name implies z == x by {
                    if z != x {
                        assert(d.contains(z));
                        lemma_fn_map_least(d, z);
                        assert(!m.contains(z));
                        lemma_least_exists(d, z);
                    }
                }
                if least_of_name(s, y) {
                    assert(y == x);
                }
                if y == x {
                    assert(s.contains(x));
                    assert forall|z: FnFingerV| #[trigger] s.contains(z) && z.fq_name == y.fq_name implies !finger_lt(z, y) by {
                        assert(z == x);
                    }
                }
            }
        }
    }
}

/// A name that the list bears is a name of the keyed map.
proof fn lemma_least_exists(s: Seq<FnFingerV>, z: FnFingerV)
    requires
        s.contains(z),
    ensures
        keys_of(fn_map(s)).contains(z.fq_name),
    decreases s.len(),
{
    let d = s.drop_last();
    let x = s.last();
    let m = fn_map(d);
    lemma_fn_map_sorted(d);
    lemma_map_insert_contents(m, x);
    lemma_keys_contains(fn_map(s), z.fq_name);
    if z.fq_name == x.fq_name {
        lemma_keys_contains(m, x.fq_name);
        if keys_of(m).contains(x.fq_name) {
            lemma_lookup_found(m, x.fq_name);
            lemma_map_insert_exact(m, x, preferred_finger(lookup(m, x.fq_name), x));
        } else {
            assert(fn_map(s).contains(x));
        }
    } else {
        let a = choose|a: int| 0 <= a < s.len() && s[a] == z;
        assert(a < d.len());
        assert(d[a] == z);
        lemma_least_exists(d, z);
        lemma_keys_contains(m, z.fq_name);
        let w = choose|w: FnFingerV| #[trigger] m.contains(w) && w.fq_name == z.fq_name;
        assert(fn_map(s).contains(w));
    }
}

/// The keyed map of a list depends only on which entries the list holds,
/// not on their order or repetition.
pub proof fn lemma_fn_map_order_free(s1: Seq<FnFingerV>, s2: Seq<FnFingerV>)
    requires
        forall|x: FnFingerV| #[trigger] s1.contains(x) <==> s2.contains(x),
    ensures
        fn_map(s1) == fn_map(s2),
{
    let m1 = fn_map(s1);
    let m2 = fn_map(s2);
    lemma_fn_map_sorted(s1);
    lemma_fn_map_sorted(s2);
    assert forall|y: FnFingerV| #[trigger] m1.contains(y) <==> m2.contains(y) by {
        lemma_fn_map_least(s1, y);
        lemma_fn_map_least(s2, y);
        if least_of_name(s1, y) {
            assert(s2.contains(y));
            assert forall|z: FnFingerV| #[trigger] s2.contains(z) && z.fq_name == y.fq_name implies !finger_lt(z, y) by {
                assert(s1.contains(z));
            }
        }
        if least_of_name(s2, y) {
            assert(s1.contains(y));
            assert forall|z: FnFingerV| #[trigger] s1.contains(z) && z.fq_name == y.fq_name implies !finger_lt(z, y) by {
                assert(s2.contains(z));
            }
        }
    }
    lemma_names_sorted(m1);
    lemma_names_sorted(m2);
    assert forall|k: Seq<char>| has_name(m1, k) <==> has_name(m2, k) by {
        if has_name(m1, k) {
            let i = choose|i: int| 0 <= i < m1.len() && (#[trigger] m1[i]).fq_name == k;
            assert(m1.contains(m1[i]));
            assert(m2.contains(m1[i]));
            let j = choose|j: int| 0 <= j < m2.len() && m2[j] == m1[i];
            assert(m2[j].fq_name == k);
        }
        if has_name(m2, k) {
            let i = choose|i: int| 0 <= i < m2.len() && (#[trigger] m2[i]).fq_name == k;
            assert(m2.contains(m2[i]));
            assert(m1.contains(m2[i]));
            let j = choose|j: int| 0 <= j < m1.len() && m1[j] == m2[i];
            assert(m1[j].fq_name == k);
        }
    }
    lemma_sorted_same_names(m1, m2);
    assert forall|i: int| 0 <= i < m1.len() implies m1[i] == m2[i] by {
        assert(m1.contains(m1[i]));
        assert(m2.contains(m1[i]));
        let j = choose|j: int| 0 <= j < m2.len() && m2[j] == m1[i];
        if j != i {
            if j < i {
                assert(seq_lt(m2[j].fq_name, m2[i].fq_name));
            } else {
                assert(seq_lt(m2[i].fq_name, m2[j].fq_name));
            }
            lemma_lt_irreflexive(m1[i].fq_name);
        }
    }
    assert(m1 =~= m2);
}


// ---------------------------------------------------------------------
// Independence from input order: re-exports
// ---------------------------------------------------------------------

/// Order on re-exports of one key: by location.
pub open spec fn export_lt(a: ExportFingerV, b: ExportFingerV) -> bool {
    loc_lt(a.location, b.location)
}

proof fn lemma_key_irreflexive(a: (Seq<char>, Seq<char>))
    ensures
        !key_lt(a, a),
{
    lemma_lt_irreflexive(a.0);
    lemma_lt_irreflexive(a.1);
}

proof fn lemma_key_total(a: (Seq<char>, Seq<char>), b: (Seq<char>, Seq<char>))
    ensures
        a != b ==> (key_lt(a, b) || key_lt(b, a)),
        !(key_lt(a, b) && key_lt(b, a)),
{
    lemma_lt_total(a.0, b.0);
    lemma_lt_total(a.1, b.1);
    lemma_lt_irreflexive(a.0);
}

proof fn lemma_key_transitive(a: (Seq<char>, Seq<char>), b: (Seq<char>, Seq<char>), c: (Seq<char>, Seq<char>))
    requires
        key_lt(a, b),
        key_lt(b, c),
    ensures
        key_lt(a, c),
{
    if seq_lt(a.0, b.0) && seq_lt(b.0, c.0) {
        lemma_lt_transitive(a.0, b.0, c.0);
    }
    lemma_lt_irreflexive(a.0);
    lemma_lt_irreflexive(b.0);
    if a.0 == b.0 && b.0 == c.0 {
        lemma_lt_transitive(a.1, b.1, c.1);
    }
}

proof fn lemma_export_order(a: ExportFingerV, b: ExportFingerV, c: ExportFingerV)
    ensures
        !export_lt(a, a),
        a != b && export_key(a) == export_key(b) ==> (export_lt(a, b) || export_lt(b, a)),
        !(export_lt(a, b) && export_lt(b, a)),
        export_lt(a, b) && export_lt(b, c) ==> export_lt(a, c),
{
    lemma_loc_order(a.location, b.location, c.location);
}

/// Each element strictly before the next.
pub open spec fn keys_strictly_sorted(s: Seq<(Seq<char>, Seq<char>)>) -> bool {
    forall|i: int| 0 <= i < s.len() - 1 ==> key_lt(#[trigger] s[i], s[i + 1])
}

/// The first entry named `k`.
pub open spec fn export_lookup(s: Seq<ExportFingerV>, k: (Seq<char>, Seq<char>)) -> ExportFingerV
    decreases s.len(),
{
    if s.len() == 0 {
        arbitrary()
    } else if export_key(s[0]) == k {
        s[0]
    } else {
        export_lookup(s.drop_first(), k)
    }
}

/// The first entry of `export_insert(s, x)` is `x` or the first of `s`.
proof fn lemma_export_insert_head(s: Seq<ExportFingerV>, x: ExportFingerV)
    ensures
        export_insert(s, x).len() >= 1,
        export_insert(s, x)[0] == x || (s.len() > 0 && export_insert(s, x)[0] == s[0]),
    decreases s.len(),
{
}

proof fn lemma_export_insert_sorted(s: Seq<ExportFingerV>, x: ExportFingerV)
    requires
        keys_strictly_sorted(export_keys(s)),
    ensures
        keys_strictly_sorted(export_keys(export_insert(s, x))),
    decreases s.len(),
{
    let r = export_insert(s, x);
    if s.len() == 0 {
    } else if key_lt(export_key(s[0]), export_key(x)) {
        let t = s.drop_first();
        assert forall|i: int| 0 <= i < export_keys(t).len() - 1 implies key_lt(
            #[trigger] export_keys(t)[i],
            export_keys(t)[i + 1],
        ) by {
            assert(export_keys(t)[i] == export_keys(s)[i + 1]);
            assert(export_keys(t)[i + 1] == export_keys(s)[i + 2]);
        }
        lemma_export_insert_sorted(t, x);
        lemma_export_insert_head(t, x);
        let m = export_insert(t, x);
        assert(r == seq![s[0]] + m);
        assert forall|i: int| 0 <= i < export_keys(r).len() - 1 implies key_lt(
            #[trigger] export_keys(r)[i],
            export_keys(r)[i + 1],
        ) by {
            if i == 0 {
                if m[0] != x {
                    assert(export_keys(s)[0] == export_key(s[0]));
                    assert(export_keys(s)[1] == export_key(s[1]));
                }
            } else {
                assert(export_keys(r)[i] == export_keys(m)[i - 1]);
                assert(export_keys(r)[i + 1] == export_keys(m)[i]);
            }
        }
    } else if export_key(s[0]) == export_key(x) {
        assert forall|i: int| 0 <= i < export_keys(r).len() - 1 implies key_lt(
            #[trigger] export_keys(r)[i],
            export_keys(r)[i + 1],
        ) by {
            assert(export_keys(r)[i + 1] == export_keys(s)[i + 1]);
            if i > 0 {
                assert(export_keys(r)[i] == export_keys(s)[i]);
            } else {
                assert(export_keys(r)[0] == export_keys(s)[0]);
            }
        }
    } else {
        lemma_key_total(export_key(s[0]), export_key(x));
        assert forall|i: int| 0 <= i < export_keys(r).len() - 1 implies key_lt(
            #[trigger] export_keys(r)[i],
            export_keys(r)[i + 1],
        ) by {
            if i > 0 {
                assert(export_keys(r)[i] == export_keys(s)[i - 1]);
                assert(export_keys(r)[i + 1] == export_keys(s)[i]);
            }
        }
    }
}

proof fn lemma_export_map_sorted(s: Seq<ExportFingerV>)
    ensures
        keys_strictly_sorted(export_keys(export_map(s))),
    decreases s.len(),
{
    if s.len() > 0 {
        lemma_export_map_sorted(s.drop_last());
        lemma_export_insert_sorted(export_map(s.drop_last()), s.last());
    }
}

/// In a strictly sorted sequence every element is before every later one.
proof fn lemma_keys_sorted_pairs(s: Seq<(Seq<char>, Seq<char>)>, i: int, j: int)
    requires
        keys_strictly_sorted(s),
        0 <= i < j < s.len(),
    ensures
        key_lt(s[i], s[j]),
    decreases j - i,
{
    if j > i + 1 {
        lemma_keys_sorted_pairs(s, i, j - 1);
        lemma_key_transitive(s[i], s[j - 1], s[j]);
    }
}

/// Every entry's name before every later entry's name.
pub open spec fn export_keys_sorted(s: Seq<ExportFingerV>) -> bool {
    forall|i: int, j: int| 0 <= i < j < s.len() ==> key_lt(#[trigger] export_key(s[i]), #[trigger] export_key(s[j]))
}

proof fn lemma_export_keys_sorted(s: Seq<ExportFingerV>)
    requires
        keys_strictly_sorted(export_keys(s)),
    ensures
        export_keys_sorted(s),
{
    assert forall|i: int, j: int| 0 <= i < j < s.len() implies key_lt(#[trigger] export_key(s[i]), #[trigger] export_key(s[j])) by {
        lemma_keys_sorted_pairs(export_keys(s), i, j);
    }
}

pub open spec fn has_export_key(s: Seq<ExportFingerV>, k: (Seq<char>, Seq<char>)) -> bool {
    exists|i: int| 0 <= i < s.len() && export_key(#[trigger] s[i]) == k
}

/// Two sequences ordered by name with the same names have the same names
/// in the same places.
proof fn lemma_sorted_same_keys(x: Seq<ExportFingerV>, y: Seq<ExportFingerV>)
    requires
        export_keys_sorted(x),
        export_keys_sorted(y),
        forall|k: (Seq<char>, Seq<char>)| has_export_key(x, k) <==> has_export_key(y, k),
    ensures
        x.len() == y.len(),
        forall|i: int| 0 <= i < x.len() ==> export_key(#[trigger] x[i]) == export_key(y[i]),
    decreases x.len(),
{
    if x.len() == 0 {
        if y.len() > 0 {
            assert(has_export_key(y, export_key(y[0])));
        }
    } else {
        assert(has_export_key(x, export_key(x[0])));
        assert(has_export_key(y, export_key(x[0])));
        let j = choose|j: int| 0 <= j < y.len() && export_key(#[trigger] y[j]) == export_key(x[0]);
        assert(has_export_key(y, export_key(y[0])));
        assert(has_export_key(x, export_key(y[0])));
        let i = choose|i: int| 0 <= i < x.len() && export_key(#[trigger] x[i]) == export_key(y[0]);
        if j > 0 {
            assert(key_lt(export_key(y[0]), export_key(y[j])));
            if i > 0 {
                assert(key_lt(export_key(x[0]), export_key(x[i])));
                lemma_key_total(export_key(x[0]), export_key(x[i]));
            } else {
                lemma_key_irreflexive(export_key(x[0]));
            }
        }
        assert(j == 0);
        let x1 = x.drop_first();
        let y1 = y.drop_first();
        assert(export_keys_sorted(x1)) by {
            assert forall|a: int, b: int| 0 <= a < b < x1.len() implies key_lt(#[trigger] export_key(x1[a]), #[trigger] export_key(x1[b])) by {
                assert(x1[a] == x[a + 1] && x1[b] == x[b + 1]);
            }
        }
        assert(export_keys_sorted(y1)) by {
            assert forall|a: int, b: int| 0 <= a < b < y1.len() implies key_lt(#[trigger] export_key(y1[a]), #[trigger] export_key(y1[b])) by {
                assert(y1[a] == y[a + 1] && y1[b] == y[b + 1]);
            }
        }
        assert forall|k: (Seq<char>, Seq<char>)| has_export_key(x1, k) <==> has_export_key(y1, k) by {
            if has_export_key(x1, k) {
                let a = choose|a: int| 0 <= a < x1.len() && export_key(#[trigger] x1[a]) == k;
                assert(export_key(x[a + 1]) == k);
                assert(key_lt(export_key(x[0]), export_key(x[a + 1])));
                lemma_key_irreflexive(k);
                assert(has_export_key(x, k));
                let b = choose|b: int| 0 <= b < y.len() && export_key(#[trigger] y[b]) == k;
                assert(b != 0);
                assert(y1[b - 1] == y[b]);
            }
            if has_export_key(y1, k) {
                let a = choose|a: int| 0 <= a < y1.len() && export_key(#[trigger] y1[a]) == k;
                assert(export_key(y[a + 1]) == k);
                assert(key_lt(export_key(y[0]), export_key(y[a + 1])));
                lemma_key_irreflexive(k);
                assert(has_export_key(y, k));
                let b = choose|b: int| 0 <= b < x.len() && export_key(#[trigger] x[b]) == k;
                assert(b != 0);
                assert(x1[b - 1] == x[b]);
            }
        }
        lemma_sorted_same_keys(x1, y1);
        assert forall|i: int| 0 <= i < x.len() implies export_key(#[trigger] x[i]) == export_key(y[i]) by {
            if i > 0 {
                assert(x[i] == x1[i - 1] && y[i] == y1[i - 1]);
            }
        }
    }
}

/// Looking up a name that a keyed map holds finds an entry of that name.
proof fn lemma_export_lookup_found(m: Seq<ExportFingerV>, k: (Seq<char>, Seq<char>))
    requires
        export_keys(m).contains(k),
    ensures
        m.contains(export_lookup(m, k)),
        export_key(export_lookup(m, k)) == k,
    decreases m.len(),
{
    if export_key(m[0]) != k {
        let t = m.drop_first();
        let i = choose|i: int| 0 <= i < export_keys(m).len() && export_keys(m)[i] == k;
        assert(i > 0);
        assert(export_keys(t)[i - 1] == k);
        lemma_export_lookup_found(t, k);
        let j = choose|j: int| 0 <= j < t.len() && t[j] == export_lookup(t, k);
        assert(m[j + 1] == t[j]);
    } else {
        assert(m[0] == export_lookup(m, k));
    }
}

proof fn lemma_export_insert_contents(m: Seq<ExportFingerV>, x: ExportFingerV)
    ensures
        !export_keys(m).contains(export_key(x)) ==> export_insert(m, x).contains(x),
        forall|y: ExportFingerV| #[trigger] export_insert(m, x).contains(y) ==> y == x || m.contains(y),
        forall|y: ExportFingerV| m.contains(y) && export_key(y) != export_key(x) ==> #[trigger] export_insert(m, x).contains(y),
    decreases m.len(),
{
    let r = export_insert(m, x);
    if m.len() == 0 {
        assert(r[0] == x);
    } else if key_lt(export_key(m[0]), export_key(x)) {
        let t = m.drop_first();
        lemma_export_insert_contents(t, x);
        let rt = export_insert(t, x);
        assert(r == seq![m[0]] + rt);
        if !export_keys(m).contains(export_key(x)) {
            assert(!export_keys(t).contains(export_key(x))) by {
                if export_keys(t).contains(export_key(x)) {
                    let j = choose|j: int| 0 <= j < export_keys(t).len() && export_keys(t)[j] == export_key(x);
                    assert(export_keys(m)[j + 1] == export_key(x));
                }
            }
            let j = choose|j: int| 0 <= j < rt.len() && rt[j] == x;
            assert(r[j + 1] == x);
        }
        assert forall|y: ExportFingerV| #[trigger] r.contains(y) implies y == x || m.contains(y) by {
            let a = choose|a: int| 0 <= a < r.len() && r[a] == y;
            if a == 0 {
                assert(m[0] == y);
            } else {
                assert(rt[a - 1] == y);
                assert(rt.contains(y));
                if y != x {
                    let b = choose|b: int| 0 <= b < t.len() && t[b] == y;
                    assert(m[b + 1] == y);
                }
            }
        }
        assert forall|y: ExportFingerV| m.contains(y) && export_key(y) != export_key(x) implies #[trigger] r.contains(y) by {
            let a = choose|a: int| 0 <= a < m.len() && m[a] == y;
            if a == 0 {
                assert(r[0] == y);
            } else {
                assert(t[a - 1] == y);
                assert(t.contains(y));
                assert(export_insert(t, x).contains(y));
                let b = choose|b: int| 0 <= b < rt.len() && rt[b] == y;
                assert(r[b + 1] == y);
            }
        }
    } else if export_key(m[0]) == export_key(x) {
        assert(export_keys(m)[0] == export_key(x));
        assert(r[0] == preferred_export(m[0], x));
        assert forall|y: ExportFingerV| #[trigger] r.contains(y) implies y == x || m.contains(y) by {
            let a = choose|a: int| 0 <= a < r.len() && r[a] == y;
            if a > 0 {
                assert(m[a] == y);
            } else if y != x {
                assert(m[0] == y);
            }
        }
        assert forall|y: ExportFingerV| m.contains(y) && export_key(y) != export_key(x) implies #[trigger] r.contains(y) by {
            let a = choose|a: int| 0 <= a < m.len() && m[a] == y;
            assert(a != 0);
            assert(r[a] == y);
        }
    } else {
        assert(r[0] == x);
        assert forall|y: ExportFingerV| #[trigger] r.contains(y) implies y == x || m.contains(y) by {
            let a = choose|a: int| 0 <= a < r.len() && r[a] == y;
            if a > 0 {
                assert(m[a - 1] == y);
            }
        }
        assert forall|y: ExportFingerV| m.contains(y) && export_key(y) != export_key(x) implies #[trigger] r.contains(y) by {
            let a = choose|a: int| 0 <= a < m.len() && m[a] == y;
            assert(r[a + 1] == y);
        }
    }
}

/// `y` is, of the entries of `s` named like it, the least.
pub open spec fn least_of_key(s: Seq<ExportFingerV>, y: ExportFingerV) -> bool {
    s.contains(y) && forall|z: ExportFingerV| #[trigger] s.contains(z) && export_key(z) == export_key(y) ==> !export_lt(z, y)
}

proof fn lemma_export_keys_contains(m: Seq<ExportFingerV>, k: (Seq<char>, Seq<char>))
    ensures
        export_keys(m).contains(k) <==> exists|y: ExportFingerV| #[trigger] m.contains(y) && export_key(y) == k,
{
    if export_keys(m).contains(k) {
        let j = choose|j: int| 0 <= j < export_keys(m).len() && export_keys(m)[j] == k;
        assert(m.contains(m[j]));
    }
    if exists|y: ExportFingerV| #[trigger] m.contains(y) && export_key(y) == k {
        let y = choose|y: ExportFingerV| #[trigger] m.contains(y) && export_key(y) == k;
        let j = choose|j: int| 0 <= j < m.len() && m[j] == y;
        assert(export_keys(m)[j] == k);
    }
}

/// What inserting into a keyed map holds: the other names unchanged, and
/// for the inserted name the preferred of the old entry and the new one.
proof fn lemma_export_insert_exact(m: Seq<ExportFingerV>, x: ExportFingerV, y: ExportFingerV)
    requires
        keys_strictly_sorted(export_keys(m)),
    ensures
        export_insert(m, x).contains(y) <==> (if export_key(y) != export_key(x) {
            m.contains(y)
        } else if export_keys(m).contains(export_key(x)) {
            y == preferred_export(export_lookup(m, export_key(x)), x)
        } else {
            y == x
        }),
    decreases m.len(),
{
    let r = export_insert(m, x);
    lemma_export_insert_contents(m, x);
    if m.len() == 0 {
        if r.contains(y) {
            assert(r[0] == y);
        }
    } else if key_lt(export_key(m[0]), export_key(x)) {
        let t = m.drop_first();
        assert(keys_strictly_sorted(export_keys(t))) by {
            assert forall|i: int| 0 <= i < export_keys(t).len() - 1 implies key_lt(#[trigger] export_keys(t)[i], export_keys(t)[i + 1]) by {
                assert(export_keys(t)[i] == export_keys(m)[i + 1]);
                assert(export_keys(t)[i + 1] == export_keys(m)[i + 2]);
            }
        }
        lemma_export_insert_exact(t, x, y);
        let rt = export_insert(t, x);
        assert(r == seq![m[0]] + rt);
        lemma_key_irreflexive(export_key(x));
        assert(export_keys(m).contains(export_key(x)) <==> export_keys(t).contains(export_key(x))) by {
            if export_keys(m).contains(export_key(x)) {
                let j = choose|j: int| 0 <= j < export_keys(m).len() && export_keys(m)[j] == export_key(x);
                assert(j != 0);
                assert(export_keys(t)[j - 1] == export_key(x));
            }
            if export_keys(t).contains(export_key(x)) {
                let j = choose|j: int| 0 <= j < export_keys(t).len() && export_keys(t)[j] == export_key(x);
                assert(export_keys(m)[j + 1] == export_key(x));
            }
        }
        assert(export_lookup(m, export_key(x)) == export_lookup(t, export_key(x)));
        assert(r.contains(y) <==> (y == m[0] || rt.contains(y))) by {
            if r.contains(y) {
                let a = choose|a: int| 0 <= a < r.len() && r[a] == y;
                if a > 0 {
                    assert(rt[a - 1] == y);
                }
            }
            if y == m[0] {
                assert(r[0] == y);
            }
            if rt.contains(y) {
                let a = choose|a: int| 0 <= a < rt.len() && rt[a] == y;
                assert(r[a + 1] == y);
            }
        }
        assert(m.contains(y) <==> (y == m[0] || t.contains(y))) by {
            if m.contains(y) {
                let a = choose|a: int| 0 <= a < m.len() && m[a] == y;
                if a > 0 {
                    assert(t[a - 1] == y);
                }
            }
            if y == m[0] {
                assert(m[0] == y);
            }
            if t.contains(y) {
                let a = choose|a: int| 0 <= a < t.len() && t[a] == y;
                assert(m[a + 1] == y);
            }
        }
    } else if export_key(m[0]) == export_key(x) {
        let p = preferred_export(m[0], x);
        assert(export_keys(m)[0] == export_key(x));
        assert(export_lookup(m, export_key(x)) == m[0]);
        assert(r == seq![p] + m.drop_first());
        if r.contains(y) {
            let a = choose|a: int| 0 <= a < r.len() && r[a] == y;
            if a > 0 {
                assert(m[a] == y);
                lemma_keys_sorted_pairs(export_keys(m), 0, a);
                lemma_key_irreflexive(export_key(m[0]));
            }
        }
        if export_key(y) != export_key(x) && m.contains(y) {
            let a = choose|a: int| 0 <= a < m.len() && m[a] == y;
            assert(a != 0);
            assert(r[a] == y);
        }
        if export_key(y) == export_key(x) && y == p {
            assert(r[0] == y);
        }
    } else {
        lemma_key_total(export_key(m[0]), export_key(x));
        assert(!export_keys(m).contains(export_key(x))) by {
            if export_keys(m).contains(export_key(x)) {
                let j = choose|j: int| 0 <= j < export_keys(m).len() && export_keys(m)[j] == export_key(x);
                if j > 0 {
                    lemma_keys_sorted_pairs(export_keys(m), 0, j);
                    lemma_key_total(export_key(m[0]), export_key(x));
                }
            }
        }
        assert(r == seq![x] + m);
        if r.contains(y) {
            let a = choose|a: int| 0 <= a < r.len() && r[a] == y;
            if a > 0 {
                assert(m[a - 1] == y);
                if export_key(y) == export_key(x) {
                    assert(export_keys(m)[a - 1] == export_key(x));
                }
            }
        }
        if export_key(y) != export_key(x) && m.contains(y) {
            let a = choose|a: int| 0 <= a < m.len() && m[a] == y;
            assert(r[a + 1] == y);
        }
        if y == x {
            assert(r[0] == y);
        }
    }
}

/// The keyed map holds exactly the least entry of each name of the list.
proof fn lemma_export_map_least(s: Seq<ExportFingerV>, y: ExportFingerV)
    ensures
        export_map(s).contains(y) <==> least_of_key(s, y),
    decreases s.len(),
{
    if s.len() == 0 {
        assert(!export_map(s).contains(y));
    } else {
        let d = s.drop_last();
        let x = s.last();
        let m = export_map(d);
        lemma_export_map_sorted(d);
        lemma_export_insert_exact(m, x, y);
        lemma_export_map_least(d, y);
        assert forall|z: ExportFingerV| #[trigger] s.contains(z) <==> (d.contains(z) || z == x) by {
            if s.contains(z) {
                let a = choose|a: int| 0 <= a < s.len() && s[a] == z;
                if a < d.len() {
                    assert(d[a] == z);
                }
            }
            if d.contains(z) {
                let a = choose|a: int| 0 <= a < d.len() && d[a] == z;
                assert(s[a] == z);
            }
            if z == x {
                assert(s[s.len() - 1] == z);
            }
        }
        lemma_export_order(y, x, y);
        if export_key(y) != export_key(x) {
            if least_of_key(d, y) {
                assert(s.contains(y));
                assert forall|z: ExportFingerV| #[trigger] s.contains(z) && export_key(z) == export_key(y) implies !export_lt(z, y) by {
                    assert(d.contains(z));
                }
            }
            if least_of_key(s, y) {
                assert(d.contains(y));
                assert forall|z: ExportFingerV| #[trigger] d.contains(z) && export_key(z) == export_key(y) implies !export_lt(z, y) by {
                    assert(s.contains(z));
                }
            }
        } else {
            lemma_export_keys_contains(m, export_key(x));
            if export_keys(m).contains(export_key(x)) {
                lemma_export_lookup_found(m, export_key(x));
                let mk = export_lookup(m, export_key(x));
                lemma_export_map_least(d, mk);
                let p = preferred_export(mk, x);
                lemma_export_order(mk, x, mk);
                // p is least in s
                assert(least_of_key(s, p)) by {
                    assert forall|z: ExportFingerV| #[trigger] s.contains(z) && export_key(z) == export_key(p) implies !export_lt(z, p) by {
                        lemma_export_order(z, x, mk);
                        lemma_export_order(z, mk, x);
                        if z != x {
                            assert(d.contains(z));
                        }
                    }
                }
                // any least entry is p
                if least_of_key(s, y) && y != p {
                    lemma_export_order(y, p, y);
                    assert(s.contains(p));
                }
            } else {
                // no entry of `d` bears this name
                assert forall|z: ExportFingerV| #[trigger] s.contains(z) && export_key(z) == export_key(x) implies z == x by {
                    if z != x {
                        assert(d.contains(z));
                        lemma_export_map_least(d, z);
                        assert(!m.contains(z));
                        lemma_export_least_exists(d, z);
                    }
                }
                if least_of_key(s, y) {
                    assert(y == x);
                }
                if y == x {
                    assert(s.contains(x));
                    assert forall|z: ExportFingerV| #[trigger] s.contains(z) && export_key(z) == export_key(y) implies !export_lt(z, y) by {
                        assert(z == x);
                    }
                }
            }
        }
    }
}

/// A name that the list bears is a name of the keyed map.
proof fn lemma_export_least_exists(s: Seq<ExportFingerV>, z: ExportFingerV)
    requires
        s.contains(z),
    ensures
        export_keys(export_map(s)).contains(export_key(z)),
    decreases s.len(),
{
    let d = s.drop_last();
    let x = s.last();
    let m = export_map(d);
    lemma_export_map_sorted(d);
    lemma_export_insert_contents(m, x);
    lemma_export_keys_contains(export_map(s), export_key(z));
    if export_key(z) == export_key(x) {
        lemma_export_keys_contains(m, export_key(x));
        if export_keys(m).contains(export_key(x)) {
            lemma_export_lookup_found(m, export_key(x));
            lemma_export_insert_exact(m, x, preferred_export(export_lookup(m, export_key(x)), x));
        } else {
            assert(export_map(s).contains(x));
        }
    } else {
        let a = choose|a: int| 0 <= a < s.len() && s[a] == z;
        assert(a < d.len());
        assert(d[a] == z);
        lemma_export_least_exists(d, z);
        lemma_export_keys_contains(m, export_key(z));
        let w = choose|w: ExportFingerV| #[trigger] m.contains(w) && export_key(w) == export_key(z);
        assert(export_map(s).contains(w));
    }
}

/// The keyed map of a list depends only on which entries the list holds,
/// not on their order or repetition.
pub proof fn lemma_export_map_order_free(s1: Seq<ExportFingerV>, s2: Seq<ExportFingerV>)
    requires
        forall|x: ExportFingerV| #[trigger] s1.contains(x) <==> s2.contains(x),
    ensures
        export_map(s1) == export_map(s2),
{
    let m1 = export_map(s1);
    let m2 = export_map(s2);
    lemma_export_map_sorted(s1);
    lemma_export_map_sorted(s2);
    assert forall|y: ExportFingerV| #[trigger] m1.contains(y) <==> m2.contains(y) by {
        lemma_export_map_least(s1, y);
        lemma_export_map_least(s2, y);
        if least_of_key(s1, y) {
            assert(s2.contains(y));
            assert forall|z: ExportFingerV| #[trigger] s2.contains(z) && export_key(z) == export_key(y) implies !export_lt(z, y) by {
                assert(s1.contains(z));
            }
        }
        if least_of_key(s2, y) {
            assert(s1.contains(y));
            assert forall|z: ExportFingerV| #[trigger] s1.contains(z) && export_key(z) == export_key(y) implies !export_lt(z, y) by {
                assert(s2.contains(z));
            }
        }
    }
    lemma_export_keys_sorted(m1);
    lemma_export_keys_sorted(m2);
    assert forall|k: (Seq<char>, Seq<char>)| has_export_key(m1, k) <==> has_export_key(m2, k) by {
        if has_export_key(m1, k) {
            let i = choose|i: int| 0 <= i < m1.len() && export_key(#[trigger] m1[i]) == k;
            assert(m1.contains(m1[i]));
            assert(m2.contains(m1[i]));
            let j = choose|j: int| 0 <= j < m2.len() && m2[j] == m1[i];
            assert(export_key(m2[j]) == k);
        }
        if has_export_key(m2, k) {
            let i = choose|i: int| 0 <= i < m2.len() && export_key(#[trigger] m2[i]) == k;
            assert(m2.contains(m2[i]));
            assert(m1.contains(m2[i]));
            let j = choose|j: int| 0 <= j < m1.len() && m1[j] == m2[i];
            assert(export_key(m1[j]) == k);
        }
    }
    lemma_sorted_same_keys(m1, m2);
    assert forall|i: int| 0 <= i < m1.len() implies m1[i] == m2[i] by {
        assert(m1.contains(m1[i]));
        assert(m2.contains(m1[i]));
        let j = choose|j: int| 0 <= j < m2.len() && m2[j] == m1[i];
        if j != i {
            if j < i {
                assert(key_lt(export_key(m2[j]), export_key(m2[i])));
            } else {
                assert(key_lt(export_key(m2[i]), export_key(m2[j])));
            }
            lemma_key_irreflexive(export_key(m1[i]));
        }
    }
    assert(m1 =~= m2);
}


// ---------------------------------------------------------------------
// Independence from input order: import sets, and the whole diff
// ---------------------------------------------------------------------

proof fn lemma_set_insert_head(s: Seq<Seq<char>>, x: Seq<char>)
    ensures
        set_insert(s, x).len() >= 1,
        set_insert(s, x)[0] == x || (s.len() > 0 && set_insert(s, x)[0] == s[0]),
    decreases s.len(),
{
}

proof fn lemma_set_insert_facts(s: Seq<Seq<char>>, x: Seq<char>)
    requires
        strictly_sorted(s),
    ensures
        strictly_sorted(set_insert(s, x)),
        forall|y: Seq<char>| #[trigger] set_insert(s, x).contains(y) <==> (s.contains(y) || y == x),
    decreases s.len(),
{
    let r = set_insert(s, x);
    if s.len() == 0 {
        assert forall|y: Seq<char>| #[trigger] r.contains(y) <==> (s.contains(y) || y == x) by {
            if r.contains(y) {
                assert(r[0] == y);
            }
            if y == x {
                assert(r[0] == y);
            }
        }
    } else if seq_lt(s[0], x) {
        let t = s.drop_first();
        assert forall|i: int| 0 <= i < t.len() - 1 implies seq_lt(#[trigger] t[i], t[i + 1]) by {
            assert(t[i] == s[i + 1]);
            assert(t[i + 1] == s[i + 2]);
        }
        lemma_set_insert_facts(t, x);
        lemma_set_insert_head(t, x);
        let m = set_insert(t, x);
        assert(r == seq![s[0]] + m);
        assert forall|i: int| 0 <= i < r.len() - 1 implies seq_lt(#[trigger] r[i], r[i + 1]) by {
            if i > 0 {
                assert(r[i] == m[i - 1]);
                assert(r[i + 1] == m[i]);
            }
        }
        assert forall|y: Seq<char>| #[trigger] r.contains(y) <==> (s.contains(y) || y == x) by {
            if r.contains(y) {
                let a = choose|a: int| 0 <= a < r.len() && r[a] == y;
                if a > 0 {
                    assert(m[a - 1] == y);
                    assert(m.contains(y));
                    if y != x {
                        let b = choose|b: int| 0 <= b < t.len() && t[b] == y;
                        assert(s[b + 1] == y);
                    }
                } else {
                    assert(s[0] == y);
                }
            }
            if s.contains(y) {
                let a = choose|a: int| 0 <= a < s.len() && s[a] == y;
                if a == 0 {
                    assert(r[0] == y);
                } else {
                    assert(t[a - 1] == y);
                    assert(t.contains(y));
                    assert(m.contains(y));
                    let b = choose|b: int| 0 <= b < m.len() && m[b] == y;
                    assert(r[b + 1] == y);
                }
            }
            if y == x {
                assert(m.contains(y));
                let b = choose|b: int| 0 <= b < m.len() && m[b] == y;
                assert(r[b + 1] == y);
            }
        }
    } else if s[0] == x {
        assert forall|y: Seq<char>| #[trigger] r.contains(y) <==> (s.contains(y) || y == x) by {
            if y == x {
                assert(s[0] == y);
            }
        }
    } else {
        lemma_lt_total(s[0], x);
        assert(r == seq![x] + s);
        assert forall|i: int| 0 <= i < r.len() - 1 implies seq_lt(#[trigger] r[i], r[i + 1]) by {
            if i > 0 {
                assert(r[i] == s[i - 1]);
                assert(r[i + 1] == s[i]);
            }
        }
        assert forall|y: Seq<char>| #[trigger] r.contains(y) <==> (s.contains(y) || y == x) by {
            if r.contains(y) {
                let a = choose|a: int| 0 <= a < r.len() && r[a] == y;
                if a > 0 {
                    assert(s[a - 1] == y);
                }
            }
            if s.contains(y) {
                let a = choose|a: int| 0 <= a < s.len() && s[a] == y;
                assert(r[a + 1] == y);
            }
            if y == x {
                assert(r[0] == y);
            }
        }
    }
}

proof fn lemma_sorted_set_facts(s: Seq<Seq<char>>)
    ensures
        strictly_sorted(sorted_set(s)),
        forall|y: Seq<char>| #[trigger] sorted_set(s).contains(y) <==> s.contains(y),
    decreases s.len(),
{
    if s.len() > 0 {
        let d = s.drop_last();
        lemma_sorted_set_facts(d);
        lemma_set_insert_facts(sorted_set(d), s.last());
        assert forall|y: Seq<char>| #[trigger] sorted_set(s).contains(y) <==> s.contains(y) by {
            assert(sorted_set(s) == set_insert(sorted_set(d), s.last()));
            if s.contains(y) {
                let a = choose|a: int| 0 <= a < s.len() && s[a] == y;
                if a < d.len() {
                    assert(d[a] == y);
                    assert(sorted_set(d).contains(y));
                }
            }
            if d.contains(y) {
                let a = choose|a: int| 0 <= a < d.len() && d[a] == y;
                assert(s[a] == y);
            }
            if y == s.last() {
                assert(s[s.len() - 1] == y);
            }
        }
    } else {
        assert forall|y: Seq<char>| #[trigger] sorted_set(s).contains(y) <==> s.contains(y) by {}
    }
}

/// Two strictly ordered text lists with the same texts are equal.
proof fn lemma_sorted_texts_equal(x: Seq<Seq<char>>, y: Seq<Seq<char>>)
    requires
        strictly_sorted(x),
        strictly_sorted(y),
        forall|t: Seq<char>| #[trigger] x.contains(t) <==> y.contains(t),
    ensures
        x == y,
    decreases x.len(),
{
    if x.len() == 0 {
        if y.len() > 0 {
            assert(y.contains(y[0]));
            assert(x.contains(y[0]));
        }
        assert(x =~= y);
    } else {
        assert(x.contains(x[0]));
        assert(y.contains(x[0]));
        assert(y.len() > 0);
        assert(y.contains(y[0]));
        assert(x.contains(y[0]));
        let j = choose|j: int| 0 <= j < y.len() && y[j] == x[0];
        let i = choose|i: int| 0 <= i < x.len() && x[i] == y[0];
        if j > 0 {
            lemma_sorted_pairs(y, 0, j);
            if i > 0 {
                lemma_sorted_pairs(x, 0, i);
                lemma_lt_total(x[0], x[i]);
            } else {
                lemma_lt_irreflexive(x[0]);
            }
        }
        let x1 = x.drop_first();
        let y1 = y.drop_first();
        assert forall|a: int| 0 <= a < x1.len() - 1 implies seq_lt(#[trigger] x1[a], x1[a + 1]) by {
            assert(x1[a] == x[a + 1] && x1[a + 1] == x[a + 2]);
        }
        assert forall|a: int| 0 <= a < y1.len() - 1 implies seq_lt(#[trigger] y1[a], y1[a + 1]) by {
            assert(y1[a] == y[a + 1] && y1[a + 1] == y[a + 2]);
        }
        assert forall|t: Seq<char>| #[trigger] x1.contains(t) <==> y1.contains(t) by {
            if x1.contains(t) {
                let a = choose|a: int| 0 <= a < x1.len() && x1[a] == t;
                assert(x[a + 1] == t);
                lemma_sorted_pairs(x, 0, a + 1);
                lemma_lt_irreflexive(t);
                assert(x.contains(t));
                assert(y.contains(t));
                let b = choose|b: int| 0 <= b < y.len() && y[b] == t;
                assert(b != 0);
                assert(y1[b - 1] == t);
            }
            if y1.contains(t) {
                let a = choose|a: int| 0 <= a < y1.len() && y1[a] == t;
                assert(y[a + 1] == t);
                lemma_sorted_pairs(y, 0, a + 1);
                lemma_lt_irreflexive(t);
                assert(y.contains(t));
                assert(x.contains(t));
                let b = choose|b: int| 0 <= b < x.len() && x[b] == t;
                assert(b != 0);
                assert(x1[b - 1] == t);
            }
        }
        lemma_sorted_texts_equal(x1, y1);
        assert(x =~= seq![x[0]] + x1);
        assert(y =~= seq![y[0]] + y1);
    }
}

/// The import set of a list depends only on which paths it holds.
pub proof fn lemma_sorted_set_order_free(s1: Seq<Seq<char>>, s2: Seq<Seq<char>>)
    requires
        forall|t: Seq<char>| #[trigger] s1.contains(t) <==> s2.contains(t),
    ensures
        sorted_set(s1) == sorted_set(s2),
{
    lemma_sorted_set_facts(s1);
    lemma_sorted_set_facts(s2);
    assert forall|t: Seq<char>| #[trigger] sorted_set(s1).contains(t) <==> sorted_set(s2).contains(t) by {
        assert(sorted_set(s1).contains(t) <==> s1.contains(t));
        assert(sorted_set(s2).contains(t) <==> s2.contains(t));
    }
    lemma_sorted_texts_equal(sorted_set(s1), sorted_set(s2));
}

/// The diff depends only on which facts each snapshot holds, not on their
/// order or repetition.
pub proof fn lemma_diff_order_free(new1: SnapshotV, new2: SnapshotV, old1: SnapshotV, old2: SnapshotV)
    requires
        forall|f: FnFingerV| #[trigger] new1.functions.contains(f) <==> new2.functions.contains(f),
        forall|f: FnFingerV| #[trigger] old1.functions.contains(f) <==> old2.functions.contains(f),
        forall|e: ExportFingerV| #[trigger] new1.exports.contains(e) <==> new2.exports.contains(e),
        forall|e: ExportFingerV| #[trigger] old1.exports.contains(e) <==> old2.exports.contains(e),
        forall|t: Seq<char>| #[trigger] new1.imports.contains(t) <==> new2.imports.contains(t),
        forall|t: Seq<char>| #[trigger] old1.imports.contains(t) <==> old2.imports.contains(t),
    ensures
        diff_spec(new1, old1) == diff_spec(new2, old2),
{
    lemma_fn_map_order_free(new1.functions, new2.functions);
    lemma_fn_map_order_free(old1.functions, old2.functions);
    lemma_export_map_order_free(new1.exports, new2.exports);
    lemma_export_map_order_free(old1.exports, old2.exports);
    lemma_sorted_set_order_free(new1.imports, new2.imports);
    lemma_sorted_set_order_free(old1.imports, old2.imports);
}

} // verus!
