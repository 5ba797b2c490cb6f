//! Text predicates and splitting on character sequences.
use vstd::prelude::*;
use vstd::string::*;

verus! {

/// Lexicographic order on character sequences (the order of `String`).
pub open spec fn seq_lt(a: Seq<char>, b: Seq<char>) -> bool
    decreases a.len(),
{
    if a.len() == 0 {
        b.len() > 0
    } else if b.len() == 0 {
        false
    } else if a[0] != b[0] {
        (a[0] as int) < (b[0] as int)
    } else {
        seq_lt(a.drop_first(), b.drop_first())
    }
}

pub proof fn lemma_lt_irreflexive(a: Seq<char>)
    ensures
        !seq_lt(a, a),
    decreases a.len(),
{
    if a.len() > 0 {
        lemma_lt_irreflexive(a.drop_first());
    }
}

/// Two different sequences are ordered one way or the other, never both.
pub proof fn lemma_lt_total(a: Seq<char>, b: Seq<char>)
    ensures
        a != b ==> (seq_lt(a, b) || seq_lt(b, a)),
        !(seq_lt(a, b) && seq_lt(b, a)),
    decreases a.len(),
{
    if a.len() > 0 && b.len() > 0 {
        if a[0] == b[0] {
            lemma_lt_total(a.drop_first(), b.drop_first());
            if a != b {
                assert(a.drop_first() != b.drop_first()) by {
                    if a.drop_first() == b.drop_first() {
                        assert(a =~= seq![a[0]] + a.drop_first());
                        assert(b =~= seq![b[0]] + b.drop_first());
                    }
                }
            }
        } else {
            assert((a[0] as int) != (b[0] as int));
        }
    } else if a.len() == 0 && b.len() == 0 {
        assert(a =~= b);
    }
}

pub proof fn lemma_lt_transitive(a: Seq<char>, b: Seq<char>, c: Seq<char>)
    requires
        seq_lt(a, b),
        seq_lt(b, c),
    ensures
        seq_lt(a, c),
    decreases a.len(),
{
    if a.len() > 0 && b.len() > 0 && c.len() > 0 {
        if a[0] == b[0] && b[0] == c[0] {
            lemma_lt_transitive(a.drop_first(), b.drop_first(), c.drop_first());
        } else if a[0] == b[0] {
        } else if b[0] == c[0] {
        } else {
            assert((a[0] as int) != (c[0] as int));
            assert(a[0] != c[0]) by {
                if a[0] == c[0] {
                }
            }
        }
    }
}

pub fn text_lt(a: &str, b: &str) -> (r: bool)
    ensures
        r == seq_lt(a@, b@),
{
    let la = a.unicode_len();
    let lb = b.unicode_len();
    let mut i: usize = 0;
    proof {
        assert(a@.skip(0) =~= a@);
        assert(b@.skip(0) =~= b@);
        assert(a@.take(0) =~= b@.take(0));
    }
    while i < la && i < lb
        invariant
            la == a@.len(),
            lb == b@.len(),
            i <= la,
            i <= lb,
            a@.take(i as int) == b@.take(i as int),
            seq_lt(a@, b@) == seq_lt(a@.skip(i as int), b@.skip(i as int)),
        decreases la - i,
    {
        let ca = a.get_char(i);
        let cb = b.get_char(i);
        proof {
            let sa = a@.skip(i as int);
            let sb = b@.skip(i as int);
            assert(sa[0] == ca);
            assert(sb[0] == cb);
            assert(sa.drop_first() =~= a@.skip(i + 1));
            assert(sb.drop_first() =~= b@.skip(i + 1));
        }
        if ca != cb {
            return (ca as u32) < (cb as u32);
        }
        proof {
            assert(a@.take(i + 1) =~= a@.take(i as int).push(ca));
            assert(b@.take(i + 1) =~= b@.take(i as int).push(cb));
        }
        i += 1;
    }
    i == la && i < lb
}

/// Whether `t` occurs in `s` at position `i`.
pub open spec fn occurs_at(s: Seq<char>, t: Seq<char>, i: int) -> bool {
    0 <= i && i + t.len() <= s.len() && s.subrange(i, i + t.len()) == t
}

/// Whether `t` occurs anywhere in `s`.
pub open spec fn contains_text(s: Seq<char>, t: Seq<char>) -> bool {
    exists|i: int| occurs_at(s, t, i)
}

pub open spec fn starts_with_text(s: Seq<char>, t: Seq<char>) -> bool {
    occurs_at(s, t, 0)
}

pub open spec fn ends_with_text(s: Seq<char>, t: Seq<char>) -> bool {
    s.len() >= t.len() && occurs_at(s, t, s.len() - t.len())
}

/// Whether `t` occurs in `s` at character position `i`.
pub fn text_occurs_at(s: &str, t: &str, i: usize) -> (r: bool)
    requires
        i <= s@.len(),
    ensures
        r == occurs_at(s@, t@, i as int),
{
    let ls = s.unicode_len();
    let lt = t.unicode_len();
    if lt > ls - i {
        return false;
    }
    let mut k: usize = 0;
    while k < lt
        invariant
            ls == s@.len(),
            lt == t@.len(),
            i + lt <= ls,
            k <= lt,
            forall|j: int| 0 <= j < k ==> s@[i + j] == t@[j],
        decreases lt - k,
    {
        if s.get_char(i + k) != t.get_char(k) {
            proof {
                assert(s@.subrange(i as int, i + lt)[k as int] != t@[k as int]);
            }
            return false;
        }
        k += 1;
    }
    proof {
        assert(s@.subrange(i as int, i + lt) =~= t@);
    }
    true
}

pub fn text_contains(s: &str, t: &str) -> (r: bool)
    ensures
        r == contains_text(s@, t@),
{
    let ls = s.unicode_len();
    let mut i: usize = 0;
    while i < ls
        invariant
            ls == s@.len(),
            i <= ls,
            forall|j: int| 0 <= j < i ==> !occurs_at(s@, t@, j),
        decreases ls - i,
    {
        if text_occurs_at(s, t, i) {
            return true;
        }
        i += 1;
    }
    if text_occurs_at(s, t, ls) {
        return true;
    }
    proof {
        assert forall|j: int| !occurs_at(s@, t@, j) by {
            if 0 <= j && j <= ls {
            }
        }
    }
    false
}

pub fn text_starts_with(s: &str, t: &str) -> (r: bool)
    ensures
        r == starts_with_text(s@, t@),
{
    text_occurs_at(s, t, 0)
}

pub fn text_ends_with(s: &str, t: &str) -> (r: bool)
    ensures
        r == ends_with_text(s@, t@),
{
    let ls = s.unicode_len();
    let lt = t.unicode_len();
    if lt > ls {
        return false;
    }
    text_occurs_at(s, t, ls - lt)
}

/// `s` with every `-` replaced by `_`.
pub open spec fn dashes_to_underscores(s: Seq<char>) -> Seq<char> {
    s.map_values(|c: char| if c == '-' { '_' } else { c })
}

/// `s` with every `-` replaced by `_`.
pub fn replace_dashes(s: &str) -> (r: String)
    ensures
        r@ == dashes_to_underscores(s@),
{
    let n = s.unicode_len();
    let mut r = String::new();
    let mut i: usize = 0;
    proof {
        reveal_strlit("_");
        assert(dashes_to_underscores(s@.take(0)) =~= Seq::<char>::empty());
    }
    while i < n
        invariant
            n == s@.len(),
            i <= n,
            r@ == dashes_to_underscores(s@.take(i as int)),
        decreases n - i,
    {
        let c = s.get_char(i);
        let ghost before = r@;
        if c == '-' {
            r.append("_");
            proof {
                reveal_strlit("_");
            }
        } else {
            let piece = s.substring_char(i, i + 1);
            proof {
                assert(piece@ =~= seq![c]);
            }
            r.append(piece);
        }
        proof {
            assert(s@.take(i + 1) =~= s@.take(i as int).push(c));
            assert(dashes_to_underscores(s@.take(i + 1)) =~= dashes_to_underscores(s@.take(i as int)).push(
                if c == '-' { '_' } else { c },
            ));
            assert(r@ =~= before.push(if c == '-' { '_' } else { c }));
        }
        i += 1;
    }
    proof {
        assert(s@.take(n as int) =~= s@);
    }
    r
}

/// A character with the Unicode `White_Space` property.
pub open spec fn is_white_space(c: char) -> bool {
    let v = c as int;
    (9 <= v && v <= 13) || v == 32 || v == 0x85 || v == 0xA0 || v == 0x1680 || (0x2000 <= v && v <= 0x200A)
        || v == 0x2028 || v == 0x2029 || v == 0x202F || v == 0x205F || v == 0x3000
}

fn white_space(c: char) -> (r: bool)
    ensures
        r == is_white_space(c),
{
    let v = c as u32;
    (9 <= v && v <= 13) || v == 32 || v == 0x85 || v == 0xA0 || v == 0x1680 || (0x2000 <= v && v <= 0x200A)
        || v == 0x2028 || v == 0x2029 || v == 0x202F || v == 0x205F || v == 0x3000
}

/// The number of leading white-space characters of `s`.
pub open spec fn leading_ws(s: Seq<char>) -> nat
    decreases s.len(),
{
    if s.len() > 0 && is_white_space(s[0]) {
        1 + leading_ws(s.drop_first())
    } else {
        0
    }
}

/// The number of trailing white-space characters of `s`.
pub open spec fn trailing_ws(s: Seq<char>) -> nat
    decreases s.len(),
{
    if s.len() > 0 && is_white_space(s.last()) {
        1 + trailing_ws(s.drop_last())
    } else {
        0
    }
}

/// `s` without its leading and trailing white space (what `str::trim`
/// returns).
pub open spec fn trimmed(s: Seq<char>) -> Seq<char> {
    if leading_ws(s) >= s.len() {
        Seq::empty()
    } else {
        s.subrange(leading_ws(s) as int, s.len() - trailing_ws(s))
    }
}

proof fn lemma_leading(s: Seq<char>, a: int)
    requires
        0 <= a <= s.len(),
        forall|k: int| 0 <= k < a ==> is_white_space(#[trigger] s[k]),
        a < s.len() ==> !is_white_space(s[a]),
    ensures
        leading_ws(s) == a,
    decreases a,
{
    if a > 0 {
        let t = s.drop_first();
        assert forall|k: int| 0 <= k < a - 1 implies is_white_space(#[trigger] t[k]) by {
            assert(t[k] == s[k + 1]);
        }
        if a < s.len() {
            assert(t[a - 1] == s[a]);
        }
        lemma_leading(t, a - 1);
    }
}

proof fn lemma_trailing(s: Seq<char>, b: int)
    requires
        0 <= b <= s.len(),
        forall|k: int| b <= k < s.len() ==> is_white_space(#[trigger] s[k]),
        b > 0 ==> !is_white_space(s[b - 1]),
    ensures
        trailing_ws(s) == s.len() - b,
    decreases s.len() - b,
{
    if b < s.len() {
        let t = s.drop_last();
        assert forall|k: int| b <= k < t.len() implies is_white_space(#[trigger] t[k]) by {
            assert(t[k] == s[k]);
        }
        if b > 0 {
            assert(t[b - 1] == s[b - 1]);
        }
        lemma_trailing(t, b);
    }
}

/// `s` without its leading and trailing white space.
pub fn trim_text(s: &str) -> (r: &str)
    ensures
        r@ == trimmed(s@),
{
    let n = s.unicode_len();
    let mut a: usize = 0;
    while a < n && white_space(s.get_char(a))
        invariant
            n == s@.len(),
            a <= n,
            forall|k: int| 0 <= k < a ==> is_white_space(#[trigger] s@[k]),
        decreases n - a,
    {
        a += 1;
    }
    proof {
        lemma_leading(s@, a as int);
    }
    if a == n {
        let e = s.substring_char(0, 0);
        proof {
            assert(e@ =~= Seq::<char>::empty());
        }
        return e;
    }
    let mut b: usize = n;
    while b > a && white_space(s.get_char(b - 1))
        invariant
            n == s@.len(),
            a < n,
            !is_white_space(s@[a as int]),
            a <= b <= n,
            forall|k: int| b <= k < n ==> is_white_space(#[trigger] s@[k]),
        decreases b,
    {
        b -= 1;
    }
    proof {
        if b == a {
            assert(false);
        }
        lemma_trailing(s@, b as int);
    }
    s.substring_char(a, b)
}

/// `s` split at each `::`, scanning left to right.
pub open spec fn split_colons(s: Seq<char>) -> Seq<Seq<char>>
    decreases s.len(),
{
    if s.len() == 0 {
        seq![Seq::empty()]
    } else if s.len() >= 2 && s[0] == ':' && s[1] == ':' {
        seq![Seq::<char>::empty()] + split_colons(s.skip(2))
    } else {
        let r = split_colons(s.skip(1));
        r.update(0, seq![s[0]] + r[0])
    }
}

proof fn lemma_split_nonempty(s: Seq<char>)
    ensures
        split_colons(s).len() >= 1,
    decreases s.len(),
{
    if s.len() == 0 {
    } else if s.len() >= 2 && s[0] == ':' && s[1] == ':' {
        lemma_split_nonempty(s.skip(2));
    } else {
        lemma_split_nonempty(s.skip(1));
    }
}

/// `r` with `cur` glued in front of its first part.
pub open spec fn glue(cur: Seq<char>, r: Seq<Seq<char>>) -> Seq<Seq<char>> {
    r.update(0, cur + r[0])
}

/// Splits `s` at each `::`.
pub fn split_at_colons(s: &str) -> (r: Vec<String>)
    ensures
        r.deep_view() == split_colons(s@),
{
    let n = s.unicode_len();
    let mut parts: Vec<String> = Vec::new();
    let mut start: usize = 0;
    let mut i: usize = 0;
    proof {
        lemma_split_nonempty(s@);
        assert(s@.skip(0) =~= s@);
        assert(glue(Seq::empty(), split_colons(s@)) =~= split_colons(s@));
    }
    while i < n
        invariant
            n == s@.len(),
            start <= i <= n,
            split_colons(s@) == parts.deep_view() + glue(s@.subrange(start as int, i as int), split_colons(s@.skip(i as int))),
        decreases n - i,
    {
        let ghost rest = s@.skip(i as int);
        let ghost cur = s@.subrange(start as int, i as int);
        proof {
            assert(rest[0] == s@[i as int]);
        }
        if i + 1 < n && s.get_char(i) == ':' && s.get_char(i + 1) == ':' {
            let ghost before = parts.deep_view();
            let piece = String::from_str(s.substring_char(start, i));
            parts.push(piece);
            proof {
                assert(rest[1] == s@[i + 1]);
                assert(rest.skip(2) =~= s@.skip(i + 2));
                lemma_split_nonempty(s@.skip(i + 2));
                let x = split_colons(s@.skip(i + 2));
                assert(split_colons(rest) == seq![Seq::<char>::empty()] + x);
                assert(glue(cur, split_colons(rest)) =~= seq![cur] + x);
                assert(s@.subrange(i + 2, i + 2) =~= Seq::<char>::empty());
                assert(glue(Seq::empty(), x) =~= x);
                assert(parts.deep_view() =~= before.push(cur));
                assert(before + (seq![cur] + x) =~= before.push(cur) + x);
            }
            i += 2;
            start = i;
        } else {
            proof {
                assert(rest.skip(1) =~= s@.skip(i + 1));
                lemma_split_nonempty(s@.skip(i + 1));
                let x = split_colons(s@.skip(i + 1));
                assert(!(rest.len() >= 2 && rest[0] == ':' && rest[1] == ':')) by {
                    if rest.len() >= 2 && rest[0] == ':' && rest[1] == ':' {
                        assert(rest[1] == s@[i + 1]);
                    }
                }
                assert(split_colons(rest) == x.update(0, seq![rest[0]] + x[0]));
                assert(s@.subrange(start as int, i + 1) =~= cur + seq![rest[0]]);
                assert((cur + seq![rest[0]]) + x[0] =~= cur + (seq![rest[0]] + x[0]));
                assert(glue(cur, split_colons(rest)) =~= glue(s@.subrange(start as int, i + 1), x));
            }
            i += 1;
        }
    }
    let last = String::from_str(s.substring_char(start, n));
    let ghost before = parts.deep_view();
    parts.push(last);
    proof {
        assert(parts.deep_view() =~= before.push(s@.subrange(start as int, n as int)));
        assert(s@.skip(n as int) =~= Seq::<char>::empty());
        assert(glue(s@.subrange(start as int, n as int), seq![Seq::<char>::empty()]) =~= seq![s@.subrange(start as int, n as int)]);
    }
    parts
}

} // verus!
