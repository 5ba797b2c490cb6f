//! The fixed-width findings table.
use vstd::prelude::*;
use vstd::string::*;
use crate::model::{Finding, FindingV, LocationV, Severity};

verus! {

/// `s` cut to `max` characters, the last three replaced by `...`, when it
/// is longer than `max`.
pub open spec fn truncated(s: Seq<char>, max: nat) -> Seq<char> {
    if s.len() <= max {
        s
    } else {
        s.take(if max >= 3 { max - 3 } else { 0 }) + "..."@
    }
}

pub fn truncate(s: &str, max: usize) -> (r: String)
    ensures
        r@ == truncated(s@, max as nat),
{
    let n = s.unicode_len();
    if n <= max {
        return String::from_str(s);
    }
    let keep = if max >= 3 {
        max - 3
    } else {
        0
    };
    let mut t = String::from_str(s.substring_char(0, keep));
    t.append("...");
    proof {
        assert(s@.subrange(0, keep as int) =~= s@.take(keep as int));
    }
    t
}

pub open spec fn spaces(n: nat) -> Seq<char> {
    Seq::new(n, |i: int| ' ')
}

/// `s` padded with spaces on the right to `width` characters.
pub open spec fn padded(s: Seq<char>, width: nat) -> Seq<char> {
    if s.len() >= width {
        s
    } else {
        s + spaces((width - s.len()) as nat)
    }
}

fn pad(s: &str, width: usize) -> (r: String)
    ensures
        r@ == padded(s@, width as nat),
{
    let mut t = String::from_str(s);
    let n = s.unicode_len();
    if n >= width {
        return t;
    }
    let mut k: usize = n;
    proof {
        reveal_strlit(" ");
        assert(t@ =~= s@ + spaces(0));
    }
    while k < width
        invariant
            n == s@.len(),
            n <= k <= width,
            t@ == s@ + spaces((k - n) as nat),
        decreases width - k,
    {
        t.append(" ");
        proof {
            reveal_strlit(" ");
            assert(t@ =~= s@ + spaces((k + 1 - n) as nat));
        }
        k += 1;
    }
    t
}

/// The decimal digits of `n`.
pub open spec fn decimal(n: nat) -> Seq<char>
    decreases n,
{
    if n < 10 {
        seq![digit_char(n)]
    } else {
        decimal(n / 10) + seq![digit_char(n % 10)]
    }
}

pub open spec fn digit_char(d: nat) -> char {
    if d == 0 {
        '0'
    } else if d == 1 {
        '1'
    } else if d == 2 {
        '2'
    } else if d == 3 {
        '3'
    } else if d == 4 {
        '4'
    } else if d == 5 {
        '5'
    } else if d == 6 {
        '6'
    } else if d == 7 {
        '7'
    } else if d == 8 {
        '8'
    } else {
        '9'
    }
}

fn digit_text(d: u32) -> (r: &'static str)
    requires
        d < 10,
    ensures
        r@ == seq![digit_char(d as nat)],
{
    proof {
        reveal_strlit("0");
        reveal_strlit("1");
        reveal_strlit("2");
        reveal_strlit("3");
        reveal_strlit("4");
        reveal_strlit("5");
        reveal_strlit("6");
        reveal_strlit("7");
        reveal_strlit("8");
        reveal_strlit("9");
    }
    if d == 0 {
        "0"
    } else if d == 1 {
        "1"
    } else if d == 2 {
        "2"
    } else if d == 3 {
        "3"
    } else if d == 4 {
        "4"
    } else if d == 5 {
        "5"
    } else if d == 6 {
        "6"
    } else if d == 7 {
        "7"
    } else if d == 8 {
        "8"
    } else {
        "9"
    }
}

pub fn decimal_text(n: u32) -> (r: String)
    ensures
        r@ == decimal(n as nat),
    decreases n,
{
    if n < 10 {
        String::from_str(digit_text(n))
    } else {
        let mut t = decimal_text(n / 10);
        t.append(digit_text(n % 10));
        t
    }
}

/// `path:line:column`, an absent number written 0.
pub open spec fn location_text(l: LocationV) -> Seq<char> {
    l.0 + ":"@ + decimal(
        match l.1 {
            Some(x) => x as nat,
            None => 0,
        },
    ) + ":"@ + decimal(
        match l.2 {
            Some(x) => x as nat,
            None => 0,
        },
    )
}

pub open spec fn severity_text(s: Severity) -> Seq<char> {
    match s {
        Severity::Info => "Info"@,
        Severity::Warn => "Warn"@,
        Severity::Deny => "Deny"@,
    }
}

pub open spec fn table_header() -> Seq<char> {
    "SEV  CODE    LOCATION                         MESSAGE\n"@
        + "---- ------- -------------------------------  ------------------------------\n"@
}

/// One table row: severity in 4 columns, code in 7, location in 31 (cut
/// with an ellipsis), then the message.
pub open spec fn table_row(f: FindingV) -> Seq<char> {
    padded(severity_text(f.severity), 4) + " "@ + padded(f.code, 7) + " "@ + padded(
        truncated(location_text(f.location), 31),
        31,
    ) + "  "@ + f.message + "\n"@
}

pub open spec fn table_rows(s: Seq<FindingV>) -> Seq<char>
    decreases s.len(),
{
    if s.len() == 0 {
        Seq::empty()
    } else {
        table_rows(s.drop_last()) + table_row(s.last())
    }
}

fn location_string(f: &Finding) -> (r: String)
    ensures
        r@ == location_text(f.location.deep_view()),
{
    let line = match f.location.line {
        Some(x) => x,
        None => 0,
    };
    let col = match f.location.column {
        Some(x) => x,
        None => 0,
    };
    let mut loc = f.location.path.clone();
    loc.append(":");
    let ls = decimal_text(line);
    loc.append(ls.as_str());
    loc.append(":");
    let cs = decimal_text(col);
    loc.append(cs.as_str());
    proof {
        assert(loc@ =~= location_text(f.location.deep_view()));
    }
    loc
}

fn table_row_text(f: &Finding) -> (r: String)
    ensures
        r@ == table_row(f.deep_view()),
{
    let loc = location_string(f);
    let sev = match f.severity {
        Severity::Info => "Info",
        Severity::Warn => "Warn",
        Severity::Deny => "Deny",
    };
    let cut = truncate(loc.as_str(), 31);
    let a = pad(sev, 4);
    let b = pad(f.code.as_str(), 7);
    let c = pad(cut.as_str(), 31);
    let mut out = String::new();
    out.append(a.as_str());
    out.append(" ");
    out.append(b.as_str());
    out.append(" ");
    out.append(c.as_str());
    out.append("  ");
    out.append(f.message.as_str());
    out.append("\n");
    proof {
        assert(out@ =~= table_row(f.deep_view()));
    }
    out
}

/// The findings as a fixed-width table.
pub fn findings_to_table(findings: &Vec<Finding>) -> (r: String)
    ensures
        r@ == table_header() + table_rows(findings.deep_view()),
{
    let mut out = String::from_str("SEV  CODE    LOCATION                         MESSAGE\n");
    out.append("---- ------- -------------------------------  ------------------------------\n");
    let ghost v = findings.deep_view();
    let mut i: usize = 0;
    proof {
        assert(v.take(0) =~= Seq::<FindingV>::empty());
        assert(out@ =~= table_header() + table_rows(v.take(0)));
    }
    while i < findings.len()
        invariant
            i <= findings.len(),
            v == findings.deep_view(),
            out@ == table_header() + table_rows(v.take(i as int)),
        decreases findings.len() - i,
    {
        let f = &findings[i];
        let ghost o = out@;
        let row = table_row_text(f);
        out.append(row.as_str());
        proof {
            let t = v.take(i + 1);
            assert(t.drop_last() =~= v.take(i as int));
            assert(t.last() == f.deep_view());
            assert(out@ =~= o + table_row(f.deep_view()));
        }
        i += 1;
    }
    proof {
        assert(v.take(findings.len() as int) =~= v);
    }
    out
}

} // verus!
