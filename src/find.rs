//! Finders over the cached occurrences of a fact set.
use vstd::prelude::*;
use crate::klepto::Klepto;
use crate::model::{CallOccurrence, CallOccurrenceV, MacroInvocation, MacroInvocationV, PathOccurrence, PathOccurrenceV};
use crate::text::{contains_text, text_contains};

verus! {

/// A callee named `name`, or one whose text holds a member access onto it.
pub open spec fn calls_accessor(c: Seq<char>, name: Seq<char>) -> bool {
    c == name || contains_text(c, seq!['.'] + name)
}

pub struct Finder<'k> {
    k: &'k Klepto,
}

impl<'k> Finder<'k> {
    pub closed spec fn facts(&self) -> &'k Klepto {
        self.k
    }

    pub fn new(k: &'k Klepto) -> (r: Finder<'k>)
        ensures
            r.facts() == k,
    {
        Finder { k }
    }

    /// The path references whose text equals `p`.
    pub fn paths_eq(&self, p: &str) -> (r: Vec<PathOccurrence>)
        ensures
            r.deep_view() == self.facts().paths.deep_view().filter(|o: PathOccurrenceV| o.path == p@),
    {
        self.k.find_paths(p)
    }

    /// The macro invocations named `name`.
    pub fn macros(&self, name: &str) -> (r: Vec<MacroInvocation>)
        ensures
            r.deep_view() == self.facts().macros_inv.deep_view().filter(|m: MacroInvocationV| m.name == name@),
    {
        self.k.find_macro_invocations(name)
    }

    /// The calls whose callee text contains `s`.
    pub fn calls_containing(&self, s: &str) -> (r: Vec<CallOccurrence>)
        ensures
            r.deep_view() == self.facts().calls.deep_view().filter(|c: CallOccurrenceV| contains_text(c.callee, s@)),
    {
        self.k.find_calls(s)
    }

    fn accessor_calls(&self, name: &str, member: &str) -> (r: Vec<CallOccurrence>)
        requires
            member@ == seq!['.'] + name@,
        ensures
            r.deep_view() == self.facts().calls.deep_view().filter(|c: CallOccurrenceV| calls_accessor(c.callee, name@)),
    {
        let ghost v = self.k.calls.deep_view();
        let ghost pred = |c: CallOccurrenceV| calls_accessor(c.callee, name@);
        let target = String::from_str(name);
        let mut out: Vec<CallOccurrence> = Vec::new();
        let mut i: usize = 0;
        proof {
            reveal(Seq::filter);
            assert(v.take(0).filter(pred) =~= Seq::<CallOccurrenceV>::empty());
            assert(out.deep_view() =~= Seq::<CallOccurrenceV>::empty());
        }
        while i < self.k.calls.len()
            invariant
                i <= self.k.calls.len(),
                v == self.k.calls.deep_view(),
                target@ == name@,
                member@ == seq!['.'] + name@,
                pred == (|c: CallOccurrenceV| calls_accessor(c.callee, name@)),
                out.deep_view() == v.take(i as int).filter(pred),
            decreases self.k.calls.len() - i,
        {
            let ghost o = out.deep_view();
            let c = &self.k.calls[i];
            let hit = c.callee.eq(&target) || text_contains(c.callee.as_str(), member);
            if hit {
                let d = c.clone();
                out.push(d);
                proof {
                    assert(out.deep_view() =~= o.push(d.deep_view()));
                }
            }
            proof {
                reveal(Seq::filter);
                let t = v.take(i + 1);
                assert(t.drop_last() =~= v.take(i as int));
                assert(t.last() == c.deep_view());
            }
            i += 1;
        }
        proof {
            assert(v.take(self.k.calls.len() as int) =~= v);
        }
        out
    }

    /// Calls of `unwrap`, plain or through a member access.
    pub fn unwrap_calls(&self) -> (r: Vec<CallOccurrence>)
        ensures
            r.deep_view() == self.facts().calls.deep_view().filter(
                |c: CallOccurrenceV| calls_accessor(c.callee, "unwrap"@),
            ),
    {
        proof {
            reveal_strlit("unwrap");
            reveal_strlit(".unwrap");
            assert(".unwrap"@ =~= seq!['.'] + "unwrap"@);
        }
        self.accessor_calls("unwrap", ".unwrap")
    }

    /// Calls of `expect`, plain or through a member access.
    pub fn expect_calls(&self) -> (r: Vec<CallOccurrence>)
        ensures
            r.deep_view() == self.facts().calls.deep_view().filter(
                |c: CallOccurrenceV| calls_accessor(c.callee, "expect"@),
            ),
    {
        proof {
            reveal_strlit("expect");
            reveal_strlit(".expect");
            assert(".expect"@ =~= seq!['.'] + "expect"@);
        }
        self.accessor_calls("expect", ".expect")
    }
}

} // verus!
