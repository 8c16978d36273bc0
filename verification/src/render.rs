//! A human-readable rendering of a map's live entries.

use vstd::prelude::*;

use crate::IndexMap;
use crate::OptionIndex;
use crate::live_entries_from;

verus! {

/// The decimal rendering of a key, as integer formatting produces it.
pub uninterp spec fn decimal_of(n: usize) -> Seq<char>;

/// Relies on `format!` over `usize`: the text depends on the number alone.
#[verifier::external_body]
fn key_string(k: usize) -> (r: String)
    ensures
        r@ == decimal_of(k),
{
    format!("{}", k)
}

/// Relies on the value type's `Debug` formatting; nothing is assumed of
/// the text it produces.
#[verifier::external_body]
fn value_string<T: core::fmt::Debug>(t: &T) -> String {
    format!("{:?}", t)
}

/// The body of the rendering: each entry's key in decimal, a colon, the
/// entry's text, with `", "` between consecutive entries.
pub open spec fn rendered_pairs<T>(entries: Seq<(usize, T)>, texts: Seq<Seq<char>>) -> Seq<char>
    decreases entries.len(),
{
    if entries.len() == 0 || entries.len() != texts.len() {
        Seq::empty()
    } else {
        rendered_pairs(entries.drop_last(), texts.drop_last()) + (if entries.len() == 1 {
            Seq::<char>::empty()
        } else {
            ", "@
        }) + decimal_of(entries.last().0) + ": "@ + texts.last()
    }
}

impl<T: core::fmt::Debug> IndexMap<T> {
    /// Renders the live entries in ascending key order, each key with its
    /// value's `Debug` text, in map notation: `{0: 2, 1: 4}`.
    ///
    /// Only the live entries appear; the free list is not shown.  The
    /// contract pins everything but the values' texts, which come from
    /// `Debug`: there is some sequence of texts, one per live entry, such
    /// that the result is exactly the braces around the rendered pairs.
    pub fn debug_string(&self) -> (r: String)
        requires
            self.wf(),
        ensures
            self.len == 0 ==> r@ == "{}"@,
            exists|texts: Seq<Seq<char>>|
                texts.len() == live_entries_from(self@, 0).len() && r@ == "{"@ + rendered_pairs(
                    live_entries_from(self@, 0),
                    texts,
                ) + "}"@,
    {
        let ghost s = self.data@;
        let ghost mut visited: Seq<(usize, T)> = Seq::empty();
        let ghost mut texts: Seq<Seq<char>> = Seq::empty();
        let mut out = String::from_str("{");
        let mut first = true;
        let n = self.data.len();
        let mut i: usize = 0;
        while i < n
            invariant
                i <= n,
                n == s.len(),
                self.data@ == s,
                texts.len() == visited.len(),
                visited + live_entries_from(s, i as int) == live_entries_from(s, 0),
                out@ == "{"@ + rendered_pairs(visited, texts),
                first == (visited.len() == 0),
            decreases n - i,
        {
            match &self.data[i] {
                OptionIndex::Inner(v) => {
                    let text = value_string(v);
                    if !first {
                        out.append(", ");
                    }
                    out.append(key_string(i).as_str());
                    out.append(": ");
                    out.append(text.as_str());
                    first = false;
                    proof {
                        let visited0 = visited;
                        let texts0 = texts;
                        visited = visited.push((i, *v));
                        texts = texts.push(text@);
                        assert(visited.drop_last() =~= visited0);
                        assert(texts.drop_last() =~= texts0);
                        assert(live_entries_from(s, i as int) == seq![(i, *v)]
                            + live_entries_from(s, i + 1));
                        assert(visited + live_entries_from(s, i + 1) =~= live_entries_from(s, 0));
                        assert(out@ =~= "{"@ + rendered_pairs(visited, texts));
                    }
                },
                _ => {
                    proof {
                        assert(live_entries_from(s, i as int) == live_entries_from(s, i + 1));
                    }
                },
            }
            i = i + 1;
        }
        proof {
            assert(live_entries_from(s, n as int) =~= Seq::<(usize, T)>::empty());
            assert(visited =~= live_entries_from(s, 0));
            if self.len == 0 {
                assert(rendered_pairs(visited, texts) =~= Seq::<char>::empty());
                reveal_strlit("{");
                reveal_strlit("}");
                reveal_strlit("{}");
                assert(out@ + "}"@ =~= "{}"@);
            }
        }
        let r = out.concat("}");
        proof {
            assert(r@ == "{"@ + rendered_pairs(live_entries_from(s, 0), texts) + "}"@);
        }
        r
    }
}

} // verus!
