//! The interactive prompt: its text, and how the highlighter splits it
//! into the parts it colours.

use vstd::prelude::*;
use crate::select::ends_with;
use crate::text::{chars_of, starts_with, string_of_range};

verus! {

/// The prompt for the current directory name: `rfe <dir> >`, or in the
/// cute display mode `rfe 🌸 <dir> 💖 >`.
pub open spec fn prompt_spec(dir: Seq<char>, moe: bool) -> Seq<char> {
    if moe {
        "rfe 🌸 "@ + dir + " 💖 >"@
    } else {
        "rfe "@ + dir + " >"@
    }
}

/// The prompt for the current directory name (see [`prompt_spec`]).
pub fn prompt_string(dir: &str, moe: bool) -> (r: String)
    ensures
        r@ == prompt_spec(dir@, moe),
{
    if moe {
        let mut s = "rfe 🌸 ".to_owned();
        s.append(dir);
        s.append(" 💖 >");
        s
    } else {
        let mut s = "rfe ".to_owned();
        s.append(dir);
        s.append(" >");
        s
    }
}

/// The start of a cute-mode prompt.
pub open spec fn moe_head() -> Seq<char> {
    seq!['r', 'f', 'e', ' ', '🌸', ' ']
}

/// What follows the directory in a cute-mode prompt.
pub open spec fn moe_tail() -> Seq<char> {
    seq![' ', '💖', ' ', '>']
}

/// The first position at which `t` occurs in `s`, from `from` on.
pub open spec fn find_from(s: Seq<char>, t: Seq<char>, from: int) -> Option<int>
    decreases s.len() + 1 - from,
{
    if from < 0 || from + t.len() > s.len() {
        None
    } else if s.subrange(from, from + t.len()) == t {
        Some(from)
    } else {
        find_from(s, t, from + 1)
    }
}

/// How the highlighter reads a prompt.
#[derive(Debug, PartialEq, Eq)]
pub enum PromptShape {
    /// A cute-mode prompt with this directory.
    Moe(String),
    /// A standard prompt with this directory.
    Standard(String),
    /// Anything else, shown as it is.
    Plain,
}

/// How the highlighter reads a prompt: a cute-mode prompt when it starts
/// with `rfe 🌸 ` and holds ` 💖 >` (the directory runs up to its first
/// occurrence); else a standard one when it starts with `rfe ` and ends
/// with ` >`; else plain.
pub open spec fn prompt_shape_spec(p: Seq<char>) -> Option<Option<(bool, Seq<char>)>> {
    if starts_with(p, moe_head()) && find_from(p, moe_tail(), 0) is Some {
        let e = find_from(p, moe_tail(), 0)->0;
        if e < 6 {
            None
        } else {
            Some(Some((true, p.subrange(6, e))))
        }
    } else if starts_with(p, "rfe "@) && ends_with(p, " >"@) {
        if p.len() < 6 {
            None
        } else {
            Some(Some((false, p.subrange(4, p.len() - 2))))
        }
    } else {
        Some(None)
    }
}

/// The view of a prompt reading.
pub open spec fn shape_view(s: PromptShape) -> Option<(bool, Seq<char>)> {
    match s {
        PromptShape::Moe(d) => Some((true, d@)),
        PromptShape::Standard(d) => Some((false, d@)),
        PromptShape::Plain => None,
    }
}

proof fn lemma_find_from_range(s: Seq<char>, t: Seq<char>, from: int)
    ensures
        find_from(s, t, from) matches Some(i) ==> from <= i && i + t.len() <= s.len(),
    decreases s.len() + 1 - from,
{
    if !(from < 0 || from + t.len() > s.len()) && s.subrange(from, from + t.len()) != t {
        lemma_find_from_range(s, t, from + 1);
    }
}

/// How the highlighter reads a prompt (see [`prompt_shape_spec`]); a
/// prompt whose directory part would run backwards is not accepted.
#[verifier::loop_isolation(false)]
pub fn prompt_shape(prompt: &str) -> (r: PromptShape)
    requires
        prompt_shape_spec(prompt@) is Some,
    ensures
        prompt_shape_spec(prompt@) == Some(shape_view(r)),
{
    let cs = chars_of(prompt);
    let n = cs.len();
    let head_ok = n >= 6 && cs[0] == 'r' && cs[1] == 'f' && cs[2] == 'e' && cs[3] == ' ' && cs[4] == '🌸'
        && cs[5] == ' ';
    assert(head_ok == starts_with(prompt@, moe_head())) by {
        if n >= 6 {
            if head_ok {
                assert(prompt@.subrange(0, 6) =~= moe_head());
            } else {
                assert(prompt@.subrange(0, 6) != moe_head()) by {
                    let s = prompt@.subrange(0, 6);
                    assert(s[0] == cs@[0] && s[1] == cs@[1] && s[2] == cs@[2] && s[3] == cs@[3] && s[4] == cs@[4]
                        && s[5] == cs@[5]);
                }
            }
        }
    }
    if head_ok {
        let mut i: usize = 0;
        while i <= n && n - i >= 4
            invariant
                n == cs@.len(),
                cs@ == prompt@,
                find_from(prompt@, moe_tail(), 0) == find_from(prompt@, moe_tail(), i as int),
            decreases n - i,
        {
            let hit = cs[i] == ' ' && cs[i + 1] == '💖' && cs[i + 2] == ' ' && cs[i + 3] == '>';
            let ghost w = prompt@.subrange(i as int, i + 4);
            assert(hit == (w == moe_tail())) by {
                if hit {
                    assert(w =~= moe_tail());
                } else {
                    assert(w[0] == cs@[i as int] && w[1] == cs@[i + 1] && w[2] == cs@[i + 2] && w[3] == cs@[i + 3]);
                }
            }
            if hit {
                proof {
                    lemma_find_from_range(prompt@, moe_tail(), 0);
                }
                assert(find_from(prompt@, moe_tail(), i as int) == Some(i as int));
                return PromptShape::Moe(string_of_range(&cs, 6, i));
            }
            i = i + 1;
        }
        assert(find_from(prompt@, moe_tail(), i as int) is None);
    }
    let std_ok = n >= 4 && cs[0] == 'r' && cs[1] == 'f' && cs[2] == 'e' && cs[3] == ' ' && n >= 2 && cs[n - 2] == ' '
        && cs[n - 1] == '>';
    proof {
        reveal_strlit("rfe ");
        reveal_strlit(" >");
    }
    assert(std_ok == (starts_with(prompt@, "rfe "@) && ends_with(prompt@, " >"@))) by {
        if n >= 4 {
            let s = prompt@.subrange(0, 4);
            if cs@[0] == 'r' && cs@[1] == 'f' && cs@[2] == 'e' && cs@[3] == ' ' {
                assert(s =~= "rfe "@);
            } else {
                assert(s[0] == cs@[0] && s[1] == cs@[1] && s[2] == cs@[2] && s[3] == cs@[3]);
            }
        }
        if n >= 2 {
            let t = prompt@.skip(n - 2);
            if cs@[n - 2] == ' ' && cs@[n - 1] == '>' {
                assert(t =~= " >"@);
            } else {
                assert(t[0] == cs@[n - 2] && t[1] == cs@[n - 1]);
            }
        }
    }
    if std_ok {
        PromptShape::Standard(string_of_range(&cs, 4, n - 2))
    } else {
        PromptShape::Plain
    }
}

} // verus!
