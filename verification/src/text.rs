//! Character-level helpers shared by the parsers: views of string slices,
//! byte positions, whitespace, tokens, prefixes and joining.

use vstd::prelude::*;
use vstd::utf8::*;
use vstd::string::StringSliceAdditionalSpecFns;

verus! {

broadcast use vstd::utf8::encode_utf8_decode_utf8, vstd::utf8::encode_utf8_valid_utf8;

/// Appends one character to a `String` (std's `String::push`).
#[verifier::external_body]
pub(crate) fn push_char(s: &mut String, c: char)
    ensures
        final(s)@ == old(s)@.push(c),
{
    s.push(c);
}

/// The characters of a string slice, in order.
pub fn chars_of(s: &str) -> (v: Vec<char>)
    ensures
        v@ == s@,
{
    let mut v: Vec<char> = Vec::new();
    for c in it: s.chars()
        invariant
            v@ == it.seq().take(it.index()),
    {
        v.push(c);
    }
    v
}

/// A `String` holding exactly the given characters.
pub fn string_of(cs: &Vec<char>) -> (s: String)
    ensures
        s@ == cs@,
{
    let mut s = String::new();
    let mut i: usize = 0;
    while i < cs.len()
        invariant
            i <= cs.len(),
            s@ == cs@.take(i as int),
        decreases cs.len() - i,
    {
        push_char(&mut s, cs[i]);
        assert(cs@.take(i + 1) == cs@.take(i as int).push(cs@[i as int]));
        i = i + 1;
    }
    assert(cs@.take(cs.len() as int) == cs@);
    s
}

/// A `String` holding the characters `cs[from..to]`.
pub fn string_of_range(cs: &Vec<char>, from: usize, to: usize) -> (s: String)
    requires
        from <= to <= cs.len(),
    ensures
        s@ == cs@.subrange(from as int, to as int),
{
    let mut s = String::new();
    let mut i: usize = from;
    while i < to
        invariant
            from <= i <= to <= cs.len(),
            s@ == cs@.subrange(from as int, i as int),
        decreases to - i,
    {
        push_char(&mut s, cs[i]);
        assert(cs@.subrange(from as int, i + 1) == cs@.subrange(from as int, i as int).push(
            cs@[i as int],
        ));
        i = i + 1;
    }
    s
}

/// Whether byte offset `pos` of the UTF-8 encoding of `s` starts a character
/// (or is the end of the string).
pub open spec fn is_boundary(s: Seq<char>, pos: int) -> bool {
    is_char_boundary(encode_utf8(s), pos)
}

/// The characters encoded before byte offset `pos`.
pub open spec fn chars_before(s: Seq<char>, pos: int) -> Seq<char> {
    decode_utf8(encode_utf8(s).subrange(0, pos))
}

/// The characters encoded from byte offset `pos` on.
pub open spec fn chars_after(s: Seq<char>, pos: int) -> Seq<char> {
    decode_utf8(encode_utf8(s).subrange(pos, encode_utf8(s).len() as int))
}

/// Splitting at a character boundary gives the characters before and after it.
pub proof fn lemma_split_at_boundary(s: Seq<char>, pos: int)
    requires
        is_boundary(s, pos),
    ensures
        chars_before(s, pos) + chars_after(s, pos) == s,
        0 <= pos <= encode_utf8(s).len(),
{
    let b = encode_utf8(s);
    vstd::utf8::decode_utf8_split(b, pos);
    if pos != 0 {
        reveal_with_fuel(is_char_boundary, 1);
    }
}

/// The characters of `s` before and from byte offset `pos`.
pub fn split_chars_at(s: &str, pos: usize) -> (r: (Vec<char>, Vec<char>))
    requires
        is_boundary(s@, pos as int),
    ensures
        r.0@ == chars_before(s@, pos as int),
        r.1@ == chars_after(s@, pos as int),
        r.0@ + r.1@ == s@,
        encode_utf8(r.0@).len() == pos,
{
    proof {
        lemma_split_at_boundary(s@, pos as int);
    }
    let (a, b) = s.split_at(pos);
    proof {
        assert(a.spec_bytes() == encode_utf8(a@));
        assert(b.spec_bytes() == encode_utf8(b@));
        assert(decode_utf8(encode_utf8(a@)) == a@);
        assert(decode_utf8(encode_utf8(b@)) == b@);
    }
    (chars_of(a), chars_of(b))
}

/// Unicode `White_Space` characters, which `char::is_whitespace` accepts.
pub open spec fn is_ws(c: char) -> bool {
    ('\u{9}' <= c && c <= '\u{d}') || c == ' ' || c == '\u{85}' || c == '\u{a0}' || c
        == '\u{1680}' || ('\u{2000}' <= c && c <= '\u{200a}') || c == '\u{2028}' || c
        == '\u{2029}' || c == '\u{202f}' || c == '\u{205f}' || c == '\u{3000}'
}

/// Whether `c` is a Unicode whitespace character.
pub fn is_whitespace_char(c: char) -> (r: bool)
    ensures
        r == is_ws(c),
{
    ('\u{9}' <= c && c <= '\u{d}') || c == ' ' || c == '\u{85}' || c == '\u{a0}' || c
        == '\u{1680}' || ('\u{2000}' <= c && c <= '\u{200a}') || c == '\u{2028}' || c
        == '\u{2029}' || c == '\u{202f}' || c == '\u{205f}' || c == '\u{3000}'
}

/// The whitespace-separated words of `s`, in order: the maximal runs of
/// characters that are not whitespace.
pub open spec fn ws_tokens(s: Seq<char>) -> Seq<Seq<char>>
    decreases s.len(),
{
    if s.len() == 0 {
        Seq::empty()
    } else {
        let prev = ws_tokens(s.drop_last());
        let c = s.last();
        if is_ws(c) {
            prev
        } else if s.len() >= 2 && !is_ws(s[s.len() - 2]) {
            prev.update(prev.len() - 1, prev.last().push(c))
        } else {
            prev.push(seq![c])
        }
    }
}

/// A string whose last character is not whitespace has at least one word.
pub proof fn lemma_ws_tokens_nonempty(s: Seq<char>)
    requires
        s.len() >= 1,
        !is_ws(s.last()),
    ensures
        ws_tokens(s).len() >= 1,
    decreases s.len(),
{
    if s.len() >= 2 && !is_ws(s[s.len() - 2]) {
        lemma_ws_tokens_nonempty(s.drop_last());
    }
}

/// Every word is non-empty and holds no whitespace.
pub proof fn lemma_ws_tokens_words(s: Seq<char>)
    ensures
        forall|k: int|
            0 <= k < ws_tokens(s).len() ==> #[trigger] ws_tokens(s)[k].len() > 0 && forall|j: int|
                0 <= j < ws_tokens(s)[k].len() ==> !is_ws(ws_tokens(s)[k][j]),
    decreases s.len(),
{
    if s.len() > 0 {
        lemma_ws_tokens_words(s.drop_last());
        if !is_ws(s.last()) && s.len() >= 2 && !is_ws(s[s.len() - 2]) {
            lemma_ws_tokens_nonempty(s.drop_last());
        }
    }
}

/// The whitespace-separated words of a character sequence.
pub fn split_ws(cs: &Vec<char>) -> (r: Vec<Vec<char>>)
    ensures
        r@.len() == ws_tokens(cs@).len(),
        forall|k: int| 0 <= k < r@.len() ==> #[trigger] r@[k]@ == ws_tokens(cs@)[k],
{
    let mut toks: Vec<Vec<char>> = Vec::new();
    let mut i: usize = 0;
    while i < cs.len()
        invariant
            i <= cs.len(),
            toks@.len() == ws_tokens(cs@.take(i as int)).len(),
            forall|k: int|
                0 <= k < toks@.len() ==> #[trigger] toks@[k]@ == ws_tokens(cs@.take(i as int))[k],
        decreases cs.len() - i,
    {
        let c = cs[i];
        let ghost pre = cs@.take(i as int);
        let ghost cur = cs@.take(i + 1);
        assert(cur.drop_last() == pre);
        assert(cur.last() == c);
        if is_whitespace_char(c) {
        } else if i >= 1 && !is_whitespace_char(cs[i - 1]) {
            assert(cur[cur.len() - 2] == cs@[i - 1]);
            proof {
                assert(pre.last() == cs@[i - 1]);
                lemma_ws_tokens_nonempty(pre);
            }
            let last = toks.len() - 1;
            let mut w = toks.pop().unwrap();
            w.push(c);
            toks.push(w);
            assert(toks@.len() == ws_tokens(cur).len());
            assert forall|k: int| 0 <= k < toks@.len() implies #[trigger] toks@[k]@ == ws_tokens(
                cur,
            )[k] by {
                if k < last {
                }
            }
        } else {
            let mut w: Vec<char> = Vec::new();
            w.push(c);
            toks.push(w);
            assert(w@ == seq![c]);
            assert forall|k: int| 0 <= k < toks@.len() implies #[trigger] toks@[k]@ == ws_tokens(
                cur,
            )[k] by {}
        }
        i = i + 1;
    }
    assert(cs@.take(cs.len() as int) == cs@);
    r_toks(toks)
}

fn r_toks(t: Vec<Vec<char>>) -> (r: Vec<Vec<char>>)
    ensures
        r == t,
{
    t
}

/// `s` starts with `p`.
pub open spec fn starts_with(s: Seq<char>, p: Seq<char>) -> bool {
    p.len() <= s.len() && s.subrange(0, p.len() as int) == p
}

/// Whether `s` starts with `p`.
pub fn chars_start_with(s: &Vec<char>, p: &Vec<char>) -> (r: bool)
    ensures
        r == starts_with(s@, p@),
{
    if p.len() > s.len() {
        return false;
    }
    let mut i: usize = 0;
    while i < p.len()
        invariant
            p.len() <= s.len(),
            i <= p.len(),
            forall|j: int| 0 <= j < i ==> s@[j] == p@[j],
        decreases p.len() - i,
    {
        if s[i] != p[i] {
            assert(s@.subrange(0, p.len() as int)[i as int] != p@[i as int]);
            return false;
        }
        i = i + 1;
    }
    assert(s@.subrange(0, p.len() as int) =~= p@);
    true
}

/// Whether the string `s` starts with the string `p`.
pub fn str_starts_with(s: &str, p: &str) -> (r: bool)
    ensures
        r == starts_with(s@, p@),
{
    let a = chars_of(s);
    let b = chars_of(p);
    chars_start_with(&a, &b)
}

/// Whether two character vectors are equal.
pub fn chars_eq(a: &Vec<char>, b: &Vec<char>) -> (r: bool)
    ensures
        r == (a@ == b@),
{
    if a.len() != b.len() {
        return false;
    }
    let mut i: usize = 0;
    while i < a.len()
        invariant
            a.len() == b.len(),
            i <= a.len(),
            forall|j: int| 0 <= j < i ==> a@[j] == b@[j],
        decreases a.len() - i,
    {
        if a[i] != b[i] {
            return false;
        }
        i = i + 1;
    }
    assert(a@ =~= b@);
    true
}

/// Whether two strings are equal.
pub fn str_eq(a: &str, b: &str) -> (r: bool)
    ensures
        r == (a@ == b@),
{
    let x = chars_of(a);
    let y = chars_of(b);
    chars_eq(&x, &y)
}

/// `s` holds `t` as a contiguous part.
pub open spec fn contains_seq(s: Seq<char>, t: Seq<char>) -> bool {
    exists|i: int| 0 <= i && i + t.len() <= s.len() && #[trigger] s.subrange(i, i + t.len()) == t
}

/// Whether `s` holds `t` as a contiguous part.
pub fn chars_contain(s: &Vec<char>, t: &Vec<char>) -> (r: bool)
    ensures
        r == contains_seq(s@, t@),
{
    if t.len() > s.len() {
        assert forall|i: int| 0 <= i && i + t@.len() <= s@.len() implies #[trigger] s@.subrange(
            i,
            i + t@.len(),
        ) != t@ by {}
        return false;
    }
    let mut i: usize = 0;
    while i <= s.len() - t.len()
        invariant
            t.len() <= s.len(),
            i <= s.len() - t.len() + 1,
            forall|k: int| 0 <= k < i ==> #[trigger] s@.subrange(k, k + t@.len()) != t@,
        decreases s.len() - i,
    {
        let mut j: usize = 0;
        let mut same = true;
        while j < t.len()
            invariant
                i + t.len() <= s.len(),
                j <= t.len(),
                same == (forall|m: int| 0 <= m < j ==> s@[i + m] == t@[m]),
            decreases t.len() - j,
        {
            if s[i + j] != t[j] {
                same = false;
            }
            j = j + 1;
        }
        if same {
            assert(s@.subrange(i as int, i + t@.len()) =~= t@);
            return true;
        } else {
            let ghost m = choose|m: int| 0 <= m < t.len() && s@[i + m] != t@[m];
            assert(s@.subrange(i as int, i + t@.len())[m] != t@[m]);
        }
        i = i + 1;
    }
    assert forall|k: int| 0 <= k && k + t@.len() <= s@.len() implies #[trigger] s@.subrange(
        k,
        k + t@.len(),
    ) != t@ by {
        assert(k < i);
    }
    false
}

/// The words joined with single spaces between them.
pub open spec fn join_spaces(parts: Seq<Seq<char>>) -> Seq<char>
    decreases parts.len(),
{
    if parts.len() == 0 {
        Seq::empty()
    } else if parts.len() == 1 {
        parts[0]
    } else {
        join_spaces(parts.drop_last()) + seq![' '] + parts.last()
    }
}

/// The views of a sequence of strings.
pub open spec fn views(s: Seq<String>) -> Seq<Seq<char>> {
    s.map_values(|x: String| x@)
}

/// The strings joined with single spaces between them.
pub fn join_with_spaces(parts: &Vec<String>) -> (r: String)
    ensures
        r@ == join_spaces(views(parts@)),
{
    let mut out = String::new();
    let mut i: usize = 0;
    while i < parts.len()
        invariant
            i <= parts.len(),
            out@ == join_spaces(views(parts@).take(i as int)),
        decreases parts.len() - i,
    {
        let ghost pre = views(parts@).take(i as int);
        let ghost cur = views(parts@).take(i + 1);
        assert(cur.drop_last() == pre);
        assert(cur.last() == parts@[i as int]@);
        if i > 0 {
            push_char(&mut out, ' ');
        }
        out.append(parts[i].as_str());
        i = i + 1;
    }
    assert(views(parts@).take(parts.len() as int) == views(parts@));
    out
}

/// `s` without its leading whitespace.
pub open spec fn trim_left(s: Seq<char>) -> Seq<char>
    decreases s.len(),
{
    if s.len() > 0 && is_ws(s[0]) {
        trim_left(s.drop_first())
    } else {
        s
    }
}

/// `s` without its trailing whitespace.
pub open spec fn trim_right(s: Seq<char>) -> Seq<char>
    decreases s.len(),
{
    if s.len() > 0 && is_ws(s.last()) {
        trim_right(s.drop_last())
    } else {
        s
    }
}

/// `s` without leading and trailing whitespace (`str::trim`).
pub open spec fn trim(s: Seq<char>) -> Seq<char> {
    trim_right(trim_left(s))
}

/// The characters `cs[from..to]` without leading and trailing whitespace.
pub fn trim_range(cs: &Vec<char>, from: usize, to: usize) -> (r: Vec<char>)
    requires
        from <= to <= cs.len(),
    ensures
        r@ == trim(cs@.subrange(from as int, to as int)),
{
    let ghost whole = cs@.subrange(from as int, to as int);
    let mut a: usize = from;
    while a < to && is_whitespace_char(cs[a])
        invariant
            from <= a <= to <= cs.len(),
            trim_left(whole) == trim_left(cs@.subrange(a as int, to as int)),
        decreases to - a,
    {
        assert(cs@.subrange(a as int, to as int).drop_first() =~= cs@.subrange(a + 1, to as int));
        a = a + 1;
    }
    assert(trim_left(whole) == cs@.subrange(a as int, to as int));
    let mut b: usize = to;
    while b > a && is_whitespace_char(cs[b - 1])
        invariant
            from <= a <= b <= to <= cs.len(),
            trim(whole) == trim_right(cs@.subrange(a as int, b as int)),
        decreases b - a,
    {
        assert(cs@.subrange(a as int, b as int).drop_last() =~= cs@.subrange(a as int, b - 1));
        b = b - 1;
    }
    let mut out: Vec<char> = Vec::new();
    let mut k: usize = a;
    while k < b
        invariant
            a <= k <= b <= cs.len(),
            out@ == cs@.subrange(a as int, k as int),
        decreases b - k,
    {
        out.push(cs[k]);
        assert(cs@.subrange(a as int, k + 1) =~= cs@.subrange(a as int, k as int).push(cs@[k as int]));
        k = k + 1;
    }
    out
}

} // verus!
