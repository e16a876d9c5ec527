//! What `ls` decides on its own: the icon and colour of an entry, how a
//! regular-expression search is set up, the order of the entries, the
//! counts, and the layout of listing lines.

use vstd::prelude::*;
use crate::numbers::{decimal, usize_to_string};
use crate::ordering::chars_le;
use crate::pattern::{TagPattern, regex_error};
use crate::select::{chars_end_with, ends_with, lowercase, to_lowercase};
use crate::text::{chars_of, join_spaces, push_char, str_eq, string_of_range, views};

verus! {

/// The colours entries are shown in.
#[derive(Debug, Clone, Copy, PartialEq, Eq)]
pub enum FileColor {
    White,
    Red,
    Magenta,
    Cyan,
    BrightBlack,
    BrightRed,
    BrightGreen,
    BrightYellow,
    BrightBlue,
    BrightMagenta,
    BrightCyan,
}

/// The icon and colour for a file with the given (lower-cased) extension.
pub open spec fn extension_style(ext: Seq<char>) -> (Seq<char>, FileColor) {
    if ext == "rs"@ {
        ("🦀"@, FileColor::BrightRed)
    } else if ext == "toml"@ || ext == "json"@ || ext == "yaml"@ || ext == "yml"@ {
        ("📋"@, FileColor::BrightYellow)
    } else if ext == "md"@ || ext == "txt"@ {
        ("📝"@, FileColor::White)
    } else if ext == "gitignore"@ || ext == "git"@ {
        ("🔀"@, FileColor::BrightMagenta)
    } else if ext == "exe"@ || ext == "bin"@ {
        ("⚡"@, FileColor::BrightGreen)
    } else if ext == "jpg"@ || ext == "jpeg"@ || ext == "png"@ || ext == "gif"@ || ext == "svg"@ {
        ("📷"@, FileColor::Magenta)
    } else if ext == "mp3"@ || ext == "wav"@ || ext == "flac"@ {
        ("🎵"@, FileColor::BrightMagenta)
    } else if ext == "mp4"@ || ext == "avi"@ || ext == "mkv"@ {
        ("🎬"@, FileColor::Red)
    } else if ext == "zip"@ || ext == "tar"@ || ext == "gz"@ || ext == "7z"@ || ext == "rar"@ {
        ("📦"@, FileColor::BrightRed)
    } else if ext == "pdf"@ {
        ("📕"@, FileColor::Red)
    } else if ext == "doc"@ || ext == "docx"@ {
        ("📘"@, FileColor::BrightBlue)
    } else if ext == "xls"@ || ext == "xlsx"@ {
        ("📗"@, FileColor::BrightGreen)
    } else if ext == "ppt"@ || ext == "pptx"@ {
        ("📙"@, FileColor::BrightYellow)
    } else if ext == "html"@ || ext == "css"@ || ext == "js"@ || ext == "ts"@ {
        ("🌐"@, FileColor::BrightCyan)
    } else if ext == "py"@ {
        ("🐍"@, FileColor::BrightYellow)
    } else if ext == "go"@ {
        ("🐹"@, FileColor::BrightCyan)
    } else if ext == "java"@ {
        ("☕"@, FileColor::BrightRed)
    } else if ext == "c"@ || ext == "cpp"@ || ext == "h"@ || ext == "hpp"@ {
        ("🔧"@, FileColor::BrightBlue)
    } else if ext == "sh"@ || ext == "bat"@ || ext == "ps1"@ {
        ("💻"@, FileColor::BrightGreen)
    } else if ext == "lock"@ {
        ("🔒"@, FileColor::BrightYellow)
    } else if ext == "log"@ {
        ("📜"@, FileColor::BrightBlack)
    } else {
        ("📄"@, FileColor::White)
    }
}

/// The icon and colour of an entry: directories and links have their own;
/// files go by their extension, compared in lower case.
pub open spec fn entry_style(is_dir: bool, is_symlink: bool, ext: Seq<char>) -> (Seq<char>, FileColor) {
    if is_dir {
        ("📁"@, FileColor::BrightBlue)
    } else if is_symlink {
        ("🔗"@, FileColor::Cyan)
    } else {
        extension_style(lowercase(ext))
    }
}

/// The icon and colour for a (lower-cased) extension.
fn extension_style_exec(e: &str) -> (r: (&'static str, FileColor))
    ensures
        (r.0@, r.1) == extension_style(e@),
{
    if str_eq(e, "rs") {
        ("🦀", FileColor::BrightRed)
    } else if str_eq(e, "toml") || str_eq(e, "json") || str_eq(e, "yaml") || str_eq(e, "yml") {
        ("📋", FileColor::BrightYellow)
    } else if str_eq(e, "md") || str_eq(e, "txt") {
        ("📝", FileColor::White)
    } else if str_eq(e, "gitignore") || str_eq(e, "git") {
        ("🔀", FileColor::BrightMagenta)
    } else if str_eq(e, "exe") || str_eq(e, "bin") {
        ("⚡", FileColor::BrightGreen)
    } else if str_eq(e, "jpg") || str_eq(e, "jpeg") || str_eq(e, "png") || str_eq(e, "gif") || str_eq(e, "svg") {
        ("📷", FileColor::Magenta)
    } else if str_eq(e, "mp3") || str_eq(e, "wav") || str_eq(e, "flac") {
        ("🎵", FileColor::BrightMagenta)
    } else if str_eq(e, "mp4") || str_eq(e, "avi") || str_eq(e, "mkv") {
        ("🎬", FileColor::Red)
    } else if str_eq(e, "zip") || str_eq(e, "tar") || str_eq(e, "gz") || str_eq(e, "7z") || str_eq(e, "rar") {
        ("📦", FileColor::BrightRed)
    } else if str_eq(e, "pdf") {
        ("📕", FileColor::Red)
    } else if str_eq(e, "doc") || str_eq(e, "docx") {
        ("📘", FileColor::BrightBlue)
    } else if str_eq(e, "xls") || str_eq(e, "xlsx") {
        ("📗", FileColor::BrightGreen)
    } else if str_eq(e, "ppt") || str_eq(e, "pptx") {
        ("📙", FileColor::BrightYellow)
    } else if str_eq(e, "html") || str_eq(e, "css") || str_eq(e, "js") || str_eq(e, "ts") {
        ("🌐", FileColor::BrightCyan)
    } else if str_eq(e, "py") {
        ("🐍", FileColor::BrightYellow)
    } else if str_eq(e, "go") {
        ("🐹", FileColor::BrightCyan)
    } else if str_eq(e, "java") {
        ("☕", FileColor::BrightRed)
    } else if str_eq(e, "c") || str_eq(e, "cpp") || str_eq(e, "h") || str_eq(e, "hpp") {
        ("🔧", FileColor::BrightBlue)
    } else if str_eq(e, "sh") || str_eq(e, "bat") || str_eq(e, "ps1") {
        ("💻", FileColor::BrightGreen)
    } else if str_eq(e, "lock") {
        ("🔒", FileColor::BrightYellow)
    } else if str_eq(e, "log") {
        ("📜", FileColor::BrightBlack)
    } else {
        ("📄", FileColor::White)
    }
}

/// The icon and colour of an entry (see [`entry_style`]); `ext` is the
/// file name's extension, empty when it has none.
pub fn file_icon_and_color(is_dir: bool, is_symlink: bool, ext: &str) -> (r: (&'static str, FileColor))
    ensures
        (r.0@, r.1) == entry_style(is_dir, is_symlink, ext@),
{
    if is_dir {
        return ("📁", FileColor::BrightBlue);
    }
    if is_symlink {
        return ("🔗", FileColor::Cyan);
    }
    let low = to_lowercase(ext);
    extension_style_exec(low.as_str())
}

/// How a regular-expression listing is set up: the pattern (required), made
/// case-insensitive with `(?i)` when asked, and compiled.
pub open spec fn search_source(pattern: Seq<char>, insensitive: bool) -> Seq<char> {
    if insensitive {
        "(?i)"@ + pattern
    } else {
        pattern
    }
}

/// Compiles the search pattern of `ls --re` (see [`search_source`]);
/// refused without a pattern, and with the compiler's message when it does
/// not compile.
pub fn compile_search(pattern: Option<&str>, insensitive: bool) -> (r: Result<TagPattern, String>)
    ensures
        match pattern {
            None => r matches Err(e) && e@ == "Regex pattern required when using --re flag"@,
            Some(p) => match regex_error(search_source(p@, insensitive)) {
                Some(m) => r matches Err(e) && e@ == "Invalid regular expression: "@ + m,
                None => r matches Ok(t) && t.source() == search_source(p@, insensitive),
            },
        },
        pattern matches Some(p) ==> (r matches Ok(t) ==> t.source() == if insensitive {
            seq!['(', '?', 'i', ')'] + p@
        } else {
            p@
        }),
{
    proof {
        reveal_strlit("(?i)");
    }
    match pattern {
        None => Err("Regex pattern required when using --re flag".to_owned()),
        Some(p) => {
            let src = if insensitive {
                let mut s = "(?i)".to_owned();
                s.append(p);
                s
            } else {
                p.to_owned()
            };
            match TagPattern::new(src.as_str()) {
                Ok(t) => Ok(t),
                Err(m) => {
                    let mut e = "Invalid regular expression: ".to_owned();
                    e.append(m.as_str());
                    Err(e)
                },
            }
        },
    }
}

/// Whether a search starts at the file-system root: the pattern starts with
/// `/`, or, on Windows, holds a drive colon.
pub open spec fn searches_from_root(pattern: Seq<char>, windows: bool) -> bool {
    (pattern.len() > 0 && pattern[0] == '/') || (windows && pattern.contains(':'))
}

/// Whether a search starts at the file-system root (see
/// [`searches_from_root`]).
#[verifier::loop_isolation(false)]
pub fn search_from_root(pattern: &str, windows: bool) -> (r: bool)
    ensures
        r == searches_from_root(pattern@, windows),
{
    let cs = chars_of(pattern);
    if cs.len() > 0 && cs[0] == '/' {
        return true;
    }
    if !windows {
        return false;
    }
    let mut i: usize = 0;
    while i < cs.len()
        invariant
            i <= cs@.len(),
            cs@ == pattern@,
            forall|j: int| 0 <= j < i ==> cs@[j] != ':',
        decreases cs.len() - i,
    {
        if cs[i] == ':' {
            assert(pattern@[i as int] == ':');
            assert(pattern@.contains(':'));
            return true;
        }
        i = i + 1;
    }
    false
}

/// `i` placed among `order` (indices into `keys`) after every index whose
/// key comes before or equals its key.
pub open spec fn insert_index(order: Seq<int>, i: int, keys: Seq<Seq<char>>) -> Seq<int>
    decreases order.len(),
{
    if order.len() == 0 {
        seq![i]
    } else if chars_le(keys[order.last()], keys[i]) {
        order.push(i)
    } else {
        insert_index(order.drop_last(), i, keys).push(order.last())
    }
}

/// The indices `0..n` ordered by their keys, keeping index order among
/// equal keys (a stable sort).
pub open spec fn order_by_keys(n: nat, keys: Seq<Seq<char>>) -> Seq<int>
    decreases n,
{
    if n == 0 {
        Seq::empty()
    } else {
        insert_index(order_by_keys((n - 1) as nat, keys), n - 1, keys)
    }
}

/// The sort keys of names: their lower-cased forms.
pub open spec fn name_keys(names: Seq<Seq<char>>) -> Seq<Seq<char>> {
    names.map_values(|n: Seq<char>| lowercase(n))
}

/// Whether `a` comes before `b` or equals it.
fn le_exec(a: &Vec<char>, b: &Vec<char>) -> (r: bool)
    ensures
        r == chars_le(a@, b@),
{
    let mut i: usize = 0;
    assert(a@.skip(0) == a@);
    assert(b@.skip(0) == b@);
    while i < a.len()
        invariant
            i <= a@.len(),
            i <= b@.len(),
            chars_le(a@, b@) == chars_le(a@.skip(i as int), b@.skip(i as int)),
        decreases a.len() - i,
    {
        if i >= b.len() {
            return false;
        }
        assert(a@.skip(i as int).drop_first() == a@.skip(i + 1));
        assert(b@.skip(i as int).drop_first() == b@.skip(i + 1));
        assert(a@.skip(i as int)[0] == a@[i as int]);
        assert(b@.skip(i as int)[0] == b@[i as int]);
        if a[i] != b[i] {
            return a[i] < b[i];
        }
        i = i + 1;
    }
    true
}

proof fn lemma_insert_index_at(order: Seq<int>, i: int, keys: Seq<Seq<char>>, j: int)
    requires
        0 <= j <= order.len(),
        j == 0 || chars_le(keys[order[j - 1]], keys[i]),
        forall|k: int| j <= k < order.len() ==> !chars_le(keys[#[trigger] order[k]], keys[i]),
    ensures
        insert_index(order, i, keys) == order.take(j).push(i) + order.skip(j),
    decreases order.len(),
{
    if order.len() == 0 {
        assert(order.take(j).push(i) + order.skip(j) =~= seq![i]);
    } else if j == order.len() {
        assert(order.take(j) == order);
        assert(order.take(j).push(i) + order.skip(j) =~= order.push(i));
    } else {
        assert(!chars_le(keys[order[order.len() - 1]], keys[i]));
        lemma_insert_index_at(order.drop_last(), i, keys, j);
        assert(order.drop_last().take(j) == order.take(j));
        assert((order.take(j).push(i) + order.drop_last().skip(j)).push(order.last()) =~= order.take(j).push(i)
            + order.skip(j));
    }
}

/// The order in which entries are listed: by lower-cased name, keeping
/// the given order among equal names. Gives indices into `names`.
pub fn order_by_name(names: &Vec<String>) -> (r: Vec<usize>)
    ensures
        r@.map_values(|i: usize| i as int) == order_by_keys(names@.len(), name_keys(views(names@))),
{
    let ghost keys = name_keys(views(names@));
    let mut lows: Vec<Vec<char>> = Vec::new();
    let mut k: usize = 0;
    while k < names.len()
        invariant
            k <= names@.len(),
            keys == name_keys(views(names@)),
            lows@.len() == k,
            forall|j: int| 0 <= j < k ==> #[trigger] lows@[j]@ == keys[j],
        decreases names.len() - k,
    {
        let low = to_lowercase(names[k].as_str());
        lows.push(chars_of(low.as_str()));
        k = k + 1;
    }
    let mut out: Vec<usize> = Vec::new();
    let mut i: usize = 0;
    while i < names.len()
        invariant
            i <= names@.len(),
            keys == name_keys(views(names@)),
            keys.len() == names@.len(),
            lows@.len() == names@.len(),
            forall|j: int| 0 <= j < names@.len() ==> #[trigger] lows@[j]@ == keys[j],
            out@.map_values(|x: usize| x as int) == order_by_keys(i as nat, keys),
            forall|j: int| 0 <= j < out@.len() ==> #[trigger] out@[j] < i,
        decreases names.len() - i,
    {
        let ghost o = out@.map_values(|x: usize| x as int);
        let mut j: usize = out.len();
        while j > 0 && !le_exec(&lows[out[j - 1]], &lows[i])
            invariant
                j <= out@.len(),
                o == out@.map_values(|x: usize| x as int),
                i < names@.len(),
                lows@.len() == names@.len(),
                forall|m: int| 0 <= m < names@.len() ==> #[trigger] lows@[m]@ == keys[m],
                forall|m: int| 0 <= m < out@.len() ==> #[trigger] out@[m] < i,
                forall|m: int| j <= m < o.len() ==> !chars_le(keys[#[trigger] o[m]], keys[i as int]),
            decreases j,
        {
            j = j - 1;
        }
        proof {
            lemma_insert_index_at(o, i as int, keys, j as int);
        }
        out.insert(j, i);
        assert(out@.map_values(|x: usize| x as int) =~= o.take(j as int).push(i as int) + o.skip(j as int));
        i = i + 1;
    }
    out
}

/// The number of directories and of files among the entries.
pub open spec fn count_dirs(is_dir: Seq<bool>) -> nat
    decreases is_dir.len(),
{
    if is_dir.len() == 0 {
        0
    } else {
        count_dirs(is_dir.drop_last()) + if is_dir.last() { 1nat } else { 0nat }
    }
}

proof fn lemma_count_dirs_bound(is_dir: Seq<bool>)
    ensures
        count_dirs(is_dir) <= is_dir.len(),
    decreases is_dir.len(),
{
    if is_dir.len() > 0 {
        lemma_count_dirs_bound(is_dir.drop_last());
    }
}

/// The number of directories and the number of files among the entries.
pub fn summary_counts(is_dir: &Vec<bool>) -> (r: (usize, usize))
    ensures
        r.0 == count_dirs(is_dir@),
        r.0 + r.1 == is_dir@.len(),
{
    let mut dirs: usize = 0;
    let mut i: usize = 0;
    while i < is_dir.len()
        invariant
            i <= is_dir@.len(),
            dirs == count_dirs(is_dir@.take(i as int)),
            dirs <= i,
        decreases is_dir.len() - i,
    {
        assert(is_dir@.take(i + 1).drop_last() == is_dir@.take(i as int));
        if is_dir[i] {
            dirs = dirs + 1;
        }
        i = i + 1;
    }
    assert(is_dir@.take(is_dir.len() as int) == is_dir@);
    (dirs, is_dir.len() - dirs)
}

/// `s` with spaces in front up to `width` characters (`{:>width}`).
pub open spec fn pad_left(s: Seq<char>, width: nat) -> Seq<char> {
    if s.len() < width {
        Seq::new((width - s.len()) as nat, |i: int| ' ') + s
    } else {
        s
    }
}

/// One line of the short listing: the 1-based number right-aligned in
/// three columns, a dot, the icon, the name and the tag part.
pub open spec fn short_line_spec(n: nat, icon: Seq<char>, name: Seq<char>, tags: Seq<char>) -> Seq<char> {
    pad_left(decimal(n), 3) + ". "@ + icon + " "@ + name + tags + seq!['\n']
}

/// One line of the short listing (see [`short_line_spec`]); `name` and
/// `tags` come as they are to be shown.
pub fn short_line(n: usize, icon: &str, name: &str, tags: &str) -> (r: String)
    ensures
        r@ == short_line_spec(n as nat, icon@, name@, tags@),
{
    let num = usize_to_string(n);
    let mut out = String::new();
    proof {
        lemma_decimal_ascii_len(n as nat);
    }
    let len = num.as_str().len();
    assert(len == num@.len());
    let mut pad: usize = 0;
    while pad < 3 && len < 3 - pad
        invariant
            pad <= 3,
            len == num@.len(),
            len < 3 ==> pad <= 3 - len,
            len >= 3 ==> pad == 0,
            out@ == Seq::new(pad as nat, |i: int| ' '),
        decreases 3 - pad,
    {
        push_char(&mut out, ' ');
        assert(out@ =~= Seq::new((pad + 1) as nat, |i: int| ' '));
        pad = pad + 1;
    }
    assert(num@.len() < 3 ==> pad == 3 - num@.len());
    assert(num@.len() >= 3 ==> pad == 0);
    out.append(num.as_str());
    out.append(". ");
    out.append(icon);
    out.append(" ");
    out.append(name);
    out.append(tags);
    push_char(&mut out, '\n');
    out
}

/// A number has no more decimal digits than its value (one for zero).
proof fn lemma_decimal_short(n: nat)
    ensures
        decimal(n).len() <= if n == 0 { 1 } else { n },
    decreases n,
{
    if n >= 10 {
        lemma_decimal_short(n / 10);
    }
}

/// Decimal digits are single bytes, so their byte length is their length.
proof fn lemma_decimal_ascii_len(n: nat)
    ensures
        vstd::utf8::encode_utf8(decimal(n)).len() == decimal(n).len(),
        decimal(n).len() <= if n == 0 { 1 } else { n },
{
    lemma_decimal_short(n);
    lemma_decimal_ascii(n);
    assert(vstd::utf8::is_ascii_chars(decimal(n)));
    vstd::utf8::is_ascii_chars_encode_utf8(decimal(n));
}

proof fn lemma_decimal_ascii(n: nat)
    ensures
        forall|i: int| 0 <= i < decimal(n).len() ==> '0' <= #[trigger] decimal(n)[i] <= '9',
    decreases n,
{
    if n >= 10 {
        lemma_decimal_ascii(n / 10);
        let d = decimal(n / 10);
        let c = (('0' as u32) + (n % 10)) as char;
        assert(c as u32 == ('0' as u32) + (n % 10));
        assert forall|i: int| 0 <= i < decimal(n).len() implies '0' <= #[trigger] decimal(n)[i] <= '9' by {
            if i < d.len() {
                assert(decimal(n)[i] == d[i]);
            }
        }
    } else {
        let c = (('0' as u32) + n) as char;
        assert(c as u32 == ('0' as u32) + n);
    }
}

/// The tag part of a listing line: ` [a, b]`, or nothing when tags are not
/// shown or there are none.
pub open spec fn tags_part(tags: Seq<Seq<char>>, show: bool) -> Seq<char> {
    if show && tags.len() > 0 {
        " ["@ + join_comma(tags) + "]"@
    } else {
        Seq::empty()
    }
}

/// The tags joined with `, `.
pub open spec fn join_comma(tags: Seq<Seq<char>>) -> Seq<char>
    decreases tags.len(),
{
    if tags.len() == 0 {
        Seq::empty()
    } else if tags.len() == 1 {
        tags[0]
    } else {
        join_comma(tags.drop_last()) + ", "@ + tags.last()
    }
}

/// The tags joined with `, `.
pub fn join_tags(tags: &Vec<String>) -> (r: String)
    ensures
        r@ == join_comma(views(tags@)),
{
    let mut out = String::new();
    let mut i: usize = 0;
    while i < tags.len()
        invariant
            i <= tags@.len(),
            out@ == join_comma(views(tags@).take(i as int)),
        decreases tags.len() - i,
    {
        let ghost pre = views(tags@).take(i as int);
        let ghost cur = views(tags@).take(i + 1);
        assert(cur.drop_last() == pre);
        assert(cur.last() == tags@[i as int]@);
        if i > 0 {
            out.append(", ");
        }
        out.append(tags[i].as_str());
        i = i + 1;
    }
    assert(views(tags@).take(tags.len() as int) == views(tags@));
    out
}

/// The tag part of a listing line (see [`tags_part`]).
pub fn tags_suffix(tags: &Vec<String>, show: bool) -> (r: String)
    ensures
        r@ == tags_part(views(tags@), show),
{
    if show && tags.len() > 0 {
        let mut s = " [".to_owned();
        s.append(join_tags(tags).as_str());
        s.append("]");
        s
    } else {
        String::new()
    }
}

/// What `unicode_width` reports as the display width of a string, in
/// terminal columns.
pub uninterp spec fn text_width(s: Seq<char>) -> nat;

/// Whether every character of `s` is printable ASCII (`' '` to `~`).
pub open spec fn printable_ascii(s: Seq<char>) -> bool {
    forall|i: int| 0 <= i < s.len() ==> ' ' <= #[trigger] s[i] && s[i] <= '~'
}

/// `UnicodeWidthStr::width`: claims the result is the crate's column width
/// of the string, named [`text_width`], and that printable ASCII text takes
/// one column per character.
#[verifier::external_body]
fn display_width(s: &str) -> (r: usize)
    ensures
        r == text_width(s@),
        printable_ascii(s@) ==> r == s@.len(),
{
    unicode_width::UnicodeWidthStr::width(s)
}

/// The name cell of the long listing: the icon, two spaces and the name,
/// padded with spaces to `width` columns (never cut).
pub open spec fn name_cell_spec(icon: Seq<char>, name: Seq<char>, width: nat) -> Seq<char> {
    let text = icon + "  "@ + name;
    let w = text_width(text);
    if w < width {
        text + Seq::new((width - w) as nat, |i: int| ' ')
    } else {
        text
    }
}

/// The name cell of the long listing (see [`name_cell_spec`]).
pub fn name_cell(icon: &str, name: &str, width: usize) -> (r: String)
    ensures
        r@ == name_cell_spec(icon@, name@, width as nat),
{
    let mut text = icon.to_owned();
    text.append("  ");
    text.append(name);
    let w = display_width(text.as_str());
    if w < width {
        let ghost base = text@;
        let mut k: usize = 0;
        while k < width - w
            invariant
                k <= width - w,
                text@ == base + Seq::new(k as nat, |i: int| ' '),
            decreases width - w - k,
        {
            push_char(&mut text, ' ');
            assert(text@ =~= base + Seq::new((k + 1) as nat, |i: int| ' '));
            k = k + 1;
        }
    }
    text
}

/// Whether an entry name is hidden: it starts with `.`.
pub fn is_hidden_name(name: &str) -> (r: bool)
    ensures
        r == (name@.len() > 0 && name@[0] == '.'),
{
    let cs = chars_of(name);
    cs.len() > 0 && cs[0] == '.'
}

/// Whether one of the folders holding an entry (their names, innermost or
/// outermost first) is a `.gdb` folder, which listings skip into.
pub open spec fn within_gdb(folders: Seq<Seq<char>>) -> bool {
    exists|i: int| 0 <= i < folders.len() && ends_with(#[trigger] folders[i], ".gdb"@)
}

/// Whether an entry lies inside a `.gdb` folder (see [`within_gdb`]).
pub fn in_gdb_folder(folders: &Vec<String>) -> (r: bool)
    ensures
        r == within_gdb(views(folders@)),
{
    let mut suffix: Vec<char> = Vec::new();
    suffix.push('.');
    suffix.push('g');
    suffix.push('d');
    suffix.push('b');
    proof {
        reveal_strlit(".gdb");
    }
    assert(suffix@ =~= ".gdb"@);
    let mut i: usize = 0;
    while i < folders.len()
        invariant
            i <= folders@.len(),
            suffix@ == ".gdb"@,
            forall|j: int| 0 <= j < i ==> !ends_with(#[trigger] views(folders@)[j], ".gdb"@),
        decreases folders.len() - i,
    {
        let name = chars_of(folders[i].as_str());
        assert(views(folders@)[i as int] == name@);
        if chars_end_with(&name, &suffix) {
            return true;
        }
        i = i + 1;
    }
    false
}

/// `n` spaces.
pub open spec fn spaces(n: nat) -> Seq<char> {
    Seq::new(n, |i: int| ' ')
}

/// Appends `n` copies of `c`.
fn push_n(s: &mut String, c: char, n: usize)
    ensures
        final(s)@ == old(s)@ + Seq::new(n as nat, |i: int| c),
{
    let ghost base = s@;
    let mut k: usize = 0;
    while k < n
        invariant
            k <= n,
            s@ == base + Seq::new(k as nat, |i: int| c),
        decreases n - k,
    {
        push_char(s, c);
        assert(s@ =~= base + Seq::new((k + 1) as nat, |i: int| c));
        k = k + 1;
    }
}

/// The widths of the long listing's columns for a terminal `term` columns
/// wide: the name gets what the fixed columns (number 3, dates 16 each,
/// size 10, tags 20 when shown) and the borders leave, at least 20.
pub open spec fn column_widths_spec(term: nat, show_tags: bool) -> (nat, nat, nat, nat, nat) {
    let fixed: int = 3 + 16 + 16 + 10 + if show_tags { 20int } else { 0int };
    let borders: int = if show_tags { 19int } else { 16int };
    let left: int = if term >= fixed + borders { term - fixed - borders } else { 0 };
    let name: nat = if left < 20 { 20 } else { left as nat };
    (name, 16, 16, 10, if show_tags { 20 } else { 0 })
}

/// The widths of the long listing's columns (see [`column_widths_spec`]).
pub fn column_widths(term_width: usize, show_tags: bool) -> (r: (usize, usize, usize, usize, usize))
    ensures
        (r.0 as nat, r.1 as nat, r.2 as nat, r.3 as nat, r.4 as nat) == column_widths_spec(term_width as nat, show_tags),
{
    let fixed: usize = if show_tags { 65 } else { 45 };
    let borders: usize = if show_tags { 19 } else { 16 };
    let left: usize = if term_width >= fixed + borders { term_width - fixed - borders } else { 0 };
    let name: usize = if left < 20 { 20 } else { left };
    (name, 16, 16, 10, if show_tags { 20 } else { 0 })
}

/// Text cut to at most `width` characters: longer text keeps its first
/// `width - 3` characters and ends in `...` (when `width` is at most 3, its
/// first `width` characters).
pub open spec fn truncated(s: Seq<char>, width: nat) -> Seq<char> {
    if s.len() <= width {
        s
    } else if width <= 3 {
        s.take(width as int)
    } else {
        s.take(width - 3) + "..."@
    }
}

/// Cuts text to at most `width` characters (see [`truncated`]).
pub fn truncate_string(s: &str, width: usize) -> (r: String)
    ensures
        r@ == truncated(s@, width as nat),
{
    let cs = chars_of(s);
    if cs.len() <= width {
        s.to_owned()
    } else if width <= 3 {
        string_of_range(&cs, 0, width)
    } else {
        let mut out = string_of_range(&cs, 0, width - 3);
        out.append("...");
        out
    }
}

/// Text padded with spaces on the right to `width` columns (never cut).
pub open spec fn padded(s: Seq<char>, width: nat) -> Seq<char> {
    if text_width(s) < width {
        s + spaces((width - text_width(s)) as nat)
    } else {
        s
    }
}

/// Pads text to `width` columns (see [`padded`]).
pub fn pad_to_width(s: &str, width: usize) -> (r: String)
    ensures
        r@ == padded(s@, width as nat),
{
    let w = display_width(s);
    let mut out = s.to_owned();
    if w < width {
        push_n(&mut out, ' ', width - w);
    }
    out
}

/// Text centred in `width` columns: half the free columns (rounded down)
/// before it, the rest after it; never cut.
pub open spec fn centered(s: Seq<char>, width: nat) -> Seq<char> {
    let w = text_width(s);
    if w >= width {
        s
    } else {
        let free = (width - w) as nat;
        spaces(free / 2) + s + spaces((free - free / 2) as nat)
    }
}

/// Centres text in `width` columns (see [`centered`]).
pub fn center_text(s: &str, width: usize) -> (r: String)
    ensures
        r@ == centered(s@, width as nat),
{
    let w = display_width(s);
    if w >= width {
        return s.to_owned();
    }
    let free = width - w;
    let mut out = String::new();
    push_n(&mut out, ' ', free / 2);
    out.append(s);
    push_n(&mut out, ' ', free - free / 2);
    assert(out@ =~= centered(s@, width as nat));
    out
}

/// A border line of the long listing: `+`, then for each column its width
/// plus two in `-`, then `+`.
pub open spec fn separator_line(widths: Seq<usize>) -> Seq<char>
    decreases widths.len(),
{
    if widths.len() == 0 {
        seq!['+']
    } else {
        separator_line(widths.drop_last()) + Seq::new((widths.last() + 2) as nat, |i: int| '-') + seq!['+']
    }
}

/// A border line of the long listing (see [`separator_line`]).
pub fn make_separator(widths: &[usize]) -> (r: String)
    ensures
        r@ == separator_line(widths@),
{
    let mut out = String::new();
    push_char(&mut out, '+');
    assert(out@ =~= seq!['+']);
    let mut i: usize = 0;
    while i < widths.len()
        invariant
            i <= widths@.len(),
            out@ == separator_line(widths@.take(i as int)),
        decreases widths.len() - i,
    {
        let ghost before = out@;
        let w = widths[i];
        push_n(&mut out, '-', w);
        push_char(&mut out, '-');
        push_char(&mut out, '-');
        push_char(&mut out, '+');
        assert(widths@.take(i + 1).drop_last() =~= widths@.take(i as int));
        assert(widths@.take(i + 1).last() == w);
        assert(out@ =~= before + Seq::new((w + 2) as nat, |k: int| '-') + seq!['+']);
        i = i + 1;
    }
    assert(widths@.take(widths@.len() as int) =~= widths@);
    out
}

/// Every index placed by [`insert_index`] is `i` or one of `order`.
proof fn lemma_insert_index_members(order: Seq<int>, i: int, keys: Seq<Seq<char>>)
    ensures
        insert_index(order, i, keys).len() == order.len() + 1,
        forall|x: int| #[trigger] insert_index(order, i, keys).contains(x) ==> x == i || order.contains(x),
    decreases order.len(),
{
    if order.len() > 0 && !chars_le(keys[order.last()], keys[i]) {
        lemma_insert_index_members(order.drop_last(), i, keys);
        let r = insert_index(order, i, keys);
        let p = insert_index(order.drop_last(), i, keys);
        assert forall|x: int| #[trigger] r.contains(x) implies x == i || order.contains(x) by {
            let w = choose|w: int| 0 <= w < r.len() && r[w] == x;
            if w < p.len() {
                assert(p[w] == x);
                assert(p.contains(x));
                if x != i {
                    let v = choose|v: int| 0 <= v < order.drop_last().len() && order.drop_last()[v] == x;
                    assert(order[v] == x);
                }
            } else {
                assert(x == order.last());
                assert(order[order.len() - 1] == x);
            }
        }
    } else if order.len() > 0 {
        let r = insert_index(order, i, keys);
        assert forall|x: int| #[trigger] r.contains(x) implies x == i || order.contains(x) by {
            let w = choose|w: int| 0 <= w < r.len() && r[w] == x;
            if w < order.len() {
                assert(order[w] == x);
            }
        }
    } else {
        assert forall|x: int| #[trigger] insert_index(order, i, keys).contains(x) implies x == i || order.contains(x) by {
            assert(insert_index(order, i, keys) == seq![i]);
        }
    }
}

/// The order of `n` entries holds only indices below `n`, `n` of them.
proof fn lemma_order_by_keys_range(n: nat, keys: Seq<Seq<char>>)
    ensures
        order_by_keys(n, keys).len() == n,
        forall|j: int| 0 <= j < n ==> 0 <= #[trigger] order_by_keys(n, keys)[j] < n,
    decreases n,
{
    if n > 0 {
        let prev = order_by_keys((n - 1) as nat, keys);
        lemma_order_by_keys_range((n - 1) as nat, keys);
        lemma_insert_index_members(prev, n - 1, keys);
        let r = order_by_keys(n, keys);
        assert forall|j: int| 0 <= j < n implies 0 <= #[trigger] r[j] < n by {
            assert(r.contains(r[j]));
            if r[j] != n - 1 {
                let v = choose|v: int| 0 <= v < prev.len() && prev[v] == r[j];
                assert(0 <= prev[v] < n - 1);
            }
        }
    }
}

/// The positions whose flag is `want`, in order.
pub open spec fn indices_where(flags: Seq<bool>, want: bool) -> Seq<int>
    decreases flags.len(),
{
    if flags.len() == 0 {
        Seq::empty()
    } else {
        let p = indices_where(flags.drop_last(), want);
        if flags.last() == want {
            p.push(flags.len() - 1)
        } else {
            p
        }
    }
}

/// The entries at positions `idx`, ordered by lower-cased name (stable).
pub open spec fn sorted_group(names: Seq<Seq<char>>, idx: Seq<int>) -> Seq<int> {
    order_by_keys(idx.len(), name_keys(idx.map_values(|i: int| names[i]))).map_values(|j: int| idx[j])
}

/// The order of a listing: the directories, then the other entries, each
/// group by lower-cased name, keeping listing order among equal names.
pub open spec fn listing_order_spec(names: Seq<Seq<char>>, is_dir: Seq<bool>) -> Seq<int> {
    sorted_group(names, indices_where(is_dir, true)) + sorted_group(names, indices_where(is_dir, false))
}

/// The positions of one group, by name (see [`sorted_group`]).
fn group_order(names: &Vec<String>, is_dir: &Vec<bool>, want: bool) -> (r: Vec<usize>)
    requires
        names@.len() == is_dir@.len(),
    ensures
        r@.map_values(|x: usize| x as int) == sorted_group(views(names@), indices_where(is_dir@, want)),
{
    let ghost nv = views(names@);
    let mut idx: Vec<usize> = Vec::new();
    let mut sel: Vec<String> = Vec::new();
    let mut i: usize = 0;
    while i < is_dir.len()
        invariant
            i <= is_dir@.len(),
            names@.len() == is_dir@.len(),
            nv == views(names@),
            idx@.map_values(|x: usize| x as int) == indices_where(is_dir@.take(i as int), want),
            views(sel@) == idx@.map_values(|x: usize| x as int).map_values(|k: int| nv[k]),
        decreases is_dir.len() - i,
    {
        let ghost before = idx@.map_values(|x: usize| x as int);
        assert(is_dir@.take(i + 1).drop_last() =~= is_dir@.take(i as int));
        assert(is_dir@.take(i + 1).last() == is_dir@[i as int]);
        if is_dir[i] == want {
            let ghost sv = views(sel@);
            idx.push(i);
            sel.push(names[i].clone());
            assert(idx@.map_values(|x: usize| x as int) =~= before.push(i as int));
            assert(views(sel@) =~= sv.push(nv[i as int]));
            assert(views(sel@) =~= idx@.map_values(|x: usize| x as int).map_values(|k: int| nv[k]));
        }
        i = i + 1;
    }
    assert(is_dir@.take(is_dir@.len() as int) =~= is_dir@);
    let ghost iv = idx@.map_values(|x: usize| x as int);
    let ord = order_by_name(&sel);
    let ghost ov = ord@.map_values(|x: usize| x as int);
    proof {
        assert(views(sel@) =~= iv.map_values(|k: int| nv[k]));
        lemma_order_by_keys_range(sel@.len() as nat, name_keys(views(sel@)));
    }
    let mut out: Vec<usize> = Vec::new();
    let mut k: usize = 0;
    while k < ord.len()
        invariant
            k <= ord@.len(),
            ord@.len() == idx@.len(),
            ov == ord@.map_values(|x: usize| x as int),
            iv == idx@.map_values(|x: usize| x as int),
            forall|j: int| 0 <= j < ord@.len() ==> 0 <= #[trigger] ov[j] < idx@.len(),
            out@.map_values(|x: usize| x as int) == ov.take(k as int).map_values(|j: int| iv[j]),
        decreases ord.len() - k,
    {
        let ghost before = out@.map_values(|x: usize| x as int);
        assert(ov[k as int] == ord@[k as int] as int);
        let x = idx[ord[k]];
        assert(x as int == iv[ov[k as int]]);
        out.push(x);
        assert(out@.map_values(|y: usize| y as int) =~= before.push(x as int));
        assert(ov.take(k + 1).map_values(|j: int| iv[j]) =~= ov.take(k as int).map_values(|j: int| iv[j]).push(
            iv[ov[k as int]],
        ));
        k = k + 1;
    }
    assert(ov.take(ord@.len() as int) =~= ov);
    out
}

/// The order a listing shows its entries in (see [`listing_order_spec`]),
/// as positions into `names`.
pub fn listing_order(names: &Vec<String>, is_dir: &Vec<bool>) -> (r: Vec<usize>)
    requires
        names@.len() == is_dir@.len(),
    ensures
        r@.map_values(|x: usize| x as int) == listing_order_spec(views(names@), is_dir@),
{
    let mut dirs = group_order(names, is_dir, true);
    let files = group_order(names, is_dir, false);
    let ghost d = dirs@.map_values(|x: usize| x as int);
    let ghost f = files@.map_values(|x: usize| x as int);
    let mut i: usize = 0;
    while i < files.len()
        invariant
            i <= files@.len(),
            f == files@.map_values(|x: usize| x as int),
            dirs@.map_values(|x: usize| x as int) == d + f.take(i as int),
        decreases files.len() - i,
    {
        let ghost before = dirs@.map_values(|x: usize| x as int);
        let x = files[i];
        assert(x as int == f[i as int]);
        dirs.push(x);
        assert(dirs@.map_values(|y: usize| y as int) =~= before.push(x as int));
        assert(f.take(i + 1) =~= f.take(i as int).push(f[i as int]));
        assert(d + f.take(i + 1) =~= (d + f.take(i as int)).push(f[i as int]));
        i = i + 1;
    }
    assert(f.take(files@.len() as int) =~= f);
    dirs
}

/// The short listing: one line per entry (icon, shown name, shown tags),
/// numbered from 1.
pub open spec fn short_listing(rows: Seq<(Seq<char>, Seq<char>, Seq<char>)>) -> Seq<char>
    decreases rows.len(),
{
    if rows.len() == 0 {
        Seq::empty()
    } else {
        short_listing(rows.drop_last()) + short_line_spec(rows.len(), rows.last().0, rows.last().1, rows.last().2)
    }
}

/// The views of listing rows.
pub open spec fn rows_view(v: Seq<(String, String, String)>) -> Seq<(Seq<char>, Seq<char>, Seq<char>)> {
    v.map_values(|r: (String, String, String)| (r.0@, r.1@, r.2@))
}

/// The short listing (see [`short_listing`]); each row is the icon, the
/// name and the tag suffix as they are to be shown.
pub fn render_short_format(rows: &Vec<(String, String, String)>) -> (r: String)
    ensures
        r@ == short_listing(rows_view(rows@)),
{
    let mut out = String::new();
    let mut k: usize = 0;
    while k < rows.len()
        invariant
            k <= rows@.len(),
            out@ == short_listing(rows_view(rows@).take(k as int)),
        decreases rows.len() - k,
    {
        let line = short_line(k + 1, rows[k].0.as_str(), rows[k].1.as_str(), rows[k].2.as_str());
        out.append(line.as_str());
        assert(rows_view(rows@).take(k + 1).drop_last() =~= rows_view(rows@).take(k as int));
        assert(rows_view(rows@).take(k + 1).last() == (rows@[k as int].0@, rows@[k as int].1@, rows@[k as int].2@));
        k = k + 1;
    }
    assert(rows_view(rows@).take(rows@.len() as int) =~= rows_view(rows@));
    out
}

proof fn lemma_indices_where_flags(flags: Seq<bool>, want: bool)
    ensures
        forall|m: int| 0 <= m < indices_where(flags, want).len() ==> 0 <= #[trigger] indices_where(flags, want)[m]
            < flags.len() && flags[indices_where(flags, want)[m]] == want,
    decreases flags.len(),
{
    if flags.len() > 0 {
        lemma_indices_where_flags(flags.drop_last(), want);
        let p = indices_where(flags.drop_last(), want);
        let r = indices_where(flags, want);
        assert forall|m: int| 0 <= m < r.len() implies 0 <= #[trigger] r[m] < flags.len() && flags[r[m]] == want by {
            if m < p.len() {
                assert(r[m] == p[m]);
                assert(flags[p[m]] == flags.drop_last()[p[m]]);
            }
        }
    }
}

proof fn lemma_sorted_group_members(names: Seq<Seq<char>>, flags: Seq<bool>, want: bool)
    ensures
        sorted_group(names, indices_where(flags, want)).len() == indices_where(flags, want).len(),
        forall|m: int| 0 <= m < sorted_group(names, indices_where(flags, want)).len() ==> 0 <= #[trigger] sorted_group(
            names,
            indices_where(flags, want),
        )[m] < flags.len() && flags[sorted_group(names, indices_where(flags, want))[m]] == want,
{
    let idx = indices_where(flags, want);
    lemma_indices_where_flags(flags, want);
    let keys = name_keys(idx.map_values(|i: int| names[i]));
    lemma_order_by_keys_range(idx.len(), keys);
    let o = order_by_keys(idx.len(), keys);
    let g = sorted_group(names, idx);
    assert forall|m: int| 0 <= m < g.len() implies 0 <= #[trigger] g[m] < flags.len() && flags[g[m]] == want by {
        assert(g[m] == idx[o[m]]);
    }
}

/// A listing shows every directory before every file, and names only
/// entries of the listing.
pub proof fn law_listing_shows_directories_first(names: Seq<Seq<char>>, is_dir: Seq<bool>)
    ensures
        forall|m: int| 0 <= m < listing_order_spec(names, is_dir).len() ==> 0 <= #[trigger] listing_order_spec(
            names,
            is_dir,
        )[m] < is_dir.len(),
        forall|i: int, j: int|
            0 <= i < j < listing_order_spec(names, is_dir).len() && is_dir[#[trigger] listing_order_spec(names, is_dir)[j]]
                ==> is_dir[#[trigger] listing_order_spec(names, is_dir)[i]],
{
    lemma_sorted_group_members(names, is_dir, true);
    lemma_sorted_group_members(names, is_dir, false);
    let d = sorted_group(names, indices_where(is_dir, true));
    let f = sorted_group(names, indices_where(is_dir, false));
    let r = listing_order_spec(names, is_dir);
    assert forall|m: int| 0 <= m < r.len() implies 0 <= #[trigger] r[m] < is_dir.len() by {
        if m < d.len() {
            assert(r[m] == d[m]);
        } else {
            assert(r[m] == f[m - d.len()]);
        }
    }
    assert forall|i: int, j: int| 0 <= i < j < r.len() && is_dir[#[trigger] r[j]] implies is_dir[#[trigger] r[i]] by {
        if j < d.len() {
            assert(r[i] == d[i]);
        } else {
            assert(r[j] == f[j - d.len()]);
            assert(!is_dir[f[j - d.len()]]);
        }
    }
}

} // verus!
