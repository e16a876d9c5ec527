//! Commands handed to the system shell: which of them are a plain `cd`,
//! where such a `cd` goes, how the command is wrapped so that the shell
//! reports its final directory, and which single line of its output is
//! passed down a command chain.

use vstd::prelude::*;
use crate::command::{has_shell_ops, has_shell_ops_spec};
use crate::text::{chars_of, push_char, starts_with, str_starts_with, string_of, trim, trim_range};

verus! {

/// Whether the command (without surrounding whitespace) is `cd ` followed
/// by a target, with no shell operator.
pub open spec fn is_cd_spec(cmd: Seq<char>) -> bool {
    let t = trim(cmd);
    starts_with(t, "cd "@) && !has_shell_ops_spec(t)
}

/// The command without surrounding whitespace.
fn trimmed(s: &str) -> (r: String)
    ensures
        r@ == trim(s@),
{
    let cs = chars_of(s);
    assert(cs@.subrange(0, cs@.len() as int) == s@);
    let t = trim_range(&cs, 0, cs.len());
    string_of(&t)
}

/// Whether the command is a plain `cd` (see [`is_cd_spec`]).
pub fn is_cd_command(cmd: &str) -> (r: bool)
    ensures
        r == is_cd_spec(cmd@),
{
    let t = trimmed(cmd);
    if !str_starts_with(t.as_str(), "cd ") {
        return false;
    }
    !has_shell_ops(t.as_str())
}

/// Where a plain `cd` goes: the words after `cd ` without surrounding
/// whitespace, or the home directory when there are none; nothing when the
/// command is not a `cd`.
pub open spec fn cd_target_spec(cmd: Seq<char>, home: Option<Seq<char>>) -> Option<Seq<char>> {
    let t = trim(cmd);
    if !starts_with(t, "cd "@) {
        None
    } else {
        let p = trim(t.skip(3));
        if p.len() == 0 {
            home
        } else {
            Some(p)
        }
    }
}

/// Where a plain `cd` goes (see [`cd_target_spec`]); `home` is the home
/// directory, if known.
pub fn parse_cd_target(cmd: &str, home: Option<String>) -> (r: Option<String>)
    ensures
        crate::cli::opt_view(r) == cd_target_spec(cmd@, crate::cli::opt_view(home)),
{
    let t = trimmed(cmd);
    if !str_starts_with(t.as_str(), "cd ") {
        return None;
    }
    proof {
        reveal_strlit("cd ");
    }
    let cs = chars_of(t.as_str());
    let p = trim_range(&cs, 3, cs.len());
    assert(cs@.subrange(3, cs@.len() as int) == t@.skip(3));
    if p.len() == 0 {
        home
    } else {
        Some(string_of(&p))
    }
}

/// The shell's stdout and stderr as shown: stdout, then a line break when
/// both are non-empty, then stderr.
pub open spec fn combined_spec(stdout: Seq<char>, stderr: Seq<char>) -> Seq<char> {
    if stdout.len() > 0 && stderr.len() > 0 {
        stdout + seq!['\n'] + stderr
    } else {
        stdout + stderr
    }
}

/// The shell's stdout and stderr as shown (see [`combined_spec`]).
pub fn combine_output(stdout: &str, stderr: &str) -> (r: String)
    ensures
        r@ == combined_spec(stdout@, stderr@),
{
    let mut out = stdout.to_owned();
    if !stderr.is_empty() {
        if !out.as_str().is_empty() {
            push_char(&mut out, '\n');
        }
        out.append(stderr);
    }
    out
}

/// The pieces of `s` between line feeds (one more than there are line
/// feeds).
pub open spec fn split_lf(s: Seq<char>) -> Seq<Seq<char>>
    decreases s.len(),
{
    if s.len() == 0 {
        seq![Seq::empty()]
    } else {
        let prev = split_lf(s.drop_last());
        if s.last() == '\n' {
            prev.push(Seq::empty())
        } else {
            prev.update(prev.len() - 1, prev.last().push(s.last()))
        }
    }
}

/// A line without one trailing carriage return.
pub open spec fn strip_cr(l: Seq<char>) -> Seq<char> {
    if l.len() > 0 && l.last() == '\r' {
        l.drop_last()
    } else {
        l
    }
}

/// The lines of `s` (`str::lines`): split at line feeds, without a last
/// empty piece after a final line feed, each without a trailing carriage
/// return.
pub open spec fn lines_of(s: Seq<char>) -> Seq<Seq<char>> {
    let pieces = if s.len() == 0 {
        Seq::empty()
    } else if s.last() == '\n' {
        split_lf(s).drop_last()
    } else {
        split_lf(s)
    };
    pieces.map_values(|l: Seq<char>| strip_cr(l))
}

proof fn lemma_split_lf_nonempty(s: Seq<char>)
    ensures
        split_lf(s).len() >= 1,
    decreases s.len(),
{
    if s.len() > 0 {
        lemma_split_lf_nonempty(s.drop_last());
    }
}

/// The pieces of `cs` between line feeds.
fn split_lf_exec(cs: &Vec<char>) -> (r: Vec<Vec<char>>)
    ensures
        r@.len() == split_lf(cs@).len(),
        forall|k: int| 0 <= k < r@.len() ==> #[trigger] r@[k]@ == split_lf(cs@)[k],
{
    let mut out: Vec<Vec<char>> = Vec::new();
    out.push(Vec::new());
    let mut i: usize = 0;
    while i < cs.len()
        invariant
            i <= cs.len(),
            out@.len() == split_lf(cs@.take(i as int)).len(),
            out@.len() >= 1,
            forall|k: int| 0 <= k < out@.len() ==> #[trigger] out@[k]@ == split_lf(cs@.take(i as int))[k],
        decreases cs.len() - i,
    {
        let ghost pre = cs@.take(i as int);
        let ghost cur = cs@.take(i + 1);
        assert(cur.drop_last() == pre);
        assert(cur.last() == cs@[i as int]);
        proof {
            lemma_split_lf_nonempty(pre);
        }
        let ghost before = out@;
        if cs[i] == '\n' {
            out.push(Vec::new());
            assert forall|k: int| 0 <= k < out@.len() implies #[trigger] out@[k]@ == split_lf(cur)[k] by {
                if k < before.len() {
                    assert(out@[k] == before[k]);
                }
            }
        } else {
            let last = out.len() - 1;
            let mut piece: Vec<char> = Vec::new();
            std::mem::swap(&mut piece, &mut out[last]);
            piece.push(cs[i]);
            out.set(last, piece);
            assert forall|k: int| 0 <= k < out@.len() implies #[trigger] out@[k]@ == split_lf(cur)[k] by {
                if k < last {
                    assert(out@[k] == before[k]);
                }
            }
        }
        i = i + 1;
    }
    assert(cs@.take(cs.len() as int) == cs@);
    out
}

/// Whether a line (without surrounding whitespace) looks like a path: on
/// Windows when it holds `:`, `\` or `/`, elsewhere when it holds `/`.
pub open spec fn looks_like_path(t: Seq<char>, windows: bool) -> bool {
    if windows {
        t.contains(':') || t.contains('\\') || t.contains('/')
    } else {
        t.contains('/')
    }
}

/// Whether a line (without surrounding whitespace) is a table header.
pub open spec fn is_header(t: Seq<char>) -> bool {
    starts_with(t, "----"@) || starts_with(t, "===="@) || starts_with(t, "Path"@)
}

/// The first non-blank line, trimmed.
pub open spec fn first_nonblank(lines: Seq<Seq<char>>) -> Option<Seq<char>>
    decreases lines.len(),
{
    if lines.len() == 0 {
        None
    } else if trim(lines[0]).len() > 0 {
        Some(trim(lines[0]))
    } else {
        first_nonblank(lines.drop_first())
    }
}

/// The first non-blank line that is no header and looks like a path,
/// trimmed.
pub open spec fn first_path_line(lines: Seq<Seq<char>>, windows: bool) -> Option<Seq<char>>
    decreases lines.len(),
{
    if lines.len() == 0 {
        None
    } else {
        let t = trim(lines[0]);
        if t.len() > 0 && !is_header(t) && looks_like_path(t, windows) {
            Some(t)
        } else {
            first_path_line(lines.drop_first(), windows)
        }
    }
}

/// `s` without line feeds and carriage returns.
pub open spec fn without_breaks(s: Seq<char>) -> Seq<char> {
    s.filter(|c: char| c != '\n' && c != '\r')
}

/// The single line of shell output passed down a chain: the only line
/// (trimmed) when there is one; otherwise the first path-like line, else the
/// first non-blank line, else nothing; never with a line break.
pub open spec fn raw_output_spec(display: Seq<char>, windows: bool) -> Seq<char> {
    let lines = lines_of(display);
    let pick = if lines.len() == 1 {
        trim(lines[0])
    } else {
        match first_path_line(lines, windows) {
            Some(p) => p,
            None => match first_nonblank(lines) {
                Some(f) => f,
                None => Seq::empty(),
            },
        }
    };
    without_breaks(pick)
}

/// Whether `t` holds `c`.
fn has_char(t: &Vec<char>, c: char) -> (r: bool)
    ensures
        r == t@.contains(c),
{
    let mut i: usize = 0;
    while i < t.len()
        invariant
            i <= t.len(),
            forall|j: int| 0 <= j < i ==> t@[j] != c,
        decreases t.len() - i,
    {
        if t[i] == c {
            assert(t@[i as int] == c);
            return true;
        }
        i = i + 1;
    }
    false
}

/// Whether `t` starts with the characters of `p`.
fn starts(t: &Vec<char>, p: &str) -> (r: bool)
    ensures
        r == starts_with(t@, p@),
{
    let s = string_of(t);
    str_starts_with(s.as_str(), p)
}

/// The lines of `display` (see [`lines_of`]), trimmed.
fn trimmed_lines(display: &str) -> (r: Vec<Vec<char>>)
    ensures
        r@.len() == lines_of(display@).len(),
        forall|k: int| 0 <= k < r@.len() ==> #[trigger] r@[k]@ == trim(lines_of(display@)[k]),
{
    let cs = chars_of(display);
    let pieces = split_lf_exec(&cs);
    let ghost sp = split_lf(cs@);
    let ghost kept = if cs@.len() == 0 {
        Seq::<Seq<char>>::empty()
    } else if cs@.last() == '\n' {
        sp.drop_last()
    } else {
        sp
    };
    let n: usize = if cs.len() == 0 {
        0
    } else if cs[cs.len() - 1] == '\n' {
        proof {
            lemma_split_lf_nonempty(cs@);
        }
        pieces.len() - 1
    } else {
        pieces.len()
    };
    assert(n == kept.len());
    assert(lines_of(display@).len() == kept.len());
    assert(forall|j: int| 0 <= j < kept.len() ==> #[trigger] lines_of(display@)[j] == strip_cr(kept[j]));
    let mut out: Vec<Vec<char>> = Vec::new();
    let mut k: usize = 0;
    while k < n
        invariant
            k <= n,
            n == kept.len(),
            n <= pieces@.len(),
            cs@ == display@,
            pieces@.len() == sp.len(),
            forall|j: int| 0 <= j < pieces@.len() ==> #[trigger] pieces@[j]@ == sp[j],
            forall|j: int| 0 <= j < kept.len() ==> #[trigger] kept[j] == sp[j],
            lines_of(display@).len() == kept.len(),
            forall|j: int| 0 <= j < kept.len() ==> #[trigger] lines_of(display@)[j] == strip_cr(kept[j]),
            out@.len() == k,
            forall|j: int| 0 <= j < k ==> #[trigger] out@[j]@ == trim(lines_of(display@)[j]),
        decreases n - k,
    {
        let p = &pieces[k];
        let mut end = p.len();
        if end > 0 && p[end - 1] == '\r' {
            end = end - 1;
        }
        assert(lines_of(display@)[k as int] == strip_cr(kept[k as int]));
        assert(p@.subrange(0, end as int) == strip_cr(p@));
        let t = trim_range(p, 0, end);
        out.push(t);
        k = k + 1;
    }
    out
}

/// The single line of shell output passed down a chain (see
/// [`raw_output_spec`]).
pub fn extract_raw_output(display: &str, windows: bool) -> (r: String)
    ensures
        r@ == raw_output_spec(display@, windows),
{
    let lines = trimmed_lines(display);
    let ghost ls = lines_of(display@);
    let mut pick: Vec<char> = Vec::new();
    if lines.len() == 1 {
        pick = lines[0].clone();
    } else {
        let mut first: Option<usize> = None;
        let mut found: Option<usize> = None;
        let mut i: usize = 0;
        assert(ls.skip(0) =~= ls);
        while i < lines.len() && found.is_none()
            invariant
                i <= lines@.len(),
                lines@.len() == ls.len(),
                forall|k: int| 0 <= k < lines@.len() ==> #[trigger] lines@[k]@ == trim(ls[k]),
                match found {
                    Some(j) => j < lines@.len() && first_path_line(ls, windows) == Some(trim(ls[j as int])),
                    None => first_path_line(ls, windows) == first_path_line(ls.skip(i as int), windows),
                },
                match first {
                    Some(f) => f < lines@.len() && first_nonblank(ls) == Some(trim(ls[f as int])),
                    None => first_nonblank(ls) == first_nonblank(ls.skip(i as int)),
                },
            decreases lines.len() - i,
        {
            let t = &lines[i];
            assert(ls.skip(i as int)[0] == ls[i as int]);
            assert(ls.skip(i as int).drop_first() == ls.skip(i + 1));
            if t.len() > 0 {
                if first.is_none() {
                    first = Some(i);
                }
                let header = starts(t, "----") || starts(t, "====") || starts(t, "Path");
                let pathy = if windows {
                    has_char(t, ':') || has_char(t, '\\') || has_char(t, '/')
                } else {
                    has_char(t, '/')
                };
                if !header && pathy {
                    found = Some(i);
                }
            }
            i = i + 1;
        }
        match found {
            Some(j) => {
                pick = lines[j].clone();
            },
            None => {
                assert(i == lines.len());
                assert(first_path_line(ls.skip(lines.len() as int), windows) is None);
                match first {
                    Some(f) => {
                        pick = lines[f].clone();
                    },
                    None => {
                        assert(first_nonblank(ls.skip(lines.len() as int)) is None);
                    },
                }
            },
        }
    }
    let mut out = String::new();
    let mut k: usize = 0;
    let ghost f = |c: char| c != '\n' && c != '\r';
    while k < pick.len()
        invariant
            k <= pick.len(),
            f == (|c: char| c != '\n' && c != '\r'),
            out@ == pick@.take(k as int).filter(f),
        decreases pick.len() - k,
    {
        reveal_with_fuel(Seq::filter, 1);
        assert(pick@.take(k + 1).drop_last() == pick@.take(k as int));
        let c = pick[k];
        if c != '\n' && c != '\r' {
            push_char(&mut out, c);
        }
        k = k + 1;
    }
    assert(pick@.take(pick.len() as int) == pick@);
    out
}

/// The shell that runs a command.
#[derive(Debug, Clone, Copy, PartialEq, Eq)]
pub enum ShellKind {
    /// `sh -c`.
    Posix,
    /// `powershell.exe -Command`.
    PowerShell,
    /// `cmd /c`.
    Cmd,
}

/// The command handed to the shell: the user's command, then one that
/// writes the final working directory to `pwd_file`.
pub open spec fn wrapped_spec(input: Seq<char>, pwd_file: Seq<char>, kind: ShellKind) -> Seq<char> {
    match kind {
        ShellKind::Posix => input + "; pwd > "@ + pwd_file,
        ShellKind::PowerShell => "& { "@ + input + "; (Get-Location).Path | Out-File -FilePath '"@ + pwd_file
            + "' -Encoding UTF8 }"@,
        ShellKind::Cmd => input + " & cd > \""@ + pwd_file + "\""@,
    }
}

/// The command handed to the shell (see [`wrapped_spec`]).
pub fn wrap_shell_command(input: &str, pwd_file: &str, kind: ShellKind) -> (r: String)
    ensures
        r@ == wrapped_spec(input@, pwd_file@, kind),
{
    match kind {
        ShellKind::Posix => {
            let mut s = input.to_owned();
            s.append("; pwd > ");
            s.append(pwd_file);
            s
        },
        ShellKind::PowerShell => {
            let mut s = "& { ".to_owned();
            s.append(input);
            s.append("; (Get-Location).Path | Out-File -FilePath '");
            s.append(pwd_file);
            s.append("' -Encoding UTF8 }");
            s
        },
        ShellKind::Cmd => {
            let mut s = input.to_owned();
            s.append(" & cd > \"");
            s.append(pwd_file);
            s.append("\"");
            s
        },
    }
}

} // verus!
