//! Interactive commands: which command a line names, and what the words of
//! `cd`, `open`, `cpf` and `mv` ask for. Words after `-r` are line
//! references into the last listing; the caller resolves them.

use vstd::prelude::*;
use crate::cli::{opt_view, joined_path, words, join_path};
use crate::managers::alias::{AliasManager, resolve_spec};
use crate::numbers::{parsed_usize, parse_usize};
use crate::select::{all_ascii, ascii_lower, ends_with, lowercase, to_lowercase};
use crate::text::{chars_of, join_spaces, join_with_spaces, str_eq, views};

verus! {

/// The commands of the interactive loop.
#[derive(Debug, Clone, Copy, PartialEq, Eq)]
pub enum CommandKind {
    Rfe,
    Pwd,
    Cppwd,
    Cpf,
    Cd,
    Ls,
    Open,
    Mv,
    Alias,
    Tag,
    Exit,
    Clear,
    Help,
    Welcome,
    Mkdf,
    Change,
    /// Anything else goes to the system shell.
    Shell,
}

/// The command a (lower-cased) name stands for.
pub open spec fn kind_of(name: Seq<char>) -> CommandKind {
    if name == "rfe"@ {
        CommandKind::Rfe
    } else if name == "pwd"@ {
        CommandKind::Pwd
    } else if name == "cppwd"@ {
        CommandKind::Cppwd
    } else if name == "cpf"@ {
        CommandKind::Cpf
    } else if name == "cd"@ {
        CommandKind::Cd
    } else if name == "ls"@ {
        CommandKind::Ls
    } else if name == "open"@ {
        CommandKind::Open
    } else if name == "mv"@ {
        CommandKind::Mv
    } else if name == "alias"@ {
        CommandKind::Alias
    } else if name == "tag"@ || name == "t"@ {
        CommandKind::Tag
    } else if name == "exit"@ || name == "quit"@ || name == "q"@ {
        CommandKind::Exit
    } else if name == "clear"@ || name == "cls"@ {
        CommandKind::Clear
    } else if name == "help"@ || name == "?"@ {
        CommandKind::Help
    } else if name == "welcome"@ {
        CommandKind::Welcome
    } else if name == "mkdf"@ {
        CommandKind::Mkdf
    } else if name == "change"@ {
        CommandKind::Change
    } else {
        CommandKind::Shell
    }
}

/// The command named by a first word, compared in lower case (for an
/// all-ASCII word, with `A`-`Z` read as `a`-`z`).
pub fn classify_command(word: &str) -> (r: CommandKind)
    ensures
        r == kind_of(lowercase(word@)),
        all_ascii(word@) ==> r == kind_of(word@.map_values(|c: char| ascii_lower(c))),
{
    let low = to_lowercase(word);
    kind_of_name(low.as_str())
}

/// The command a name stands for, compared as it is.
pub fn kind_of_name(n: &str) -> (r: CommandKind)
    ensures
        r == kind_of(n@),
{
    if str_eq(n, "rfe") {
        CommandKind::Rfe
    } else if str_eq(n, "pwd") {
        CommandKind::Pwd
    } else if str_eq(n, "cppwd") {
        CommandKind::Cppwd
    } else if str_eq(n, "cpf") {
        CommandKind::Cpf
    } else if str_eq(n, "cd") {
        CommandKind::Cd
    } else if str_eq(n, "ls") {
        CommandKind::Ls
    } else if str_eq(n, "open") {
        CommandKind::Open
    } else if str_eq(n, "mv") {
        CommandKind::Mv
    } else if str_eq(n, "alias") {
        CommandKind::Alias
    } else if str_eq(n, "tag") || str_eq(n, "t") {
        CommandKind::Tag
    } else if str_eq(n, "exit") || str_eq(n, "quit") || str_eq(n, "q") {
        CommandKind::Exit
    } else if str_eq(n, "clear") || str_eq(n, "cls") {
        CommandKind::Clear
    } else if str_eq(n, "help") || str_eq(n, "?") {
        CommandKind::Help
    } else if str_eq(n, "welcome") {
        CommandKind::Welcome
    } else if str_eq(n, "mkdf") {
        CommandKind::Mkdf
    } else if str_eq(n, "change") {
        CommandKind::Change
    } else {
        CommandKind::Shell
    }
}

/// Whether a line holds a shell operator (`&`, `|`, `;`, `>` or `<`).
pub open spec fn has_shell_ops_spec(s: Seq<char>) -> bool {
    exists|i: int| 0 <= i < s.len() && #[trigger] is_shell_op(s[i])
}

/// The characters that make `cd` a shell command.
pub open spec fn is_shell_op(c: char) -> bool {
    c == '&' || c == '|' || c == ';' || c == '>' || c == '<'
}

/// Whether a line holds a shell operator.
pub fn has_shell_ops(input: &str) -> (r: bool)
    ensures
        r == has_shell_ops_spec(input@),
{
    let cs = chars_of(input);
    let mut i: usize = 0;
    while i < cs.len()
        invariant
            i <= cs.len(),
            cs@ == input@,
            forall|j: int| 0 <= j < i ==> !#[trigger] is_shell_op(cs@[j]),
        decreases cs.len() - i,
    {
        let c = cs[i];
        if c == '&' || c == '|' || c == ';' || c == '>' || c == '<' {
            assert(is_shell_op(cs@[i as int]));
            return true;
        }
        i = i + 1;
    }
    false
}

/// A path word: resolved already, or a line reference into the last
/// listing.
#[derive(Debug, Clone, PartialEq, Eq)]
pub enum PathPiece {
    Path(String),
    Line(String),
}

/// A path word as a value.
pub enum PieceSpec {
    Path(Seq<char>),
    Line(Seq<char>),
}

/// The view of a path word.
pub open spec fn piece_view(p: PathPiece) -> PieceSpec {
    match p {
        PathPiece::Path(s) => PieceSpec::Path(s@),
        PathPiece::Line(s) => PieceSpec::Line(s@),
    }
}

/// The views of path words.
pub open spec fn pieces_view(v: Seq<PathPiece>) -> Seq<PieceSpec> {
    v.map_values(|p: PathPiece| piece_view(p))
}

/// Scans `cpf` words from `args[i]`: `-r` takes the next word as a line
/// reference (`None` when there is none), other words are paths.
pub open spec fn cpf_scan(
    aliases: Map<Seq<char>, Seq<char>>,
    args: Seq<Seq<char>>,
    i: int,
    pieces: Seq<PieceSpec>,
) -> Option<Seq<PieceSpec>>
    decreases args.len() - i,
{
    if i >= args.len() {
        Some(pieces)
    } else if args[i] == "-r"@ {
        if i + 1 >= args.len() {
            None
        } else {
            cpf_scan(aliases, args, i + 2, pieces.push(PieceSpec::Line(args[i + 1])))
        }
    } else {
        cpf_scan(aliases, args, i + 1, pieces.push(PieceSpec::Path(resolve_spec(aliases, args[i]))))
    }
}

/// Pushes a resolved path word.
fn push_path(v: &mut Vec<PathPiece>, alias_manager: &AliasManager, word: &str)
    ensures
        pieces_view(final(v)@) == pieces_view(old(v)@).push(PieceSpec::Path(resolve_spec(alias_manager@, word@))),
{
    let ghost before = pieces_view(v@);
    v.push(PathPiece::Path(alias_manager.resolve_path(word)));
    assert(pieces_view(v@) =~= before.push(PieceSpec::Path(resolve_spec(alias_manager@, word@))));
}

/// Pushes a line reference.
fn push_line(v: &mut Vec<PathPiece>, word: &String)
    ensures
        pieces_view(final(v)@) == pieces_view(old(v)@).push(PieceSpec::Line(word@)),
{
    let ghost before = pieces_view(v@);
    v.push(PathPiece::Line(word.clone()));
    assert(pieces_view(v@) =~= before.push(PieceSpec::Line(word@)));
}

/// The path words of `cpf` (the words after the command name).
pub fn plan_cpf(parts: &[String], alias_manager: &AliasManager) -> (r: Result<Vec<PathPiece>, String>)
    ensures
        match cpf_scan(alias_manager@, words(parts@), 1, Seq::empty()) {
            Some(p) => r matches Ok(v) && pieces_view(v@) == p,
            None => r matches Err(e) && e@ == "Usage: cpf -r <line_number>[/path]"@,
        },
{
    let ghost al = alias_manager@;
    let ghost av = words(parts@);
    let mut out: Vec<PathPiece> = Vec::new();
    let mut i: usize = 1;
    assert(pieces_view(out@) =~= Seq::<PieceSpec>::empty());
    while i < parts.len()
        invariant
            i >= 1,
            al == alias_manager@,
            av == words(parts@),
            av.len() == parts@.len(),
            cpf_scan(al, av, 1, Seq::empty()) == cpf_scan(al, av, i as int, pieces_view(out@)),
        decreases parts.len() - i,
    {
        assert(av[i as int] == parts@[i as int]@);
        if str_eq(parts[i].as_str(), "-r") {
            if i + 1 >= parts.len() {
                return Err("Usage: cpf -r <line_number>[/path]".to_owned());
            }
            assert(av[i + 1] == parts@[i + 1]@);
            push_line(&mut out, &parts[i + 1]);
            i = i + 2;
        } else {
            push_path(&mut out, alias_manager, parts[i].as_str());
            i = i + 1;
        }
    }
    Ok(out)
}

/// The resolved path words joined with spaces; with none, the piped input
/// when there is some.
pub open spec fn path_or_input_spec(paths: Seq<Seq<char>>, input_data: Seq<char>) -> Option<Seq<char>> {
    if paths.len() > 0 {
        Some(join_spaces(paths))
    } else if input_data.len() > 0 {
        Some(input_data)
    } else {
        None
    }
}

/// The resolved path words joined with spaces; with none, the piped input
/// when there is some.
pub fn path_or_input(paths: &Vec<String>, input_data: &str) -> (r: Option<String>)
    ensures
        opt_view(r) == path_or_input_spec(views(paths@), input_data@),
{
    if paths.len() > 0 {
        Some(join_with_spaces(paths))
    } else if !input_data.is_empty() {
        Some(input_data.to_owned())
    } else {
        None
    }
}

/// Scans `mv` words from `args[i]`: `--cp` asks for a copy, `-r` takes the
/// next word as a line reference (`None` when there is none), other words
/// are paths.
pub open spec fn mv_pieces_scan(
    aliases: Map<Seq<char>, Seq<char>>,
    args: Seq<Seq<char>>,
    i: int,
    copy: bool,
    pieces: Seq<PieceSpec>,
) -> Option<(bool, Seq<PieceSpec>)>
    decreases args.len() - i,
{
    if i >= args.len() {
        Some((copy, pieces))
    } else if args[i] == "--cp"@ {
        mv_pieces_scan(aliases, args, i + 1, true, pieces)
    } else if args[i] == "-r"@ {
        if i + 1 >= args.len() {
            None
        } else {
            mv_pieces_scan(aliases, args, i + 2, copy, pieces.push(PieceSpec::Line(args[i + 1])))
        }
    } else {
        mv_pieces_scan(aliases, args, i + 1, copy, pieces.push(PieceSpec::Path(resolve_spec(aliases, args[i]))))
    }
}

/// The copy switch and the path words of `mv`.
pub fn plan_mv(parts: &[String], alias_manager: &AliasManager) -> (r: Result<(bool, Vec<PathPiece>), String>)
    ensures
        match mv_pieces_scan(alias_manager@, words(parts@), 1, false, Seq::empty()) {
            Some((copy, p)) => r matches Ok((c, v)) && c == copy && pieces_view(v@) == p,
            None => r matches Err(e) && e@ == "Missing path after -r parameter"@,
        },
{
    let ghost al = alias_manager@;
    let ghost av = words(parts@);
    let mut out: Vec<PathPiece> = Vec::new();
    let mut copy = false;
    let mut i: usize = 1;
    assert(pieces_view(out@) =~= Seq::<PieceSpec>::empty());
    while i < parts.len()
        invariant
            i >= 1,
            al == alias_manager@,
            av == words(parts@),
            av.len() == parts@.len(),
            mv_pieces_scan(al, av, 1, false, Seq::empty()) == mv_pieces_scan(al, av, i as int, copy, pieces_view(out@)),
        decreases parts.len() - i,
    {
        assert(av[i as int] == parts@[i as int]@);
        if str_eq(parts[i].as_str(), "--cp") {
            copy = true;
            i = i + 1;
        } else if str_eq(parts[i].as_str(), "-r") {
            if i + 1 >= parts.len() {
                return Err("Missing path after -r parameter".to_owned());
            }
            assert(av[i + 1] == parts@[i + 1]@);
            push_line(&mut out, &parts[i + 1]);
            i = i + 2;
        } else {
            push_path(&mut out, alias_manager, parts[i].as_str());
            i = i + 1;
        }
    }
    Ok((copy, out))
}

/// Whether `mv` puts the source inside the destination: the destination
/// ends with `/` or `\\`, or names a directory on disk.
pub fn mv_into_directory(destination: &str, is_dir_on_disk: bool) -> (r: bool)
    ensures
        r == (ends_with(destination@, seq!['/']) || ends_with(destination@, seq!['\\']) || is_dir_on_disk),
{
    let cs = chars_of(destination);
    let n = cs.len();
    proof {
        if n > 0 {
            let t = destination@.skip(n - 1);
            assert(t =~= seq![cs@[n - 1]]);
            assert(t == seq!['/'] ==> t[0] == '/');
            assert(t == seq!['\\'] ==> t[0] == '\\');
        }
    }
    (n > 0 && (cs[n - 1] == '/' || cs[n - 1] == '\\')) || is_dir_on_disk
}

/// Why `mv` refuses to start.
#[derive(Debug, Clone, Copy, PartialEq, Eq)]
pub enum MvRefusal {
    /// The source does not exist.
    SourceMissing,
    /// The destination directory does not exist.
    DirectoryMissing,
    /// The destination's parent directory does not exist.
    ParentMissing,
}

/// The first reason `mv` refuses, checked in this order: a missing source;
/// when moving into a directory, a missing destination; otherwise a
/// missing parent of the destination.
pub open spec fn mv_refusal_spec(source_exists: bool, into_dir: bool, dest_exists: bool, parent_missing: bool) -> Option<MvRefusal> {
    if !source_exists {
        Some(MvRefusal::SourceMissing)
    } else if into_dir && !dest_exists {
        Some(MvRefusal::DirectoryMissing)
    } else if !into_dir && parent_missing {
        Some(MvRefusal::ParentMissing)
    } else {
        None
    }
}

/// The first reason `mv` refuses (see [`mv_refusal_spec`]).
pub fn mv_refusal(source_exists: bool, into_dir: bool, dest_exists: bool, parent_missing: bool) -> (r: Option<MvRefusal>)
    ensures
        r == mv_refusal_spec(source_exists, into_dir, dest_exists, parent_missing),
{
    if !source_exists {
        Some(MvRefusal::SourceMissing)
    } else if into_dir && !dest_exists {
        Some(MvRefusal::DirectoryMissing)
    } else if !into_dir && parent_missing {
        Some(MvRefusal::ParentMissing)
    } else {
        None
    }
}

/// Source and destination of `mv` from its resolved path words: the last is
/// the destination, the others joined with spaces the source.
pub fn split_mv_paths(paths: Vec<String>) -> (r: Result<(String, String), String>)
    ensures
        if views(paths@).len() < 2 {
            r matches Err(e) && e@
                == "Usage: mv <source_path> <destination_path> [--cp] or mv -r <source_line> <destination> or mv <source> -r <destination_line>"@
        } else {
            r matches Ok((s, d)) && d@ == views(paths@).last() && s@ == join_spaces(views(paths@).drop_last())
        },
{
    let mut paths = paths;
    if paths.len() < 2 {
        return Err(
            "Usage: mv <source_path> <destination_path> [--cp] or mv -r <source_line> <destination> or mv <source> -r <destination_line>".to_owned(),
        );
    }
    let ghost all = views(paths@);
    let destination = paths.pop().unwrap();
    assert(views(paths@) =~= all.drop_last());
    let source = join_with_spaces(&paths);
    Ok((source, destination))
}

/// The selection that `-sel <word>` gives: the number when the word is one,
/// else the earlier selection.
pub open spec fn sel_after(word: Seq<char>, earlier: Option<usize>) -> Option<usize> {
    match parsed_usize(word) {
        Some(n) => Some(n as usize),
        None => earlier,
    }
}

/// Where a scan of `open` words stands.
pub struct OpenScan {
    pub is_tag: bool,
    pub tag: Option<Seq<char>>,
    pub selection: Option<usize>,
    pub pieces: Seq<PieceSpec>,
}

/// Scans `open` words from `args[i]`: `-tag` takes the next word, if any, as
/// the tag; `-sel` takes the next word, if any, as a selection number;
/// `-r` takes the next word as a line reference (`None` when there is
/// none) and also passes over the word after it; other words are paths.
pub open spec fn open_scan(
    aliases: Map<Seq<char>, Seq<char>>,
    args: Seq<Seq<char>>,
    i: int,
    s: OpenScan,
) -> Option<OpenScan>
    decreases args.len() - i,
{
    if i >= args.len() {
        Some(s)
    } else if args[i] == "-tag"@ {
        if i + 1 < args.len() {
            open_scan(aliases, args, i + 2, OpenScan { is_tag: true, tag: Some(args[i + 1]), ..s })
        } else {
            open_scan(aliases, args, i + 1, OpenScan { is_tag: true, ..s })
        }
    } else if args[i] == "-sel"@ {
        if i + 1 < args.len() {
            open_scan(aliases, args, i + 2, OpenScan { selection: sel_after(args[i + 1], s.selection), ..s })
        } else {
            open_scan(aliases, args, i + 1, s)
        }
    } else if args[i] == "-r"@ {
        if i + 1 >= args.len() {
            None
        } else {
            let next = if i + 3 <= args.len() { i + 3 } else { args.len() as int };
            open_scan(aliases, args, next, OpenScan { pieces: s.pieces.push(PieceSpec::Line(args[i + 1])), ..s })
        }
    } else {
        open_scan(aliases, args, i + 1, OpenScan {
            pieces: s.pieces.push(PieceSpec::Path(resolve_spec(aliases, args[i]))),
            ..s
        })
    }
}

/// What `open` asks for.
#[derive(Debug)]
pub enum OpenPlan {
    /// Open the entry tagged with `tag`, with an optional selection.
    Tag(Option<String>, Option<usize>),
    /// Open the path made of these words.
    Paths(Vec<PathPiece>),
}

/// The plan of `open` from its words.
pub fn plan_open(parts: &[String], alias_manager: &AliasManager) -> (r: Result<OpenPlan, String>)
    ensures
        match open_scan(alias_manager@, words(parts@), 1,
            OpenScan { is_tag: false, tag: None, selection: None, pieces: Seq::empty() }) {
            None => r matches Err(e) && e@ == "Usage: open -r <line_number>[/path]"@,
            Some(s) => if s.is_tag {
                r matches Ok(OpenPlan::Tag(t, sel)) && opt_view(t) == s.tag && sel == s.selection
            } else {
                r matches Ok(OpenPlan::Paths(v)) && pieces_view(v@) == s.pieces
            },
        },
{
    let ghost al = alias_manager@;
    let ghost av = words(parts@);
    let mut is_tag = false;
    let mut tag: Option<String> = None;
    let mut selection: Option<usize> = None;
    let mut out: Vec<PathPiece> = Vec::new();
    let mut i: usize = 1;
    assert(pieces_view(out@) =~= Seq::<PieceSpec>::empty());
    while i < parts.len()
        invariant
            i >= 1,
            al == alias_manager@,
            av == words(parts@),
            av.len() == parts@.len(),
            open_scan(al, av, 1, OpenScan { is_tag: false, tag: None, selection: None, pieces: Seq::empty() })
                == open_scan(al, av, i as int, OpenScan {
                    is_tag: is_tag,
                    tag: opt_view(tag),
                    selection: selection,
                    pieces: pieces_view(out@),
                }),
        decreases parts.len() - i,
    {
        assert(av[i as int] == parts@[i as int]@);
        let w = parts[i].as_str();
        if str_eq(w, "-tag") {
            is_tag = true;
            if i + 1 < parts.len() {
                assert(av[i + 1] == parts@[i + 1]@);
                tag = Some(parts[i + 1].clone());
                i = i + 2;
            } else {
                i = i + 1;
            }
        } else if str_eq(w, "-sel") {
            if i + 1 < parts.len() {
                assert(av[i + 1] == parts@[i + 1]@);
                match parse_usize(parts[i + 1].as_str()) {
                    Some(n) => {
                        selection = Some(n);
                    },
                    None => {},
                }
                i = i + 2;
            } else {
                i = i + 1;
            }
        } else if str_eq(w, "-r") {
            if i + 1 >= parts.len() {
                return Err("Usage: open -r <line_number>[/path]".to_owned());
            }
            assert(av[i + 1] == parts@[i + 1]@);
            push_line(&mut out, &parts[i + 1]);
            if parts.len() - i <= 3 {
                i = parts.len();
            } else {
                i = i + 3;
            }
        } else {
            push_path(&mut out, alias_manager, w);
            i = i + 1;
        }
    }
    if is_tag {
        Ok(OpenPlan::Tag(tag, selection))
    } else {
        Ok(OpenPlan::Paths(out))
    }
}

/// Where a scan of `cd` words stands.
pub struct CdReplScan {
    pub is_idx: bool,
    pub tag: Option<Seq<char>>,
    pub selection: Option<usize>,
    pub paths: Seq<Seq<char>>,
}

/// How a scan of `cd` words ends.
pub enum CdScanEnd {
    /// `-r` with this line reference: go there at once.
    Line(Seq<char>),
    /// `-r` with nothing after it.
    MissingLine,
    /// All words scanned.
    Done(CdReplScan),
}

/// Scans `cd` words from `args[i]`: `-tag` asks for index selection and
/// takes the next word, if any, as its tag; `-sel` takes the next word, if
/// any, as a selection number; `-r` ends the scan with the next word as a
/// line reference; other words are paths.
pub open spec fn cd_repl_scan(
    aliases: Map<Seq<char>, Seq<char>>,
    args: Seq<Seq<char>>,
    i: int,
    s: CdReplScan,
) -> CdScanEnd
    decreases args.len() - i,
{
    if i >= args.len() {
        CdScanEnd::Done(s)
    } else if args[i] == "-tag"@ {
        if i + 1 < args.len() {
            cd_repl_scan(aliases, args, i + 2, CdReplScan { is_idx: true, tag: Some(args[i + 1]), ..s })
        } else {
            cd_repl_scan(aliases, args, i + 1, CdReplScan { is_idx: true, ..s })
        }
    } else if args[i] == "-sel"@ {
        if i + 1 < args.len() {
            cd_repl_scan(aliases, args, i + 2, CdReplScan { selection: sel_after(args[i + 1], s.selection), ..s })
        } else {
            cd_repl_scan(aliases, args, i + 1, s)
        }
    } else if args[i] == "-r"@ {
        if i + 1 < args.len() {
            CdScanEnd::Line(args[i + 1])
        } else {
            CdScanEnd::MissingLine
        }
    } else {
        cd_repl_scan(aliases, args, i + 1, CdReplScan {
            paths: s.paths.push(resolve_spec(aliases, args[i])),
            ..s
        })
    }
}

/// What `cd` asks for.
#[derive(Debug)]
pub enum CdPlan {
    /// The line holds shell operators: run it in the shell.
    Shell,
    /// Go to the entry of the last listing named by this line reference.
    Line(String),
    /// Go to a directory marked by a tagged `.index` entry.
    Index(Option<String>, Option<usize>),
    /// Go to this path; with none, to the home directory.
    Path(Option<String>),
}

/// The plan of `cd` from the line, the piped input and the words.
pub fn plan_cd(input: &str, input_data: &str, parts: &[String], alias_manager: &AliasManager) -> (r: Result<CdPlan, String>)
    ensures
        if has_shell_ops_spec(input@) {
            r matches Ok(CdPlan::Shell)
        } else {
            match cd_repl_scan(alias_manager@, words(parts@), 1,
                CdReplScan { is_idx: false, tag: None, selection: None, paths: Seq::empty() }) {
                CdScanEnd::Line(l) => r matches Ok(CdPlan::Line(x)) && x@ == l,
                CdScanEnd::MissingLine => r matches Err(e) && e@ == "Usage: cd -r <line_number>[/sub_path]"@,
                CdScanEnd::Done(s) => if s.is_idx {
                    r matches Ok(CdPlan::Index(t, sel)) && opt_view(t) == s.tag && sel == s.selection
                } else {
                    r matches Ok(CdPlan::Path(p)) && opt_view(p) == path_or_input_spec(s.paths, input_data@)
                },
            }
        },
{
    if has_shell_ops(input) {
        return Ok(CdPlan::Shell);
    }
    let ghost al = alias_manager@;
    let ghost av = words(parts@);
    let mut is_idx = false;
    let mut tag: Option<String> = None;
    let mut selection: Option<usize> = None;
    let mut paths: Vec<String> = Vec::new();
    let mut i: usize = 1;
    assert(views(paths@) =~= Seq::<Seq<char>>::empty());
    while i < parts.len()
        invariant
            i >= 1,
            !has_shell_ops_spec(input@),
            al == alias_manager@,
            av == words(parts@),
            av.len() == parts@.len(),
            cd_repl_scan(al, av, 1, CdReplScan { is_idx: false, tag: None, selection: None, paths: Seq::empty() })
                == cd_repl_scan(al, av, i as int, CdReplScan {
                    is_idx: is_idx,
                    tag: opt_view(tag),
                    selection: selection,
                    paths: views(paths@),
                }),
        decreases parts.len() - i,
    {
        assert(av[i as int] == parts@[i as int]@);
        let w = parts[i].as_str();
        if str_eq(w, "-tag") {
            is_idx = true;
            if i + 1 < parts.len() {
                assert(av[i + 1] == parts@[i + 1]@);
                tag = Some(parts[i + 1].clone());
                i = i + 2;
            } else {
                i = i + 1;
            }
        } else if str_eq(w, "-sel") {
            if i + 1 < parts.len() {
                assert(av[i + 1] == parts@[i + 1]@);
                match parse_usize(parts[i + 1].as_str()) {
                    Some(n) => {
                        selection = Some(n);
                    },
                    None => {},
                }
                i = i + 2;
            } else {
                i = i + 1;
            }
        } else if str_eq(w, "-r") {
            if i + 1 < parts.len() {
                assert(av[i + 1] == parts@[i + 1]@);
                return Ok(CdPlan::Line(parts[i + 1].clone()));
            }
            return Err("Usage: cd -r <line_number>[/sub_path]".to_owned());
        } else {
            let ghost before = views(paths@);
            paths.push(alias_manager.resolve_path(w));
            assert(views(paths@) =~= before.push(resolve_spec(al, w@)));
            i = i + 1;
        }
    }
    if is_idx {
        Ok(CdPlan::Index(tag, selection))
    } else {
        Ok(CdPlan::Path(path_or_input(&paths, input_data)))
    }
}

/// Where `cd` goes.
#[derive(Debug, Clone, PartialEq, Eq)]
pub enum CdTarget {
    /// Back to the directory left before.
    Previous(String),
    /// Up one level.
    Up,
    /// The home directory.
    Home,
    /// This path.
    Path(String),
}

/// Where `cd` goes, as a value.
pub enum CdTargetSpec {
    Previous(Seq<char>),
    Up,
    Home,
    Path(Seq<char>),
}

/// The value of a `cd` target.
pub open spec fn cd_target_view(t: CdTarget) -> CdTargetSpec {
    match t {
        CdTarget::Previous(p) => CdTargetSpec::Previous(p@),
        CdTarget::Up => CdTargetSpec::Up,
        CdTarget::Home => CdTargetSpec::Home,
        CdTarget::Path(p) => CdTargetSpec::Path(p@),
    }
}

/// Where `cd` goes: `-b`/`-back` to the previous directory (refused when
/// there is none), `..` up, `~` or no word home, anything else to the path.
pub open spec fn cd_target_of(path: Option<Seq<char>>, previous: Option<Seq<char>>) -> Result<CdTargetSpec, Seq<char>> {
    match path {
        None => Ok(CdTargetSpec::Home),
        Some(p) => if p == "-b"@ || p == "-back"@ {
            match previous {
                Some(q) => Ok(CdTargetSpec::Previous(q)),
                None => Err("No previous directory available."@),
            }
        } else if p == ".."@ {
            Ok(CdTargetSpec::Up)
        } else if p == "~"@ {
            Ok(CdTargetSpec::Home)
        } else {
            Ok(CdTargetSpec::Path(p))
        },
    }
}

/// Where `cd` goes (see [`cd_target_of`]).
pub fn cd_target(path: Option<&str>, previous: Option<&str>) -> (r: Result<CdTarget, String>)
    ensures
        match cd_target_of(
            match path { Some(p) => Some(p@), None => None },
            match previous { Some(q) => Some(q@), None => None },
        ) {
            Ok(t) => r matches Ok(x) && cd_target_view(x) == t,
            Err(m) => r matches Err(e) && e@ == m,
        },
{
    match path {
        None => Ok(CdTarget::Home),
        Some(p) => {
            if str_eq(p, "-b") || str_eq(p, "-back") {
                match previous {
                    Some(q) => Ok(CdTarget::Previous(q.to_owned())),
                    None => Err("No previous directory available.".to_owned()),
                }
            } else if str_eq(p, "..") {
                Ok(CdTarget::Up)
            } else if str_eq(p, "~") {
                Ok(CdTarget::Home)
            } else {
                Ok(CdTarget::Path(p.to_owned()))
            }
        },
    }
}

/// What a refusal of `mv` says, before the path it names.
pub open spec fn mv_refusal_text_spec(r: MvRefusal) -> Seq<char> {
    match r {
        MvRefusal::SourceMissing => "Source path does not exist"@,
        MvRefusal::DirectoryMissing => "Destination directory does not exist"@,
        MvRefusal::ParentMissing => "Destination parent directory does not exist"@,
    }
}

/// What a refusal of `mv` says (see [`mv_refusal_text_spec`]).
pub fn mv_refusal_text(r: MvRefusal) -> (t: String)
    ensures
        t@ == mv_refusal_text_spec(r),
{
    match r {
        MvRefusal::SourceMissing => "Source path does not exist".to_owned(),
        MvRefusal::DirectoryMissing => "Destination directory does not exist".to_owned(),
        MvRefusal::ParentMissing => "Destination parent directory does not exist".to_owned(),
    }
}

} // verus!
