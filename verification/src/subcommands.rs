//! The words of `tag`, `alias`, `mkdf` and `change`: which subcommand they
//! name and with what arguments, or why they are refused.

use vstd::prelude::*;
use crate::cli::{compile_patterns, pattern_failure, str_views};
use crate::managers::tag::sources;
use crate::pattern::TagPattern;
use crate::select::{lowercase, to_lowercase};
use crate::text::{str_eq, views};

verus! {

/// A `tag` subcommand.
pub enum TagCommand {
    /// No words: show the table and the usage.
    Overview,
    Add(String, Vec<String>),
    Remove(String, Vec<String>),
    Clear(String),
    Get(String),
    List,
    Backup,
    Find(Vec<TagPattern>),
    Restore,
}

/// The words from `from` on, as strings.
fn owned_from(args: &[&str], from: usize) -> (r: Vec<String>)
    requires
        from <= args@.len(),
    ensures
        views(r@) == str_views(args@).skip(from as int),
{
    let ghost want = str_views(args@).skip(from as int);
    let mut out: Vec<String> = Vec::new();
    let mut i: usize = from;
    while i < args.len()
        invariant
            from <= i <= args@.len(),
            want == str_views(args@).skip(from as int),
            views(out@) == want.take(i - from),
        decreases args.len() - i,
    {
        let ghost before = views(out@);
        out.push(args[i].to_owned());
        assert(views(out@) =~= before.push(args@[i as int]@));
        assert(want[i - from] == args@[i as int]@);
        assert(want.take(i - from + 1) =~= want.take(i - from).push(want[i - from]));
        i = i + 1;
    }
    assert(want.take(args@.len() - from) == want);
    out
}

/// Parses the words of `tag` (after the command name). The subcommand is
/// compared in lower case; `find` compiles its patterns.
pub fn parse_tag_command(args: &[&str]) -> (r: Result<TagCommand, String>)
    ensures
        ({
            let a = str_views(args@);
            let n = a.len();
            if n == 0 {
                r matches Ok(TagCommand::Overview)
            } else {
                let sub = lowercase(a[0]);
                if sub == "add"@ {
                    if n < 3 {
                        r matches Err(e) && e@ == "Usage: tag add <file> <tag1> [tag2...]"@
                    } else {
                        r matches Ok(TagCommand::Add(f, t)) && f@ == a[1] && views(t@) == a.skip(2)
                    }
                } else if sub == "remove"@ || sub == "rm"@ {
                    if n < 3 {
                        r matches Err(e) && e@ == "Usage: tag remove <file> <tag1> [tag2...]"@
                    } else {
                        r matches Ok(TagCommand::Remove(f, t)) && f@ == a[1] && views(t@) == a.skip(2)
                    }
                } else if sub == "clear"@ {
                    if n < 2 {
                        r matches Err(e) && e@ == "Usage: tag clear <file>"@
                    } else {
                        r matches Ok(TagCommand::Clear(f)) && f@ == a[1]
                    }
                } else if sub == "get"@ {
                    if n < 2 {
                        r matches Err(e) && e@ == "Usage: tag get <file>"@
                    } else {
                        r matches Ok(TagCommand::Get(f)) && f@ == a[1]
                    }
                } else if sub == "list"@ || sub == "ls"@ {
                    r matches Ok(TagCommand::List)
                } else if sub == "backup"@ {
                    r matches Ok(TagCommand::Backup)
                } else if sub == "find"@ || sub == "search"@ {
                    if n < 2 {
                        r matches Err(e) && e@ == "Usage: tag find <tag-regex1> [tag-regex2...]"@
                    } else {
                        match pattern_failure(a.skip(1)) {
                            Some(m) => r matches Err(e) && e@ == m,
                            None => r matches Ok(TagCommand::Find(p)) && sources(p@) == a.skip(1),
                        }
                    }
                } else if sub == "restore"@ {
                    r matches Ok(TagCommand::Restore)
                } else {
                    r matches Err(e) && e@ == "Unknown tag subcommand: "@ + a[0]
                }
            }
        }),
{
    let ghost a = str_views(args@);
    let n = args.len();
    if n == 0 {
        return Ok(TagCommand::Overview);
    }
    assert(a[0] == args@[0]@);
    let low = to_lowercase(args[0]);
    let sub = low.as_str();
    if str_eq(sub, "add") || str_eq(sub, "remove") || str_eq(sub, "rm") {
        let is_add = str_eq(sub, "add");
        if n < 3 {
            if is_add {
                return Err("Usage: tag add <file> <tag1> [tag2...]".to_owned());
            }
            return Err("Usage: tag remove <file> <tag1> [tag2...]".to_owned());
        }
        assert(a[1] == args@[1]@);
        let file = args[1].to_owned();
        let tags = owned_from(args, 2);
        if is_add {
            Ok(TagCommand::Add(file, tags))
        } else {
            Ok(TagCommand::Remove(file, tags))
        }
    } else if str_eq(sub, "clear") || str_eq(sub, "get") {
        let is_clear = str_eq(sub, "clear");
        if n < 2 {
            if is_clear {
                return Err("Usage: tag clear <file>".to_owned());
            }
            return Err("Usage: tag get <file>".to_owned());
        }
        assert(a[1] == args@[1]@);
        let file = args[1].to_owned();
        if is_clear {
            Ok(TagCommand::Clear(file))
        } else {
            Ok(TagCommand::Get(file))
        }
    } else if str_eq(sub, "list") || str_eq(sub, "ls") {
        Ok(TagCommand::List)
    } else if str_eq(sub, "backup") {
        Ok(TagCommand::Backup)
    } else if str_eq(sub, "find") || str_eq(sub, "search") {
        if n < 2 {
            return Err("Usage: tag find <tag-regex1> [tag-regex2...]".to_owned());
        }
        let strs = owned_from(args, 1);
        match compile_patterns(&strs) {
            Ok(p) => Ok(TagCommand::Find(p)),
            Err(e) => Err(e),
        }
    } else if str_eq(sub, "restore") {
        Ok(TagCommand::Restore)
    } else {
        let mut m = "Unknown tag subcommand: ".to_owned();
        m.append(args[0]);
        Err(m)
    }
}

/// An `alias` subcommand.
#[derive(Debug, Clone, PartialEq, Eq)]
pub enum AliasCommand {
    /// No words: show the table and the usage.
    Overview,
    Add(String, String),
    Remove(String),
    List,
}

/// Parses the words of `alias` (after the command name); the subcommand is
/// compared in lower case.
pub fn parse_alias_command(args: &[&str]) -> (r: Result<AliasCommand, String>)
    ensures
        ({
            let a = str_views(args@);
            let n = a.len();
            if n == 0 {
                r matches Ok(AliasCommand::Overview)
            } else {
                let sub = lowercase(a[0]);
                if sub == "add"@ || sub == "set"@ {
                    if n < 3 {
                        r matches Err(e) && e@ == "Usage: alias add <name> <path>"@
                    } else {
                        r matches Ok(AliasCommand::Add(x, p)) && x@ == a[1] && p@ == a[2]
                    }
                } else if sub == "remove"@ || sub == "rm"@ || sub == "delete"@ {
                    if n < 2 {
                        r matches Err(e) && e@ == "Usage: alias remove <name>"@
                    } else {
                        r matches Ok(AliasCommand::Remove(x)) && x@ == a[1]
                    }
                } else if sub == "list"@ || sub == "ls"@ {
                    r matches Ok(AliasCommand::List)
                } else {
                    r matches Err(e) && e@ == "Unknown alias subcommand: "@ + a[0]
                }
            }
        }),
{
    let ghost a = str_views(args@);
    let n = args.len();
    if n == 0 {
        return Ok(AliasCommand::Overview);
    }
    assert(a[0] == args@[0]@);
    let low = to_lowercase(args[0]);
    let sub = low.as_str();
    if str_eq(sub, "add") || str_eq(sub, "set") {
        if n < 3 {
            return Err("Usage: alias add <name> <path>".to_owned());
        }
        assert(a[1] == args@[1]@);
        assert(a[2] == args@[2]@);
        Ok(AliasCommand::Add(args[1].to_owned(), args[2].to_owned()))
    } else if str_eq(sub, "remove") || str_eq(sub, "rm") || str_eq(sub, "delete") {
        if n < 2 {
            return Err("Usage: alias remove <name>".to_owned());
        }
        assert(a[1] == args@[1]@);
        Ok(AliasCommand::Remove(args[1].to_owned()))
    } else if str_eq(sub, "list") || str_eq(sub, "ls") {
        Ok(AliasCommand::List)
    } else {
        let mut m = "Unknown alias subcommand: ".to_owned();
        m.append(args[0]);
        Err(m)
    }
}

/// Where a scan of the `mkdf` words stands: file wanted, directory wanted,
/// parents wanted, help wanted, the path.
pub struct MkdfScan {
    pub file: bool,
    pub dir: bool,
    pub parents: bool,
    pub help: bool,
    pub path: Option<Seq<char>>,
}

/// Scans `mkdf` words from `args[i]`: `-f`/`--file` and `-d`/`--directory`
/// pick what to make (the later wins), `-p`/`--parents` and `-h`/`--help`
/// switch on; the first other word is the path, a second one is refused
/// (`None`).
pub open spec fn mkdf_scan(args: Seq<Seq<char>>, i: int, s: MkdfScan) -> Option<MkdfScan>
    decreases args.len() - i,
{
    if i < 0 || i >= args.len() {
        Some(s)
    } else {
        let a = args[i];
        if a == "-f"@ || a == "--file"@ {
            mkdf_scan(args, i + 1, MkdfScan { file: true, dir: false, ..s })
        } else if a == "-d"@ || a == "--directory"@ {
            mkdf_scan(args, i + 1, MkdfScan { file: false, dir: true, ..s })
        } else if a == "-p"@ || a == "--parents"@ {
            mkdf_scan(args, i + 1, MkdfScan { parents: true, ..s })
        } else if a == "-h"@ || a == "--help"@ {
            mkdf_scan(args, i + 1, MkdfScan { help: true, ..s })
        } else if s.path is None {
            mkdf_scan(args, i + 1, MkdfScan { path: Some(a), ..s })
        } else {
            None
        }
    }
}

/// What `mkdf` asks for.
#[derive(Debug, Clone, PartialEq, Eq)]
pub enum MkdfPlan {
    /// Show the help.
    Help,
    /// Make a file at the path (its missing parents too).
    File(String),
    /// Make a directory at the path; `true` also makes missing parents.
    Dir(String, bool),
}

/// The usage line of `mkdf`.
pub open spec fn mkdf_usage() -> Seq<char> {
    "Usage: mkdf [-f|--file|-d|--directory] [-p|--parents] <path>"@
}

/// Parses the words of `mkdf` (after the command name).
pub fn parse_mkdf(args: &[&str]) -> (r: Result<MkdfPlan, String>)
    ensures
        match mkdf_scan(str_views(args@), 0,
            MkdfScan { file: false, dir: false, parents: false, help: false, path: None }) {
            None => r matches Err(e) && e@ == "Too many arguments. Only one path can be specified."@,
            Some(s) => if s.help {
                r matches Ok(MkdfPlan::Help)
            } else {
                match s.path {
                    None => r matches Err(e) && e@ == mkdf_usage(),
                    Some(p) => if !s.file && !s.dir {
                        r matches Err(e) && e@
                            == "Please specify whether to create a file (-f/--file) or directory (-d/--directory)"@
                    } else if s.file {
                        r matches Ok(MkdfPlan::File(x)) && x@ == p
                    } else {
                        r matches Ok(MkdfPlan::Dir(x, par)) && x@ == p && par == s.parents
                    },
                }
            },
        },
{
    let ghost av = str_views(args@);
    let mut file = false;
    let mut dir = false;
    let mut parents = false;
    let mut help = false;
    let mut path: Option<String> = None;
    let mut i: usize = 0;
    while i < args.len()
        invariant
            i <= args@.len(),
            av == str_views(args@),
            mkdf_scan(av, 0, MkdfScan { file: false, dir: false, parents: false, help: false, path: None })
                == mkdf_scan(av, i as int, MkdfScan {
                    file: file,
                    dir: dir,
                    parents: parents,
                    help: help,
                    path: crate::cli::opt_view(path),
                }),
        decreases args.len() - i,
    {
        let a = args[i];
        assert(av[i as int] == a@);
        if str_eq(a, "-f") || str_eq(a, "--file") {
            file = true;
            dir = false;
        } else if str_eq(a, "-d") || str_eq(a, "--directory") {
            dir = true;
            file = false;
        } else if str_eq(a, "-p") || str_eq(a, "--parents") {
            parents = true;
        } else if str_eq(a, "-h") || str_eq(a, "--help") {
            help = true;
        } else if path.is_none() {
            path = Some(a.to_owned());
        } else {
            return Err("Too many arguments. Only one path can be specified.".to_owned());
        }
        i = i + 1;
    }
    if help {
        return Ok(MkdfPlan::Help);
    }
    match path {
        None => Err("Usage: mkdf [-f|--file|-d|--directory] [-p|--parents] <path>".to_owned()),
        Some(p) => {
            if !file && !dir {
                Err("Please specify whether to create a file (-f/--file) or directory (-d/--directory)".to_owned())
            } else if file {
                Ok(MkdfPlan::File(p))
            } else {
                Ok(MkdfPlan::Dir(p, parents))
            }
        },
    }
}

/// The display modes.
#[derive(Debug, Clone, Copy, PartialEq, Eq)]
pub enum DisplayMode {
    Standard,
    Moe,
}

/// Parses the words of `change`: `-std`/`--std` or `-moe`/`--moe`.
pub fn parse_change(args: &[&str]) -> (r: Result<DisplayMode, String>)
    ensures
        ({
            let a = str_views(args@);
            if a.len() > 0 && (a[0] == "-std"@ || a[0] == "--std"@) {
                r == Ok::<DisplayMode, String>(DisplayMode::Standard)
            } else if a.len() > 0 && (a[0] == "-moe"@ || a[0] == "--moe"@) {
                r == Ok::<DisplayMode, String>(DisplayMode::Moe)
            } else {
                r matches Err(e) && e@ == "Usage: change -std (standard mode) or change -moe (moe mode)"@
            }
        }),
{
    if args.len() > 0 {
        assert(str_views(args@)[0] == args@[0]@);
        if str_eq(args[0], "-std") || str_eq(args[0], "--std") {
            return Ok(DisplayMode::Standard);
        }
        if str_eq(args[0], "-moe") || str_eq(args[0], "--moe") {
            return Ok(DisplayMode::Moe);
        }
    }
    Err("Usage: change -std (standard mode) or change -moe (moe mode)".to_owned())
}

/// What `change` does to the display mode.
#[derive(Debug, Clone, Copy, PartialEq, Eq)]
pub enum ModeChange {
    AlreadyStandard,
    SwitchedToStandard,
    AlreadyMoe,
    SwitchedToMoe,
}

/// What `change` does, asked for `mode` while the cute mode is `moe_now`.
pub open spec fn mode_change_spec(mode: DisplayMode, moe_now: bool) -> ModeChange {
    match mode {
        DisplayMode::Standard => if moe_now { ModeChange::SwitchedToStandard } else { ModeChange::AlreadyStandard },
        DisplayMode::Moe => if moe_now { ModeChange::AlreadyMoe } else { ModeChange::SwitchedToMoe },
    }
}

/// What `change` does (see [`mode_change_spec`]); the mode after it is the
/// one asked for.
pub fn mode_change(mode: DisplayMode, moe_now: bool) -> (r: (ModeChange, bool))
    ensures
        r.0 == mode_change_spec(mode, moe_now),
        r.1 == (mode == DisplayMode::Moe),
{
    match mode {
        DisplayMode::Standard => (if moe_now { ModeChange::SwitchedToStandard } else { ModeChange::AlreadyStandard }, false),
        DisplayMode::Moe => (if moe_now { ModeChange::AlreadyMoe } else { ModeChange::SwitchedToMoe }, true),
    }
}

} // verus!
