//! Arguments of the one-shot commands (`rfe ls ...`, `rfe cd ...`, ...):
//! each parser scans the words after the command name, resolving alias
//! references in path words.

use vstd::prelude::*;
use crate::managers::alias::{AliasManager, resolve_spec};
use crate::managers::tag::sources;
use crate::pattern::{TagPattern, regex_error};
use crate::text::{str_eq, join_spaces, join_with_spaces, views};

verus! {

/// The switches of `ls`.
#[derive(Clone, Copy, Debug, PartialEq, Eq)]
pub struct LsFlags {
    pub all: bool,
    pub long: bool,
    pub re: bool,
    pub re_insensitive: bool,
    pub show_tags: bool,
    pub recursive: bool,
}

/// Arguments of `ls`.
pub struct LsArgs {
    pub all: bool,
    pub long: bool,
    pub re: bool,
    pub re_insensitive: bool,
    pub show_tags: bool,
    pub recursive: bool,
    pub path: Option<String>,
    pub tag_patterns: Vec<TagPattern>,
}

/// Arguments of `cd`.
pub struct CdArgs {
    pub path: Option<String>,
    pub is_idx: bool,
    pub idx_tag: Option<String>,
}

/// Arguments of `mv`.
pub struct MvArgs {
    pub source: String,
    pub destination: String,
    pub copy: bool,
}

/// The view of an optional string.
pub open spec fn opt_view(o: Option<String>) -> Option<Seq<char>> {
    match o {
        Some(s) => Some(s@),
        None => None,
    }
}

/// The path words joined with spaces, or nothing when there are none.
pub open spec fn joined_path(paths: Seq<Seq<char>>) -> Option<Seq<char>> {
    if paths.len() == 0 {
        None
    } else {
        Some(join_spaces(paths))
    }
}

/// The views of the words of an argument list.
pub open spec fn words(args: Seq<String>) -> Seq<Seq<char>> {
    views(args)
}

/// The effect of one `ls` switch word on the flags, or `None` when the word
/// is no switch.
pub open spec fn ls_switch(f: LsFlags, a: Seq<char>) -> Option<LsFlags> {
    if a == "-a"@ || a == "--all"@ {
        Some(LsFlags { all: true, ..f })
    } else if a == "-l"@ || a == "--long"@ {
        Some(LsFlags { long: true, ..f })
    } else if a == "-la"@ || a == "-al"@ {
        Some(LsFlags { all: true, long: true, ..f })
    } else if a == "--re"@ {
        Some(LsFlags { re: true, ..f })
    } else if a == "--re-deep"@ {
        Some(LsFlags { re: true, recursive: true, ..f })
    } else if a == "--re-insensitive"@ || a == "--xcaps"@ {
        Some(LsFlags { re_insensitive: true, ..f })
    } else if a == "-tag"@ || a == "--tags"@ {
        Some(LsFlags { show_tags: true, ..f })
    } else {
        None
    }
}

/// Where a scan of the `ls` words stands: the flags so far, the resolved
/// path words and the tag pattern sources.
pub struct LsScan {
    pub flags: LsFlags,
    pub paths: Seq<Seq<char>>,
    pub patterns: Seq<Seq<char>>,
}

/// Scans `args[i..]` for `ls`; `None` when `-t`/`--tag` ends the words
/// without a pattern. `-t --deep P` turns on recursion and takes `P`.
pub open spec fn ls_scan(
    aliases: Map<Seq<char>, Seq<char>>,
    args: Seq<Seq<char>>,
    i: int,
    s: LsScan,
) -> Option<LsScan>
    decreases args.len() - i,
{
    if i >= args.len() {
        Some(s)
    } else {
        let a = args[i];
        match ls_switch(s.flags, a) {
            Some(f) => ls_scan(aliases, args, i + 1, LsScan { flags: f, ..s }),
            None => if a == "-t"@ || a == "--tag"@ {
                if i + 1 < args.len() {
                    if args[i + 1] == "--deep"@ && i + 2 < args.len() {
                        ls_scan(aliases, args, i + 3, LsScan {
                            flags: LsFlags { recursive: true, ..s.flags },
                            paths: s.paths,
                            patterns: s.patterns.push(args[i + 2]),
                        })
                    } else {
                        ls_scan(aliases, args, i + 2, LsScan {
                            flags: s.flags,
                            paths: s.paths,
                            patterns: s.patterns.push(args[i + 1]),
                        })
                    }
                } else {
                    None
                }
            } else {
                ls_scan(aliases, args, i + 1, LsScan {
                    flags: s.flags,
                    paths: s.paths.push(resolve_spec(aliases, a)),
                    patterns: s.patterns,
                })
            },
        }
    }
}

/// No switch on, no words.
pub open spec fn ls_start() -> LsScan {
    LsScan {
        flags: LsFlags {
            all: false,
            long: false,
            re: false,
            re_insensitive: false,
            show_tags: false,
            recursive: false,
        },
        paths: Seq::empty(),
        patterns: Seq::empty(),
    }
}

/// Whether a pattern is refused by the regex compiler.
pub open spec fn bad_pattern(p: Seq<char>) -> bool {
    regex_error(p) is Some
}

/// Index of the first pattern of `ps` the regex compiler refuses.
pub open spec fn first_bad_pattern(ps: Seq<Seq<char>>) -> Option<int>
    decreases ps.len(),
{
    if ps.len() == 0 {
        None
    } else {
        match first_bad_pattern(ps.drop_last()) {
            Some(i) => Some(i),
            None => if bad_pattern(ps.last()) {
                Some(ps.len() - 1)
            } else {
                None
            },
        }
    }
}

proof fn lemma_first_bad_found(ps: Seq<Seq<char>>, i: int)
    requires
        0 <= i < ps.len(),
        first_bad_pattern(ps.take(i)) is None,
        bad_pattern(ps[i]),
    ensures
        first_bad_pattern(ps) == Some(i),
    decreases ps.len(),
{
    if i < ps.len() - 1 {
        assert(ps.drop_last().take(i) == ps.take(i));
        lemma_first_bad_found(ps.drop_last(), i);
    } else {
        assert(ps.drop_last() == ps.take(i));
    }
}

/// The error for the first refused pattern of `ps`, if any.
pub open spec fn pattern_failure(ps: Seq<Seq<char>>) -> Option<Seq<char>> {
    match first_bad_pattern(ps) {
        Some(j) => Some("Invalid tag regex: "@ + regex_error(ps[j])->0),
        None => None,
    }
}

/// Compiles each pattern in order; the first refused one ends the work with
/// `Invalid tag regex: ` and the compiler's message.
pub fn compile_patterns(strs: &Vec<String>) -> (r: Result<Vec<TagPattern>, String>)
    ensures
        match pattern_failure(views(strs@)) {
            Some(m) => r matches Err(e) && e@ == m,
            None => r matches Ok(v) && sources(v@) == views(strs@),
        },
{
    let ghost ps = views(strs@);
    let mut out: Vec<TagPattern> = Vec::new();
    let mut i: usize = 0;
    while i < strs.len()
        invariant
            i <= strs.len(),
            ps == views(strs@),
            first_bad_pattern(ps.take(i as int)) is None,
            sources(out@) == ps.take(i as int),
        decreases strs.len() - i,
    {
        match TagPattern::new(strs[i].as_str()) {
            Ok(t) => {
                let ghost before = out@;
                out.push(t);
                assert(sources(out@) =~= sources(before).push(ps[i as int]));
                assert(ps.take(i + 1).drop_last() =~= ps.take(i as int));
            },
            Err(m) => {
                proof {
                    lemma_first_bad_found(ps, i as int);
                }
                let mut e = "Invalid tag regex: ".to_owned();
                e.append(m.as_str());
                return Err(e);
            },
        }
        i = i + 1;
    }
    assert(ps.take(strs.len() as int) == ps);
    Ok(out)
}

/// The effect of one word on the `ls` flags.
fn ls_switch_exec(f: LsFlags, a: &str) -> (r: Option<LsFlags>)
    ensures
        r == ls_switch(f, a@),
{
    if str_eq(a, "-a") || str_eq(a, "--all") {
        Some(LsFlags { all: true, ..f })
    } else if str_eq(a, "-l") || str_eq(a, "--long") {
        Some(LsFlags { long: true, ..f })
    } else if str_eq(a, "-la") || str_eq(a, "-al") {
        Some(LsFlags { all: true, long: true, ..f })
    } else if str_eq(a, "--re") {
        Some(LsFlags { re: true, ..f })
    } else if str_eq(a, "--re-deep") {
        Some(LsFlags { re: true, recursive: true, ..f })
    } else if str_eq(a, "--re-insensitive") || str_eq(a, "--xcaps") {
        Some(LsFlags { re_insensitive: true, ..f })
    } else if str_eq(a, "-tag") || str_eq(a, "--tags") {
        Some(LsFlags { show_tags: true, ..f })
    } else {
        None
    }
}

/// The path words joined with spaces, or nothing when there are none.
pub fn join_path(parts: &Vec<String>) -> (r: Option<String>)
    ensures
        opt_view(r) == joined_path(views(parts@)),
{
    if parts.len() == 0 {
        None
    } else {
        Some(join_with_spaces(parts))
    }
}

/// Parses the words of `ls` after `args[arg_offset]`: switches, `-t`/`--tag`
/// patterns (compiled in order) and path words (alias references resolved,
/// joined with spaces).
pub fn parse_ls_args(args: &[String], arg_offset: usize, alias_manager: &AliasManager) -> (r: Result<LsArgs, String>)
    requires
        arg_offset < usize::MAX,
    ensures
        match ls_scan(alias_manager@, words(args@), arg_offset + 1, ls_start()) {
            None => r matches Err(e) && e@ == "Tag query parameter requires a pattern, usage: ls -t <tag_regex>"@,
            Some(s) => match pattern_failure(s.patterns) {
                Some(m) => r matches Err(e) && e@ == m,
                None => r matches Ok(a) && a.all == s.flags.all && a.long == s.flags.long
                    && a.re == s.flags.re && a.re_insensitive == s.flags.re_insensitive
                    && a.show_tags == s.flags.show_tags && a.recursive == s.flags.recursive
                    && opt_view(a.path) == joined_path(s.paths)
                    && sources(a.tag_patterns@) == s.patterns,
            },
        },
{
    let ghost al = alias_manager@;
    let ghost av = words(args@);
    let mut flags = LsFlags {
        all: false,
        long: false,
        re: false,
        re_insensitive: false,
        show_tags: false,
        recursive: false,
    };
    let mut path_parts: Vec<String> = Vec::new();
    let mut pattern_strs: Vec<String> = Vec::new();
    let mut i: usize = arg_offset + 1;
    assert(views(path_parts@) =~= Seq::<Seq<char>>::empty());
    assert(views(pattern_strs@) =~= Seq::<Seq<char>>::empty());
    while i < args.len()
        invariant
            al == alias_manager@,
            av == words(args@),
            av.len() == args@.len(),
            ls_scan(al, av, arg_offset + 1, ls_start()) == ls_scan(al, av, i as int, LsScan {
                flags: flags,
                paths: views(path_parts@),
                patterns: views(pattern_strs@),
            }),
        decreases args.len() - i,
    {
        let a = args[i].as_str();
        assert(av[i as int] == a@);
        match ls_switch_exec(flags, a) {
            Some(f) => {
                flags = f;
                i = i + 1;
            },
            None => {
                if str_eq(a, "-t") || str_eq(a, "--tag") {
                    if i + 1 < args.len() {
                        assert(av[i + 1] == args@[i + 1]@);
                        if str_eq(args[i + 1].as_str(), "--deep") && i + 2 < args.len() {
                            let ghost before = views(pattern_strs@);
                            pattern_strs.push(args[i + 2].clone());
                            assert(views(pattern_strs@) =~= before.push(av[i + 2]));
                            flags = LsFlags { recursive: true, ..flags };
                            i = i + 3;
                        } else {
                            let ghost before = views(pattern_strs@);
                            pattern_strs.push(args[i + 1].clone());
                            assert(views(pattern_strs@) =~= before.push(av[i + 1]));
                            i = i + 2;
                        }
                    } else {
                        return Err("Tag query parameter requires a pattern, usage: ls -t <tag_regex>".to_owned());
                    }
                } else {
                    let ghost before = views(path_parts@);
                    path_parts.push(alias_manager.resolve_path(a));
                    assert(views(path_parts@) =~= before.push(resolve_spec(al, a@)));
                    i = i + 1;
                }
            },
        }
    }
    let path = join_path(&path_parts);
    match compile_patterns(&pattern_strs) {
        Ok(tag_patterns) => Ok(LsArgs {
            all: flags.all,
            long: flags.long,
            re: flags.re,
            re_insensitive: flags.re_insensitive,
            show_tags: flags.show_tags,
            recursive: flags.recursive,
            path,
            tag_patterns,
        }),
        Err(e) => Err(e),
    }
}

/// Where a scan of the `cd` words stands.
pub struct CdScan {
    pub is_idx: bool,
    pub idx_tag: Option<Seq<char>>,
    pub paths: Seq<Seq<char>>,
}

/// Scans `args[i..]` for `cd`: `-tag` (or `-idx`) asks for index selection
/// and takes the next word, if any, as its tag; other words are paths.
pub open spec fn cd_scan(aliases: Map<Seq<char>, Seq<char>>, args: Seq<Seq<char>>, i: int, s: CdScan) -> CdScan
    decreases args.len() - i,
{
    if i >= args.len() {
        s
    } else if args[i] == "-tag"@ || args[i] == "-idx"@ {
        if i + 1 < args.len() {
            cd_scan(aliases, args, i + 2, CdScan { is_idx: true, idx_tag: Some(args[i + 1]), paths: s.paths })
        } else {
            cd_scan(aliases, args, i + 1, CdScan { is_idx: true, idx_tag: s.idx_tag, paths: s.paths })
        }
    } else {
        cd_scan(aliases, args, i + 1, CdScan {
            is_idx: s.is_idx,
            idx_tag: s.idx_tag,
            paths: s.paths.push(resolve_spec(aliases, args[i])),
        })
    }
}

/// Parses the words of `cd` after `args[arg_offset]`; never refused.
pub fn parse_cd_args(args: &[String], arg_offset: usize, alias_manager: &AliasManager) -> (r: Result<CdArgs, String>)
    requires
        arg_offset < usize::MAX,
    ensures
        r matches Ok(c) && {
            let s = cd_scan(alias_manager@, words(args@), arg_offset + 1,
                CdScan { is_idx: false, idx_tag: None, paths: Seq::empty() });
            &&& c.is_idx == s.is_idx
            &&& opt_view(c.idx_tag) == s.idx_tag
            &&& opt_view(c.path) == joined_path(s.paths)
        },
{
    let ghost al = alias_manager@;
    let ghost av = words(args@);
    let mut is_idx = false;
    let mut idx_tag: Option<String> = None;
    let mut path_parts: Vec<String> = Vec::new();
    let mut i: usize = arg_offset + 1;
    assert(views(path_parts@) =~= Seq::<Seq<char>>::empty());
    while i < args.len()
        invariant
            al == alias_manager@,
            av == words(args@),
            av.len() == args@.len(),
            cd_scan(al, av, arg_offset + 1, CdScan { is_idx: false, idx_tag: None, paths: Seq::empty() })
                == cd_scan(al, av, i as int, CdScan {
                    is_idx: is_idx,
                    idx_tag: opt_view(idx_tag),
                    paths: views(path_parts@),
                }),
        decreases args.len() - i,
    {
        let a = args[i].as_str();
        assert(av[i as int] == a@);
        if str_eq(a, "-tag") || str_eq(a, "-idx") {
            is_idx = true;
            if i + 1 < args.len() {
                assert(av[i + 1] == args@[i + 1]@);
                idx_tag = Some(args[i + 1].clone());
                i = i + 2;
            } else {
                i = i + 1;
            }
        } else {
            let ghost before = views(path_parts@);
            path_parts.push(alias_manager.resolve_path(a));
            assert(views(path_parts@) =~= before.push(resolve_spec(al, a@)));
            i = i + 1;
        }
    }
    let path = join_path(&path_parts);
    Ok(CdArgs { path, is_idx, idx_tag })
}

/// Scans `args[i..]` for `mv`: `--cp` asks for a copy; `-r` is refused
/// (`None`); other words are paths. Gives the copy switch and the paths.
pub open spec fn mv_scan(
    aliases: Map<Seq<char>, Seq<char>>,
    args: Seq<Seq<char>>,
    i: int,
    copy: bool,
    paths: Seq<Seq<char>>,
) -> Option<(bool, Seq<Seq<char>>)>
    decreases args.len() - i,
{
    if i >= args.len() {
        Some((copy, paths))
    } else if args[i] == "--cp"@ {
        mv_scan(aliases, args, i + 1, true, paths)
    } else if args[i] == "-r"@ {
        None
    } else {
        mv_scan(aliases, args, i + 1, copy, paths.push(resolve_spec(aliases, args[i])))
    }
}

/// Parses the words of `mv` after `args[arg_offset]`: the last path word is
/// the destination, the others, joined with spaces, the source.
pub fn parse_mv_args(args: &[String], arg_offset: usize, alias_manager: &AliasManager) -> (r: Result<MvArgs, String>)
    requires
        arg_offset < usize::MAX,
    ensures
        match mv_scan(alias_manager@, words(args@), arg_offset + 1, false, Seq::empty()) {
            None => r matches Err(e) && e@ == "-r parameter is only available in REPL mode (interactive mode)"@,
            Some((copy, paths)) => if paths.len() < 2 {
                r matches Err(e) && e@ == "Usage: rfe mv <source_path> <destination_path> [--cp]"@
            } else {
                r matches Ok(m) && m.copy == copy && m.destination@ == paths.last()
                    && m.source@ == join_spaces(paths.drop_last())
            },
        },
{
    let ghost al = alias_manager@;
    let ghost av = words(args@);
    let mut path_parts: Vec<String> = Vec::new();
    let mut copy = false;
    let mut i: usize = arg_offset + 1;
    assert(views(path_parts@) =~= Seq::<Seq<char>>::empty());
    while i < args.len()
        invariant
            al == alias_manager@,
            av == words(args@),
            av.len() == args@.len(),
            mv_scan(al, av, arg_offset + 1, false, Seq::empty()) == mv_scan(al, av, i as int, copy, views(path_parts@)),
        decreases args.len() - i,
    {
        let a = args[i].as_str();
        assert(av[i as int] == a@);
        if str_eq(a, "--cp") {
            copy = true;
        } else if str_eq(a, "-r") {
            return Err("-r parameter is only available in REPL mode (interactive mode)".to_owned());
        } else {
            let ghost before = views(path_parts@);
            path_parts.push(alias_manager.resolve_path(a));
            assert(views(path_parts@) =~= before.push(resolve_spec(al, a@)));
        }
        i = i + 1;
    }
    if path_parts.len() < 2 {
        return Err("Usage: rfe mv <source_path> <destination_path> [--cp]".to_owned());
    }
    let ghost all = views(path_parts@);
    let destination = path_parts.pop().unwrap();
    assert(views(path_parts@) =~= all.drop_last());
    let source = join_with_spaces(&path_parts);
    Ok(MvArgs { source, destination, copy })
}

/// The words after `args[arg_offset]`, each with alias references resolved.
pub open spec fn resolved_tail(aliases: Map<Seq<char>, Seq<char>>, args: Seq<Seq<char>>, from: int) -> Seq<Seq<char>> {
    args.skip(from).map_values(|a: Seq<char>| resolve_spec(aliases, a))
}

/// The words from `args[from]` on, resolved and joined with spaces.
fn resolve_and_join(args: &[String], from: usize, alias_manager: &AliasManager) -> (r: Option<String>)
    requires
        from <= args.len(),
    ensures
        opt_view(r) == joined_path(resolved_tail(alias_manager@, words(args@), from as int)),
{
    let ghost al = alias_manager@;
    let ghost av = words(args@);
    let ghost want = resolved_tail(al, av, from as int);
    let mut parts: Vec<String> = Vec::new();
    let mut i: usize = from;
    while i < args.len()
        invariant
            from <= i <= args.len(),
            al == alias_manager@,
            av == words(args@),
            want == resolved_tail(al, av, from as int),
            views(parts@) == want.take(i - from),
        decreases args.len() - i,
    {
        let ghost before = views(parts@);
        parts.push(alias_manager.resolve_path(args[i].as_str()));
        assert(av[i as int] == args@[i as int]@);
        assert(views(parts@) =~= before.push(resolve_spec(al, av[i as int])));
        assert(av.skip(from as int)[i - from] == av[i as int]);
        assert(want[i - from] == resolve_spec(al, av[i as int]));
        assert(want.take(i - from + 1) =~= want.take(i - from).push(want[i - from]));
        i = i + 1;
    }
    assert(want.take(args.len() - from) == want);
    join_path(&parts)
}

/// Parses the words of `cpf`: every word after `args[arg_offset]` is part of
/// the path.
pub fn parse_cpf_arg(args: &[String], arg_offset: usize, alias_manager: &AliasManager) -> (r: Result<String, String>)
    requires
        arg_offset < args.len(),
    ensures
        match joined_path(resolved_tail(alias_manager@, words(args@), arg_offset + 1)) {
            Some(p) => r matches Ok(s) && s@ == p,
            None => r matches Err(e) && e@ == "Usage: rfe cpf <file>"@,
        },
{
    match resolve_and_join(args, arg_offset + 1, alias_manager) {
        Some(p) => Ok(p),
        None => Err("Usage: rfe cpf <file>".to_owned()),
    }
}

/// Parses the words of `open`: every word after `args[arg_offset]` is part
/// of the path.
pub fn parse_open_arg(args: &[String], arg_offset: usize, alias_manager: &AliasManager) -> (r: Result<String, String>)
    requires
        arg_offset < args.len(),
    ensures
        match joined_path(resolved_tail(alias_manager@, words(args@), arg_offset + 1)) {
            Some(p) => r matches Ok(s) && s@ == p,
            None => r matches Err(e) && e@ == "Usage: rfe open <file>"@,
        },
{
    match resolve_and_join(args, arg_offset + 1, alias_manager) {
        Some(p) => Ok(p),
        None => Err("Usage: rfe open <file>".to_owned()),
    }
}

/// The views of a sequence of string slices.
pub open spec fn str_views(s: Seq<&str>) -> Seq<Seq<char>> {
    s.map_values(|x: &str| x@)
}

/// The words after `args[arg_offset]`, as slices.
fn tail_words(args: &[String], arg_offset: usize) -> (r: Vec<&str>)
    requires
        arg_offset < args.len(),
    ensures
        str_views(r@) == words(args@).skip(arg_offset + 1),
{
    let ghost want = words(args@).skip(arg_offset + 1);
    let mut out: Vec<&str> = Vec::new();
    let mut i: usize = arg_offset + 1;
    while i < args.len()
        invariant
            arg_offset < i <= args.len(),
            want == words(args@).skip(arg_offset + 1),
            str_views(out@) == want.take(i - arg_offset - 1),
        decreases args.len() - i,
    {
        let ghost before = str_views(out@);
        out.push(args[i].as_str());
        assert(str_views(out@) =~= before.push(args@[i as int]@));
        assert(words(args@)[i as int] == args@[i as int]@);
        assert(want[i - arg_offset - 1] == args@[i as int]@);
        assert(want.take(i - arg_offset) =~= want.take(i - arg_offset - 1).push(want[i - arg_offset - 1]));
        i = i + 1;
    }
    assert(want.take(args.len() - arg_offset - 1) == want);
    out
}

/// The words of `alias` after `args[arg_offset]`.
pub fn get_alias_args(args: &[String], arg_offset: usize) -> (r: Vec<&str>)
    requires
        arg_offset < args.len(),
    ensures
        str_views(r@) == words(args@).skip(arg_offset + 1),
{
    tail_words(args, arg_offset)
}

/// The words of `tag` after `args[arg_offset]`.
pub fn get_tag_args(args: &[String], arg_offset: usize) -> (r: Vec<&str>)
    requires
        arg_offset < args.len(),
    ensures
        str_views(r@) == words(args@).skip(arg_offset + 1),
{
    tail_words(args, arg_offset)
}

/// The words of `mkdf` after `args[arg_offset]`.
pub fn get_mkdf_args(args: &[String], arg_offset: usize) -> (r: Vec<&str>)
    requires
        arg_offset < args.len(),
    ensures
        str_views(r@) == words(args@).skip(arg_offset + 1),
{
    tail_words(args, arg_offset)
}

/// The words of `change` after `args[arg_offset]`.
pub fn get_change_args(args: &[String], arg_offset: usize) -> (r: Vec<&str>)
    requires
        arg_offset < args.len(),
    ensures
        str_views(r@) == words(args@).skip(arg_offset + 1),
{
    tail_words(args, arg_offset)
}

} // verus!
