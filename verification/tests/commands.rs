use rfe::cache::{DirCacheTable, CACHE_TTL_MS};
use rfe::cli::{
    get_alias_args, get_change_args, get_mkdf_args, get_tag_args, parse_cd_args, parse_cpf_arg, parse_ls_args,
    parse_mv_args, parse_open_arg,
};
use rfe::command::{
    classify_command, has_shell_ops, path_or_input, plan_cd, plan_cpf, plan_mv, plan_open, split_mv_paths, CdPlan,
    CommandKind, OpenPlan, PathPiece,
};
use rfe::managers::alias::AliasManager;
use rfe::numbers::parse_usize;
use rfe::listing::short_line;
use rfe::session::pick_selection;
use rfe::pipeline::CdSelectionItem;
use rfe::pipeline::split_chain;

fn words(s: &[&str]) -> Vec<String> {
    s.iter().map(|w| w.to_string()).collect()
}

fn aliases() -> AliasManager {
    let mut m = AliasManager::new();
    m.add("proj", "/home/u/proj", true).unwrap();
    m
}

#[test]
fn ls_args_switches_and_paths() {
    let a = words(&["rfe", "ls", "-la", "--re-deep", "@proj/src", "x y"]);
    let r = parse_ls_args(&a, 1, &aliases()).ok().unwrap();
    assert!(r.all && r.long && r.re && r.recursive);
    assert!(!r.re_insensitive && !r.show_tags);
    assert_eq!(r.path.unwrap(), "/home/u/proj/src x y");
    assert!(r.tag_patterns.is_empty());
}

#[test]
fn ls_args_tag_patterns() {
    let a = words(&["ls", "-t", "--deep", "^a", "--tag", "b$", "--tags", "--xcaps"]);
    let r = parse_ls_args(&a, 0, &aliases()).ok().unwrap();
    assert!(r.recursive && r.show_tags && r.re_insensitive);
    assert!(r.path.is_none());
    let srcs: Vec<&str> = r.tag_patterns.iter().map(|p| p.as_str()).collect();
    assert_eq!(srcs, vec!["^a", "b$"]);
}

#[test]
fn ls_args_errors() {
    let a = words(&["ls", "-t"]);
    assert_eq!(
        parse_ls_args(&a, 0, &aliases()).err().unwrap(),
        "Tag query parameter requires a pattern, usage: ls -t <tag_regex>"
    );
    let a = words(&["ls", "-t", "("]);
    let e = parse_ls_args(&a, 0, &aliases()).err().unwrap();
    assert!(e.starts_with("Invalid tag regex: "), "{}", e);
    let a = words(&["ls", "-t", "--deep"]);
    let r = parse_ls_args(&a, 0, &aliases()).ok().unwrap();
    assert_eq!(r.tag_patterns[0].as_str(), "--deep");
    assert!(!r.recursive);
}

#[test]
fn cd_args() {
    let a = words(&["rfe", "cd", "-idx", "proj", "@proj"]);
    let r = parse_cd_args(&a, 1, &aliases()).ok().unwrap();
    assert!(r.is_idx);
    assert_eq!(r.idx_tag.unwrap(), "proj");
    assert_eq!(r.path.unwrap(), "/home/u/proj");
    let a = words(&["rfe", "cd", "-idx"]);
    let r = parse_cd_args(&a, 1, &aliases()).ok().unwrap();
    assert!(r.is_idx && r.idx_tag.is_none() && r.path.is_none());
    // `cd -tag <tag>` is the documented form.
    let a = words(&["rfe", "cd", "-tag", "work"]);
    let r = parse_cd_args(&a, 1, &AliasManager::new()).ok().unwrap();
    assert!(r.is_idx);
    assert_eq!(r.idx_tag, Some("work".to_string()));
    assert_eq!(r.path, None);
}

#[test]
fn mv_args() {
    let a = words(&["rfe", "mv", "my", "file", "@proj", "--cp"]);
    let r = parse_mv_args(&a, 1, &aliases()).ok().unwrap();
    assert_eq!(r.source, "my file");
    assert_eq!(r.destination, "/home/u/proj");
    assert!(r.copy);
    let a = words(&["rfe", "mv", "a"]);
    assert_eq!(
        parse_mv_args(&a, 1, &aliases()).err().unwrap(),
        "Usage: rfe mv <source_path> <destination_path> [--cp]"
    );
    let a = words(&["rfe", "mv", "a", "-r", "b"]);
    assert_eq!(
        parse_mv_args(&a, 1, &aliases()).err().unwrap(),
        "-r parameter is only available in REPL mode (interactive mode)"
    );
}

#[test]
fn cpf_open_args() {
    let a = words(&["rfe", "cpf", "@proj/a b", "c"]);
    assert_eq!(parse_cpf_arg(&a, 1, &aliases()).unwrap(), "/home/u/proj/a b c");
    let a = words(&["rfe", "cpf"]);
    assert_eq!(parse_cpf_arg(&a, 1, &aliases()).unwrap_err(), "Usage: rfe cpf <file>");
    let a = words(&["rfe", "open"]);
    assert_eq!(parse_open_arg(&a, 1, &aliases()).unwrap_err(), "Usage: rfe open <file>");
    let a = words(&["rfe", "open", "x"]);
    assert_eq!(parse_open_arg(&a, 1, &aliases()).unwrap(), "x");
}

#[test]
fn tail_words() {
    let a = words(&["rfe", "tag", "add", "f", "t"]);
    assert_eq!(get_tag_args(&a, 1), vec!["add", "f", "t"]);
    assert_eq!(get_alias_args(&a, 2), vec!["f", "t"]);
    assert_eq!(get_mkdf_args(&a, 4), Vec::<&str>::new());
    assert_eq!(get_change_args(&a, 3), vec!["t"]);
}

#[test]
fn cache_roundtrip_and_expiry() {
    let mut c = DirCacheTable::new();
    let entries = vec![("a".to_string(), true), ("b".to_string(), false)];
    c.cache_dir_entries("/d", entries.clone(), 100);
    assert!(c.get_cached_dir_entries("/d", 100).is_none());
    c.cache_dir_entries("/d", entries.clone(), 100);
    assert_eq!(c.get_cached_dir_entries("/d", 100 + CACHE_TTL_MS - 1), Some(entries.clone()));
    assert_eq!(c.get_cached_dir_entries("/d", 50), Some(entries.clone()));
    assert!(c.get_cached_dir_entries("/d", 100 + CACHE_TTL_MS).is_none());
    assert!(c.get_cached_dir_entries("/other", 100).is_none());
    c.cache_dir_entries("/d", vec![], 200);
    assert_eq!(c.get_cached_dir_entries("/d", 200), Some(vec![]));
}

#[test]
fn numbers() {
    assert_eq!(parse_usize("42"), Some(42));
    assert_eq!(parse_usize("+7"), Some(7));
    assert_eq!(parse_usize("007"), Some(7));
    assert_eq!(parse_usize(""), None);
    assert_eq!(parse_usize("+"), None);
    assert_eq!(parse_usize("-1"), None);
    assert_eq!(parse_usize(" 1"), None);
    assert_eq!(parse_usize("1a"), None);
    assert_eq!(parse_usize("99999999999999999999999"), None);
    assert_eq!(parse_usize(&usize::MAX.to_string()), Some(usize::MAX));
    // Numbers are written in decimal where they are shown.
    assert_eq!(short_line(0, "i", "n", ""), "  0. i n\n");
    assert_eq!(short_line(123456789, "i", "n", ""), "123456789. i n\n");
    let items: Vec<CdSelectionItem> = (0..12)
        .map(|k| CdSelectionItem { display_path: k.to_string(), full_path: k.to_string(), tags: Vec::new() })
        .collect();
    assert_eq!(
        pick_selection(&items, "13"),
        Err("Selection out of range, please enter a number between 1 and 12.".to_string())
    );
}

#[test]
fn chain_splitting() {
    assert_eq!(
        split_chain("ls -> cd {}"),
        vec![("ls".to_string(), false), ("cd {}".to_string(), false)]
    );
    assert_eq!(
        split_chain(" a ->! b\n-> c "),
        vec![("a".to_string(), true), ("b".to_string(), false), ("c".to_string(), false)]
    );
    assert_eq!(split_chain("  -> -> "), Vec::<(String, bool)>::new());
    assert_eq!(split_chain("echo a-b > x"), vec![("echo a-b > x".to_string(), false)]);
    assert_eq!(split_chain("a->"), vec![("a".to_string(), false)]);
}

#[test]
fn command_names() {
    assert_eq!(classify_command("LS"), CommandKind::Ls);
    assert_eq!(classify_command("t"), CommandKind::Tag);
    assert_eq!(classify_command("Quit"), CommandKind::Exit);
    assert_eq!(classify_command("?"), CommandKind::Help);
    assert_eq!(classify_command("rfe"), CommandKind::Rfe);
    assert_eq!(classify_command("git"), CommandKind::Shell);
    assert!(has_shell_ops("cd a && ls"));
    assert!(!has_shell_ops("cd my dir"));
}

#[test]
fn repl_cd_plans() {
    let al = aliases();
    let p = plan_cd("cd @proj x", "", &words(&["cd", "@proj", "x"]), &al).unwrap();
    assert!(matches!(p, CdPlan::Path(Some(ref s)) if s == "/home/u/proj x"));
    let p = plan_cd("cd", "/piped", &words(&["cd"]), &al).unwrap();
    assert!(matches!(p, CdPlan::Path(Some(ref s)) if s == "/piped"));
    let p = plan_cd("cd", "", &words(&["cd"]), &al).unwrap();
    assert!(matches!(p, CdPlan::Path(None)));
    let p = plan_cd("cd -tag t -sel 2", "", &words(&["cd", "-tag", "t", "-sel", "2"]), &al).unwrap();
    assert!(matches!(p, CdPlan::Index(Some(ref t), Some(2)) if t == "t"));
    let p = plan_cd("cd -sel x -tag", "", &words(&["cd", "-sel", "x", "-tag"]), &al).unwrap();
    assert!(matches!(p, CdPlan::Index(None, None)));
    let p = plan_cd("cd -r 3/src", "", &words(&["cd", "-r", "3/src"]), &al).unwrap();
    assert!(matches!(p, CdPlan::Line(ref l) if l == "3/src"));
    assert_eq!(
        plan_cd("cd -r", "", &words(&["cd", "-r"]), &al).unwrap_err(),
        "Usage: cd -r <line_number>[/sub_path]"
    );
    assert!(matches!(plan_cd("cd a | b", "", &words(&["cd", "a", "|", "b"]), &al).unwrap(), CdPlan::Shell));
}

#[test]
fn repl_open_cpf_mv_plans() {
    let al = aliases();
    let p = plan_open(&words(&["open", "-tag", "doc", "-sel", "1"]), &al).unwrap();
    assert!(matches!(p, OpenPlan::Tag(Some(ref t), Some(1)) if t == "doc"));
    let p = plan_open(&words(&["open", "-r", "2", "skipped", "@proj"]), &al).unwrap();
    match p {
        OpenPlan::Paths(v) => assert_eq!(
            v,
            vec![PathPiece::Line("2".to_string()), PathPiece::Path("/home/u/proj".to_string())]
        ),
        _ => panic!("expected paths"),
    }
    assert_eq!(plan_open(&words(&["open", "-r"]), &al).unwrap_err(), "Usage: open -r <line_number>[/path]");

    let v = plan_cpf(&words(&["cpf", "-r", "1", "@proj"]), &al).unwrap();
    assert_eq!(v, vec![PathPiece::Line("1".to_string()), PathPiece::Path("/home/u/proj".to_string())]);
    assert_eq!(plan_cpf(&words(&["cpf", "-r"]), &al).unwrap_err(), "Usage: cpf -r <line_number>[/path]");

    let (copy, v) = plan_mv(&words(&["mv", "a", "--cp", "-r", "4"]), &al).unwrap();
    assert!(copy);
    assert_eq!(v, vec![PathPiece::Path("a".to_string()), PathPiece::Line("4".to_string())]);
    assert_eq!(plan_mv(&words(&["mv", "-r"]), &al).unwrap_err(), "Missing path after -r parameter");

    assert_eq!(
        split_mv_paths(words(&["a", "b", "c"])).unwrap(),
        ("a b".to_string(), "c".to_string())
    );
    assert!(split_mv_paths(words(&["a"])).unwrap_err().starts_with("Usage: mv <source_path>"));
    assert_eq!(path_or_input(&words(&["x", "y"]), "in"), Some("x y".to_string()));
    assert_eq!(path_or_input(&vec![], "in"), Some("in".to_string()));
    assert_eq!(path_or_input(&vec![], ""), None);
}
