use rfe::completion::definitions::build_command_definitions;
use rfe::managers::tag::{TagManager, TagTarget};
use rfe::pipeline::{CdSelectionItem, CommandResult};
use rfe::quote_context::{apply_quote_policy, Pair};
use rfe::select::{is_index_key, plan_cd_index, plan_open_tag, TagPick};
use rfe::session::{pick_selection, plan_start, ReplAction, ReplEvent, ReplState, StartPlan};
use rfe::command::CommandKind;
use rfe::subcommands::{parse_alias_command, parse_change, parse_mkdf, parse_tag_command, AliasCommand, DisplayMode, MkdfPlan, TagCommand};

fn pair(display: &str, replacement: &str) -> Pair {
    Pair { display: display.to_string(), replacement: replacement.to_string() }
}

#[test]
fn test_apply_quote_policy_in_quote_file() {
    let mut candidates = vec![pair("file.txt", "file.txt"), pair("file with spaces.txt", "file with spaces.txt")];
    apply_quote_policy(&mut candidates, true, '"', false);
    assert_eq!(candidates[0].replacement, "file.txt\"");
    assert_eq!(candidates[1].replacement, "file with spaces.txt\"");
}

#[test]
fn test_apply_quote_policy_in_quote_directory() {
    let mut candidates = vec![pair("dir/", "dir/"), pair("my dir/", "my dir/")];
    apply_quote_policy(&mut candidates, true, '"', false);
    assert_eq!(candidates[0].replacement, "dir/\"");
    assert_eq!(candidates[1].replacement, "my dir/\"");
}

#[test]
fn test_apply_quote_policy_in_single_quote() {
    let mut candidates = vec![pair("file.txt", "file.txt")];
    apply_quote_policy(&mut candidates, true, '\'', false);
    assert_eq!(candidates[0].replacement, "file.txt'");
}

#[test]
fn test_apply_quote_policy_no_extra_quotes() {
    let mut candidates1 = vec![pair("file.txt", "\"file.txt\"")];
    apply_quote_policy(&mut candidates1, true, '"', false);
    assert_eq!(candidates1[0].replacement, "file.txt\"");

    let mut candidates2 = vec![pair("file with space.txt", "\"file with space.txt")];
    apply_quote_policy(&mut candidates2, true, '"', false);
    assert_eq!(candidates2[0].replacement, "file with space.txt\"");

    let mut candidates3 = vec![pair("file.txt", "'file.txt'")];
    apply_quote_policy(&mut candidates3, true, '"', false);
    assert_eq!(candidates3[0].replacement, "file.txt\"");

    let mut candidates4 = vec![pair("file.txt", "\"file.txt\"")];
    apply_quote_policy(&mut candidates4, true, '\'', false);
    assert_eq!(candidates4[0].replacement, "file.txt'");

    let mut candidates5 = vec![pair("file\"name.txt", "file\"name.txt")];
    apply_quote_policy(&mut candidates5, true, '"', false);
    assert_eq!(candidates5[0].replacement, "filename.txt\"");

    let mut candidates6 = vec![pair("my dir/", "\"my dir/")];
    apply_quote_policy(&mut candidates6, true, '"', false);
    assert_eq!(candidates6[0].replacement, "my dir/\"");

    let mut candidates7 = vec![pair("in dex.txt", "\"in dex.txt\"")];
    apply_quote_policy(&mut candidates7, true, '"', false);
    assert_eq!(candidates7[0].replacement, "in dex.txt\"");

    let mut candidates8 = vec![pair("in dex.txt", "\"in dex.txt")];
    apply_quote_policy(&mut candidates8, true, '"', false);
    assert_eq!(candidates8[0].replacement, "in dex.txt\"");
}

#[test]
fn test_cd_definition_uses_unified_tag_flag() {
    let defs = build_command_definitions();
    let cd = defs.iter().find(|d| d.name == "cd").unwrap();
    let flags: Vec<&str> = cd.args.iter().map(|a| a.name.as_str()).collect();
    assert!(flags.contains(&"-tag"), "cd should expose -tag: {:?}", flags);
    assert!(!flags.contains(&"-idx"), "cd must not expose -idx: {:?}", flags);
}

#[test]
fn test_open_and_ls_tag_flags_unchanged() {
    let defs = build_command_definitions();
    let open = defs.iter().find(|d| d.name == "open").unwrap();
    assert!(open.args.iter().any(|a| a.name == "-tag"));
    let ls = defs.iter().find(|d| d.name == "ls").unwrap();
    assert!(ls.args.iter().any(|a| a.name == "-tag"));
    assert!(ls.args.iter().any(|a| a.name == "-t"));
}

fn table() -> TagManager {
    let mut tm = TagManager::new();
    let k = |s: &str| TagTarget::Key(s.to_string());
    tm.add_tags("x", k("/w/proj/.index"), &["proj", "rust"]).unwrap();
    tm.add_tags("x", k("/w/docs/.INDEX"), &["docs"]).unwrap();
    tm.add_tags("x", k("/w/notes.txt"), &["docs", "proj2"]).unwrap();
    tm
}

#[test]
fn index_keys() {
    assert!(is_index_key("/a/b/.index"));
    assert!(is_index_key("/a/B/.Index"));
    assert!(is_index_key("/a/myindex"));
    assert!(!is_index_key("/a/notes.txt"));
}

#[test]
fn cd_index_choice() {
    let tm = table();
    match plan_cd_index(&tm, Some("^proj"), None).unwrap() {
        TagPick::Go(k, tags) => {
            assert_eq!(k, "/w/proj/.index");
            assert_eq!(tags, vec!["proj".to_string(), "rust".to_string()]);
        }
        TagPick::Ask(_) => panic!("one match"),
    }
    assert_eq!(
        plan_cd_index(&tm, Some("nothing"), None).err().unwrap(),
        "No directories found with .index file matching tag: nothing"
    );
    assert_eq!(plan_cd_index(&tm, None, None).err().unwrap(), "Usage: cd -idx <tag>");
    assert!(plan_cd_index(&tm, Some("("), None).is_err());
    match plan_cd_index(&tm, Some("o"), None).unwrap() {
        TagPick::Ask(v) => assert_eq!(v.len(), 2),
        TagPick::Go(..) => panic!("two matches"),
    }
    match plan_cd_index(&tm, Some("o"), Some(2)).unwrap() {
        TagPick::Go(k, _) => assert_eq!(k, "/w/docs/.INDEX"),
        TagPick::Ask(_) => panic!("selected"),
    }
    assert_eq!(
        plan_cd_index(&tm, Some("o"), Some(3)).err().unwrap(),
        "Invalid selection. Please enter a number between 1 and 2"
    );
    assert!(plan_cd_index(&tm, Some("o"), Some(0)).is_err());
}

#[test]
fn open_tag_choice() {
    let tm = table();
    match plan_open_tag(&tm, Some("docs"), None).unwrap() {
        TagPick::Ask(v) => {
            assert_eq!(v.len(), 2);
            assert_eq!(v[1].0, "/w/notes.txt");
        }
        TagPick::Go(..) => panic!("two matches"),
    }
    match plan_open_tag(&tm, Some("proj2"), None).unwrap() {
        TagPick::Go(k, _) => assert_eq!(k, "/w/notes.txt"),
        TagPick::Ask(_) => panic!("one match"),
    }
    assert_eq!(plan_open_tag(&tm, Some("zzz"), None).err().unwrap(), "No files found matching tag: zzz");
    assert_eq!(plan_open_tag(&tm, None, Some(1)).err().unwrap(), "Usage: open -tag <tag>");
}

#[test]
fn tag_subcommands() {
    assert!(matches!(parse_tag_command(&[]), Ok(TagCommand::Overview)));
    match parse_tag_command(&["ADD", "f", "a", "b"]) {
        Ok(TagCommand::Add(f, t)) => {
            assert_eq!(f, "f");
            assert_eq!(t, vec!["a".to_string(), "b".to_string()]);
        }
        _ => panic!("add"),
    }
    assert_eq!(parse_tag_command(&["add", "f"]).err().unwrap(), "Usage: tag add <file> <tag1> [tag2...]");
    assert_eq!(parse_tag_command(&["rm", "f"]).err().unwrap(), "Usage: tag remove <file> <tag1> [tag2...]");
    assert_eq!(parse_tag_command(&["clear"]).err().unwrap(), "Usage: tag clear <file>");
    assert_eq!(parse_tag_command(&["get"]).err().unwrap(), "Usage: tag get <file>");
    assert!(matches!(parse_tag_command(&["ls"]), Ok(TagCommand::List)));
    assert!(matches!(parse_tag_command(&["backup"]), Ok(TagCommand::Backup)));
    assert!(matches!(parse_tag_command(&["restore"]), Ok(TagCommand::Restore)));
    assert_eq!(parse_tag_command(&["find"]).err().unwrap(), "Usage: tag find <tag-regex1> [tag-regex2...]");
    match parse_tag_command(&["search", "^a", "b"]) {
        Ok(TagCommand::Find(p)) => assert_eq!(p.len(), 2),
        _ => panic!("find"),
    }
    assert!(parse_tag_command(&["find", "("]).err().unwrap().starts_with("Invalid tag regex: "));
    assert_eq!(parse_tag_command(&["Zap"]).err().unwrap(), "Unknown tag subcommand: Zap");
}

#[test]
fn alias_subcommands() {
    assert_eq!(parse_alias_command(&[]), Ok(AliasCommand::Overview));
    assert_eq!(
        parse_alias_command(&["set", "w", "/x"]),
        Ok(AliasCommand::Add("w".to_string(), "/x".to_string()))
    );
    assert_eq!(parse_alias_command(&["add", "w"]), Err("Usage: alias add <name> <path>".to_string()));
    assert_eq!(parse_alias_command(&["Delete", "w"]), Ok(AliasCommand::Remove("w".to_string())));
    assert_eq!(parse_alias_command(&["rm"]), Err("Usage: alias remove <name>".to_string()));
    assert_eq!(parse_alias_command(&["list"]), Ok(AliasCommand::List));
    assert_eq!(parse_alias_command(&["x"]), Err("Unknown alias subcommand: x".to_string()));
}

#[test]
fn mkdf_and_change() {
    assert_eq!(parse_mkdf(&["-f", "a.txt"]), Ok(MkdfPlan::File("a.txt".to_string())));
    assert_eq!(parse_mkdf(&["-f", "-d", "-p", "a"]), Ok(MkdfPlan::Dir("a".to_string(), true)));
    assert_eq!(parse_mkdf(&["a", "-h"]), Ok(MkdfPlan::Help));
    assert_eq!(
        parse_mkdf(&["a", "b", "-h"]),
        Err("Too many arguments. Only one path can be specified.".to_string())
    );
    assert_eq!(
        parse_mkdf(&["-f"]),
        Err("Usage: mkdf [-f|--file|-d|--directory] [-p|--parents] <path>".to_string())
    );
    assert_eq!(
        parse_mkdf(&["a"]),
        Err("Please specify whether to create a file (-f/--file) or directory (-d/--directory)".to_string())
    );
    assert_eq!(parse_change(&["--moe"]), Ok(DisplayMode::Moe));
    assert_eq!(parse_change(&["-std", "x"]), Ok(DisplayMode::Standard));
    let usage = "Usage: change -std (standard mode) or change -moe (moe mode)".to_string();
    assert_eq!(parse_change(&[]), Err(usage.clone()));
    assert_eq!(parse_change(&["-x"]), Err(usage));
}

fn item(p: &str) -> CdSelectionItem {
    CdSelectionItem { display_path: p.to_string(), full_path: p.to_string(), tags: vec![] }
}

#[test]
fn picking_a_selection() {
    let items = vec![item("/a"), item("/b")];
    assert_eq!(pick_selection(&items, " 2 "), Ok("/b".to_string()));
    assert_eq!(pick_selection(&items, "x"), Err("Invalid input, please enter a number.".to_string()));
    assert_eq!(
        pick_selection(&items, "3"),
        Err("Selection out of range, please enter a number between 1 and 2.".to_string())
    );
    assert!(pick_selection(&items, "0").is_err());
}

#[test]
fn repl_loop_steps() {
    let mut st = ReplState::new();
    assert!(!st.wants_selection());
    assert_eq!(st.step(ReplEvent::Line("   ".to_string())), ReplAction::Nothing);
    assert_eq!(st.step(ReplEvent::Line(" ls -a ".to_string())), ReplAction::Run("ls -a".to_string()));
    assert!(!st.after_command(CommandResult::NeedCdSelection(vec![item("/a"), item("/b")])));
    assert!(st.wants_selection());
    assert_eq!(
        st.step(ReplEvent::Line("2".to_string())),
        ReplAction::GoTo("2".to_string(), "/b".to_string())
    );
    assert!(!st.wants_selection());
    st.after_command(CommandResult::NeedOpenSelection(vec![item("/f")]));
    assert_eq!(
        st.step(ReplEvent::Line("5".to_string())),
        ReplAction::SelectionError(
            "5".to_string(),
            "Selection out of range, please enter a number between 1 and 1.".to_string()
        )
    );
    assert!(!st.wants_selection());
    st.after_command(CommandResult::NeedOpenSelection(vec![item("/f")]));
    assert_eq!(st.step(ReplEvent::Interrupted), ReplAction::Cancelled);
    assert_eq!(st.step(ReplEvent::Interrupted), ReplAction::Exit);
    assert_eq!(st.step(ReplEvent::Eof), ReplAction::Exit);
    assert_eq!(st.step(ReplEvent::Failed("boom".to_string())), ReplAction::Fail("boom".to_string()));
    assert!(st.after_command(CommandResult::Normal(true)));
}

#[test]
fn start_plans() {
    let w = |s: &[&str]| -> Vec<String> { s.iter().map(|x| x.to_string()).collect() };
    assert_eq!(plan_start(&w(&["rfe"])), StartPlan::Repl(false));
    assert_eq!(plan_start(&w(&["rfe", "--moe"])), StartPlan::Repl(true));
    assert_eq!(plan_start(&w(&["rfe", "-moe", "LS", "x"])), StartPlan::Direct(true, CommandKind::Ls, 2));
    assert_eq!(plan_start(&w(&["rfe", "t", "list"])), StartPlan::Direct(false, CommandKind::Tag, 1));
    assert_eq!(plan_start(&w(&["rfe", "quit"])), StartPlan::Direct(false, CommandKind::Shell, 1));
}
