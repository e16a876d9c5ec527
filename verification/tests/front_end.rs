use rfe::words::line_target;
use rfe::managers::tag::{target_check, TargetCheck};
use rfe::subcommands::{mode_change, DisplayMode, ModeChange};
use rfe::command::{cd_target, mv_refusal_text, CdTarget};
use rfe::listing::{listing_order, render_short_format};
use rfe::pipeline::fill_placeholders_in;
use rfe::listing::{center_text, column_widths, in_gdb_folder, is_hidden_name, make_separator, pad_to_width, truncate_string};
use rfe::managers::tag::is_index_name;
use rfe::managers::paths::{lexical_parts, PathPart};
use rfe::command::{mv_into_directory, mv_refusal, MvRefusal};
use rfe::completion::context::CompletionContext;
use rfe::quote_context::is_before_closing_quote;
use rfe::managers::tag::clean_windows_path;
use rfe::cache::DirCacheTable;
use rfe::completion::candidates::{complete_tag_command, filter_tags, CandidateStyle, CompletionPlan};
use rfe::completion::hinter::hint;
use rfe::completion::manager::CompletionManager;
use rfe::listing::{
    compile_search, file_icon_and_color, join_tags, name_cell, order_by_name, search_from_root, short_line,
    summary_counts, tags_suffix, FileColor,
};
use rfe::pipeline::{split_chain, ChainState, ChainStep, SegmentOutcome};
use rfe::prompt::{prompt_shape, prompt_string, PromptShape};
use rfe::shell::{combine_output, extract_raw_output, is_cd_command, parse_cd_target, wrap_shell_command, ShellKind};
use rfe::words::{line_reference, split_command_args};

fn strings(s: &[&str]) -> Vec<String> {
    s.iter().map(|x| x.to_string()).collect()
}

#[test]
fn command_words_with_quotes() {
    assert_eq!(split_command_args("cd \"My Dir\""), strings(&["cd", "My Dir"]));
    assert_eq!(split_command_args("  ls   -la  "), strings(&["ls", "-la"]));
    assert_eq!(split_command_args("open 'it is' x"), strings(&["open", "it is", "x"]));
    assert_eq!(split_command_args("echo \"it's\""), strings(&["echo", "it's"]));
    assert_eq!(split_command_args("a\"b c\"d"), strings(&["ab cd"]));
    assert_eq!(split_command_args("x \"\" y"), strings(&["x", "y"]));
    assert_eq!(split_command_args("cd \"open end"), strings(&["cd", "open end"]));
    assert!(split_command_args("   ").is_empty());
}

#[test]
fn line_references() {
    assert_eq!(line_reference("3"), Some((3, String::new())));
    assert_eq!(line_reference("12/src/main.rs"), Some((12, "src/main.rs".to_string())));
    assert_eq!(line_reference("2\\docs"), Some((2, "docs".to_string())));
    assert_eq!(line_reference("x/src"), None);
    assert_eq!(line_reference(""), None);
}

#[test]
fn shell_cd_detection_and_target() {
    assert!(is_cd_command("  cd /tmp "));
    assert!(!is_cd_command("cd /tmp && ls"));
    assert!(!is_cd_command("cdx"));
    assert_eq!(parse_cd_target("cd  /tmp  ", None), Some("/tmp".to_string()));
    // A bare `cd` is trimmed to `cd`, which is not a `cd ` command.
    assert_eq!(parse_cd_target("cd ", Some("/home/u".to_string())), None);
    assert_eq!(parse_cd_target("cd ..", None), Some("..".to_string()));
    assert_eq!(parse_cd_target("ls", Some("/home/u".to_string())), None);
}

#[test]
fn shell_output_handling() {
    assert_eq!(combine_output("out", "err"), "out\nerr");
    assert_eq!(combine_output("", "err"), "err");
    assert_eq!(combine_output("out", ""), "out");
    assert_eq!(extract_raw_output("  /tmp/a  \n", false), "/tmp/a");
    assert_eq!(extract_raw_output("hello\n/usr/bin\n", false), "/usr/bin");
    assert_eq!(extract_raw_output("\nhello\nworld\n", false), "hello");
    assert_eq!(extract_raw_output("Path\n----\nC:\\Users\r\n", true), "C:\\Users");
    assert_eq!(extract_raw_output("", false), "");
}

#[test]
fn shell_wrapping() {
    assert_eq!(wrap_shell_command("ls", "/tmp/p", ShellKind::Posix), "ls; pwd > /tmp/p");
    assert_eq!(
        wrap_shell_command("dir", "C:\\p", ShellKind::PowerShell),
        "& { dir; (Get-Location).Path | Out-File -FilePath 'C:\\p' -Encoding UTF8 }"
    );
    assert_eq!(wrap_shell_command("dir", "C:\\p", ShellKind::Cmd), "dir & cd > \"C:\\p\"");
}

#[test]
fn icons_and_colors() {
    assert_eq!(file_icon_and_color(true, false, "rs"), ("📁", FileColor::BrightBlue));
    assert_eq!(file_icon_and_color(false, true, "rs"), ("🔗", FileColor::Cyan));
    assert_eq!(file_icon_and_color(false, false, "rs"), ("🦀", FileColor::BrightRed));
    assert_eq!(file_icon_and_color(false, false, "json").1, FileColor::BrightYellow);
}

#[test]
fn listing_lines() {
    assert_eq!(short_line(1, "📁", "a", ""), "  1. 📁 a\n");
    assert_eq!(short_line(1234, "📄", "b", " [x]"), "1234. 📄 b [x]\n");
    assert_eq!(join_tags(&strings(&["a", "b"])), "a, b");
    assert_eq!(tags_suffix(&strings(&["a", "b"]), true), " [a, b]");
    assert_eq!(tags_suffix(&strings(&["a"]), false), "");
    assert_eq!(tags_suffix(&Vec::new(), true), "");
    assert_eq!(summary_counts(&vec![true, false, true]), (2, 1));
    assert_eq!(order_by_name(&strings(&["b", "A", "c"])), vec![1, 0, 2]);
}

#[test]
fn name_cell_pads_by_display_width() {
    // The folder icon takes two columns.
    assert_eq!(name_cell("📁", "ab", 8), "📁  ab  ");
    assert_eq!(name_cell("x", "abc", 3), "x  abc");
}

#[test]
fn search_patterns() {
    assert!(compile_search(Some("a.*"), false).is_ok());
    assert_eq!(compile_search(None, false).err(), Some("Regex pattern required when using --re flag".to_string()));
    let e = compile_search(Some("("), true).err().unwrap();
    assert!(e.starts_with("Invalid regular expression: "));
    assert!(search_from_root("/usr", false));
    assert!(!search_from_root("usr", false));
    assert!(search_from_root("C:x", true));
    assert!(!search_from_root("C:x", false));
}

#[test]
fn prompts() {
    assert_eq!(prompt_string("src", false), "rfe src >");
    assert_eq!(prompt_string("src", true), "rfe 🌸 src 💖 >");
    assert_eq!(prompt_shape("rfe src >"), PromptShape::Standard("src".to_string()));
    assert_eq!(prompt_shape("rfe 🌸 src 💖 >"), PromptShape::Moe("src".to_string()));
    assert_eq!(prompt_shape("📍 Enter selection number: "), PromptShape::Plain);
}

#[test]
fn chain_state_steps() {
    let mut c = ChainState::new();
    assert_eq!(c.step(SegmentOutcome::Done(false, "/tmp".to_string()), false), ChainStep::Next);
    assert_eq!(c.previous_raw, "/tmp");
    assert_eq!(c.step(SegmentOutcome::Failed, true), ChainStep::Next);
    assert_eq!(c.previous_raw, "");
    assert_eq!(c.step(SegmentOutcome::Done(true, "x".to_string()), false), ChainStep::Next);
    assert!(c.exit);
    assert_eq!(c.step(SegmentOutcome::NeedsSelection, false), ChainStep::Stop);
    assert_eq!(c.previous_raw, "x");
    assert_eq!(c.step(SegmentOutcome::Failed, false), ChainStep::Abort);
}

#[test]
fn chain_without_arrow_is_one_command() {
    assert_eq!(split_chain("  ls -la  "), vec![("ls -la".to_string(), false)]);
    assert_eq!(split_chain("a\nb"), vec![("a b".to_string(), false)]);
    assert!(split_chain("   ").is_empty());
}

#[test]
fn command_name_completion_and_hints() {
    let m = CompletionManager::new();
    match m.plan_completion(&Vec::new(), "pw", 2) {
        CompletionPlan::Listed(prefix, items, style) => {
            assert_eq!(prefix, "pw");
            assert_eq!(items, vec![("pwd".to_string(), "Print current working directory".to_string())]);
            assert_eq!(style, CandidateStyle::Command);
        }
        other => panic!("unexpected plan {:?}", other),
    }
    assert!(matches!(m.plan_completion(&Vec::new(), "zzz", 3), CompletionPlan::Paths));
    assert_eq!(hint("pw", 2, &m), Some("d".to_string()));
    assert_eq!(hint("welc", 4, &m), Some("ome".to_string()));
    assert_eq!(hint("", 0, &m), None);
    assert_eq!(hint("zzz", 3, &m), None);
}

#[test]
fn tag_name_completion() {
    let tags = strings(&["work", "home", "wow"]);
    assert_eq!(filter_tags(&tags, "wo"), strings(&["work", "wow"]));
    assert_eq!(filter_tags(&tags, ""), tags);
    let line = "tag add f.txt wo";
    assert_eq!(complete_tag_command(line, line.len(), &tags), Some(("wo".to_string(), strings(&["work", "wow"]))));
    assert_eq!(complete_tag_command("tag get f.txt wo", 16, &tags), None);
    assert_eq!(complete_tag_command("tag add f.txt zz", 16, &tags), None);
}

#[test]
fn dir_cache_is_per_path() {
    let mut c = DirCacheTable::new();
    assert_eq!(c.get_cached_dir_entries("/a", 0), None);
    c.cache_dir_entries("/a", vec![("x".to_string(), true)], 100);
    c.cache_dir_entries("/b", vec![("y".to_string(), false)], 100);
    assert_eq!(c.get_cached_dir_entries("/a", 150), Some(vec![("x".to_string(), true)]));
    assert_eq!(c.get_cached_dir_entries("/b", 150), Some(vec![("y".to_string(), false)]));
}

#[test]
fn listed_keys_drop_the_extended_prefix_on_windows() {
    assert_eq!(clean_windows_path("\\\\?\\C:\\x", true), "C:\\x");
    assert_eq!(clean_windows_path("\\\\?\\C:\\x", false), "\\\\?\\C:\\x");
    assert_eq!(clean_windows_path("C:\\x", true), "C:\\x");
}

#[test]
fn completion_contexts_follow_the_typed_words() {
    let m = CompletionManager::new();
    // The second word of a command with subcommands is a subcommand prefix.
    assert_eq!(
        m.parse_input_for_completion("alias a", 7),
        CompletionContext::Subcommand("alias".to_string(), "a".to_string())
    );
    assert_eq!(
        m.parse_input_for_completion("tag add", 7),
        CompletionContext::Subcommand("tag".to_string(), "add".to_string())
    );
    assert_eq!(m.parse_input_for_completion("tag add ", 8), CompletionContext::Path);
    // After a valued argument whose hint names a tag, a tag is expected.
    assert_eq!(m.parse_input_for_completion("cd -tag ", 8), CompletionContext::Tag);
    assert_eq!(m.parse_input_for_completion("open -tag wo", 12), CompletionContext::Tag);
    assert_eq!(m.parse_input_for_completion("cd src", 6), CompletionContext::Path);
    assert_eq!(
        m.parse_input_for_completion("cd -ta", 6),
        CompletionContext::CommandArg("cd".to_string(), "-ta".to_string())
    );
}

#[test]
fn tag_values_are_completed_after_cd_tag() {
    let m = CompletionManager::new();
    let tags = strings(&["work", "home"]);
    match m.plan_completion(&tags, "cd -tag ", 8) {
        CompletionPlan::Tags(prefix, found) => {
            assert_eq!(prefix, "");
            assert_eq!(found, tags);
        }
        other => panic!("unexpected plan {:?}", other),
    }
    match m.plan_completion(&tags, "cd -tag wo", 10) {
        CompletionPlan::Tags(prefix, found) => {
            assert_eq!(prefix, "wo");
            assert_eq!(found, strings(&["work"]));
        }
        other => panic!("unexpected plan {:?}", other),
    }
    assert_eq!(hint("alias a", 7, &m), Some("dd".to_string()));
    assert_eq!(hint("", 5, &m), None);
}

#[test]
fn quote_after_the_cursor() {
    assert!(is_before_closing_quote("cd \"te sts\\in\"", 13));
    assert!(!is_before_closing_quote("cd file", 7));
    assert!(!is_before_closing_quote("cd file", 100));
}

#[test]
fn placeholders_take_the_previous_output() {
    assert_eq!(fill_placeholders_in("cd {}", "/tmp"), "cd /tmp");
    assert_eq!(fill_placeholders_in("mv {} {}/x", "a"), "mv a a/x");
    assert_eq!(fill_placeholders_in("echo {", "a"), "echo {");
    assert_eq!(fill_placeholders_in("ls", "a"), "ls");
}

#[test]
fn walk_filters_and_placeholder_names() {
    assert!(is_hidden_name(".git"));
    assert!(!is_hidden_name("src"));
    assert!(!is_hidden_name(""));
    assert!(in_gdb_folder(&strings(&["data", "maps.gdb", "home"])));
    assert!(!in_gdb_folder(&strings(&["data", "gdb", "home"])));
    assert!(is_index_name(".index"));
    assert!(!is_index_name("x.index"));
}

#[test]
fn long_listing_layout() {
    assert_eq!(column_widths(120, false), (59, 16, 16, 10, 0));
    assert_eq!(column_widths(120, true), (36, 16, 16, 10, 20));
    assert_eq!(column_widths(40, false), (20, 16, 16, 10, 0));
    assert_eq!(truncate_string("abcdefgh", 6), "abc...");
    assert_eq!(truncate_string("abcdefgh", 2), "ab");
    assert_eq!(truncate_string("abc", 6), "abc");
    assert_eq!(pad_to_width("ab", 4), "ab  ");
    assert_eq!(pad_to_width("abcdef", 4), "abcdef");
    assert_eq!(center_text("ab", 7), "  ab   ");
    assert_eq!(make_separator(&[1, 2]), "+---+----+");
}

#[test]
fn mv_decisions() {
    assert!(mv_into_directory("dest/", false));
    assert!(mv_into_directory("dest\\", false));
    assert!(mv_into_directory("dest", true));
    assert!(!mv_into_directory("dest", false));
    assert_eq!(mv_refusal(false, true, false, true), Some(MvRefusal::SourceMissing));
    assert_eq!(mv_refusal(true, true, false, true), Some(MvRefusal::DirectoryMissing));
    assert_eq!(mv_refusal(true, false, false, true), Some(MvRefusal::ParentMissing));
    assert_eq!(mv_refusal(true, false, false, false), None);
    assert_eq!(mv_refusal(true, true, true, true), None);
}

#[test]
fn lexical_keys() {
    let name = |s: &str| PathPart::Name(s.to_string());
    let root = PathPart::Root("/".to_string());
    let via_dot = vec![root.clone(), name("w"), name("folder1"), PathPart::Current, name(".index")];
    let via_pop = vec![root.clone(), name("w"), name("folder1"), name("sub"), PathPart::Parent, name(".index")];
    let want = vec![root.clone(), name("w"), name("folder1"), name(".index")];
    assert_eq!(lexical_parts(&via_dot), want);
    assert_eq!(lexical_parts(&via_pop), want);
    assert_eq!(lexical_parts(&vec![root.clone(), PathPart::Parent]), vec![root]);
}

#[test]
fn line_targets() {
    let paths = strings(&["/a", "/b"]);
    assert_eq!(line_target("2/x", &paths), Ok(("/b".to_string(), "x".to_string())));
    assert_eq!(line_target("1", &paths), Ok(("/a".to_string(), String::new())));
    assert_eq!(line_target("3", &paths), Err("Line number 3 is out of range (1-2)".to_string()));
    assert_eq!(line_target("0", &paths), Err("Line number 0 is out of range (1-2)".to_string()));
    assert_eq!(line_target("x", &paths), Err("Invalid line number: x".to_string()));
}

#[test]
fn tag_target_checks() {
    assert_eq!(target_check(false, false, false), TargetCheck::Missing);
    assert_eq!(target_check(false, true, false), TargetCheck::NeedsKey);
    assert_eq!(target_check(true, false, true), TargetCheck::Directory);
    assert_eq!(target_check(true, false, false), TargetCheck::NeedsKey);
}

#[test]
fn mode_changes() {
    assert_eq!(mode_change(DisplayMode::Standard, false), (ModeChange::AlreadyStandard, false));
    assert_eq!(mode_change(DisplayMode::Standard, true), (ModeChange::SwitchedToStandard, false));
    assert_eq!(mode_change(DisplayMode::Moe, true), (ModeChange::AlreadyMoe, true));
    assert_eq!(mode_change(DisplayMode::Moe, false), (ModeChange::SwitchedToMoe, true));
}

#[test]
fn cd_targets_and_mv_texts() {
    assert_eq!(cd_target(Some("-b"), Some("/p")), Ok(CdTarget::Previous("/p".to_string())));
    assert_eq!(cd_target(Some("-back"), None), Err("No previous directory available.".to_string()));
    assert_eq!(cd_target(Some(".."), None), Ok(CdTarget::Up));
    assert_eq!(cd_target(Some("~"), None), Ok(CdTarget::Home));
    assert_eq!(cd_target(None, None), Ok(CdTarget::Home));
    assert_eq!(cd_target(Some("src"), None), Ok(CdTarget::Path("src".to_string())));
    assert_eq!(mv_refusal_text(MvRefusal::ParentMissing), "Destination parent directory does not exist");
}

#[test]
fn listing_order_and_short_listing() {
    let names = strings(&["b.txt", "Zeta", "a.txt", "alpha"]);
    let is_dir = vec![false, true, false, true];
    assert_eq!(listing_order(&names, &is_dir), vec![3, 1, 2, 0]);
    let rows = vec![
        ("📁".to_string(), "src".to_string(), String::new()),
        ("📄".to_string(), "a".to_string(), " [x]".to_string()),
    ];
    assert_eq!(render_short_format(&rows), "  1. 📁 src\n  2. 📄 a [x]\n");
}
