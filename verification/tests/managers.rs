use rfe::managers::alias::{AliasError, AliasManager};
use rfe::managers::tag::{convert_unc_path_to_normal, is_valid_tag, TagError, TagManager, TagTarget};
use rfe::pattern::TagPattern;

fn key(s: &str) -> TagTarget {
    TagTarget::Key(s.to_string())
}

#[test]
fn test_alias_resolve_path() {
    let mut m = AliasManager::new();
    m.add("myfile", "/tmp/work/test.txt", true).unwrap();
    assert_eq!(m.resolve_path("@myfile"), "/tmp/work/test.txt");
    assert_eq!(m.resolve_path("@myfile/child.txt"), "/tmp/work/test.txt/child.txt");
    assert_eq!(m.resolve_path(r"@myfile\child.txt"), "/tmp/work/test.txt/child.txt");
    assert_eq!(m.resolve_path("@nonexistent"), "@nonexistent");
    assert_eq!(m.resolve_path("/some/normal/path"), "/some/normal/path");
}

#[test]
fn test_alias_manager_only_allow_existing_paths() {
    let mut m = AliasManager::new();
    assert!(m.add("file_alias", "/tmp/work/test.txt", true).is_ok());
    assert!(m.add("dir_alias", "/tmp/work", true).is_ok());
    let e = m.add("bad_alias", "/tmp/work/non_existent_path", false).unwrap_err();
    assert!(e.message().contains("Path does not exist or is not accessible"));
    let e = m.add("empty_path", "", false).unwrap_err();
    assert!(e.message().contains("Path cannot be empty"));
    let e = m.add("", "/tmp/work/test.txt", true).unwrap_err();
    assert!(e.message().contains("Alias cannot be empty"));
    assert_eq!(m.list().len(), 2);
}

#[test]
fn alias_add_then_get_then_remove() {
    let mut m = AliasManager::new();
    assert!(m.get("w").is_none());
    m.add("w", "/a", true).unwrap();
    assert_eq!(m.get("w").unwrap(), "/a");
    m.add("w", "/b", true).unwrap();
    assert_eq!(m.get("w").unwrap(), "/b");
    assert_eq!(m.list().len(), 1);
    m.remove("w").unwrap();
    assert!(m.get("w").is_none());
    assert_eq!(m.resolve_path("@w"), "@w");
    let e = m.remove("w").unwrap_err();
    assert_eq!(e, AliasError::UnknownAlias("w".to_string()));
    assert_eq!(e.message(), "Alias 'w' does not exist");
}

#[test]
fn alias_from_entries_later_wins() {
    let m = AliasManager::from_entries(vec![
        ("a".to_string(), "/one".to_string()),
        ("b".to_string(), "/two".to_string()),
        ("a".to_string(), "/three".to_string()),
    ]);
    assert_eq!(m.get("a").unwrap(), "/three");
    assert_eq!(m.get("b").unwrap(), "/two");
    assert_eq!(m.list().len(), 2);
}

#[test]
fn alias_resolve_all_paths_in_order() {
    let mut m = AliasManager::new();
    m.add("h", "/home/u", true).unwrap();
    let r = m.resolve_all_paths(&["@h/x", "y", "@h"]);
    assert_eq!(r, vec!["/home/u/x".to_string(), "y".to_string(), "/home/u".to_string()]);
}

#[test]
fn alias_error_messages() {
    assert_eq!(AliasError::EmptyAlias.message(), "Alias cannot be empty");
    assert_eq!(AliasError::EmptyPath.message(), "Path cannot be empty");
    assert_eq!(
        AliasError::PathNotFound("/x".to_string()).message(),
        "Path does not exist or is not accessible: /x"
    );
}

#[test]
fn test_tag_manager_only_allow_files() {
    let mut tm = TagManager::new();
    assert!(tm.add_tags("test.txt", key("/w/test.txt"), &["test_tag"]).is_ok());

    let r = tm.add_tags("/w", TagTarget::Directory, &["test_tag"]);
    let msg = r.unwrap_err().message();
    assert!(msg.contains("Cannot add tags to directory"));
    assert!(msg.contains("Tags can only be added to files"));

    assert!(tm.remove_tags("test.txt", key("/w/test.txt"), &["test_tag"]).is_ok());

    let msg = tm.remove_tags("/w", TagTarget::Directory, &["test_tag"]).unwrap_err().message();
    assert!(msg.contains("Cannot remove tags from directory"));
    assert!(msg.contains("Tags can only be removed from files"));

    tm.add_tags("test.txt", key("/w/test.txt"), &["another_tag"]).unwrap();
    assert!(tm.remove_all_tags("test.txt", key("/w/test.txt")).is_ok());

    let msg = tm.remove_all_tags("/w", TagTarget::Directory).unwrap_err().message();
    assert!(msg.contains("Cannot remove tags from directory"));
    assert!(msg.contains("Tags can only be removed from files"));
}

#[test]
fn test_tag_nonexistent_file() {
    let mut tm = TagManager::new();
    let r = tm.add_tags("/nonexistent/file.txt", TagTarget::Missing, &["test_tag"]);
    assert!(r.unwrap_err().message().contains("File does not exist"));
}

#[test]
fn tag_add_get_remove_roundtrip() {
    let mut tm = TagManager::new();
    tm.add_tags("a", key("/w/a"), &["t1", "t2"]).unwrap();
    assert_eq!(tm.get_tags(Some("/w/a")), vec!["t1".to_string(), "t2".to_string()]);
    tm.add_tags("a", key("/w/a"), &["t2", "t3", "t3"]).unwrap();
    assert_eq!(tm.get_tags(Some("/w/a")), vec!["t1".to_string(), "t2".to_string(), "t3".to_string()]);
    tm.remove_tags("a", key("/w/a"), &["t2", "zz"]).unwrap();
    assert_eq!(tm.get_tags(Some("/w/a")), vec!["t1".to_string(), "t3".to_string()]);
    tm.remove_tags("a", key("/w/a"), &["t1", "t3"]).unwrap();
    assert!(tm.get_tags(Some("/w/a")).is_empty());
    assert!(tm.list_all().is_empty());
    let e = tm.remove_tags("a", key("/w/a"), &["t1"]).unwrap_err();
    assert_eq!(e.message(), "No tags found for this file: a");
    assert!(tm.get_tags(None).is_empty());
}

#[test]
fn tag_add_twice_changes_nothing() {
    let mut tm = TagManager::new();
    tm.add_tags("a", key("/k"), &["x", "y"]).unwrap();
    let once = tm.get_tags(Some("/k"));
    tm.add_tags("a", key("/k"), &["x", "y"]).unwrap();
    assert_eq!(tm.get_tags(Some("/k")), once);
}

#[test]
fn tag_validation_errors() {
    let mut tm = TagManager::new();
    assert_eq!(tm.add_tags("a", key("/k"), &["ok", ""]), Err(TagError::EmptyTag));
    assert_eq!(TagError::EmptyTag.message(), "Tag cannot be empty.");
    let e = tm.add_tags("a", key("/k"), &["a b", ""]).unwrap_err();
    assert_eq!(e.message(), "Tag contains invalid characters: a b");
    for bad in ["x,y", "x;y", "x/y", "x\\y", "x\ty"] {
        assert!(!is_valid_tag(bad));
    }
    assert!(is_valid_tag("good_tag-1"));
    assert!(!is_valid_tag(""));
    assert!(tm.list_all().is_empty());
    let e = tm.add_tags("p", TagTarget::Unresolvable("cannot resolve".to_string()), &["t"]).unwrap_err();
    assert_eq!(e.message(), "cannot resolve");
}

#[test]
fn tag_get_all_and_find() {
    let mut tm = TagManager::new();
    tm.add_tags("a", key("/a"), &["rust", "cli"]).unwrap();
    tm.add_tags("b", key("/b"), &["cli", "docs"]).unwrap();
    // Each tag once, in order of first use.
    let all = tm.get_all_tags();
    assert_eq!(all, vec!["rust".to_string(), "cli".to_string(), "docs".to_string()]);

    let p_cli = TagPattern::new("^cli$").unwrap();
    let p_r = TagPattern::new("^ru").unwrap();
    assert!(tm.file_matches_tags(Some("/a"), &[TagPattern::new("^cli$").unwrap(), TagPattern::new("^ru").unwrap()]));
    assert!(!tm.file_matches_tags(Some("/b"), &[TagPattern::new("^ru").unwrap()]));
    assert!(!tm.file_matches_tags(Some("/zzz"), &[]));
    assert!(tm.file_matches_tags(Some("/b"), &[]));
    let found = tm.find_files_by_tags(&[p_cli]);
    assert_eq!(found.len(), 2);
    assert_eq!(found[0].0, "/a");
    let found = tm.find_files_by_tags(&[p_r]);
    assert_eq!(found, vec![("/a".to_string(), vec!["rust".to_string(), "cli".to_string()])]);
}

#[test]
fn tag_restore_and_backup_missing() {
    let mut tm = TagManager::new();
    tm.add_tags("a", key("/a"), &["x"]).unwrap();
    assert_eq!(tm.restore(None), Err(TagError::BackupMissing));
    assert_eq!(tm.get_tags(Some("/a")), vec!["x".to_string()]);
    tm.restore(Some(vec![("/b".to_string(), vec!["y".to_string()])])).unwrap();
    assert!(tm.get_tags(Some("/a")).is_empty());
    assert_eq!(tm.get_tags(Some("/b")), vec!["y".to_string()]);
}

#[test]
fn unc_paths_are_normalized_on_windows_only() {
    assert_eq!(convert_unc_path_to_normal("\\\\?\\UNC\\srv\\share\\a", true), "\\\\srv\\share\\a");
    assert_eq!(convert_unc_path_to_normal("UNC\\srv\\a", true), "\\\\srv\\a");
    assert_eq!(convert_unc_path_to_normal("\\\\?\\C:\\x", true), "C:\\x");
    assert_eq!(convert_unc_path_to_normal("C:\\x", true), "C:\\x");
    assert_eq!(convert_unc_path_to_normal("\\\\?\\C:\\x", false), "\\\\?\\C:\\x");

    let mut tm = TagManager::from_entries(vec![("\\\\?\\C:\\x".to_string(), vec!["t".to_string()])]);
    assert!(tm.migrate_unc_paths(true));
    assert_eq!(tm.get_tags(Some("C:\\x")), vec!["t".to_string()]);
    assert!(!tm.migrate_unc_paths(true));
}

#[test]
fn tables_survive_a_reload() {
    let mut am = AliasManager::new();
    am.add("wrk", "/work", true).unwrap();
    let reloaded = AliasManager::from_entries(am.list().clone());
    assert_eq!(reloaded.get("wrk"), Some(&"/work".to_string()));
    let mut tm = TagManager::new();
    tm.add_tags("f", key("/f"), &["x"]).unwrap();
    let reloaded = TagManager::from_entries(tm.list_all().clone());
    assert_eq!(reloaded.get_tags(Some("/f")), vec!["x".to_string()]);
}
