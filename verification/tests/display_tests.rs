use docu::display::{i64_string, show_all_scriptlets, show_all_scriptlets_for_tool,
    show_searched_scriptlets};
use docu::error::DocuError;
use docu::store::Store;

#[test]
fn numbers_render_in_decimal() {
    assert_eq!(i64_string(0), "0");
    assert_eq!(i64_string(7), "7");
    assert_eq!(i64_string(42), "42");
    assert_eq!(i64_string(1000), "1000");
    assert_eq!(i64_string(-13), "-13");
    assert_eq!(i64_string(i64::MAX), "9223372036854775807");
    assert_eq!(i64_string(i64::MIN), "-9223372036854775808");
}

#[test]
fn listing_renders_four_lines_per_scriptlet() {
    let mut store = Store::new();
    store
        .add_scriptlet("list files", vec!["ls"], "ls -la", "shows everything")
        .unwrap();
    let lines = show_all_scriptlets(&store).unwrap();
    assert_eq!(
        lines,
        vec![
            "list files (1)".to_string(),
            "shows everything".to_string(),
            "ls -la".to_string(),
            String::new(),
        ]
    );
}

#[test]
fn listing_is_newest_first() {
    let mut store = Store::new();
    store.add_scriptlet("old", vec![], "a", "").unwrap();
    store.add_scriptlet("new", vec![], "b", "").unwrap();
    let lines = show_all_scriptlets(&store).unwrap();
    assert_eq!(lines[0], "new (2)");
    assert_eq!(lines[4], "old (1)");
}

#[test]
fn search_listing_renders_matches() {
    let mut store = Store::new();
    store
        .add_scriptlet("disk usage", vec!["du"], "du -sh", "how much space")
        .unwrap();
    store.add_scriptlet("other", vec![], "pwd", "").unwrap();
    let lines =
        show_searched_scriptlets(&store, &vec!["space".to_string()]).unwrap();
    assert_eq!(lines.len(), 4);
    assert_eq!(lines[0], "disk usage (1)");
}

#[test]
fn tool_listing_reports_missing_tool() {
    let store = Store::new();
    assert!(matches!(
        show_all_scriptlets_for_tool(&store, "ls"),
        Err(DocuError::NotFound)
    ));
}

#[test]
fn tool_listing_renders_linked_scriptlets() {
    let mut store = Store::new();
    store
        .add_scriptlet("list files", vec!["ls"], "ls -la", "")
        .unwrap();
    store.add_scriptlet("other", vec!["du"], "du", "").unwrap();
    let lines = show_all_scriptlets_for_tool(&store, "ls").unwrap();
    assert_eq!(lines.len(), 4);
    assert_eq!(lines[0], "list files (1)");
}
