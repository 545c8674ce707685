use docu::error::DocuError;
use docu::store::{LinkRow, Store, ToolRow};
use docu::data_types::ScriptletData;

fn sample_store() -> Store {
    let mut store = Store::new();
    store
        .add_scriptlet(
            "copy report",
            vec!["cp"],
            "cp $FILE $FILE",
            "copies the monthly report",
        )
        .unwrap();
    store
        .add_scriptlet(
            "count matches",
            vec!["grep", "sort", "uniq"],
            "grep foo $FILE | sort | uniq -c",
            "counts distinct matches",
        )
        .unwrap();
    store
}

#[test]
fn round_trip_add_then_list() {
    let store = sample_store();
    let all = store.get_all_scriptlets().unwrap();
    assert_eq!(all.len(), 2);
    let matching: Vec<&ScriptletData> = all.iter().filter(|s| s.name == "copy report").collect();
    assert_eq!(matching.len(), 1);
    assert_eq!(matching[0].command, "cp $FILE $FILE");
    assert_eq!(matching[0].description, "copies the monthly report");
}

#[test]
fn round_trip_search_finds_new_record() {
    let store = sample_store();
    let found = store.search_scriptlets("report").unwrap();
    assert_eq!(found.len(), 1);
    assert_eq!(found[0].name, "copy report");
}

#[test]
fn list_all_is_newest_first() {
    let store = sample_store();
    let all = store.get_all_scriptlets().unwrap();
    assert_eq!(all[0].name, "count matches");
    assert_eq!(all[1].name, "copy report");
    assert!(all[0].id > all[1].id);
}

#[test]
fn duplicate_name_is_conflict_and_leaves_store_unchanged() {
    let mut store = sample_store();
    let before = store.get_all_scriptlets().unwrap().len();
    let r = store.add_scriptlet("copy report", vec!["cp"], "cp a b", "other");
    assert!(matches!(r, Err(DocuError::Conflict)));
    assert_eq!(store.get_all_scriptlets().unwrap().len(), before);
}

#[test]
fn search_ids_are_subset_of_listing_ids() {
    let store = sample_store();
    let all_ids: Vec<i64> = store
        .get_all_scriptlets()
        .unwrap()
        .iter()
        .map(|s| s.id)
        .collect();
    for query in ["report", "grep", "cp", "counts", "sort foo"] {
        for hit in store.search_scriptlets(query).unwrap() {
            assert!(all_ids.contains(&hit.id));
        }
    }
}

#[test]
fn removed_id_never_surfaces_again() {
    let mut store = sample_store();
    let all = store.get_all_scriptlets().unwrap();
    let doomed = all.iter().find(|s| s.name == "copy report").unwrap().id;
    store.remove_scriptlets(&vec![doomed]).unwrap();
    for query in ["report", "cp", "copies", "monthly"] {
        for hit in store.search_scriptlets(query).unwrap() {
            assert_ne!(hit.id, doomed);
        }
    }
    let left = store.get_all_scriptlets().unwrap();
    assert_eq!(left.len(), 1);
    assert_eq!(left[0].name, "count matches");
}

#[test]
fn tool_dedup_one_row_two_links() {
    let mut store = Store::new();
    store
        .add_scriptlet("first", vec!["jq"], "jq . $FILE", "pretty prints")
        .unwrap();
    store
        .add_scriptlet("second", vec!["jq"], "jq -r .x $FILE", "extracts a field")
        .unwrap();
    let tools = store.get_all_tools().unwrap();
    assert_eq!(tools.len(), 1);
    assert_eq!(tools[0].name, "jq");
    let linked = store.get_scriptlets_for_tool("jq").unwrap();
    assert_eq!(linked.len(), 2);
    assert_eq!(linked[0].name, "second");
    assert_eq!(linked[1].name, "first");
}

#[test]
fn repeated_tool_in_one_add_links_once() {
    let mut store = Store::new();
    store
        .add_scriptlet("loop", vec!["cat", "cat"], "cat $FILE | cat", "doubled")
        .unwrap();
    assert_eq!(store.get_all_tools().unwrap().len(), 1);
    assert_eq!(store.get_scriptlets_for_tool("cat").unwrap().len(), 1);
}

#[test]
fn search_is_prefix_tolerant() {
    let mut store = Store::new();
    store
        .add_scriptlet("alpha", vec![], "grepping stuff", "")
        .unwrap();
    // a prefix of an indexed word clears the cutoff on its own
    assert_eq!(store.search_scriptlets("grep").unwrap().len(), 1);
    assert_eq!(store.search_scriptlets("grepping").unwrap().len(), 1);
}

#[test]
fn search_finds_any_substring_of_a_field() {
    let store = sample_store();
    // mid-word and cross-word substrings of the command and description
    assert_eq!(store.search_scriptlets("onthly rep").unwrap().len(), 1);
    assert_eq!(store.search_scriptlets("p $FILE").unwrap().len(), 1);
    assert_eq!(store.search_scriptlets("ounts").unwrap().len(), 1);
}

#[test]
fn ranking_cutoff_excludes_weak_matches() {
    let mut store = Store::new();
    store
        .add_scriptlet("alpha", vec![], "grepping stuff", "")
        .unwrap();
    // "repp" occurs inside "grepping" — a technical hit — but "zzz" matches
    // nothing and the query is no substring of any field: below the cutoff
    assert!(store.search_scriptlets("repp zzz").unwrap().is_empty());
    // without the unmatched token the same hit is a whole-query substring
    assert_eq!(store.search_scriptlets("repp").unwrap().len(), 1);
}

#[test]
fn search_is_case_insensitive_and_multi_token() {
    let store = sample_store();
    let found = store.search_scriptlets("REPORT").unwrap();
    assert_eq!(found.len(), 1);
    // multi-token queries broaden recall: any token may match
    let found = store.search_scriptlets("report uniq").unwrap();
    assert_eq!(found.len(), 2);
}

#[test]
fn empty_query_returns_empty() {
    let store = sample_store();
    assert!(store.search_scriptlets("").unwrap().is_empty());
    assert!(store.search_scriptlets("   ").unwrap().is_empty());
}

#[test]
fn idempotent_removal() {
    let mut store = sample_store();
    let all = store.get_all_scriptlets().unwrap();
    let ids: Vec<i64> = all.iter().map(|s| s.id).collect();
    assert!(store.remove_scriptlets(&ids).is_ok());
    assert!(store.get_all_scriptlets().unwrap().is_empty());
    assert!(store.remove_scriptlets(&ids).is_ok());
    assert!(store.get_all_scriptlets().unwrap().is_empty());
}

#[test]
fn removing_unknown_id_is_not_an_error() {
    let mut store = sample_store();
    assert!(store.remove_scriptlets(&vec![9999]).is_ok());
    assert_eq!(store.get_all_scriptlets().unwrap().len(), 2);
}

#[test]
fn unknown_tool_is_not_found() {
    let store = sample_store();
    assert!(matches!(
        store.get_scriptlets_for_tool("nope"),
        Err(DocuError::NotFound)
    ));
}

#[test]
fn tool_with_no_scriptlets_is_empty_not_error() {
    let mut store = sample_store();
    let all = store.get_all_scriptlets().unwrap();
    let ids: Vec<i64> = all.iter().map(|s| s.id).collect();
    store.remove_scriptlets(&ids).unwrap();
    // the tool rows survive removal; their listings are empty, not errors
    assert!(store.get_scriptlets_for_tool("cp").unwrap().is_empty());
}

#[test]
fn tools_for_scriptlet_lists_linked_tools() {
    let store = sample_store();
    let all = store.get_all_scriptlets().unwrap();
    let counting = all.iter().find(|s| s.name == "count matches").unwrap().id;
    let tools = store.get_tools_for_scriptlet(counting).unwrap();
    let names: Vec<String> = tools.iter().map(|t| t.name.clone()).collect();
    assert_eq!(
        names,
        vec!["grep".to_string(), "sort".to_string(), "uniq".to_string()]
    );
    assert!(matches!(
        store.get_tools_for_scriptlet(9999),
        Err(DocuError::NotFound)
    ));
}

#[test]
fn from_rows_accepts_well_formed_rows() {
    let scriptlets = vec![
        ScriptletData {
            id: 1,
            name: "one".to_string(),
            command: "ls".to_string(),
            description: "".to_string(),
        },
        ScriptletData {
            id: 5,
            name: "two".to_string(),
            command: "pwd".to_string(),
            description: "prints the directory".to_string(),
        },
    ];
    let tools = vec![
        ToolRow { id: 1, name: "ls".to_string() },
        ToolRow { id: 2, name: "pwd".to_string() },
    ];
    let links = vec![
        LinkRow { tool_id: 1, scriptlet_id: 1 },
        LinkRow { tool_id: 2, scriptlet_id: 5 },
    ];
    let mut store = Store::from_rows(scriptlets, tools, links).unwrap();
    assert_eq!(store.get_all_scriptlets().unwrap().len(), 2);
    // the rebuilt index serves searches over the loaded rows
    assert_eq!(store.search_scriptlets("directory").unwrap().len(), 1);
    // new inserts continue after the highest loaded ids
    store
        .add_scriptlet("three", vec!["du"], "du -sh", "")
        .unwrap();
    let all = store.get_all_scriptlets().unwrap();
    assert_eq!(all[0].id, 6);
}

#[test]
fn from_rows_rejects_duplicate_names() {
    let scriptlets = vec![
        ScriptletData {
            id: 1,
            name: "same".to_string(),
            command: "a".to_string(),
            description: "".to_string(),
        },
        ScriptletData {
            id: 2,
            name: "same".to_string(),
            command: "b".to_string(),
            description: "".to_string(),
        },
    ];
    let r = Store::from_rows(scriptlets, vec![], vec![]);
    assert!(matches!(r, Err(DocuError::StorageUnavailable)));
}

#[test]
fn from_rows_rejects_dangling_links() {
    let r = Store::from_rows(
        vec![],
        vec![],
        vec![LinkRow { tool_id: 1, scriptlet_id: 1 }],
    );
    assert!(matches!(r, Err(DocuError::StorageUnavailable)));
}

#[test]
fn error_messages_name_each_failure() {
    assert_eq!(
        DocuError::Conflict.message(),
        "a scriptlet with this name already exists"
    );
    assert_eq!(DocuError::NotFound.message(), "no such tool or scriptlet");
    assert_eq!(
        DocuError::StorageUnavailable.message(),
        "the scriptlet storage is unavailable"
    );
    assert_eq!(
        DocuError::AccessContention.message(),
        "the scriptlet storage is locked"
    );
}
