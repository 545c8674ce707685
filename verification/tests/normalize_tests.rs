use docu::normalize::{extract_tools, parse_scriptlet, replace_file, replace_variables, tokenize};

#[test]
fn placeholder_substitution() {
    let (tools, command) = parse_scriptlet("cp report.csv /tmp/out.csv");
    assert_eq!(command, "cp $FILE $FILE");
    assert_eq!(tools, vec!["cp".to_string()]);
}

#[test]
fn pipeline_tool_extraction() {
    let tools = extract_tools("grep foo file.txt | sort | uniq -c");
    assert_eq!(
        tools,
        vec!["grep".to_string(), "sort".to_string(), "uniq".to_string()]
    );
}

#[test]
fn tool_extraction_keeps_duplicates_in_order() {
    let tools = extract_tools("cat a | grep x | cat");
    assert_eq!(
        tools,
        vec!["cat".to_string(), "grep".to_string(), "cat".to_string()]
    );
}

#[test]
fn tool_extraction_skips_blank_segments() {
    let tools = extract_tools("  | sort |   ");
    assert_eq!(tools, vec!["sort".to_string()]);
    let none = extract_tools("   ");
    assert!(none.is_empty());
}

#[test]
fn tokenize_plain_words() {
    assert_eq!(
        tokenize("echo  hello   world"),
        vec!["echo".to_string(), "hello".to_string(), "world".to_string()]
    );
}

#[test]
fn tokenize_keeps_quoted_runs() {
    assert_eq!(
        tokenize("echo \"a b\" 'c d'"),
        vec!["echo".to_string(), "\"a b\"".to_string(), "'c d'".to_string()]
    );
}

#[test]
fn tokenize_degrades_on_unclosed_quote() {
    assert_eq!(
        tokenize("echo \"a b"),
        vec!["echo".to_string(), "\"a".to_string(), "b".to_string()]
    );
}

#[test]
fn tokenize_quoted_run_ends_at_closing_quote() {
    assert_eq!(
        tokenize("\"a b\"c"),
        vec!["\"a b\"".to_string(), "c".to_string()]
    );
}

#[test]
fn replace_file_matches_dotted_names() {
    assert_eq!(replace_file("report.csv".to_string()), "$FILE");
    assert_eq!(replace_file("/tmp/out.csv".to_string()), "$FILE");
    assert_eq!(replace_file("archive.tar.gz".to_string()), "$FILE");
}

#[test]
fn replace_file_leaves_other_tokens() {
    assert_eq!(replace_file("cp".to_string()), "cp");
    assert_eq!(replace_file("-v".to_string()), "-v");
    assert_eq!(replace_file("name.".to_string()), "name.");
    assert_eq!(replace_file("a.b/c".to_string()), "a.b/c");
    assert_eq!(replace_file("".to_string()), "");
    // the dot must be preceded by at least one character
    assert_eq!(replace_file(".csv".to_string()), ".csv");
}

#[test]
fn replace_variables_maps_each_token() {
    let toks = vec!["cp".to_string(), "a.txt".to_string(), "dest".to_string()];
    assert_eq!(
        replace_variables(toks),
        vec!["cp".to_string(), "$FILE".to_string(), "dest".to_string()]
    );
}

#[test]
fn command_is_tokens_rejoined_with_single_spaces() {
    let (_, command) = parse_scriptlet("  tar   -xzf archive.tar.gz  ");
    assert_eq!(command, "tar -xzf $FILE");
}

#[test]
fn quoted_argument_is_one_token_in_command() {
    let (tools, command) = parse_scriptlet("grep \"two words\" data.log");
    assert_eq!(command, "grep \"two words\" $FILE");
    assert_eq!(tools, vec!["grep".to_string()]);
}
