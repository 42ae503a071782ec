use bacon_ls::diagnostic::{DocumentDiagnostics, Severity, SOURCE_TAG};
use bacon_ls::line_format::Bacon;

const ERROR_LINE: &str = "error|:|/app/github/bacon-ls/src/lib.rs|:|352|:|352|:|9|:|20|:|cannot find value `one` in this scope\n    |\n352 |         one\n    |         ^^^ help: a unit variant with a similar name exists: `None`\n    |\n   ::: /Users/matteobigoi/.rustup/toolchains/stable-aarch64-apple-darwin/lib/rustlib/src/rust/library/core/src/option.rs:576:5\n    |\n576 |     None,\n    |     ---- similarly named unit variant `None` defined here\n\nFor more information about this error, try `rustc --explain E0425`.\nerror: could not compile `bacon-ls` (lib) due to 1 previous error|:|none|:|none";

#[test]
fn test_parse_bacon_diagnostic_line_with_spans_ok() {
    let result = Bacon::parse_bacon_diagnostic_line(ERROR_LINE, "/app/github/bacon-ls");
    let (url, diagnostic) = result.unwrap();
    assert_eq!(url.to_string(), "file:///app/github/bacon-ls/src/lib.rs");
    assert_eq!(diagnostic.severity, Severity::Error);
    assert_eq!(diagnostic.source, SOURCE_TAG.to_string());
    assert_eq!(
        diagnostic.message,
        r#"cannot find value `one` in this scope
    |
352 |         one
    |         ^^^ help: a unit variant with a similar name exists: `None`
    |
   ::: /Users/matteobigoi/.rustup/toolchains/stable-aarch64-apple-darwin/lib/rustlib/src/rust/library/core/src/option.rs:576:5
    |
576 |     None,
    |     ---- similarly named unit variant `None` defined here

For more information about this error, try `rustc --explain E0425`.
error: could not compile `bacon-ls` (lib) due to 1 previous error"#
    );
    let result = Bacon::parse_bacon_diagnostic_line(ERROR_LINE, "/app/github/bacon-ls");
    let (url, diagnostic) = result.unwrap();
    assert_eq!(url.to_string(), "file:///app/github/bacon-ls/src/lib.rs");
    assert_eq!(diagnostic.severity, Severity::Error);
    assert_eq!(diagnostic.source, SOURCE_TAG.to_string());
}

#[test]
fn test_parse_bacon_diagnostic_line_with_spans_ko() {
    // Unparsable line
    let result = Bacon::parse_bacon_diagnostic_line("warning:/file:1:1", "/app/github/bacon-ls");
    assert_eq!(result, None);

    // Empty line
    let result = Bacon::parse_bacon_diagnostic_line("", "/app/github/bacon-ls");
    assert_eq!(result, None);
}

#[test]
fn export_record_scenario_error_range_without_correction() {
    let line = "error|:|src/lib.rs|:|10|:|10|:|1|:|5|:|bad code|:|none|:|none";
    let (doc, d) = Bacon::parse_bacon_diagnostic_line(line, "/work").unwrap();
    assert_eq!(doc, "file:///work/src/lib.rs");
    assert_eq!(d.severity, Severity::Error);
    assert_eq!((d.range.start.line, d.range.start.character), (9, 0));
    assert_eq!((d.range.end.line, d.range.end.character), (9, 4));
    assert_eq!(d.message, "bad code");
    assert_eq!(d.correction, None);
}

#[test]
fn positions_become_zero_based() {
    let line = "warning|:|a.rs|:|130|:|142|:|33|:|34|:|m|:|none|:|none";
    let (_, d) = Bacon::parse_bacon_diagnostic_line(line, "/r").unwrap();
    assert_eq!((d.range.start.line, d.range.start.character), (129, 32));
    assert_eq!((d.range.end.line, d.range.end.character), (141, 33));
}

#[test]
fn severity_keywords_map_as_documented() {
    assert_eq!(Bacon::parse_severity("warning"), Severity::Warning);
    for k in ["info", "information", "note", "failure-note"] {
        assert_eq!(Bacon::parse_severity(k), Severity::Information);
    }
    for k in ["hint", "help"] {
        assert_eq!(Bacon::parse_severity(k), Severity::Hint);
    }
    for k in ["error", "Warning", "", "warn"] {
        assert_eq!(Bacon::parse_severity(k), Severity::Error);
    }
}

#[test]
fn replacement_becomes_correction_unless_none() {
    let with = "help|:|/a/b.rs|:|1|:|1|:|1|:|2|:|use this|:|none|:|some other";
    let (_, d) = Bacon::parse_bacon_diagnostic_line(with, "/r").unwrap();
    assert_eq!(d.correction, Some("some other".to_string()));
    assert_eq!(d.severity, Severity::Hint);
    let without = "help|:|/a/b.rs|:|1|:|1|:|1|:|2|:|use this|:|none|:|none";
    let (_, d) = Bacon::parse_bacon_diagnostic_line(without, "/r").unwrap();
    assert_eq!(d.correction, None);
}

#[test]
fn rendered_field_replaces_message_without_escapes() {
    let line = "warning|:|/a/b.rs|:|1|:|1|:|1|:|2|:|short|:|\u{1b}[33mwarning\u{1b}[0m: long\n|:|none";
    let (_, d) = Bacon::parse_bacon_diagnostic_line(line, "/r").unwrap();
    assert_eq!(d.message, "warning: long");
}

#[test]
fn escaped_line_breaks_are_unescaped_and_one_final_break_dropped() {
    let line = "note|:|/a/b.rs|:|2|:|3|:|4|:|5|:|first\\nsecond\\n|:|none|:|none";
    let (_, d) = Bacon::parse_bacon_diagnostic_line(line, "/r").unwrap();
    assert_eq!(d.message, "first\nsecond");
    assert_eq!(d.severity, Severity::Information);
}

#[test]
fn zero_or_non_numeric_positions_are_malformed() {
    assert_eq!(Bacon::parse_bacon_diagnostic_line("error|:|a.rs|:|0|:|1|:|1|:|1|:|m|:|none|:|none", "/r"), None);
    assert_eq!(Bacon::parse_bacon_diagnostic_line("error|:|a.rs|:|x|:|1|:|1|:|1|:|m|:|none|:|none", "/r"), None);
    assert_eq!(Bacon::parse_bacon_diagnostic_line("error|:|a.rs|:|4294967296|:|1|:|1|:|1|:|m|:|none|:|none", "/r"), None);
    assert!(Bacon::parse_bacon_diagnostic_line("error|:|a.rs|:|4294967295|:|1|:|1|:|1|:|m|:|none|:|none", "/r").is_some());
}

#[test]
fn file_names_are_percent_encoded() {
    let (doc, _) = Bacon::parse_bacon_diagnostic_line("error|:|a b#é.rs|:|1|:|1|:|1|:|1|:|m|:|none|:|none", "/r").unwrap();
    assert_eq!(doc, "file:///r/a%20b%23%C3%A9.rs");
}

#[test]
fn more_than_nine_fields_are_malformed() {
    assert_eq!(Bacon::parse_bacon_diagnostic_line("error|:|a.rs|:|1|:|1|:|1|:|1|:|m|:|none|:|x|:|y", "/r"), None);
    assert_eq!(Bacon::parse_bacon_diagnostic_line("error|:|a.rs|:|1|:|1|:|1|:|1|:|m|:|none|:|none|:|", "/r"), None);
}

#[test]
fn parse_positions_reads_four_positive_integers() {
    assert_eq!(Bacon::parse_positions(&["1", "2", "3", "+4"]), Some((1, 2, 3, 4)));
    assert_eq!(Bacon::parse_positions(&["1", "2", "3"]), None);
    assert_eq!(Bacon::parse_positions(&["1", "2", "3", "-4"]), None);
}

#[test]
fn deduplicate_applies_the_document_filter() {
    let mut into = DocumentDiagnostics::new();
    let (doc, d) = Bacon::parse_bacon_diagnostic_line("error|:|/a.rs|:|1|:|1|:|1|:|1|:|m|:|none|:|none", "/r").unwrap();
    Bacon::deduplicate_diagnostics(doc.clone(), &Some("file:///other.rs".to_string()), d.clone(), &mut into);
    assert!(into.entries().is_empty());
    Bacon::deduplicate_diagnostics(doc.clone(), &Some(doc.clone()), d, &mut into);
    assert_eq!(into.entries().len(), 1);
}

#[test]
fn fields_give_a_diagnostic_with_the_stripped_rendering() {
    let fields: Vec<String> = ["warning", "a.rs", "3", "4", "5", "6", "plain", "rendered", "none"]
        .iter()
        .map(|f| f.to_string())
        .collect();
    let d = Bacon::diagnostic_from_fields(&fields, &"clean text\n".to_string()).unwrap();
    assert_eq!(d.message, "clean text");
    assert_eq!(d.severity, Severity::Warning);
    assert_eq!((d.range.start.line, d.range.start.character), (2, 4));
    assert_eq!((d.range.end.line, d.range.end.character), (3, 5));
    assert_eq!(d.correction, None);
    let mut plain = fields.clone();
    plain[7] = "none".to_string();
    let d = Bacon::diagnostic_from_fields(&plain, &"ignored".to_string()).unwrap();
    assert_eq!(d.message, "plain");
    let mut bad = fields;
    bad[4] = "0".to_string();
    assert!(Bacon::diagnostic_from_fields(&bad, &String::new()).is_none());
}

#[test]
fn escape_sequences_are_removed_from_the_left() {
    let line = "error|:|/a.rs|:|1|:|1|:|1|:|1|:|m|:|\u{1b}[\u{1b}[0;33;49mX\u{1b}[K\u{1b}[2 q!|:|none";
    let (_, d) = Bacon::parse_bacon_diagnostic_line(line, "/r").unwrap();
    assert_eq!(d.message, "\u{1b}[X!");
}
