use bacon_ls::diagnostic::{DocumentDiagnostics, Severity};
use bacon_ls::line_format::Bacon;

fn lines_of(content: &str) -> Vec<String> {
    content.lines().map(String::from).collect()
}

#[test]
fn test_bacon_multiline_diagnostics_production() {
    let root = "/tmp/project";
    let error_path = format!("{}/src/lib.rs", root);
    let error_path_url = format!("file://{error_path}");
    let mut content = String::new();
    content.push_str(&format!("warning|:|src/lib.rs|:|130|:|142|:|33|:|34|:|this if statement can be collapsed|:|none|:|none"));
    content.push('\n');
    content.push_str(&format!(r#"help|:|{error_path}|:|130|:|142|:|33|:|34|:|collapse nested if block|:|none|:|if Some(&the_path) == uri && !diagnostics.iter().any(
                                        |(existing_path, existing_diagnostic)| {{
                                            existing_path.path() == the_path.path()
                                                && diagnostic.range == existing_diagnostic.range
                                                && diagnostic.severity
                                                    == existing_diagnostic.severity
                                                && diagnostic.message == existing_diagnostic.message
                                        }},
                                    ) {{
                                    diagnostics.push((path, diagnostic));
                                }}"#));
    content.push('\n');
    content.push_str(&format!("warning|:|{error_path}|:|150|:|162|:|33|:|34|:|this if statement can be collapsed again|:|none|:|none"));
    content.push('\n');
    content.push_str(&format!(r#"warning|:|{error_path}|:|150|:|162|:|33|:|34|:|collapse nested if block|:|if Some(&other_path) == uri && !diagnostics.iter().any(
                                        |(existing_path, existing_diagnostic)| {{
                                            existing_path.path() == other_path.path()
                                                && diagnostic.range == existing_diagnostic.range
                                                && diagnostic.severity
                                                    == existing_diagnostic.severity
                                                && diagnostic.message == existing_diagnostic.message
                                        }},
                                    ) {{
                                    diagnostics.push((path, diagnostic));
                                }}|:|none"#));
    content.push('\n');

    let mut into = DocumentDiagnostics::new();
    Bacon::collect_export_diagnostics(&lines_of(&content), root, &Some(error_path_url.clone()), &mut into);
    let diagnostics = into.diagnostics_for(&error_path_url);
    assert_eq!(diagnostics.len(), 4);
    assert!(diagnostics[0].correction.is_none());
    assert_eq!(diagnostics[0].message.len(), 34);
    assert!(diagnostics[1].correction.is_some());
    assert_eq!(diagnostics[1].message.len(), 24);
    assert!(diagnostics[2].correction.is_none());
    assert_eq!(diagnostics[2].message.len(), 40);
    assert!(diagnostics[3].correction.is_none());
    assert_eq!(diagnostics[3].message.len(), 766);
}

#[test]
fn test_bacon_diagnostics_production_and_deduplication() {
    let root = "/tmp/project";
    let error_path = format!("{}/src/lib.rs", root);
    let error_path_url = format!("file://{error_path}");
    let mut content = String::new();
    content.push_str(&format!("error|:|{error_path}|:|352|:|352|:|9|:|20|:|cannot find value `one` in this scope|:|none|:|none\n"));
    // duplicate the line
    content.push_str(&format!("error|:|{error_path}|:|352|:|352|:|9|:|20|:|cannot find value `one` in this scope|:|none|:|none\n"));
    content.push_str(&format!("warning|:|{error_path}|:|354|:|354|:|9|:|20|:|cannot find value `two` in this scope|:|some|:|none\n"));
    content.push_str(&format!("help|:|{error_path}|:|356|:|356|:|9|:|20|:|cannot find value `three` in this scope|:|none|:|some other\n"));
    let mut into = DocumentDiagnostics::new();
    Bacon::collect_export_diagnostics(&lines_of(&content), root, &Some(error_path_url.clone()), &mut into);
    assert_eq!(into.entries().len(), 1);
    assert_eq!(into.entries()[0].diagnostics.len(), 3);
    let diagnostics_vec = into.diagnostics_for(&error_path_url);
    assert_eq!(diagnostics_vec.len(), 3);
}

#[test]
fn continuation_lines_join_into_one_record() {
    let lines = lines_of("warning|:|a.rs|:|1|:|1|:|1|:|1|:|first   \n  second\nthird|:|none|:|none\nerror|:|b.rs|:|2|:|2|:|1|:|1|:|x|:|none|:|none");
    let records = Bacon::assemble_records(&lines);
    assert_eq!(records, vec![
        "warning|:|a.rs|:|1|:|1|:|1|:|1|:|first\n  second\nthird|:|none|:|none".to_string(),
        "error|:|b.rs|:|2|:|2|:|1|:|1|:|x|:|none|:|none".to_string(),
    ]);
    let mut into = DocumentDiagnostics::new();
    Bacon::collect_export_diagnostics(&lines, "/r", &None, &mut into);
    let first = into.diagnostics_for(&"file:///r/a.rs".to_string());
    assert_eq!(first.len(), 1);
    assert_eq!(first[0].message, "first\n  second\nthird");
}

#[test]
fn malformed_record_does_not_stop_the_rest() {
    let lines = lines_of("warning:/file:1:1\nerror|:|b.rs|:|2|:|2|:|1|:|1|:|x|:|none|:|none\nhelp|:|b.rs|:|3|:|3|:|1|:|1|:|y|:|none|:|none");
    let mut into = DocumentDiagnostics::new();
    Bacon::collect_export_diagnostics(&lines, "/r", &None, &mut into);
    let got = into.diagnostics_for(&"file:///r/b.rs".to_string());
    assert_eq!(got.len(), 2);
    assert_eq!(got[0].severity, Severity::Error);
    assert_eq!(got[1].severity, Severity::Hint);
}

#[test]
fn two_identical_and_two_distinct_records_give_three() {
    let rec = "error|:|/x.rs|:|1|:|1|:|1|:|2|:|same|:|none|:|none";
    let content = format!("{rec}\n{rec}\nwarning|:|/x.rs|:|1|:|1|:|1|:|2|:|same|:|none|:|none\nerror|:|/x.rs|:|1|:|1|:|1|:|2|:|other|:|none|:|none\n");
    let mut into = DocumentDiagnostics::new();
    Bacon::collect_export_diagnostics(&lines_of(&content), "/r", &None, &mut into);
    assert_eq!(into.diagnostics_for(&"file:///x.rs".to_string()).len(), 3);
}

#[test]
fn empty_export_gives_nothing() {
    let mut into = DocumentDiagnostics::new();
    Bacon::collect_export_diagnostics(&Vec::new(), "/r", &None, &mut into);
    assert!(into.entries().is_empty());
    assert!(Bacon::assemble_records(&vec!["".to_string(), "   ".to_string()]).is_empty());
}

#[test]
fn adding_the_same_report_twice_keeps_one() {
    let (doc, d) = Bacon::parse_bacon_diagnostic_line("error|:|/a.rs|:|1|:|1|:|1|:|1|:|m|:|none|:|none", "/r").unwrap();
    let mut other = d.clone();
    other.correction = Some("fix".to_string());
    let mut into = DocumentDiagnostics::new();
    into.add(doc.clone(), d);
    into.add(doc.clone(), other);
    assert_eq!(into.diagnostics_for(&doc).len(), 1);
    assert_eq!(into.diagnostics_for(&doc)[0].correction, None);
}
