use bacon_ls::compiler::{Cargo, CompilerChild, CompilerMessage, CompilerSpan};
use bacon_ls::diagnostic::Severity;

fn span(file: &str, replacement: Option<&str>) -> CompilerSpan {
    CompilerSpan {
        file_name: file.to_string(),
        line_start: 5,
        line_end: 5,
        column_start: 1,
        column_end: 1,
        suggested_replacement: replacement.map(String::from),
    }
}

fn warning_message(file: &str) -> CompilerMessage {
    CompilerMessage {
        message_type: "diagnostic".to_string(),
        rendered: "\u{1b}[33mwarning\u{1b}[0m: unused variable\n".to_string(),
        level: "warning".to_string(),
        spans: vec![CompilerSpan { column_start: 2, column_end: 2, ..span(file, Some("fix")) }],
        children: vec![],
    }
}

#[test]
fn warning_span_with_replacement_on_disk() {
    let dir = tempfile::tempdir().unwrap();
    let file = tempfile::Builder::new().prefix("lib").suffix(".rs").tempfile_in(dir.path()).unwrap();
    let name = file.path().file_name().unwrap().to_str().unwrap().to_string();
    let cwd = dir.path().canonicalize().unwrap();
    let cwd = cwd.to_str().unwrap();
    let messages = vec![Some(warning_message(&name))];
    let result = Cargo::cargo_diagnostics(cwd, &messages);
    let entries = result.entries();
    assert_eq!(entries.len(), 1);
    assert_eq!(entries[0].document, format!("file://{cwd}/{name}"));
    let d = &entries[0].diagnostics[0];
    assert_eq!(d.severity, Severity::Warning);
    assert_eq!(d.correction, Some("fix".to_string()));
    assert_eq!(d.message, "warning: unused variable");
    assert_eq!((d.range.start.line, d.range.start.character), (4, 1));
}

#[test]
fn warning_span_with_replacement_resolved() {
    let messages = vec![Some(warning_message("lib.rs"))];
    let entries = Cargo::span_entries(&messages);
    assert_eq!(entries.len(), 1);
    let result = Cargo::resolved_diagnostics(&entries, &vec![Some("file:///work/src/lib.rs".to_string())]);
    let e = &result.entries()[0];
    assert_eq!(e.document, "file:///work/src/lib.rs");
    assert_eq!(e.diagnostics.len(), 1);
    assert_eq!(e.diagnostics[0].severity, Severity::Warning);
    assert_eq!(e.diagnostics[0].correction, Some("fix".to_string()));
    assert_eq!(e.diagnostics[0].message, "warning: unused variable");
}

#[test]
fn vanished_file_is_dropped() {
    let messages = vec![Some(warning_message("/definitely/not/here/lib.rs"))];
    let result = Cargo::cargo_diagnostics("/", &messages);
    assert!(result.entries().is_empty());
    let entries = Cargo::span_entries(&messages);
    let result = Cargo::resolved_diagnostics(&entries, &vec![None]);
    assert!(result.entries().is_empty());
}

#[test]
fn children_spans_use_their_own_level_and_message() {
    let m = CompilerMessage {
        message_type: "diagnostic".to_string(),
        rendered: "error: bad\n".to_string(),
        level: "error".to_string(),
        spans: vec![span("a.rs", None)],
        children: vec![CompilerChild {
            message: "try this".to_string(),
            level: "help".to_string(),
            spans: vec![span("a.rs", Some("x")), span("b.rs", None)],
        }],
    };
    let other = CompilerMessage { message_type: "artifact".to_string(), ..warning_message("c.rs") };
    let entries = Cargo::span_entries(&vec![Some(m), None, Some(other)]);
    assert_eq!(entries.len(), 3);
    assert_eq!(entries[0].message, "error: bad");
    assert_eq!(entries[1].level, "help");
    assert_eq!(entries[1].message, "try this");
    let result = Cargo::resolved_diagnostics(
        &entries,
        &vec![Some("file:///p/a.rs".to_string()), Some("file:///p/a.rs".to_string()), Some("file:///p/b.rs".to_string())],
    );
    let a = result.diagnostics_for(&"file:///p/a.rs".to_string());
    assert_eq!(a.len(), 2);
    assert_eq!(a[0].severity, Severity::Error);
    assert_eq!(a[1].severity, Severity::Hint);
    assert_eq!(a[1].correction, Some("x".to_string()));
    assert_eq!(result.diagnostics_for(&"file:///p/b.rs".to_string()).len(), 1);
}

#[test]
fn span_paths_anchor_relative_names() {
    let entries = Cargo::span_entries(&vec![Some(warning_message("src/lib.rs")), Some(warning_message("/abs/x.rs"))]);
    assert_eq!(Cargo::span_paths("/work", &entries), vec!["/work/src/lib.rs".to_string(), "/abs/x.rs".to_string()]);
}

#[test]
fn zero_position_span_is_dropped() {
    let mut m = warning_message("a.rs");
    m.spans[0].line_start = 0;
    let entries = Cargo::span_entries(&vec![Some(m)]);
    let result = Cargo::resolved_diagnostics(&entries, &vec![Some("file:///p/a.rs".to_string())]);
    assert!(result.entries().is_empty());
}

#[test]
fn compiler_levels_map_to_severities() {
    assert_eq!(Cargo::parse_severity("warning"), Severity::Warning);
    assert_eq!(Cargo::parse_severity("failure-note"), Severity::Warning);
    assert_eq!(Cargo::parse_severity("note"), Severity::Information);
    assert_eq!(Cargo::parse_severity("help"), Severity::Hint);
    assert_eq!(Cargo::parse_severity("error"), Severity::Error);
    assert_eq!(Cargo::parse_severity("error: internal compiler error"), Severity::Error);
}

#[test]
fn command_arguments_end_with_manifest_override() {
    assert_eq!(
        Cargo::command_arguments(" clippy  --tests\t--all-features ", "/tmp/build"),
        vec!["clippy", "--tests", "--all-features", "--manifest-path", "/tmp/build/Cargo.toml"]
    );
    assert_eq!(Cargo::command_arguments("", "/b/"), vec!["--manifest-path", "/b/Cargo.toml"]);
}

#[test]
fn env_override_splits_at_first_equals() {
    assert_eq!(Cargo::env_override("A=b=c"), Some(("A".to_string(), "b=c".to_string())));
    assert_eq!(Cargo::env_override("=x"), Some(("".to_string(), "x".to_string())));
    assert_eq!(Cargo::env_override("plain"), None);
}
