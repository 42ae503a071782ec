use bacon_ls::diagnostic::DocumentDiagnostics;
use bacon_ls::line_format::Bacon;
use bacon_ls::sync::{
    batch_triggers_refresh, export_publications, Backend, Supervisor, SupervisorAction, SupervisorEvent,
    SyncEngine, WatchEventKind,
};

fn sorted(mut v: Vec<String>) -> Vec<String> {
    v.sort();
    v
}

#[test]
fn three_modify_events_in_one_batch_give_one_refresh() {
    let batch = vec![WatchEventKind::Modify, WatchEventKind::Modify, WatchEventKind::Modify];
    assert!(batch_triggers_refresh(&batch));
    let mut engine = SyncEngine::new(Backend::Bacon);
    engine.document_opened("file:///a.rs".to_string());
    assert_eq!(engine.documents_to_refresh(&batch), vec!["file:///a.rs".to_string()]);
}

#[test]
fn batches_without_modification_trigger_nothing() {
    assert!(!batch_triggers_refresh(&vec![WatchEventKind::Create, WatchEventKind::Access]));
    assert!(!batch_triggers_refresh(&vec![]));
    let mut engine = SyncEngine::new(Backend::Bacon);
    engine.document_opened("file:///a.rs".to_string());
    assert!(engine.documents_to_refresh(&vec![WatchEventKind::Create]).is_empty());
}

#[test]
fn cancellation_kills_running_bacon_and_resolves() {
    let mut s = Supervisor::new();
    assert!(!s.is_finished());
    assert_eq!(s.on_event(SupervisorEvent::Cancelled), SupervisorAction::KillChild);
    assert!(s.is_finished());
    assert_eq!(s, Supervisor::Killed);
    assert_eq!(s.on_event(SupervisorEvent::ChildExited), SupervisorAction::Release);
    assert_eq!(s, Supervisor::Killed);
}

#[test]
fn bacon_exit_resolves_without_kill() {
    let mut s = Supervisor::new();
    assert_eq!(s.on_event(SupervisorEvent::ChildExited), SupervisorAction::Release);
    assert_eq!(s, Supervisor::Exited);
    assert_eq!(s.on_event(SupervisorEvent::Cancelled), SupervisorAction::Release);
}

#[test]
fn open_close_rename_delete_track_the_open_set() {
    let mut e = SyncEngine::new(Backend::Cargo);
    assert_eq!(e.document_opened("file:///a".to_string()), vec!["file:///a".to_string()]);
    e.document_opened("file:///b".to_string());
    e.document_opened("file:///a".to_string());
    assert_eq!(sorted(e.open_documents()), vec!["file:///a".to_string(), "file:///b".to_string()]);
    assert_eq!(e.document_renamed(&"file:///a".to_string(), "file:///c".to_string()), vec!["file:///c".to_string()]);
    assert_eq!(sorted(e.open_documents()), vec!["file:///b".to_string(), "file:///c".to_string()]);
    e.document_closed(&"file:///b".to_string());
    e.document_deleted(&"file:///c".to_string());
    assert!(e.open_documents().is_empty());
}

#[test]
fn versions_increase_and_cancel_stops_refresh() {
    let mut e = SyncEngine::new(Backend::Bacon);
    assert_eq!(e.next_version(), 1);
    assert_eq!(e.next_version(), 2);
    e.document_opened("file:///a".to_string());
    e.cancel();
    assert!(e.is_cancelled());
    assert!(e.documents_to_refresh(&vec![WatchEventKind::Modify]).is_empty());
}

#[test]
fn compiler_pass_clears_requested_document_without_diagnostics() {
    let mut e = SyncEngine::new(Backend::Cargo);
    e.document_opened("file:///open.rs".to_string());
    let mut result = DocumentDiagnostics::new();
    let (_, d) = Bacon::parse_bacon_diagnostic_line("error|:|/x|:|1|:|1|:|1|:|1|:|m|:|none|:|none", "/").unwrap();
    result.add("file:///open.rs".to_string(), d.clone());
    result.add("file:///closed.rs".to_string(), d);
    let plan = e.compiler_publications(&"file:///req.rs".to_string(), &result, 7);
    assert_eq!(plan.len(), 2);
    assert_eq!(plan[0].document, "file:///req.rs");
    assert!(plan[0].diagnostics.is_empty());
    assert_eq!(plan[1].document, "file:///open.rs");
    assert_eq!(plan[1].diagnostics.len(), 1);
    assert!(plan.iter().all(|p| p.version == 7));
    let plan = e.compiler_publications(&"file:///open.rs".to_string(), &result, 8);
    assert_eq!(plan.len(), 1);
    e.document_opened("file:///fixed.rs".to_string());
    let plan = e.compiler_publications(&"file:///open.rs".to_string(), &result, 9);
    assert_eq!(plan.len(), 2);
    assert_eq!(plan[1].document, "file:///fixed.rs");
    assert!(plan[1].diagnostics.is_empty());
    let plan = e.compiler_publications(&"file:///fixed.rs".to_string(), &result, 10);
    assert_eq!(plan.len(), 2);
    assert_eq!(plan[0].document, "file:///fixed.rs");
    assert_eq!(plan[1].document, "file:///open.rs");
}

#[test]
fn export_pass_publishes_each_document_even_when_empty() {
    let mut result = DocumentDiagnostics::new();
    let (doc, d) = Bacon::parse_bacon_diagnostic_line("error|:|/x|:|1|:|1|:|1|:|1|:|m|:|none|:|none", "/").unwrap();
    result.add(doc.clone(), d);
    let plan = export_publications(&vec![doc.clone(), "file:///y".to_string()], &result, 3);
    assert_eq!(plan.len(), 2);
    assert_eq!(plan[0].diagnostics.len(), 1);
    assert!(plan[1].diagnostics.is_empty());
    assert_eq!(plan[1].version, 3);
}
