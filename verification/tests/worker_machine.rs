use frost::results::ResultsContent;
use frost::tile_store::TileRowStore;
use frost::worker::{
    cell_text, decimal, failure_message, info_message, DbWorkerRequest, DbWorkerResponse,
    FailureStage, Outcome, Phase, Worker, WorkerAction, WorkerEvent,
};

fn connected() -> Worker {
    let (mut w, first) = Worker::new();
    assert!(matches!(first, WorkerAction::CreateEnvironment));
    let a = w.step(WorkerEvent::Environment(true), 0);
    assert!(matches!(a[..], [WorkerAction::Connect]));
    let a = w.step(WorkerEvent::Connection(true), 0);
    assert!(matches!(a[..], [WorkerAction::Emit(DbWorkerResponse::Connected), WorkerAction::InitSession]));
    let a = w.step(WorkerEvent::SessionReady, 0);
    assert!(matches!(a[..], [WorkerAction::WaitRequest]));
    assert_eq!(w.phase(), Phase::Idle);
    w
}

fn batch(sqls: &[&str]) -> WorkerEvent {
    WorkerEvent::Request(Some(DbWorkerRequest::RunQueries(
        sqls.iter().map(|s| (s.to_string(), "ctx".to_string())).collect(),
    )))
}

fn kinds(actions: &[WorkerAction]) -> Vec<String> {
    actions
        .iter()
        .map(|a| match a {
            WorkerAction::Emit(DbWorkerResponse::Connected) => "Connected".to_string(),
            WorkerAction::Emit(DbWorkerResponse::QueryStarted { query_idx, .. }) => format!("Started({})", query_idx),
            WorkerAction::Emit(DbWorkerResponse::QueryFinished { query_idx, result, .. }) => match result {
                ResultsContent::Table { .. } => format!("Finished({}, Table)", query_idx),
                ResultsContent::Info { .. } => format!("Finished({}, Info)", query_idx),
                _ => format!("Finished({}, ?)", query_idx),
            },
            WorkerAction::Emit(DbWorkerResponse::QueryError { query_idx, .. }) => format!("Error({})", query_idx),
            WorkerAction::CreateEnvironment => "CreateEnvironment".to_string(),
            WorkerAction::Connect => "Connect".to_string(),
            WorkerAction::InitSession => "InitSession".to_string(),
            WorkerAction::WaitRequest => "WaitRequest".to_string(),
            WorkerAction::Allocate => "Allocate".to_string(),
            WorkerAction::Run { sql } => format!("Run({})", sql),
            WorkerAction::ClearSlot => "ClearSlot".to_string(),
            WorkerAction::Exit => "Exit".to_string(),
        })
        .collect()
}

#[test]
fn a_batch_with_a_failing_statement() {
    let mut w = connected();
    let mut log: Vec<String> = Vec::new();
    log.extend(kinds(&w.step(batch(&["SELECT 1", "BOGUS"]), 100)));
    log.extend(kinds(&w.step(WorkerEvent::Allocated(None), 110)));
    assert!(w.slot_occupied());
    let (store, _) = TileRowStore::from_rows(&["1".to_string()], vec![vec!["1".to_string()]]).unwrap();
    let outcome = Outcome::Table { headers: vec!["1".to_string()], tile_store: store };
    log.extend(kinds(&w.step(WorkerEvent::Ran(outcome), 150)));
    assert!(!w.slot_occupied());
    log.extend(kinds(&w.step(WorkerEvent::Allocated(None), 160)));
    let outcome = Outcome::Failed { stage: FailureStage::Execute, detail: "syntax error".to_string() };
    log.extend(kinds(&w.step(WorkerEvent::Ran(outcome), 190)));
    assert_eq!(
        log,
        vec![
            "Allocate",
            "Started(0)",
            "Run(SELECT 1)",
            "ClearSlot",
            "Finished(0, Table)",
            "Allocate",
            "Started(1)",
            "Run(BOGUS)",
            "ClearSlot",
            "Error(1)",
            "WaitRequest",
        ]
    );
    let responses: Vec<&String> = log.iter().filter(|k| k.contains('(') && !k.starts_with("Run")).collect();
    assert_eq!(responses, vec!["Started(0)", "Finished(0, Table)", "Started(1)", "Error(1)"]);
    assert_eq!(w.phase(), Phase::Idle);
}

#[test]
fn responses_carry_times_and_messages() {
    let mut w = connected();
    w.step(batch(&["UPDATE t SET x = 1"]), 1000);
    let a = w.step(WorkerEvent::Allocated(None), 1010);
    match &a[0] {
        WorkerAction::Emit(DbWorkerResponse::QueryStarted { query_idx, started, query_context }) => {
            assert_eq!(*query_idx, 0);
            assert_eq!(*started, 1010);
            assert_eq!(query_context, "ctx");
        }
        _ => panic!("no start"),
    }
    let a = w.step(WorkerEvent::Ran(Outcome::NoData { affected: Some(3) }), 1510);
    match &a[1] {
        WorkerAction::Emit(DbWorkerResponse::QueryFinished { query_idx, elapsed, result }) => {
            assert_eq!(*query_idx, 0);
            assert_eq!(*elapsed, 500);
            match result {
                ResultsContent::Info { message } => assert_eq!(message, "Statement affected 3 rows"),
                _ => panic!("no info"),
            }
        }
        _ => panic!("no finish"),
    }
}

#[test]
fn a_statement_that_cannot_be_allocated_fails_alone() {
    let mut w = connected();
    w.step(batch(&["A", "B"]), 0);
    let a = w.step(WorkerEvent::Allocated(Some("no handle".to_string())), 5);
    assert_eq!(kinds(&a), vec!["Started(0)", "Error(0)", "Allocate"]);
    match &a[1] {
        WorkerAction::Emit(DbWorkerResponse::QueryError { message, elapsed, .. }) => {
            assert_eq!(message, "Failed to create statement: no handle");
            assert_eq!(*elapsed, 0);
        }
        _ => panic!("no error"),
    }
    assert!(!w.slot_occupied());
    let a = w.step(WorkerEvent::Allocated(None), 6);
    assert_eq!(kinds(&a), vec!["Started(1)", "Run(B)"]);
}

#[test]
fn a_cancelled_statement_gives_one_error_and_an_empty_slot() {
    let mut w = connected();
    w.step(batch(&["SELECT slow"]), 0);
    w.step(WorkerEvent::Allocated(None), 1);
    assert!(w.slot_occupied());
    assert_eq!(w.phase(), Phase::Running);
    let outcome = Outcome::Failed { stage: FailureStage::Execute, detail: "cancelled".to_string() };
    let a = w.step(WorkerEvent::Ran(outcome), 2000);
    assert_eq!(kinds(&a), vec!["ClearSlot", "Error(0)", "WaitRequest"]);
    assert!(!w.slot_occupied());
    let a = w.step(WorkerEvent::Request(Some(DbWorkerRequest::Cancel)), 2001);
    assert_eq!(kinds(&a), vec!["WaitRequest"]);
    assert_eq!(w.phase(), Phase::Idle);
}

#[test]
fn without_a_driver_the_worker_only_waits_for_quit() {
    let (mut w, _) = Worker::new();
    let a = w.step(WorkerEvent::Environment(false), 0);
    assert_eq!(kinds(&a), vec!["WaitRequest"]);
    assert_eq!(w.phase(), Phase::Degraded);
    let a = w.step(batch(&["SELECT 1"]), 0);
    assert_eq!(kinds(&a), vec!["WaitRequest"]);
    let a = w.step(WorkerEvent::Request(Some(DbWorkerRequest::Cancel)), 0);
    assert_eq!(kinds(&a), vec!["WaitRequest"]);
    let a = w.step(WorkerEvent::Request(Some(DbWorkerRequest::Quit)), 0);
    assert_eq!(kinds(&a), vec!["Exit"]);
    assert_eq!(w.phase(), Phase::Stopped);
}

#[test]
fn a_failed_connection_degrades_the_worker() {
    let (mut w, _) = Worker::new();
    w.step(WorkerEvent::Environment(true), 0);
    let a = w.step(WorkerEvent::Connection(false), 0);
    assert_eq!(kinds(&a), vec!["WaitRequest"]);
    assert_eq!(w.phase(), Phase::Degraded);
    let a = w.step(WorkerEvent::Request(None), 0);
    assert_eq!(kinds(&a), vec!["Exit"]);
}

#[test]
fn idle_requests() {
    let mut w = connected();
    assert_eq!(kinds(&w.step(batch(&[]), 0)), vec!["WaitRequest"]);
    assert_eq!(w.phase(), Phase::Idle);
    assert_eq!(kinds(&w.step(WorkerEvent::Ran(Outcome::NoData { affected: None }), 0)), vec!["WaitRequest"]);
    assert_eq!(kinds(&w.step(WorkerEvent::Request(Some(DbWorkerRequest::Quit)), 0)), vec!["Exit"]);
    assert_eq!(kinds(&w.step(WorkerEvent::SessionReady, 0)), vec!["Exit"]);
}

#[test]
fn an_event_out_of_turn_asks_again() {
    let mut w = connected();
    w.step(batch(&["X"]), 0);
    assert_eq!(kinds(&w.step(WorkerEvent::SessionReady, 0)), vec!["Allocate"]);
    w.step(WorkerEvent::Allocated(None), 0);
    assert_eq!(kinds(&w.step(WorkerEvent::Request(Some(DbWorkerRequest::Cancel)), 0)), vec!["Run(X)"]);
    assert_eq!(w.phase(), Phase::Running);
}

#[test]
fn info_messages() {
    assert_eq!(info_message(Some(1)), "Statement affected 1 row");
    assert_eq!(info_message(Some(2)), "Statement affected 2 rows");
    assert_eq!(info_message(Some(1234567890123)), "Statement affected 1234567890123 rows");
    assert_eq!(info_message(Some(i64::MAX)), format!("Statement affected {} rows", i64::MAX));
    assert_eq!(info_message(Some(0)), "Statement executed successfully (no rows affected).");
    assert_eq!(info_message(Some(-1)), "Statement executed successfully.");
    assert_eq!(info_message(None), "Statement executed successfully.");
}

#[test]
fn decimal_numbers() {
    assert_eq!(decimal(0), "0");
    assert_eq!(decimal(7), "7");
    assert_eq!(decimal(10), "10");
    assert_eq!(decimal(9054), "9054");
    assert_eq!(decimal(u64::MAX), u64::MAX.to_string());
}

#[test]
fn failure_messages() {
    assert_eq!(failure_message(FailureStage::Execute, "boom"), "Query execution failed: boom");
    assert_eq!(failure_message(FailureStage::ColumnCount, "e"), "Failed to get column count: e");
    assert_eq!(failure_message(FailureStage::ColumnName, "e"), "Failed to get column name: e");
    assert_eq!(failure_message(FailureStage::TileStore, "e"), "Failed to create tile store: e");
    assert_eq!(failure_message(FailureStage::CreateStatement, ""), "Failed to create statement: ");
}

#[test]
fn cell_texts() {
    assert_eq!(cell_text(Some("v".to_string())), "v");
    assert_eq!(cell_text(Some(String::new())), "");
    assert_eq!(cell_text(None), "<Frost-NULL>");
}
