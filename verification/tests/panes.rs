use frost::config::{ColorConfig, Config};
use frost::keys::{Key, KeyCode};
use frost::results::{Results, ResultsBody, ResultsContent, ResultsTab, NO_RESULTS_TEXT, PENDING_TEXT};
use frost::worker::{DbWorkerRequest, DbWorkerResponse};
use frost::workspace::{global_key, Focus, GlobalKey, Workspace, WorkspaceAction};

fn key(code: KeyCode) -> Key {
    Key { code, ctrl: false, shift: false, alt: false }
}

fn ctrl(code: KeyCode) -> Key {
    Key { code, ctrl: true, shift: false, alt: false }
}

fn alt(code: KeyCode) -> Key {
    Key { code, ctrl: false, shift: false, alt: true }
}

fn info(text: &str) -> ResultsContent {
    ResultsContent::Info { message: text.to_string() }
}

#[test]
fn default_config() {
    let c = Config::default();
    assert_eq!(
        c.connection_string,
        "Driver=SnowflakeDSIIDriver;Server=your-account.snowflakecomputing.com;UID=your-email@example.com;Authenticator=externalbrowser;Role=your_role;Warehouse=your_warehouse;Database=your_database;Schema=your_schema;"
    );
    let colors = ColorConfig::default();
    assert_eq!(colors.editor_border, [42, 42, 55]);
    assert_eq!(colors.editor_border_focus, [120, 120, 145]);
    assert_eq!(colors.caret_cell_bg, [238, 185, 225]);
    assert_eq!(colors.bracket_match_bg, [45, 79, 103]);
    assert_eq!(colors.table_sel_bg, [84, 84, 109]);
    assert_eq!(colors.find_match_bg, [84, 54, 77]);
    assert_eq!(colors.autocomplete_selected_bg, [238, 185, 225]);
    assert_eq!(colors.error_fg, [232, 36, 36]);
    assert_eq!(colors.syntax_cast, [255, 160, 102]);
    assert_eq!(colors.syntax_plain, [200, 200, 200]);
    assert_eq!(c.colors.syntax_keyword, [126, 156, 216]);
    assert_eq!(c.colors.default_bg, [22, 22, 22]);
}

#[test]
fn pending_tabs() {
    let tab = ResultsTab::new_pending_with_start("ctx".to_string(), 77);
    assert!(matches!(tab.content, ResultsContent::Pending));
    assert_eq!((tab.cursor_row, tab.cursor_col, tab.view_row, tab.view_col), (0, 1, 0, 0));
    assert!(tab.running);
    assert_eq!(tab.elapsed, None);
    assert_eq!(tab.run_started, Some(77));
    assert_eq!(tab.query_context, "ctx");
    let tab = ResultsTab::new_pending("c".to_string(), 5);
    assert_eq!(tab.run_started, Some(5));
}

#[test]
fn a_result_goes_to_the_first_pending_tab() {
    let mut r = Results::new();
    assert_eq!(r.title(), "Results ");
    r.tabs.push(ResultsTab::new_pending_with_start("one".to_string(), 100));
    r.tabs.push(ResultsTab::new_pending_with_start("two".to_string(), 200));
    r.tab_idx = 1;
    r.add_result(info("first"), 350);
    assert!(matches!(&r.tabs[0].content, ResultsContent::Info { message } if message == "first"));
    assert!(!r.tabs[0].running);
    assert_eq!(r.tabs[0].elapsed, Some(250));
    assert_eq!(r.tabs[0].query_context, "one");
    assert!(matches!(r.tabs[1].content, ResultsContent::Pending));
    assert_eq!(r.tab_idx, 1);
    r.add_result(info("second"), 150);
    assert_eq!(r.tabs[1].elapsed, Some(0));
    assert_eq!(r.tabs.len(), 2);
    assert_eq!(r.title(), "Results (2/2)");
}

#[test]
fn a_result_without_a_pending_tab_gets_a_new_tab() {
    let mut r = Results::new();
    r.add_result(info("a"), 10);
    assert_eq!(r.tabs.len(), 1);
    assert_eq!(r.tab_idx, 0);
    assert!(!r.tabs[0].running);
    assert_eq!(r.tabs[0].elapsed, None);
    assert_eq!(r.tabs[0].query_context, "");
    r.add_result(ResultsContent::Error { message: "e".to_string(), cursor: 0, selection: None }, 20);
    assert_eq!(r.tabs.len(), 2);
    assert_eq!(r.tab_idx, 1);
    assert_eq!(r.title(), "Results (2/2)");
}

#[test]
fn tab_shows_the_next_tab() {
    let mut r = Results::new();
    r.handle_key(key(KeyCode::Tab));
    assert_eq!(r.tab_idx, 0);
    r.add_result(info("a"), 0);
    r.handle_key(key(KeyCode::Tab));
    assert_eq!(r.tab_idx, 0);
    r.add_result(info("b"), 0);
    r.add_result(info("c"), 0);
    assert_eq!(r.tab_idx, 2);
    r.handle_key(key(KeyCode::Tab));
    assert_eq!(r.tab_idx, 0);
    r.handle_key(key(KeyCode::Enter));
    assert_eq!(r.tab_idx, 0);
    r.next_tab();
    assert_eq!(r.tab_idx, 1);
    assert_eq!(r.title(), "Results (2/3)");
}

#[test]
fn global_keys() {
    assert_eq!(global_key(ctrl(KeyCode::Char('q')), false), GlobalKey::Quit);
    assert_eq!(global_key(key(KeyCode::Char('q')), false), GlobalKey::ForPane);
    assert_eq!(global_key(key(KeyCode::Tab), false), GlobalKey::SwitchFocus);
    assert_eq!(global_key(ctrl(KeyCode::Tab), false), GlobalKey::ForPane);
    assert_eq!(global_key(ctrl(KeyCode::Enter), true), GlobalKey::Run);
    assert_eq!(global_key(key(KeyCode::Enter), true), GlobalKey::ForPane);
    assert_eq!(global_key(ctrl(KeyCode::Char('c')), true), GlobalKey::Cancel);
    assert_eq!(global_key(ctrl(KeyCode::Char('c')), false), GlobalKey::ForPane);
    assert_eq!(global_key(alt(KeyCode::Up), false), GlobalKey::Grow);
    assert_eq!(global_key(alt(KeyCode::Down), false), GlobalKey::Shrink);
    assert_eq!(global_key(alt(KeyCode::Left), false), GlobalKey::HideResults);
    assert_eq!(global_key(alt(KeyCode::Right), false), GlobalKey::HideEditor);
    assert_eq!(global_key(alt(KeyCode::Char(' ')), false), GlobalKey::ShowBoth);
    assert_eq!(global_key(key(KeyCode::Up), false), GlobalKey::ForPane);
    assert_eq!(
        global_key(Key { code: KeyCode::Char('q'), ctrl: true, shift: true, alt: false }, false),
        GlobalKey::ForPane
    );
}

#[test]
fn running_a_query_wraps_the_text() {
    let mut w = Workspace::new();
    assert!(w.run_query().is_none());
    w.apply_response(DbWorkerResponse::Connected, 0);
    assert!(w.connected);
    assert!(w.run_query().is_none());
    for c in "SELECT 1".chars() {
        assert!(matches!(w.handle_key(key(KeyCode::Char(c)), 0), WorkspaceAction::Done));
    }
    assert_eq!(w.get_current_query(), "SELECT 1");
    match w.handle_key(ctrl(KeyCode::Enter), 10) {
        WorkspaceAction::Send(DbWorkerRequest::RunQueries(qs)) => {
            assert_eq!(qs, vec![("EXECUTE IMMEDIATE $$\nSELECT 1\n$$".to_string(), String::new())]);
        }
        _ => panic!("nothing sent"),
    }
    w.running = true;
    assert!(matches!(w.handle_key(ctrl(KeyCode::Enter), 10), WorkspaceAction::Done));
    assert!(w.cancel_query());
    assert!(matches!(
        w.handle_key(ctrl(KeyCode::Char('c')), 10),
        WorkspaceAction::Send(DbWorkerRequest::Cancel)
    ));
    w.running = false;
    assert!(!w.cancel_query());
}

#[test]
fn responses_change_the_workspace() {
    let mut w = Workspace::new();
    w.apply_response(DbWorkerResponse::Connected, 0);
    w.apply_response(
        DbWorkerResponse::QueryStarted { query_idx: 0, started: 100, query_context: "c".to_string() },
        105,
    );
    assert!(w.running);
    assert_eq!(w.run_started, Some(100));
    assert_eq!(w.results.tabs.len(), 1);
    assert_eq!(w.results.tab_idx, 0);
    assert!(matches!(w.results.tabs[0].content, ResultsContent::Pending));
    w.tick(400);
    assert_eq!(w.run_duration, Some(300));
    w.apply_response(DbWorkerResponse::QueryFinished { query_idx: 0, elapsed: 500, result: info("ok") }, 620);
    assert!(!w.running);
    assert_eq!(w.focus, Focus::Results);
    assert!(matches!(&w.results.tabs[0].content, ResultsContent::Info { message } if message == "ok"));
    assert_eq!(w.results.tabs[0].elapsed, Some(520));
    w.tick(900);
    assert_eq!(w.run_duration, Some(300));
    w.focus = Focus::Editor;
    w.apply_response(
        DbWorkerResponse::QueryStarted { query_idx: 1, started: 700, query_context: String::new() },
        700,
    );
    w.apply_response(DbWorkerResponse::QueryError { query_idx: 1, elapsed: 42, message: "bad".to_string() }, 800);
    assert!(!w.running);
    assert_eq!(w.run_duration, Some(42));
    assert_eq!(w.error, Some("bad".to_string()));
    assert_eq!(w.focus, Focus::Editor);
    assert!(matches!(
        &w.results.tabs[1].content,
        ResultsContent::Error { message, cursor: 0, selection: None } if message == "bad"
    ));
}

#[test]
fn keys_of_the_workspace() {
    let mut w = Workspace::new();
    assert_eq!(w.layout(), vec![50, 50]);
    w.handle_key(alt(KeyCode::Up), 0);
    assert_eq!(w.layout(), vec![55, 45]);
    for _ in 0..10 {
        w.handle_key(alt(KeyCode::Up), 0);
    }
    assert_eq!(w.layout(), vec![70, 30]);
    for _ in 0..10 {
        w.handle_key(alt(KeyCode::Down), 0);
    }
    assert_eq!(w.layout(), vec![30, 70]);
    w.handle_key(alt(KeyCode::Left), 0);
    assert_eq!(w.layout(), vec![100]);
    assert_eq!(w.focus, Focus::Editor);
    w.handle_key(alt(KeyCode::Up), 0);
    w.handle_key(alt(KeyCode::Right), 0);
    assert_eq!(w.layout(), vec![0, 100]);
    assert_eq!(w.focus, Focus::Results);
    w.handle_key(alt(KeyCode::Char(' ')), 0);
    assert_eq!(w.layout(), vec![30, 70]);
    w.handle_key(key(KeyCode::Tab), 0);
    assert_eq!(w.focus, Focus::Editor);
    w.handle_key(key(KeyCode::Tab), 0);
    assert_eq!(w.focus, Focus::Results);
    w.handle_key(key(KeyCode::Char('x')), 0);
    assert_eq!(w.editor.rope_text(), "");
    w.focus = Focus::DbTree;
    w.handle_key(key(KeyCode::Char('x')), 0);
    w.handle_key(key(KeyCode::Tab), 0);
    assert_eq!(w.focus, Focus::Editor);
    assert!(!w.exiting);
    assert!(matches!(w.handle_key(ctrl(KeyCode::Char('q')), 0), WorkspaceAction::Quit));
    assert!(w.exiting);
}

#[test]
fn the_clipboard_goes_through_the_workspace() {
    let mut w = Workspace::new();
    for c in "abc".chars() {
        w.handle_key(key(KeyCode::Char(c)), 0);
    }
    w.handle_key(Key { code: KeyCode::Left, ctrl: false, shift: true, alt: false }, 0);
    match w.handle_key(ctrl(KeyCode::Char('c')), 0) {
        WorkspaceAction::ToClipboard(t) => assert_eq!(t, "c"),
        _ => panic!("nothing copied"),
    }
    assert!(matches!(w.handle_key(ctrl(KeyCode::Char('v')), 0), WorkspaceAction::FromClipboard));
    w.editor.paste("Z", 0);
    assert_eq!(w.editor.rope_text(), "abZ");
}

#[test]
fn what_the_results_pane_shows() {
    let mut r = Results::new();
    let screen = r.render();
    assert_eq!(screen.title, "Results ");
    assert!(matches!(&screen.body, ResultsBody::Plain(t) if t == "No results yet. Press Ctrl+Enter to run a query."));
    assert_eq!(NO_RESULTS_TEXT, "No results yet. Press Ctrl+Enter to run a query.");
    assert_eq!(PENDING_TEXT, "Query pending...");
    r.tabs.push(ResultsTab::new_pending_with_start("q".to_string(), 40));
    let screen = r.render();
    assert_eq!(screen.title, "Results (1/1)");
    assert!(matches!(screen.body, ResultsBody::Running { since: Some(40) }));
    r.tabs[0].running = false;
    assert!(matches!(&r.render().body, ResultsBody::Plain(t) if t == "Query pending..."));
    r.add_result(info("3 rows"), 50);
    assert!(matches!(&r.render().body, ResultsBody::Plain(t) if t == "3 rows"));
    r.add_result(ResultsContent::Error { message: "bad".to_string(), cursor: 0, selection: None }, 60);
    let screen = r.render();
    assert_eq!(screen.title, "Results (2/2)");
    assert!(matches!(&screen.body, ResultsBody::Error(t) if t == "bad"));
    r.tab_idx = 7;
    let screen = r.render();
    assert_eq!(screen.title, "Results (8/2)");
    assert!(matches!(screen.body, ResultsBody::Nothing));
    r.tab_idx = usize::MAX;
    assert_eq!(r.title(), format!("Results ({}/2)", (usize::MAX as u64).saturating_add(1)));
}

#[test]
fn a_table_tab_shows_the_table() {
    let rows = vec![vec!["1".to_string()]];
    let (store, _) = frost::tile_store::TileRowStore::from_rows(&["n".to_string()], rows).unwrap();
    let mut r = Results::new();
    r.add_result(ResultsContent::Table { headers: vec!["n".to_string()], tile_store: store }, 0);
    assert!(matches!(r.render().body, ResultsBody::Table));
}
