//! The workspace: the editor and the results pane side by side, the
//! focus between them, and what the responses of the query worker and the
//! keys that are not for a pane do to them.

use vstd::prelude::*;
use crate::editor::{Editor, KeyOutcome};
use crate::keys::{command_for, Command, Key, KeyCode};
use crate::results::{
    elapsed_since, first_pending, lemma_first_pending_range, Results, ResultsContent, ResultsTab,
};
use crate::worker::{DbWorkerRequest, DbWorkerResponse};

verus! {

/// The pane that takes the keys.
#[derive(Clone, Copy, Debug, PartialEq, Eq)]
pub enum Focus {
    Editor,
    Results,
    DbTree,
}

/// The step by which the split between the panes moves.
pub const SPLIT_STEP: i16 = 5;

/// What is left to do after a key press.
pub enum WorkspaceAction {
    /// Nothing.
    Done,
    /// End the program.
    Quit,
    /// Send the request to the query worker.
    Send(DbWorkerRequest),
    /// Put this text on the clipboard.
    ToClipboard(String),
    /// Fetch the text of the clipboard and hand it to `paste` of the editor.
    FromClipboard,
}

/// The state of the user interface.
pub struct Workspace {
    pub editor: Editor,
    pub results: Results,
    pub focus: Focus,
    pub running: bool,
    pub run_started: Option<u64>,
    pub run_duration: Option<u64>,
    pub error: Option<String>,
    pub connected: bool,
    pub exiting: bool,
    pub split_offset: i16,
    pub min_split_offset: i16,
    pub max_split_offset: i16,
    pub results_hidden: bool,
    pub editor_hidden: bool,
}

/// What a key does that is not for a pane.
#[derive(Clone, Copy, Debug, PartialEq, Eq)]
pub enum GlobalKey {
    Quit,
    SwitchFocus,
    Run,
    Cancel,
    Grow,
    Shrink,
    HideResults,
    HideEditor,
    ShowBoth,
    /// The key is for the pane that has the focus.
    ForPane,
}

/// What a key does in a workspace that runs a statement or not.
pub open spec fn global_key_for(key: Key, running: bool) -> GlobalKey {
    let only_ctrl = key.ctrl && !key.shift && !key.alt;
    let only_alt = key.alt && !key.shift && !key.ctrl;
    let plain = !key.ctrl && !key.shift && !key.alt;
    match key.code {
        KeyCode::Char(c) => if c == 'q' && only_ctrl {
            GlobalKey::Quit
        } else if c == 'c' && only_ctrl && running {
            GlobalKey::Cancel
        } else if c == ' ' && only_alt {
            GlobalKey::ShowBoth
        } else {
            GlobalKey::ForPane
        },
        KeyCode::Tab => if plain {
            GlobalKey::SwitchFocus
        } else {
            GlobalKey::ForPane
        },
        KeyCode::Enter => if only_ctrl {
            GlobalKey::Run
        } else {
            GlobalKey::ForPane
        },
        KeyCode::Up => if only_alt {
            GlobalKey::Grow
        } else {
            GlobalKey::ForPane
        },
        KeyCode::Down => if only_alt {
            GlobalKey::Shrink
        } else {
            GlobalKey::ForPane
        },
        KeyCode::Left => if only_alt {
            GlobalKey::HideResults
        } else {
            GlobalKey::ForPane
        },
        KeyCode::Right => if only_alt {
            GlobalKey::HideEditor
        } else {
            GlobalKey::ForPane
        },
        _ => GlobalKey::ForPane,
    }
}

/// What a key does in a workspace that runs a statement or not.
pub fn global_key(key: Key, running: bool) -> (g: GlobalKey)
    ensures
        g == global_key_for(key, running),
{
    let only_ctrl = key.ctrl && !key.shift && !key.alt;
    let only_alt = key.alt && !key.shift && !key.ctrl;
    let plain = !key.ctrl && !key.shift && !key.alt;
    match key.code {
        KeyCode::Char(c) => {
            if c == 'q' && only_ctrl {
                GlobalKey::Quit
            } else if c == 'c' && only_ctrl && running {
                GlobalKey::Cancel
            } else if c == ' ' && only_alt {
                GlobalKey::ShowBoth
            } else {
                GlobalKey::ForPane
            }
        },
        KeyCode::Tab => {
            if plain {
                GlobalKey::SwitchFocus
            } else {
                GlobalKey::ForPane
            }
        },
        KeyCode::Enter => {
            if only_ctrl {
                GlobalKey::Run
            } else {
                GlobalKey::ForPane
            }
        },
        KeyCode::Up => {
            if only_alt {
                GlobalKey::Grow
            } else {
                GlobalKey::ForPane
            }
        },
        KeyCode::Down => {
            if only_alt {
                GlobalKey::Shrink
            } else {
                GlobalKey::ForPane
            }
        },
        KeyCode::Left => {
            if only_alt {
                GlobalKey::HideResults
            } else {
                GlobalKey::ForPane
            }
        },
        KeyCode::Right => {
            if only_alt {
                GlobalKey::HideEditor
            } else {
                GlobalKey::ForPane
            }
        },
        _ => GlobalKey::ForPane,
    }
}

/// The statement that is sent for the text `query` of the editor.
pub open spec fn wrapped_query(query: Seq<char>) -> Seq<char> {
    "EXECUTE IMMEDIATE $$\n"@ + query + "\n$$"@
}

/// The share of the height that the editor gets, in percent, for a
/// split that was moved by `split_offset`.
pub open spec fn editor_percent_for(split_offset: int) -> int {
    if 50 + split_offset < 20 {
        20
    } else if 50 + split_offset > 80 {
        80
    } else {
        50 + split_offset
    }
}

/// The shares of the height of the areas from the top, in percent.
pub open spec fn layout_for(split_offset: int, results_hidden: bool, editor_hidden: bool) -> Seq<
    u16,
> {
    if results_hidden {
        seq![100u16]
    } else if editor_hidden {
        seq![0u16, 100u16]
    } else {
        seq![
            editor_percent_for(split_offset) as u16,
            (100 - editor_percent_for(split_offset)) as u16,
        ]
    }
}

impl Workspace {
    /// The editor is well formed and the split is within its bounds.
    pub open spec fn inv(&self) -> bool {
        &&& self.editor.inv()
        &&& self.min_split_offset == -20
        &&& self.max_split_offset == 20
        &&& self.min_split_offset <= self.split_offset <= self.max_split_offset
    }

    /// How far the split was moved from the middle.
    pub open spec fn split(&self) -> int {
        self.split_offset as int
    }

    /// A workspace with an empty editor and no results, not connected yet.
    pub fn new() -> (w: Workspace)
        ensures
            w.inv(),
            w.editor@.text.len() == 0,
            w.editor@.caret == 0,
            w.results.tabs@.len() == 0,
            w.results.tab_idx == 0,
            w.focus == Focus::Editor,
            !w.running,
            w.run_started is None,
            w.run_duration is None,
            w.error is None,
            !w.connected,
            !w.exiting,
            w.split() == 0,
            !w.results_hidden,
            !w.editor_hidden,
    {
        Workspace {
            editor: Editor::new(),
            results: Results::new(),
            focus: Focus::Editor,
            running: false,
            run_started: None,
            run_duration: None,
            error: None,
            connected: false,
            exiting: false,
            split_offset: 0,
            min_split_offset: -20,
            max_split_offset: 20,
            results_hidden: false,
            editor_hidden: false,
        }
    }

    /// The text to run: the selection of the editor, or its whole text.
    pub fn get_current_query(&self) -> (q: String)
        requires
            self.inv(),
        ensures
            q@ == match self.editor@.selection() {
                Some((a, b)) => crate::history::slice(self.editor@.text, a, b),
                None => self.editor@.text,
            },
    {
        self.editor.get_current_query()
    }

    /// The request to send in order to run the current query. There is
    /// none while a statement runs, without a connection, or without text.
    pub fn run_query(&self) -> (request: Option<DbWorkerRequest>)
        requires
            self.inv(),
        ensures
            ({
                let query = match self.editor@.selection() {
                    Some((a, b)) => crate::history::slice(self.editor@.text, a, b),
                    None => self.editor@.text,
                };
                if self.running || !self.connected || query.len() == 0 {
                    request is None
                } else {
                    &&& request matches Some(DbWorkerRequest::RunQueries(qs))
                    &&& qs@.len() == 1
                    &&& qs@[0].0@ == wrapped_query(query)
                    &&& qs@[0].1@.len() == 0
                }
            }),
    {
        if self.running || !self.connected {
            return None;
        }
        let query = self.get_current_query();
        if query.as_str().is_empty() {
            return None;
        }
        let mut wrapped = String::from_str("EXECUTE IMMEDIATE $$\n");
        wrapped.append(query.as_str());
        wrapped.append("\n$$");
        let mut queries: Vec<(String, String)> = Vec::new();
        queries.push((wrapped, String::new()));
        Some(DbWorkerRequest::RunQueries(queries))
    }

    /// Whether to ask the worker to cancel: only while a statement runs.
    pub fn cancel_query(&self) -> (send: bool)
        ensures
            send == self.running,
    {
        self.running
    }

    /// Takes in a response of the worker at the time `now`. Returns the
    /// index of the tab that took the result, if the response brought one.
    pub fn apply_response(&mut self, response: DbWorkerResponse, now: u64) -> (at: Option<usize>)
        requires
            old(self).inv(),
        ensures
            final(self).inv(),
            at == match response {
                DbWorkerResponse::QueryFinished { .. }
                | DbWorkerResponse::QueryError { .. } => Some(
                    placed_at(old(self).results) as usize,
                ),
                _ => None,
            },
            final(self).editor == old(self).editor,
            final(self).split() == old(self).split(),
            final(self).results_hidden == old(self).results_hidden,
            final(self).editor_hidden == old(self).editor_hidden,
            final(self).exiting == old(self).exiting,
            match response {
                DbWorkerResponse::Connected => {
                    &&& final(self).connected
                    &&& final(self).results == old(self).results
                    &&& final(self).running == old(self).running
                    &&& final(self).run_started == old(self).run_started
                    &&& final(self).run_duration == old(self).run_duration
                    &&& final(self).error == old(self).error
                    &&& final(self).focus == old(self).focus
                },
                DbWorkerResponse::QueryStarted { query_idx, started, query_context } => {
                    &&& final(self).running
                    &&& final(self).run_started == Some(started)
                    &&& final(self).results.tabs@.len() == old(self).results.tabs@.len() + 1
                    &&& final(self).results.tabs@.take(old(self).results.tabs@.len() as int)
                        == old(self).results.tabs@
                    &&& final(self).results.tabs@.last().content is Pending
                    &&& final(self).results.tabs@.last().cursor_row == 0
                    &&& final(self).results.tabs@.last().cursor_col == 1
                    &&& final(self).results.tabs@.last().view_row == 0
                    &&& final(self).results.tabs@.last().view_col == 0
                    &&& final(self).results.tabs@.last().elapsed is None
                    &&& final(self).results.tabs@.last().running
                    &&& final(self).results.tabs@.last().run_started == Some(started)
                    &&& final(self).results.tabs@.last().query_context == query_context
                    &&& final(self).results.tab_idx == old(self).results.tabs@.len()
                    &&& final(self).connected == old(self).connected
                    &&& final(self).run_duration == old(self).run_duration
                    &&& final(self).error == old(self).error
                    &&& final(self).focus == old(self).focus
                },
                DbWorkerResponse::QueryFinished { query_idx, elapsed, result } => {
                    &&& !final(self).running
                    &&& final(self).focus == Focus::Results
                    &&& placed(old(self).results, final(self).results, now)
                    &&& final(self).results.tabs@[placed_at(old(self).results)].content == result
                    &&& final(self).connected == old(self).connected
                    &&& final(self).run_started == old(self).run_started
                    &&& final(self).run_duration == old(self).run_duration
                    &&& final(self).error == old(self).error
                },
                DbWorkerResponse::QueryError { query_idx, elapsed, message } => {
                    &&& !final(self).running
                    &&& final(self).run_duration == Some(elapsed)
                    &&& final(self).error matches Some(m) && m@ == message@
                    &&& placed(old(self).results, final(self).results, now)
                    &&& final(self).results.tabs@[placed_at(old(self).results)].content
                        == (ResultsContent::Error { message, cursor: 0, selection: None })
                    &&& final(self).connected == old(self).connected
                    &&& final(self).run_started == old(self).run_started
                    &&& final(self).focus == old(self).focus
                },
            },
    {
        proof {
            lemma_first_pending_range(self.results.tabs@, self.results.tabs@.len() as int);
        }
        match response {
            DbWorkerResponse::Connected => {
                self.connected = true;
                None
            },
            DbWorkerResponse::QueryStarted { query_idx, started, query_context } => {
                self.running = true;
                self.run_started = Some(started);
                let tab = ResultsTab::new_pending_with_start(query_context, started);
                self.results.tabs.push(tab);
                self.results.tab_idx = self.results.tabs.len() - 1;
                None
            },
            DbWorkerResponse::QueryFinished { query_idx, elapsed, result } => {
                self.running = false;
                let at = self.results.add_result(result, now);
                self.focus = Focus::Results;
                Some(at)
            },
            DbWorkerResponse::QueryError { query_idx, elapsed, message } => {
                self.running = false;
                self.run_duration = Some(elapsed);
                self.error = Some(message.clone());
                let at = self.results.add_result(
                    ResultsContent::Error { message, cursor: 0, selection: None },
                    now,
                );
                Some(at)
            },
        }
    }

    /// Takes the time that the running statement has taken until `now`.
    pub fn tick(&mut self, now: u64)
        ensures
            final(self).run_duration == if old(self).running && old(self).run_started is Some {
                elapsed_since(old(self).run_started, now)
            } else {
                old(self).run_duration
            },
            *final(self) == (Workspace { run_duration: final(self).run_duration, ..*old(self) }),
    {
        if self.running {
            if let Some(started) = self.run_started {
                self.run_duration = Some(
                    if now >= started {
                        now - started
                    } else {
                        0
                    },
                );
            }
        }
    }

    /// The shares of the height of the areas from the top, in percent:
    /// one area if the results are hidden, else two.
    pub fn layout(&self) -> (shares: Vec<u16>)
        requires
            self.inv(),
        ensures
            shares@ == layout_for(self.split(), self.results_hidden, self.editor_hidden),
    {
        let mut shares: Vec<u16> = Vec::new();
        if self.results_hidden {
            shares.push(100);
        } else if self.editor_hidden {
            shares.push(0);
            shares.push(100);
        } else {
            let moved: i16 = 50 + self.split_offset;
            let editor: u16 = if moved < 20 {
                20
            } else if moved > 80 {
                80
            } else {
                moved as u16
            };
            shares.push(editor);
            shares.push(100 - editor);
        }
        assert(shares@ =~= layout_for(self.split(), self.results_hidden, self.editor_hidden));
        shares
    }

    /// Carries out a key press at the time `now`: what the key does in
    /// the workspace, or else what it does in the pane that has the focus.
    pub fn handle_key(&mut self, key: Key, now: u64) -> (outcome: WorkspaceAction)
        requires
            old(self).inv(),
        ensures
            final(self).inv(),
            match global_key_for(key, old(self).running) {
                GlobalKey::Quit => outcome is Quit && *final(self) == (Workspace {
                    exiting: true,
                    ..*old(self)
                }),
                GlobalKey::SwitchFocus => outcome is Done && *final(self) == (Workspace {
                    focus: if old(self).focus == Focus::Editor {
                        Focus::Results
                    } else {
                        Focus::Editor
                    },
                    ..*old(self)
                }),
                GlobalKey::Run => *final(self) == *old(self) && match old(self).run_query_spec() {
                    Some(text) => outcome matches WorkspaceAction::Send(
                        DbWorkerRequest::RunQueries(qs),
                    ) && qs@.len() == 1 && qs@[0].0@ == text && qs@[0].1@.len() == 0,
                    None => outcome is Done,
                },
                GlobalKey::Cancel => *final(self) == *old(self)
                    && outcome matches WorkspaceAction::Send(DbWorkerRequest::Cancel),
                GlobalKey::Grow => outcome is Done && final(self).split() == if old(
                    self,
                ).results_hidden {
                    old(self).split()
                } else if old(self).split() + SPLIT_STEP > 20 {
                    20
                } else {
                    old(self).split() + SPLIT_STEP
                } && final(self).same_but_split(*old(self)),
                GlobalKey::Shrink => outcome is Done && final(self).split() == if old(
                    self,
                ).results_hidden {
                    old(self).split()
                } else if old(self).split() - SPLIT_STEP < -20 {
                    -20
                } else {
                    old(self).split() - SPLIT_STEP
                } && final(self).same_but_split(*old(self)),
                GlobalKey::HideResults => outcome is Done && *final(self) == (Workspace {
                    results_hidden: true,
                    editor_hidden: false,
                    focus: Focus::Editor,
                    ..*old(self)
                }),
                GlobalKey::HideEditor => outcome is Done && *final(self) == (Workspace {
                    results_hidden: false,
                    editor_hidden: true,
                    focus: Focus::Results,
                    ..*old(self)
                }),
                GlobalKey::ShowBoth => outcome is Done && *final(self) == (Workspace {
                    results_hidden: false,
                    editor_hidden: false,
                    ..*old(self)
                }),
                GlobalKey::ForPane => final(self).same_but_panes(*old(self)) && match old(
                    self,
                ).focus {
                    Focus::Editor => {
                        &&& final(self).results == old(self).results
                        &&& old(self).editor@.carries_out(
                            final(self).editor@,
                            command_for(key),
                            now,
                        )
                        &&& match command_for(key) {
                            Command::Copy | Command::Cut => match old(self).editor@.selection() {
                                Some((a, b)) => outcome matches WorkspaceAction::ToClipboard(t)
                                    && t@ == crate::history::slice(old(self).editor@.text, a, b),
                                None => outcome is Done,
                            },
                            Command::Paste => outcome is FromClipboard,
                            _ => outcome is Done,
                        }
                    },
                    Focus::Results => {
                        &&& outcome is Done
                        &&& final(self).editor == old(self).editor
                        &&& final(self).results.tabs == old(self).results.tabs
                        &&& final(self).results.tab_idx == if key.code == KeyCode::Tab && old(
                            self,
                        ).results.tabs@.len() > 1 && old(self).results.tab_idx < usize::MAX {
                            ((old(self).results.tab_idx + 1) % old(
                                self,
                            ).results.tabs@.len() as int) as usize
                        } else {
                            old(self).results.tab_idx
                        }
                    },
                    Focus::DbTree => outcome is Done && *final(self) == *old(self),
                },
            },
    {
        match global_key(key, self.running) {
            GlobalKey::Quit => {
                self.exiting = true;
                WorkspaceAction::Quit
            },
            GlobalKey::SwitchFocus => {
                self.focus = match self.focus {
                    Focus::Editor => Focus::Results,
                    Focus::Results => Focus::Editor,
                    Focus::DbTree => Focus::Editor,
                };
                WorkspaceAction::Done
            },
            GlobalKey::Run => {
                match self.run_query() {
                    Some(request) => WorkspaceAction::Send(request),
                    None => WorkspaceAction::Done,
                }
            },
            GlobalKey::Cancel => WorkspaceAction::Send(DbWorkerRequest::Cancel),
            GlobalKey::Grow => {
                if !self.results_hidden {
                    let moved: i16 = self.split_offset + SPLIT_STEP;
                    self.split_offset = if moved > self.max_split_offset {
                        self.max_split_offset
                    } else {
                        moved
                    };
                }
                WorkspaceAction::Done
            },
            GlobalKey::Shrink => {
                if !self.results_hidden {
                    let moved: i16 = self.split_offset - SPLIT_STEP;
                    self.split_offset = if moved < self.min_split_offset {
                        self.min_split_offset
                    } else {
                        moved
                    };
                }
                WorkspaceAction::Done
            },
            GlobalKey::HideResults => {
                self.results_hidden = true;
                self.editor_hidden = false;
                self.focus = Focus::Editor;
                WorkspaceAction::Done
            },
            GlobalKey::HideEditor => {
                self.results_hidden = false;
                self.editor_hidden = true;
                self.focus = Focus::Results;
                WorkspaceAction::Done
            },
            GlobalKey::ShowBoth => {
                self.results_hidden = false;
                self.editor_hidden = false;
                WorkspaceAction::Done
            },
            GlobalKey::ForPane => {
                match self.focus {
                    Focus::Editor => match self.editor.handle_key(key, now) {
                        KeyOutcome::Done => WorkspaceAction::Done,
                        KeyOutcome::ToClipboard(text) => WorkspaceAction::ToClipboard(text),
                        KeyOutcome::FromClipboard => WorkspaceAction::FromClipboard,
                    },
                    Focus::Results => {
                        self.results.handle_key(key);
                        WorkspaceAction::Done
                    },
                    Focus::DbTree => WorkspaceAction::Done,
                }
            },
        }
    }

    /// The statement that `run_query` sends, if it sends one.
    pub open spec fn run_query_spec(&self) -> Option<Seq<char>> {
        let query = match self.editor@.selection() {
            Some((a, b)) => crate::history::slice(self.editor@.text, a, b),
            None => self.editor@.text,
        };
        if self.running || !self.connected || query.len() == 0 {
            None
        } else {
            Some(wrapped_query(query))
        }
    }

    /// Nothing but the split differs from `other`.
    pub open spec fn same_but_split(&self, other: Workspace) -> bool {
        *self == (Workspace { split_offset: self.split_offset, ..other })
    }

    /// Nothing but the editor and the results differs from `other`.
    pub open spec fn same_but_panes(&self, other: Workspace) -> bool {
        *self == (Workspace { editor: self.editor, results: self.results, ..other })
    }
}

/// The index of the tab that takes the next result: the first pending
/// tab, or a new tab behind the others.
pub open spec fn placed_at(before: Results) -> int {
    first_pending(before.tabs@, before.tabs@.len() as int)
}

/// `after` is the pane `before` with a result put in at the time `now`:
/// into the first pending tab, which stops running, or else into a new
/// tab, which is then shown.
pub open spec fn placed(before: Results, after: Results, now: u64) -> bool {
    let n = before.tabs@.len() as int;
    let p = placed_at(before);
    if p < n {
        &&& after.tab_idx == before.tab_idx
        &&& after.tabs@.len() == n
        &&& forall|i: int| 0 <= i < n && i != p ==> after.tabs@[i] == before.tabs@[i]
        &&& after.tabs@[p] == (ResultsTab {
            content: after.tabs@[p].content,
            running: false,
            elapsed: elapsed_since(before.tabs@[p].run_started, now),
            ..before.tabs@[p]
        })
    } else {
        &&& after.tab_idx == n
        &&& after.tabs@.len() == n + 1
        &&& after.tabs@.take(n) == before.tabs@
        &&& after.tabs@[n].cursor_row == 0
        &&& after.tabs@[n].cursor_col == 1
        &&& after.tabs@[n].view_row == 0
        &&& after.tabs@[n].view_col == 0
        &&& !after.tabs@[n].running
        &&& after.tabs@[n].elapsed is None
        &&& after.tabs@[n].run_started == Some(now)
        &&& after.tabs@[n].query_context@.len() == 0
    }
}

} // verus!
