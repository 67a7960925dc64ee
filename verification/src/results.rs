//! The results pane: one tab for each statement that was run, pending
//! until its result arrives.

use vstd::prelude::*;
use crate::keys::{Key, KeyCode};
use crate::tile_store::TileRowStore;
use crate::worker::{decimal, digits};

verus! {

/// What a tab shows.
pub enum ResultsContent {
    /// The rows of a statement that returned rows.
    Table { headers: Vec<String>, tile_store: TileRowStore },
    /// The message of a statement that failed.
    Error { message: String, cursor: usize, selection: Option<(usize, usize)> },
    /// The message of a statement that returned no rows.
    Info { message: String },
    /// Nothing yet: the statement is still running.
    Pending,
}

/// One tab of the results pane. Times are in milliseconds.
pub struct ResultsTab {
    pub content: ResultsContent,
    pub cursor_row: usize,
    pub cursor_col: usize,
    pub view_row: usize,
    pub view_col: usize,
    pub running: bool,
    pub elapsed: Option<u64>,
    pub run_started: Option<u64>,
    pub query_context: String,
}

impl ResultsTab {
    /// A pending tab for a statement that started at `started`.
    pub fn new_pending_with_start(query_context: String, started: u64) -> (tab: ResultsTab)
        ensures
            tab.content is Pending,
            tab.cursor_row == 0,
            tab.cursor_col == 1,
            tab.view_row == 0,
            tab.view_col == 0,
            tab.running,
            tab.elapsed is None,
            tab.run_started == Some(started),
            tab.query_context == query_context,
    {
        ResultsTab {
            content: ResultsContent::Pending,
            cursor_row: 0,
            cursor_col: 1,
            view_row: 0,
            view_col: 0,
            running: true,
            elapsed: None,
            run_started: Some(started),
            query_context,
        }
    }

    /// A pending tab for a statement that starts at the time `now`.
    pub fn new_pending(query_context: String, now: u64) -> (tab: ResultsTab)
        ensures
            tab.content is Pending,
            tab.cursor_row == 0,
            tab.cursor_col == 1,
            tab.view_row == 0,
            tab.view_col == 0,
            tab.running,
            tab.elapsed is None,
            tab.run_started == Some(now),
            tab.query_context == query_context,
    {
        ResultsTab::new_pending_with_start(query_context, now)
    }
}

/// The tabs of the results pane and the index of the tab that is shown.
pub struct Results {
    pub tabs: Vec<ResultsTab>,
    pub tab_idx: usize,
}

/// The index of the first pending tab among the first `n`, or `n` if
/// none of them is pending.
pub open spec fn first_pending(tabs: Seq<ResultsTab>, n: int) -> int
    decreases n,
{
    if n <= 0 {
        0
    } else if first_pending(tabs, n - 1) < n - 1 {
        first_pending(tabs, n - 1)
    } else if tabs[n - 1].content is Pending {
        n - 1
    } else {
        n
    }
}

/// The time that passed from `started` to `now`, which is none if the
/// clock went back.
pub open spec fn elapsed_since(started: Option<u64>, now: u64) -> Option<u64> {
    match started {
        Some(s) => Some(
            if now >= s {
                (now - s) as u64
            } else {
                0u64
            },
        ),
        None => None,
    }
}

impl Results {
    /// A pane without tabs.
    pub fn new() -> (r: Results)
        ensures
            r.tabs@.len() == 0,
            r.tab_idx == 0,
    {
        Results { tabs: Vec::new(), tab_idx: 0 }
    }

    /// Puts a result into the first pending tab, which stops running. If
    /// no tab is pending, the result gets a new tab, which is then shown.
    /// Returns the index of the tab that took the result.
    pub fn add_result(&mut self, result: ResultsContent, now: u64) -> (at: usize)
        ensures
            at == first_pending(old(self).tabs@, old(self).tabs@.len() as int),
            ({
                let n = old(self).tabs@.len() as int;
                let p = first_pending(old(self).tabs@, n);
                if p < n {
                    &&& final(self).tab_idx == old(self).tab_idx
                    &&& final(self).tabs@ == old(self).tabs@.update(
                        p,
                        ResultsTab {
                            content: result,
                            running: false,
                            elapsed: elapsed_since(old(self).tabs@[p].run_started, now),
                            ..old(self).tabs@[p]
                        },
                    )
                } else {
                    &&& final(self).tab_idx == n
                    &&& final(self).tabs@.len() == n + 1
                    &&& final(self).tabs@.take(n) == old(self).tabs@
                    &&& final(self).tabs@[n].content == result
                    &&& final(self).tabs@[n].cursor_row == 0
                    &&& final(self).tabs@[n].cursor_col == 1
                    &&& final(self).tabs@[n].view_row == 0
                    &&& final(self).tabs@[n].view_col == 0
                    &&& !final(self).tabs@[n].running
                    &&& final(self).tabs@[n].elapsed is None
                    &&& final(self).tabs@[n].run_started == Some(now)
                    &&& final(self).tabs@[n].query_context@.len() == 0
                }
            }),
    {
        let n: usize = self.tabs.len();
        let mut i: usize = 0;
        while i < n
            invariant
                i <= n,
                n == self.tabs@.len(),
                self.tabs@ == old(self).tabs@,
                self.tab_idx == old(self).tab_idx,
                first_pending(self.tabs@, i as int) == i,
            decreases n - i,
        {
            if let ResultsContent::Pending = self.tabs[i].content {
                proof {
                    lemma_first_pending_found(self.tabs@, i as int, n as int);
                }
                let pending = &self.tabs[i];
                let elapsed = match pending.run_started {
                    Some(s) => Some(
                        if now >= s {
                            now - s
                        } else {
                            0
                        },
                    ),
                    None => None,
                };
                let filled = ResultsTab {
                    content: result,
                    cursor_row: pending.cursor_row,
                    cursor_col: pending.cursor_col,
                    view_row: pending.view_row,
                    view_col: pending.view_col,
                    running: false,
                    elapsed,
                    run_started: pending.run_started,
                    query_context: pending.query_context.clone(),
                };
                self.tabs.set(i, filled);
                assert(self.tabs@ =~= old(self).tabs@.update(i as int, filled));
                return i;
            }
            i = i + 1;
        }
        let mut tab = ResultsTab::new_pending(String::new(), now);
        tab.content = result;
        tab.running = false;
        self.tabs.push(tab);
        self.tab_idx = self.tabs.len() - 1;
        assert(self.tabs@.take(n as int) =~= old(self).tabs@);
        n
    }

    /// Shows the next tab, and the first one after the last one.
    pub fn next_tab(&mut self)
        ensures
            final(self).tabs == old(self).tabs,
            final(self).tab_idx == if old(self).tabs@.len() > 1 && old(self).tab_idx < usize::MAX {
                ((old(self).tab_idx + 1) % old(self).tabs@.len() as int) as usize
            } else {
                old(self).tab_idx
            },
    {
        if self.tabs.len() > 1 && self.tab_idx < usize::MAX {
            self.tab_idx = (self.tab_idx + 1) % self.tabs.len();
        }
    }
}

/// The title of the pane: with the number of the tab that is shown and
/// the number of tabs, if there are tabs.
pub open spec fn title_text(tabs: nat, tab_idx: nat) -> Seq<char> {
    if tabs == 0 {
        "Results "@
    } else {
        "Results ("@ + digits(
            if tab_idx < u64::MAX {
                tab_idx + 1
            } else {
                u64::MAX as nat
            },
        ) + "/"@ + digits(tabs) + ")"@
    }
}

/// What the pane shows below its title.
pub enum ResultsBody {
    /// Nothing: the index of the tab to show is not that of a tab.
    Nothing,
    /// A text, shown as it is.
    Plain(String),
    /// That the statement runs, and since when if that is known.
    Running { since: Option<u64> },
    /// The message of a failure.
    Error(String),
    /// The rows of the table of the tab that is shown.
    Table,
}

/// What the pane shows.
pub struct ResultsScreen {
    pub title: String,
    pub body: ResultsBody,
}

/// The text of a pane without tabs.
pub const NO_RESULTS_TEXT: &'static str = "No results yet. Press Ctrl+Enter to run a query.";

/// The text of a tab that waits without running.
pub const PENDING_TEXT: &'static str = "Query pending...";

/// What the tabs show below the title when tab `tab_idx` is to be shown.
pub open spec fn body_shows(tabs: Seq<ResultsTab>, tab_idx: int, body: ResultsBody) -> bool {
    if tabs.len() == 0 {
        body matches ResultsBody::Plain(t) && t@ == NO_RESULTS_TEXT@
    } else if tab_idx >= tabs.len() {
        body is Nothing
    } else {
        match tabs[tab_idx].content {
            ResultsContent::Pending => if tabs[tab_idx].running {
                body == (ResultsBody::Running { since: tabs[tab_idx].run_started })
            } else {
                body matches ResultsBody::Plain(t) && t@ == PENDING_TEXT@
            },
            ResultsContent::Info { message } => body matches ResultsBody::Plain(t) && t@
                == message@,
            ResultsContent::Error { message, .. } => body matches ResultsBody::Error(t) && t@
                == message@,
            ResultsContent::Table { .. } => body is Table,
        }
    }
}

impl Results {
    /// The title of the pane.
    pub fn title(&self) -> (t: String)
        ensures
            t@ == title_text(self.tabs@.len(), self.tab_idx as nat),
    {
        if self.tabs.len() == 0 {
            String::from_str("Results ")
        } else {
            let mut t = String::from_str("Results (");
            let shown = decimal((self.tab_idx as u64).saturating_add(1));
            t.append(shown.as_str());
            t.append("/");
            let all = decimal(self.tabs.len() as u64);
            t.append(all.as_str());
            t.append(")");
            t
        }
    }

    /// What the pane shows: its title, and below it the tab that is shown.
    pub fn render(&self) -> (screen: ResultsScreen)
        ensures
            screen.title@ == title_text(self.tabs@.len(), self.tab_idx as nat),
            body_shows(self.tabs@, self.tab_idx as int, screen.body),
    {
        let title = self.title();
        let body = if self.tabs.len() == 0 {
            ResultsBody::Plain(String::from_str(NO_RESULTS_TEXT))
        } else if self.tab_idx >= self.tabs.len() {
            ResultsBody::Nothing
        } else {
            let tab = &self.tabs[self.tab_idx];
            match &tab.content {
                ResultsContent::Pending => {
                    if tab.running {
                        ResultsBody::Running { since: tab.run_started }
                    } else {
                        ResultsBody::Plain(String::from_str(PENDING_TEXT))
                    }
                },
                ResultsContent::Info { message } => ResultsBody::Plain(message.clone()),
                ResultsContent::Error { message, .. } => ResultsBody::Error(message.clone()),
                ResultsContent::Table { .. } => ResultsBody::Table,
            }
        };
        ResultsScreen { title, body }
    }

    /// The tab key shows the next tab; other keys do nothing.
    pub fn handle_key(&mut self, key: Key)
        ensures
            final(self).tabs == old(self).tabs,
            final(self).tab_idx == if key.code == KeyCode::Tab && old(self).tabs@.len() > 1
                && old(self).tab_idx < usize::MAX {
                ((old(self).tab_idx + 1) % old(self).tabs@.len() as int) as usize
            } else {
                old(self).tab_idx
            },
    {
        match key.code {
            KeyCode::Tab => {
                self.next_tab();
            },
            _ => {},
        }
    }
}

/// The first pending tab among the first `n` is one of them, or `n`.
pub proof fn lemma_first_pending_range(tabs: Seq<ResultsTab>, n: int)
    requires
        0 <= n,
    ensures
        0 <= first_pending(tabs, n) <= n,
    decreases n,
{
    if n > 0 {
        lemma_first_pending_range(tabs, n - 1);
    }
}

/// A pending tab behind tabs that are not pending is the first pending one.
proof fn lemma_first_pending_found(tabs: Seq<ResultsTab>, i: int, n: int)
    requires
        0 <= i < n <= tabs.len(),
        first_pending(tabs, i) == i,
        tabs[i].content is Pending,
    ensures
        first_pending(tabs, n) == i,
    decreases n - i,
{
    if i + 1 < n {
        lemma_first_pending_found(tabs, i, n - 1);
    }
}

} // verus!
