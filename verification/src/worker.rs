//! The query worker as a state machine: it is told what happened and
//! answers with what to do next. Whoever drives it owns the connection,
//! performs the actions and reports their outcome.

use vstd::prelude::*;
use crate::results::{elapsed_since, ResultsContent};
use crate::tile_store::TileRowStore;

verus! {

/// What the user interface asks of the worker.
pub enum DbWorkerRequest {
    /// Run these statements in order; each comes with its context.
    RunQueries(Vec<(String, String)>),
    Cancel,
    Quit,
}

/// What the worker reports to the user interface. Times are in milliseconds.
pub enum DbWorkerResponse {
    Connected,
    QueryStarted { query_idx: usize, started: u64, query_context: String },
    QueryFinished { query_idx: usize, elapsed: u64, result: ResultsContent },
    QueryError { query_idx: usize, elapsed: u64, message: String },
}

/// The step at which a statement failed.
#[derive(Clone, Copy, Debug, PartialEq, Eq)]
pub enum FailureStage {
    CreateStatement,
    Execute,
    ColumnCount,
    ColumnName,
    TileStore,
}

/// What running one statement gave.
pub enum Outcome {
    /// Rows, already written to a store.
    Table { headers: Vec<String>, tile_store: TileRowStore },
    /// No rows; the number of affected rows if the driver knows it.
    NoData { affected: Option<i64> },
    /// A failure, with what the driver said of it.
    Failed { stage: FailureStage, detail: String },
}

/// What happened since the last action.
pub enum WorkerEvent {
    /// The driver environment was created, or not.
    Environment(bool),
    /// The connection was opened, or not.
    Connection(bool),
    /// The statement that sets up the session was sent.
    SessionReady,
    /// A request arrived; `None` if the channel is closed.
    Request(Option<DbWorkerRequest>),
    /// A statement was allocated and its handle published; on failure,
    /// what the driver said.
    Allocated(Option<String>),
    /// The statement ran.
    Ran(Outcome),
}

/// What to do next. Actions that report back end a list of actions;
/// `Emit` and `ClearSlot` do not report back.
pub enum WorkerAction {
    CreateEnvironment,
    Connect,
    InitSession,
    WaitRequest,
    /// Allocate a statement and publish its handle for cancellation.
    Allocate,
    /// Send the response to the user interface.
    Emit(DbWorkerResponse),
    /// Run the statement.
    Run { sql: String },
    /// Empty the slot that holds the handle of the running statement.
    ClearSlot,
    Exit,
}

/// Where the worker stands.
#[derive(Clone, Copy, Debug, PartialEq, Eq)]
pub enum Phase {
    Init,
    Connecting,
    Starting,
    Degraded,
    Idle,
    Allocating,
    Running,
    Stopped,
}

/// The statement that sets up the session.
pub const SESSION_INIT_SQL: &'static str = "USE SECONDARY ROLES ALL";

/// The decimal digit `d`.
pub open spec fn digit(d: int) -> char {
    if d == 0 {
        '0'
    } else if d == 1 {
        '1'
    } else if d == 2 {
        '2'
    } else if d == 3 {
        '3'
    } else if d == 4 {
        '4'
    } else if d == 5 {
        '5'
    } else if d == 6 {
        '6'
    } else if d == 7 {
        '7'
    } else if d == 8 {
        '8'
    } else {
        '9'
    }
}

/// The decimal digits of `n`, highest first.
pub open spec fn digits(n: nat) -> Seq<char>
    decreases n,
{
    if n < 10 {
        seq![digit(n as int)]
    } else {
        digits(n / 10).push(digit(n as int % 10))
    }
}

/// The message for a statement that returned no rows.
pub open spec fn info_text(affected: Option<i64>) -> Seq<char> {
    match affected {
        Some(n) => if n > 0 {
            "Statement affected "@ + digits(n as nat) + if n == 1 {
                " row"@
            } else {
                " rows"@
            }
        } else if n == 0 {
            "Statement executed successfully (no rows affected)."@
        } else {
            "Statement executed successfully."@
        },
        None => "Statement executed successfully."@,
    }
}

/// What the message of a failure starts with.
pub open spec fn failure_prefix(stage: FailureStage) -> Seq<char> {
    match stage {
        FailureStage::CreateStatement => "Failed to create statement: "@,
        FailureStage::Execute => "Query execution failed: "@,
        FailureStage::ColumnCount => "Failed to get column count: "@,
        FailureStage::ColumnName => "Failed to get column name: "@,
        FailureStage::TileStore => "Failed to create tile store: "@,
    }
}

/// The text of a cell: the value, or the text for NULL where there is none.
pub fn cell_text(value: Option<String>) -> (text: String)
    ensures
        text@ == match value {
            Some(v) => v@,
            None => crate::tile_format::NULL_SENTINEL@,
        },
{
    match value {
        Some(v) => v,
        None => String::from_str(crate::tile_format::NULL_SENTINEL),
    }
}

/// The string of the decimal digit `d`.
fn digit_str(d: u64) -> (s: &'static str)
    requires
        d < 10,
    ensures
        s@ == seq![digit(d as int)],
{
    proof {
        reveal_strlit("0");
        reveal_strlit("1");
        reveal_strlit("2");
        reveal_strlit("3");
        reveal_strlit("4");
        reveal_strlit("5");
        reveal_strlit("6");
        reveal_strlit("7");
        reveal_strlit("8");
        reveal_strlit("9");
    }
    let s = if d == 0 {
        "0"
    } else if d == 1 {
        "1"
    } else if d == 2 {
        "2"
    } else if d == 3 {
        "3"
    } else if d == 4 {
        "4"
    } else if d == 5 {
        "5"
    } else if d == 6 {
        "6"
    } else if d == 7 {
        "7"
    } else if d == 8 {
        "8"
    } else {
        "9"
    };
    assert(s@ =~= seq![digit(d as int)]);
    s
}

/// The number `n` in decimal.
pub fn decimal(n: u64) -> (s: String)
    ensures
        s@ == digits(n as nat),
    decreases n,
{
    if n < 10 {
        String::from_str(digit_str(n))
    } else {
        let mut s = decimal(n / 10);
        s.append(digit_str(n % 10));
        assert(s@ =~= digits((n / 10) as nat).push(digit(n as int % 10)));
        s
    }
}

/// The message for a statement that returned no rows and affected
/// `affected` rows, if the driver knows how many.
pub fn info_message(affected: Option<i64>) -> (s: String)
    ensures
        s@ == info_text(affected),
{
    match affected {
        Some(n) => {
            if n > 0 {
                let mut s = String::from_str("Statement affected ");
                let number = decimal(n as u64);
                s.append(number.as_str());
                if n == 1 {
                    s.append(" row");
                } else {
                    s.append(" rows");
                }
                s
            } else if n == 0 {
                String::from_str("Statement executed successfully (no rows affected).")
            } else {
                String::from_str("Statement executed successfully.")
            }
        },
        None => String::from_str("Statement executed successfully."),
    }
}

/// The message of a failure at `stage` of which the driver said `detail`.
pub fn failure_message(stage: FailureStage, detail: &str) -> (s: String)
    ensures
        s@ == failure_prefix(stage) + detail@,
{
    let mut s = match stage {
        FailureStage::CreateStatement => String::from_str("Failed to create statement: "),
        FailureStage::Execute => String::from_str("Query execution failed: "),
        FailureStage::ColumnCount => String::from_str("Failed to get column count: "),
        FailureStage::ColumnName => String::from_str("Failed to get column name: "),
        FailureStage::TileStore => String::from_str("Failed to create tile store: "),
    };
    s.append(detail);
    s
}

/// The result of a statement as the user interface gets it.
pub enum ResultSpec {
    Table(Seq<Seq<char>>, TileRowStore),
    Info(Seq<char>),
}

/// An action as a plain value.
pub enum Step {
    CreateEnvironment,
    Connect,
    InitSession,
    WaitRequest,
    Allocate,
    Run(Seq<char>),
    ClearSlot,
    Exit,
    EmitConnected,
    EmitStarted(int, u64, Seq<char>),
    EmitFinished(int, u64, ResultSpec),
    EmitError(int, u64, Seq<char>),
    /// An emission that the worker never makes.
    EmitOther,
}

impl View for WorkerAction {
    type V = Step;

    open spec fn view(&self) -> Step {
        match self {
            WorkerAction::CreateEnvironment => Step::CreateEnvironment,
            WorkerAction::Connect => Step::Connect,
            WorkerAction::InitSession => Step::InitSession,
            WorkerAction::WaitRequest => Step::WaitRequest,
            WorkerAction::Allocate => Step::Allocate,
            WorkerAction::Run { sql } => Step::Run(sql@),
            WorkerAction::ClearSlot => Step::ClearSlot,
            WorkerAction::Exit => Step::Exit,
            WorkerAction::Emit(DbWorkerResponse::Connected) => Step::EmitConnected,
            WorkerAction::Emit(
                DbWorkerResponse::QueryStarted { query_idx, started, query_context },
            ) => Step::EmitStarted(*query_idx as int, *started, query_context@),
            WorkerAction::Emit(
                DbWorkerResponse::QueryFinished {
                    query_idx,
                    elapsed,
                    result: ResultsContent::Table { headers, tile_store },
                },
            ) => Step::EmitFinished(
                *query_idx as int,
                *elapsed,
                ResultSpec::Table(headers.deep_view(), *tile_store),
            ),
            WorkerAction::Emit(
                DbWorkerResponse::QueryFinished {
                    query_idx,
                    elapsed,
                    result: ResultsContent::Info { message },
                },
            ) => Step::EmitFinished(*query_idx as int, *elapsed, ResultSpec::Info(message@)),
            WorkerAction::Emit(
                DbWorkerResponse::QueryError { query_idx, elapsed, message },
            ) => Step::EmitError(*query_idx as int, *elapsed, message@),
            WorkerAction::Emit(_) => Step::EmitOther,
        }
    }
}

/// The steps of a list of actions.
pub open spec fn steps_of(actions: Seq<WorkerAction>) -> Seq<Step> {
    actions.map_values(|a: WorkerAction| a@)
}

/// The state of the worker as a plain value.
pub struct WorkerView {
    pub phase: Phase,
    /// The statements of the batch that runs, each with its context.
    pub queries: Seq<(Seq<char>, Seq<char>)>,
    /// The index of the statement that runs or is about to.
    pub idx: int,
    /// When the statement that runs was started.
    pub started: u64,
    /// Whether the slot holds the handle of a statement.
    pub slot_occupied: bool,
}

/// The statements of a request as plain values.
pub open spec fn queries_view(qs: Seq<(String, String)>) -> Seq<(Seq<char>, Seq<char>)> {
    qs.map_values(|q: (String, String)| (q.0@, q.1@))
}

impl WorkerView {
    /// While a batch runs, the index is that of one of its statements.
    /// The slot holds a handle exactly while a statement runs.
    pub open spec fn well_formed(self) -> bool {
        &&& (self.phase == Phase::Allocating || self.phase == Phase::Running) ==> 0 <= self.idx
            < self.queries.len()
        &&& self.slot_occupied == (self.phase == Phase::Running)
    }

    /// The action whose outcome the worker waits for.
    pub open spec fn awaited(self) -> Step {
        match self.phase {
            Phase::Init => Step::CreateEnvironment,
            Phase::Connecting => Step::Connect,
            Phase::Starting => Step::InitSession,
            Phase::Degraded => Step::WaitRequest,
            Phase::Idle => Step::WaitRequest,
            Phase::Allocating => Step::Allocate,
            Phase::Running => Step::Run(self.queries[self.idx].0),
            Phase::Stopped => Step::Exit,
        }
    }

    /// The state and the closing action after statement `idx` is done: the
    /// next statement of the batch is allocated, or the worker is idle again.
    pub open spec fn advance(self) -> (WorkerView, Step) {
        if self.idx + 1 < self.queries.len() {
            (
                WorkerView {
                    phase: Phase::Allocating,
                    idx: self.idx + 1,
                    slot_occupied: false,
                    ..self
                },
                Step::Allocate,
            )
        } else {
            (
                WorkerView {
                    phase: Phase::Idle,
                    queries: Seq::empty(),
                    idx: 0,
                    slot_occupied: false,
                    ..self
                },
                Step::WaitRequest,
            )
        }
    }

    /// The state after `event` at time `now`, and the actions to perform.
    pub open spec fn plan(self, event: WorkerEvent, now: u64) -> (WorkerView, Seq<Step>) {
        match (self.phase, event) {
            (Phase::Init, WorkerEvent::Environment(ok)) => if ok {
                (WorkerView { phase: Phase::Connecting, ..self }, seq![Step::Connect])
            } else {
                (WorkerView { phase: Phase::Degraded, ..self }, seq![Step::WaitRequest])
            },
            (Phase::Connecting, WorkerEvent::Connection(ok)) => if ok {
                (
                    WorkerView { phase: Phase::Starting, ..self },
                    seq![Step::EmitConnected, Step::InitSession],
                )
            } else {
                (WorkerView { phase: Phase::Degraded, ..self }, seq![Step::WaitRequest])
            },
            (Phase::Starting, WorkerEvent::SessionReady) => (
                WorkerView { phase: Phase::Idle, ..self },
                seq![Step::WaitRequest],
            ),
            (Phase::Degraded, WorkerEvent::Request(request)) => match request {
                Some(DbWorkerRequest::Quit) | None => (
                    WorkerView { phase: Phase::Stopped, ..self },
                    seq![Step::Exit],
                ),
                _ => (self, seq![Step::WaitRequest]),
            },
            (Phase::Idle, WorkerEvent::Request(request)) => match request {
                Some(DbWorkerRequest::Quit) | None => (
                    WorkerView { phase: Phase::Stopped, ..self },
                    seq![Step::Exit],
                ),
                Some(DbWorkerRequest::Cancel) => (self, seq![Step::WaitRequest]),
                Some(DbWorkerRequest::RunQueries(qs)) => if qs@.len() == 0 {
                    (self, seq![Step::WaitRequest])
                } else {
                    (
                        WorkerView {
                            phase: Phase::Allocating,
                            queries: queries_view(qs@),
                            idx: 0,
                            ..self
                        },
                        seq![Step::Allocate],
                    )
                },
            },
            (Phase::Allocating, WorkerEvent::Allocated(failure)) => match failure {
                None => (
                    WorkerView {
                        phase: Phase::Running,
                        started: now,
                        slot_occupied: true,
                        ..self
                    },
                    seq![
                        Step::EmitStarted(self.idx, now, self.queries[self.idx].1),
                        Step::Run(self.queries[self.idx].0),
                    ],
                ),
                Some(detail) => (
                    (WorkerView { started: now, ..self }).advance().0,
                    seq![
                        Step::EmitStarted(self.idx, now, self.queries[self.idx].1),
                        Step::EmitError(
                            self.idx,
                            0,
                            failure_prefix(FailureStage::CreateStatement) + detail@,
                        ),
                        self.advance().1,
                    ],
                ),
            },
            (Phase::Running, WorkerEvent::Ran(outcome)) => (
                self.advance().0,
                seq![
                    Step::ClearSlot,
                    match outcome {
                        Outcome::Table { headers, tile_store } => Step::EmitFinished(
                            self.idx,
                            elapsed_since(Some(self.started), now).unwrap(),
                            ResultSpec::Table(headers.deep_view(), tile_store),
                        ),
                        Outcome::NoData { affected } => Step::EmitFinished(
                            self.idx,
                            elapsed_since(Some(self.started), now).unwrap(),
                            ResultSpec::Info(info_text(affected)),
                        ),
                        Outcome::Failed { stage, detail } => Step::EmitError(
                            self.idx,
                            elapsed_since(Some(self.started), now).unwrap(),
                            failure_prefix(stage) + detail@,
                        ),
                    },
                    self.advance().1,
                ],
            ),
            _ => (self, seq![self.awaited()]),
        }
    }
}

/// The query worker. It starts by asking for the driver environment.
pub struct Worker {
    phase: Phase,
    queries: Vec<(String, String)>,
    idx: usize,
    started: u64,
    slot_occupied: bool,
}

impl View for Worker {
    type V = WorkerView;

    closed spec fn view(&self) -> WorkerView {
        WorkerView {
            phase: self.phase,
            queries: queries_view(self.queries@),
            idx: self.idx as int,
            started: self.started,
            slot_occupied: self.slot_occupied,
        }
    }
}

impl Worker {
    /// A worker that has not done anything yet, with its first action.
    pub fn new() -> (res: (Worker, WorkerAction))
        ensures
            res.0@ == (WorkerView {
                phase: Phase::Init,
                queries: Seq::empty(),
                idx: 0,
                started: 0,
                slot_occupied: false,
            }),
            res.0@.well_formed(),
            res.1@ == Step::CreateEnvironment,
    {
        let w = Worker {
            phase: Phase::Init,
            queries: Vec::new(),
            idx: 0,
            started: 0,
            slot_occupied: false,
        };
        assert(queries_view(w.queries@) =~= Seq::empty());
        (w, WorkerAction::CreateEnvironment)
    }

    /// Where the worker stands.
    pub fn phase(&self) -> (p: Phase)
        ensures
            p == self@.phase,
    {
        self.phase
    }

    /// Whether the slot holds the handle of a running statement.
    pub fn slot_occupied(&self) -> (b: bool)
        ensures
            b == self@.slot_occupied,
    {
        self.slot_occupied
    }

    /// The action that the worker waits for.
    fn awaited(&self) -> (a: WorkerAction)
        requires
            self@.well_formed(),
        ensures
            a@ == self@.awaited(),
    {
        match self.phase {
            Phase::Init => WorkerAction::CreateEnvironment,
            Phase::Connecting => WorkerAction::Connect,
            Phase::Starting => WorkerAction::InitSession,
            Phase::Degraded => WorkerAction::WaitRequest,
            Phase::Idle => WorkerAction::WaitRequest,
            Phase::Allocating => WorkerAction::Allocate,
            Phase::Running => WorkerAction::Run { sql: self.queries[self.idx].0.clone() },
            Phase::Stopped => WorkerAction::Exit,
        }
    }

    /// Goes on to the next statement of the batch, or back to idle.
    fn advance(&mut self) -> (a: WorkerAction)
        requires
            old(self)@.well_formed(),
            old(self).idx < old(self).queries@.len(),
        ensures
            final(self)@ == old(self)@.advance().0,
            a@ == old(self)@.advance().1,
            final(self)@.well_formed(),
    {
        self.slot_occupied = false;
        let n: usize = self.queries.len();
        if self.idx + 1 < n {
            self.idx = self.idx + 1;
            self.phase = Phase::Allocating;
            WorkerAction::Allocate
        } else {
            self.phase = Phase::Idle;
            self.queries = Vec::new();
            self.idx = 0;
            assert(queries_view(self.queries@) =~= Seq::empty());
            WorkerAction::WaitRequest
        }
    }

    /// Takes in what happened and returns what to do next. An event that
    /// the worker does not wait for changes nothing, and the worker asks
    /// again for the action that it waits for.
    pub fn step(&mut self, event: WorkerEvent, now: u64) -> (actions: Vec<WorkerAction>)
        requires
            old(self)@.well_formed(),
        ensures
            final(self)@.well_formed(),
            final(self)@ == old(self)@.plan(event, now).0,
            steps_of(actions@) == old(self)@.plan(event, now).1,
    {
        let mut actions: Vec<WorkerAction> = Vec::new();
        match (self.phase, event) {
            (Phase::Init, WorkerEvent::Environment(ok)) => {
                if ok {
                    self.phase = Phase::Connecting;
                    actions.push(WorkerAction::Connect);
                } else {
                    self.phase = Phase::Degraded;
                    actions.push(WorkerAction::WaitRequest);
                }
            },
            (Phase::Connecting, WorkerEvent::Connection(ok)) => {
                if ok {
                    self.phase = Phase::Starting;
                    actions.push(WorkerAction::Emit(DbWorkerResponse::Connected));
                    actions.push(WorkerAction::InitSession);
                } else {
                    self.phase = Phase::Degraded;
                    actions.push(WorkerAction::WaitRequest);
                }
            },
            (Phase::Starting, WorkerEvent::SessionReady) => {
                self.phase = Phase::Idle;
                actions.push(WorkerAction::WaitRequest);
            },
            (Phase::Degraded, WorkerEvent::Request(request)) => {
                match request {
                    Some(DbWorkerRequest::Quit) | None => {
                        self.phase = Phase::Stopped;
                        actions.push(WorkerAction::Exit);
                    },
                    _ => {
                        actions.push(WorkerAction::WaitRequest);
                    },
                }
            },
            (Phase::Idle, WorkerEvent::Request(request)) => {
                match request {
                    Some(DbWorkerRequest::Quit) | None => {
                        self.phase = Phase::Stopped;
                        actions.push(WorkerAction::Exit);
                    },
                    Some(DbWorkerRequest::Cancel) => {
                        actions.push(WorkerAction::WaitRequest);
                    },
                    Some(DbWorkerRequest::RunQueries(qs)) => {
                        if qs.len() == 0 {
                            actions.push(WorkerAction::WaitRequest);
                        } else {
                            self.queries = qs;
                            self.idx = 0;
                            self.phase = Phase::Allocating;
                            actions.push(WorkerAction::Allocate);
                        }
                    },
                }
            },
            (Phase::Allocating, WorkerEvent::Allocated(failure)) => {
                let context = self.queries[self.idx].1.clone();
                let idx: usize = self.idx;
                actions.push(
                    WorkerAction::Emit(
                        DbWorkerResponse::QueryStarted {
                            query_idx: idx,
                            started: now,
                            query_context: context,
                        },
                    ),
                );
                self.started = now;
                match failure {
                    None => {
                        self.phase = Phase::Running;
                        self.slot_occupied = true;
                        actions.push(
                            WorkerAction::Run { sql: self.queries[self.idx].0.clone() },
                        );
                    },
                    Some(detail) => {
                        let message = failure_message(
                            FailureStage::CreateStatement,
                            detail.as_str(),
                        );
                        actions.push(
                            WorkerAction::Emit(
                                DbWorkerResponse::QueryError {
                                    query_idx: idx,
                                    elapsed: 0,
                                    message,
                                },
                            ),
                        );
                        let next = self.advance();
                        actions.push(next);
                    },
                }
            },
            (Phase::Running, WorkerEvent::Ran(outcome)) => {
                let idx: usize = self.idx;
                let elapsed: u64 = if now >= self.started {
                    now - self.started
                } else {
                    0
                };
                actions.push(WorkerAction::ClearSlot);
                let response = match outcome {
                    Outcome::Table { headers, tile_store } => DbWorkerResponse::QueryFinished {
                        query_idx: idx,
                        elapsed,
                        result: ResultsContent::Table { headers, tile_store },
                    },
                    Outcome::NoData { affected } => DbWorkerResponse::QueryFinished {
                        query_idx: idx,
                        elapsed,
                        result: ResultsContent::Info { message: info_message(affected) },
                    },
                    Outcome::Failed { stage, detail } => DbWorkerResponse::QueryError {
                        query_idx: idx,
                        elapsed,
                        message: failure_message(stage, detail.as_str()),
                    },
                };
                actions.push(WorkerAction::Emit(response));
                let next = self.advance();
                actions.push(next);
            },
            _ => {
                let again = self.awaited();
                actions.push(again);
            },
        }
        assert(steps_of(actions@) =~= old(self)@.plan(event, now).1);
        actions
    }
}

/// What a response says of the order of a batch: that statement `i`
/// was started, or that it is done, with a result or with an error.
pub enum Tag {
    Started(int),
    Done(int),
}

/// The tag of a step that emits a response about a statement.
pub open spec fn tag_of(step: Step) -> Option<Tag> {
    match step {
        Step::EmitStarted(i, _, _) => Some(Tag::Started(i)),
        Step::EmitFinished(i, _, _) => Some(Tag::Done(i)),
        Step::EmitError(i, _, _) => Some(Tag::Done(i)),
        _ => None,
    }
}

/// The tags of the responses that a list of steps emits, in order.
pub open spec fn tags(steps: Seq<Step>) -> Seq<Tag>
    decreases steps.len(),
{
    if steps.len() == 0 {
        Seq::empty()
    } else {
        match tag_of(steps.last()) {
            Some(t) => tags(steps.drop_last()).push(t),
            None => tags(steps.drop_last()),
        }
    }
}

/// The tags of the first `k` statements of a batch: each is started
/// and then done before the next is started.
pub open spec fn batch_log(k: int) -> Seq<Tag>
    decreases k,
{
    if k <= 0 {
        Seq::empty()
    } else {
        batch_log(k - 1).push(Tag::Started(k - 1)).push(Tag::Done(k - 1))
    }
}

/// The tags that a worker has emitted for the batch that runs.
pub open spec fn progress(w: WorkerView) -> Seq<Tag> {
    if w.phase == Phase::Running {
        batch_log(w.idx).push(Tag::Started(w.idx))
    } else {
        batch_log(w.idx)
    }
}

/// The tags of a list with one more step.
pub proof fn lemma_tags_push(steps: Seq<Step>, step: Step)
    ensures
        tags(steps.push(step)) == match tag_of(step) {
            Some(t) => tags(steps).push(t),
            None => tags(steps),
        },
{
    assert(steps.push(step).last() == step);
    assert(steps.push(step).drop_last() == steps);
}

/// In the log of a batch, statement `i` is started at position `2 i`
/// and done at the next position.
pub proof fn lemma_batch_log(k: int, i: int)
    requires
        0 <= i < k,
    ensures
        batch_log(k).len() == 2 * k,
        batch_log(k)[2 * i] == Tag::Started(i),
        batch_log(k)[2 * i + 1] == Tag::Done(i),
    decreases k,
{
    lemma_batch_log_len(k - 1);
    if i < k - 1 {
        lemma_batch_log(k - 1, i);
    }
}

/// The log of `k` statements has two tags for each.
pub proof fn lemma_batch_log_len(k: int)
    requires
        0 <= k,
    ensures
        batch_log(k).len() == 2 * k,
    decreases k,
{
    if k > 0 {
        lemma_batch_log_len(k - 1);
    }
}

/// While a batch runs, every step of the worker extends the log of the
/// batch in order: what was emitted so far, with what the step emits, is
/// the log up to where the worker stands then, and the whole log of the
/// batch once the worker is idle again.
pub proof fn lemma_batch_order(w: WorkerView, event: WorkerEvent, now: u64)
    requires
        w.well_formed(),
        w.phase == Phase::Allocating || w.phase == Phase::Running,
    ensures
        ({
            let next = w.plan(event, now).0;
            let steps = w.plan(event, now).1;
            progress(w) + tags(steps) == if next.phase == Phase::Allocating || next.phase
                == Phase::Running {
                progress(next)
            } else {
                batch_log(w.queries.len() as int)
            }
        }),
{
    let next = w.plan(event, now).0;
    let steps = w.plan(event, now).1;
    let none = Seq::<Step>::empty();
    assert(tags(none) == Seq::<Tag>::empty());
    if steps.len() == 1 {
        assert(steps == none.push(steps[0]));
        lemma_tags_push(none, steps[0]);
        assert(progress(w) + Seq::<Tag>::empty() == progress(w));
    } else if steps.len() == 2 {
        assert(steps == none.push(steps[0]).push(steps[1]));
        lemma_tags_push(none, steps[0]);
        lemma_tags_push(none.push(steps[0]), steps[1]);
        assert(tags(steps) == seq![Tag::Started(w.idx)]);
        assert(progress(w) + seq![Tag::Started(w.idx)] == progress(w).push(Tag::Started(w.idx)));
    } else {
        assert(steps.len() == 3);
        assert(steps == none.push(steps[0]).push(steps[1]).push(steps[2]));
        lemma_tags_push(none, steps[0]);
        lemma_tags_push(none.push(steps[0]), steps[1]);
        lemma_tags_push(none.push(steps[0]).push(steps[1]), steps[2]);
        if w.phase == Phase::Allocating {
            assert(tags(steps) == seq![Tag::Started(w.idx), Tag::Done(w.idx)]);
            assert(progress(w) + seq![Tag::Started(w.idx), Tag::Done(w.idx)] == batch_log(
                w.idx + 1,
            ));
        } else {
            assert(tags(steps) == seq![Tag::Done(w.idx)]);
            assert(progress(w) + seq![Tag::Done(w.idx)] == batch_log(w.idx + 1));
        }
    }
}

/// A batch that is taken up has emitted nothing yet.
pub proof fn lemma_batch_start(w: WorkerView, qs: Vec<(String, String)>, now: u64)
    requires
        w.well_formed(),
        w.phase == Phase::Idle,
        qs@.len() > 0,
    ensures
        ({
            let event = WorkerEvent::Request(Some(DbWorkerRequest::RunQueries(qs)));
            let next = w.plan(event, now).0;
            &&& next.phase == Phase::Allocating
            &&& next.queries == queries_view(qs@)
            &&& next.well_formed()
            &&& progress(next) == Seq::<Tag>::empty()
            &&& tags(w.plan(event, now).1) == Seq::<Tag>::empty()
        }),
{
    let event = WorkerEvent::Request(Some(DbWorkerRequest::RunQueries(qs)));
    let steps = w.plan(event, now).1;
    let none = Seq::<Step>::empty();
    assert(steps == none.push(Step::Allocate));
    lemma_tags_push(none, Step::Allocate);
    assert(tags(none) == Seq::<Tag>::empty());
}

/// The worker is in a batch: it allocates or runs a statement.
pub open spec fn in_batch(w: WorkerView) -> bool {
    w.phase == Phase::Allocating || w.phase == Phase::Running
}

/// The state after the events of `events`, each with its time, and all
/// steps that the worker asked for on the way.
pub open spec fn run(w: WorkerView, events: Seq<(WorkerEvent, u64)>) -> (WorkerView, Seq<Step>)
    decreases events.len(),
{
    if events.len() == 0 {
        (w, Seq::empty())
    } else {
        let before = run(w, events.drop_last());
        let last = before.0.plan(events.last().0, events.last().1);
        (last.0, before.1 + last.1)
    }
}

/// The worker is in a batch before each of the events.
pub open spec fn stays_in_batch(w: WorkerView, events: Seq<(WorkerEvent, u64)>) -> bool
    decreases events.len(),
{
    events.len() == 0 || (stays_in_batch(w, events.drop_last()) && in_batch(
        run(w, events.drop_last()).0,
    ))
}

/// The tags of two lists of steps, one after the other.
pub proof fn lemma_tags_concat(a: Seq<Step>, b: Seq<Step>)
    ensures
        tags(a + b) == tags(a) + tags(b),
    decreases b.len(),
{
    if b.len() == 0 {
        assert(a + b == a);
        assert(tags(a) + Seq::<Tag>::empty() == tags(a));
    } else {
        lemma_tags_concat(a, b.drop_last());
        assert((a + b).drop_last() == a + b.drop_last());
        assert((a + b).last() == b.last());
        match tag_of(b.last()) {
            Some(t) => {
                assert((tags(a) + tags(b.drop_last())).push(t) == tags(a) + tags(
                    b.drop_last(),
                ).push(t));
            },
            None => {},
        }
    }
}

/// A step in a batch leaves a well-formed state with the same
/// statements, unless it ends the batch.
pub proof fn lemma_plan_in_batch(w: WorkerView, event: WorkerEvent, now: u64)
    requires
        w.well_formed(),
        in_batch(w),
    ensures
        w.plan(event, now).0.well_formed(),
        in_batch(w.plan(event, now).0) ==> w.plan(event, now).0.queries == w.queries,
        !in_batch(w.plan(event, now).0) ==> w.plan(event, now).0.phase == Phase::Idle,
{
}

/// From the start of a batch of `n` statements until the worker is idle
/// again, the responses about the statements are, in this order:
/// statement 0 started, statement 0 done, statement 1 started, and so on
/// to statement `n - 1` done. This holds whatever the statements give,
/// and whichever events come out of turn in between.
pub proof fn lemma_batch_run(w: WorkerView, events: Seq<(WorkerEvent, u64)>)
    requires
        w.well_formed(),
        in_batch(w),
        stays_in_batch(w, events),
    ensures
        run(w, events).0.well_formed(),
        in_batch(run(w, events).0) ==> run(w, events).0.queries == w.queries && progress(w)
            + tags(run(w, events).1) == progress(run(w, events).0),
        !in_batch(run(w, events).0) ==> run(w, events).0.phase == Phase::Idle && progress(w)
            + tags(run(w, events).1) == batch_log(w.queries.len() as int),
    decreases events.len(),
{
    if events.len() == 0 {
        assert(tags(Seq::<Step>::empty()) == Seq::<Tag>::empty());
        assert(progress(w) + Seq::<Tag>::empty() == progress(w));
    } else {
        let before = run(w, events.drop_last());
        let last = before.0.plan(events.last().0, events.last().1);
        lemma_batch_run(w, events.drop_last());
        lemma_plan_in_batch(before.0, events.last().0, events.last().1);
        lemma_batch_order(before.0, events.last().0, events.last().1);
        lemma_tags_concat(before.1, last.1);
        assert(progress(w) + (tags(before.1) + tags(last.1)) == (progress(w) + tags(before.1))
            + tags(last.1));
    }
}

} // verus!
