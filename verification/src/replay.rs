//! Undoing against a stored log.
//!
//! Where the tables and the log live in a database, the database runs the
//! statements and this module decides which. An undo is one transaction:
//! the newest entries are fetched, newest first, and executed in that
//! order; then the log is trimmed from the oldest of them on, which takes
//! off the entries that were undone and with them whatever the triggers
//! logged while they were executed. If a statement fails, the transaction
//! is rolled back, so that nothing is undone and nothing leaves the log.

use vstd::prelude::*;
use vstd::string::*;
use crate::log::{entries_view, EntryModel, LogEntry};
use crate::text::{decimal, push_decimal};

verus! {

/// What the session waits for.
#[derive(Debug, Clone, Copy, PartialEq, Eq, Structural)]
pub enum UndoPhase {
    /// Nothing was asked yet.
    Idle,
    /// The transaction is being opened.
    Beginning,
    /// The entries are being fetched.
    Fetching,
    /// The statement of the entry at the session's position is being
    /// executed.
    Executing,
    /// The log is being trimmed.
    Trimming,
    /// The transaction is being committed.
    Committing,
    /// The transaction is being rolled back.
    RollingBack,
    /// The session is over.
    Finished,
}

/// What the caller reports back.
#[derive(Debug, PartialEq, Eq)]
pub enum UndoEvent {
    /// The undo is to start.
    Begin,
    /// What was asked for was done.
    Done,
    /// The entries asked for, newest first.
    Fetched(Vec<LogEntry>),
    /// What was asked for failed.
    Failed,
}

/// What the caller is asked to do next.
#[derive(Debug, PartialEq, Eq)]
pub enum UndoAction {
    /// Open a transaction.
    Begin,
    /// Run this query and report the entries it yields.
    Fetch(String),
    /// Run this statement.
    Execute(String),
    /// Commit the transaction.
    Commit,
    /// Roll the transaction back.
    Rollback,
    /// The undo is complete: so many entries were undone.
    Complete(usize),
    /// The undo failed and nothing was changed. The sequence number is that
    /// of the entry whose statement failed; there is none where something
    /// else failed.
    Failed(Option<i64>),
    /// The event is no answer to what was asked last; the session stays as
    /// it is.
    Refused,
}

/// A session, as a mathematical value.
pub struct SessionModel {
    pub limit: nat,
    pub phase: UndoPhase,
    pub entries: Seq<EntryModel>,
    pub position: nat,
    pub failed: Option<int>,
}

/// An event, as a mathematical value.
pub enum EventModel {
    Begin,
    Done,
    Fetched(Seq<EntryModel>),
    Failed,
}

/// An action, as a mathematical value.
pub enum StepModel {
    Begin,
    Fetch(Seq<char>),
    Execute(Seq<char>),
    Commit,
    Rollback,
    Complete(nat),
    Failed(Option<int>),
    Refused,
}

impl View for UndoEvent {
    type V = EventModel;

    open spec fn view(&self) -> EventModel {
        match self {
            UndoEvent::Begin => EventModel::Begin,
            UndoEvent::Done => EventModel::Done,
            UndoEvent::Fetched(entries) => EventModel::Fetched(entries_view(entries@)),
            UndoEvent::Failed => EventModel::Failed,
        }
    }
}

impl View for UndoAction {
    type V = StepModel;

    open spec fn view(&self) -> StepModel {
        match self {
            UndoAction::Begin => StepModel::Begin,
            UndoAction::Fetch(sql) => StepModel::Fetch(sql@),
            UndoAction::Execute(sql) => StepModel::Execute(sql@),
            UndoAction::Commit => StepModel::Commit,
            UndoAction::Rollback => StepModel::Rollback,
            UndoAction::Complete(count) => StepModel::Complete(*count as nat),
            UndoAction::Failed(sequence) => StepModel::Failed(
                match sequence {
                    Some(s) => Some(*s as int),
                    None => None,
                },
            ),
            UndoAction::Refused => StepModel::Refused,
        }
    }
}

/// The query that fetches the `limit` newest entries, newest first.
pub open spec fn fetch_query(limit: nat) -> Seq<char> {
    "SELECT seq, sql FROM undolog ORDER BY seq DESC LIMIT "@ + decimal(
        if limit <= i64::MAX {
            limit as int
        } else {
            i64::MAX as int
        },
    )
}

/// The statement that trims the log from the given sequence number on.
pub open spec fn trim_statement(sequence: int) -> Seq<char> {
    "DELETE FROM undolog WHERE seq>="@ + decimal(sequence)
}

/// The session with another phase.
pub open spec fn in_phase(session: SessionModel, phase: UndoPhase) -> SessionModel {
    SessionModel { phase, ..session }
}

/// The next session and the next action.
pub open spec fn undo_transition(session: SessionModel, event: EventModel) -> (
    SessionModel,
    StepModel,
) {
    match (session.phase, event) {
        (UndoPhase::Idle, EventModel::Begin) => (
            in_phase(session, UndoPhase::Beginning),
            StepModel::Begin,
        ),
        (UndoPhase::Beginning, EventModel::Done) => (
            in_phase(session, UndoPhase::Fetching),
            StepModel::Fetch(fetch_query(session.limit)),
        ),
        (UndoPhase::Beginning, EventModel::Failed) => (
            in_phase(session, UndoPhase::Finished),
            StepModel::Failed(None),
        ),
        (UndoPhase::Fetching, EventModel::Fetched(entries)) => if entries.len() == 0 {
            (
                SessionModel { phase: UndoPhase::Committing, entries, position: 0, ..session },
                StepModel::Commit,
            )
        } else {
            (
                SessionModel { phase: UndoPhase::Executing, entries, position: 0, ..session },
                StepModel::Execute(entries[0].statement),
            )
        },
        (UndoPhase::Executing, EventModel::Done) => if session.position + 1
            < session.entries.len() {
            (
                SessionModel { position: session.position + 1, ..session },
                StepModel::Execute(session.entries[session.position as int + 1].statement),
            )
        } else if session.entries.len() > 0 {
            (
                SessionModel {
                    phase: UndoPhase::Trimming,
                    position: session.entries.len(),
                    ..session
                },
                StepModel::Execute(trim_statement(session.entries.last().sequence)),
            )
        } else {
            (session, StepModel::Refused)
        },
        (UndoPhase::Executing, EventModel::Failed) => (
            SessionModel {
                phase: UndoPhase::RollingBack,
                failed: if session.position < session.entries.len() {
                    Some(session.entries[session.position as int].sequence)
                } else {
                    None
                },
                ..session
            },
            StepModel::Rollback,
        ),
        (UndoPhase::Trimming, EventModel::Done) => (
            in_phase(session, UndoPhase::Committing),
            StepModel::Commit,
        ),
        (UndoPhase::Committing, EventModel::Done) => (
            in_phase(session, UndoPhase::Finished),
            StepModel::Complete(session.entries.len()),
        ),
        (UndoPhase::Fetching, EventModel::Failed) => (
            SessionModel { phase: UndoPhase::RollingBack, failed: None, ..session },
            StepModel::Rollback,
        ),
        (UndoPhase::Trimming, EventModel::Failed) => (
            SessionModel { phase: UndoPhase::RollingBack, failed: None, ..session },
            StepModel::Rollback,
        ),
        (UndoPhase::Committing, EventModel::Failed) => (
            SessionModel { phase: UndoPhase::RollingBack, failed: None, ..session },
            StepModel::Rollback,
        ),
        (UndoPhase::RollingBack, EventModel::Done) => (
            in_phase(session, UndoPhase::Finished),
            StepModel::Failed(session.failed),
        ),
        (UndoPhase::RollingBack, EventModel::Failed) => (
            in_phase(session, UndoPhase::Finished),
            StepModel::Failed(session.failed),
        ),
        _ => (session, StepModel::Refused),
    }
}

/// An undo of the newest entries of a stored log, step by step.
#[derive(Debug, PartialEq, Eq)]
pub struct UndoSession {
    limit: usize,
    phase: UndoPhase,
    entries: Vec<LogEntry>,
    position: usize,
    failed: Option<i64>,
}

impl View for UndoSession {
    type V = SessionModel;

    closed spec fn view(&self) -> SessionModel {
        SessionModel {
            limit: self.limit as nat,
            phase: self.phase,
            entries: entries_view(self.entries@),
            position: self.position as nat,
            failed: match self.failed {
                Some(s) => Some(s as int),
                None => None,
            },
        }
    }
}

impl UndoSession {
    /// A session that will undo the `limit` newest entries.
    pub fn new(limit: usize) -> (session: UndoSession)
        ensures
            session@ == fresh_session(limit as nat),
    {
        let entries: Vec<LogEntry> = Vec::new();
        assert(entries_view(entries@) =~= Seq::empty());
        UndoSession { limit, phase: UndoPhase::Idle, entries, position: 0, failed: None }
    }

    /// What the session waits for.
    pub fn phase(&self) -> (phase: UndoPhase)
        ensures
            phase == self@.phase,
    {
        self.phase
    }

    /// Takes the caller's report and says what to do next.
    pub fn step(&mut self, event: UndoEvent) -> (action: UndoAction)
        ensures
            final(self)@ == undo_transition(old(self)@, event@).0,
            action@ == undo_transition(old(self)@, event@).1,
    {
        match self.phase {
            UndoPhase::Idle => match event {
                UndoEvent::Begin => {
                    self.phase = UndoPhase::Beginning;
                    UndoAction::Begin
                },
                _ => UndoAction::Refused,
            },
            UndoPhase::Beginning => match event {
                UndoEvent::Done => {
                    self.phase = UndoPhase::Fetching;
                    let mut query = String::new();
                    query.append("SELECT seq, sql FROM undolog ORDER BY seq DESC LIMIT ");
                    let wide: u64 = self.limit as u64;
                    let limit: i64 = if wide <= 0x7fff_ffff_ffff_ffffu64 {
                        wide as i64
                    } else {
                        i64::MAX
                    };
                    push_decimal(&mut query, limit);
                    assert(query@ == fetch_query(self.limit as nat)) by {
                        assert(Seq::<char>::empty()
                            + "SELECT seq, sql FROM undolog ORDER BY seq DESC LIMIT "@
                            == "SELECT seq, sql FROM undolog ORDER BY seq DESC LIMIT "@);
                    }
                    UndoAction::Fetch(query)
                },
                UndoEvent::Failed => {
                    self.phase = UndoPhase::Finished;
                    UndoAction::Failed(None)
                },
                _ => UndoAction::Refused,
            },
            UndoPhase::Fetching => match event {
                UndoEvent::Fetched(entries) => {
                    self.position = 0;
                    if entries.len() == 0 {
                        self.phase = UndoPhase::Committing;
                        self.entries = entries;
                        UndoAction::Commit
                    } else {
                        self.phase = UndoPhase::Executing;
                        let statement = entries[0].statement().to_owned();
                        self.entries = entries;
                        UndoAction::Execute(statement)
                    }
                },
                UndoEvent::Failed => {
                    self.phase = UndoPhase::RollingBack;
                    self.failed = None;
                    UndoAction::Rollback
                },
                _ => UndoAction::Refused,
            },
            UndoPhase::Executing => match event {
                UndoEvent::Done => {
                    if self.position < self.entries.len() && self.position + 1
                        < self.entries.len() {
                        self.position = self.position + 1;
                        UndoAction::Execute(self.entries[self.position].statement().to_owned())
                    } else if self.entries.len() > 0 {
                        self.phase = UndoPhase::Trimming;
                        self.position = self.entries.len();
                        let oldest = self.entries[self.entries.len() - 1].sequence();
                        let mut statement = String::new();
                        statement.append("DELETE FROM undolog WHERE seq>=");
                        push_decimal(&mut statement, oldest);
                        assert(statement@ == trim_statement(oldest as int)) by {
                            assert(Seq::<char>::empty() + "DELETE FROM undolog WHERE seq>="@
                                == "DELETE FROM undolog WHERE seq>="@);
                        }
                        UndoAction::Execute(statement)
                    } else {
                        UndoAction::Refused
                    }
                },
                UndoEvent::Failed => {
                    self.phase = UndoPhase::RollingBack;
                    self.failed = if self.position < self.entries.len() {
                        Some(self.entries[self.position].sequence())
                    } else {
                        None
                    };
                    UndoAction::Rollback
                },
                _ => UndoAction::Refused,
            },
            UndoPhase::Trimming => match event {
                UndoEvent::Done => {
                    self.phase = UndoPhase::Committing;
                    UndoAction::Commit
                },
                UndoEvent::Failed => {
                    self.phase = UndoPhase::RollingBack;
                    self.failed = None;
                    UndoAction::Rollback
                },
                _ => UndoAction::Refused,
            },
            UndoPhase::Committing => match event {
                UndoEvent::Done => {
                    self.phase = UndoPhase::Finished;
                    UndoAction::Complete(self.entries.len())
                },
                UndoEvent::Failed => {
                    self.phase = UndoPhase::RollingBack;
                    self.failed = None;
                    UndoAction::Rollback
                },
                _ => UndoAction::Refused,
            },
            UndoPhase::RollingBack => match event {
                UndoEvent::Done => {
                    self.phase = UndoPhase::Finished;
                    UndoAction::Failed(self.failed)
                },
                UndoEvent::Failed => {
                    self.phase = UndoPhase::Finished;
                    UndoAction::Failed(self.failed)
                },
                _ => UndoAction::Refused,
            },
            UndoPhase::Finished => UndoAction::Refused,
        }
    }
}

/// The actions that a session asks for, one after another, when it is
/// given the events one after another.
pub open spec fn asked(session: SessionModel, events: Seq<EventModel>) -> Seq<StepModel>
    decreases events.len(),
{
    if events.len() == 0 {
        Seq::empty()
    } else {
        seq![undo_transition(session, events[0]).1] + asked(
            undo_transition(session, events[0]).0,
            events.skip(1),
        )
    }
}

/// The session that has not begun yet.
pub open spec fn fresh_session(limit: nat) -> SessionModel {
    SessionModel {
        limit,
        phase: UndoPhase::Idle,
        entries: Seq::empty(),
        position: 0,
        failed: None,
    }
}

/// The session that is executing the entry at position `position`.
pub open spec fn executing(limit: nat, entries: Seq<EntryModel>, position: nat) -> SessionModel {
    SessionModel { limit, phase: UndoPhase::Executing, entries, position, failed: None }
}

/// `count` reports of success in a row.
pub open spec fn successes(count: nat) -> Seq<EventModel> {
    Seq::new(count, |i: int| EventModel::Done)
}

/// The actions that execute the entries from position `from` up to, but not
/// including, position `to`.
pub open spec fn executions(entries: Seq<EntryModel>, from: int, to: int) -> Seq<StepModel> {
    Seq::new((to - from) as nat, |i: int| StepModel::Execute(entries[from + i].statement))
}

proof fn lemma_executing_until_failure(
    limit: nat,
    entries: Seq<EntryModel>,
    position: int,
    failing: int,
)
    requires
        0 <= position <= failing < entries.len(),
    ensures
        asked(
            executing(limit, entries, position as nat),
            successes((failing - position) as nat).push(EventModel::Failed).push(EventModel::Done),
        ) == executions(entries, position + 1, failing + 1).push(StepModel::Rollback).push(
            StepModel::Failed(Some(entries[failing].sequence)),
        ),
    decreases failing - position,
{
    let events = successes((failing - position) as nat).push(EventModel::Failed).push(
        EventModel::Done,
    );
    let session = executing(limit, entries, position as nat);
    let last = StepModel::Failed(Some(entries[failing].sequence));
    if position == failing {
        let rolling = undo_transition(session, EventModel::Failed).0;
        assert(events[0] == EventModel::Failed);
        assert(events.skip(1) =~= seq![EventModel::Done]);
        assert(events.skip(1).skip(1) =~= Seq::<EventModel>::empty());
        assert(asked(rolling, events.skip(1)) =~= seq![last]) by {
            assert(asked(undo_transition(rolling, EventModel::Done).0, events.skip(1).skip(1))
                =~= Seq::<StepModel>::empty());
        }
        assert(executions(entries, position + 1, failing + 1) =~= Seq::<StepModel>::empty());
        assert(asked(session, events) =~= Seq::<StepModel>::empty().push(StepModel::Rollback).push(
            last,
        ));
    } else {
        assert(events[0] == EventModel::Done);
        assert(events.skip(1) =~= successes((failing - position - 1) as nat).push(
            EventModel::Failed,
        ).push(EventModel::Done));
        assert(undo_transition(session, EventModel::Done).0 == executing(
            limit,
            entries,
            (position + 1) as nat,
        ));
        lemma_executing_until_failure(limit, entries, position + 1, failing);
        assert(seq![StepModel::Execute(entries[position + 1].statement)] + executions(
            entries,
            position + 2,
            failing + 1,
        ) =~= executions(entries, position + 1, failing + 1));
        assert(asked(session, events) =~= executions(entries, position + 1, failing + 1).push(
            StepModel::Rollback,
        ).push(last));
    }
}

proof fn lemma_executing_to_the_end(limit: nat, entries: Seq<EntryModel>, position: int)
    requires
        0 <= position < entries.len(),
    ensures
        asked(
            executing(limit, entries, position as nat),
            successes((entries.len() - position + 2) as nat),
        ) == executions(entries, position + 1, entries.len() as int).push(
            StepModel::Execute(trim_statement(entries.last().sequence)),
        ).push(StepModel::Commit).push(StepModel::Complete(entries.len())),
    decreases entries.len() - position,
{
    let events = successes((entries.len() - position + 2) as nat);
    let session = executing(limit, entries, position as nat);
    let trim = StepModel::Execute(trim_statement(entries.last().sequence));
    assert(events[0] == EventModel::Done);
    if position + 1 == entries.len() {
        let trimming = undo_transition(session, EventModel::Done).0;
        let committing = undo_transition(trimming, EventModel::Done).0;
        let rest = events.skip(1);
        assert(rest =~= seq![EventModel::Done, EventModel::Done]);
        assert(rest.skip(1) =~= seq![EventModel::Done]);
        assert(rest.skip(1).skip(1) =~= Seq::<EventModel>::empty());
        assert(asked(committing, rest.skip(1)) =~= seq![StepModel::Complete(entries.len())]) by {
            assert(asked(undo_transition(committing, EventModel::Done).0, rest.skip(1).skip(1))
                =~= Seq::<StepModel>::empty());
        }
        assert(asked(trimming, rest) =~= seq![
            StepModel::Commit,
            StepModel::Complete(entries.len()),
        ]);
        assert(executions(entries, position + 1, entries.len() as int) =~= Seq::<
            StepModel,
        >::empty());
        assert(asked(session, events) =~= Seq::<StepModel>::empty().push(trim).push(
            StepModel::Commit,
        ).push(StepModel::Complete(entries.len())));
    } else {
        assert(events.skip(1) =~= successes((entries.len() - position + 1) as nat));
        assert(undo_transition(session, EventModel::Done).0 == executing(
            limit,
            entries,
            (position + 1) as nat,
        ));
        lemma_executing_to_the_end(limit, entries, position + 1);
        assert(seq![StepModel::Execute(entries[position + 1].statement)] + executions(
            entries,
            position + 2,
            entries.len() as int,
        ) =~= executions(entries, position + 1, entries.len() as int));
        assert(asked(session, events) =~= executions(
            entries,
            position + 1,
            entries.len() as int,
        ).push(trim).push(StepModel::Commit).push(StepModel::Complete(entries.len())));
    }
}

/// An undo whose entry at position `failing` fails, after every entry
/// before it has succeeded, changes nothing: the session opens a
/// transaction, fetches the entries, executes them newest first up to the
/// failing one, and then asks for the rollback of the transaction and for
/// nothing else before it reports the sequence number of the failing entry.
/// The log is never trimmed and no commit is ever asked for.
pub proof fn lemma_failed_undo_is_rolled_back(
    limit: nat,
    entries: Seq<EntryModel>,
    failing: nat,
)
    requires
        failing < entries.len(),
    ensures
        asked(
            fresh_session(limit),
            seq![EventModel::Begin, EventModel::Done, EventModel::Fetched(entries)] + successes(
                failing,
            ).push(EventModel::Failed).push(EventModel::Done),
        ) == seq![StepModel::Begin, StepModel::Fetch(fetch_query(limit))] + executions(
            entries,
            0,
            failing as int + 1,
        ).push(StepModel::Rollback).push(StepModel::Failed(Some(entries[failing as int].sequence))),
{
    let tail = successes(failing).push(EventModel::Failed).push(EventModel::Done);
    let events = seq![EventModel::Begin, EventModel::Done, EventModel::Fetched(entries)] + tail;
    let beginning = undo_transition(fresh_session(limit), EventModel::Begin).0;
    let fetching = undo_transition(beginning, EventModel::Done).0;
    assert(events[0] == EventModel::Begin);
    assert(events.skip(1)[0] == EventModel::Done);
    assert(events.skip(1).skip(1)[0] == EventModel::Fetched(entries));
    assert(events.skip(1).skip(1).skip(1) =~= tail);
    assert(undo_transition(fetching, EventModel::Fetched(entries)).0 == executing(
        limit,
        entries,
        0,
    ));
    lemma_executing_until_failure(limit, entries, 0, failing as int);
    let done = executions(entries, 0, failing as int + 1).push(StepModel::Rollback).push(
        StepModel::Failed(Some(entries[failing as int].sequence)),
    );
    assert(seq![StepModel::Execute(entries[0].statement)] + executions(
        entries,
        1,
        failing as int + 1,
    ) =~= executions(entries, 0, failing as int + 1));
    assert(asked(fetching, events.skip(1).skip(1)) =~= done);
    assert(asked(beginning, events.skip(1)) =~= seq![StepModel::Fetch(fetch_query(limit))] + done);
}

/// An undo whose statements all succeed executes every fetched entry,
/// newest first and inside one transaction, then trims the log from the
/// oldest of them on, and commits once.
pub proof fn lemma_whole_undo_is_committed(limit: nat, entries: Seq<EntryModel>)
    requires
        entries.len() > 0,
    ensures
        asked(
            fresh_session(limit),
            seq![EventModel::Begin, EventModel::Done, EventModel::Fetched(entries)] + successes(
                (entries.len() + 2) as nat,
            ),
        ) == seq![StepModel::Begin, StepModel::Fetch(fetch_query(limit))] + executions(
            entries,
            0,
            entries.len() as int,
        ).push(StepModel::Execute(trim_statement(entries.last().sequence))).push(
            StepModel::Commit,
        ).push(StepModel::Complete(entries.len())),
{
    let tail = successes((entries.len() + 2) as nat);
    let events = seq![EventModel::Begin, EventModel::Done, EventModel::Fetched(entries)] + tail;
    let beginning = undo_transition(fresh_session(limit), EventModel::Begin).0;
    let fetching = undo_transition(beginning, EventModel::Done).0;
    assert(events[0] == EventModel::Begin);
    assert(events.skip(1)[0] == EventModel::Done);
    assert(events.skip(1).skip(1)[0] == EventModel::Fetched(entries));
    assert(events.skip(1).skip(1).skip(1) =~= tail);
    assert(undo_transition(fetching, EventModel::Fetched(entries)).0 == executing(
        limit,
        entries,
        0,
    ));
    lemma_executing_to_the_end(limit, entries, 0);
    let done = executions(entries, 0, entries.len() as int).push(
        StepModel::Execute(trim_statement(entries.last().sequence)),
    ).push(StepModel::Commit).push(StepModel::Complete(entries.len()));
    assert(seq![StepModel::Execute(entries[0].statement)] + executions(
        entries,
        1,
        entries.len() as int,
    ) =~= executions(entries, 0, entries.len() as int));
    assert(asked(fetching, events.skip(1).skip(1)) =~= done);
    assert(asked(beginning, events.skip(1)) =~= seq![StepModel::Fetch(fetch_query(limit))] + done);
}

} // verus!
