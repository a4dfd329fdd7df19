//! Emptying the store of its business data.
//!
//! The buyers, the sellers, the wood pieces and the offers are deleted,
//! children before parents. The tree species and the settings stay; if
//! either table turns out to be empty it is filled again with the rows that
//! a fresh store starts with. The store is the caller's: this module decides
//! each next statement from the answer to the one before.

use vstd::prelude::*;
use vstd::string::*;
use crate::seed::{SQL_STATEMENT_SETTINGS, SQL_STATEMENT_TREE_SPECIES};

verus! {

/// How far a reset has come: what the caller was last asked to do.
#[derive(Debug, Clone, Copy, PartialEq, Eq, Structural)]
pub enum ResetState {
    /// Nothing was asked yet.
    Idle,
    /// The table at this position of the order of deletion is being emptied.
    Emptying(u8),
    /// The tree species are being counted.
    CountingSpecies,
    /// The tree species are being filled in.
    SeedingSpecies,
    /// The settings are being counted.
    CountingSettings,
    /// The settings are being filled in.
    SeedingSettings,
    /// All is done.
    Finished,
}

/// What the caller reports back.
#[derive(Debug, Clone, Copy, PartialEq, Eq, Structural)]
pub enum ResetEvent {
    /// The reset is to start.
    Begin,
    /// The statement asked for was run.
    Executed,
    /// The count asked for gave this number of rows.
    Counted(i32),
}

/// What the caller is asked to do next.
#[derive(Debug, Clone, Copy, PartialEq, Eq)]
pub enum ResetAction {
    /// Run this statement.
    Execute(&'static str),
    /// Run this query and report the number it yields.
    Count(&'static str),
    /// Nothing more.
    Done,
}

/// What the caller is asked to do next, as a mathematical value.
pub enum ActionModel {
    Execute(Seq<char>),
    Count(Seq<char>),
    Done,
}

impl View for ResetAction {
    type V = ActionModel;

    open spec fn view(&self) -> ActionModel {
        match self {
            ResetAction::Execute(sql) => ActionModel::Execute(sql@),
            ResetAction::Count(sql) => ActionModel::Count(sql@),
            ResetAction::Done => ActionModel::Done,
        }
    }
}

/// The statements that empty the business tables, children before parents.
pub open spec fn deletions() -> Seq<Seq<char>> {
    seq![
        "DELETE FROM wood_piece_offers;"@,
        "DELETE FROM wood_pieces;"@,
        "DELETE FROM sellers;"@,
        "DELETE FROM buyers;"@,
    ]
}

/// The query that counts the tree species.
pub open spec fn species_count_query() -> Seq<char> {
    "SELECT COUNT(*) FROM tree_species;"@
}

/// The query that counts the settings.
pub open spec fn settings_count_query() -> Seq<char> {
    "SELECT COUNT(*) FROM settings;"@
}

/// The next state and the next action, for an event that answers the state;
/// none for an event that does not.
pub open spec fn reset_transition(state: ResetState, event: ResetEvent) -> Option<
    (ResetState, ActionModel),
> {
    match (state, event) {
        (ResetState::Idle, ResetEvent::Begin) => Some(
            (ResetState::Emptying(0), ActionModel::Execute(deletions()[0])),
        ),
        (ResetState::Emptying(n), ResetEvent::Executed) => if n + 1 < deletions().len() {
            Some(
                (
                    ResetState::Emptying((n + 1) as u8),
                    ActionModel::Execute(deletions()[n + 1]),
                ),
            )
        } else if n + 1 == deletions().len() {
            Some((ResetState::CountingSpecies, ActionModel::Count(species_count_query())))
        } else {
            None
        },
        (ResetState::CountingSpecies, ResetEvent::Counted(rows)) => if rows == 0 {
            Some((ResetState::SeedingSpecies, ActionModel::Execute(SQL_STATEMENT_TREE_SPECIES@)))
        } else {
            Some((ResetState::CountingSettings, ActionModel::Count(settings_count_query())))
        },
        (ResetState::SeedingSpecies, ResetEvent::Executed) => Some(
            (ResetState::CountingSettings, ActionModel::Count(settings_count_query())),
        ),
        (ResetState::CountingSettings, ResetEvent::Counted(rows)) => if rows == 0 {
            Some((ResetState::SeedingSettings, ActionModel::Execute(SQL_STATEMENT_SETTINGS@)))
        } else {
            Some((ResetState::Finished, ActionModel::Done))
        },
        (ResetState::SeedingSettings, ResetEvent::Executed) => Some(
            (ResetState::Finished, ActionModel::Done),
        ),
        _ => None,
    }
}

fn deletion(n: u8) -> (sql: &'static str)
    requires
        n < 4,
    ensures
        sql@ == deletions()[n as int],
{
    if n == 0 {
        "DELETE FROM wood_piece_offers;"
    } else if n == 1 {
        "DELETE FROM wood_pieces;"
    } else if n == 2 {
        "DELETE FROM sellers;"
    } else {
        "DELETE FROM buyers;"
    }
}

/// The next state of a reset and what the caller is to do next.
///
/// `None` exactly when the event is no answer to what was asked last.
pub fn reset_step(state: ResetState, event: ResetEvent) -> (next: Option<(ResetState, ResetAction)>)
    ensures
        match reset_transition(state, event) {
            Some((to, action)) => next matches Some((s, a)) && s == to && a@ == action,
            None => next is None,
        },
{
    match state {
        ResetState::Idle => match event {
            ResetEvent::Begin => Some((ResetState::Emptying(0), ResetAction::Execute(deletion(0)))),
            _ => None,
        },
        ResetState::Emptying(n) => match event {
            ResetEvent::Executed => if n < 3 {
                Some((ResetState::Emptying(n + 1), ResetAction::Execute(deletion(n + 1))))
            } else if n == 3 {
                Some(
                    (
                        ResetState::CountingSpecies,
                        ResetAction::Count("SELECT COUNT(*) FROM tree_species;"),
                    ),
                )
            } else {
                None
            },
            _ => None,
        },
        ResetState::CountingSpecies => match event {
            ResetEvent::Counted(rows) => if rows == 0 {
                Some((ResetState::SeedingSpecies, ResetAction::Execute(SQL_STATEMENT_TREE_SPECIES)))
            } else {
                Some(
                    (
                        ResetState::CountingSettings,
                        ResetAction::Count("SELECT COUNT(*) FROM settings;"),
                    ),
                )
            },
            _ => None,
        },
        ResetState::SeedingSpecies => match event {
            ResetEvent::Executed => Some(
                (ResetState::CountingSettings, ResetAction::Count("SELECT COUNT(*) FROM settings;")),
            ),
            _ => None,
        },
        ResetState::CountingSettings => match event {
            ResetEvent::Counted(rows) => if rows == 0 {
                Some((ResetState::SeedingSettings, ResetAction::Execute(SQL_STATEMENT_SETTINGS)))
            } else {
                Some((ResetState::Finished, ResetAction::Done))
            },
            _ => None,
        },
        ResetState::SeedingSettings => match event {
            ResetEvent::Executed => Some((ResetState::Finished, ResetAction::Done)),
            _ => None,
        },
        ResetState::Finished => None,
    }
}

} // verus!
