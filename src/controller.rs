//! The failure controller: a failure starts a report, and a failure while a
//! report is being written ends the process.

use vstd::prelude::*;

verus! {

/// Whether the current thread is writing a failure report.
#[derive(Clone, Copy, Debug, PartialEq, Eq, Structural)]
pub enum ReportState {
    Idle,
    Reporting,
}

/// What the handler does on a failure.
#[derive(Clone, Copy, Debug, PartialEq, Eq, Structural)]
pub enum FailureAction {
    /// Write the report, then hand over to the previous handler.
    Report,
    /// Flush, hand over to the previous handler and terminate the process.
    Abort,
}

pub open spec fn failure_outcome(s: ReportState) -> (ReportState, FailureAction) {
    match s {
        ReportState::Idle => (ReportState::Reporting, FailureAction::Report),
        ReportState::Reporting => (ReportState::Reporting, FailureAction::Abort),
    }
}

impl ReportState {
    /// The state and action on a failure signal.
    pub fn on_failure(self) -> (r: (ReportState, FailureAction))
        ensures
            r == failure_outcome(self),
    {
        match self {
            ReportState::Idle => (ReportState::Reporting, FailureAction::Report),
            ReportState::Reporting => (ReportState::Reporting, FailureAction::Abort),
        }
    }

    /// The state once a report has been written.
    pub fn on_report_done(self) -> (r: ReportState)
        ensures
            r == ReportState::Idle,
    {
        ReportState::Idle
    }
}

/// A failure raised while the report of an earlier one is being written always
/// ends the process, whatever the state before the first failure.
pub proof fn lemma_nested_failure_aborts(s: ReportState)
    ensures
        failure_outcome(failure_outcome(s).0).1 == FailureAction::Abort,
        failure_outcome(ReportState::Idle).1 == FailureAction::Report,
{
}

} // verus!
