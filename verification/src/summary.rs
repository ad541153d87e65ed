//! From the tree of a log to its report.

use vstd::prelude::*;
use crate::event::collect_logons;
use crate::event::first_fault;
use crate::event::logon_models;
use crate::event::logons_of_kind;
use crate::event::EventFault;
use crate::event::EventLogon;
use crate::event::LogonKind;
use crate::histogram::arranged;
use crate::histogram::first_untimed;
use crate::histogram::row_totals;
use crate::histogram::histogram_of;
use crate::histogram::RowModel;
use crate::histogram::tally;
use crate::histogram::total;
use crate::histogram::Histogram;
use crate::ranking::is_ranking;
use crate::ranking::ranking_of;
use crate::report::csv_text;
use crate::report::render_csv;
use crate::tree::Element;
use crate::tree::ElementModel;

verus! {

/// Why a log gives no report.
#[derive(Debug, Clone, Copy, PartialEq, Eq, Structural)]
pub enum SummaryError {
    /// An event cannot be read.
    Event(EventFault),
    /// The time of the successful logon at this place gives no hour of the
    /// day.
    Time(usize),
}

/// The report on a log.
#[derive(Debug, Clone, PartialEq, Eq)]
pub struct Summary {
    /// The successful logons by user and hour, the users by falling number
    /// of logons.
    pub histogram: Histogram,
    /// The histogram as CSV.
    pub csv: String,
    /// Each user with the number of successful logons, in the order of the
    /// histogram.
    pub users: Vec<(String, u128)>,
    /// The logons that failed.
    pub failed: Vec<EventLogon>,
}

/// The histogram of the report on the log whose events are `events`: that
/// of the successful logons, the users by falling number of logons.
pub open spec fn ranked_histogram(events: Seq<ElementModel>) -> Seq<RowModel> {
    let table = histogram_of(logons_of_kind(events, LogonKind::Success));
    arranged(table, ranking_of(row_totals(table)))
}

/// The number of successful logons of each user of the log whose events
/// are `events`, the users in the order in which they first occur.
pub open spec fn logon_totals(events: Seq<ElementModel>) -> Seq<u128> {
    row_totals(histogram_of(logons_of_kind(events, LogonKind::Success)))
}

/// Whether `summary` is the report on the log whose events are `events`.
/// Its histogram holds the users by falling number of logons, users with
/// the same number in the order in which they first occur.
pub open spec fn summarizes(events: Seq<ElementModel>, summary: Summary) -> bool {
    &&& is_ranking(logon_totals(events), ranking_of(logon_totals(events)))
    &&& summary.histogram@ == ranked_histogram(events)
    &&& summary.csv@ == csv_text(summary.histogram@)
    &&& summary.users@.len() == summary.histogram@.len()
    &&& forall|r: int|
        0 <= r < summary.users@.len() ==> (#[trigger] summary.users@[r]).0@
            == summary.histogram@[r].user && summary.users@[r].1 == total(
            summary.histogram@[r].hours,
        )
    &&& logon_models(summary.failed@) == logons_of_kind(events, LogonKind::Failure)
}

/// In the histogram of a report no user has more logons than a user before.
pub proof fn lemma_summary_falls(events: Seq<ElementModel>, summary: Summary, i: int, j: int)
    requires
        summarizes(events, summary),
        0 <= i <= j < summary.histogram@.len(),
    ensures
        total(summary.histogram@[i].hours) >= total(summary.histogram@[j].hours),
{
    let table = histogram_of(logons_of_kind(events, LogonKind::Success));
    crate::histogram::lemma_ranked_falls(table, i, j);
}

/// The error that [`summarize`] returns on the log whose events are
/// `events`, if it returns one.
pub open spec fn summary_error(events: Seq<ElementModel>) -> Option<SummaryError> {
    match first_fault(events) {
        Some(fault) => Some(SummaryError::Event(fault)),
        None => match first_untimed(logons_of_kind(events, LogonKind::Success)) {
            Some(place) => Some(SummaryError::Time(place as usize)),
            None => None,
        },
    }
}

/// Reads the events of a log, the children of `root`, counts the successful
/// logons by user and hour, ranks the users and lays the counts out.
pub fn summarize(root: &Element) -> (summary: Result<Summary, SummaryError>)
    ensures
        match summary {
            Ok(summary) => summary_error(root@.children) is None && summarizes(
                root@.children,
                summary,
            ),
            Err(error) => summary_error(root@.children) == Some(error),
        },
{
    let logons = match collect_logons(root) {
        Ok(logons) => logons,
        Err(fault) => {
            return Err(SummaryError::Event(fault));
        },
    };
    let table = match tally(&logons.succeeded) {
        Ok(table) => table,
        Err(place) => {
            return Err(SummaryError::Time(place));
        },
    };
    let histogram = table.ranked();
    let csv = render_csv(&histogram);
    let users = histogram.user_totals();
    let summary = Summary { histogram, csv, users, failed: logons.failed };
    Ok(summary)
}

} // verus!
