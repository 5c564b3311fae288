//! The record type the store keeps, its mathematical reading, and the
//! errors its operations can report.

use vstd::prelude::*;

verus! {

/// One stored status update: four free-form text fields, the id the store
/// assigned, and the identity that last wrote the record.
#[derive(Debug)]
pub struct Report {
    pub id: usize,
    pub author: String,
    pub done_today: String,
    pub goal_tomorrow: String,
    pub blocker: String,
    pub word_appreciation: String,
}

/// The mathematical content of a [`Report`]: the same fields, as an integer
/// and character sequences.
pub struct ReportView {
    pub id: int,
    pub author: Seq<char>,
    pub done_today: Seq<char>,
    pub goal_tomorrow: Seq<char>,
    pub blocker: Seq<char>,
    pub word_appreciation: Seq<char>,
}

impl View for Report {
    type V = ReportView;

    open spec fn view(&self) -> ReportView {
        ReportView {
            id: self.id as int,
            author: self.author@,
            done_today: self.done_today@,
            goal_tomorrow: self.goal_tomorrow@,
            blocker: self.blocker@,
            word_appreciation: self.word_appreciation@,
        }
    }
}

impl Report {
    /// A copy of this record, field by field.
    pub fn duplicate(&self) -> (copy: Report)
        ensures
            copy@ == self@,
    {
        Report {
            id: self.id,
            author: self.author.clone(),
            done_today: self.done_today.clone(),
            goal_tomorrow: self.goal_tomorrow.clone(),
            blocker: self.blocker.clone(),
            word_appreciation: self.word_appreciation.clone(),
        }
    }
}

/// Why a store operation was refused.
#[derive(Clone, Copy, Debug, PartialEq, Eq, Structural)]
pub enum StoreError {
    /// No report is stored under the requested id.
    NotFound,
    /// The caller is not the store's owner.
    PermissionDenied,
}

} // verus!
