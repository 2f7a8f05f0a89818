//! Interview stages and their statuses.

use vstd::prelude::*;

use crate::style::{bold, bright_green_bold, bright_red_bold, bright_yellow_bold, fg};
use crate::text::{clone_opt, concat, decimal_string, owned, signed_decimal, str_eq};
use vstd::string::*;

verus! {

/// The status of an interview stage.
#[derive(Clone, Copy, Debug, PartialEq, Eq, Structural)]
pub enum StageStatus {
    /// The interview is scheduled but has not yet occurred.
    Scheduled,
    /// The interview stage has been passed.
    Passed,
    /// The interview stage resulted in a rejection.
    Rejected,
}

/// The label under which a stage status is stored.
pub open spec fn status_label(s: StageStatus) -> Seq<char> {
    match s {
        StageStatus::Scheduled => "SCHEDULED"@,
        StageStatus::Passed => "PASSED"@,
        StageStatus::Rejected => "REJECTED"@,
    }
}

/// The prompt shown when asking for the date of a stage with this status.
pub open spec fn date_prompt_text(s: StageStatus) -> Seq<char> {
    match s {
        StageStatus::Scheduled => "Select the scheduled date:"@,
        StageStatus::Passed => "Select the passed date:"@,
        StageStatus::Rejected => "Select the rejected date:"@,
    }
}

/// How a raw stage status is coloured: known labels in bold bright yellow,
/// green or red, anything else unchanged.
pub open spec fn colorized_status(s: Seq<char>) -> Seq<char> {
    if s == "SCHEDULED"@ {
        bold(fg("93"@, s))
    } else if s == "PASSED"@ {
        bold(fg("92"@, s))
    } else if s == "REJECTED"@ {
        bold(fg("91"@, s))
    } else {
        s
    }
}

/// Relies on `str::to_uppercase`: the upper-case form depends on the characters alone.
pub uninterp spec fn upper_of(s: Seq<char>) -> Seq<char>;

/// Relies on `str::to_uppercase` (full Unicode upper-casing).
#[verifier::external_body]
fn uppercase(s: &str) -> (r: String)
    ensures
        r@ == upper_of(s@),
{
    s.to_uppercase()
}

/// The status named by an upper-cased label, if any.
pub open spec fn status_of_upper(u: Seq<char>) -> Option<StageStatus> {
    if u == "SCHEDULED"@ {
        Some(StageStatus::Scheduled)
    } else if u == "PASSED"@ {
        Some(StageStatus::Passed)
    } else if u == "REJECTED"@ {
        Some(StageStatus::Rejected)
    } else {
        None
    }
}

impl StageStatus {
    /// Returns all variants, in the order offered to the user.
    pub fn variants() -> (r: Vec<StageStatus>)
        ensures
            r@ == seq![StageStatus::Scheduled, StageStatus::Passed, StageStatus::Rejected],
    {
        vec![StageStatus::Scheduled, StageStatus::Passed, StageStatus::Rejected]
    }

    /// Returns the label stored in the store.
    pub fn as_str(&self) -> (r: &'static str)
        ensures
            r@ == status_label(*self),
    {
        match self {
            StageStatus::Scheduled => "SCHEDULED",
            StageStatus::Passed => "PASSED",
            StageStatus::Rejected => "REJECTED",
        }
    }

    /// The stored label as an owned string.
    pub fn to_string(&self) -> (r: String)
        ensures
            r@ == status_label(*self),
    {
        owned(self.as_str())
    }

    /// Returns a date prompt label appropriate for this status.
    pub fn date_prompt(&self) -> (r: &'static str)
        ensures
            r@ == date_prompt_text(*self),
    {
        match self {
            StageStatus::Scheduled => "Select the scheduled date:",
            StageStatus::Passed => "Select the passed date:",
            StageStatus::Rejected => "Select the rejected date:",
        }
    }

    /// Colorize a raw status string.
    pub fn colorize_str(status: &str) -> (r: String)
        ensures
            r@ == colorized_status(status@),
    {
        if str_eq(status, "SCHEDULED") {
            bright_yellow_bold(status)
        } else if str_eq(status, "PASSED") {
            bright_green_bold(status)
        } else if str_eq(status, "REJECTED") {
            bright_red_bold(status)
        } else {
            owned(status)
        }
    }

    /// Reads a status from its label already upper-cased (`upper`); `given` is the
    /// text as given, quoted in the error.
    pub fn from_upper(upper: &str, given: &str) -> (r: Result<StageStatus, String>)
        ensures
            match status_of_upper(upper@) {
                Some(s) => r == Ok::<StageStatus, String>(s),
                None => r matches Err(m) && m@ == "Unknown stage status: "@ + given@,
            },
    {
        if str_eq(upper, "SCHEDULED") {
            Ok(StageStatus::Scheduled)
        } else if str_eq(upper, "PASSED") {
            Ok(StageStatus::Passed)
        } else if str_eq(upper, "REJECTED") {
            Ok(StageStatus::Rejected)
        } else {
            Err(concat("Unknown stage status: ", given))
        }
    }

    /// Reads a status from its label in any letter case.
    pub fn parse(s: &str) -> (r: Result<StageStatus, String>)
        ensures
            match status_of_upper(upper_of(s@)) {
                Some(st) => r == Ok::<StageStatus, String>(st),
                None => r matches Err(m) && m@ == "Unknown stage status: "@ + s@,
            },
    {
        let u = uppercase(s);
        StageStatus::from_upper(u.as_str(), s)
    }
}

impl std::str::FromStr for StageStatus {
    type Err = String;

    fn from_str(s: &str) -> Result<Self, Self::Err> {
        StageStatus::parse(s)
    }
}

/// A new interview stage.
#[derive(Debug)]
pub struct NewInterviewStage {
    /// The job application ID.
    pub job_id: i32,
    /// The sequential stage number for this job.
    pub stage_number: i32,
    /// An optional name for the stage (e.g. "Phone Screen").
    pub name: Option<String>,
    /// The stage status ("SCHEDULED", "PASSED" or "REJECTED").
    pub status: String,
    /// The date of this stage (YYYY/MM/DD).
    pub scheduled_date: String,
    /// Optional notes about this stage.
    pub notes: Option<String>,
    /// The timestamp at which this stage was created.
    pub created: String,
}

/// An interview stage row of the store.
#[derive(Clone, Debug)]
pub struct QueriedInterviewStage {
    /// The row identifier.
    pub id: i32,
    /// The job application ID.
    pub job_id: i32,
    /// The sequential stage number for this job.
    pub stage_number: i32,
    /// An optional name for the stage.
    pub name: Option<String>,
    /// The stage status.
    pub status: String,
    /// The date of this stage (YYYY/MM/DD).
    pub scheduled_date: String,
    /// Optional notes about this stage.
    pub notes: Option<String>,
    /// The timestamp at which this stage was created.
    pub created: String,
}

/// The one-line description of a stage: `Stage N[: name] [STATUS] date`, the name
/// left out when absent or empty.
pub open spec fn stage_line(s: QueriedInterviewStage) -> Seq<char> {
    let name_part = match s.name {
        Some(n) => if n@.len() > 0 { ": "@ + n@ } else { Seq::<char>::empty() },
        None => Seq::<char>::empty(),
    };
    "Stage "@ + signed_decimal(s.stage_number as int) + name_part + " ["@ + s.status@ + "] "@
        + s.scheduled_date@
}

impl QueriedInterviewStage {
    /// A copy of this row.
    pub fn duplicate(&self) -> (r: QueriedInterviewStage)
        ensures
            r == *self,
    {
        QueriedInterviewStage {
            id: self.id,
            job_id: self.job_id,
            stage_number: self.stage_number,
            name: clone_opt(&self.name),
            status: self.status.clone(),
            scheduled_date: self.scheduled_date.clone(),
            notes: clone_opt(&self.notes),
            created: self.created.clone(),
        }
    }

    /// The one-line description of this stage.
    pub fn to_string(&self) -> (r: String)
        ensures
            r@ == stage_line(*self),
    {
        let mut out = owned("Stage ");
        let num = decimal_string(self.stage_number as i64);
        out.append(num.as_str());
        match &self.name {
            Some(n) => {
                if n.unicode_len() > 0 {
                    out.append(": ");
                    out.append(n.as_str());
                }
            },
            None => {},
        }
        out.append(" [");
        out.append(self.status.as_str());
        out.append("] ");
        out.append(self.scheduled_date.as_str());
        assert(out@ =~= stage_line(*self));
        out
    }
}

/// Changes to an interview stage; absent fields stay as they are.
#[derive(Debug)]
pub struct InterviewStageUpdate {
    /// A new name for the stage.
    pub name: Option<String>,
    /// A new status for the stage.
    pub status: Option<String>,
    /// A new date for the stage.
    pub scheduled_date: Option<String>,
    /// New notes for the stage.
    pub notes: Option<String>,
}

impl Default for InterviewStageUpdate {
    fn default() -> (r: InterviewStageUpdate)
        ensures
            r.name is None,
            r.status is None,
            r.scheduled_date is None,
            r.notes is None,
    {
        InterviewStageUpdate { name: None, status: None, scheduled_date: None, notes: None }
    }
}

} // verus!
