//! Job applications.

use vstd::prelude::*;
use vstd::string::*;

use crate::style::{
    blue_bold, bold, fg, green_bold, light_grey, magenta_bold, red_bold, white_bold, yellow_bold,
};
use crate::text::{clone_opt, decimal_string, or_default, owned, signed_decimal, str_eq};

verus! {

/// A job application row of the store.
#[derive(Clone, Debug)]
pub struct QueriedJob {
    /// The row identifier.
    pub id: i32,
    /// The timestamp at which this job application was created.
    pub created: String,
    /// The name of the company.
    pub company_name: String,
    /// The job title ID.
    pub title_id: i32,
    /// The application status ID.
    pub status_id: i32,
    /// The link to the job application.
    pub link: Option<String>,
    /// Any notes about this job application.
    pub notes: Option<String>,
    /// The sprint ID.
    pub sprint_id: i32,
}

impl QueriedJob {
    /// A copy of this row.
    pub fn duplicate(&self) -> (r: QueriedJob)
        ensures
            r == *self,
    {
        QueriedJob {
            id: self.id,
            created: self.created.clone(),
            company_name: self.company_name.clone(),
            title_id: self.title_id,
            status_id: self.status_id,
            link: clone_opt(&self.link),
            notes: clone_opt(&self.notes),
            sprint_id: self.sprint_id,
        }
    }
}

/// A new job application row.
#[derive(Debug)]
pub struct NewJob<'a> {
    /// The name of the company.
    pub company_name: &'a str,
    /// The timestamp at which this job application was created.
    pub created: String,
    /// The job title ID.
    pub title_id: i32,
    /// The application status ID.
    pub status_id: i32,
    /// The link to the job application.
    pub link: Option<&'a str>,
    /// Any notes about this job application.
    pub notes: Option<&'a str>,
    /// The sprint ID.
    pub sprint_id: i32,
}

/// Changes to a job application; absent fields stay as they are.
#[derive(Debug)]
pub struct JobUpdate<'a> {
    /// A new company name.
    pub company_name: Option<&'a str>,
    /// A new job title ID.
    pub title_id: Option<i32>,
    /// A new application status ID.
    pub status_id: Option<i32>,
    /// A new link.
    pub link: Option<&'a str>,
    /// New notes.
    pub notes: Option<&'a str>,
    /// A new sprint ID.
    pub sprint_id: Option<i32>,
}

impl<'a> Default for JobUpdate<'a> {
    fn default() -> (r: JobUpdate<'a>)
        ensures
            r.company_name is None,
            r.title_id is None,
            r.status_id is None,
            r.link is None,
            r.notes is None,
            r.sprint_id is None,
    {
        JobUpdate {
            company_name: None,
            title_id: None,
            status_id: None,
            link: None,
            notes: None,
            sprint_id: None,
        }
    }
}

/// A job application joined with its title and status names and its number of
/// interview stages, as listed to the user.
#[derive(Clone, Debug)]
pub struct TabledJob {
    /// The row identifier.
    pub id: i32,
    /// The timestamp at which this job application was created.
    pub created: String,
    /// The name of the company.
    pub company_name: String,
    /// The job title.
    pub title: Option<String>,
    /// The application status.
    pub status: Option<String>,
    /// The number of interview stages, absent when there are none.
    pub stages: Option<i32>,
    /// The link to the job application.
    pub link: Option<String>,
    /// Any notes about this job application.
    pub notes: Option<String>,
}

/// The characters of an optional string, or `default`.
pub open spec fn or_text(o: Option<String>, default: Seq<char>) -> Seq<char> {
    match o {
        Some(s) => s@,
        None => default,
    }
}

/// A field coloured by an application status: each of the seven statuses has its
/// colour; an unknown or absent status leaves the field as it is.
pub open spec fn colorized_field(status: Option<String>, field: Seq<char>) -> Seq<char> {
    match status {
        Some(s) => if s@ == "GHOSTED"@ {
            bold(fg("37"@, field))
        } else if s@ == "HIRED"@ {
            bold(fg("32"@, field))
        } else if s@ == "IN PROGRESS"@ {
            bold(fg("33"@, field))
        } else if s@ == "NOT HIRING ANYMORE"@ {
            fg("38;2;201;201;201"@, field)
        } else if s@ == "OFFER RECEIVED"@ {
            bold(fg("35"@, field))
        } else if s@ == "PENDING"@ {
            bold(fg("34"@, field))
        } else if s@ == "REJECTED"@ {
            bold(fg("31"@, field))
        } else {
            field
        },
        None => field,
    }
}

/// The spreadsheet row of a job: timestamp, company, title or "N/A", status or
/// "N/A", link or "", notes or "".
pub open spec fn export_row(j: TabledJob) -> Seq<Seq<char>> {
    seq![
        j.created@,
        j.company_name@,
        or_text(j.title, "N/A"@),
        or_text(j.status, "N/A"@),
        or_text(j.link, ""@),
        or_text(j.notes, ""@),
    ]
}

/// The views of a sequence of strings.
pub open spec fn views(v: Seq<String>) -> Seq<Seq<char>> {
    v.map_values(|s: String| s@)
}

/// The one-line summary of a job shown when picking one.
pub open spec fn job_line(j: TabledJob) -> Seq<char> {
    "ID: "@ + bold(fg("37"@, signed_decimal(j.id as int))) + " | Company: "@
        + colorized_field(j.status, j.company_name@) + " | Title: "@
        + colorized_field(j.status, or_text(j.title, ""@)) + " | Status: "@
        + colorized_field(j.status, or_text(j.status, ""@))
}

impl TabledJob {
    /// A copy of this row.
    pub fn duplicate(&self) -> (r: TabledJob)
        ensures
            r == *self,
    {
        TabledJob {
            id: self.id,
            created: self.created.clone(),
            company_name: self.company_name.clone(),
            title: clone_opt(&self.title),
            status: clone_opt(&self.status),
            stages: self.stages,
            link: clone_opt(&self.link),
            notes: clone_opt(&self.notes),
        }
    }

    /// Colorize a string based on the `status` field of the job application.
    pub fn colorize_field(&self, field_name: &str) -> (r: String)
        ensures
            r@ == colorized_field(self.status, field_name@),
    {
        match &self.status {
            Some(status) => {
                let s = status.as_str();
                if str_eq(s, "GHOSTED") {
                    white_bold(field_name)
                } else if str_eq(s, "HIRED") {
                    green_bold(field_name)
                } else if str_eq(s, "IN PROGRESS") {
                    yellow_bold(field_name)
                } else if str_eq(s, "NOT HIRING ANYMORE") {
                    light_grey(field_name)
                } else if str_eq(s, "OFFER RECEIVED") {
                    magenta_bold(field_name)
                } else if str_eq(s, "PENDING") {
                    blue_bold(field_name)
                } else if str_eq(s, "REJECTED") {
                    red_bold(field_name)
                } else {
                    owned(field_name)
                }
            },
            None => owned(field_name),
        }
    }

    /// Convert the job to the row of strings written to a spreadsheet on export.
    pub fn convert_to_row(&self) -> (r: Vec<String>)
        ensures
            views(r@) == export_row(*self),
    {
        let r = vec![
            self.created.clone(),
            self.company_name.clone(),
            or_default(&self.title, "N/A"),
            or_default(&self.status, "N/A"),
            or_default(&self.link, ""),
            or_default(&self.notes, ""),
        ];
        assert(views(r@) =~= export_row(*self));
        r
    }

    /// The one-line summary of this job shown when picking one.
    pub fn to_string(&self) -> (r: String)
        ensures
            r@ == job_line(*self),
    {
        let id = decimal_string(self.id as i64);
        let mut out = owned("ID: ");
        let id_part = white_bold(id.as_str());
        out.append(id_part.as_str());
        out.append(" | Company: ");
        let company = self.colorize_field(self.company_name.as_str());
        out.append(company.as_str());
        out.append(" | Title: ");
        let title_text = or_default(&self.title, "");
        let title = self.colorize_field(title_text.as_str());
        out.append(title.as_str());
        out.append(" | Status: ");
        let status_text = or_default(&self.status, "");
        let status = self.colorize_field(status_text.as_str());
        out.append(status.as_str());
        assert(out@ =~= job_line(*self));
        out
    }
}

} // verus!
