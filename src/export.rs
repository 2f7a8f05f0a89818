//! Export of a sprint to a spreadsheet: the cells of the worksheet, its name and
//! the file name. Writing the file is left to the caller.

use vstd::prelude::*;
use vstd::string::*;

use crate::cli::{ExportArgs, QueryArgs};
use crate::errors::FettersError;
use crate::models::job::{export_row, views, TabledJob};
use crate::models::sprint::QueriedSprint;
use crate::query::{list_jobs_in, list_result};
use crate::store::Database;
use crate::text::{chars_of, concat, or_default, owned, str_eq};

verus! {

/// The background colour of a row whose job has this status.
pub open spec fn status_color(s: Seq<char>) -> Seq<char> {
    if s == "GHOSTED"@ {
        "FF999999"@
    } else if s == "HIRED"@ {
        "FF00A36C"@
    } else if s == "IN PROGRESS"@ {
        "FFFFFF00"@
    } else if s == "NOT HIRING ANYMORE"@ {
        "FFC9C9C9"@
    } else if s == "OFFER RECEIVED"@ {
        "FFFF00FF"@
    } else if s == "PENDING"@ {
        "FF0096FF"@
    } else if s == "REJECTED"@ {
        "FFEE4B2B"@
    } else {
        "FF999999"@
    }
}

/// The background colour of a job's row: its status colour, grey without a status.
pub open spec fn row_color(j: TabledJob) -> Seq<char> {
    match j.status {
        Some(s) => status_color(s@),
        None => "FF999999"@,
    }
}

/// The header row of the worksheet.
pub open spec fn header_labels() -> Seq<Seq<char>> {
    seq!["Timestamp"@, "Company Name"@, "Title"@, "Status"@, "Link"@, "Notes"@]
}

/// Returns a colour based on the job application status.
pub fn get_status_color(status: &str) -> (r: String)
    ensures
        r@ == status_color(status@),
{
    if str_eq(status, "GHOSTED") {
        owned("FF999999")
    } else if str_eq(status, "HIRED") {
        owned("FF00A36C")
    } else if str_eq(status, "IN PROGRESS") {
        owned("FFFFFF00")
    } else if str_eq(status, "NOT HIRING ANYMORE") {
        owned("FFC9C9C9")
    } else if str_eq(status, "OFFER RECEIVED") {
        owned("FFFF00FF")
    } else if str_eq(status, "PENDING") {
        owned("FF0096FF")
    } else if str_eq(status, "REJECTED") {
        owned("FFEE4B2B")
    } else {
        owned("FF999999")
    }
}

/// One cell of the worksheet: its column and row (from 1), value and background.
#[derive(Clone, Debug)]
pub struct SheetCell {
    /// The column, from 1.
    pub column: u32,
    /// The row, from 1.
    pub row: u32,
    /// The text of the cell.
    pub value: String,
    /// The background colour, as ARGB hex.
    pub color: String,
}

/// A row of six cells in row `row_number`, columns 1 to 6, with these values on
/// this background.
pub open spec fn row_cells_ok(cells: Seq<SheetCell>, row_number: int, values: Seq<Seq<char>>, color: Seq<char>) -> bool {
    &&& cells.len() == 6
    &&& forall|c: int|
        0 <= c < 6 ==> {
            &&& (#[trigger] cells[c]).column == c + 1
            &&& cells[c].row == row_number
            &&& cells[c].value@ == values[c]
            &&& cells[c].color@ == color
        }
}

/// The rows of cells of a worksheet for these jobs: the grey header in row 1, then
/// job `i` in row `i + 2`, its six fields on its status colour.
pub open spec fn sheet_layout(jobs: Seq<TabledJob>, rows: Seq<Vec<SheetCell>>) -> bool {
    &&& rows.len() == jobs.len() + 1
    &&& row_cells_ok(rows[0]@, 1, header_labels(), "FF999999"@)
    &&& forall|i: int|
        1 <= i < rows.len() ==> row_cells_ok(
            (#[trigger] rows[i])@,
            i + 1,
            export_row(jobs[i - 1]),
            row_color(jobs[i - 1]),
        )
}

/// Six cells of one row.
fn row_cells(row_number: u32, values: &Vec<&str>, color: &str) -> (r: Vec<SheetCell>)
    requires
        values@.len() == 6,
    ensures
        row_cells_ok(r@, row_number as int, values@.map_values(|v: &str| v@), color@),
{
    let mut out: Vec<SheetCell> = Vec::new();
    let mut c: usize = 0;
    while c < 6
        invariant
            c <= 6,
            values@.len() == 6,
            out@.len() == c,
            forall|k: int|
                0 <= k < c ==> {
                    &&& (#[trigger] out@[k]).column == k + 1
                    &&& out@[k].row == row_number
                    &&& out@[k].value@ == values@[k]@
                    &&& out@[k].color@ == color@
                },
        decreases 6 - c,
    {
        out.push(SheetCell { column: (c + 1) as u32, row: row_number, value: owned(values[c]), color: owned(color) });
        c += 1;
    }
    out
}

/// The rows of cells of a worksheet listing these jobs.
pub fn sheet_cells(jobs: &Vec<TabledJob>) -> (r: Vec<Vec<SheetCell>>)
    requires
        jobs@.len() + 2 <= u32::MAX,
    ensures
        sheet_layout(jobs@, r@),
{
    let headers = vec!["Timestamp", "Company Name", "Title", "Status", "Link", "Notes"];
    let mut out: Vec<Vec<SheetCell>> = Vec::new();
    let header = row_cells(1, &headers, "FF999999");
    assert(headers@.map_values(|v: &str| v@) =~= header_labels());
    out.push(header);
    let mut i: usize = 0;
    while i < jobs.len()
        invariant
            i <= jobs.len(),
            jobs@.len() + 2 <= u32::MAX,
            out@.len() == i + 1,
            row_cells_ok(out@[0]@, 1, header_labels(), "FF999999"@),
            forall|m: int|
                1 <= m < out@.len() ==> row_cells_ok(
                    (#[trigger] out@[m])@,
                    m + 1,
                    export_row(jobs@[m - 1]),
                    row_color(jobs@[m - 1]),
                ),
        decreases jobs.len() - i,
    {
        let job = &jobs[i];
        let values = job.convert_to_row();
        let color = match &job.status {
            Some(s) => get_status_color(s.as_str()),
            None => owned("FF999999"),
        };
        assert(views(values@).len() == values@.len());
        let refs = vec![
            values[0].as_str(),
            values[1].as_str(),
            values[2].as_str(),
            values[3].as_str(),
            values[4].as_str(),
            values[5].as_str(),
        ];
        proof {
            assert(views(values@).len() == values@.len());
            assert(refs@.map_values(|v: &str| v@) =~= views(values@));
        }
        let row = row_cells((i + 2) as u32, &refs, color.as_str());
        out.push(row);
        i += 1;
    }
    out
}

/// The name of the worksheet: "Sprint: " and the sprint name, or "unknown".
pub open spec fn sheet_name_text(sprint: Option<String>) -> Seq<char> {
    "Sprint: "@ + match sprint {
        Some(s) => s@,
        None => "unknown"@,
    }
}

/// The worksheet name for a sprint.
pub fn sheet_name(sprint: &Option<String>) -> (r: String)
    ensures
        r@ == sheet_name_text(*sprint),
{
    let name = or_default(sprint, "unknown");
    concat("Sprint: ", name.as_str())
}

pub open spec fn ends_with(s: Seq<char>, suffix: Seq<char>) -> bool {
    s.len() >= suffix.len() && s.subrange(s.len() - suffix.len(), s.len() as int) == suffix
}

/// The export file name: the given name with ".xlsx" added when missing, or
/// `<today>-fetters-export-sprint-<sprint>.xlsx`.
pub open spec fn export_file_name_text(filename: Option<String>, today: Seq<char>, sprint: Option<String>) -> Seq<char> {
    match filename {
        Some(f) => if ends_with(f@, ".xlsx"@) {
            f@
        } else {
            f@ + ".xlsx"@
        },
        None => today + "-fetters-export-sprint-"@ + match sprint {
            Some(s) => s@,
            None => "unknown"@,
        } + ".xlsx"@,
    }
}

fn ends_with_exec(s: &str, suffix: &str) -> (r: bool)
    ensures
        r == ends_with(s@, suffix@),
{
    let a = chars_of(s);
    let b = chars_of(suffix);
    if a.len() < b.len() {
        return false;
    }
    let off = a.len() - b.len();
    let mut i: usize = 0;
    while i < b.len()
        invariant
            a@ == s@,
            b@ == suffix@,
            off == a.len() - b.len(),
            i <= b.len(),
            forall|k: int| 0 <= k < i ==> a@[off + k] == b@[k],
        decreases b.len() - i,
    {
        if a[off + i] != b[i] {
            assert(s@.subrange(s@.len() - suffix@.len(), s@.len() as int)[i as int] != suffix@[i as int]);
            return false;
        }
        i += 1;
    }
    assert(s@.subrange(s@.len() - suffix@.len(), s@.len() as int) =~= suffix@);
    true
}

/// The name of the export file.
pub fn export_file_name(filename: &Option<String>, today: &str, sprint: &Option<String>) -> (r: String)
    ensures
        r@ == export_file_name_text(*filename, today@, *sprint),
{
    match filename {
        Some(f) => {
            if ends_with_exec(f.as_str(), ".xlsx") {
                f.clone()
            } else {
                concat(f.as_str(), ".xlsx")
            }
        },
        None => {
            let mut out = concat(today, "-fetters-export-sprint-");
            let s = or_default(sprint, "unknown");
            out.append(s.as_str());
            out.append(".xlsx");
            out
        },
    }
}

/// The query of an export: every job of the sprints whose name contains `sprint`.
pub open spec fn export_query(sprint: String) -> QueryArgs {
    QueryArgs {
        company: None,
        link: None,
        notes: None,
        sprint: Some(sprint),
        status: None,
        title: None,
        stages: None,
    }
}

/// What an export writes: the sprint exported, the worksheet name, the file name and
/// the cells.
#[derive(Debug)]
pub struct ExportPlan {
    /// The sprint exported.
    pub sprint: String,
    /// The worksheet name.
    pub sheet_name: String,
    /// The file name, without directory.
    pub file_name: String,
    /// The cells of the worksheet, row by row.
    pub cells: Vec<Vec<SheetCell>>,
}

/// Plans the export of a sprint (the one named in `export_args`, else the current
/// one): its jobs are listed as by a sprint filter on its name. Fails with
/// `NoJobsAvailable` when there are none.
pub fn plan_export(db: &Database, export_args: &ExportArgs, current_sprint: &QueriedSprint, today: &str) -> (r: Result<ExportPlan, FettersError>)
    requires
        db.well_formed(),
    ensures
        ({
            let target = match export_args.sprint {
                Some(s) => s,
                None => current_sprint.name,
            };
            let jobs = list_result(db@, export_query(target), current_sprint.id);
            &&& jobs.len() == 0 ==> (r matches Err(FettersError::NoJobsAvailable(n)) && n@ == target@)
            &&& jobs.len() > 0 ==> (r matches Ok(plan) && {
                &&& plan.sprint@ == target@
                &&& plan.sheet_name@ == sheet_name_text(Some(target))
                &&& plan.file_name@ == export_file_name_text(export_args.filename, today@, Some(target))
                &&& sheet_layout(jobs, plan.cells@)
            })
        }),
{
    let target = match &export_args.sprint {
        Some(s) => s.clone(),
        None => current_sprint.name.clone(),
    };
    let query = QueryArgs {
        company: None,
        link: None,
        notes: None,
        sprint: Some(target.clone()),
        status: None,
        title: None,
        stages: None,
    };
    let jobs = list_jobs_in(db, &query, current_sprint.id);
    if jobs.len() == 0 {
        return Err(FettersError::NoJobsAvailable(target));
    }
    proof {
        crate::store::lemma_table_len(crate::store::job_ids(db@.jobs));
        crate::query::lemma_listed_len(db@, query, current_sprint.id, db@.jobs.len() as int);
    }
    let some_target = Some(target.clone());
    let cells = sheet_cells(&jobs);
    Ok(ExportPlan {
        sheet_name: sheet_name(&some_target),
        file_name: export_file_name(&export_args.filename, today, &some_target),
        sprint: target,
        cells,
    })
}

} // verus!
