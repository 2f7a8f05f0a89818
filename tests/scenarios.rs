use fetters::cli::{ExportArgs, QueryArgs};
use fetters::errors::FettersError;
use fetters::export::{export_file_name, get_status_color, plan_export, sheet_cells, sheet_name};
use fetters::insights::percent;
use fetters::models::job::{NewJob, TabledJob};
use fetters::models::sprint::{NewSprint, QueriedSprint};
use fetters::models::stage::NewInterviewStage;
use fetters::models::title::NewTitle;
use fetters::repositories::job::JobRepository;
use fetters::repositories::sprint::SprintRepository;
use fetters::repositories::stage::StageRepository;
use fetters::repositories::statuses::StatusRepository;
use fetters::repositories::title::TitleRepository;
use fetters::store::Database;

fn seeded() -> Database {
    let mut db = Database::new();
    StatusRepository { connection: &mut db }.seed_statuses().unwrap();
    db
}

fn status_id(db: &mut Database, name: &str) -> i32 {
    StatusRepository { connection: db }
        .get_all_statuses()
        .unwrap()
        .into_iter()
        .find(|s| s.name == name)
        .unwrap()
        .id
}

fn sprint(db: &mut Database, name: &str) -> QueriedSprint {
    SprintRepository { connection: db }.get_current_sprint(name).unwrap()
}

fn add_job(db: &mut Database, company: &str, title: &str, status: &str, sprint_id: i32) -> i32 {
    let title_id = TitleRepository { connection: db }.add_title(NewTitle { name: title }).unwrap().id;
    let status_id = status_id(db, status);
    JobRepository { connection: db }
        .add_job(NewJob {
            company_name: company,
            created: "2025-01-15 10:00:00".to_string(),
            title_id,
            status_id,
            link: Some("https://jobs.example/Role"),
            notes: None,
            sprint_id,
        })
        .unwrap()
        .id
}

fn add_stages(db: &mut Database, job_id: i32, n: i32) {
    let mut repo = StageRepository { connection: db };
    for k in 1..=n {
        repo.add_stage(NewInterviewStage {
            job_id,
            stage_number: k,
            name: Some(format!("Round {k}")),
            status: "SCHEDULED".to_string(),
            scheduled_date: "2025/02/01".to_string(),
            notes: None,
            created: "2025-01-20 09:00:00".to_string(),
        })
        .unwrap();
    }
}

#[test]
fn add_then_list_round_trip() {
    let mut db = seeded();
    let cur = sprint(&mut db, "2025-01-15");
    add_job(&mut db, "Google", "SWE", "PENDING", cur.id);
    let rows = JobRepository { connection: &mut db }
        .list_jobs(&QueryArgs::default(), &cur)
        .unwrap();
    assert_eq!(rows.len(), 1);
    assert_eq!(rows[0].company_name, "Google");
    assert_eq!(rows[0].title.as_deref(), Some("SWE"));
    assert_eq!(rows[0].status.as_deref(), Some("PENDING"));
    assert_eq!(rows[0].stages, None);
    assert_eq!(sprint(&mut db, "2025-01-15").num_jobs, 1);
}

#[test]
fn delete_lowers_counter_and_empties_list() {
    let mut db = seeded();
    let cur = sprint(&mut db, "2025-01-15");
    let id = add_job(&mut db, "Google", "SWE", "PENDING", cur.id);
    JobRepository { connection: &mut db }.delete_job(id).unwrap();
    assert_eq!(sprint(&mut db, "2025-01-15").num_jobs, 0);
    let rows = JobRepository { connection: &mut db }
        .list_jobs(&QueryArgs::default(), &cur)
        .unwrap();
    assert!(rows.is_empty());
}

#[test]
fn counters_follow_adds_and_deletes() {
    let mut db = seeded();
    let a = sprint(&mut db, "a");
    let b = sprint(&mut db, "b");
    let j1 = add_job(&mut db, "A1", "SWE", "PENDING", a.id);
    add_job(&mut db, "A2", "SWE", "PENDING", a.id);
    add_job(&mut db, "B1", "SWE", "PENDING", b.id);
    JobRepository { connection: &mut db }.delete_job(j1).unwrap();
    let all = SprintRepository { connection: &mut db }.get_all_sprints().unwrap();
    assert_eq!(all[0].num_jobs, 1);
    assert_eq!(all[1].num_jobs, 1);
}

#[test]
fn middle_stage_deletion_renumbers() {
    let mut db = seeded();
    let cur = sprint(&mut db, "s");
    let job = add_job(&mut db, "Google", "SWE", "PENDING", cur.id);
    add_stages(&mut db, job, 3);
    let mut repo = StageRepository { connection: &mut db };
    let stages = repo.get_stages_for_job(job).unwrap();
    let deleted = repo.delete_stage(stages[1].id).unwrap();
    repo.renumber_stages(deleted.job_id).unwrap();
    let stages = repo.get_stages_for_job(job).unwrap();
    let numbers: Vec<i32> = stages.iter().map(|s| s.stage_number).collect();
    assert_eq!(numbers, vec![1, 2]);
    assert_eq!(stages[0].name.as_deref(), Some("Round 1"));
    assert_eq!(stages[1].name.as_deref(), Some("Round 3"));
    assert_eq!(repo.get_next_stage_number(job).unwrap(), 3);
}

#[test]
fn stages_filter_selects_by_count() {
    let mut db = seeded();
    let cur = sprint(&mut db, "s");
    let j1 = add_job(&mut db, "J1", "SWE", "PENDING", cur.id);
    let j2 = add_job(&mut db, "J2", "SWE", "PENDING", cur.id);
    let j3 = add_job(&mut db, "J3", "SWE", "PENDING", cur.id);
    add_stages(&mut db, j2, 2);
    add_stages(&mut db, j3, 2);
    let mut repo = JobRepository { connection: &mut db };
    let ids = |rows: Vec<TabledJob>| rows.iter().map(|r| r.id).collect::<Vec<i32>>();
    let all = repo.list_jobs(&QueryArgs::default(), &cur).unwrap();
    assert_eq!(all.len(), 3);
    let any = repo.list_jobs(&QueryArgs { stages: Some(0), ..Default::default() }, &cur).unwrap();
    assert_eq!(ids(any), vec![j2, j3]);
    let two = repo.list_jobs(&QueryArgs { stages: Some(2), ..Default::default() }, &cur).unwrap();
    assert_eq!(ids(two), vec![j2, j3]);
    let one = repo.list_jobs(&QueryArgs { stages: Some(1), ..Default::default() }, &cur).unwrap();
    assert!(one.is_empty());
    assert_ne!(j1, j2);
}

#[test]
fn insights_percentages() {
    let mut db = seeded();
    let cur = sprint(&mut db, "current");
    let other = sprint(&mut db, "other");
    add_job(&mut db, "A", "SWE", "PENDING", cur.id);
    add_job(&mut db, "B", "SWE", "PENDING", cur.id);
    add_job(&mut db, "C", "SWE", "REJECTED", cur.id);
    add_job(&mut db, "D", "SWE", "REJECTED", cur.id);
    add_job(&mut db, "E", "SWE", "PENDING", other.id);
    let mut repo = JobRepository { connection: &mut db };
    let rows = repo.count_jobs_per_status(&cur).unwrap();
    assert_eq!(rows.len(), 2);
    for row in &rows {
        assert_eq!(row.count, 2);
        assert_eq!(row.sprint_percentage, "50.00%");
        assert_eq!(row.overall_percentage, "40.00%");
    }
    let per_sprint = repo.count_jobs_per_sprint(&cur).unwrap();
    assert_eq!(per_sprint.len(), 2);
    assert_eq!(per_sprint[0].label, "current");
    assert_eq!(per_sprint[0].sprint_percentage, "100.00%");
    assert_eq!(per_sprint[0].overall_percentage, "80.00%");
    assert_eq!(per_sprint[1].label, "other");
    assert_eq!(per_sprint[1].sprint_percentage, "25.00%");
    assert_eq!(per_sprint[1].overall_percentage, "20.00%");
}

#[test]
fn insights_empty_when_current_sprint_has_no_jobs() {
    let mut db = seeded();
    let cur = sprint(&mut db, "current");
    let other = sprint(&mut db, "other");
    add_job(&mut db, "E", "SWE", "PENDING", other.id);
    let mut repo = JobRepository { connection: &mut db };
    assert!(repo.count_jobs_per_status(&cur).unwrap().is_empty());
    assert!(repo.count_jobs_per_sprint(&cur).unwrap().is_empty());
}

#[test]
fn percent_rounds_to_two_decimals() {
    assert_eq!(percent(2, 5), "40.00%");
    assert_eq!(percent(1, 3), "33.33%");
    assert_eq!(percent(2, 3), "66.67%");
    assert_eq!(percent(1, 8), "12.50%");
    assert_eq!(percent(1, 32), "3.12%");
    assert_eq!(percent(3, 32), "9.38%");
    assert_eq!(percent(4, 2), "200.00%");
    assert_eq!(percent(0, 7), "0.00%");
}

#[test]
fn text_filters_ignore_ascii_case_and_stay_in_scope() {
    let mut db = seeded();
    let cur = sprint(&mut db, "s1");
    let other = sprint(&mut db, "s2");
    add_job(&mut db, "Google", "Staff SWE", "PENDING", cur.id);
    add_job(&mut db, "Meta", "PM", "REJECTED", cur.id);
    add_job(&mut db, "Google Cloud", "SWE", "PENDING", other.id);
    let mut repo = JobRepository { connection: &mut db };
    let all = repo.list_jobs(&QueryArgs::default(), &cur).unwrap();
    let rows = repo
        .list_jobs(&QueryArgs { company: Some("goo".to_string()), ..Default::default() }, &cur)
        .unwrap();
    assert_eq!(rows.len(), 1);
    assert!(all.iter().any(|r| r.id == rows[0].id));
    let rows = repo
        .list_jobs(&QueryArgs { title: Some("swe".to_string()), ..Default::default() }, &cur)
        .unwrap();
    assert_eq!(rows.len(), 1);
    assert_eq!(rows[0].title.as_deref(), Some("Staff SWE"));
    let rows = repo
        .list_jobs(&QueryArgs { link: Some("ROLE".to_string()), ..Default::default() }, &cur)
        .unwrap();
    assert_eq!(rows.len(), 2);
    let rows = repo
        .list_jobs(&QueryArgs { notes: Some("x".to_string()), ..Default::default() }, &cur)
        .unwrap();
    assert!(rows.is_empty());
    let rows = repo
        .list_jobs(&QueryArgs { company: Some("%".to_string()), ..Default::default() }, &cur)
        .unwrap();
    assert!(rows.is_empty());
}

#[test]
fn status_colors() {
    assert_eq!(get_status_color("GHOSTED"), "FF999999");
    assert_eq!(get_status_color("HIRED"), "FF00A36C");
    assert_eq!(get_status_color("IN PROGRESS"), "FFFFFF00");
    assert_eq!(get_status_color("NOT HIRING ANYMORE"), "FFC9C9C9");
    assert_eq!(get_status_color("OFFER RECEIVED"), "FFFF00FF");
    assert_eq!(get_status_color("PENDING"), "FF0096FF");
    assert_eq!(get_status_color("REJECTED"), "FFEE4B2B");
    assert_eq!(get_status_color("other"), "FF999999");
}

#[test]
fn sheet_and_file_names() {
    assert_eq!(sheet_name(&Some("s1".to_string())), "Sprint: s1");
    assert_eq!(sheet_name(&None), "Sprint: unknown");
    assert_eq!(export_file_name(&Some("out".to_string()), "2025-01-15", &None), "out.xlsx");
    assert_eq!(export_file_name(&Some("out.xlsx".to_string()), "2025-01-15", &None), "out.xlsx");
    assert_eq!(
        export_file_name(&None, "2025-01-15", &Some("s1".to_string())),
        "2025-01-15-fetters-export-sprint-s1.xlsx"
    );
}

#[test]
fn sheet_cells_layout() {
    let jobs = vec![TabledJob {
        id: 1,
        created: "2025-01-15".to_string(),
        company_name: "Acme".to_string(),
        title: None,
        status: Some("HIRED".to_string()),
        stages: None,
        link: None,
        notes: Some("n".to_string()),
    }];
    let rows = sheet_cells(&jobs);
    assert_eq!(rows.len(), 2);
    assert_eq!(rows[0][0].value, "Timestamp");
    assert_eq!(rows[0][5].value, "Notes");
    assert_eq!(rows[0][3].color, "FF999999");
    assert_eq!(rows[1][1].value, "Acme");
    assert_eq!(rows[1][2].value, "N/A");
    assert_eq!(rows[1][4].value, "");
    assert_eq!(rows[1][5].value, "n");
    assert_eq!(rows[1][0].row, 2);
    assert_eq!(rows[1][5].column, 6);
    assert_eq!(rows[1][0].color, "FF00A36C");
}

#[test]
fn export_plan_lists_current_sprint_in_order() {
    let mut db = seeded();
    let cur = sprint(&mut db, "s1");
    add_job(&mut db, "First", "SWE", "PENDING", cur.id);
    add_job(&mut db, "Second", "SWE", "REJECTED", cur.id);
    let args = ExportArgs { directory: None, filename: None, sprint: None };
    let plan = plan_export(&db, &args, &cur, "2025-01-15").unwrap();
    assert_eq!(plan.sheet_name, "Sprint: s1");
    assert_eq!(plan.file_name, "2025-01-15-fetters-export-sprint-s1.xlsx");
    assert_eq!(plan.cells.len(), 3);
    assert_eq!(plan.cells[1][1].value, "First");
    assert_eq!(plan.cells[2][1].value, "Second");
    assert_eq!(plan.cells[2][3].color, "FFEE4B2B");
}

#[test]
fn export_of_empty_sprint_fails() {
    let mut db = seeded();
    let cur = sprint(&mut db, "s1");
    let args = ExportArgs { directory: None, filename: Some("x".to_string()), sprint: None };
    match plan_export(&db, &args, &cur, "2025-01-15") {
        Err(FettersError::NoJobsAvailable(name)) => assert_eq!(name, "s1"),
        _ => panic!("Expected NoJobsAvailable"),
    }
}

#[test]
fn creating_a_sprint_keeps_date_given() {
    let mut db = Database::new();
    let r = SprintRepository { connection: &mut db }
        .add_job_sprint(NewSprint { name: "n", start_date: "2025-03-01", end_date: Some("2025-03-31"), num_jobs: &0 })
        .unwrap();
    assert_eq!(r.end_date.as_deref(), Some("2025-03-31"));
    assert_eq!(r.id, 1);
}
