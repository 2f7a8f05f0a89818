use fetters::cli::QueryArgs;
use fetters::errors::{FettersError, QueryFailure};
use fetters::models::job::{JobUpdate, NewJob, QueriedJob};
use fetters::models::sprint::{NewSprint, QueriedSprint, SprintUpdate};
use fetters::models::stage::{InterviewStageUpdate, NewInterviewStage};
use fetters::models::title::{NewTitle, QueriedTitle};
use fetters::repositories::job::JobRepository;
use fetters::repositories::sprint::SprintRepository;
use fetters::repositories::stage::StageRepository;
use fetters::repositories::statuses::StatusRepository;
use fetters::repositories::title::TitleRepository;
use fetters::store::Database;

fn empty_db() -> Database {
    Database::new()
}

fn setup_test_db() -> Database {
    let mut connection = Database::new();
    let mut status_repo = StatusRepository {
        connection: &mut connection,
    };
    status_repo.seed_statuses().expect("Failed to seed statuses");
    connection
}

fn create_sprint(conn: &mut Database, name: &str) -> QueriedSprint {
    let mut repo = SprintRepository { connection: conn };
    repo.add_job_sprint(NewSprint {
        name,
        start_date: "2025-01-01",
        end_date: None,
        num_jobs: &0,
    })
    .unwrap()
}

fn create_title(conn: &mut Database, name: &str) -> QueriedTitle {
    let mut repo = TitleRepository { connection: conn };
    repo.add_title(NewTitle { name }).unwrap()
}

fn get_status_id(conn: &mut Database, target: &str) -> i32 {
    let mut repo = StatusRepository { connection: conn };
    let statuses = repo.get_all_statuses().unwrap();
    statuses.into_iter().find(|s| s.name == target).unwrap().id
}

fn add_plain_job(conn: &mut Database, company: &str, title_id: i32, status_id: i32, sprint_id: i32) -> QueriedJob {
    let mut repo = JobRepository { connection: conn };
    repo.add_job(NewJob {
        company_name: company,
        created: "2025-01-15 10:00:00".to_string(),
        title_id,
        status_id,
        link: None,
        notes: None,
        sprint_id,
    })
    .unwrap()
}

// ----- jobs -----

#[test]
fn test_add_job() {
    let mut conn = setup_test_db();
    let sprint = create_sprint(&mut conn, "test-sprint");
    let title = create_title(&mut conn, "SWE");
    let status_id = get_status_id(&mut conn, "PENDING");

    let mut repo = JobRepository {
        connection: &mut conn,
    };
    let job = repo
        .add_job(NewJob {
            company_name: "Google",
            created: "2025-01-15 10:00:00".to_string(),
            title_id: title.id,
            status_id,
            link: Some("https://google.com/careers"),
            notes: Some("Dream job"),
            sprint_id: sprint.id,
        })
        .unwrap();

    assert_eq!(job.company_name, "Google");
    assert_eq!(job.title_id, title.id);
    assert_eq!(job.status_id, status_id);
    assert_eq!(job.link.as_deref(), Some("https://google.com/careers"));
    assert_eq!(job.notes.as_deref(), Some("Dream job"));
    assert_eq!(job.sprint_id, sprint.id);
}

#[test]
fn test_add_job_increments_sprint_count() {
    let mut conn = setup_test_db();
    let sprint = create_sprint(&mut conn, "test-sprint");
    let title = create_title(&mut conn, "SWE");
    let status_id = get_status_id(&mut conn, "PENDING");

    let mut repo = JobRepository {
        connection: &mut conn,
    };
    repo.add_job(NewJob {
        company_name: "Google",
        created: "2025-01-15 10:00:00".to_string(),
        title_id: title.id,
        status_id,
        link: None,
        notes: None,
        sprint_id: sprint.id,
    })
    .unwrap();

    let mut sprint_repo = SprintRepository {
        connection: &mut conn,
    };
    let updated_sprint = sprint_repo.get_current_sprint("test-sprint").unwrap();
    assert_eq!(updated_sprint.num_jobs, 1);
}

#[test]
fn test_update_job() {
    let mut conn = setup_test_db();
    let sprint = create_sprint(&mut conn, "test-sprint");
    let title = create_title(&mut conn, "SWE");
    let status_id = get_status_id(&mut conn, "PENDING");

    let mut repo = JobRepository {
        connection: &mut conn,
    };
    let job = repo
        .add_job(NewJob {
            company_name: "Google",
            created: "2025-01-15 10:00:00".to_string(),
            title_id: title.id,
            status_id,
            link: None,
            notes: None,
            sprint_id: sprint.id,
        })
        .unwrap();

    let updated = repo
        .update_job(
            job.id,
            JobUpdate {
                company_name: Some("Alphabet"),
                notes: Some("Updated notes"),
                ..Default::default()
            },
        )
        .unwrap();
    assert_eq!(updated.company_name, "Alphabet");
    assert_eq!(updated.notes.as_deref(), Some("Updated notes"));
}

#[test]
fn test_delete_job() {
    let mut conn = setup_test_db();
    let sprint = create_sprint(&mut conn, "test-sprint");
    let title = create_title(&mut conn, "SWE");
    let status_id = get_status_id(&mut conn, "PENDING");

    let mut repo = JobRepository {
        connection: &mut conn,
    };
    let job = repo
        .add_job(NewJob {
            company_name: "Google",
            created: "2025-01-15 10:00:00".to_string(),
            title_id: title.id,
            status_id,
            link: None,
            notes: None,
            sprint_id: sprint.id,
        })
        .unwrap();

    let deleted = repo.delete_job(job.id).unwrap();
    assert_eq!(deleted.id, job.id);
    assert_eq!(deleted.company_name, "Google");
}

#[test]
fn test_delete_job_decrements_sprint_count() {
    let mut conn = setup_test_db();
    let sprint = create_sprint(&mut conn, "test-sprint");
    let title = create_title(&mut conn, "SWE");
    let status_id = get_status_id(&mut conn, "PENDING");

    let mut repo = JobRepository {
        connection: &mut conn,
    };
    let job = repo
        .add_job(NewJob {
            company_name: "Google",
            created: "2025-01-15 10:00:00".to_string(),
            title_id: title.id,
            status_id,
            link: None,
            notes: None,
            sprint_id: sprint.id,
        })
        .unwrap();

    repo.delete_job(job.id).unwrap();

    let mut sprint_repo = SprintRepository {
        connection: &mut conn,
    };
    let updated_sprint = sprint_repo.get_current_sprint("test-sprint").unwrap();
    assert_eq!(updated_sprint.num_jobs, 0);
}

#[test]
fn test_list_jobs_returns_jobs_in_sprint() {
    let mut conn = setup_test_db();
    let sprint = create_sprint(&mut conn, "test-sprint");
    let title = create_title(&mut conn, "SWE");
    let status_id = get_status_id(&mut conn, "PENDING");

    let mut repo = JobRepository {
        connection: &mut conn,
    };
    repo.add_job(NewJob {
        company_name: "Google",
        created: "2025-01-15 10:00:00".to_string(),
        title_id: title.id,
        status_id,
        link: None,
        notes: None,
        sprint_id: sprint.id,
    })
    .unwrap();
    repo.add_job(NewJob {
        company_name: "Meta",
        created: "2025-01-16 10:00:00".to_string(),
        title_id: title.id,
        status_id,
        link: None,
        notes: None,
        sprint_id: sprint.id,
    })
    .unwrap();

    let query_args = QueryArgs::default();
    let jobs = repo.list_jobs(&query_args, &sprint).unwrap();
    assert_eq!(jobs.len(), 2);
}

#[test]
fn test_list_jobs_filters_by_company() {
    let mut conn = setup_test_db();
    let sprint = create_sprint(&mut conn, "test-sprint");
    let title = create_title(&mut conn, "SWE");
    let status_id = get_status_id(&mut conn, "PENDING");

    let mut repo = JobRepository {
        connection: &mut conn,
    };
    repo.add_job(NewJob {
        company_name: "Google",
        created: "2025-01-15 10:00:00".to_string(),
        title_id: title.id,
        status_id,
        link: None,
        notes: None,
        sprint_id: sprint.id,
    })
    .unwrap();
    repo.add_job(NewJob {
        company_name: "Meta",
        created: "2025-01-16 10:00:00".to_string(),
        title_id: title.id,
        status_id,
        link: None,
        notes: None,
        sprint_id: sprint.id,
    })
    .unwrap();

    let query_args = QueryArgs {
        company: Some("Goo".to_string()),
        ..Default::default()
    };
    let jobs = repo.list_jobs(&query_args, &sprint).unwrap();
    assert_eq!(jobs.len(), 1);
    assert_eq!(jobs[0].company_name, "Google");
}

#[test]
fn test_list_jobs_filters_by_status() {
    let mut conn = setup_test_db();
    let sprint = create_sprint(&mut conn, "test-sprint");
    let title = create_title(&mut conn, "SWE");
    let pending_id = get_status_id(&mut conn, "PENDING");
    let rejected_id = get_status_id(&mut conn, "REJECTED");

    let mut repo = JobRepository {
        connection: &mut conn,
    };
    repo.add_job(NewJob {
        company_name: "Google",
        created: "2025-01-15 10:00:00".to_string(),
        title_id: title.id,
        status_id: pending_id,
        link: None,
        notes: None,
        sprint_id: sprint.id,
    })
    .unwrap();
    repo.add_job(NewJob {
        company_name: "Meta",
        created: "2025-01-16 10:00:00".to_string(),
        title_id: title.id,
        status_id: rejected_id,
        link: None,
        notes: None,
        sprint_id: sprint.id,
    })
    .unwrap();

    let query_args = QueryArgs {
        status: Some("REJECTED".to_string()),
        ..Default::default()
    };
    let jobs = repo.list_jobs(&query_args, &sprint).unwrap();
    assert_eq!(jobs.len(), 1);
    assert_eq!(jobs[0].company_name, "Meta");
}

#[test]
fn test_list_jobs_empty_when_no_match() {
    let mut conn = setup_test_db();
    let sprint = create_sprint(&mut conn, "test-sprint");
    let title = create_title(&mut conn, "SWE");
    let status_id = get_status_id(&mut conn, "PENDING");

    let mut repo = JobRepository {
        connection: &mut conn,
    };
    repo.add_job(NewJob {
        company_name: "Google",
        created: "2025-01-15 10:00:00".to_string(),
        title_id: title.id,
        status_id,
        link: None,
        notes: None,
        sprint_id: sprint.id,
    })
    .unwrap();

    let query_args = QueryArgs {
        company: Some("Nonexistent".to_string()),
        ..Default::default()
    };
    let jobs = repo.list_jobs(&query_args, &sprint).unwrap();
    assert_eq!(jobs.len(), 0);
}

#[test]
fn test_list_jobs_across_sprints() {
    let mut conn = setup_test_db();
    let sprint1 = create_sprint(&mut conn, "sprint-1");
    let sprint2 = create_sprint(&mut conn, "sprint-2");
    let title = create_title(&mut conn, "SWE");
    let status_id = get_status_id(&mut conn, "PENDING");

    let mut repo = JobRepository {
        connection: &mut conn,
    };
    repo.add_job(NewJob {
        company_name: "Google",
        created: "2025-01-15 10:00:00".to_string(),
        title_id: title.id,
        status_id,
        link: None,
        notes: None,
        sprint_id: sprint1.id,
    })
    .unwrap();
    repo.add_job(NewJob {
        company_name: "Meta",
        created: "2025-01-16 10:00:00".to_string(),
        title_id: title.id,
        status_id,
        link: None,
        notes: None,
        sprint_id: sprint2.id,
    })
    .unwrap();

    let query_args = QueryArgs {
        sprint: Some("sprint".to_string()),
        ..Default::default()
    };
    let jobs = repo.list_jobs(&query_args, &sprint1).unwrap();
    assert_eq!(jobs.len(), 2);
}

#[test]
fn test_count_jobs_per_status() {
    let mut conn = setup_test_db();
    let sprint = create_sprint(&mut conn, "test-sprint");
    let title = create_title(&mut conn, "SWE");
    let pending_id = get_status_id(&mut conn, "PENDING");
    let rejected_id = get_status_id(&mut conn, "REJECTED");

    let mut repo = JobRepository {
        connection: &mut conn,
    };
    repo.add_job(NewJob {
        company_name: "Google",
        created: "2025-01-15 10:00:00".to_string(),
        title_id: title.id,
        status_id: pending_id,
        link: None,
        notes: None,
        sprint_id: sprint.id,
    })
    .unwrap();
    repo.add_job(NewJob {
        company_name: "Meta",
        created: "2025-01-16 10:00:00".to_string(),
        title_id: title.id,
        status_id: rejected_id,
        link: None,
        notes: None,
        sprint_id: sprint.id,
    })
    .unwrap();

    let insights = repo.count_jobs_per_status(&sprint).unwrap();
    assert_eq!(insights.len(), 2);

    let pending = insights.iter().find(|i| i.label == "PENDING").unwrap();
    assert_eq!(pending.count, 1);

    let rejected = insights.iter().find(|i| i.label == "REJECTED").unwrap();
    assert_eq!(rejected.count, 1);
}

#[test]
fn test_count_jobs_per_sprint() {
    let mut conn = setup_test_db();
    let sprint1 = create_sprint(&mut conn, "sprint-1");
    let sprint2 = create_sprint(&mut conn, "sprint-2");
    let title = create_title(&mut conn, "SWE");
    let status_id = get_status_id(&mut conn, "PENDING");

    let mut repo = JobRepository {
        connection: &mut conn,
    };
    repo.add_job(NewJob {
        company_name: "Google",
        created: "2025-01-15 10:00:00".to_string(),
        title_id: title.id,
        status_id,
        link: None,
        notes: None,
        sprint_id: sprint1.id,
    })
    .unwrap();
    repo.add_job(NewJob {
        company_name: "Meta",
        created: "2025-01-16 10:00:00".to_string(),
        title_id: title.id,
        status_id,
        link: None,
        notes: None,
        sprint_id: sprint2.id,
    })
    .unwrap();

    let insights = repo.count_jobs_per_sprint(&sprint1).unwrap();
    assert!(insights.len() >= 2);

    let s1 = insights.iter().find(|i| i.label == "sprint-1").unwrap();
    assert_eq!(s1.count, 1);

    let s2 = insights.iter().find(|i| i.label == "sprint-2").unwrap();
    assert_eq!(s2.count, 1);
}

// ----- sprints -----

#[test]
fn test_add_job_sprint() {
    let mut conn = empty_db();
    let mut repo = SprintRepository {
        connection: &mut conn,
    };

    let sprint = NewSprint {
        name: "test-sprint",
        start_date: "2025-01-15",
        end_date: None,
        num_jobs: &0,
    };
    let result = repo.add_job_sprint(sprint).unwrap();
    assert_eq!(result.name, "test-sprint");
    assert_eq!(result.start_date, "2025-01-15");
    assert_eq!(result.end_date, None);
    assert_eq!(result.num_jobs, 0);
}

#[test]
fn test_get_current_sprint_creates_if_missing() {
    let mut conn = empty_db();
    let mut repo = SprintRepository {
        connection: &mut conn,
    };

    let sprint = repo.get_current_sprint("new-sprint").unwrap();
    assert_eq!(sprint.name, "new-sprint");
    assert_eq!(sprint.num_jobs, 0);
}

#[test]
fn test_get_current_sprint_returns_existing() {
    let mut conn = empty_db();
    let mut repo = SprintRepository {
        connection: &mut conn,
    };

    let new_sprint = NewSprint {
        name: "existing-sprint",
        start_date: "2025-01-01",
        end_date: None,
        num_jobs: &5,
    };
    repo.add_job_sprint(new_sprint).unwrap();

    let sprint = repo.get_current_sprint("existing-sprint").unwrap();
    assert_eq!(sprint.name, "existing-sprint");
    assert_eq!(sprint.num_jobs, 5);
}

#[test]
fn test_update_sprint() {
    let mut conn = empty_db();
    let mut repo = SprintRepository {
        connection: &mut conn,
    };

    let sprint = repo
        .add_job_sprint(NewSprint {
            name: "sprint-1",
            start_date: "2025-01-01",
            end_date: None,
            num_jobs: &0,
        })
        .unwrap();

    let changes = SprintUpdate {
        name: Some("sprint-renamed"),
        end_date: Some(Some("2025-02-01")),
        ..Default::default()
    };
    let updated = repo.update_sprint(sprint.id, changes).unwrap();
    assert_eq!(updated.name, "sprint-renamed");
    assert_eq!(updated.end_date, Some("2025-02-01".to_string()));
}

#[test]
fn test_get_all_sprints() {
    let mut conn = empty_db();
    let mut repo = SprintRepository {
        connection: &mut conn,
    };

    repo.add_job_sprint(NewSprint {
        name: "sprint-1",
        start_date: "2025-01-01",
        end_date: None,
        num_jobs: &0,
    })
    .unwrap();
    repo.add_job_sprint(NewSprint {
        name: "sprint-2",
        start_date: "2025-02-01",
        end_date: None,
        num_jobs: &3,
    })
    .unwrap();

    let sprints = repo.get_all_sprints().unwrap();
    assert_eq!(sprints.len(), 2);
}

#[test]
fn test_get_all_sprints_empty() {
    let mut conn = empty_db();
    let mut repo = SprintRepository {
        connection: &mut conn,
    };

    let sprints = repo.get_all_sprints().unwrap();
    assert_eq!(sprints.len(), 0);
}

#[test]
fn test_increment_num_jobs() {
    let mut conn = empty_db();
    let mut repo = SprintRepository {
        connection: &mut conn,
    };

    let sprint = repo
        .add_job_sprint(NewSprint {
            name: "sprint-inc",
            start_date: "2025-01-01",
            end_date: None,
            num_jobs: &0,
        })
        .unwrap();
    assert_eq!(sprint.num_jobs, 0);

    repo.increment_num_jobs(sprint.id).unwrap();

    let updated = repo.get_current_sprint("sprint-inc").unwrap();
    assert_eq!(updated.num_jobs, 1);
}

#[test]
fn test_decrement_num_jobs() {
    let mut conn = empty_db();
    let mut repo = SprintRepository {
        connection: &mut conn,
    };

    let sprint = repo
        .add_job_sprint(NewSprint {
            name: "sprint-dec",
            start_date: "2025-01-01",
            end_date: None,
            num_jobs: &3,
        })
        .unwrap();

    repo.decrement_num_jobs(sprint.id).unwrap();

    let updated = repo.get_current_sprint("sprint-dec").unwrap();
    assert_eq!(updated.num_jobs, 2);
}

// ----- stages -----

fn create_test_job(conn: &mut Database) -> QueriedJob {
    let mut sprint_repo = SprintRepository { connection: conn };
    let sprint = sprint_repo
        .add_job_sprint(NewSprint {
            name: "test-sprint",
            start_date: "2025-01-01",
            end_date: None,
            num_jobs: &0,
        })
        .unwrap();

    let mut title_repo = TitleRepository { connection: conn };
    let title = title_repo.add_title(NewTitle { name: "SWE" }).unwrap();

    let mut status_repo = StatusRepository { connection: conn };
    let statuses = status_repo.get_all_statuses().unwrap();
    let status_id = statuses[0].id;

    let mut job_repo = JobRepository { connection: conn };
    job_repo
        .add_job(NewJob {
            company_name: "TestCo",
            created: "2025-01-15 10:00:00".to_string(),
            title_id: title.id,
            status_id,
            link: None,
            notes: None,
            sprint_id: sprint.id,
        })
        .unwrap()
}

fn new_stage(job_id: i32, stage_number: i32, name: Option<&str>, status: &str, date: &str, created: &str) -> NewInterviewStage {
    NewInterviewStage {
        job_id,
        stage_number,
        name: name.map(|n| n.to_string()),
        status: status.to_string(),
        scheduled_date: date.to_string(),
        notes: None,
        created: created.to_string(),
    }
}

#[test]
fn test_add_stage() {
    let mut conn = setup_test_db();
    let job = create_test_job(&mut conn);

    let mut repo = StageRepository {
        connection: &mut conn,
    };
    let stage = repo
        .add_stage(NewInterviewStage {
            job_id: job.id,
            stage_number: 1,
            name: Some("Phone Screen".to_string()),
            status: "SCHEDULED".to_string(),
            scheduled_date: "2025/01/20".to_string(),
            notes: Some("Prep for this".to_string()),
            created: "2025-01-15".to_string(),
        })
        .unwrap();

    assert_eq!(stage.job_id, job.id);
    assert_eq!(stage.stage_number, 1);
    assert_eq!(stage.name.as_deref(), Some("Phone Screen"));
    assert_eq!(stage.status, "SCHEDULED");
    assert_eq!(stage.scheduled_date, "2025/01/20");
    assert_eq!(stage.notes.as_deref(), Some("Prep for this"));
}

#[test]
fn test_get_stages_for_job() {
    let mut conn = setup_test_db();
    let job = create_test_job(&mut conn);

    let mut repo = StageRepository {
        connection: &mut conn,
    };
    repo.add_stage(new_stage(job.id, 1, Some("Phone"), "PASSED", "2025/01/20", "2025-01-15"))
        .unwrap();
    repo.add_stage(new_stage(job.id, 2, Some("Onsite"), "SCHEDULED", "2025/02/01", "2025-01-20"))
        .unwrap();

    let stages = repo.get_stages_for_job(job.id).unwrap();
    assert_eq!(stages.len(), 2);
    assert_eq!(stages[0].stage_number, 1);
    assert_eq!(stages[1].stage_number, 2);
}

#[test]
fn test_get_stages_for_job_empty() {
    let mut conn = setup_test_db();
    let job = create_test_job(&mut conn);

    let mut repo = StageRepository {
        connection: &mut conn,
    };
    let stages = repo.get_stages_for_job(job.id).unwrap();
    assert_eq!(stages.len(), 0);
}

#[test]
fn test_get_next_stage_number_first() {
    let mut conn = setup_test_db();
    let job = create_test_job(&mut conn);

    let mut repo = StageRepository {
        connection: &mut conn,
    };
    let next = repo.get_next_stage_number(job.id).unwrap();
    assert_eq!(next, 1);
}

#[test]
fn test_get_next_stage_number_after_existing() {
    let mut conn = setup_test_db();
    let job = create_test_job(&mut conn);

    let mut repo = StageRepository {
        connection: &mut conn,
    };
    repo.add_stage(new_stage(job.id, 1, None, "SCHEDULED", "2025/01/20", "2025-01-15"))
        .unwrap();
    repo.add_stage(new_stage(job.id, 2, None, "SCHEDULED", "2025/02/01", "2025-01-20"))
        .unwrap();

    let next = repo.get_next_stage_number(job.id).unwrap();
    assert_eq!(next, 3);
}

#[test]
fn test_update_stage() {
    let mut conn = setup_test_db();
    let job = create_test_job(&mut conn);

    let mut repo = StageRepository {
        connection: &mut conn,
    };
    let stage = repo
        .add_stage(new_stage(job.id, 1, Some("Phone"), "SCHEDULED", "2025/01/20", "2025-01-15"))
        .unwrap();

    let updated = repo
        .update_stage(
            stage.id,
            InterviewStageUpdate {
                status: Some("PASSED".to_string()),
                notes: Some("Went great".to_string()),
                ..Default::default()
            },
        )
        .unwrap();

    assert_eq!(updated.status, "PASSED");
    assert_eq!(updated.notes.as_deref(), Some("Went great"));
    assert_eq!(updated.name.as_deref(), Some("Phone"));
}

#[test]
fn test_delete_stage() {
    let mut conn = setup_test_db();
    let job = create_test_job(&mut conn);

    let mut repo = StageRepository {
        connection: &mut conn,
    };
    let stage = repo
        .add_stage(new_stage(job.id, 1, None, "SCHEDULED", "2025/01/20", "2025-01-15"))
        .unwrap();

    let deleted = repo.delete_stage(stage.id).unwrap();
    assert_eq!(deleted.id, stage.id);

    let stages = repo.get_stages_for_job(job.id).unwrap();
    assert_eq!(stages.len(), 0);
}

#[test]
fn test_renumber_stages_after_deletion() {
    let mut conn = setup_test_db();
    let job = create_test_job(&mut conn);

    let mut repo = StageRepository {
        connection: &mut conn,
    };
    repo.add_stage(new_stage(job.id, 1, Some("Phone"), "PASSED", "2025/01/20", "2025-01-15"))
        .unwrap();
    let stage2 = repo
        .add_stage(new_stage(job.id, 2, Some("Onsite"), "SCHEDULED", "2025/02/01", "2025-01-20"))
        .unwrap();
    repo.add_stage(new_stage(job.id, 3, Some("Final"), "SCHEDULED", "2025/02/15", "2025-01-25"))
        .unwrap();

    repo.delete_stage(stage2.id).unwrap();
    repo.renumber_stages(job.id).unwrap();

    let stages = repo.get_stages_for_job(job.id).unwrap();
    assert_eq!(stages.len(), 2);
    assert_eq!(stages[0].stage_number, 1);
    assert_eq!(stages[0].name.as_deref(), Some("Phone"));
    assert_eq!(stages[1].stage_number, 2);
    assert_eq!(stages[1].name.as_deref(), Some("Final"));
}

#[test]
fn test_renumber_stages_no_op_when_sequential() {
    let mut conn = setup_test_db();
    let job = create_test_job(&mut conn);

    let mut repo = StageRepository {
        connection: &mut conn,
    };
    repo.add_stage(new_stage(job.id, 1, Some("Phone"), "PASSED", "2025/01/20", "2025-01-15"))
        .unwrap();
    repo.add_stage(new_stage(job.id, 2, Some("Onsite"), "SCHEDULED", "2025/02/01", "2025-01-20"))
        .unwrap();

    repo.renumber_stages(job.id).unwrap();

    let stages = repo.get_stages_for_job(job.id).unwrap();
    assert_eq!(stages[0].stage_number, 1);
    assert_eq!(stages[1].stage_number, 2);
}

// ----- statuses -----

#[test]
fn test_get_all_statuses_empty_initially() {
    let mut connection = empty_db();
    let mut repo = StatusRepository {
        connection: &mut connection,
    };

    let statuses = repo.get_all_statuses().unwrap();
    assert_eq!(statuses.len(), 0);
}

#[test]
fn test_seed_statuses_creates_default_statuses() {
    let mut connection = empty_db();
    let mut repo = StatusRepository {
        connection: &mut connection,
    };

    repo.seed_statuses().unwrap();

    let statuses = repo.get_all_statuses().unwrap();
    assert_eq!(statuses.len(), 7);

    let names: Vec<String> = statuses.into_iter().map(|s| s.name).collect();
    assert!(names.contains(&"GHOSTED".to_string()));
    assert!(names.contains(&"HIRED".to_string()));
    assert!(names.contains(&"IN PROGRESS".to_string()));
    assert!(names.contains(&"NOT HIRING ANYMORE".to_string()));
    assert!(names.contains(&"OFFER RECEIVED".to_string()));
    assert!(names.contains(&"PENDING".to_string()));
    assert!(names.contains(&"REJECTED".to_string()));
}

#[test]
fn test_seed_statuses_is_idempotent() {
    let mut connection = empty_db();
    let mut repo = StatusRepository {
        connection: &mut connection,
    };

    repo.seed_statuses().unwrap();
    repo.seed_statuses().unwrap();

    let statuses = repo.get_all_statuses().unwrap();
    assert_eq!(statuses.len(), 7);
}

// ----- titles -----

#[test]
fn test_add_title() {
    let mut conn = empty_db();
    let mut repo = TitleRepository {
        connection: &mut conn,
    };

    let title = repo
        .add_title(NewTitle {
            name: "Software Engineer",
        })
        .unwrap();
    assert_eq!(title.name, "Software Engineer");
    assert!(title.id > 0);
}

#[test]
fn test_add_duplicate_title_returns_existing() {
    let mut conn = empty_db();
    let mut repo = TitleRepository {
        connection: &mut conn,
    };

    let first = repo.add_title(NewTitle { name: "SWE" }).unwrap();
    let second = repo.add_title(NewTitle { name: "SWE" }).unwrap();
    assert_eq!(first.id, second.id);
    assert_eq!(first.name, second.name);
}

#[test]
fn test_get_title() {
    let mut conn = empty_db();
    let mut repo = TitleRepository {
        connection: &mut conn,
    };

    let added = repo
        .add_title(NewTitle {
            name: "Data Scientist",
        })
        .unwrap();
    let fetched = repo.get_title(added.id).unwrap();
    assert_eq!(fetched.id, added.id);
    assert_eq!(fetched.name, "Data Scientist");
}

#[test]
fn test_get_title_not_found() {
    let mut conn = empty_db();
    let mut repo = TitleRepository {
        connection: &mut conn,
    };

    let result = repo.get_title(999);
    assert!(result.is_err());
}

#[test]
fn test_get_all_titles() {
    let mut conn = empty_db();
    let mut repo = TitleRepository {
        connection: &mut conn,
    };

    repo.add_title(NewTitle { name: "SWE" }).unwrap();
    repo.add_title(NewTitle { name: "PM" }).unwrap();
    repo.add_title(NewTitle { name: "Designer" }).unwrap();

    let titles = repo.get_all_titles().unwrap();
    assert_eq!(titles.len(), 3);
}

#[test]
fn test_get_all_titles_empty() {
    let mut conn = empty_db();
    let mut repo = TitleRepository {
        connection: &mut conn,
    };

    let titles = repo.get_all_titles().unwrap();
    assert_eq!(titles.len(), 0);
}

// ----- errors and edge cases of the store -----

#[test]
fn duplicate_sprint_name_is_a_conflict() {
    let mut conn = empty_db();
    create_sprint(&mut conn, "2025-01-15");
    let mut repo = SprintRepository {
        connection: &mut conn,
    };
    let second = repo.add_job_sprint(NewSprint {
        name: "2025-01-15",
        start_date: "2025-01-15",
        end_date: None,
        num_jobs: &0,
    });
    match second {
        Err(FettersError::SprintNameConflict(name)) => assert_eq!(name, "2025-01-15"),
        _ => panic!("Expected SprintNameConflict"),
    }
    assert_eq!(repo.get_all_sprints().unwrap().len(), 1);
}

#[test]
fn renaming_sprint_onto_another_name_conflicts() {
    let mut conn = empty_db();
    create_sprint(&mut conn, "a");
    let b = create_sprint(&mut conn, "b");
    let mut repo = SprintRepository {
        connection: &mut conn,
    };
    let r = repo.update_sprint(b.id, SprintUpdate { name: Some("a"), ..Default::default() });
    assert!(matches!(r, Err(FettersError::SprintNameConflict(_))));
    let r = repo.update_sprint(99, SprintUpdate::default());
    assert!(matches!(r, Err(FettersError::QueryError(QueryFailure::NotFound))));
}

#[test]
fn add_job_with_missing_references_fails() {
    let mut conn = setup_test_db();
    let sprint = create_sprint(&mut conn, "s");
    let title = create_title(&mut conn, "SWE");
    let mut repo = JobRepository {
        connection: &mut conn,
    };
    let r = repo.add_job(NewJob {
        company_name: "X",
        created: "2025-01-15 10:00:00".to_string(),
        title_id: title.id,
        status_id: 999,
        link: None,
        notes: None,
        sprint_id: sprint.id,
    });
    assert!(matches!(r, Err(FettersError::QueryError(QueryFailure::ForeignKeyViolation))));
    assert!(matches!(
        repo.delete_job(42),
        Err(FettersError::QueryError(QueryFailure::NotFound))
    ));
}

#[test]
fn moving_job_between_sprints_moves_the_count() {
    let mut conn = setup_test_db();
    let s1 = create_sprint(&mut conn, "s1");
    let s2 = create_sprint(&mut conn, "s2");
    let title = create_title(&mut conn, "SWE");
    let status_id = get_status_id(&mut conn, "PENDING");
    let job = add_plain_job(&mut conn, "Google", title.id, status_id, s1.id);
    let mut repo = JobRepository {
        connection: &mut conn,
    };
    repo.update_job(job.id, JobUpdate { sprint_id: Some(s2.id), ..Default::default() })
        .unwrap();
    let mut sprints = SprintRepository {
        connection: &mut conn,
    };
    let all = sprints.get_all_sprints().unwrap();
    assert_eq!(all[0].num_jobs, 0);
    assert_eq!(all[1].num_jobs, 1);
}

#[test]
fn deleting_job_removes_its_stages() {
    let mut conn = setup_test_db();
    let job = create_test_job(&mut conn);
    let mut stages = StageRepository {
        connection: &mut conn,
    };
    stages
        .add_stage(new_stage(job.id, 1, None, "SCHEDULED", "2025/01/20", "2025-01-15"))
        .unwrap();
    let mut jobs = JobRepository {
        connection: &mut conn,
    };
    jobs.delete_job(job.id).unwrap();
    let mut stages = StageRepository {
        connection: &mut conn,
    };
    assert_eq!(stages.get_stages_for_job(job.id).unwrap().len(), 0);
}

#[test]
fn add_stage_rejects_bad_status_and_number() {
    let mut conn = setup_test_db();
    let job = create_test_job(&mut conn);
    let mut repo = StageRepository {
        connection: &mut conn,
    };
    let r = repo.add_stage(new_stage(job.id, 1, None, "MAYBE", "2025/01/20", "2025-01-15"));
    assert!(matches!(r, Err(FettersError::QueryError(QueryFailure::CheckViolation))));
    let r = repo.add_stage(new_stage(job.id, 2, None, "PASSED", "2025/01/20", "2025-01-15"));
    assert!(matches!(r, Err(FettersError::QueryError(QueryFailure::CheckViolation))));
    let r = repo.add_stage(new_stage(777, 1, None, "PASSED", "2025/01/20", "2025-01-15"));
    assert!(matches!(r, Err(FettersError::QueryError(QueryFailure::ForeignKeyViolation))));
    let r = repo.update_stage(5, InterviewStageUpdate::default());
    assert!(matches!(r, Err(FettersError::QueryError(QueryFailure::NotFound))));
}

#[test]
fn counter_at_maximum_refuses_increment() {
    let mut conn = empty_db();
    let mut repo = SprintRepository {
        connection: &mut conn,
    };
    let s = repo
        .add_job_sprint(NewSprint {
            name: "full",
            start_date: "2025-01-01",
            end_date: None,
            num_jobs: &i32::MAX,
        })
        .unwrap();
    assert!(matches!(
        repo.increment_num_jobs(s.id),
        Err(FettersError::QueryError(QueryFailure::CounterOverflow))
    ));
    assert!(repo.increment_num_jobs(12345).is_ok());
}
