use fetters::models::job::{JobUpdate, TabledJob};
use fetters::models::sprint::SprintUpdate;
use fetters::models::stage::{InterviewStageUpdate, QueriedInterviewStage, StageStatus};

fn make_tabled_job(status: Option<&str>) -> TabledJob {
    TabledJob {
        id: 1,
        created: "2025-01-15".to_string(),
        company_name: "Acme Corp".to_string(),
        title: Some("Software Engineer".to_string()),
        status: status.map(|s| s.to_string()),
        stages: Some(2),
        link: Some("https://example.com/apply".to_string()),
        notes: Some("Great opportunity".to_string()),
    }
}

#[test]
fn test_convert_to_row_with_all_fields() {
    let job = make_tabled_job(Some("PENDING"));
    let row = job.convert_to_row();
    assert_eq!(row.len(), 6);
    assert_eq!(row[0], "2025-01-15");
    assert_eq!(row[1], "Acme Corp");
    assert_eq!(row[2], "Software Engineer");
    assert_eq!(row[3], "PENDING");
    assert_eq!(row[4], "https://example.com/apply");
    assert_eq!(row[5], "Great opportunity");
}

#[test]
fn test_convert_to_row_with_none_fields() {
    let job = TabledJob {
        id: 1,
        created: "2025-01-15".to_string(),
        company_name: "Test Co".to_string(),
        title: None,
        status: None,
        stages: None,
        link: None,
        notes: None,
    };
    let row = job.convert_to_row();
    assert_eq!(row[2], "N/A");
    assert_eq!(row[3], "N/A");
    assert_eq!(row[4], "");
    assert_eq!(row[5], "");
}

#[test]
fn test_colorize_field_with_no_status() {
    let job = TabledJob {
        id: 1,
        created: "2025-01-15".to_string(),
        company_name: "Test".to_string(),
        title: None,
        status: None,
        stages: None,
        link: None,
        notes: None,
    };
    assert_eq!(job.colorize_field("test"), "test");
}

#[test]
fn test_colorize_field_with_unknown_status() {
    let job = make_tabled_job(Some("UNKNOWN_STATUS"));
    let result = job.colorize_field("test");
    assert_eq!(result, "test");
}

#[test]
fn test_colorize_field_with_known_statuses() {
    let statuses = vec![
        "GHOSTED",
        "HIRED",
        "IN PROGRESS",
        "NOT HIRING ANYMORE",
        "OFFER RECEIVED",
        "PENDING",
        "REJECTED",
    ];
    for status in statuses {
        let job = make_tabled_job(Some(status));
        let result = job.colorize_field("test");
        assert!(
            result.contains("test"),
            "colorize_field should contain the input for status {}",
            status
        );
    }
}

#[test]
fn colorize_field_writes_exact_escape_codes() {
    assert_eq!(
        make_tabled_job(Some("REJECTED")).colorize_field("x"),
        "\x1b[1m\x1b[31mx\x1b[39m\x1b[0m"
    );
    assert_eq!(
        make_tabled_job(Some("HIRED")).colorize_field("x"),
        "\x1b[1m\x1b[32mx\x1b[39m\x1b[0m"
    );
    assert_eq!(
        make_tabled_job(Some("NOT HIRING ANYMORE")).colorize_field("x"),
        "\x1b[38;2;201;201;201mx\x1b[39m"
    );
    assert_eq!(
        make_tabled_job(Some("GHOSTED")).colorize_field("x"),
        "\x1b[1m\x1b[37mx\x1b[39m\x1b[0m"
    );
    assert_eq!(
        make_tabled_job(Some("IN PROGRESS")).colorize_field("x"),
        "\x1b[1m\x1b[33mx\x1b[39m\x1b[0m"
    );
    assert_eq!(
        make_tabled_job(Some("OFFER RECEIVED")).colorize_field("x"),
        "\x1b[1m\x1b[35mx\x1b[39m\x1b[0m"
    );
    assert_eq!(
        make_tabled_job(Some("PENDING")).colorize_field("x"),
        "\x1b[1m\x1b[34mx\x1b[39m\x1b[0m"
    );
}

#[test]
fn test_tabled_job_display_contains_company() {
    let job = make_tabled_job(Some("PENDING"));
    let display = job.to_string();
    assert!(display.contains("Acme Corp"));
}

#[test]
fn tabled_job_line_is_exact() {
    let job = make_tabled_job(None);
    assert_eq!(
        job.to_string(),
        "ID: \x1b[1m\x1b[37m1\x1b[39m\x1b[0m | Company: Acme Corp | Title: Software Engineer | Status: "
    );
}

#[test]
fn test_job_update_default() {
    let update = JobUpdate::default();
    assert!(update.company_name.is_none());
    assert!(update.title_id.is_none());
    assert!(update.status_id.is_none());
    assert!(update.link.is_none());
    assert!(update.notes.is_none());
    assert!(update.sprint_id.is_none());
}

#[test]
fn test_sprint_update_default() {
    let update = SprintUpdate::default();
    assert!(update.name.is_none());
    assert!(update.start_date.is_none());
    assert!(update.end_date.is_none());
}

#[test]
fn test_stage_status_variants_returns_all_three() {
    let variants = StageStatus::variants();
    assert_eq!(variants.len(), 3);
}

#[test]
fn test_stage_status_as_str() {
    assert_eq!(StageStatus::Scheduled.as_str(), "SCHEDULED");
    assert_eq!(StageStatus::Passed.as_str(), "PASSED");
    assert_eq!(StageStatus::Rejected.as_str(), "REJECTED");
}

#[test]
fn test_stage_status_date_prompt() {
    assert_eq!(
        StageStatus::Scheduled.date_prompt(),
        "Select the scheduled date:"
    );
    assert_eq!(StageStatus::Passed.date_prompt(), "Select the passed date:");
    assert_eq!(
        StageStatus::Rejected.date_prompt(),
        "Select the rejected date:"
    );
}

#[test]
fn test_stage_status_colorize_str_known_statuses() {
    let scheduled = StageStatus::colorize_str("SCHEDULED");
    assert!(scheduled.contains("SCHEDULED"));

    let passed = StageStatus::colorize_str("PASSED");
    assert!(passed.contains("PASSED"));

    let rejected = StageStatus::colorize_str("REJECTED");
    assert!(rejected.contains("REJECTED"));
}

#[test]
fn stage_status_colorize_str_exact() {
    assert_eq!(
        StageStatus::colorize_str("SCHEDULED"),
        "\x1b[1m\x1b[93mSCHEDULED\x1b[39m\x1b[0m"
    );
    assert_eq!(
        StageStatus::colorize_str("PASSED"),
        "\x1b[1m\x1b[92mPASSED\x1b[39m\x1b[0m"
    );
    assert_eq!(
        StageStatus::colorize_str("REJECTED"),
        "\x1b[1m\x1b[91mREJECTED\x1b[39m\x1b[0m"
    );
}

#[test]
fn test_stage_status_colorize_str_unknown_returns_plain() {
    assert_eq!(StageStatus::colorize_str("UNKNOWN"), "UNKNOWN");
}

#[test]
fn test_stage_status_display() {
    assert_eq!(StageStatus::Scheduled.to_string(), "SCHEDULED");
    assert_eq!(StageStatus::Passed.to_string(), "PASSED");
    assert_eq!(StageStatus::Rejected.to_string(), "REJECTED");
}

#[test]
fn test_stage_status_from_str() {
    assert!(matches!(
        "SCHEDULED".parse::<StageStatus>(),
        Ok(StageStatus::Scheduled)
    ));
    assert!(matches!(
        "PASSED".parse::<StageStatus>(),
        Ok(StageStatus::Passed)
    ));
    assert!(matches!(
        "REJECTED".parse::<StageStatus>(),
        Ok(StageStatus::Rejected)
    ));
}

#[test]
fn test_stage_status_from_str_case_insensitive() {
    assert!(matches!(
        "scheduled".parse::<StageStatus>(),
        Ok(StageStatus::Scheduled)
    ));
    assert!(matches!(
        "Passed".parse::<StageStatus>(),
        Ok(StageStatus::Passed)
    ));
    assert!(matches!(
        "rEjEcTeD".parse::<StageStatus>(),
        Ok(StageStatus::Rejected)
    ));
}

#[test]
fn test_stage_status_from_str_invalid() {
    let result = "INVALID".parse::<StageStatus>();
    assert!(result.is_err());
    assert_eq!(result.unwrap_err(), "Unknown stage status: INVALID");
}

#[test]
fn stage_status_from_upper_reads_given_upper_case() {
    assert!(matches!(
        StageStatus::from_upper("PASSED", "passed"),
        Ok(StageStatus::Passed)
    ));
    assert_eq!(
        StageStatus::from_upper("PASSED!", "passed!").unwrap_err(),
        "Unknown stage status: passed!"
    );
}

#[test]
fn test_queried_interview_stage_display_with_name() {
    let stage = QueriedInterviewStage {
        id: 1,
        job_id: 1,
        stage_number: 1,
        name: Some("Phone Screen".to_string()),
        status: "SCHEDULED".to_string(),
        scheduled_date: "2025/01/15".to_string(),
        notes: None,
        created: "2025-01-15".to_string(),
    };
    assert_eq!(
        stage.to_string(),
        "Stage 1: Phone Screen [SCHEDULED] 2025/01/15"
    );
}

#[test]
fn test_queried_interview_stage_display_without_name() {
    let stage = QueriedInterviewStage {
        id: 1,
        job_id: 1,
        stage_number: 2,
        name: None,
        status: "PASSED".to_string(),
        scheduled_date: "2025/02/01".to_string(),
        notes: Some("Went well".to_string()),
        created: "2025-02-01".to_string(),
    };
    assert_eq!(stage.to_string(), "Stage 2 [PASSED] 2025/02/01");
}

#[test]
fn test_queried_interview_stage_display_with_empty_name() {
    let stage = QueriedInterviewStage {
        id: 1,
        job_id: 1,
        stage_number: 3,
        name: Some("".to_string()),
        status: "REJECTED".to_string(),
        scheduled_date: "2025/03/01".to_string(),
        notes: None,
        created: "2025-03-01".to_string(),
    };
    assert_eq!(stage.to_string(), "Stage 3 [REJECTED] 2025/03/01");
}

#[test]
fn stage_line_with_large_and_negative_numbers() {
    let mut stage = QueriedInterviewStage {
        id: 1,
        job_id: 1,
        stage_number: 1234,
        name: None,
        status: "PASSED".to_string(),
        scheduled_date: "2025/03/01".to_string(),
        notes: None,
        created: "2025-03-01".to_string(),
    };
    assert_eq!(stage.to_string(), "Stage 1234 [PASSED] 2025/03/01");
    stage.stage_number = -7;
    assert_eq!(stage.to_string(), "Stage -7 [PASSED] 2025/03/01");
}

#[test]
fn test_interview_stage_update_default() {
    let update = InterviewStageUpdate::default();
    assert!(update.name.is_none());
    assert!(update.status.is_none());
    assert!(update.scheduled_date.is_none());
    assert!(update.notes.is_none());
}
