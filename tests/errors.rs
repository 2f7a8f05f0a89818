use fetters::errors::{sheet_name_error, FettersError};

#[test]
fn sheet_name_error_keeps_message() {
    match sheet_name_error("bad sheet name") {
        FettersError::SheetNameError(msg) => assert_eq!(msg, "bad sheet name"),
        _ => panic!("Expected SheetNameError"),
    }
}

#[test]
fn test_error_display_application_error() {
    let error = FettersError::ApplicationError;
    assert_eq!(
        error.to_string(),
        "Could not retrieve system application directories!"
    );
}

#[test]
fn test_error_display_migration_failure() {
    let error = FettersError::MigrationFailure;
    assert_eq!(error.to_string(), "Failed to run migrations!");
}

#[test]
fn test_error_display_no_jobs_available() {
    let error = FettersError::NoJobsAvailable("sprint-1".to_string());
    assert_eq!(
        error.to_string(),
        "No job applications tracked for the current sprint [sprint-1]"
    );
}

#[test]
fn test_error_display_sheet_name_error() {
    let error = FettersError::SheetNameError("bad name".to_string());
    assert_eq!(error.to_string(), "Set sheet name error: bad name");
}

#[test]
fn test_error_display_sprint_name_conflict() {
    let error = FettersError::SprintNameConflict("2025-01-15".to_string());
    assert_eq!(
        error.to_string(),
        "There is already a sprint with name 2025-01-15. Try renaming the sprint."
    );
}

#[test]
fn test_error_display_unknown_error() {
    let error = FettersError::UnknownError("something broke".to_string());
    assert_eq!(error.to_string(), "something broke");
}
