use aco_sync_nas_dirs::status::Status;
use aco_sync_nas_dirs::Cli;

fn settings(min_status: &str) -> Cli {
    Cli {
        year: 2024,
        min_status: min_status.to_string(),
        root_dir: "/mnt/nas/projects".to_string(),
        seed_dir: "/mnt/nas/seed".to_string(),
        db_host: "db.example.org".to_string(),
        db_port: "5432".to_string(),
        db_name: "aims".to_string(),
        db_user: "reader".to_string(),
        db_pass: "pw123".to_string(),
    }
}

#[test]
fn connection_string_lists_the_five_settings() {
    assert_eq!(
        settings("approved").connection_string(),
        "host=db.example.org port=5432 dbname=aims user=reader password=pw123"
    );
}

#[test]
fn connection_string_of_empty_settings() {
    let mut args = settings("approved");
    args.db_host = String::new();
    args.db_port = String::new();
    args.db_name = String::new();
    args.db_user = String::new();
    args.db_pass = String::new();
    assert_eq!(args.connection_string(), "host= port= dbname= user= password=");
}

#[test]
fn min_status_is_read_whatever_its_case() {
    assert_eq!(settings("approved").min_status_level(), Some(Status::Approved));
    assert_eq!(settings("Data Checked").min_status_level(), Some(Status::DataChecked));
    assert_eq!(settings("PROCESSED").min_status_level(), Some(Status::Processed));
}

#[test]
fn min_status_that_names_no_stage() {
    assert_eq!(settings("done").min_status_level(), None);
    assert_eq!(settings("").min_status_level(), None);
}
