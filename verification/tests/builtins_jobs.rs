use gshell::builtins::jobs::{parse_job_id, parse_kill_args, parse_signal_spec, should_display_job};
use gshell::jobs::{JobDisposition, JobState};

#[test]
fn displays_only_stopped_and_background_running_jobs() {
    assert!(should_display_job(JobState::Stopped, JobDisposition::Foreground));
    assert!(should_display_job(JobState::Stopped, JobDisposition::Background));
    assert!(should_display_job(JobState::Running, JobDisposition::Background));
    assert!(!should_display_job(JobState::Running, JobDisposition::Foreground));
    assert!(!should_display_job(JobState::Completed, JobDisposition::Background));
}

#[test]
fn parses_small_v1_job_id_forms() {
    assert_eq!(parse_job_id("1"), Ok(1));
    assert_eq!(parse_job_id("%42"), Ok(42));
}

#[test]
fn rejects_invalid_job_id_forms() {
    assert!(parse_job_id("%").is_err());
    assert!(parse_job_id("%+").is_err());
    assert!(parse_job_id("abc").is_err());
}

#[test]
fn parses_kill_signal_specs() {
    assert_eq!(parse_signal_spec("TERM"), Ok(15));
    assert_eq!(parse_signal_spec("SIGKILL"), Ok(9));
    assert_eq!(parse_signal_spec("2"), Ok(2));
    assert!(parse_signal_spec("NOPE").is_err());
}

#[test]
fn parses_kill_arguments() {
    let args = vec![String::from("-TERM"), String::from("%1")];
    assert_eq!(parse_kill_args(&args), Ok((15, &args[1..])));

    let args = vec![String::from("123")];
    assert_eq!(parse_kill_args(&args), Ok((15, &args[..])));
}
