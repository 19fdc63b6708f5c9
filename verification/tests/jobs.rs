use gshell::builtins::jobs::current_job;
use gshell::jobs::{JobDisposition, JobState, Jobs, ProcessRecord, ProcessState};

#[test]
fn inserts_jobs_and_tracks_foreground() {
    let mut jobs = Jobs::default();
    let id = jobs.insert(
        1000,
        "sleep 1",
        JobDisposition::Foreground,
        vec![ProcessRecord::new(1000, "sleep 1")],
    );

    assert_eq!(id, 1);
    assert_eq!(jobs.foreground_job(), Some(id));
    let job = jobs.get(id).expect("job should exist");
    assert_eq!(job.pgid(), 1000);
    assert_eq!(job.summary(), "sleep 1");
    assert_eq!(job.state(), JobState::Running);
}

#[test]
fn process_state_transitions_update_job_state() {
    let mut jobs = Jobs::default();
    let id = jobs.insert(
        2000,
        "pipeline",
        JobDisposition::Background,
        vec![ProcessRecord::new(2001, "printf a"), ProcessRecord::new(2002, "cat")],
    );

    assert!(jobs.update_process_state(id, 2001, ProcessState::Stopped));
    assert_eq!(jobs.get(id).expect("job should exist").state(), JobState::Stopped);

    assert!(jobs.update_process_state(id, 2001, ProcessState::Completed(0)));
    assert_eq!(jobs.get(id).expect("job should exist").state(), JobState::Running);

    assert!(jobs.update_process_state(id, 2002, ProcessState::Completed(0)));
    assert_eq!(jobs.get(id).expect("job should exist").state(), JobState::Completed);
}

#[test]
fn job_ids_increase_and_removed_jobs_are_forgotten() {
    let mut jobs = Jobs::new();
    let a = jobs.insert(10, "a", JobDisposition::Background, vec![ProcessRecord::new(10, "a")]);
    let b = jobs.insert(20, "b", JobDisposition::Background, vec![ProcessRecord::new(20, "b")]);
    assert_eq!((a, b), (1, 2));
    assert_eq!(jobs.foreground_job(), None);
    assert_eq!(jobs.len(), 2);
    assert!(jobs.remove(a).is_some());
    assert!(jobs.get(a).is_none());
    assert!(jobs.remove(a).is_none());
    assert_eq!(jobs.len(), 1);
    let c = jobs.insert(30, "c", JobDisposition::Foreground, vec![ProcessRecord::new(30, "c")]);
    assert_eq!(c, 3);
    assert_eq!(jobs.foreground_job(), Some(3));
}

#[test]
fn unknown_job_or_process_updates_report_not_found() {
    let mut jobs = Jobs::new();
    let id = jobs.insert(5, "x", JobDisposition::Foreground, vec![ProcessRecord::new(5, "x")]);
    assert!(!jobs.update_process_state(id + 1, 5, ProcessState::Stopped));
    assert!(!jobs.update_process_state(id, 6, ProcessState::Stopped));
    assert!(!jobs.set_disposition(id + 1, JobDisposition::Background));
    assert_eq!(jobs.get(id).expect("job").state(), JobState::Running);
}

#[test]
fn completing_the_foreground_job_frees_the_terminal() {
    let mut jobs = Jobs::new();
    let id = jobs.insert(7, "sleep 5", JobDisposition::Foreground, vec![ProcessRecord::new(7, "sleep 5")]);
    assert_eq!(jobs.foreground_job(), Some(id));
    assert!(jobs.update_process_state(id, 7, ProcessState::Completed(0)));
    assert_eq!(jobs.foreground_job(), None);
}

#[test]
fn job_lookup_by_pid_and_listing_order() {
    let mut jobs = Jobs::new();
    let a = jobs.insert(100, "a", JobDisposition::Background, vec![ProcessRecord::new(101, "a")]);
    let b = jobs.insert(200, "b | c", JobDisposition::Background, vec![ProcessRecord::new(201, "b"), ProcessRecord::new(202, "c")]);
    assert_eq!(jobs.job_id_for_pid(202), Some(b));
    assert_eq!(jobs.job_id_for_pid(101), Some(a));
    assert_eq!(jobs.job_id_for_pid(999), None);
    let ids: Vec<u32> = jobs.iter().iter().map(|j| j.id()).collect();
    assert_eq!(ids, vec![a, b]);
    assert!(jobs.set_all_processes_stopped(b));
    assert_eq!(jobs.get(b).unwrap().state(), JobState::Stopped);
    assert!(jobs.set_all_processes_running(b));
    assert_eq!(jobs.get(b).unwrap().state(), JobState::Running);
}

#[test]
fn current_job_is_the_newest_unfinished_one() {
    let mut jobs = Jobs::new();
    assert_eq!(current_job(&jobs), None);
    let a = jobs.insert(10, "a", JobDisposition::Background, vec![ProcessRecord::new(10, "a")]);
    let b = jobs.insert(20, "b", JobDisposition::Background, vec![ProcessRecord::new(20, "b")]);
    assert_eq!(current_job(&jobs), Some(b));
    assert!(jobs.update_process_state(b, 20, ProcessState::Completed(0)));
    assert_eq!(current_job(&jobs), Some(a));
    assert!(jobs.update_process_state(a, 10, ProcessState::Completed(1)));
    assert_eq!(current_job(&jobs), None);
}
