use james_shell::job_control::{
    after_call, after_set_process_group, classify_wait, is_valid_group, CallError, NextStep,
    WaitOutcome,
};
use james_shell::jobs::{done_report, JobStatus, JobTable};
use james_shell::status::{exit_code, exit_code_from_wait_status, ProcessStatus};

#[test]
fn job_ids_start_at_one_and_grow() {
    let mut table = JobTable::new();
    assert!(table.has_room());
    assert_eq!(table.most_recent_id(), None);
    assert_eq!(table.add(100, "sleep 1".to_string()), (1, 100));
    assert_eq!(table.add_with_pgid(101, "a | b".to_string(), 90), (2, 101));
    assert_eq!(table.add_stopped(102, "vim".to_string()), (3, 102));
    assert!(table.remove(2).is_some());
    assert_eq!(table.add_stopped_with_pgid(103, "less".to_string(), 77), (4, 103));
    assert_eq!(table.most_recent_id(), Some(4));
    let ids: Vec<usize> = table.jobs_sorted().iter().map(|j| j.id).collect();
    assert_eq!(ids, vec![1, 3, 4]);
}

#[test]
fn job_fields_are_recorded() {
    let mut table = JobTable::new();
    table.add(100, "sleep 1".to_string());
    table.add_stopped_with_pgid(103, "less".to_string(), 77);
    let first = table.get(1).unwrap();
    assert_eq!((first.pid, first.pgid, first.status), (100, 100, JobStatus::Running));
    assert_eq!(first.command, "sleep 1");
    let second = table.get(2).unwrap();
    assert_eq!((second.pid, second.pgid, second.status), (103, 77, JobStatus::Stopped));
    assert!(table.get(3).is_none());
    assert!(table.remove(9).is_none());
}

#[test]
fn status_changes_and_defaults() {
    let mut table = JobTable::new();
    table.add(1, "a".to_string());
    table.add_stopped(2, "b".to_string());
    table.add(3, "c".to_string());
    assert_eq!(table.most_recent_stopped_id(), Some(2));
    assert_eq!(table.running_ids(), vec![1, 3]);
    assert!(table.mark_stopped(3));
    assert_eq!(table.most_recent_stopped_id(), Some(3));
    assert!(table.mark_running(2));
    assert_eq!(table.running_ids(), vec![1, 2]);
    assert!(!table.mark_running(9));
    assert_eq!(table.get(2).unwrap().status, JobStatus::Running);
}

#[test]
fn reap_reports_each_finished_job_once() {
    let mut table = JobTable::new();
    table.add(10, "sleep 1".to_string());
    table.add_stopped(11, "vim".to_string());
    table.add(12, "make".to_string());
    let lines = table.reap(&[3, 2, 1, 7]);
    assert_eq!(lines, vec!["[1]  Done  sleep 1".to_string(), "[3]  Done  make".to_string()]);
    let ids: Vec<usize> = table.jobs_sorted().iter().map(|j| j.id).collect();
    assert_eq!(ids, vec![2]);
    assert!(table.reap(&[3, 2, 1, 7]).is_empty());
    assert_eq!(table.add(13, "again".to_string()), (4, 13));
    assert_eq!(done_report(table.get(4).unwrap()), "[4]  Done  again");
}

#[test]
fn exit_codes_of_ended_processes() {
    assert_eq!(exit_code(ProcessStatus::Exited(0)), 0);
    assert_eq!(exit_code(ProcessStatus::Exited(7)), 7);
    assert_eq!(exit_code(ProcessStatus::Signaled(2)), 130);
    assert_eq!(exit_code(ProcessStatus::Signaled(9)), 137);
    assert_eq!(exit_code(ProcessStatus::Unknown), 1);
}

#[test]
fn raw_wait_status_is_decoded() {
    assert_eq!(exit_code_from_wait_status(0), Some(0));
    assert_eq!(exit_code_from_wait_status(7 << 8), Some(7));
    assert_eq!(exit_code_from_wait_status(255 << 8), Some(255));
    assert_eq!(exit_code_from_wait_status(2), Some(130));
    assert_eq!(exit_code_from_wait_status(15 | 0x80), Some(143));
    assert_eq!(exit_code_from_wait_status((19 << 8) | 0x7f), None);
    assert_eq!(exit_code_from_wait_status(0xffff), None);
}

#[test]
fn wait_outcomes_and_retries() {
    assert_eq!(classify_wait(3 << 8), Some(WaitOutcome::Exited(3)));
    assert_eq!(classify_wait(2), Some(WaitOutcome::Exited(130)));
    assert_eq!(classify_wait((20 << 8) | 0x7f), Some(WaitOutcome::Stopped));
    assert_eq!(classify_wait(0xffff), None);
    assert!(is_valid_group(1));
    assert!(!is_valid_group(0));
    assert!(!is_valid_group(-5));
    assert_eq!(after_set_process_group(Ok(())), NextStep::Done);
    assert_eq!(after_set_process_group(Err(CallError::Interrupted)), NextStep::Retry);
    assert_eq!(after_set_process_group(Err(CallError::PermissionDenied)), NextStep::Done);
    assert_eq!(after_set_process_group(Err(CallError::NoSuchProcess)), NextStep::Done);
    assert_eq!(after_set_process_group(Err(CallError::Other)), NextStep::Fail);
    assert_eq!(after_call(Ok(())), NextStep::Done);
    assert_eq!(after_call(Err(CallError::Interrupted)), NextStep::Retry);
    assert_eq!(after_call(Err(CallError::NoSuchProcess)), NextStep::Fail);
    assert_eq!(after_call(Err(CallError::PermissionDenied)), NextStep::Fail);
}
