use blend_render::frame_partition::{compute_partitions, Distribution};
use blend_render::parallel_job::{
    board_document, status_document, status_field_path, value_document, AfterExit, ParallelJob,
    ProcessState, StatusUpdate, StatusValue,
};

fn text(path: &str, value: &str) -> StatusUpdate {
    StatusUpdate { path: path.to_string(), value: StatusValue::Text(value.to_string()) }
}

#[test]
fn job_begins_with_all_processes_running() {
    let job = ParallelJob::new(&compute_partitions(1, 10, 3, Distribution::Chunks));
    let board = job.statuses();
    assert_eq!(board.len(), 3);
    assert_eq!(board[1].index, 1);
    assert_eq!(board[1].gpu, 1);
    assert_eq!(board[1].frames, "5-7");
    assert_eq!(board[1].state, ProcessState::Running);
    assert_eq!(board[1].render_stats, "");
    assert_eq!(board[1].retries, 0);
}

#[test]
fn failed_process_is_retried_once() {
    let mut job = ParallelJob::new(&compute_partitions(1, 10, 2, Distribution::Chunks));
    let (updates, next) = job.exited(1, false);
    assert_eq!(next, AfterExit::Respawn);
    assert_eq!(
        updates,
        [
            StatusUpdate {
                path: "$.parallel_status[1].retries".to_string(),
                value: StatusValue::Number(1),
            },
            text("$.parallel_status[1].state", "retrying"),
        ]
    );
    assert_eq!(job.started(1), [text("$.parallel_status[1].state", "running")]);
    let (updates, next) = job.exited(1, false);
    assert_eq!(next, AfterExit::Finish);
    assert_eq!(updates, [text("$.parallel_status[1].state", "failed")]);
    assert_eq!(job.statuses()[1].retries, 1);
    assert_eq!(job.statuses()[0].state, ProcessState::Running);
}

#[test]
fn job_is_over_with_its_last_process() {
    let mut job = ParallelJob::new(&compute_partitions(1, 3, 3, Distribution::Interleave));
    assert_eq!(job.exited(2, true).1, AfterExit::Finish);
    assert_eq!(job.exited(0, false).1, AfterExit::Respawn);
    assert_eq!(job.exited(1, true).1, AfterExit::Finish);
    job.started(0);
    let (updates, next) = job.exited(0, true);
    assert_eq!(updates, [text("$.parallel_status[0].state", "done")]);
    assert_eq!(next, AfterExit::FinishJob);
}

#[test]
fn latest_line_is_shown() {
    let mut job = ParallelJob::new(&compute_partitions(1, 3, 2, Distribution::Chunks));
    job.printed(0, "Fra:1".to_string());
    let updates = job.printed(0, "Fra:2".to_string());
    assert_eq!(updates, [text("$.parallel_status[0].render_stats", "Fra:2")]);
    assert_eq!(job.statuses()[0].render_stats, "Fra:2");
    assert_eq!(job.statuses()[1].render_stats, "");
}

#[test]
fn states_have_names() {
    assert_eq!(ProcessState::Running.name(), "running");
    assert_eq!(ProcessState::Done.name(), "done");
    assert_eq!(ProcessState::Failed.name(), "failed");
    assert_eq!(ProcessState::Retrying.name(), "retrying");
    assert_eq!(status_field_path(12, "state"), "$.parallel_status[12].state");
}

#[test]
fn stopped_job_starts_nothing() {
    let mut job = ParallelJob::new(&compute_partitions(1, 9, 3, Distribution::Chunks));
    assert_eq!(job.exited(2, false).1, AfterExit::Respawn);
    assert!(job.may_launch(0));
    assert!(job.may_launch(2));
    job.stop();
    for i in 0..3 {
        assert!(!job.may_launch(i));
    }
    assert_eq!(job.statuses()[0].state, ProcessState::Running);
    let (updates, next) = job.exited(0, false);
    assert_eq!(updates, [text("$.parallel_status[0].state", "failed")]);
    assert_eq!(next, AfterExit::Finish);
    assert_eq!(job.statuses()[0].retries, 0);
    assert_eq!(job.exited(1, true).1, AfterExit::Finish);
    assert_eq!(job.statuses()[1].state, ProcessState::Done);
    assert_eq!(job.exited(2, false).1, AfterExit::FinishJob);
    assert_eq!(job.statuses()[2].state, ProcessState::Failed);
}

#[test]
fn finished_process_is_not_launched() {
    let mut job = ParallelJob::new(&compute_partitions(1, 2, 2, Distribution::Chunks));
    job.exited(0, true);
    assert!(!job.may_launch(0));
    assert!(job.may_launch(1));
}

#[test]
fn stopped_job_still_shows_lines() {
    let mut job = ParallelJob::new(&compute_partitions(1, 2, 2, Distribution::Chunks));
    job.stop();
    job.printed(1, "Fra:1".to_string());
    assert_eq!(job.statuses()[1].render_stats, "Fra:1");
    assert_eq!(job.exited(1, false).1, AfterExit::Finish);
}

#[test]
fn stored_statuses_follow_the_board() {
    let mut job = ParallelJob::new(&compute_partitions(1, 9, 3, Distribution::Interleave));
    let mut stored = board_document(job.statuses());
    let mut updates = job.printed(1, "Fra:2 \"x\"".to_string());
    updates.extend(job.exited(1, false).0);
    updates.extend(job.started(1));
    updates.extend(job.exited(0, true).0);
    for update in &updates {
        let path = update.path.strip_prefix("$.parallel_status[").unwrap();
        let (index, field) = path.split_once("].").unwrap();
        let index: usize = index.parse().unwrap();
        assert!(stored[index].get(field).is_some());
        stored[index][field] = value_document(&update.value);
    }
    assert_eq!(stored, board_document(job.statuses()));
}

#[test]
fn status_as_a_document() {
    let job = ParallelJob::new(&compute_partitions(1, 9, 3, Distribution::Chunks));
    let document = status_document(&job.statuses()[1]);
    assert_eq!(
        document.to_string(),
        "{\"frames\":\"4-6\",\"gpu\":1,\"index\":1,\"render_stats\":\"\",\"retries\":0,\"state\":\"running\"}"
    );
}
