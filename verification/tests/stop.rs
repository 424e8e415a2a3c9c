use blend_render::reply::{Reply, Status};
use blend_render::stop::{stop_reply, LivePids, StopFailure, Stopping};

fn failure(pid: u32, error: &str) -> StopFailure {
    StopFailure { pid, error: error.to_string() }
}

fn answer(status: Status, body: &str) -> Reply {
    Reply { status, body: body.to_string() }
}

#[test]
fn pids_come_and_go() {
    let mut pids = LivePids::new();
    pids.insert(10);
    pids.insert(11);
    pids.insert(10);
    pids.remove(10);
    assert_eq!(pids.all(), [11, 10]);
    pids.remove(99);
    assert_eq!(pids.all(), [11, 10]);
    pids.remove(10);
    pids.insert(12);
    assert_eq!(pids.all(), [11, 12]);
    pids.clear();
    assert!(pids.all().is_empty());
}

#[test]
fn nothing_to_stop() {
    let reply = stop_reply(&vec![], &vec![]);
    assert_eq!(reply, answer(Status::BadRequest, "No render task are active"));
}

#[test]
fn all_processes_stopped() {
    let reply = stop_reply(&vec![1, 2], &vec![]);
    assert_eq!(reply, answer(Status::Success, "Blender exited successfully"));
}

#[test]
fn some_processes_not_stopped() {
    let one = stop_reply(&vec![1, 2], &vec![failure(2, "EPERM")]);
    assert_eq!(
        one,
        answer(Status::InternalServerError, "Failed to cancel some renders: 2: EPERM")
    );
    let all = stop_reply(&vec![1, 2, 3], &vec![failure(1, "a"), failure(2, "b"), failure(3, "c")]);
    assert_eq!(
        all,
        answer(Status::InternalServerError, "Failed to cancel some renders: 1: a, 2: b, 3: c")
    );
}

#[test]
fn status_codes() {
    assert_eq!(Status::Success.code(), 200);
    assert_eq!(Status::Accepted.code(), 202);
    assert_eq!(Status::BadRequest.code(), 400);
    assert_eq!(Status::NotFound.code(), 404);
    assert_eq!(Status::UnsupportedMediaType.code(), 415);
    assert_eq!(Status::InternalServerError.code(), 500);
}

fn stop(live: &mut LivePids, refuse: &[u32]) -> (Vec<u32>, Reply) {
    let mut told = Vec::new();
    let mut stopping = Stopping::new(live);
    while let Some(pid) = stopping.next_pid() {
        assert_eq!(stopping.next_pid(), Some(pid));
        told.push(pid);
        let error = if refuse.contains(&pid) { Some("ESRCH".to_string()) } else { None };
        stopping.report(error);
    }
    (told, stopping.finish(live))
}

fn live(pids: &[u32]) -> LivePids {
    let mut live = LivePids::new();
    for pid in pids {
        live.insert(*pid);
    }
    live
}

#[test]
fn every_process_is_told_once() {
    let mut pids = live(&[7, 8, 9]);
    let (told, reply) = stop(&mut pids, &[]);
    assert_eq!(told, [7, 8, 9]);
    assert_eq!(reply, answer(Status::Success, "Blender exited successfully"));
    assert!(pids.all().is_empty());
    let (told, reply) = stop(&mut pids, &[]);
    assert!(told.is_empty());
    assert_eq!(reply, answer(Status::BadRequest, "No render task are active"));
}

#[test]
fn failure_keeps_no_process_from_being_told() {
    let mut pids = live(&[7, 8, 9]);
    let (told, reply) = stop(&mut pids, &[7, 9]);
    assert_eq!(told, [7, 8, 9]);
    assert_eq!(
        reply,
        answer(
            Status::InternalServerError,
            "Failed to cancel some renders: 7: ESRCH, 9: ESRCH",
        )
    );
    assert!(pids.all().is_empty());
}
