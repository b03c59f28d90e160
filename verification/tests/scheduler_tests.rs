use rts_core::geometry::{Point, Velocity};
use rts_core::movement::{run_to_arrival, MotionState, MovementPath};
use rts_core::pathfinding::{
    MoveEvent, MoveRequest, PollStatus, Resolution, TaskScheduler,
};

fn pt(x: i64, y: i64, z: i64) -> Point {
    Point { x, y, z }
}

fn req(requester: u64, target: Point) -> MoveRequest {
    MoveRequest { requester, target }
}

#[test]
fn from_event_carries_the_hit_position() {
    let r = MoveRequest::from_event(9, &MoveEvent(Some(pt(1, 2, 3)))).unwrap();
    assert_eq!(r.requester, 9);
    assert_eq!(r.target, pt(1, 2, 3));
    assert!(MoveRequest::from_event(9, &MoveEvent(None)).is_none());
}

#[test]
fn dispatch_tracks_tasks_in_order() {
    let mut sched = TaskScheduler::new();
    assert_eq!(sched.tracked_count(), 0);
    let t1 = sched.dispatch(req(1, pt(100, 0, 0)));
    let t2 = sched.dispatch(req(2, pt(200, 0, 0)));
    assert_eq!(t1.owner, 1);
    assert_eq!(t2.owner, 2);
    assert!(t1.seq < t2.seq);
    assert_eq!(sched.tracked_count(), 2);
}

#[test]
fn pending_tasks_stay_tracked() {
    let mut sched = TaskScheduler::new();
    sched.dispatch(req(1, pt(100, 0, 0)));
    let out = sched.poll_once(vec![PollStatus::Pending], &vec![1]);
    assert!(out.is_empty());
    assert_eq!(sched.tracked_count(), 1);
}

#[test]
fn finished_task_installs_trimmed_path() {
    let mut sched = TaskScheduler::new();
    sched.dispatch(req(1, pt(1000, 0, 0)));
    let found = MovementPath::new(vec![pt(0, 0, 0), pt(500, 0, 0), pt(1000, 0, 0)]);
    let out = sched.poll_once(vec![PollStatus::Done(Some(found))], &vec![1]);
    assert_eq!(out.len(), 1);
    assert_eq!(sched.tracked_count(), 0);
    match &out[0] {
        Resolution::Install { owner, path } => {
            assert_eq!(*owner, 1);
            // The leading waypoint — the query's start — is dropped.
            assert_eq!(path.len(), 2);
            assert_eq!(path.get(0), pt(500, 0, 0));
            assert_eq!(path.get(1), pt(1000, 0, 0));
        }
        _ => panic!("expected an installation"),
    }
}

#[test]
fn no_path_result_is_reported_not_installed() {
    let mut sched = TaskScheduler::new();
    sched.dispatch(req(3, pt(1000, 0, 0)));
    let out = sched.poll_once(vec![PollStatus::Done(None)], &vec![3]);
    assert_eq!(out.len(), 1);
    assert!(matches!(out[0], Resolution::NoPath { owner: 3 }));
    assert_eq!(sched.tracked_count(), 0);
}

#[test]
fn dead_owner_result_is_discarded() {
    let mut sched = TaskScheduler::new();
    sched.dispatch(req(4, pt(1000, 0, 0)));
    let found = MovementPath::new(vec![pt(0, 0, 0), pt(1000, 0, 0)]);
    let out = sched.poll_once(vec![PollStatus::Done(Some(found))], &vec![7, 8]);
    assert_eq!(out.len(), 1);
    assert!(matches!(out[0], Resolution::MissingOwner { owner: 4 }));
}

#[test]
fn completed_task_is_never_delivered_twice() {
    let mut sched = TaskScheduler::new();
    sched.dispatch(req(1, pt(1000, 0, 0)));
    let found = MovementPath::new(vec![pt(0, 0, 0), pt(1000, 0, 0)]);
    let out = sched.poll_once(vec![PollStatus::Done(Some(found))], &vec![1]);
    assert_eq!(out.len(), 1);
    assert_eq!(sched.tracked_count(), 0);
    // The task is gone from tracking: later polls see nothing to deliver.
    let again = sched.poll_once(vec![], &vec![1]);
    assert!(again.is_empty());
    assert_eq!(sched.tracked_count(), 0);
}

#[test]
fn stale_result_is_discarded_when_both_finish_together() {
    // Two requests for the same owner; both results arrive in one poll.
    // The earlier request is resolved first but discarded as stale; only
    // the newer request's path is installed.
    let mut sched = TaskScheduler::new();
    sched.dispatch(req(1, pt(1000, 0, 0)));
    sched.dispatch(req(1, pt(0, 0, 2000)));
    let path_a = MovementPath::new(vec![pt(0, 0, 0), pt(1000, 0, 0)]);
    let path_b = MovementPath::new(vec![pt(0, 0, 0), pt(0, 0, 2000)]);
    let out = sched.poll_once(
        vec![PollStatus::Done(Some(path_a)), PollStatus::Done(Some(path_b))],
        &vec![1],
    );
    assert_eq!(out.len(), 2);
    assert!(matches!(out[0], Resolution::Stale { owner: 1 }));
    match &out[1] {
        Resolution::Install { owner, path } => {
            assert_eq!(*owner, 1);
            assert_eq!(path.get(0), pt(0, 0, 2000));
        }
        _ => panic!("expected the newer request's path to be installed"),
    }
    assert_eq!(sched.tracked_count(), 0);
}

#[test]
fn stale_result_is_discarded_when_it_finishes_last() {
    // The newer request resolves first; the older one completes a tick
    // later and must not override the movement already in progress.
    let mut sched = TaskScheduler::new();
    sched.dispatch(req(1, pt(1000, 0, 0)));
    sched.dispatch(req(1, pt(0, 0, 2000)));
    let path_b = MovementPath::new(vec![pt(0, 0, 0), pt(0, 0, 2000)]);
    let out = sched.poll_once(
        vec![PollStatus::Pending, PollStatus::Done(Some(path_b))],
        &vec![1],
    );
    assert_eq!(out.len(), 1);
    assert!(matches!(out[0], Resolution::Install { .. }));
    assert_eq!(sched.tracked_count(), 1);

    let path_a = MovementPath::new(vec![pt(0, 0, 0), pt(1000, 0, 0)]);
    let late = sched.poll_once(vec![PollStatus::Done(Some(path_a))], &vec![1]);
    assert_eq!(late.len(), 1);
    assert!(matches!(late[0], Resolution::Stale { owner: 1 }));
    assert_eq!(sched.tracked_count(), 0);
}

#[test]
fn supersession_is_scoped_per_owner() {
    // A newer request from a different owner never stales another owner's
    // result: both installations go through.
    let mut sched = TaskScheduler::new();
    sched.dispatch(req(1, pt(1000, 0, 0)));
    sched.dispatch(req(2, pt(0, 0, 2000)));
    let path_one = MovementPath::new(vec![pt(0, 0, 0), pt(1000, 0, 0)]);
    let path_two = MovementPath::new(vec![pt(0, 0, 0), pt(0, 0, 2000)]);
    let out = sched.poll_once(
        vec![PollStatus::Done(Some(path_one)), PollStatus::Done(Some(path_two))],
        &vec![1, 2],
    );
    assert_eq!(out.len(), 2);
    assert!(matches!(out[0], Resolution::Install { owner: 1, .. }));
    assert!(matches!(out[1], Resolution::Install { owner: 2, .. }));
}

#[test]
fn full_pipeline_moves_entity_to_target() {
    // Request, resolve, install, then run the motion controller to
    // arrival: the entity ends idle near the requested target.
    let mut sched = TaskScheduler::new();
    sched.dispatch(req(1, pt(1000, 0, 0)));
    let found = MovementPath::new(vec![pt(0, 0, 0), pt(500, 0, 0), pt(1000, 0, 0)]);
    let out = sched.poll_once(vec![PollStatus::Done(Some(found))], &vec![1]);
    let mut state = MotionState::idle();
    let mut installed = false;
    for r in out {
        if let Resolution::Install { owner, path } = r {
            assert_eq!(owner, 1);
            state.install(path);
            installed = true;
        }
    }
    assert!(installed);
    let mut pos = pt(0, 0, 0);
    run_to_arrival(&mut state, &mut pos);
    assert_eq!(state.velocity, Velocity { x: 0, y: 0, z: 0 });
    assert_eq!(pos, pt(880, 0, 0));
}
