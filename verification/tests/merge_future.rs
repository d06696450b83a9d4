use merge_futures::merge_future::{
    get_layout, FuturesMergerMemoryOwner, MergePoll, OpPoll, Operation, WrongLayoutError,
};

/// An operation that stays pending for `polls_left` polls and then either
/// succeeds or fails.
struct TestOp {
    polls_left: u32,
    fail: Option<&'static str>,
}

impl TestOp {
    fn ready() -> Self {
        Self { polls_left: 0, fail: None }
    }

    fn after(polls: u32) -> Self {
        Self { polls_left: polls, fail: None }
    }

    fn failing(msg: &'static str) -> Self {
        Self { polls_left: 0, fail: Some(msg) }
    }
}

impl Operation<&'static str> for TestOp {
    fn poll_once(&mut self) -> OpPoll<&'static str> {
        if self.polls_left > 0 {
            self.polls_left -= 1;
            OpPoll::Pending
        } else {
            match self.fail {
                Some(e) => OpPoll::Failed(e),
                None => OpPoll::Ready,
            }
        }
    }
}

/// A differently shaped operation type, for layout-mismatch tests.
struct WideOp {
    _pad: [u64; 4],
}

impl Operation<&'static str> for WideOp {
    fn poll_once(&mut self) -> OpPoll<&'static str> {
        OpPoll::Ready
    }
}

#[test]
fn empty_batch_resolves_immediately() {
    let mut owner = FuturesMergerMemoryOwner::default();
    let session = owner.borrow::<TestOp>().unwrap();
    let mut handle = session.run();
    assert!(matches!(handle.poll::<&'static str>(), MergePoll::Done));
    handle.finish(&mut owner);
    assert_eq!(owner.capacity(), 0);
    assert_eq!(owner.recorded_layout(), Some(get_layout::<TestOp>()));
}

#[test]
fn scenario_two_ready_one_slow_resolves_in_two_scans() {
    let mut owner = FuturesMergerMemoryOwner::default();
    let mut session = owner.borrow::<TestOp>().unwrap();
    session.push(TestOp::ready());
    session.push(TestOp::after(1));
    session.push(TestOp::ready());
    let mut handle = session.run();
    assert!(matches!(handle.poll::<&'static str>(), MergePoll::Pending));
    assert!(matches!(handle.poll::<&'static str>(), MergePoll::Done));
    handle.finish(&mut owner);
    assert_eq!(owner.capacity(), 3);

    // the next iteration of the same shape reuses the storage: pushing the
    // same number of operations leaves the capacity unchanged
    let mut session = owner.borrow::<TestOp>().unwrap();
    session.push(TestOp::ready());
    session.push(TestOp::ready());
    session.push(TestOp::ready());
    let mut handle = session.run();
    assert!(matches!(handle.poll::<&'static str>(), MergePoll::Done));
    handle.finish(&mut owner);
    assert_eq!(owner.capacity(), 3);
}

#[test]
fn completion_in_any_interleaving() {
    let mut owner = FuturesMergerMemoryOwner::default();
    let mut session = owner.borrow::<TestOp>().unwrap();
    session.push(TestOp::after(3));
    session.push(TestOp::ready());
    session.push(TestOp::after(1));
    session.push(TestOp::after(2));
    let mut handle = session.run();
    // not done until every operation has reported success, and done then
    for _ in 0..3 {
        assert!(matches!(handle.poll::<&'static str>(), MergePoll::Pending));
    }
    assert!(matches!(handle.poll::<&'static str>(), MergePoll::Done));
    handle.finish(&mut owner);
}

#[test]
fn fail_fast_resolves_to_first_failure() {
    let mut owner = FuturesMergerMemoryOwner::default();
    let mut session = owner.borrow::<TestOp>().unwrap();
    // the first operation never becomes ready; the batch must not wait on it
    session.push(TestOp::after(u32::MAX));
    session.push(TestOp::failing("boom"));
    session.push(TestOp::after(u32::MAX));
    let mut handle = session.run();
    match handle.poll::<&'static str>() {
        MergePoll::Failed(e) => assert_eq!(e, "boom"),
        _ => panic!("expected the batch to resolve to the failure"),
    }
    handle.finish(&mut owner);

    // the owner is clean and reusable afterwards
    let session = owner.borrow::<TestOp>().unwrap();
    let mut handle = session.run();
    assert!(matches!(handle.poll::<&'static str>(), MergePoll::Done));
    handle.finish(&mut owner);
}

#[test]
fn layout_mismatch_is_rejected_and_owner_kept() {
    let mut owner = FuturesMergerMemoryOwner::default();
    let mut session = owner.borrow::<TestOp>().unwrap();
    session.push(TestOp::ready());
    let mut handle = session.run();
    assert!(matches!(handle.poll::<&'static str>(), MergePoll::Done));
    handle.finish(&mut owner);

    let err: WrongLayoutError = match owner.borrow::<WideOp>() {
        Err(e) => e,
        Ok(_) => panic!("expected a layout mismatch"),
    };
    assert_eq!(err.old_layout, get_layout::<TestOp>());
    assert_eq!(err.new_layout, get_layout::<WideOp>());

    // the owner still serves the type it committed to
    assert_eq!(owner.recorded_layout(), Some(get_layout::<TestOp>()));
    let session = owner.borrow::<TestOp>().unwrap();
    session.finish(&mut owner);
}

#[test]
fn cancellation_mid_scan_leaves_owner_reusable() {
    let mut owner = FuturesMergerMemoryOwner::default();
    let mut session = owner.borrow::<TestOp>().unwrap();
    session.push(TestOp::after(5));
    session.push(TestOp::ready());
    let mut handle = session.run();
    assert!(matches!(handle.poll::<&'static str>(), MergePoll::Pending));
    // abandon the batch mid-scan, as a cancelled task would
    handle.finish(&mut owner);
    assert_eq!(owner.capacity(), 2);

    // a fresh session behaves as if the prior iteration completed
    let mut session = owner.borrow::<TestOp>().unwrap();
    session.push(TestOp::ready());
    let mut handle = session.run();
    assert!(matches!(handle.poll::<&'static str>(), MergePoll::Done));
    handle.finish(&mut owner);
    assert_eq!(owner.capacity(), 2);
}

#[test]
fn session_finish_without_run_records_layout() {
    let mut owner = FuturesMergerMemoryOwner::default();
    let mut session = owner.borrow::<TestOp>().unwrap();
    session.push(TestOp::ready());
    session.finish(&mut owner);
    assert_eq!(owner.capacity(), 1);
    assert_eq!(owner.recorded_layout(), Some(get_layout::<TestOp>()));
}

#[test]
fn reserve_grows_capacity_ahead_of_pushes() {
    let mut owner = FuturesMergerMemoryOwner::default();
    let mut session = owner.borrow::<TestOp>().unwrap();
    session.reserve(10);
    session.push(TestOp::ready());
    let mut handle = session.run();
    assert!(matches!(handle.poll::<&'static str>(), MergePoll::Done));
    handle.finish(&mut owner);
    assert_eq!(owner.capacity(), 10);
}

#[test]
fn get_layout_reports_size_and_alignment() {
    let l = get_layout::<u64>();
    assert_eq!(l.size, 8);
    assert_eq!(l.align, 8);
    let l = get_layout::<u8>();
    assert_eq!(l.size, 1);
    assert_eq!(l.align, 1);
}

#[test]
fn wrong_layout_error_carries_both_layouts() {
    let e = WrongLayoutError::new(get_layout::<u8>(), get_layout::<u64>());
    assert_eq!(e.old_layout, get_layout::<u8>());
    assert_eq!(e.new_layout, get_layout::<u64>());
}
