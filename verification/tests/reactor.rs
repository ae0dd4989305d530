use mini_lmk::reactor::{after_hangup, after_read, after_reap, after_wait, drain_again, ReadError, ReadStep, ReapStep, WaitStep};

#[test]
fn waiting() {
    assert_eq!(after_wait(2, false, true), WaitStep::Handle(2));
    assert_eq!(after_wait(0, false, false), WaitStep::Handle(0));
    assert_eq!(after_wait(-1, true, true), WaitStep::Again);
    assert_eq!(after_wait(-1, true, false), WaitStep::Stop);
    assert_eq!(after_wait(-1, false, true), WaitStep::Fatal);
    assert_eq!(after_wait(-1, false, false), WaitStep::Fatal);
}

#[test]
fn reading() {
    for running in [true, false] {
        assert_eq!(after_read(5, ReadError::Other, running), ReadStep::Take(5));
        assert_eq!(after_read(-1, ReadError::WouldBlock, running), ReadStep::Done);
        assert_eq!(after_read(-1, ReadError::Other, running), ReadStep::FatalError);
    }
    assert_eq!(after_read(0, ReadError::Other, true), ReadStep::FatalEnd);
    assert_eq!(after_read(0, ReadError::Other, false), ReadStep::Done);
    assert_eq!(after_read(-1, ReadError::Interrupted, true), ReadStep::Again);
    assert_eq!(after_read(-1, ReadError::Interrupted, false), ReadStep::Done);
}

#[test]
fn draining() {
    assert!(drain_again(1, ReadError::Other));
    assert!(drain_again(-1, ReadError::Interrupted));
    assert!(!drain_again(0, ReadError::Interrupted));
    assert!(!drain_again(-1, ReadError::WouldBlock));
    assert!(!drain_again(-1, ReadError::Other));
}

#[test]
fn children() {
    assert_eq!(after_reap(0, 7, true), ReapStep::Done);
    assert_eq!(after_reap(-1, -1, true), ReapStep::Done);
    assert_eq!(after_reap(8, 7, true), ReapStep::Again);
    assert_eq!(after_reap(7, 7, true), ReapStep::Fatal);
    assert_eq!(after_reap(7, 7, false), ReapStep::Done);
    assert_eq!(after_hangup(true), ReapStep::Fatal);
    assert_eq!(after_hangup(false), ReapStep::Done);
}
