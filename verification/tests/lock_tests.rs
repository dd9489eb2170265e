use kvstore::sync::arc::{frees_on_drop, ArcData, CountOp};
use kvstore::sync::rwlock::{LockOp, LockWords, ReadPhase, Seen, WritePhase};

fn acquire_read(words: &LockWords) -> usize {
    let mut phase = ReadPhase::start();
    let mut steps = 0;
    while !phase.is_holding() {
        let seen = words.perform(phase.op());
        phase = phase.advance(seen);
        steps += 1;
        assert!(steps < 100, "an uncontended read lock is taken at once");
    }
    steps
}

fn acquire_write(words: &LockWords) -> usize {
    let mut phase = WritePhase::start();
    let mut steps = 0;
    while !phase.is_holding() {
        let seen = words.perform(phase.op());
        phase = phase.advance(seen);
        steps += 1;
        assert!(steps < 100, "an uncontended write lock is taken at once");
    }
    steps
}

#[test]
fn read_lock_on_a_free_lock() {
    let words = LockWords::new();
    assert_eq!(acquire_read(&words), 3);
    assert_eq!(words.perform(LockOp::LoadReaders), Seen::Count(1));
    words.perform(ReadPhase::Holding.op());
    assert_eq!(words.perform(LockOp::LoadReaders), Seen::Count(0));
}

#[test]
fn write_lock_on_a_free_lock() {
    let words = LockWords::new();
    acquire_write(&words);
    assert_eq!(words.perform(LockOp::LoadWriting), Seen::Flag(true));
    words.perform(WritePhase::Holding.op());
    assert_eq!(words.perform(LockOp::LoadWriting), Seen::Flag(false));
}

#[test]
fn reader_waits_while_writer_holds() {
    let words = LockWords::new();
    acquire_write(&words);
    let phase = ReadPhase::start();
    let seen = words.perform(phase.op());
    assert_eq!(seen, Seen::Flag(true));
    assert_eq!(phase.advance(seen), ReadPhase::AwaitNoWriter);
}

#[test]
fn writer_waits_while_reader_holds() {
    let words = LockWords::new();
    acquire_read(&words);
    let phase = WritePhase::start();
    let seen = words.perform(phase.op());
    assert_eq!(seen, Seen::Count(1));
    assert_eq!(phase.advance(seen), WritePhase::AwaitNoReaders);
}

#[test]
fn reader_withdraws_when_writer_came_in() {
    assert_eq!(ReadPhase::Check.advance(Seen::Flag(true)), ReadPhase::Withdraw);
    assert_eq!(ReadPhase::Withdraw.op(), LockOp::RemoveReader);
    assert_eq!(ReadPhase::Withdraw.advance(Seen::Done), ReadPhase::AwaitNoWriter);
    assert_eq!(ReadPhase::Check.advance(Seen::Flag(false)), ReadPhase::Holding);
}

#[test]
fn writer_retreats_when_reader_came_in() {
    assert_eq!(WritePhase::Confirm.advance(Seen::Count(2)), WritePhase::Retreat);
    assert_eq!(WritePhase::Retreat.op(), LockOp::ClearWriting);
    assert_eq!(WritePhase::Retreat.advance(Seen::Done), WritePhase::AwaitNoReaders);
    assert_eq!(WritePhase::Claim.advance(Seen::Claimed(false)), WritePhase::AwaitNoReaders);
    assert_eq!(WritePhase::Confirm.advance(Seen::Count(0)), WritePhase::Drain);
    assert_eq!(WritePhase::Drain.advance(Seen::Count(0)), WritePhase::Holding);
}

#[test]
fn arc_data_holds_value_with_count_one() {
    let d = ArcData::new("boop");
    assert_eq!(d.value, "boop");
    assert_eq!(d.count.load(std::sync::atomic::Ordering::Relaxed), 1);
}

#[test]
fn arc_count_follows_clones_and_drops() {
    let d = ArcData::new(1);
    for _ in 0..9 {
        assert_eq!(d.perform(CountOp::Increment), None);
    }
    assert_eq!(d.perform(CountOp::Load), Some(10));
    for left in (0..10).rev() {
        assert_eq!(d.perform(CountOp::Decrement), None);
        let count = d.perform(CountOp::Load).unwrap();
        assert_eq!(count, left);
        assert_eq!(frees_on_drop(count), left == 0);
    }
}
