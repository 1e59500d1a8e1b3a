use castbox::mutex::barrier::{Arrival, Barrier};
use castbox::mutex::grutex::{group_state, decode_group_state, GroupTarget, Grutex, GrutexType, WaitQueue};
use castbox::mutex::guards::{MutexG, WatchGuard, WatchGuardMut, WatchGuardRef};
use castbox::mutex::mutex::{
    is_writer_locked, join_readers, readers_count, ExclusiveLocker, Mutex, MutexOp, MutexReply,
    MutexWake, SharedLocker, Word, ONE_READER, ONE_WRITER, READERS_PARKED, UNLOCKED,
    WRITERS_PARKED,
};
use castbox::mutex::rwlock::{enter_exclusive, enter_shared, leave_shared, RwFutex};
use castbox::mutex::thread::{ParkStep, ThreadParker as StateParker, UnparkStep};
use castbox::primitives::attempt::{Attempt, Notify};
use castbox::primitives::backoff::{Backoff, Pause, SPIN_LIMIT, YIELD_LIMIT};
use castbox::primitives::smutex::{
    group_decision, group_sleeps_on, lock_decision, lock_sleeps_on, LockStep, SGuard, SMutex,
};
use castbox::primitives::splcell::SpinLockCell;
use castbox::primitives::thread::ThreadParker;

#[test]
fn single_thread_wait() {
    let mut barrier = Barrier::new();
    assert_eq!(barrier.wait(), Arrival::Passes);
    assert_eq!(barrier.count(), 1);
}

#[test]
fn barrier_releases_with_the_last_arrival() {
    let mut barrier = Barrier::with_capacity(3, 0);
    barrier.clone_ref();
    barrier.clone_ref();
    assert_eq!(barrier.count(), 5);
    assert_eq!(barrier.wait(), Arrival::Sleeps);
    assert_eq!(barrier.wait(), Arrival::Sleeps);
    assert_eq!(barrier.wait(), Arrival::ReleasesAll);
    assert_eq!(barrier.count(), 0);
    assert_eq!(barrier.wait(), Arrival::Passes);
}

#[test]
fn barrier_is_reused_with_its_bucket() {
    let mut barrier = Barrier::with_capacity(2, 1);
    barrier.clone_ref();
    assert_eq!(barrier.wait(), Arrival::Sleeps);
    assert_eq!(barrier.wait(), Arrival::ReleasesAll);
    assert_eq!(barrier.count(), 3);
    assert_eq!(barrier.wait(), Arrival::ReleasesAll);
    assert_eq!(barrier.count(), 3);
}

#[test]
fn barrier_waits_for_an_explicit_release() {
    let mut barrier = Barrier::default();
    for _ in 0..10 {
        barrier.clone_ref();
    }
    for _ in 0..10 {
        assert_eq!(barrier.wait(), Arrival::Sleeps);
    }
    assert_eq!(barrier.count(), 1);
    assert_eq!(barrier.release(), Arrival::ReleasesAll);
    for _ in 0..10 {
        assert!(!barrier.drop_ref());
    }
    assert!(barrier.drop_ref());
}

#[test]
fn barrier_counts_by_what_the_thread_saw() {
    let mut barrier = Barrier::with_capacity(2, 2);
    barrier.clone_ref();
    let first = barrier.look().unwrap();
    let second = barrier.look().unwrap();
    assert_eq!((first, second), (4, 4));
    assert_eq!(barrier.arrive(first), Arrival::Sleeps);
    assert_eq!(barrier.arrive(second), Arrival::ReleasesAll);
    assert_eq!(barrier.count(), 4);
}

#[test]
fn gmutex_refcount_clone_drop() {
    let mut m = Grutex::new();
    assert_eq!(m.get_ref_count(), 1);
    m.clone_ref();
    m.clone_ref();
    assert_eq!(m.get_ref_count(), 3);
    assert!(!m.drop_ref());
    assert!(!m.drop_ref());
    assert_eq!(m.get_ref_count(), 1);
}

#[test]
fn gmutex_is_locked_reflects_state() {
    let mut m = Grutex::new();
    assert!(!m.is_locked_exclusive());
    {
        assert_eq!(m.lock_exclusive(), Attempt::Acquired);
        assert!(m.is_locked_exclusive());
        m.unlock_exclusive();
    }
    assert!(!m.is_locked_exclusive());
}

#[test]
fn unlock_all_group() {
    let mut gm = Grutex::new();

    assert_eq!(gm.lock_group(0), Attempt::Acquired);
    assert_eq!(gm.lock_group(1), Attempt::Acquired);
    assert!(gm.is_locked_group());
    gm.unlock_all_group(None);
    assert!(!gm.is_locked());
}

#[test]
fn atomic_counters_consistency() {
    let mut gm = Grutex::new();

    gm.lock_group(0);
    gm.lock_group(1);
    assert_eq!(gm.get_group_locked_for(0), 1);
    assert_eq!(gm.get_group_locked_for(1), 1);
    assert_eq!(gm.get_group_locked(), 2);

    gm.unlock_group(0);
    assert_eq!(gm.get_group_locked_for(0), 0);
    assert_eq!(gm.get_group_locked(), 1);

    gm.unlock_group(1);
    assert_eq!(gm.get_group_locked(), 0);
}

#[test]
fn grutex_exclusive_and_groups_exclude_each_other() {
    let mut m = Grutex::new();
    assert_eq!(m.lock_exclusive(), Attempt::Acquired);
    assert_eq!(m.lock_group(0), Attempt::MustWait);
    assert_eq!(m.lock_exclusive(), Attempt::MustWait);
    assert_eq!(m.suspend(GrutexType::Exclusive, None), Some(WaitQueue::Exclusive));
    let wake = m.unlock_exclusive();
    assert_eq!(wake.exclusive, Notify::All);
    assert_eq!(wake.groups, GroupTarget::EveryGroup);
    assert_eq!(m.retry_group(0), Attempt::Acquired);
    assert_eq!(m.retry_exclusive(), Attempt::MustWait);
    m.unlock_group(0);
    assert_eq!(m.retry_exclusive(), Attempt::Acquired);
    assert!(m.is_locked_exclusive());
}

#[test]
fn grutex_group_words_name_their_group() {
    assert_eq!(decode_group_state(group_state(0)), None);
    for n in 1..6usize {
        assert_eq!(decode_group_state(group_state(n)), Some(n));
    }
    assert_eq!(decode_group_state(0), None);
}

#[test]
fn grutex_debug_info_counts() {
    let mut m = Grutex::new();
    m.lock_group(2);
    m.lock_group(2);
    m.lock_group(4);
    let info = m.info();
    assert_eq!(info.lockers_total, 3);
    assert_eq!(info.locker_types, 2);
    assert_eq!(info.refs, 1);
    assert!(!info.exclusive);
}

/// Every part that runs in one thread, step by step.
#[test]
fn run_all_tests1() {
    // Three readers come while a writer holds the lock; they leave together,
    // and then a writer takes it.
    let mut m = Mutex::new();
    assert_eq!(m.lock_exclusive(), Attempt::Acquired);
    assert_eq!(m.lock_shared(), Attempt::MustWait);
    assert_eq!(m.unlock_exclusive(), MutexWake::AllReaders);
    assert_eq!(m.retry_shared(), Attempt::Acquired);
    assert_eq!(m.lock_shared(), Attempt::Acquired);
    assert_eq!(m.lock_shared(), Attempt::Acquired);
    assert_eq!(m.lock_exclusive(), Attempt::MustWait);
    assert_eq!(m.unlock_all_shared(), MutexWake::OneWriter);
    assert_eq!(m.retry_exclusive(), Attempt::Acquired);
    m.unlock_exclusive();

    // A hundred readers wait for a writer.
    let mut mutex = Mutex::new();
    mutex.lock_exclusive();
    for _ in 0..100 {
        assert_eq!(mutex.lock_shared(), Attempt::MustWait);
    }
    assert!(!mutex.is_locked_shared());
    assert_eq!(mutex.unlock_exclusive(), MutexWake::AllReaders);
    for _ in 0..100 {
        assert_eq!(mutex.retry_shared(), Attempt::Acquired);
    }
    assert!(mutex.is_locked_shared());

    // Handles.
    let mut m = Mutex::new();
    assert_eq!(m.get_ref_count(), 1);
    m.clone_ref();
    m.clone_ref();
    assert_eq!(m.get_ref_count(), 3);
    m.drop_ref();
    m.drop_ref();
    assert_eq!(m.get_ref_count(), 1);

    // The word tells who holds the lock.
    let mut m = Mutex::new();
    assert!(!m.is_locked_exclusive());
    m.lock_exclusive();
    assert!(m.is_locked_exclusive());
    m.unlock_exclusive();
    assert!(!m.is_locked_exclusive());

    // A writer keeps everybody else out.
    let mut m = Mutex::new();
    m.lock_exclusive();
    assert_eq!(m.lock_shared(), Attempt::MustWait);
    assert_eq!(m.lock_exclusive(), Attempt::MustWait);
    m.unlock_exclusive();
    assert_eq!(m.retry_shared(), Attempt::Acquired);
    m.unlock_shared();
    assert_eq!(m.retry_exclusive(), Attempt::Acquired);
    m.unlock_exclusive();

    // Six readers hold the lock together.
    let mut m = Mutex::new();
    for _ in 0..6 {
        assert_eq!(m.lock_shared(), Attempt::Acquired);
    }
    assert!(m.get_shared_locked() > 1);
    m.unlock_all_shared();
    assert!(!m.is_locked_exclusive());

    // Of two writers one holds the lock.
    let mut m = Mutex::new();
    for _ in 0..50 {
        assert_eq!(m.lock_exclusive(), Attempt::Acquired);
        assert_eq!(m.lock_exclusive(), Attempt::MustWait);
        m.unlock_exclusive();
        assert_eq!(m.retry_exclusive(), Attempt::Acquired);
        m.unlock_exclusive();
    }

    // A writer gets the lock after the last of four readers.
    let mut m = Mutex::new();
    for _ in 0..4 {
        m.lock_shared();
    }
    assert_eq!(m.lock_exclusive(), Attempt::MustWait);
    for i in 0..4 {
        let wake = m.unlock_shared();
        assert_eq!(wake, if i == 3 { MutexWake::OneWriter } else { MutexWake::Nobody });
    }
    assert_eq!(m.retry_exclusive(), Attempt::Acquired);

    // Readers and writers in turn.
    let mut m = Mutex::new();
    for id in 0..8 {
        for i in 0..100 {
            if (id + i) % 3 == 0 {
                assert_eq!(m.lock_exclusive(), Attempt::Acquired);
                m.unlock_exclusive();
            } else {
                assert_eq!(m.lock_shared(), Attempt::Acquired);
                m.unlock_shared();
            }
        }
    }
    assert!(!m.is_locked());
}

#[test]
fn mutex_refcount_clone_drop() {
    let mut m = Mutex::new();
    assert_eq!(m.get_ref_count(), 1);
    m.clone_ref();
    m.clone_ref();
    assert_eq!(m.get_ref_count(), 3);
    assert!(!m.drop_ref());
    assert!(!m.drop_ref());
    assert_eq!(m.get_ref_count(), 1);
    assert!(m.drop_ref());
}

#[test]
fn mutex_is_locked_reflects_state() {
    let mut m = Mutex::new();
    assert!(!m.is_locked_exclusive());
    {
        m.lock_exclusive();
        assert!(m.is_locked_exclusive());
        m.unlock_exclusive();
    }
    assert!(!m.is_locked_exclusive());
}

#[test]
fn mutex_words() {
    assert!(is_writer_locked(ONE_WRITER));
    assert!(is_writer_locked(ONE_WRITER | WRITERS_PARKED));
    assert!(!is_writer_locked(3 * ONE_READER | READERS_PARKED));
    assert_eq!(readers_count(3 * ONE_READER | READERS_PARKED), 3);
    assert_eq!(readers_count(ONE_WRITER), 0);
    assert_eq!(join_readers(UNLOCKED), Some(ONE_READER));
    assert_eq!(join_readers(ONE_WRITER), None);
    assert_eq!(join_readers(ONE_WRITER - ONE_READER), None);
}

#[test]
fn mutex_try_lock_and_sleepers() {
    let mut m = Mutex::new();
    assert!(m.try_lock_exclusive());
    assert!(!m.try_lock_exclusive());
    assert!(!m.try_lock_shared());
    assert_eq!(m.lock_exclusive(), Attempt::MustWait);
    let info = m.info();
    assert!(info.exclusive_locked && info.writers_parked && !info.readers_parked);
    assert_eq!(m.unlock_exclusive(), MutexWake::OneWriter);
    assert!(m.try_lock_shared());
    assert_eq!(m.get_shared_locked(), 1);
}

#[test]
fn mutex_release_prefers_readers() {
    let mut m = Mutex::new();
    m.lock_exclusive();
    m.lock_exclusive();
    m.lock_shared();
    assert_eq!(m.unlock_exclusive(), MutexWake::AllReaders);
    let info = m.info();
    assert!(info.writers_parked && !info.readers_parked);
    assert_eq!(m.retry_shared(), Attempt::Acquired);
    assert_eq!(m.unlock_shared(), MutexWake::OneWriter);
    assert!(!m.is_locked());
}

#[test]
fn mutex_downgrade_leaves_one_reader() {
    let mut m = Mutex::new();
    m.lock_exclusive();
    m.lock_shared();
    assert_eq!(m.downgrade(), MutexWake::AllReaders);
    assert_eq!(m.get_shared_locked(), 1);
    assert!(!m.is_locked_exclusive());
    assert_eq!(m.retry_shared(), Attempt::Acquired);
    assert_eq!(m.get_shared_locked(), 2);
}

#[test]
fn mutex_woken_sleeper_sees_a_new_key() {
    let mut m = Mutex::new();
    m.lock_exclusive();
    m.lock_exclusive();
    let before = m.perform(MutexOp::Load(Word::WritersFutex));
    m.unlock_exclusive();
    let after = m.perform(MutexOp::Load(Word::WritersFutex));
    assert_eq!(before, MutexReply::Value(0));
    assert_eq!(after, MutexReply::Value(1));
}

#[test]
fn exclusive_lockers_interleave() {
    let mut m = Mutex::new();
    let mut a = ExclusiveLocker::start();
    let mut b = ExclusiveLocker::start();
    // Both read a free lock, and then only one of them takes it.
    let reply = m.perform(a.op());
    a.resume(reply);
    let reply = m.perform(b.op());
    b.resume(reply);
    let reply = m.perform(a.op());
    assert_eq!(reply, MutexReply::Exchanged);
    a.resume(reply);
    assert_eq!(a.op(), MutexOp::Finished);
    let reply = m.perform(b.op());
    assert_eq!(reply, MutexReply::NotExchanged(ONE_WRITER));
    b.resume(reply);
    assert!(matches!(b.op(), MutexOp::Rest(_)));
    // The other one rests, and sleeps in the end.
    let mut rests = 0;
    while let MutexOp::Rest(_) = b.op() {
        rests += 1;
        b.resume(MutexReply::Resumed);
    }
    assert_eq!(rests, 11);
    for _ in 0..3 {
        let reply = m.perform(b.op());
        b.resume(reply);
    }
    assert_eq!(b.op(), MutexOp::Sleep { word: Word::WritersFutex, key: 0 });
    assert_eq!(m.unlock_exclusive(), MutexWake::OneWriter);
    b.resume(MutexReply::Resumed);
    while b.op() != MutexOp::Finished {
        let reply = m.perform(b.op());
        b.resume(reply);
    }
    assert!(m.is_locked_exclusive());
}

#[test]
fn shared_locker_waits_for_a_writer() {
    let mut m = Mutex::new();
    m.lock_exclusive();
    let mut r = SharedLocker::start();
    while !matches!(r.op(), MutexOp::Sleep { .. }) {
        let reply = m.perform(r.op());
        r.resume(reply);
    }
    assert!(m.info().readers_parked);
    m.unlock_exclusive();
    r.resume(MutexReply::Resumed);
    while r.op() != MutexOp::Finished {
        let reply = m.perform(r.op());
        r.resume(reply);
    }
    assert_eq!(m.get_shared_locked(), 1);
}

#[test]
fn rwfutex_modes() {
    let mut l = RwFutex::new();
    assert_eq!(l.lock_shared(), Attempt::Acquired);
    assert_eq!(l.lock_shared(), Attempt::Acquired);
    assert_eq!(l.readers(), 4);
    assert_eq!(l.lock_exclusive(), Attempt::MustWait);
    assert!(!l.unlock_shared());
    assert!(l.unlock_shared());
    assert_eq!(l.lock_exclusive(), Attempt::Acquired);
    assert!(l.is_writer_locked());
    assert_eq!(l.lock_shared(), Attempt::MustWait);
    let info = l.info();
    assert!(info.writer_locked);
    assert_eq!(info.readers, 0);
    l.unlock_exclusive();
    assert!(!l.is_writer_locked());
}

#[test]
fn rwfutex_words() {
    assert_eq!(enter_exclusive(0), Some(1));
    assert_eq!(enter_exclusive(2), None);
    assert_eq!(enter_shared(4), Some(6));
    assert_eq!(enter_shared(1), None);
    assert_eq!(leave_shared(4), 2);
    assert_eq!(leave_shared(5), 3);
}

#[test]
fn smutex_modes() {
    let mut m = SMutex::new();
    assert!(m.lock().is_some());
    assert!(m.is_locked());
    assert!(m.lock().is_none());
    assert!(m.lock_group().is_none());
    m.raw_unlock();
    assert_eq!(m.raw_lock_group(), Attempt::Acquired);
    assert!(!m.is_locked());
    assert_eq!(m.raw_lock(), Attempt::MustWait);
    assert_eq!(m.raw_lock_group(), Attempt::Acquired);
    m.raw_unlock_group();
    assert_eq!(m.raw_lock(), Attempt::Acquired);
}

#[test]
fn smutex_guards_give_back_their_mode() {
    let mut m = SMutex::new();
    let guard = m.lock().unwrap();
    guard.unlock(&mut m);
    assert!(!m.is_locked());
    assert_eq!(guard.lock(&mut m), Attempt::Acquired);
    guard.unlock(&mut m);
    let group = SGuard::new_group();
    assert_eq!(group.lock(&mut m), Attempt::Acquired);
    assert_eq!(m.raw_lock(), Attempt::MustWait);
    group.unlock(&mut m);
    assert_eq!(m.raw_lock(), Attempt::Acquired);
}

#[test]
fn smutex_decisions() {
    assert_eq!(lock_decision(0, false), LockStep::Take { current: 0, new: 1 });
    assert_eq!(lock_decision(1, false), LockStep::Snooze);
    assert_eq!(lock_decision(1, true), LockStep::Sleep { key: 1 });
    assert_eq!(lock_decision(2, true), LockStep::Reload);
    assert!(lock_sleeps_on(1));
    assert!(!lock_sleeps_on(3));
    assert_eq!(group_decision(0, false), LockStep::Take { current: 0, new: 2 });
    assert_eq!(group_decision(3, true), LockStep::Sleep { key: 3 });
    assert_eq!(group_decision(1, false), LockStep::Snooze);
    assert!(group_sleeps_on(3));
    assert!(!group_sleeps_on(2));
}

#[test]
fn spin_lock_cell() {
    let mut cell = SpinLockCell::new(5);
    assert_eq!(cell.lock(), Attempt::Acquired);
    assert_eq!(cell.lock(), Attempt::MustWait);
    *cell.get_mut_ref() += 1;
    cell.release();
    assert_eq!(cell.lock(), Attempt::Acquired);
    assert_eq!(*cell.get_ref(), 6);
}

#[test]
fn thread_test_unpark_before_park() {
    let (mut shared, parker, unparker) = ThreadParker::new();
    assert!(!unparker.unpark(&mut shared));
    assert_eq!(parker.park(&mut shared), Attempt::Acquired);

    let mut parker = StateParker::new();
    assert_eq!(parker.unpark(), UnparkStep::Goes);
    assert_eq!(parker.park(true), ParkStep::Goes);
}

#[test]
fn thread_test_multiple_tokens() {
    let (mut shared, parker, unparker) = ThreadParker::new();
    unparker.unpark(&mut shared);
    unparker.unpark(&mut shared);
    assert_eq!(parker.park(&mut shared), Attempt::Acquired);
    assert_eq!(parker.park(&mut shared), Attempt::Acquired);

    let mut parker = StateParker::new();
    parker.unpark();
    parker.unpark();
    assert_eq!(parker.park(true), ParkStep::Goes);
    assert_eq!(parker.park(true), ParkStep::Goes);
}

#[test]
fn parker_sleeps_without_a_token() {
    let (mut shared, parker, unparker) = ThreadParker::new();
    assert_eq!(parker.park(&mut shared), Attempt::Acquired);
    assert_eq!(parker.park(&mut shared), Attempt::MustWait);
    assert!(unparker.unpark(&mut shared));
    assert_eq!(parker.park(&mut shared), Attempt::Acquired);
    assert!(!shared.drop_ref());
    assert!(shared.drop_ref());
}

#[test]
fn state_parker_blocks_without_a_token() {
    let mut parker = StateParker::new();
    assert_eq!(parker.park(true), ParkStep::Goes);
    assert_eq!(parker.park(true), ParkStep::Spins);
    assert_eq!(parker.park(true), ParkStep::Sleeps);
    assert_eq!(parker.unpark(), UnparkStep::Wakes);
    parker.woken();
    assert_eq!(parker.park(true), ParkStep::Goes);
    assert_eq!(parker.unpark_step(), UnparkStep::Goes);

    let mut other = StateParker::new();
    other.park(false);
    assert_eq!(other.park(false), ParkStep::Spins);
    assert_eq!(other.unpark(), UnparkStep::Spins);
    assert_eq!(other.park(false), ParkStep::Goes);
    assert_eq!(other.unpark_step(), UnparkStep::Goes);
    other.park(false);
    assert_eq!(other.park(false), ParkStep::Wakes);
    assert_eq!(other.settle(false), ParkStep::Spins);
}

#[test]
fn guards_hold_and_give_back() {
    let mut m = Mutex::new();
    let mut data = 41;
    m.lock_exclusive();
    {
        let mut guard = WatchGuardMut::new(&mut data, &mut m);
        assert!(guard.is_locked());
        *guard.deref_mut() += 1;
        assert!(guard.eq(&42));
        assert_eq!(guard.unlock(), MutexWake::Nobody);
    }
    assert_eq!(data, 42);
    m.lock_shared();
    {
        let guard = WatchGuardRef::new(&data, &mut m);
        assert!(!guard.is_locked());
        assert_eq!(*guard.deref(), 42);
        assert!(guard.eq(&42));
        guard.unlock();
    }
    m.lock_exclusive();
    {
        let mut guard = WatchGuard::new(&mut data, &mut m);
        assert!(guard.is_locked());
        *guard.deref_mut() = 1;
        assert_eq!(*guard.deref(), 1);
        guard.unlock();
    }
    assert!(!m.is_locked());
}

#[test]
fn value_behind_a_mutex() {
    let mut g = MutexG::new(String::from("hello"));
    {
        let mut guard = g.lock_exclusive().unwrap();
        guard.deref_mut().push_str(":1");
        guard.unlock();
    }
    let guard = g.lock_shared().unwrap();
    assert_eq!(guard.deref(), "hello:1");
    // The guard is not given back, so a writer has to wait.
    assert!(g.lock_exclusive().is_none());
    assert!(g.lock_shared().is_some());
}

#[test]
fn backoff_doubles_yields_and_completes() {
    let mut b = Backoff::new();
    for step in 0..=SPIN_LIMIT {
        assert_eq!(b.is_yielding(), step >= SPIN_LIMIT);
        assert_eq!(b.snooze(), Pause::Spin(1 << step));
    }
    assert!(b.is_yielding());
    for _ in SPIN_LIMIT + 1..=YIELD_LIMIT {
        assert!(!b.is_completed());
        assert_eq!(b.snooze(), Pause::Yield);
    }
    assert!(b.is_completed());
    b.reset();
    assert_eq!(b.spin(), 1);
    assert_eq!(b.spin(), 2);
    b.yielder();
    assert!(b.is_yielding());
    assert_eq!(Backoff::cpu_relax(0), Pause::Spin(2));
    assert_eq!(Backoff::cpu_relax(3), Pause::Yield);
    assert_eq!(Backoff::cpu_relax(10), Pause::Skip);
}

#[test]
fn grutex_wakes_by_kind_and_group() {
    let mut m = Grutex::new();
    assert_eq!(m.wake(GrutexType::Group, None), WaitQueue::Shared);
    assert_eq!(m.lock_group(2), Attempt::Acquired);
    let all = m.wake_all(GrutexType::Exclusive, Some(2));
    assert_eq!((all.exclusive, all.groups, all.shared), (Notify::All, GroupTarget::NoGroup, false));
    let one = m.wake_all(GrutexType::Group, Some(2));
    assert_eq!((one.groups, one.shared), (GroupTarget::OneGroup(2), false));
    let unknown = m.wake_all(GrutexType::Group, Some(9));
    assert_eq!((unknown.groups, unknown.shared), (GroupTarget::NoGroup, true));
    let every = m.wake_all(GrutexType::Group, None);
    assert_eq!((every.groups, every.shared), (GroupTarget::EveryGroup, true));
    assert_eq!(m.wake(GrutexType::Group, None), WaitQueue::Group(2));
    assert_eq!(m.wake(GrutexType::Group, Some(9)), WaitQueue::Shared);
    assert_eq!(m.wake(GrutexType::Exclusive, None), WaitQueue::Exclusive);
}

#[test]
fn a_guard_compares_with_another_type() {
    let mut lock = Mutex::new();
    let mut text = String::from("hello");
    lock.lock_exclusive();
    let guard = WatchGuardMut::new(&mut text, &mut lock);
    assert!(guard.eq(&"hello"));
    assert!(!guard.eq(&"world"));
    guard.unlock();
}
