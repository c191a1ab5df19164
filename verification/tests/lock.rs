use std::sync::atomic::{AtomicUsize, Ordering};

use lzr::lock::{
    cpu_relax, shared_acquire, wakes_after_read, Backoff, Mutex, RwLock, Spinlock, WRITE_FREE,
    WRITE_LOCK,
};

#[test]
fn test_rwlock_read_lock() {
    let rwlock = RwLock::new(());

    {
        let _first = rwlock.try_lock_read().unwrap();
        let _second = rwlock.try_lock_read().unwrap();
        assert!(rwlock.try_lock_write().is_none());
    }

    assert!(rwlock.try_lock_write().is_some());
}

#[test]
fn test_rwlock_write_lock() {
    let rwlock = RwLock::new(());

    {
        let _writer = rwlock.try_lock_write().unwrap();
        assert!(rwlock.try_lock_read().is_none());
    }

    assert!(rwlock.try_lock_read().is_some());
}

#[test]
fn spinlock_admits_one_holder() {
    let mutex = Spinlock::new();

    assert!(mutex.try_lock().is_some());
    assert!(mutex.try_lock().is_none());
    mutex.unlock();
    assert!(mutex.try_lock().is_some());
    mutex.unlock();
    assert_eq!(Spinlock::taken(false), Some(()));
    assert_eq!(Spinlock::taken(true), None);
}

#[test]
fn last_reader_wakes_a_waiter() {
    let rwlock = RwLock::new(7u32);
    let first = rwlock.try_lock_read().unwrap();
    let second = rwlock.try_lock_read().unwrap();
    assert_eq!(*first.get(), 7);
    assert_eq!(*second.get(), 7);
    std::mem::forget(first);
    std::mem::forget(second);
    assert!(!rwlock.unlock_read());
    assert!(rwlock.try_lock_write().is_none());
    assert!(rwlock.unlock_read());
    let writer = rwlock.try_lock_write().unwrap();
    assert_eq!(*writer.get(), 7);
    std::mem::forget(writer);
    assert!(rwlock.try_lock_read().is_none());
    assert!(rwlock.unlock_write());
    assert!(rwlock.try_lock_read().is_some());
}

#[test]
fn mutex_admits_one_holder() {
    let mutex = Mutex::new(5u8);
    {
        let guard = mutex.try_lock().unwrap();
        assert_eq!(*guard.get(), 5);
        assert!(mutex.try_lock().is_none());
    }
    assert!(mutex.try_lock().is_some());
}

#[test]
fn lock_word_counts_readers() {
    assert_eq!(WRITE_FREE, 0);
    assert_eq!(WRITE_LOCK, usize::MAX);
    assert_eq!(shared_acquire(WRITE_FREE), Some(1));
    assert_eq!(shared_acquire(41), Some(42));
    assert_eq!(shared_acquire(WRITE_LOCK), None);
    assert!(wakes_after_read(1));
    assert!(!wakes_after_read(2));
    assert!(RwLock::<()>::admitted(Ok(3)));
    assert!(!RwLock::<()>::admitted(Err(WRITE_LOCK)));
    assert!(RwLock::<()>::granted(Ok(WRITE_FREE)));
    assert!(!RwLock::<()>::granted(Err(1)));
    assert!(!RwLock::<()>::granted(Err(WRITE_LOCK)));
}

#[test]
fn waiting_spins_then_yields_then_parks() {
    let expected = [
        Backoff::Spin(1),
        Backoff::Spin(2),
        Backoff::Spin(4),
        Backoff::Spin(8),
        Backoff::Yield,
        Backoff::Yield,
        Backoff::Yield,
        Backoff::Yield,
        Backoff::Yield,
        Backoff::Yield,
        Backoff::Wait,
    ];
    let mut iteration = 0;
    for step in expected {
        let (action, next) = RwLock::<()>::adaptive_lock(iteration);
        assert_eq!(action, step);
        iteration = next;
    }
    assert_eq!(iteration, 0);
    cpu_relax(8);
}

#[test]
fn exclusive_lock_loses_no_update() {
    const HOLDERS: usize = 4;
    const ROUNDS: usize = 2000;
    let mutex = Mutex::new(AtomicUsize::new(0));
    for _ in 0..ROUNDS {
        for _ in 0..HOLDERS {
            let guard = mutex.try_lock().unwrap();
            assert!(mutex.try_lock().is_none());
            let counter = guard.get();
            let seen = counter.load(Ordering::Relaxed);
            counter.store(seen + 1, Ordering::Relaxed);
        }
    }
    let guard = mutex.try_lock().unwrap();
    assert_eq!(guard.get().load(Ordering::Relaxed), HOLDERS * ROUNDS);
}

#[test]
fn readers_hold_the_lock_together() {
    let rwlock = RwLock::new(());
    let first = rwlock.try_lock_read();
    let second = rwlock.try_lock_read();
    assert!(first.is_some() && second.is_some());
    assert!(rwlock.try_lock_write().is_none());
    drop(first);
    assert!(rwlock.try_lock_write().is_none());
    assert!(rwlock.try_lock_read().is_some());
    drop(second);
    let writer = rwlock.try_lock_write();
    assert!(writer.is_some());
    assert!(rwlock.try_lock_read().is_none());
    assert!(rwlock.try_lock_write().is_none());
}
