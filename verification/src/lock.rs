//! The lock word protocol: a reader/writer lock, a mutual-exclusion lock and
//! a spin lock over one atomic word each, and the policy by which a thread
//! that waits for a lock backs off.
//!
//! Nothing here parks a thread. An acquisition either succeeds at once or
//! reports that the lock is held; a release says whether a parked thread is to
//! be woken; `adaptive_lock` says what a waiting thread does between two
//! attempts. The program that embeds the library runs the waiting loop.

use vstd::prelude::*;
use std::sync::atomic::{AtomicBool, AtomicUsize, Ordering};

verus! {

/// The lock word of a lock that nobody holds.
pub const WRITE_FREE: usize = usize::MIN;

/// The lock word of a lock that a writer holds.
pub const WRITE_LOCK: usize = usize::MAX;

/// Attempts that a waiting thread makes before it parks.
pub const MAX_POLL_ITERS: usize = 10;

/// The last attempt after which a waiting thread spins; after later ones it yields.
pub const CPU_BOUND_ITERS: usize = 3;

/// What a lock word says.
#[derive(Debug, Clone, Copy, PartialEq, Eq, Structural)]
pub enum LockState {
    /// Nobody holds the lock.
    Free,
    /// This many readers hold the lock; the number is positive.
    Readers(usize),
    /// A writer holds the lock.
    Writer,
}

/// The state that a lock word stands for. The three cases exclude each other.
pub open spec fn state_of(word: usize) -> LockState {
    if word == WRITE_FREE {
        LockState::Free
    } else if word == WRITE_LOCK {
        LockState::Writer
    } else {
        LockState::Readers(word)
    }
}

/// The lock word after one more reader has taken the lock, if a reader can:
/// the count goes up by one unless a writer holds the lock.
pub open spec fn shared_acquired(word: usize) -> Option<usize> {
    if word == WRITE_LOCK {
        None
    } else {
        Some((word + 1) as usize)
    }
}

/// The lock word after a writer has taken the lock, if a writer can: only a
/// free lock can be taken.
pub open spec fn exclusive_acquired(word: usize) -> Option<usize> {
    if word == WRITE_FREE {
        Some(WRITE_LOCK)
    } else {
        None
    }
}

/// The lock word after one reader has given the lock back.
pub open spec fn shared_released(word: usize) -> usize {
    if word == 0 {
        usize::MAX
    } else {
        (word - 1) as usize
    }
}

/// Whether the reader that gave the lock back was the last one, so that a
/// waiting thread is to be woken.
pub open spec fn last_reader(word: usize) -> bool {
    word == 1
}

/// What a thread does after a failed attempt to take a lock.
#[derive(Debug, Clone, Copy, PartialEq, Eq, Structural)]
pub enum Backoff {
    /// Spin for this many processor hints, then try again.
    Spin(usize),
    /// Give the processor to another thread, then try again.
    Yield,
    /// Park until a release wakes the thread, then start over.
    Wait,
}

/// The back-off at position `iteration` of a round of attempts: spins that
/// double in length up to `CPU_BOUND_ITERS`, then yields up to
/// `MAX_POLL_ITERS`, then a wait.
pub open spec fn backoff_at(iteration: usize) -> Backoff {
    if iteration <= CPU_BOUND_ITERS {
        Backoff::Spin(1usize << iteration)
    } else if iteration < MAX_POLL_ITERS {
        Backoff::Yield
    } else {
        Backoff::Wait
    }
}

/// The position that follows `iteration`: the next one, or the start of a
/// new round after the wait.
pub open spec fn iteration_after(iteration: usize) -> usize {
    if iteration < MAX_POLL_ITERS {
        (iteration + 1) as usize
    } else {
        0
    }
}

/// Readers share the lock: where readers hold it, or nobody, one more reader
/// gets it, and the word then counts one reader more.
pub proof fn lemma_readers_share(word: usize)
    requires
        state_of(word) != LockState::Writer,
        word + 1 < WRITE_LOCK,
    ensures
        shared_acquired(word) is Some,
        state_of(shared_acquired(word).unwrap()) == LockState::Readers((word + 1) as usize),
        shared_released(shared_acquired(word).unwrap()) == word,
{
}

/// A writer excludes everybody: while a writer holds the lock, neither a
/// reader nor a second writer gets it.
pub proof fn lemma_writer_excludes(word: usize)
    requires
        state_of(word) == LockState::Writer,
    ensures
        shared_acquired(word) is None,
        exclusive_acquired(word) is None,
{
}

/// Readers exclude a writer: a writer gets the lock only when nobody holds
/// it, and holds it alone then.
pub proof fn lemma_readers_exclude_writer(word: usize)
    ensures
        exclusive_acquired(word) is Some <==> state_of(word) == LockState::Free,
        exclusive_acquired(word) is Some ==> state_of(exclusive_acquired(word).unwrap())
            == LockState::Writer,
        state_of(word) is Readers ==> exclusive_acquired(word) is None,
{
}

/// The last reader to leave, and only the last, frees the lock and wakes a waiter.
pub proof fn lemma_last_reader(word: usize)
    requires
        state_of(word) is Readers,
    ensures
        last_reader(word) <==> state_of(shared_released(word)) == LockState::Free,
        !last_reader(word) ==> state_of(shared_released(word)) == LockState::Readers(
            (word - 1) as usize,
        ),
{
}

/// The lock word with which a reader takes a lock whose word is `word`.
pub fn shared_acquire(word: usize) -> (next: Option<usize>)
    ensures
        next == shared_acquired(word),
{
    if word == WRITE_LOCK {
        None
    } else {
        Some(word + 1)
    }
}

/// `AtomicUsize::fetch_update` with the reader's step: retries until the word
/// has been replaced by a reader's acquisition of it, or a word is seen that
/// admits no reader. The result is the word seen last: `Ok` of a word that was
/// replaced, `Err` of a word for which the step gave nothing.
#[verifier::external_body]
fn update_shared(lock: &AtomicUsize) -> (seen: Result<usize, usize>)
    ensures
        match seen {
            Ok(word) => shared_acquired(word) is Some,
            Err(word) => shared_acquired(word) is None,
        },
{
    lock.fetch_update(Ordering::Acquire, Ordering::Relaxed, |word| shared_acquire(word))
}

/// `AtomicUsize::fetch_sub`, with release ordering. Gives the word that was
/// there before; it does not panic.
#[verifier::external_body]
fn release_shared(lock: &AtomicUsize, readers: usize) -> (previous: usize)
    opens_invariants none
    no_unwind
{
    lock.fetch_sub(readers, Ordering::Release)
}

/// `AtomicUsize::store` with release ordering; it does not panic.
#[verifier::external_body]
fn release_exclusive(lock: &AtomicUsize, word: usize)
    opens_invariants none
    no_unwind
{
    lock.store(word, Ordering::Release)
}

/// `std::hint::spin_loop`: tells the processor that the thread is spinning.
#[verifier::external_body]
fn spin_loop_hint() {
    std::hint::spin_loop()
}

/// Spins for `iterations` processor hints.
pub fn cpu_relax(iterations: usize) {
    let mut done: usize = 0;
    while done < iterations
        invariant
            done <= iterations,
        decreases iterations - done,
    {
        spin_loop_hint();
        done += 1;
    }
}

/// Whether the reader whose release found `previous` in the lock word is to wake a waiter.
pub fn wakes_after_read(previous: usize) -> (wake: bool)
    ensures
        wake == last_reader(previous),
    opens_invariants none
    no_unwind
{
    previous == 1
}

/// A reader/writer lock around a value. The lock word is `WRITE_FREE`, a
/// positive count of readers, or `WRITE_LOCK`.
pub struct RwLock<T> {
    value: T,
    lock: AtomicUsize,
}

/// The handle of a reader: gives the lock back when it goes out of use.
pub struct SharedLock<'a, T> {
    lock: &'a RwLock<T>,
    seen: Ghost<usize>,
}

/// The handle of a writer: gives the lock back when it goes out of use.
pub struct ExclusiveLock<'a, T> {
    lock: &'a RwLock<T>,
    seen: Ghost<usize>,
}

impl<T> RwLock<T> {
    /// The value that the lock guards.
    pub closed spec fn spec_value(&self) -> T {
        self.value
    }

    /// A free lock around `value`.
    pub fn new(value: T) -> (lock: Self)
        ensures
            lock.spec_value() == value,
    {
        RwLock { value, lock: AtomicUsize::new(WRITE_FREE) }
    }

    /// Frees a lock that a writer holds. A waiter is always to be woken.
    pub fn unlock_write(&self) -> (wake: bool)
        ensures
            wake,
        opens_invariants none
        no_unwind
    {
        release_exclusive(&self.lock, WRITE_FREE);
        true
    }

    /// Takes one reader off the lock. A waiter is to be woken if the reader
    /// was the last one.
    pub fn unlock_read(&self) -> (wake: bool)
        opens_invariants none
        no_unwind
    {
        wakes_after_read(release_shared(&self.lock, 1))
    }

    /// Takes the lock for a writer if nobody holds it, by one exchange of
    /// `WRITE_FREE` for `WRITE_LOCK`. A writer that got the lock found it free.
    pub fn try_lock_write(&self) -> (guard: Option<ExclusiveLock<'_, T>>)
        ensures
            guard is Some ==> guard.unwrap().spec_lock() == self,
            guard is Some ==> state_of(guard.unwrap().seen()) == LockState::Free,
            guard is Some ==> exclusive_acquired(guard.unwrap().seen()) == Some(WRITE_LOCK),
    {
        let seen = self.cas(WRITE_FREE, WRITE_LOCK);
        if Self::granted(seen) {
            Some(ExclusiveLock { lock: self, seen: Ghost(seen->Ok_0) })
        } else {
            None
        }
    }

    /// Takes the lock for one more reader unless a writer holds it. A reader
    /// that got the lock found no writer in it.
    pub fn try_lock_read(&self) -> (guard: Option<SharedLock<'_, T>>)
        ensures
            guard is Some ==> guard.unwrap().spec_lock() == self,
            guard is Some ==> state_of(guard.unwrap().seen()) != LockState::Writer,
    {
        let seen = update_shared(&self.lock);
        if Self::admitted(seen) {
            Some(SharedLock { lock: self, seen: Ghost(seen->Ok_0) })
        } else {
            None
        }
    }

    /// Whether a writer's attempt that ended on `seen` took the lock: it did
    /// exactly if the word it saw was `WRITE_FREE`.
    pub fn granted(seen: Result<usize, usize>) -> (taken: bool)
        requires
            match seen {
                Ok(word) => exclusive_acquired(word) is Some,
                Err(word) => exclusive_acquired(word) is None,
            },
        ensures
            taken == (seen is Ok),
            taken <==> state_of(
                match seen {
                    Ok(word) => word,
                    Err(word) => word,
                },
            ) == LockState::Free,
    {
        seen.is_ok()
    }

    /// Whether a reader's attempt that ended on `seen` took the lock: it did
    /// unless the word it saw last was `WRITE_LOCK`.
    pub fn admitted(seen: Result<usize, usize>) -> (taken: bool)
        requires
            match seen {
                Ok(word) => shared_acquired(word) is Some,
                Err(word) => shared_acquired(word) is None,
            },
        ensures
            taken == (seen is Ok),
            taken <==> state_of(
                match seen {
                    Ok(word) => word,
                    Err(word) => word,
                },
            ) != LockState::Writer,
    {
        seen.is_ok()
    }

    /// `AtomicUsize::compare_exchange`, acquiring on success: replaces the
    /// lock word by `swap_with` exactly if it is `expect`. Gives the word
    /// that was there: `Ok` of `expect` if it was replaced, `Err` of the
    /// other word that was found if not.
    #[verifier::external_body]
    fn cas(&self, expect: usize, swap_with: usize) -> (seen: Result<usize, usize>)
        ensures
            match seen {
                Ok(word) => word == expect,
                Err(word) => word != expect,
            },
    {
        self.lock.compare_exchange(expect, swap_with, Ordering::Acquire, Ordering::Relaxed)
    }

    /// What a thread that waits for the lock does at position `iteration` of
    /// its round, and the position that follows. At the positions below
    /// `MAX_POLL_ITERS` the thread has just failed to take the lock; at
    /// `MAX_POLL_ITERS` it parks without an attempt.
    pub fn adaptive_lock(iteration: usize) -> (step: (Backoff, usize))
        ensures
            step.0 == backoff_at(iteration),
            step.1 == iteration_after(iteration),
    {
        if iteration <= CPU_BOUND_ITERS {
            (Backoff::Spin(1usize << iteration), iteration + 1)
        } else if iteration < MAX_POLL_ITERS {
            (Backoff::Yield, iteration + 1)
        } else {
            (Backoff::Wait, 0)
        }
    }
}

impl<'a, T> SharedLock<'a, T> {
    /// The lock that the handle holds.
    pub closed spec fn spec_lock(&self) -> &'a RwLock<T> {
        self.lock
    }

    /// The lock word that the reader found when it took the lock.
    pub closed spec fn seen(&self) -> usize {
        self.seen@
    }

    /// The guarded value.
    pub fn get(&self) -> (value: &T)
        ensures
            *value == self.spec_lock().spec_value(),
    {
        &self.lock.value
    }
}

impl<'a, T> ExclusiveLock<'a, T> {
    /// The lock that the handle holds.
    pub closed spec fn spec_lock(&self) -> &'a RwLock<T> {
        self.lock
    }

    /// The lock word that the writer found when it took the lock.
    pub closed spec fn seen(&self) -> usize {
        self.seen@
    }

    /// The guarded value.
    pub fn get(&self) -> (value: &T)
        ensures
            *value == self.spec_lock().spec_value(),
    {
        &self.lock.value
    }
}

impl<'a, T> Drop for SharedLock<'a, T> {
    fn drop(&mut self)
        opens_invariants none
        no_unwind
    {
        let _ = self.lock.unlock_read();
    }
}

impl<'a, T> Drop for ExclusiveLock<'a, T> {
    fn drop(&mut self)
        opens_invariants none
        no_unwind
    {
        let _ = self.lock.unlock_write();
    }
}

/// A lock for mutual exclusion: the reader/writer lock without its readers.
pub struct Mutex<T>(RwLock<T>);

impl<T> Mutex<T> {
    /// The value that the lock guards.
    pub closed spec fn spec_value(&self) -> T {
        self.0.spec_value()
    }

    /// A free lock around `value`.
    pub fn new(value: T) -> (lock: Self)
        ensures
            lock.spec_value() == value,
    {
        Mutex(RwLock::new(value))
    }

    /// Takes the lock if nobody holds it.
    pub fn try_lock(&self) -> (guard: Option<ExclusiveLock<'_, T>>)
        ensures
            guard is Some ==> guard.unwrap().spec_lock().spec_value() == self.spec_value(),
            guard is Some ==> state_of(guard.unwrap().seen()) == LockState::Free,
    {
        self.0.try_lock_write()
    }
}

/// A lock of one flag, for threads that wait by spinning.
pub struct Spinlock(AtomicBool);

impl Spinlock {
    /// A free lock.
    pub fn new() -> (lock: Self) {
        Spinlock(AtomicBool::new(false))
    }

    /// Frees the lock.
    pub fn unlock(&self) {
        self.0.store(false, Ordering::Release);
    }

    /// Takes the lock if it is free.
    pub fn try_lock(&self) -> (taken: Option<()>) {
        Self::taken(self.0.swap(true, Ordering::Acquire))
    }

    /// Whether the attempt that found `was_locked` in the flag took the lock.
    pub fn taken(was_locked: bool) -> (taken: Option<()>)
        ensures
            taken is Some <==> !was_locked,
    {
        if was_locked {
            None
        } else {
            Some(())
        }
    }
}

} // verus!
