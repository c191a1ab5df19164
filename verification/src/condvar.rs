//! A condition variable over one memory word, as requests to the
//! address-based wait and wake call of the operating system.
//!
//! The call compares the word with the expected value once more, atomically,
//! before it puts the caller to sleep: a wake-up between the caller's check
//! and its sleep is not lost. No order among the waiters is promised.

use vstd::prelude::*;

verus! {

/// The flag of an operation on a word that one process alone uses.
pub const FUTEX_PRIVATE: i32 = 128;

/// The operation that puts the caller to sleep while the word has the expected value.
pub const FUTEX_WAIT: i32 = 128;

/// The operation that wakes threads which sleep on the word.
pub const FUTEX_WAKE: i32 = 129;

/// Nanoseconds in a second.
pub const NANOS_PER_SECOND: u32 = 1_000_000_000;

/// The timeout, in milliseconds, of a wait that never ends by itself, where
/// the primitive counts in 32 bits.
pub const INFINITE: u32 = 0xffff_ffff;

/// `libc::INT_MAX`: the largest `int` of C, which is the largest `i32`.
#[verifier::external_body]
fn int_max() -> (max: i32)
    ensures
        max == i32::MAX,
{
    libc::INT_MAX
}

/// How long a wait may last.
#[derive(Clone, Copy, Debug, PartialEq, Eq, Structural)]
pub struct Timeout {
    /// Whole seconds.
    pub seconds: u64,
    /// Nanoseconds beyond the whole seconds, less than a second.
    pub nanoseconds: u32,
}

/// One call of the wait and wake primitive on the word of a condition variable.
#[derive(Clone, Copy, Debug, PartialEq, Eq, Structural)]
pub struct FutexRequest {
    /// `FUTEX_WAIT` or `FUTEX_WAKE`.
    pub operation: i32,
    /// For a wait the value that the word is expected to have, for a wake
    /// the number of threads to wake.
    pub value: u32,
    /// For a wait the time after which it ends by itself, if any.
    pub timeout: Option<Timeout>,
}

/// One call of a primitive that has a call of its own for each kind of
/// request, and counts a timeout in milliseconds of 32 bits.
#[derive(Clone, Copy, Debug, PartialEq, Eq, Structural)]
pub enum AddressCall {
    /// Wake one thread that waits on the word.
    WakeSingle,
    /// Wake every thread that waits on the word.
    WakeAll,
    /// Wait on the word for at most this many milliseconds, `INFINITE` for ever.
    Wait(u32),
}

/// The low 32 bits of the whole milliseconds of a timeout.
pub open spec fn millis_of(timeout: Timeout) -> u32 {
    ((timeout.seconds * 1000 + timeout.nanoseconds / 1_000_000) % 0x1_0000_0000) as u32
}

/// The call that stands for a request: a wake of one waiter or of all of
/// them, the latter for every count but one, or a wait with the request's
/// timeout in milliseconds.
pub open spec fn address_call_of(request: FutexRequest) -> AddressCall {
    if request.operation == FUTEX_WAKE {
        if request.value == 1 {
            AddressCall::WakeSingle
        } else {
            AddressCall::WakeAll
        }
    } else {
        AddressCall::Wait(
            match request.timeout {
                Some(timeout) => millis_of(timeout),
                None => INFINITE,
            },
        )
    }
}

impl Timeout {
    /// The low 32 bits of the whole milliseconds of the timeout.
    pub fn millis(&self) -> (millis: u32)
        ensures
            millis == millis_of(*self),
    {
        let low: u64 = self.seconds % 0x1_0000_0000;
        let rest: u64 = (self.nanoseconds / 1_000_000) as u64;
        proof {
            let m = 0x1_0000_0000int;
            vstd::arithmetic::div_mod::lemma_mul_mod_noop_left(self.seconds as int, 1000, m);
            vstd::arithmetic::div_mod::lemma_add_mod_noop(self.seconds * 1000, rest as int, m);
            vstd::arithmetic::div_mod::lemma_add_mod_noop(low * 1000, rest as int, m);
        }
        ((low * 1000 + rest) % 0x1_0000_0000) as u32
    }
}

impl FutexRequest {
    /// The request as a call of a primitive with separate wake and wait calls.
    pub fn address_call(&self) -> (call: AddressCall)
        ensures
            call == address_call_of(*self),
    {
        if self.operation == FUTEX_WAKE {
            if self.value == 1 {
                AddressCall::WakeSingle
            } else {
                AddressCall::WakeAll
            }
        } else {
            match self.timeout {
                Some(timeout) => AddressCall::Wait(timeout.millis()),
                None => AddressCall::Wait(INFINITE),
            }
        }
    }
}

/// A condition variable: a word that threads sleep on until another thread
/// notifies it.
#[derive(Debug, Default)]
pub struct CondVar(u32);

impl CondVar {
    /// The value of the word.
    pub closed spec fn spec_word(&self) -> u32 {
        self.0
    }

    /// A condition variable that nobody waits on.
    pub fn new() -> (condvar: Self)
        ensures
            condvar.spec_word() == 0,
    {
        CondVar(0)
    }

    /// The word, whose address the calls are made on.
    pub fn word(&self) -> (word: &u32)
        ensures
            *word == self.spec_word(),
    {
        &self.0
    }

    /// The request that wakes every waiter.
    pub fn notify_all(&self) -> (request: FutexRequest)
        ensures
            request == (FutexRequest { operation: FUTEX_WAKE, value: 0x7fff_ffff, timeout: None }),
    {
        FutexRequest { operation: FUTEX_WAKE, value: int_max() as u32, timeout: None }
    }

    /// The request that wakes one waiter.
    pub fn notify_one(&self) -> (request: FutexRequest)
        ensures
            request == (FutexRequest { operation: FUTEX_WAKE, value: 1, timeout: None }),
    {
        FutexRequest { operation: FUTEX_WAKE, value: 1, timeout: None }
    }

    /// The request that blocks the caller until a notification.
    pub fn wait(&self) -> (request: FutexRequest)
        ensures
            request == (FutexRequest {
                operation: FUTEX_WAIT,
                value: self.spec_word(),
                timeout: None,
            }),
    {
        FutexRequest { operation: FUTEX_WAIT, value: self.0, timeout: None }
    }

    /// The request that blocks the caller until a notification, or until
    /// `seconds` and `nanoseconds` have passed.
    pub fn wait_timeout(&self, seconds: u64, nanoseconds: u32) -> (request: FutexRequest)
        requires
            nanoseconds < NANOS_PER_SECOND,
        ensures
            request == (FutexRequest {
                operation: FUTEX_WAIT,
                value: self.spec_word(),
                timeout: Some(Timeout { seconds, nanoseconds }),
            }),
    {
        FutexRequest {
            operation: FUTEX_WAIT,
            value: self.0,
            timeout: Some(Timeout { seconds, nanoseconds }),
        }
    }
}

} // verus!
