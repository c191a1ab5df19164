use lzr::condvar::{
    AddressCall, CondVar, FutexRequest, Timeout, FUTEX_WAIT, FUTEX_WAKE, INFINITE,
};

#[test]
fn notifications_wake_one_or_all() {
    let condvar = CondVar::new();
    assert_eq!(*condvar.word(), 0);
    assert_eq!(
        condvar.notify_one(),
        FutexRequest { operation: FUTEX_WAKE, value: 1, timeout: None }
    );
    assert_eq!(
        condvar.notify_all(),
        FutexRequest { operation: FUTEX_WAKE, value: i32::MAX as u32, timeout: None }
    );
    assert_eq!(FUTEX_WAKE, 129);
}

#[test]
fn waits_expect_the_word() {
    let condvar = CondVar::new();
    assert_eq!(condvar.wait(), FutexRequest { operation: FUTEX_WAIT, value: 0, timeout: None });
    assert_eq!(
        condvar.wait_timeout(2, 500_000_000),
        FutexRequest {
            operation: FUTEX_WAIT,
            value: 0,
            timeout: Some(Timeout { seconds: 2, nanoseconds: 500_000_000 }),
        }
    );
    assert_eq!(FUTEX_WAIT, 128);
}

#[test]
fn requests_map_to_separate_calls() {
    let condvar = CondVar::new();
    assert_eq!(condvar.notify_one().address_call(), AddressCall::WakeSingle);
    assert_eq!(condvar.notify_all().address_call(), AddressCall::WakeAll);
    assert_eq!(condvar.wait().address_call(), AddressCall::Wait(INFINITE));
    assert_eq!(condvar.wait_timeout(2, 500_000_000).address_call(), AddressCall::Wait(2500));
    assert_eq!(condvar.wait_timeout(0, 999_999).address_call(), AddressCall::Wait(0));
    assert_eq!(INFINITE, u32::MAX);
}

#[test]
fn milliseconds_keep_their_low_32_bits() {
    assert_eq!(Timeout { seconds: 0, nanoseconds: 0 }.millis(), 0);
    assert_eq!(Timeout { seconds: 1, nanoseconds: 1_000_000 }.millis(), 1001);
    assert_eq!(Timeout { seconds: 4_294_967, nanoseconds: 295_000_000 }.millis(), u32::MAX);
    assert_eq!(Timeout { seconds: 4_294_967, nanoseconds: 296_000_000 }.millis(), 0);
    assert_eq!(
        Timeout { seconds: u64::MAX, nanoseconds: 999_999_999 }.millis(),
        ((u64::MAX as u128 * 1000 + 999) % (1u128 << 32)) as u32
    );
}
