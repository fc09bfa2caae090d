use utilities::cache::tls::{TakeOutcome, TlsSlot};

#[test]
fn slot_hands_back_what_was_given_back() {
    let mut slot: TlsSlot<Vec<u8>> = TlsSlot::new();
    assert!(!slot.is_held());
    assert_eq!(slot.begin_take(), None);
    assert!(slot.is_held());
    slot.give_back(vec![1, 2, 3]);
    assert!(!slot.is_held());
    assert_eq!(slot.begin_take(), Some(vec![1, 2, 3]));
    assert!(slot.is_held());
}

#[test]
fn failed_takes_release_the_slot() {
    let mut slot: TlsSlot<u32> = TlsSlot::new();
    let _ = slot.begin_take();
    slot.finish_take(TakeOutcome::ResetFailed(7));
    assert!(!slot.is_held());
    assert_eq!(slot.begin_take(), Some(7));
    slot.finish_take(TakeOutcome::NoValue);
    assert!(!slot.is_held());
    assert_eq!(slot.begin_take(), None);
}

#[test]
fn ready_take_keeps_the_slot_held() {
    let mut slot: TlsSlot<u32> = TlsSlot::new();
    let _ = slot.begin_take();
    slot.finish_take(TakeOutcome::Ready);
    assert!(slot.is_held());
    slot.give_back(3);
    assert!(!slot.is_held());
}
