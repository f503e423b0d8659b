use futex_locks::sleep::{Nap, Span, LONGEST};

#[test]
fn empty_nap_asks_for_nothing() {
    assert_eq!(Nap::new(0, 0).request(), None);
    assert_eq!(Nap::new(0, -5).request(), None);
}

#[test]
fn short_nap_is_one_call() {
    let nap = Nap::new(3, 500);
    assert_eq!(nap.request(), Some(Span { secs: 3, nsecs: 500 }));
    let nap = nap.after(None);
    assert_eq!(nap, Nap { secs: 0, nsecs: 0 });
    assert_eq!(nap.request(), None);
}

#[test]
fn nap_of_nanoseconds_only() {
    let nap = Nap::new(0, 999_999_999);
    assert_eq!(nap.request(), Some(Span { secs: 0, nsecs: 999_999_999 }));
    assert_eq!(nap.after(None).request(), None);
}

#[test]
fn interrupted_nap_goes_on_with_what_was_left() {
    let nap = Nap::new(10, 0);
    assert_eq!(nap.request(), Some(Span { secs: 10, nsecs: 0 }));
    let nap = nap.after(Some(Span { secs: 4, nsecs: 250 }));
    assert_eq!(nap, Nap { secs: 4, nsecs: 250 });
    assert_eq!(nap.request(), Some(Span { secs: 4, nsecs: 250 }));
    assert_eq!(nap.after(None), Nap { secs: 0, nsecs: 0 });
}

#[test]
fn long_nap_is_cut_into_calls() {
    assert_eq!(LONGEST, i64::MAX as u64);
    let nap = Nap::new(u64::MAX, 7);
    assert_eq!(nap.request(), Some(Span { secs: LONGEST, nsecs: 7 }));
    let nap = nap.after(None);
    assert_eq!(nap, Nap { secs: u64::MAX - LONGEST, nsecs: 0 });
    assert_eq!(nap.request(), Some(Span { secs: LONGEST, nsecs: 0 }));
    let nap = nap.after(Some(Span { secs: LONGEST, nsecs: 1 }));
    assert_eq!(nap, Nap { secs: u64::MAX - LONGEST, nsecs: 1 });
    let nap = nap.after(None);
    assert_eq!(nap, Nap { secs: 1, nsecs: 0 });
    assert_eq!(nap.after(None).request(), None);
}
