use enumerate::{Advance, Enumerate};

#[test]
fn fresh_adapter_starts_at_zero() {
    let ad = Enumerate::new(String::from("child"));
    assert_eq!(ad.count(), 0);
    assert_eq!(ad.get_ref(), "child");
}

#[test]
fn yields_three_strings_with_indices() {
    let mut ad = Enumerate::new(String::from("child"));
    assert_eq!(
        ad.advance(Advance::Item(String::from("a"))),
        Advance::Item((0, String::from("a")))
    );
    assert_eq!(
        ad.advance(Advance::Item(String::from("b"))),
        Advance::Item((1, String::from("b")))
    );
    assert_eq!(
        ad.advance(Advance::Item(String::from("c"))),
        Advance::Item((2, String::from("c")))
    );
    for _ in 0..4 {
        assert_eq!(ad.advance(Advance::<String>::Done), Advance::Done);
    }
    assert_eq!(ad.count(), 3);
}

#[test]
fn immediately_exhausted_child_keeps_count_zero() {
    let mut ad = Enumerate::new(0u8);
    assert_eq!(ad.advance(Advance::<u32>::Done), Advance::Done);
    assert_eq!(ad.count(), 0);
    assert_eq!(ad.advance(Advance::<u32>::Done), Advance::Done);
    assert_eq!(ad.count(), 0);
}

#[test]
fn three_suspensions_then_first_element() {
    let mut ad = Enumerate::new(0u8);
    for _ in 0..3 {
        assert_eq!(ad.advance(Advance::<u32>::Pending), Advance::Pending);
        assert_eq!(ad.count(), 0);
    }
    assert_eq!(ad.advance(Advance::Item(99u32)), Advance::Item((0, 99)));
    assert_eq!(ad.count(), 1);
}

#[test]
fn suspensions_between_elements_leave_no_gaps() {
    let mut ad = Enumerate::new(0u8);
    assert_eq!(ad.advance(Advance::Item(10u32)), Advance::Item((0, 10)));
    assert_eq!(ad.advance(Advance::<u32>::Pending), Advance::Pending);
    assert_eq!(ad.advance(Advance::<u32>::Pending), Advance::Pending);
    assert_eq!(ad.advance(Advance::Item(20u32)), Advance::Item((1, 20)));
    assert_eq!(ad.advance(Advance::<u32>::Pending), Advance::Pending);
    assert_eq!(ad.advance(Advance::Item(30u32)), Advance::Item((2, 30)));
    assert_eq!(ad.advance(Advance::<u32>::Done), Advance::Done);
    assert_eq!(ad.count(), 3);
}

#[test]
fn into_inner_returns_the_owned_child() {
    let mut ad = Enumerate::new(String::from("child"));
    ad.advance(Advance::Item(7u64));
    ad.advance(Advance::Item(8u64));
    assert_eq!(ad.into_inner(), "child");
}

#[test]
fn get_mut_reaches_the_owned_child() {
    let mut ad = Enumerate::new(String::from("before"));
    *ad.get_mut() = String::from("after");
    assert_eq!(ad.get_ref(), "after");
    assert_eq!(ad.count(), 0);
    assert_eq!(ad.into_inner(), "after");
}

#[test]
fn termination_query_is_forwarded_unchanged() {
    let ad = Enumerate::new(0u8);
    assert!(!ad.is_terminated(false));
    assert!(ad.is_terminated(true));
}

#[test]
fn consumer_answers_pass_through_verbatim() {
    let mut ad = Enumerate::new(0u8);
    ad.advance(Advance::Item(1u32));
    let ok: Result<(), String> = Ok(());
    assert_eq!(ad.forward_consumer(ok), Ok(()));
    let err: Result<(), String> = Err(String::from("sink failure"));
    assert_eq!(ad.forward_consumer(err), Err(String::from("sink failure")));
    assert_eq!(ad.count(), 1);
}
