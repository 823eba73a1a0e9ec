use mutest::stop::{request, requested, StopRequest};

#[test]
fn a_requested_stop_carries_the_reason_the_analysis_is_being_given_up_on() {
    let mut stop = StopRequest::new();
    assert_eq!(requested(&stop), None);

    request(&mut stop, "another part of the build has already failed".to_owned());

    assert_eq!(requested(&stop), Some("another part of the build has already failed"));
}

#[test]
fn a_stop_keeps_the_first_reason_it_was_asked_for() {
    let mut stop = StopRequest::new();
    request(&mut stop, "first".to_owned());
    request(&mut stop, "second".to_owned());

    assert_eq!(requested(&stop), Some("first"));
}
