use typed_openapi::transport::{Outcome, RecorderError, Recording, Reply, Script};

#[derive(Debug, PartialEq)]
enum Answer {
    Body(&'static str),
    Failure(&'static str),
}

fn queued(reply: Reply<Answer>) -> Answer {
    match reply {
        Reply::Queued(answer) => answer,
        other => panic!("an answer was queued, not {:?}", other),
    }
}

#[test]
fn answers_queued_for_one_route_come_back_in_the_order_they_were_queued() {
    let mut script = Script::new();
    script.queue_for("GET", "/vouchers", Answer::Body("first"));
    script.queue_for("GET", "/vouchers", Answer::Body("second"));
    script.queue_for("GET", "/vouchers", Answer::Body("[]"));
    let pages: Vec<Answer> = (0..3).map(|_| queued(script.reply("GET", "/vouchers", false))).collect();
    assert_eq!(pages, [Answer::Body("first"), Answer::Body("second"), Answer::Body("[]")]);
}

#[test]
fn a_route_is_answered_from_its_own_queue_and_not_from_another_routes() {
    let mut script = Script::new();
    script.queue_for("GET", "/vouchers", Answer::Body("the list"));
    script.queue_for("POST", "/vouchers", Answer::Body("the new one"));
    assert_eq!(queued(script.reply("POST", "/vouchers", false)), Answer::Body("the new one"));
    assert_eq!(queued(script.reply("GET", "/vouchers", false)), Answer::Body("the list"));
}

#[test]
fn a_route_with_nothing_queued_falls_back_to_anything_and_then_to_the_default() {
    let mut script = Script::new();
    script.queue_for_anything(Answer::Body("whatever you asked"));
    assert_eq!(queued(script.reply("GET", "/vouchers", false)), Answer::Body("whatever you asked"));
    assert!(matches!(script.reply("GET", "/vouchers", false), Reply::Default));
}

#[test]
fn a_route_with_something_queued_leaves_the_anything_queue_alone() {
    let mut script = Script::new();
    script.queue_for("GET", "/vouchers", Answer::Body("for the route"));
    script.queue_for_anything(Answer::Body("for anything"));
    assert_eq!(queued(script.reply("GET", "/vouchers", false)), Answer::Body("for the route"));
    assert_eq!(script.unused(), 1);
    assert_eq!(script.anything_left(), 1);
}

#[test]
fn two_failures_are_told_apart_by_the_messages_they_were_queued_with() {
    let mut script = Script::new();
    script.queue_for("POST", "/vouchers", Answer::Failure("the request never left"));
    script.queue_for_anything(Answer::Failure("the request left and nothing came back"));
    assert_eq!(queued(script.reply("POST", "/vouchers", false)), Answer::Failure("the request never left"));
    assert_eq!(
        queued(script.reply("GET", "/vouchers", false)),
        Answer::Failure("the request left and nothing came back")
    );
    let error = RecorderError::scripted("the request never left");
    assert_eq!(error.message(), "the request never left");
}

#[test]
fn what_is_left_unused_is_something_a_test_can_ask_about() {
    let mut script = Script::new();
    script.queue_for("GET", "/a", Answer::Body("one"));
    script.queue_for("GET", "/a", Answer::Body("two"));
    script.queue_for("DELETE", "/b", Answer::Body("three"));
    script.queue_for_anything(Answer::Body("four"));
    assert_eq!(script.unused(), 4);
    let _ = script.reply("GET", "/a", false);
    assert_eq!(script.unused(), 3);
    let held = script.held();
    assert_eq!(held, vec![("GET".to_owned(), "/a".to_owned(), 1), ("DELETE".to_owned(), "/b".to_owned(), 1)]);
}

#[test]
fn a_strict_script_refuses_what_nobody_queued() {
    let mut script: Script<Answer> = Script::new();
    assert!(matches!(script.reply("GET", "/vouchers", true), Reply::Unscripted));
    assert!(matches!(script.reply("GET", "/vouchers", false), Reply::Default));
    assert_eq!(script.unused(), 0);
}

#[test]
fn a_recording_keeps_every_request_whatever_it_is_given() {
    let mut recording: Recording<&'static str, u16> = Recording::new();
    recording.queue_for("GET", "/vouchers", typed_openapi::transport::Answer::Response(201));
    recording.queue_for_anything(typed_openapi::transport::Answer::Failure("gateway down".to_owned()));
    assert_eq!(recording.unused(), 2);
    assert!(matches!(recording.answer("first", "GET", "/vouchers", false), Outcome::Answered(201)));
    match recording.answer("second", "GET", "/vouchers", false) {
        Outcome::Failed(error) => assert_eq!(error.message(), "gateway down"),
        other => panic!("the failure queued for anything, not {:?}", other),
    }
    assert!(matches!(recording.answer("third", "POST", "/vouchers", false), Outcome::Default));
    assert!(matches!(recording.answer("fourth", "POST", "/vouchers", true), Outcome::Unscripted));
    assert_eq!(recording.unused(), 0);
    assert_eq!(recording.take(), vec!["first", "second", "third", "fourth"]);
    assert!(recording.take().is_empty());
}

#[test]
fn a_recording_reports_what_it_still_holds() {
    let mut recording: Recording<(), u16> = Recording::new();
    recording.queue_for("GET", "/a", typed_openapi::transport::Answer::Response(200));
    recording.queue_for("GET", "/a", typed_openapi::transport::Answer::Response(200));
    recording.queue_for_anything(typed_openapi::transport::Answer::Response(204));
    assert_eq!(recording.held(), vec![("GET".to_owned(), "/a".to_owned(), 2)]);
    assert_eq!(recording.anything_left(), 1);
}
