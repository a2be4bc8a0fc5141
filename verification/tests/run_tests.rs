use rsstygen::extract::Field;
use rsstygen::run::{RunEvent, RunPhase, BACKEND_SETTLE_SECS};
use rsstygen::source::Instruction;

#[test]
fn a_run_passes_through_its_phases() {
    let mut phase = RunPhase::new(2);
    assert_eq!(phase, RunPhase::Starting { jobs: 2 });
    phase = phase.advance(RunEvent::BackendStarted);
    assert_eq!(phase, RunPhase::Crawling { unsettled: 2 });
    phase = phase.advance(RunEvent::JobSettled);
    assert_eq!(phase, RunPhase::Crawling { unsettled: 1 });
    phase = phase.advance(RunEvent::JobSettled);
    assert_eq!(phase, RunPhase::Stopping);
    phase = phase.advance(RunEvent::BackendStopped);
    assert_eq!(phase, RunPhase::Materializing);
    phase = phase.advance(RunEvent::FeedsWritten);
    assert_eq!(phase, RunPhase::Finished);
    assert_eq!(BACKEND_SETTLE_SECS, 2);
}

#[test]
fn a_backend_that_does_not_start_aborts_the_run() {
    let phase = RunPhase::new(3).advance(RunEvent::BackendUnavailable);
    assert_eq!(phase, RunPhase::Aborted);
    assert_eq!(phase.advance(RunEvent::BackendStarted), RunPhase::Aborted);
    assert_eq!(phase.advance(RunEvent::JobSettled), RunPhase::Aborted);
}

#[test]
fn a_backend_that_does_not_stop_does_not_end_the_run() {
    let phase = RunPhase::Stopping.advance(RunEvent::BackendStopFailed);
    assert_eq!(phase, RunPhase::Materializing);
}

#[test]
fn a_run_without_jobs_goes_straight_to_stopping() {
    assert_eq!(RunPhase::new(0).advance(RunEvent::BackendStarted), RunPhase::Stopping);
}

#[test]
fn events_out_of_turn_change_nothing() {
    let crawling = RunPhase::Crawling { unsettled: 2 };
    assert_eq!(crawling.advance(RunEvent::BackendStopped), crawling);
    assert_eq!(crawling.advance(RunEvent::FeedsWritten), crawling);
    assert_eq!(RunPhase::new(1).advance(RunEvent::JobSettled), RunPhase::Starting { jobs: 1 });
    assert_eq!(RunPhase::Finished.advance(RunEvent::FeedsWritten), RunPhase::Finished);
    assert_eq!(RunPhase::Materializing.advance(RunEvent::JobSettled), RunPhase::Materializing);
}

#[test]
fn a_source_is_made_from_its_configured_values() {
    let text = |s: &str| Field::Text(String::from(s));
    assert_eq!(
        Instruction::from_fields("Foo", &text("http://x"), &text("ul"), &text("return []")),
        Some(Instruction {
            title: String::from("Foo"),
            url: String::from("http://x"),
            list_node: String::from("ul"),
            js_script: String::from("return []"),
        })
    );
    let loose = Instruction::from_fields("Foo", &Field::Other, &text("ul"), &Field::Other).unwrap();
    assert_eq!(loose.url, "");
    assert_eq!(loose.list_node, "ul");
    assert_eq!(loose.js_script, "");
    assert_eq!(Instruction::from_fields("Foo", &Field::Missing, &text("ul"), &text("s")), None);
    assert_eq!(Instruction::from_fields("Foo", &text("u"), &Field::Missing, &text("s")), None);
    assert_eq!(Instruction::from_fields("Foo", &text("u"), &text("ul"), &Field::Missing), None);
}
