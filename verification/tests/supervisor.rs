use std::time::{Duration, Instant};

use mutest::exit_code::{analysis_completed, read, record_exit, record_start, worst, BASELINE_FAILED, MISSED, PANIC, USAGE};
use mutest::fn_return_default::{replacements, ReturnType};
use mutest::supervisor::{
    children, crash_report, crashed_mutations, describe_end, exit_code_of,
    must_exit_without_supervisor, parent_pid_of_stat, parse_supervisor_pid, run_start_before,
    next_reap_action, ProcEntry, ReapAction, ReapEvent, SignalState, WorkerStatus,
};

const SIGINT: i32 = 2;
const SIGKILL: i32 = 9;
const STOP_SIGNALS: [i32; 4] = [1, 2, 3, 15];

fn exited(code: i32) -> WorkerStatus {
    WorkerStatus { signal: None, code: Some(code) }
}

fn killed(signal: i32) -> WorkerStatus {
    WorkerStatus { signal: Some(signal), code: None }
}

#[test]
fn a_worker_times_what_it_does_from_when_the_run_started() {
    let now = Instant::now();

    assert_eq!(run_start_before(now, "1500000000"), now.checked_sub(Duration::from_millis(1500)));
    assert_eq!(run_start_before(now, "soon"), None);
}

#[test]
fn a_stop_requested_between_workers_reaches_no_process_and_starts_no_worker() {
    let mut signals = SignalState::new();
    assert_eq!(signals.may_start(), Ok(()));
    assert_eq!(signals.started(4242), None);
    signals.reaping();
    assert_eq!(signals.worker_pid, 0, "a stop would be forwarded to the reaped worker's id");

    // As the handler runs for a Ctrl+C that comes before the next worker has started.
    assert_eq!(signals.forward_signal(SIGINT), None);
    assert_eq!(signals.may_start(), Err(SIGINT));
    assert!(signals.stopped_on_request(exited(0), &STOP_SIGNALS));
}

#[test]
fn a_stop_reaches_the_running_worker_and_one_that_was_starting() {
    let mut signals = SignalState::new();
    signals.started(100);
    assert_eq!(signals.forward_signal(SIGINT), Some(100));
    signals.reaping();

    let mut signals = SignalState::new();
    signals.forward_signal(SIGINT);
    // A worker that started meanwhile is sent the signal once its id is known.
    assert_eq!(signals.started(200), Some(SIGINT));
}

#[test]
fn a_worker_killed_by_a_stop_signal_was_stopped_on_request() {
    let signals = SignalState::new();
    assert!(signals.stopped_on_request(killed(15), &STOP_SIGNALS));
    assert!(!signals.stopped_on_request(killed(SIGKILL), &STOP_SIGNALS));
    assert!(!signals.stopped_on_request(exited(2), &STOP_SIGNALS));
}

#[test]
fn a_killed_process_ends_as_a_shell_reports_it() {
    assert_eq!(exit_code_of(killed(SIGKILL)), 137);
    assert_eq!(exit_code_of(exited(2)), 2);
    assert_eq!(exit_code_of(WorkerStatus { signal: None, code: None }), PANIC);
    assert_eq!(describe_end(killed(11)), "was killed by signal 11");
    assert_eq!(describe_end(exited(-3)), "exited with code -3");
    assert_eq!(describe_end(WorkerStatus { signal: None, code: None }), "ended");
}

#[test]
fn only_a_worker_that_went_down_on_its_own_leaves_crashed_mutations() {
    assert_eq!(crashed_mutations(true, false, vec![4, 5]), Some(vec![4, 5]));
    assert_eq!(crashed_mutations(true, true, vec![4, 5]), None);
    assert_eq!(crashed_mutations(false, false, vec![4, 5]), None);
    // A worker that left nothing unfinished ends the run as it ended.
    assert_eq!(crashed_mutations(true, false, vec![]), None);
    assert_eq!(crash_report(&[4, 5, 12]), "the test harness crashed while evaluating mutations 4, 5, 12: counted as crashed; going on without them");
}

#[test]
fn the_parent_is_read_after_the_command_name() {
    assert_eq!(parent_pid_of_stat("42 (sleep) S 7 42 42 0"), Some(7));
    assert_eq!(parent_pid_of_stat("42 (a) b) c) S  \t 8 1"), Some(8));
    assert_eq!(parent_pid_of_stat("42 (x) S"), None);
    assert_eq!(parent_pid_of_stat("42 x S 7"), None);
    assert_eq!(parent_pid_of_stat("42 (x) S seven"), None);

    let entries = [
        ProcEntry { name: Some("10".to_owned()), stat: Some("10 (t) S 1 1".to_owned()) },
        ProcEntry { name: Some("11".to_owned()), stat: Some("11 (t) S 2 1".to_owned()) },
        ProcEntry { name: Some("self".to_owned()), stat: Some("12 (t) S 1 1".to_owned()) },
        ProcEntry { name: Some("13".to_owned()), stat: None },
        ProcEntry { name: None, stat: Some("14 (t) S 1 1".to_owned()) },
        ProcEntry { name: Some("15".to_owned()), stat: Some("15 (t) R 1".to_owned()) },
    ];
    assert_eq!(children(&entries, 1), [10, 15]);
}

#[test]
fn a_worker_whose_supervisor_died_first_ends_at_once() {
    assert_eq!(parse_supervisor_pid("311"), Some(311));
    assert_eq!(parse_supervisor_pid("x"), None);
    assert!(must_exit_without_supervisor(Some(311), 1));
    assert!(!must_exit_without_supervisor(Some(311), 311));
    assert!(!must_exit_without_supervisor(None, 1));
}

#[test]
fn killing_descendants_goes_on_until_no_child_remains() {
    assert_eq!(next_reap_action(ReapEvent::Killed), ReapAction::Wait);
    // A child that has not exited yet: another round, unless the deadline has passed.
    assert_eq!(next_reap_action(ReapEvent::Waited { result: 0, interrupted: false }), ReapAction::CheckDeadline);
    assert_eq!(next_reap_action(ReapEvent::DeadlineChecked { passed: false }), ReapAction::Pause);
    assert_eq!(next_reap_action(ReapEvent::Paused), ReapAction::Kill);
    assert_eq!(next_reap_action(ReapEvent::DeadlineChecked { passed: true }), ReapAction::Done);
    assert_eq!(next_reap_action(ReapEvent::Waited { result: -1, interrupted: true }), ReapAction::Wait);
    assert_eq!(next_reap_action(ReapEvent::Waited { result: -1, interrupted: false }), ReapAction::Done);
    assert_eq!(next_reap_action(ReapEvent::Waited { result: 77, interrupted: false }), ReapAction::Wait);
}

/// How the supervisor of a harness whose worker ended so records it for `cargo mutest`.
fn recorded(status: WorkerStatus) -> Vec<i32> {
    let mut log = record_start(9);
    log.push_str(&record_exit(9, exit_code_of(status)));
    read(&log)
}

#[test]
fn record_a_panic_as_exit_code_101_test() {
    // The harness panics over an option `cargo mutest` itself would have refused.
    assert_eq!(recorded(exited(101)), [PANIC]);
    assert_eq!(worst(&recorded(exited(101))), PANIC);
    assert!(!analysis_completed(PANIC));
}

#[test]
fn refuse_a_flakiness_iterations_count_that_is_not_a_number_test() {
    assert_eq!(recorded(exited(USAGE)), [USAGE]);
    assert_eq!(worst(&[USAGE]), USAGE);
    assert!(!analysis_completed(USAGE));
}

#[test]
fn refuse_an_unknown_isolation_mode_test() {
    assert_eq!(recorded(exited(1)), [USAGE]);
    assert_eq!(worst(&[1, 0]), USAGE);
}

fn answer() -> u32 {
    42
}

#[test]
fn run_mutation_analysis_whatever_arguments_are_passed_test() {
    assert_eq!(42, answer());
    let values: Vec<String> = replacements(&ReturnType::Uint, 0).into_iter().map(|r| r.value).collect();
    assert_eq!(values, ["0", "1"]);
}

#[test]
fn calls_answer() {
    let _ = answer();
    // The test calls `answer` and checks nothing, so it misses both mutations: the run exits 2.
    assert_eq!(recorded(exited(MISSED)), [MISSED]);
    assert!(analysis_completed(MISSED));
}

#[test]
fn stop_before_mutations_when_tests_fail_unmutated_test() {
    // A test that fails with no mutation applied: no mutation is evaluated, and the harness exits
    // with the code that says the baseline failed.
    assert_eq!(recorded(exited(BASELINE_FAILED)), [BASELINE_FAILED]);
    assert!(!analysis_completed(BASELINE_FAILED));
    assert_eq!(worst(&[MISSED, BASELINE_FAILED]), BASELINE_FAILED);
}
