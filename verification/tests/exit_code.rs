use mutest::exit_code::{
    analysis_completed, read, record_exit, record_start, worst, BASELINE_FAILED, MISSED, PANIC,
    SUCCESS, TIMED_OUT, USAGE,
};

#[test]
fn a_timeout_outranks_a_miss_and_a_panic_outranks_everything() {
    assert_eq!(worst(&[]), SUCCESS);
    assert_eq!(worst(&[SUCCESS, MISSED, SUCCESS]), MISSED);
    assert_eq!(worst(&[MISSED, TIMED_OUT]), TIMED_OUT);
    assert_eq!(worst(&[TIMED_OUT, BASELINE_FAILED]), BASELINE_FAILED);
    assert_eq!(worst(&[BASELINE_FAILED, USAGE]), USAGE);
    assert_eq!(worst(&[USAGE, PANIC, MISSED]), PANIC);
    // Killed by SIGKILL, as a shell reports it.
    assert_eq!(worst(&[MISSED, 137]), PANIC);
}

#[test]
fn each_harness_is_read_with_the_code_it_recorded() {
    let log = "started 10\nexited 10 0\nstarted 11\nstarted 12\nexited 12 2\nexited 11 3\n";

    assert_eq!(read(log), [SUCCESS, TIMED_OUT, MISSED]);
}

#[test]
fn a_harness_that_recorded_no_exit_counts_as_having_panicked() {
    assert_eq!(read("started 10\nexited 10 2\nstarted 11\n"), [MISSED, PANIC]);
}

#[test]
fn a_process_id_taken_again_by_a_later_harness_is_read_as_that_harness() {
    assert_eq!(read("started 10\nexited 10 2\nstarted 10\nexited 10 0\n"), [MISSED, SUCCESS]);
}

#[test]
fn what_a_harness_records_is_read_back() {
    let mut log = String::new();
    log.push_str(&record_start(10));
    log.push_str(&record_start(11));
    log.push_str(&record_exit(11, MISSED));

    assert_eq!(read(&log), [PANIC, MISSED]);
}

#[test]
fn a_record_is_one_line_of_decimal_words() {
    assert_eq!(record_start(10), "started 10\n");
    assert_eq!(record_start(0), "started 0\n");
    assert_eq!(record_start(u32::MAX), "started 4294967295\n");
    assert_eq!(record_exit(12, 2), "exited 12 2\n");
    assert_eq!(record_exit(12, -1), "exited 12 -1\n");
    assert_eq!(record_exit(7, i32::MIN), "exited 7 -2147483648\n");
}

#[test]
fn every_code_a_harness_can_record_is_read_back() {
    for code in [0, 1, 2, 3, 4, 101, 137, -1, i32::MAX, i32::MIN] {
        let mut log = String::new();
        log.push_str(&record_start(4294967295));
        log.push_str(&record_exit(4294967295, code));
        assert_eq!(read(&log), [code]);
    }
}

#[test]
fn an_exit_with_no_start_is_a_harness_of_its_own() {
    assert_eq!(read("exited 5 3\nstarted 6\n"), [TIMED_OUT, PANIC]);
}

#[test]
fn lines_that_are_not_records_are_skipped() {
    let log = "started\nstarted  10\nstarted 10 11\nexited 10\nexited x 1\nexited 10 y\nrestarted 10\n\nstarted -1\nstarted 4294967296\n";
    assert_eq!(read(log), [] as [i32; 0]);
}

#[test]
fn numbers_are_read_as_rust_reads_them() {
    // An optional `+`, a `-` only for the code, leading zeros allowed.
    assert_eq!(read("started +10\nexited 010 -3\n"), [-3]);
    assert_eq!(read("started 1\nexited 1 2147483648\n"), [PANIC]);
    assert_eq!(read("started 1\nexited 1 -2147483648\n"), [i32::MIN]);
    assert_eq!(read("started 1\nexited 1 +\n"), [PANIC]);
}

#[test]
fn a_carriage_return_before_a_line_ending_is_dropped() {
    assert_eq!(read("started 10\r\nexited 10 2\r\n"), [MISSED]);
    assert_eq!(read("started 10\nexited 10 2"), [MISSED]);
    assert_eq!(read("started 10\nexited 10 2\r"), [PANIC]);
}

#[test]
fn only_a_run_that_evaluated_every_mutation_completed() {
    assert!(analysis_completed(SUCCESS));
    assert!(analysis_completed(MISSED));
    assert!(analysis_completed(TIMED_OUT));
    assert!(!analysis_completed(USAGE));
    assert!(!analysis_completed(BASELINE_FAILED));
    assert!(!analysis_completed(PANIC));
}

#[test]
fn the_code_of_a_run_does_not_depend_on_the_order_or_number_of_its_harnesses() {
    assert_eq!(worst(&[MISSED, TIMED_OUT, MISSED]), worst(&[TIMED_OUT, MISSED]));
    assert_eq!(worst(&[TIMED_OUT, MISSED]), TIMED_OUT);
    assert_eq!(worst(&[137, SUCCESS]), worst(&[SUCCESS, 137, 137]));
    assert_eq!(worst(&[SUCCESS, SUCCESS]), worst(&[SUCCESS]));
}

#[test]
fn a_line_that_records_nothing_can_be_taken_out_of_the_log() {
    let a = "started 10\n";
    let b = "exited 10 3\nstarted 11";
    for l in ["", "started x", "exited 10", "started 10 10", "exited 10 3 ", "noise\r"] {
        assert_eq!(read(&format!("{a}{l}\n{b}")), read(&format!("{a}{b}")));
    }
    assert_eq!(read(&format!("{a}{b}")), [TIMED_OUT, PANIC]);
    assert_eq!(read(&format!("exited 10\n{b}")), read(b));
}

#[test]
fn the_code_of_two_runs_together_is_the_worse_of_their_codes() {
    let a = [MISSED, SUCCESS];
    let b = [137, TIMED_OUT];
    let both: Vec<i32> = a.iter().chain(b.iter()).copied().collect();
    assert_eq!(worst(&both), worst(&[worst(&a), worst(&b)]));
    assert_eq!(worst(&both), PANIC);
    assert_eq!(worst(&[MISSED, USAGE, SUCCESS]), worst(&[SUCCESS, MISSED, USAGE]));
    assert_eq!(worst(&[TIMED_OUT, SUCCESS]), worst(&[TIMED_OUT]));
    assert_eq!(worst(&[SUCCESS, MISSED, PANIC]), PANIC);
}
