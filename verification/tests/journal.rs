use mutest::fn_return_default::{replacements, ReturnType};
use mutest::journal::{
    parse_line, print_line, result_from_name, result_name, Journal, Json, JsonNumber,
    MutationTestResult, MutationTestResults, WorkerJournal,
};
use mutest::supervisor::{crash_report, crashed_mutations};

fn obj(fields: Vec<(&str, Json)>) -> Json {
    Json::Object(fields.into_iter().map(|(k, v)| (k.to_owned(), v)).collect())
}

fn ids(ids: &[u64]) -> Json {
    Json::Array(ids.iter().map(|&id| Json::Number(JsonNumber::Unsigned(id))).collect())
}

fn s(text: &str) -> Json {
    Json::Str(text.to_owned())
}

#[test]
fn results_are_written_under_their_names() {
    for (r, name) in [
        (MutationTestResult::Undetected, "undetected"),
        (MutationTestResult::Detected, "detected"),
        (MutationTestResult::TimedOut, "timed_out"),
        (MutationTestResult::Crashed, "crashed"),
    ] {
        assert_eq!(result_name(r), name);
        assert_eq!(result_from_name(name), Some(r));
    }
    assert_eq!(result_from_name("Detected"), None);
    assert_eq!(result_from_name(""), None);
}

#[test]
fn started_mutations_that_neither_finished_nor_crashed_are_unfinished() {
    let lines = vec![
        Some(obj(vec![("started", ids(&[5, 3, 9]))])),
        Some(obj(vec![("finished", Json::Number(JsonNumber::Unsigned(5))), ("result", s("detected")), ("tests", Json::Array(vec![]))])),
        None,
        Some(obj(vec![("crashed", ids(&[9]))])),
        Some(obj(vec![("started", ids(&[3, 1]))])),
    ];
    assert_eq!(Journal::read(&lines).unfinished(), [1, 3]);
}

#[test]
fn lines_that_record_nothing_are_skipped() {
    let lines = vec![
        Some(obj(vec![("started", ids(&[1]))])),
        // An unknown result: the mutation does not count as finished.
        Some(obj(vec![("finished", Json::Number(JsonNumber::Unsigned(1))), ("result", s("exploded"))])),
        Some(obj(vec![("finished", Json::Number(JsonNumber::Other)), ("result", s("detected"))])),
        Some(Json::Array(vec![])),
        Some(obj(vec![("other", ids(&[1]))])),
    ];
    assert_eq!(Journal::read(&lines).unfinished(), [1]);
}

#[test]
fn ids_are_the_whole_numbers_of_the_array() {
    let lines = vec![Some(obj(vec![("started", Json::Array(vec![
        Json::Number(JsonNumber::Unsigned(2)),
        Json::Number(JsonNumber::Other),
        s("3"),
        Json::Number(JsonNumber::Unsigned(4_294_967_297)),
    ]))]))];
    // An id past 32 bits is cut to them.
    assert_eq!(Journal::read(&lines).unfinished(), [1, 2]);
}

#[test]
fn what_a_worker_writes_is_read_back() {
    let results = MutationTestResults {
        result: MutationTestResult::Detected,
        results_per_test: vec![("a".to_owned(), Some(MutationTestResult::Detected)), ("b".to_owned(), None)],
    };
    let lines = vec![
        Some(WorkerJournal::started(&[7, 8])),
        Some(WorkerJournal::finished(7, &results)),
    ];
    assert_eq!(Journal::read(&lines).unfinished(), [8]);

    let worker = WorkerJournal::open(&lines);
    let carried = worker.carried(7, &["b".to_owned(), "a".to_owned(), "c".to_owned()]).unwrap();
    assert_eq!(carried.result, MutationTestResult::Detected);
    assert_eq!(carried.results_per_test, [("a".to_owned(), Some(MutationTestResult::Detected)), ("b".to_owned(), None)]);
    // Only the tests run now are carried over.
    let carried = worker.carried(7, &["a".to_owned()]).unwrap();
    assert_eq!(carried.results_per_test, [("a".to_owned(), Some(MutationTestResult::Detected))]);
    assert!(worker.carried(8, &[]).is_none());
}

#[test]
fn a_crashed_mutation_is_carried_over_as_crashed() {
    let results = MutationTestResults { result: MutationTestResult::Undetected, results_per_test: vec![] };
    let lines = vec![
        Some(WorkerJournal::started(&[1, 2])),
        Some(WorkerJournal::finished(1, &results)),
        Some(Journal::record_crashed(&[1, 2])),
    ];
    let worker = WorkerJournal::open(&lines);
    for id in [1, 2] {
        let carried = worker.carried(id, &["t".to_owned()]).unwrap();
        assert_eq!(carried.result, MutationTestResult::Crashed);
        assert!(carried.results_per_test.is_empty());
    }
    assert!(Journal::read(&lines).unfinished().is_empty());
}

#[test]
fn a_later_finished_line_replaces_an_earlier() {
    let first = MutationTestResults { result: MutationTestResult::Undetected, results_per_test: vec![] };
    let second = MutationTestResults { result: MutationTestResult::TimedOut, results_per_test: vec![] };
    let lines = vec![Some(WorkerJournal::finished(3, &first)), Some(WorkerJournal::finished(3, &second))];
    let carried = WorkerJournal::open(&lines).carried(3, &[]).unwrap();
    assert_eq!(carried.result, MutationTestResult::TimedOut);
}

struct Limit(u32);

impl Default for Limit {
    fn default() -> Self {
        Limit(3)
    }
}

fn double(value: u32) -> u32 {
    value * 2
}

#[test]
fn count_mutation_that_crashes_harness_as_crashed_test() {
    assert_eq!(3, Limit::default().0);
    assert_eq!(4, double(2));

    // `default` returning `Default::default()` recurses until the stack overflows; `double` has
    // values of its own.
    let limit: Vec<String> = replacements(&ReturnType::Other { has_default: true }, 0).into_iter().map(|r| r.value).collect();
    assert_eq!(limit, ["Default::default()"]);
    let double_values: Vec<String> = replacements(&ReturnType::Uint, 0).into_iter().map(|r| r.value).collect();
    assert_eq!(double_values, ["0", "1"]);

    // The worker starts the mutation of `default`, and goes down with it.
    let mut lines = vec![Some(WorkerJournal::started(&[1]))];
    let crashed = crashed_mutations(true, false, Journal::read(&lines).unfinished()).unwrap();
    assert_eq!(crashed, [1]);
    assert_eq!(crash_report(&crashed), "the test harness crashed while evaluating mutation 1: counted as crashed; going on without it");
    lines.push(Some(Journal::record_crashed(&crashed)));

    // The next worker counts it as crashed, and goes on with the mutations after it.
    let worker = WorkerJournal::open(&lines);
    assert_eq!(worker.carried(1, &["test".to_owned()]).unwrap().result, MutationTestResult::Crashed);
    assert!(worker.carried(2, &["test".to_owned()]).is_none());
    lines.push(Some(WorkerJournal::started(&[2, 3])));
    let results = MutationTestResults { result: MutationTestResult::Detected, results_per_test: vec![("test".to_owned(), Some(MutationTestResult::Detected))] };
    lines.push(Some(WorkerJournal::finished(2, &results)));
    lines.push(Some(WorkerJournal::finished(3, &results)));
    assert!(Journal::read(&lines).unfinished().is_empty());
}

#[test]
fn a_journal_file_is_read_through_its_json() {
    let results = MutationTestResults {
        result: MutationTestResult::TimedOut,
        results_per_test: vec![("t".to_owned(), Some(MutationTestResult::TimedOut))],
    };
    let started = print_line(&WorkerJournal::started(&[3, 4, 5])).unwrap();
    let finished = print_line(&WorkerJournal::finished(4, &results)).unwrap();
    let crashed = print_line(&Journal::record_crashed(&[5])).unwrap();
    assert_eq!(started, r#"{"started":[3,4,5]}"#);
    assert_eq!(crashed, r#"{"crashed":[5]}"#);
    assert!(finished.starts_with(r#"{"finished":4,"#));
    assert!(!finished.contains('\n'));

    let lines = vec![started, finished, r#"{"started":[6"#.to_owned(), crashed];
    assert_eq!(Journal::read_lines(&lines).unfinished(), [3]);
    let worker = WorkerJournal::open_lines(&lines);
    assert_eq!(worker.carried(4, &["t".to_owned()]).unwrap().result, MutationTestResult::TimedOut);
    assert_eq!(worker.carried(5, &[]).unwrap().result, MutationTestResult::Crashed);
}

#[test]
fn a_line_is_parsed_as_the_json_it_is() {
    assert!(parse_line("not json").is_none());
    assert!(parse_line(r#"{"started":[1"#).is_none());
    match parse_line(r#"{"finished":18446744073709551615,"x":-1.5,"y":[null,true,"s"]}"#) {
        Some(Json::Object(fields)) => {
            assert_eq!(fields.len(), 3);
            assert_eq!(fields[0].0, "finished");
            assert!(matches!(fields[0].1, Json::Number(JsonNumber::Unsigned(u64::MAX))));
            assert!(matches!(fields[1].1, Json::Number(JsonNumber::Other)));
            assert!(matches!(&fields[2].1, Json::Array(items) if items.len() == 3 && matches!(items[0], Json::Null) && matches!(items[1], Json::Bool(true))));
        }
        _ => panic!("an object was not read as one"),
    }
}
