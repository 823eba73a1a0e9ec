//! What the worker has evaluated so far, in a journal the supervisor gave it. When a mutation takes
//! the worker down, the supervisor reads which mutations were started and never finished, records
//! them as crashed, and starts a new worker. That worker carries every recorded result over rather
//! than evaluating the mutation again, and goes on with the rest.
//!
//! One JSON object per line: `{"started":[ids]}`,
//! `{"finished":id,"result":"detected","tests":[[name,result|null],...]}`, and, written by the
//! supervisor, `{"crashed":[ids]}`. A line that is not JSON, as one cut short by a crash, is
//! skipped.
use std::collections::{BTreeSet, HashMap};

use vstd::prelude::*;
use vstd::std_specs::iter::IteratorSpec;

use crate::text;

verus! {

/// The variable that gives the worker the path of its journal.
pub const JOURNAL_VAR: &'static str = "__MUTEST_JOURNAL";

/// What the tests made of a mutation.
#[derive(Clone, Copy, Debug, PartialEq, Eq, Structural)]
pub enum MutationTestResult {
    Undetected,
    Detected,
    TimedOut,
    Crashed,
}

/// The name a result is written under.
pub open spec fn result_name_spec(result: MutationTestResult) -> Seq<char> {
    match result {
        MutationTestResult::Undetected => "undetected"@,
        MutationTestResult::Detected => "detected"@,
        MutationTestResult::TimedOut => "timed_out"@,
        MutationTestResult::Crashed => "crashed"@,
    }
}

/// The result a name is written for, if it is one.
pub open spec fn result_from_name_spec(name: Seq<char>) -> Option<MutationTestResult> {
    if name == "undetected"@ {
        Some(MutationTestResult::Undetected)
    } else if name == "detected"@ {
        Some(MutationTestResult::Detected)
    } else if name == "timed_out"@ {
        Some(MutationTestResult::TimedOut)
    } else if name == "crashed"@ {
        Some(MutationTestResult::Crashed)
    } else {
        None
    }
}

/// The name a result is written under.
pub fn result_name(result: MutationTestResult) -> (r: &'static str)
    ensures
        r@ == result_name_spec(result),
{
    match result {
        MutationTestResult::Undetected => "undetected",
        MutationTestResult::Detected => "detected",
        MutationTestResult::TimedOut => "timed_out",
        MutationTestResult::Crashed => "crashed",
    }
}

/// The result a name is written for, if it is one.
pub fn result_from_name(name: &str) -> (r: Option<MutationTestResult>)
    ensures
        r == result_from_name_spec(name@),
{
    if text::str_eq(name, "undetected") {
        Some(MutationTestResult::Undetected)
    } else if text::str_eq(name, "detected") {
        Some(MutationTestResult::Detected)
    } else if text::str_eq(name, "timed_out") {
        Some(MutationTestResult::TimedOut)
    } else if text::str_eq(name, "crashed") {
        Some(MutationTestResult::Crashed)
    } else {
        None
    }
}

/// Each result is read back from the name it is written under.
pub proof fn lemma_result_name_round_trip(result: MutationTestResult)
    ensures
        result_from_name_spec(result_name_spec(result)) == Some(result),
{
    reveal_strlit("undetected");
    reveal_strlit("detected");
    reveal_strlit("timed_out");
    reveal_strlit("crashed");
    assert("undetected"@ != "detected"@) by {
        assert("undetected"@.len() != "detected"@.len());
    }
    assert("undetected"@ != "timed_out"@) by {
        assert("undetected"@[0] != "timed_out"@[0]);
    }
    assert("undetected"@ != "crashed"@) by {
        assert("undetected"@[0] != "crashed"@[0]);
    }
    assert("detected"@ != "timed_out"@) by {
        assert("detected"@[0] != "timed_out"@[0]);
    }
    assert("detected"@ != "crashed"@) by {
        assert("detected"@[0] != "crashed"@[0]);
    }
    assert("timed_out"@ != "crashed"@) by {
        assert("timed_out"@[0] != "crashed"@[0]);
    }
}

/// A JSON number: a whole number that fits `u64`, or another.
pub enum JsonNumber {
    Unsigned(u64),
    Other,
}

/// A JSON value; an object's keys are distinct.
pub enum Json {
    Null,
    Bool(bool),
    Number(JsonNumber),
    Str(String),
    Array(Vec<Json>),
    Object(Vec<(String, Json)>),
}

#[verifier::external_type_specification]
#[verifier::external_body]
pub struct ExJsonValue(serde_json::Value);

#[verifier::external_type_specification]
#[verifier::external_body]
pub struct ExJsonError(serde_json::Error);

/// The JSON value a line of text is, as serde_json parses it; `None` where it is not JSON.
pub uninterp spec fn json_of_line(line: Seq<char>) -> Option<Json>;

/// The text serde_json writes for a value, on one line.
pub uninterp spec fn text_of_json(v: Json) -> Seq<char>;

/// serde_json's value as the library holds it, variant by variant: a number as the whole number
/// it is where it fits `u64`, and an object's fields in serde_json's order. It serves
/// `parse_line` alone, whose contract is what is claimed of the two.
#[verifier::external_body]
fn json_of_value(value: &serde_json::Value) -> Json {
    match value {
        serde_json::Value::Null => Json::Null,
        serde_json::Value::Bool(b) => Json::Bool(*b),
        serde_json::Value::Number(n) => Json::Number(match n.as_u64() {
            Some(n) => JsonNumber::Unsigned(n),
            None => JsonNumber::Other,
        }),
        serde_json::Value::String(s) => Json::Str(s.clone()),
        serde_json::Value::Array(items) => Json::Array(items.iter().map(json_of_value).collect()),
        serde_json::Value::Object(fields) => Json::Object(fields.iter().map(|(k, v)| (k.clone(), json_of_value(v))).collect()),
    }
}

/// The library's value as serde_json holds it, variant by variant; a number other than a whole
/// one, which the library never writes, as `null`. It serves `print_line` alone, whose contract
/// is what is claimed of the two.
#[verifier::external_body]
fn value_of_json(json: &Json) -> serde_json::Value {
    match json {
        Json::Null => serde_json::Value::Null,
        Json::Bool(b) => serde_json::Value::Bool(*b),
        Json::Number(JsonNumber::Unsigned(n)) => serde_json::Value::Number(serde_json::Number::from(*n)),
        Json::Number(JsonNumber::Other) => serde_json::Value::Null,
        Json::Str(s) => serde_json::Value::String(s.clone()),
        Json::Array(items) => serde_json::Value::Array(items.iter().map(value_of_json).collect()),
        Json::Object(fields) => serde_json::Value::Object(fields.iter().map(|(k, v)| (k.clone(), value_of_json(v))).collect()),
    }
}

/// `serde_json::from_str::<Value>`: the JSON value the line is, if it is one. The parse depends on
/// the line alone, so its result is named: `json_of_line`.
#[verifier::external_body]
pub fn parse_line(line: &str) -> (r: Option<Json>)
    ensures
        r == json_of_line(line@),
{
    serde_json::from_str::<serde_json::Value>(line).ok().map(|value| json_of_value(&value))
}

/// `serde_json::to_string` of a `Value`: the text of the value, on one line. Where it succeeds,
/// the text depends on the value alone, so it is named: `text_of_json`. Whether it can fail is
/// left unsaid: its documentation names the failures only of other types than `Value`.
#[verifier::external_body]
pub fn print_line(v: &Json) -> (r: Result<String, serde_json::Error>)
    ensures
        r matches Ok(text) ==> text@ == text_of_json(*v),
{
    serde_json::to_string(&value_of_json(v))
}

/// What each line is as JSON, `None` where it is not.
pub open spec fn json_of_lines(lines: Seq<String>) -> Seq<Option<Json>> {
    lines.map_values(|l: String| json_of_line(l@))
}

fn parse_lines(lines: &[String]) -> (r: Vec<Option<Json>>)
    ensures
        r@ == json_of_lines(lines@),
{
    let mut r: Vec<Option<Json>> = Vec::new();
    let mut i: usize = 0;
    while i < lines.len()
        invariant
            i <= lines.len(),
            r@ == json_of_lines(lines@.take(i as int)),
        decreases lines.len() - i,
    {
        let v = parse_line(lines[i].as_str());
        let ghost before = r@;
        r.push(v);
        proof {
            assert(json_of_lines(lines@.take(i as int + 1)) =~= json_of_lines(lines@.take(i as int)).push(v));
        }
        i += 1;
    }
    proof {
        assert(lines@.take(lines.len() as int) =~= lines@);
    }
    r
}

/// The value under `key` among the first `m` fields.
pub open spec fn field_in(fields: Seq<(String, Json)>, key: Seq<char>, m: nat) -> Option<Json>
    decreases m,
{
    if m == 0 {
        None
    } else if field_in(fields, key, (m - 1) as nat).is_some() {
        field_in(fields, key, (m - 1) as nat)
    } else if fields[m - 1].0@ == key {
        Some(fields[m - 1].1)
    } else {
        None
    }
}

/// The value under `key` of an object; none of anything else.
pub open spec fn json_get(v: Json, key: Seq<char>) -> Option<Json> {
    match v {
        Json::Object(fields) => field_in(fields@, key, fields@.len()),
        _ => None,
    }
}

pub open spec fn json_u64(v: Option<Json>) -> Option<u64> {
    match v {
        Some(Json::Number(JsonNumber::Unsigned(n))) => Some(n),
        _ => None,
    }
}

pub open spec fn json_str(v: Option<Json>) -> Option<Seq<char>> {
    match v {
        Some(Json::Str(s)) => Some(s@),
        _ => None,
    }
}

/// The mutation ids an array holds, among its first `m` items: the whole numbers, cut to 32 bits.
pub open spec fn ids_among(items: Seq<Json>, m: nat) -> Seq<u32>
    decreases m,
{
    if m == 0 {
        Seq::empty()
    } else {
        match items[m - 1] {
            Json::Number(JsonNumber::Unsigned(n)) => ids_among(items, (m - 1) as nat).push(
                n as u32,
            ),
            _ => ids_among(items, (m - 1) as nat),
        }
    }
}

/// The mutation ids a value holds: none but an array's.
pub open spec fn ids_of(v: Json) -> Seq<u32> {
    match v {
        Json::Array(items) => ids_among(items@, items@.len()),
        _ => Seq::empty(),
    }
}

/// A test's name and its result, if an item is a pair of a name and a result; a result that is
/// not a known name is none.
pub open spec fn test_of(item: Json) -> Option<(Seq<char>, Option<MutationTestResult>)> {
    match item {
        Json::Array(pair) => if pair@.len() == 2 {
            match pair@[0] {
                Json::Str(name) => Some(
                    (
                        name@,
                        match json_str(Some(pair@[1])) {
                            Some(r) => result_from_name_spec(r),
                            None => None,
                        },
                    ),
                ),
                _ => None,
            }
        } else {
            None
        },
        _ => None,
    }
}

/// The tests among the first `m` items.
pub open spec fn tests_among(items: Seq<Json>, m: nat) -> Seq<(Seq<char>, Option<MutationTestResult>)>
    decreases m,
{
    if m == 0 {
        Seq::empty()
    } else {
        match test_of(items[m - 1]) {
            Some(t) => tests_among(items, (m - 1) as nat).push(t),
            None => tests_among(items, (m - 1) as nat),
        }
    }
}

/// The tests a value holds: none but an array's.
pub open spec fn tests_of(v: Option<Json>) -> Seq<(Seq<char>, Option<MutationTestResult>)> {
    match v {
        Some(Json::Array(items)) => tests_among(items@, items@.len()),
        _ => Seq::empty(),
    }
}

/// The keys of an object's fields, in order; none for anything else.
pub open spec fn object_keys(v: Json) -> Seq<Seq<char>> {
    match v {
        Json::Object(fields) => fields@.map_values(|f: (String, Json)| f.0@),
        _ => Seq::empty(),
    }
}

/// The value of an object's `i`th field.
pub open spec fn object_value(v: Json, i: int) -> Json {
    match v {
        Json::Object(fields) => fields@[i].1,
        _ => Json::Null,
    }
}

/// Whether the value is the string `s`.
pub open spec fn is_str(v: Json, s: Seq<char>) -> bool {
    v matches Json::Str(t) && t@ == s
}

/// Whether the value is an array of exactly these ids, each a whole number.
pub open spec fn is_ids_array(v: Json, ids: Seq<u32>) -> bool {
    v matches Json::Array(items) && items@.len() == ids.len() && forall|k: int|
        0 <= k < ids.len() ==> #[trigger] items@[k] == Json::Number(JsonNumber::Unsigned(ids[k] as u64))
}

/// Whether the value is the pair of a test's name and its result's name, or `null` for none.
pub open spec fn is_test_pair(v: Json, t: (Seq<char>, Option<MutationTestResult>)) -> bool {
    v matches Json::Array(p) && p@.len() == 2 && is_str(p@[0], t.0) && match t.1 {
        Some(r) => is_str(p@[1], result_name_spec(r)),
        None => p@[1] is Null,
    }
}

/// Whether the value is an array of exactly these tests' pairs.
pub open spec fn is_tests_array(v: Json, tests: Seq<(Seq<char>, Option<MutationTestResult>)>) -> bool {
    v matches Json::Array(items) && items@.len() == tests.len() && forall|k: int|
        0 <= k < tests.len() ==> is_test_pair(#[trigger] items@[k], tests[k])
}

/// What a line records: 1, that mutations started; 2, that they crashed; 3, that one finished;
/// 0, nothing. A line with `started` records that, whatever else it holds; then one with `crashed`;
/// then one whose `finished` is a whole number and whose `result` is a known name.
pub open spec fn effect_kind(v: Json) -> int {
    if json_get(v, "started"@).is_some() {
        1
    } else if json_get(v, "crashed"@).is_some() {
        2
    } else if json_u64(json_get(v, "finished"@)).is_some() {
        match json_str(json_get(v, "result"@)) {
            Some(name) => if result_from_name_spec(name).is_some() {
                3
            } else {
                0
            },
            None => 0,
        }
    } else {
        0
    }
}

/// The ids a line of kind 1 or 2 records.
pub open spec fn effect_ids(v: Json) -> Seq<u32> {
    if effect_kind(v) == 1 {
        ids_of(json_get(v, "started"@).unwrap())
    } else {
        ids_of(json_get(v, "crashed"@).unwrap())
    }
}

/// The mutation a line of kind 3 records as finished.
pub open spec fn effect_finished_id(v: Json) -> u32 {
    json_u64(json_get(v, "finished"@)).unwrap() as u32
}

/// The result a line of kind 3 records.
pub open spec fn effect_result(v: Json) -> MutationTestResult {
    result_from_name_spec(json_str(json_get(v, "result"@)).unwrap()).unwrap()
}

/// The tests a line of kind 3 records.
pub open spec fn effect_tests(v: Json) -> Seq<(Seq<char>, Option<MutationTestResult>)> {
    tests_of(json_get(v, "tests"@))
}

/// What a finished mutation's entry holds: its result, and each test's, by name.
pub type FinishedView = (MutationTestResult, Seq<(Seq<char>, Option<MutationTestResult>)>);

/// What the journal's lines record: the mutations started, those finished with their results (a
/// later line for a mutation replacing an earlier), and those crashed.
pub open spec fn journal_of(lines: Seq<Option<Json>>) -> (Set<u32>, Map<u32, FinishedView>, Set<u32>)
    decreases lines.len(),
{
    if lines.len() == 0 {
        (Set::empty(), Map::empty(), Set::empty())
    } else {
        let (started, finished, crashed) = journal_of(lines.drop_last());
        match lines.last() {
            None => (started, finished, crashed),
            Some(v) => {
                let k = effect_kind(v);
                if k == 1 {
                    (started + effect_ids(v).to_set(), finished, crashed)
                } else if k == 2 {
                    (started, finished, crashed + effect_ids(v).to_set())
                } else if k == 3 {
                    (
                        started,
                        finished.insert(effect_finished_id(v), (effect_result(v), effect_tests(v))),
                        crashed,
                    )
                } else {
                    (started, finished, crashed)
                }
            },
        }
    }
}

/// A finished mutation's result, with the result of each test that ran against it.
pub struct CarriedResult {
    pub result: MutationTestResult,
    pub tests: Vec<(String, Option<MutationTestResult>)>,
}

pub open spec fn tests_view(tests: Seq<(String, Option<MutationTestResult>)>) -> Seq<
    (Seq<char>, Option<MutationTestResult>),
> {
    tests.map_values(|t: (String, Option<MutationTestResult>)| (t.0@, t.1))
}

/// What a finished mutation's entry holds.
pub open spec fn carried_view(c: CarriedResult) -> FinishedView {
    (c.result, tests_view(c.tests@))
}

/// The finished mutations' entries, each as what it holds.
pub open spec fn finished_view(m: Map<u32, CarriedResult>) -> Map<u32, FinishedView> {
    Map::new(|k: u32| m.dom().contains(k), |k: u32| carried_view(m[k]))
}

proof fn lemma_finished_view_insert(m: Map<u32, CarriedResult>, k: u32, c: CarriedResult)
    ensures
        finished_view(m.insert(k, c)) == finished_view(m).insert(k, carried_view(c)),
{
    assert(finished_view(m.insert(k, c)) =~= finished_view(m).insert(k, carried_view(c)));
}

/// What the journal's lines record, as the supervisor and the worker read it.
pub struct Journal {
    started: BTreeSet<u32>,
    finished: HashMap<u32, CarriedResult>,
    crashed: BTreeSet<u32>,
}

impl Journal {
    pub closed spec fn view(&self) -> (Set<u32>, Map<u32, FinishedView>, Set<u32>) {
        (self.started@, finished_view(self.finished@), self.crashed@)
    }
}

/// The value under `key` of an object.
fn get<'a>(v: &'a Json, key: &str) -> (r: Option<&'a Json>)
    ensures
        match r {
            Some(x) => json_get(*v, key@) == Some(*x),
            None => json_get(*v, key@).is_none(),
        },
{
    match v {
        Json::Object(fields) => {
            let mut i: usize = 0;
            while i < fields.len()
                invariant
                    i <= fields.len(),
                    *v == Json::Object(*fields),
                    field_in(fields@, key@, i as nat).is_none(),
                decreases fields.len() - i,
            {
                if text::str_eq(fields[i].0.as_str(), key) {
                    proof {
                        assert(field_in(fields@, key@, i as nat + 1) == Some(fields@[i as int].1));
                        lemma_field_found(fields@, key@, i as nat + 1, fields@.len());
                    }
                    return Some(&fields[i].1);
                }
                i += 1;
            }
            None
        },
        _ => None,
    }
}

proof fn lemma_field_found(fields: Seq<(String, Json)>, key: Seq<char>, m: nat, n: nat)
    requires
        m <= n,
        field_in(fields, key, m).is_some(),
    ensures
        field_in(fields, key, n) == field_in(fields, key, m),
    decreases n - m,
{
    if m < n {
        lemma_field_found(fields, key, m, (n - 1) as nat);
    }
}

/// Adds the mutation ids a value holds.
fn insert_ids(out: &mut BTreeSet<u32>, v: &Json)
    ensures
        final(out)@ == old(out)@ + ids_of(*v).to_set(),
{
    broadcast use vstd::std_specs::btree::group_btree_axioms;
    match v {
        Json::Array(items) => {
            let ghost start = out@;
            let mut i: usize = 0;
            proof {
                assert(start + ids_among(items@, 0).to_set() =~= start);
            }
            while i < items.len()
                invariant
                    i <= items.len(),
                    out@ == start + ids_among(items@, i as nat).to_set(),
                decreases items.len() - i,
            {
                match &items[i] {
                    Json::Number(JsonNumber::Unsigned(n)) => {
                        let id = *n as u32;
                        out.insert(id);
                        proof {
                            ids_among(items@, i as nat).lemma_push_to_set_commute(id);
                            assert(out@ =~= start + ids_among(items@, i as nat + 1).to_set());
                        }
                    },
                    _ => {},
                }
                i += 1;
            }
        },
        _ => {
            assert(old(out)@ + ids_of(*v).to_set() =~= old(out)@);
        },
    }
}

/// The test a pair of a name and a result records.
fn test_from(item: &Json) -> (r: Option<(String, Option<MutationTestResult>)>)
    ensures
        match r {
            Some(t) => test_of(*item) == Some((t.0@, t.1)),
            None => test_of(*item).is_none(),
        },
{
    match item {
        Json::Array(pair) => {
            if pair.len() != 2 {
                return None;
            }
            match &pair[0] {
                Json::Str(name) => {
                    let result = match &pair[1] {
                        Json::Str(r) => result_from_name(r.as_str()),
                        _ => None,
                    };
                    Some((name.clone(), result))
                },
                _ => None,
            }
        },
        _ => None,
    }
}

/// The tests a value holds.
fn tests_from(v: Option<&Json>) -> (r: Vec<(String, Option<MutationTestResult>)>)
    ensures
        tests_view(r@) == tests_of(match v {
            Some(x) => Some(*x),
            None => None,
        }),
{
    let mut out: Vec<(String, Option<MutationTestResult>)> = Vec::new();
    match v {
        Some(Json::Array(items)) => {
            let mut i: usize = 0;
            while i < items.len()
                invariant
                    i <= items.len(),
                    tests_view(out@) == tests_among(items@, i as nat),
                decreases items.len() - i,
            {
                match test_from(&items[i]) {
                    Some(t) => {
                        let ghost before = out@;
                        let ghost tv = (t.0@, t.1);
                        out.push(t);
                        proof {
                            assert(tests_view(out@) =~= tests_view(before).push(tv));
                        }
                    },
                    None => {},
                }
                i += 1;
            }
        },
        _ => {
            proof {
                assert(tests_view(out@) =~= Seq::<(Seq<char>, Option<MutationTestResult>)>::empty());
            }
        },
    }
    out
}

/// Each key comes after the ones before it.
proof fn lemma_increasing(keys: Seq<&u32>)
    requires
        vstd::std_specs::btree::increasing_seq(keys),
    ensures
        forall|i: int, j: int| 0 <= i < j < keys.len() ==> *keys[i] < *keys[j],
{
    broadcast use vstd::laws_cmp::group_laws_cmp;
    assert(vstd::laws_cmp::obeys_cmp::<&u32>());
    vstd::std_specs::btree::axiom_increasing_seq_meaning::<&u32>(keys);
    assert forall|i: int, j: int| 0 <= i < j < keys.len() implies *keys[i] < *keys[j] by {
        assert(vstd::std_specs::cmp::OrdSpec::cmp_spec(&keys[i], &keys[j]) is Less);
        assert(vstd::std_specs::cmp::OrdSpec::cmp_spec(keys[i], keys[j]) is Less);
    }
}

impl Journal {
    /// What the lines of a journal's text record; a line that is not JSON records nothing.
    pub fn read_lines(lines: &[String]) -> (j: Journal)
        ensures
            j.view() == journal_of(json_of_lines(lines@)),
    {
        let parsed = parse_lines(lines);
        Journal::read(parsed.as_slice())
    }

    /// What the lines of a journal record, each parsed as JSON, `None` where it is not.
    pub fn read(lines: &[Option<Json>]) -> (j: Journal)
        ensures
            j.view() == journal_of(lines@),
    {
        broadcast use vstd::std_specs::btree::group_btree_axioms, vstd::std_specs::hash::group_hash_axioms;
        let mut j = Journal { started: BTreeSet::new(), finished: HashMap::new(), crashed: BTreeSet::new() };
        let mut i: usize = 0;
        proof {
            assert(finished_view(j.finished@) =~= Map::<u32, FinishedView>::empty());
            assert(lines@.take(0) =~= Seq::<Option<Json>>::empty());
        }
        while i < lines.len()
            invariant
                i <= lines.len(),
                j.view() == journal_of(lines@.take(i as int)),
            decreases lines.len() - i,
        {
            proof {
                assert(lines@.take(i as int + 1).drop_last() =~= lines@.take(i as int));
                assert(lines@.take(i as int + 1).last() == lines@[i as int]);
            }
            match &lines[i] {
                None => {},
                Some(v) => {
                    if let Some(started) = get(v, "started") {
                        insert_ids(&mut j.started, started);
                    } else if let Some(crashed) = get(v, "crashed") {
                        insert_ids(&mut j.crashed, crashed);
                    } else {
                        let id = match get(v, "finished") {
                            Some(Json::Number(JsonNumber::Unsigned(id))) => Some(*id),
                            _ => None,
                        };
                        if let Some(id) = id {
                            let result = match get(v, "result") {
                                Some(Json::Str(name)) => result_from_name(name.as_str()),
                                _ => None,
                            };
                            if let Some(result) = result {
                                let tests = tests_from(get(v, "tests"));
                                let entry = CarriedResult { result, tests };
                                let ghost before = j.finished@;
                                proof {
                                    lemma_finished_view_insert(before, id as u32, entry);
                                }
                                j.finished.insert(id as u32, entry);
                            }
                        }
                    }
                },
            }
            i += 1;
        }
        proof {
            assert(lines@.take(lines.len() as int) =~= lines@);
        }
        j
    }

    /// The mutations the worker started and never finished, other than those already crashed, in
    /// increasing order, each once.
    pub fn unfinished(&self) -> (r: Vec<u32>)
        ensures
            forall|i: int, j: int| 0 <= i < j < r@.len() ==> r@[i] < r@[j],
            r@.to_set() == self.view().0.difference(self.view().1.dom()).difference(self.view().2),
    {
        broadcast use vstd::std_specs::btree::group_btree_axioms, vstd::std_specs::hash::group_hash_axioms;
        let ghost want = self.view().0.difference(self.view().1.dom()).difference(self.view().2);
        let ghost all = vstd::std_specs::btree::spec_btree_keys_iter(&self.started).remaining();
        proof {
            vstd::std_specs::btree::axiom_spec_btree_keys_iter(&self.started);
            lemma_increasing(all);
            assert(all.take(0).unref().to_set() =~= Set::<u32>::empty());
        }
        let mut r: Vec<u32> = Vec::new();
        for id in it: self.started.iter()
            invariant
                it.seq() == all,
                all.unref().to_set() == self.started@,
                forall|a: int, b: int| 0 <= a < b < all.len() ==> *all[a] < *all[b],
                want == self.view().0.difference(self.view().1.dom()).difference(self.view().2),
                forall|a: int, b: int| 0 <= a < b < r@.len() ==> r@[a] < r@[b],
                forall|a: int| 0 <= a < r@.len() ==> all.take(it.index() as int).unref().contains(#[trigger] r@[a]),
                r@.to_set() == all.take(it.index() as int).unref().to_set().intersect(want),
        {
            let ghost k = it.index() as int;
            let id = *id;
            proof {
                assert(all.take(k + 1).unref() =~= all.take(k).unref().push(id));
                all.take(k).unref().lemma_push_to_set_commute(id);
                assert(all.unref()[k] == id);
                assert(self.started@.contains(id));
            }
            let finished = self.finished.contains_key(&id);
            let crashed = self.crashed.contains(&id);
            if !finished && !crashed {
                let ghost before = r@;
                proof {
                    assert forall|a: int| 0 <= a < before.len() implies before[a] < id by {
                        assert(all.take(k).unref().contains(before[a]));
                        let c = choose|c: int| 0 <= c < all.take(k).unref().len() && all.take(k).unref()[c] == before[a];
                        assert(*all[c] == before[a]);
                    }
                    before.lemma_push_to_set_commute(id);
                    assert(want.contains(id));
                }
                r.push(id);
                proof {
                    assert(r@.to_set() =~= all.take(k + 1).unref().to_set().intersect(want));
                    assert forall|a: int| 0 <= a < r@.len() implies all.take(k + 1).unref().contains(#[trigger] r@[a]) by {
                        if a < before.len() {
                            assert(all.take(k).unref().contains(r@[a]));
                            let c = choose|c: int| 0 <= c < all.take(k).unref().len() && all.take(k).unref()[c] == r@[a];
                            assert(all.take(k + 1).unref()[c] == r@[a]);
                        } else {
                            assert(all.take(k + 1).unref()[k] == id);
                        }
                    }
                }
            } else {
                proof {
                    assert(!want.contains(id));
                    assert(r@.to_set() =~= all.take(k + 1).unref().to_set().intersect(want));
                    assert forall|a: int| 0 <= a < r@.len() implies all.take(k + 1).unref().contains(#[trigger] r@[a]) by {
                        let c = choose|c: int| 0 <= c < all.take(k).unref().len() && all.take(k).unref()[c] == r@[a];
                        assert(all.take(k + 1).unref()[c] == r@[a]);
                    }
                }
            }
        }
        proof {
            assert(all.take(all.len() as int) =~= all);
            assert(r@.to_set() =~= want);
        }
        r
    }
}

proof fn lemma_keys_distinct()
    ensures
        "crashed"@ != "started"@,
        "finished"@ != "started"@,
        "finished"@ != "crashed"@,
        "result"@ != "started"@,
        "result"@ != "crashed"@,
        "result"@ != "finished"@,
        "tests"@ != "started"@,
        "tests"@ != "crashed"@,
        "tests"@ != "finished"@,
        "tests"@ != "result"@,
{
    reveal_strlit("started");
    reveal_strlit("crashed");
    reveal_strlit("finished");
    reveal_strlit("result");
    reveal_strlit("tests");
    assert("crashed"@[0] != "started"@[0]);
    assert("finished"@[0] != "started"@[0]);
    assert("finished"@[0] != "crashed"@[0]);
    assert("result"@[0] != "started"@[0]);
    assert("result"@[0] != "crashed"@[0]);
    assert("result"@[0] != "finished"@[0]);
    assert("tests"@[0] != "started"@[0]);
    assert("tests"@[0] != "crashed"@[0]);
    assert("tests"@[0] != "finished"@[0]);
    assert("tests"@[0] != "result"@[0]);
}

/// The ids as a JSON array of numbers.
fn ids_array(ids: &[u32]) -> (r: Json)
    ensures
        ids_of(r) == ids@,
        is_ids_array(r, ids@),
{
    let mut items: Vec<Json> = Vec::new();
    let mut i: usize = 0;
    while i < ids.len()
        invariant
            i <= ids.len(),
            items@.len() == i,
            ids_among(items@, i as nat) == ids@.take(i as int),
            forall|k: int| 0 <= k < i ==> #[trigger] items@[k] == Json::Number(JsonNumber::Unsigned(ids@[k] as u64)),
        decreases ids.len() - i,
    {
        let ghost before = items@;
        items.push(Json::Number(JsonNumber::Unsigned(ids[i] as u64)));
        proof {
            assert(ids_among(items@, i as nat) == ids_among(before, i as nat)) by {
                lemma_ids_among_prefix(before, items@, i as nat);
            }
            assert(ids@.take(i as int + 1) =~= ids@.take(i as int).push(ids@[i as int]));
        }
        i += 1;
    }
    proof {
        assert(ids@.take(ids.len() as int) =~= ids@);
    }
    Json::Array(items)
}

proof fn lemma_ids_among_prefix(a: Seq<Json>, b: Seq<Json>, m: nat)
    requires
        m <= a.len(),
        m <= b.len(),
        forall|k: int| 0 <= k < m ==> a[k] == b[k],
    ensures
        ids_among(a, m) == ids_among(b, m),
    decreases m,
{
    if m > 0 {
        lemma_ids_among_prefix(a, b, (m - 1) as nat);
    }
}

impl Journal {
    /// The line that records these mutations as crashed.
    pub fn record_crashed(mutation_ids: &[u32]) -> (line: Json)
        ensures
            object_keys(line) == seq!["crashed"@],
            is_ids_array(object_value(line, 0), mutation_ids@),
            effect_kind(line) == 2,
            effect_ids(line) == mutation_ids@,
    {
        let mut fields: Vec<(String, Json)> = Vec::new();
        let key = String::from_str("crashed");
        let ids = ids_array(mutation_ids);
        fields.push((key, ids));
        let line = Json::Object(fields);
        proof {
            assert(field_in(fields@, "started"@, 0).is_none());
            assert(field_in(fields@, "crashed"@, 0).is_none());
            assert(fields@[0].0@ == "crashed"@);
            assert(fields@.len() == 1);
            lemma_keys_distinct();
            assert(field_in(fields@, "started"@, 1) == field_in(fields@, "started"@, 0));
            assert(json_get(line, "started"@).is_none());
            assert(field_in(fields@, "crashed"@, 1) == Some(fields@[0].1));
            assert(object_keys(line) =~= seq!["crashed"@]);
        }
        line
    }
}

/// What an earlier worker recorded, as a later one reads it from the journal.
pub struct WorkerJournal {
    finished: HashMap<u32, CarriedResult>,
    crashed: BTreeSet<u32>,
}

/// A mutation's result, with the result of each test that ran against it by name; a later entry
/// for a name replaces an earlier.
pub struct MutationTestResults {
    pub result: MutationTestResult,
    pub results_per_test: Vec<(String, Option<MutationTestResult>)>,
}

/// The tests among the first `m` whose names are among `names`, in order.
pub open spec fn tests_named(tests: Seq<(Seq<char>, Option<MutationTestResult>)>, names: Seq<Seq<char>>, m: nat) -> Seq<
    (Seq<char>, Option<MutationTestResult>),
>
    decreases m,
{
    if m == 0 {
        Seq::empty()
    } else if names.contains(tests[m - 1].0) {
        tests_named(tests, names, (m - 1) as nat).push(tests[m - 1])
    } else {
        tests_named(tests, names, (m - 1) as nat)
    }
}

/// What an earlier worker recorded for the mutation, against the tests with these names: a
/// mutation recorded as crashed counts as crashed, with no test's result; a finished one carries its
/// result and those of its tests that are among these; of one with neither, nothing.
pub open spec fn carried_spec(finished: Map<u32, FinishedView>, crashed: Set<u32>, id: u32, names: Seq<Seq<char>>) -> Option<FinishedView> {
    if crashed.contains(id) {
        Some((MutationTestResult::Crashed, Seq::empty()))
    } else if finished.contains_key(id) {
        Some((finished[id].0, tests_named(finished[id].1, names, finished[id].1.len())))
    } else {
        None
    }
}

pub open spec fn string_views(v: Seq<String>) -> Seq<Seq<char>> {
    v.map_values(|s: String| s@)
}

/// Whether the name is among `names`.
fn has_name(names: &[String], name: &String) -> (r: bool)
    ensures
        r == string_views(names@).contains(name@),
{
    let mut i: usize = 0;
    while i < names.len()
        invariant
            i <= names.len(),
            forall|j: int| 0 <= j < i ==> names@[j]@ != name@,
        decreases names.len() - i,
    {
        if text::str_eq(names[i].as_str(), name.as_str()) {
            proof {
                assert(string_views(names@)[i as int] == name@);
            }
            return true;
        }
        i += 1;
    }
    proof {
        if string_views(names@).contains(name@) {
            let j = choose|j: int| 0 <= j < names@.len() && string_views(names@)[j] == name@;
            assert(names@[j]@ == name@);
        }
    }
    false
}

impl WorkerJournal {
    pub closed spec fn view(&self) -> (Map<u32, FinishedView>, Set<u32>) {
        (finished_view(self.finished@), self.crashed@)
    }

    /// What the earlier workers recorded in the journal with these lines.
    pub fn open(lines: &[Option<Json>]) -> (w: WorkerJournal)
        ensures
            w.view() == (journal_of(lines@).1, journal_of(lines@).2),
    {
        let Journal { started: _, finished, crashed } = Journal::read(lines);
        WorkerJournal { finished, crashed }
    }

    /// What the earlier workers recorded in the journal with these lines of text.
    pub fn open_lines(lines: &[String]) -> (w: WorkerJournal)
        ensures
            w.view() == (journal_of(json_of_lines(lines@)).1, journal_of(json_of_lines(lines@)).2),
    {
        let parsed = parse_lines(lines);
        WorkerJournal::open(parsed.as_slice())
    }

    /// What an earlier worker recorded for the mutation, if anything, against the tests with these
    /// names.
    pub fn carried(&self, mutation_id: u32, tests: &[String]) -> (r: Option<MutationTestResults>)
        ensures
            match r {
                Some(res) => carried_spec(self.view().0, self.view().1, mutation_id, string_views(tests@))
                    == Some((res.result, tests_view(res.results_per_test@))),
                None => carried_spec(self.view().0, self.view().1, mutation_id, string_views(tests@)).is_none(),
            },
    {
        broadcast use vstd::std_specs::btree::group_btree_axioms, vstd::std_specs::hash::group_hash_axioms;
        if self.crashed.contains(&mutation_id) {
            let r = MutationTestResults { result: MutationTestResult::Crashed, results_per_test: Vec::new() };
            proof {
                assert(tests_view(r.results_per_test@) =~= Seq::<(Seq<char>, Option<MutationTestResult>)>::empty());
            }
            return Some(r);
        }
        let carried = match self.finished.get(&mutation_id) {
            Some(carried) => carried,
            None => return None,
        };
        let ghost all = tests_view(carried.tests@);
        let ghost names = string_views(tests@);
        let mut out: Vec<(String, Option<MutationTestResult>)> = Vec::new();
        let mut i: usize = 0;
        while i < carried.tests.len()
            invariant
                i <= carried.tests.len(),
                all == tests_view(carried.tests@),
                names == string_views(tests@),
                tests_view(out@) == tests_named(all, names, i as nat),
            decreases carried.tests.len() - i,
        {
            let (name, result) = &carried.tests[i];
            proof {
                assert(all[i as int] == (name@, *result));
            }
            if has_name(tests, name) {
                let ghost before = out@;
                out.push((name.clone(), *result));
                proof {
                    assert(tests_view(out@) =~= tests_view(before).push((name@, *result)));
                }
            }
            i += 1;
        }
        Some(MutationTestResults { result: carried.result, results_per_test: out })
    }

    /// The line that records that these mutations have started.
    pub fn started(mutation_ids: &[u32]) -> (line: Json)
        ensures
            object_keys(line) == seq!["started"@],
            is_ids_array(object_value(line, 0), mutation_ids@),
            effect_kind(line) == 1,
            effect_ids(line) == mutation_ids@,
    {
        let mut fields: Vec<(String, Json)> = Vec::new();
        fields.push((String::from_str("started"), ids_array(mutation_ids)));
        let line = Json::Object(fields);
        proof {
            assert(field_in(fields@, "started"@, 0).is_none());
            assert(field_in(fields@, "started"@, 1) == Some(fields@[0].1));
            assert(object_keys(line) =~= seq!["started"@]);
        }
        line
    }

    /// The line that records the mutation's results.
    pub fn finished(mutation_id: u32, results: &MutationTestResults) -> (line: Json)
        ensures
            object_keys(line) == seq!["finished"@, "result"@, "tests"@],
            object_value(line, 0) == Json::Number(JsonNumber::Unsigned(mutation_id as u64)),
            is_str(object_value(line, 1), result_name_spec(results.result)),
            is_tests_array(object_value(line, 2), tests_view(results.results_per_test@)),
            effect_kind(line) == 3,
            effect_finished_id(line) == mutation_id,
            effect_result(line) == results.result,
            effect_tests(line) == tests_view(results.results_per_test@),
    {
        let mut tests: Vec<Json> = Vec::new();
        let ghost want = tests_view(results.results_per_test@);
        let mut i: usize = 0;
        while i < results.results_per_test.len()
            invariant
                i <= results.results_per_test.len(),
                want == tests_view(results.results_per_test@),
                tests@.len() == i,
                tests_among(tests@, i as nat) == want.take(i as int),
                forall|k: int| 0 <= k < i ==> test_of(#[trigger] tests@[k]) == Some(want[k]),
                forall|k: int| 0 <= k < i ==> is_test_pair(#[trigger] tests@[k], want[k]),
            decreases results.results_per_test.len() - i,
        {
            let (name, result) = &results.results_per_test[i];
            let mut pair: Vec<Json> = Vec::new();
            pair.push(Json::Str(name.clone()));
            match result {
                Some(r) => pair.push(Json::Str(String::from_str(result_name(*r)))),
                None => pair.push(Json::Null),
            }
            let item = Json::Array(pair);
            proof {
                match result {
                    Some(r) => lemma_result_name_round_trip(*r),
                    None => {},
                }
                assert(want[i as int] == (name@, *result));
                assert(test_of(item) == Some(want[i as int]));
            }
            let ghost before = tests@;
            tests.push(item);
            proof {
                lemma_tests_among_prefix(before, tests@, i as nat);
                assert(want.take(i as int + 1) =~= want.take(i as int).push(want[i as int]));
            }
            i += 1;
        }
        proof {
            assert(want.take(want.len() as int) =~= want);
        }
        let mut fields: Vec<(String, Json)> = Vec::new();
        fields.push((String::from_str("finished"), Json::Number(JsonNumber::Unsigned(mutation_id as u64))));
        fields.push((String::from_str("result"), Json::Str(String::from_str(result_name(results.result)))));
        fields.push((String::from_str("tests"), Json::Array(tests)));
        let line = Json::Object(fields);
        proof {
            lemma_keys_distinct();
            lemma_result_name_round_trip(results.result);
            assert(field_in(fields@, "started"@, 0).is_none());
            assert(field_in(fields@, "started"@, 1).is_none());
            assert(field_in(fields@, "started"@, 2).is_none());
            assert(field_in(fields@, "started"@, 3).is_none());
            assert(field_in(fields@, "crashed"@, 0).is_none());
            assert(field_in(fields@, "crashed"@, 1).is_none());
            assert(field_in(fields@, "crashed"@, 2).is_none());
            assert(field_in(fields@, "crashed"@, 3).is_none());
            assert(field_in(fields@, "finished"@, 0).is_none());
            assert(field_in(fields@, "result"@, 0).is_none());
            assert(field_in(fields@, "tests"@, 0).is_none());
            assert(field_in(fields@, "tests"@, 1).is_none());
            assert(field_in(fields@, "finished"@, 1) == Some(fields@[0].1));
            lemma_field_found(fields@, "finished"@, 1, 3);
            assert(field_in(fields@, "result"@, 1).is_none());
            assert(field_in(fields@, "result"@, 2) == Some(fields@[1].1));
            lemma_field_found(fields@, "result"@, 2, 3);
            assert(field_in(fields@, "tests"@, 2).is_none());
            assert(field_in(fields@, "tests"@, 3) == Some(fields@[2].1));
            assert(object_keys(line) =~= seq!["finished"@, "result"@, "tests"@]);
        }
        line
    }
}

proof fn lemma_tests_among_prefix(a: Seq<Json>, b: Seq<Json>, m: nat)
    requires
        m <= a.len(),
        m <= b.len(),
        forall|k: int| 0 <= k < m ==> a[k] == b[k],
    ensures
        tests_among(a, m) == tests_among(b, m),
    decreases m,
{
    if m > 0 {
        lemma_tests_among_prefix(a, b, (m - 1) as nat);
    }
}

/// The mutations a journal shows started and neither finished nor crashed.
pub open spec fn unfinished_spec(j: (Set<u32>, Map<u32, FinishedView>, Set<u32>)) -> Set<u32> {
    j.0.difference(j.1.dom()).difference(j.2)
}

/// Once the supervisor records the mutations a worker was evaluating as crashed, they are no
/// longer among those the journal shows unfinished, and nothing else changes among them.
pub proof fn lemma_recorded_crash_is_not_unfinished(lines: Seq<Option<Json>>, line: Json, ids: Seq<u32>)
    requires
        effect_kind(line) == 2,
        effect_ids(line) == ids,
    ensures
        unfinished_spec(journal_of(lines.push(Some(line)))) == unfinished_spec(journal_of(lines)).difference(ids.to_set()),
{
    let ls = lines.push(Some(line));
    assert(ls.drop_last() =~= lines);
    assert(unfinished_spec(journal_of(ls)) =~= unfinished_spec(journal_of(lines)).difference(ids.to_set()));
}

/// What a worker records of a finished mutation is what a later worker carries over for it, against
/// the tests it runs, unless the mutation has also been recorded as crashed.
pub proof fn lemma_finished_is_carried(
    lines: Seq<Option<Json>>,
    line: Json,
    id: u32,
    result: MutationTestResult,
    tests: Seq<(Seq<char>, Option<MutationTestResult>)>,
    names: Seq<Seq<char>>,
)
    requires
        effect_kind(line) == 3,
        effect_finished_id(line) == id,
        effect_result(line) == result,
        effect_tests(line) == tests,
    ensures
        ({
            let j = journal_of(lines.push(Some(line)));
            carried_spec(j.1, j.2, id, names) == (if journal_of(lines).2.contains(id) {
                Some((MutationTestResult::Crashed, Seq::empty()))
            } else {
                Some((result, tests_named(tests, names, tests.len())))
            })
        }),
{
    let ls = lines.push(Some(line));
    assert(ls.drop_last() =~= lines);
}

/// A line that is not JSON, as one cut short by a crash, is skipped: the journal records what it
/// recorded without it.
pub proof fn lemma_cut_line_is_skipped(lines: Seq<Option<Json>>)
    ensures
        journal_of(lines.push(None)) == journal_of(lines),
{
    assert(lines.push(None).drop_last() =~= lines);
}

/// A mutation the supervisor records as crashed is carried over by a later worker as crashed, with
/// no test's result, whatever was recorded of it before.
pub proof fn lemma_crash_is_carried(
    lines: Seq<Option<Json>>,
    line: Json,
    ids: Seq<u32>,
    id: u32,
    names: Seq<Seq<char>>,
)
    requires
        effect_kind(line) == 2,
        effect_ids(line) == ids,
        ids.contains(id),
    ensures
        ({
            let j = journal_of(lines.push(Some(line)));
            carried_spec(j.1, j.2, id, names) == Some((MutationTestResult::Crashed, Seq::<(Seq<char>, Option<MutationTestResult>)>::empty()))
        }),
{
    let ls = lines.push(Some(line));
    assert(ls.drop_last() =~= lines);
    assert(ids.to_set().contains(id));
}

} // verus!
