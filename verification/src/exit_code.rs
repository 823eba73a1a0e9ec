//! The codes `cargo mutest` exits with, for the scripts and CI that run it; and the log in which
//! each test harness it runs records its own code, one line per event, for `cargo mutest` to read.
use vstd::prelude::*;

use crate::text;

verus! {

/// The analysis completed, and the tests caught every mutation.
pub const SUCCESS: i32 = 0;

/// The command could not run as given: an argument is wrong, or a part it needs is not installed.
pub const USAGE: i32 = 1;

/// The analysis completed, and the tests missed some mutations.
pub const MISSED: i32 = 2;

/// The analysis completed, and some mutations timed out.
pub const TIMED_OUT: i32 = 3;

/// A harness did not build, or its tests failed with no mutation applied.
pub const BASELINE_FAILED: i32 = 4;

/// The tool panicked, or a harness ended in a way none of these codes describes.
pub const PANIC: i32 = 101;

/// The variable that names, for the harnesses Cargo runs, the file each records its exit code in.
pub const LOG_VAR: &'static str = "MUTEST_EXIT_CODE_LOG";

/// Whether a run that ended with this code evaluated every mutation it set out to.
pub fn analysis_completed(code: i32) -> (r: bool)
    ensures
        r == (code == SUCCESS || code == MISSED || code == TIMED_OUT),
{
    code == SUCCESS || code == MISSED || code == TIMED_OUT
}

/// A code that is none of the known ones is a harness's that ended abnormally: a panic.
pub open spec fn normalized(code: i32) -> i32 {
    if code == SUCCESS || code == USAGE || code == MISSED || code == TIMED_OUT || code
        == BASELINE_FAILED {
        code
    } else {
        PANIC
    }
}

/// How much a code says went wrong: a timeout outranks a miss, a failed baseline a timeout, a
/// usage error a failed baseline, and a panic everything.
pub open spec fn severity(code: i32) -> int {
    if code == SUCCESS {
        0
    } else if code == MISSED {
        1
    } else if code == TIMED_OUT {
        2
    } else if code == BASELINE_FAILED {
        3
    } else if code == USAGE {
        4
    } else {
        5
    }
}

/// The code of a run whose harnesses ended with `codes`: the one that says the most went wrong.
pub open spec fn worst_of(codes: Seq<i32>) -> i32
    decreases codes.len(),
{
    if codes.len() == 0 {
        SUCCESS
    } else {
        let w = worst_of(codes.drop_last());
        let n = normalized(codes.last());
        if severity(n) >= severity(w) {
            n
        } else {
            w
        }
    }
}

proof fn lemma_worst_of(codes: Seq<i32>)
    ensures
        forall|i: int|
            0 <= i < codes.len() ==> severity(normalized(#[trigger] codes[i])) <= severity(
                worst_of(codes),
            ),
        codes.len() == 0 ==> worst_of(codes) == SUCCESS,
        codes.len() > 0 ==> exists|i: int|
            0 <= i < codes.len() && worst_of(codes) == normalized(#[trigger] codes[i]),
    decreases codes.len(),
{
    if codes.len() > 0 {
        let init = codes.drop_last();
        lemma_worst_of(init);
        assert forall|i: int|
            0 <= i < codes.len() implies severity(normalized(#[trigger] codes[i])) <= severity(
                worst_of(codes),
            ) by {
            if i < init.len() {
                assert(codes[i] == init[i]);
            }
        }
        if severity(normalized(codes.last())) < severity(worst_of(init)) {
            let i = choose|i: int| 0 <= i < init.len() && worst_of(init) == normalized(init[i]);
            assert(codes[i] == init[i]);
        } else {
            assert(worst_of(codes) == normalized(codes[codes.len() - 1]));
        }
    }
}

/// Two codes no more and no less serious are the same code, once normalized.
proof fn lemma_severity_identifies(a: i32, b: i32)
    requires
        severity(normalized(a)) == severity(normalized(b)),
    ensures
        normalized(a) == normalized(b),
{
}

/// The code of a run depends only on which codes its harnesses ended with: not on the order in
/// which they ended, nor on how many ended with each.
pub proof fn lemma_worst_depends_only_on_codes_present(a: Seq<i32>, b: Seq<i32>)
    requires
        forall|c: i32| a.contains(c) <==> b.contains(c),
    ensures
        worst_of(a) == worst_of(b),
{
    lemma_worst_of(a);
    lemma_worst_of(b);
    if a.len() == 0 {
        if b.len() > 0 {
            assert(b.contains(b[0]));
        }
    } else if b.len() == 0 {
        assert(a.contains(a[0]));
    } else {
        let i = choose|i: int| 0 <= i < a.len() && worst_of(a) == normalized(#[trigger] a[i]);
        let j = choose|j: int| 0 <= j < b.len() && worst_of(b) == normalized(#[trigger] b[j]);
        assert(a.contains(a[i]));
        let jb = choose|k: int| 0 <= k < b.len() && b[k] == a[i];
        assert(severity(normalized(b[jb])) <= severity(worst_of(b)));
        assert(b.contains(b[j]));
        let ia = choose|k: int| 0 <= k < a.len() && a[k] == b[j];
        assert(severity(normalized(a[ia])) <= severity(worst_of(a)));
        lemma_severity_identifies(a[i], b[j]);
    }
}

/// The code of a run is one of the codes `worst` gives: one that is its own normalization.
proof fn lemma_worst_normalized(codes: Seq<i32>)
    ensures
        normalized(worst_of(codes)) == worst_of(codes),
{
    lemma_worst_of(codes);
    if codes.len() > 0 {
        let i = choose|i: int| 0 <= i < codes.len() && worst_of(codes) == normalized(#[trigger] codes[i]);
    }
}

/// The code of a run is that of the most serious of its harnesses' codes, however the harnesses
/// are grouped: the code of two runs together is the worse of their two codes.
pub proof fn lemma_worst_of_concat(a: Seq<i32>, b: Seq<i32>)
    ensures
        worst_of(a + b) == worst_of(seq![worst_of(a), worst_of(b)]),
{
    let ab = a + b;
    let wa = worst_of(a);
    let wb = worst_of(b);
    let c = worst_of(ab);
    lemma_worst_of(a);
    lemma_worst_of(b);
    lemma_worst_of(ab);
    lemma_worst_normalized(a);
    lemma_worst_normalized(b);
    lemma_worst_normalized(ab);
    let pair = seq![wa, wb];
    assert(pair.drop_last() =~= seq![wa]);
    assert(seq![wa].drop_last() =~= Seq::<i32>::empty());
    let m = worst_of(pair);
    assert(worst_of(Seq::<i32>::empty()) == SUCCESS);
    assert(seq![wa].last() == wa);
    assert(worst_of(seq![wa]) == wa);
    assert(pair.last() == wb);
    assert(m == (if severity(wb) >= severity(wa) { wb } else { wa }));
    // Each of the two is no more serious than the code of both together.
    if a.len() > 0 {
        let i = choose|i: int| 0 <= i < a.len() && wa == normalized(#[trigger] a[i]);
        assert(ab[i] == a[i]);
        assert(severity(normalized(ab[i])) <= severity(c));
    }
    assert(severity(wa) <= severity(c));
    if b.len() > 0 {
        let j = choose|j: int| 0 <= j < b.len() && wb == normalized(#[trigger] b[j]);
        assert(ab[a.len() + j] == b[j]);
        assert(severity(normalized(ab[a.len() + j])) <= severity(c));
    }
    assert(severity(wb) <= severity(c));
    // And the code of both together is one of the codes of either.
    if ab.len() > 0 {
        let k = choose|k: int| 0 <= k < ab.len() && c == normalized(#[trigger] ab[k]);
        if k < a.len() {
            assert(ab[k] == a[k]);
            assert(severity(normalized(a[k])) <= severity(wa));
        } else {
            assert(ab[k] == b[k - a.len()]);
            assert(severity(normalized(b[k - a.len()])) <= severity(wb));
        }
    } else {
        assert(a.len() == 0 && b.len() == 0);
    }
    assert(severity(normalized(c)) == severity(normalized(m)));
    lemma_severity_identifies(c, m);
}

/// A harness that succeeds changes nothing of a run's code, and one that panics makes it a panic.
pub proof fn lemma_worst_with_success_or_panic(codes: Seq<i32>)
    ensures
        worst_of(codes.push(SUCCESS)) == worst_of(codes),
        worst_of(codes.push(PANIC)) == PANIC,
{
    lemma_worst_normalized(codes);
    assert(codes.push(SUCCESS).drop_last() =~= codes);
    assert(codes.push(PANIC).drop_last() =~= codes);
}

/// The code of a run does not depend on the order in which its harnesses ended.
pub proof fn lemma_worst_of_permutation(a: Seq<i32>, p: Seq<i32>)
    requires
        a.to_multiset() == p.to_multiset(),
    ensures
        worst_of(a) == worst_of(p),
{
    broadcast use vstd::seq_lib::group_to_multiset_ensures;
    assert forall|c: i32| a.contains(c) <==> p.contains(c) by {
        assert(a.contains(c) <==> a.to_multiset().count(c) > 0);
        assert(p.contains(c) <==> p.to_multiset().count(c) > 0);
    }
    lemma_worst_depends_only_on_codes_present(a, p);
}

/// The code a run exits with that ended in each of these ways, as it does when it runs several
/// harnesses: the one that says the most went wrong, and success when there were none.
pub fn worst(codes: &[i32]) -> (r: i32)
    ensures
        r == worst_of(codes@),
        forall|i: int|
            0 <= i < codes@.len() ==> severity(normalized(#[trigger] codes@[i])) <= severity(r),
        codes@.len() == 0 ==> r == SUCCESS,
        codes@.len() > 0 ==> exists|i: int|
            0 <= i < codes@.len() && r == normalized(#[trigger] codes@[i]),
{
    let mut w: i32 = SUCCESS;
    let mut i: usize = 0;
    while i < codes.len()
        invariant
            i <= codes.len(),
            w == worst_of(codes@.take(i as int)),
        decreases codes.len() - i,
    {
        let code = codes[i];
        let n: i32 = if code == SUCCESS || code == USAGE || code == MISSED || code == TIMED_OUT
            || code == BASELINE_FAILED {
            code
        } else {
            PANIC
        };
        if severity_of(n) >= severity_of(w) {
            w = n;
        }
        proof {
            assert(codes@.take(i as int + 1).drop_last() =~= codes@.take(i as int));
        }
        i += 1;
    }
    proof {
        assert(codes@.take(codes.len() as int) =~= codes@);
        lemma_worst_of(codes@);
    }
    w
}

fn severity_of(code: i32) -> (r: u8)
    ensures
        r == severity(code),
{
    if code == SUCCESS {
        0
    } else if code == MISSED {
        1
    } else if code == TIMED_OUT {
        2
    } else if code == BASELINE_FAILED {
        3
    } else if code == USAGE {
        4
    } else {
        5
    }
}

/// One event a harness records in the log.
#[derive(Clone, Copy, Debug, PartialEq, Eq, Structural)]
pub enum HarnessRecord {
    /// The harness with this process id has started.
    Started(u32),
    /// The harness with this process id has exited with this code.
    Exited(u32, i32),
}

pub open spec fn started_word() -> Seq<char> {
    seq!['s', 't', 'a', 'r', 't', 'e', 'd']
}

pub open spec fn exited_word() -> Seq<char> {
    seq!['e', 'x', 'i', 't', 'e', 'd']
}

/// What a line of the log records, if it is one of `started <pid>` and `exited <pid> <code>`,
/// its words separated by single spaces.
pub open spec fn record_of_line(line: Seq<char>) -> Option<HarnessRecord> {
    let w = text::split(line, ' ');
    if w.len() == 2 && w[0] == started_word() && text::parse_u32(w[1]).is_some() {
        Some(HarnessRecord::Started(text::parse_u32(w[1]).unwrap()))
    } else if w.len() == 3 && w[0] == exited_word() && text::parse_u32(w[1]).is_some() && text::parse_i32(
        w[2],
    ).is_some() {
        Some(HarnessRecord::Exited(text::parse_u32(w[1]).unwrap(), text::parse_i32(w[2]).unwrap()))
    } else {
        None
    }
}

/// The latest harness with this process id that has recorded no exit yet; -1 if there is none.
pub open spec fn last_open(h: Seq<(u32, Option<i32>)>, pid: u32) -> int
    decreases h.len(),
{
    if h.len() == 0 {
        -1
    } else if h.last().0 == pid && h.last().1.is_none() {
        h.len() - 1
    } else {
        last_open(h.drop_last(), pid)
    }
}

/// The harnesses, in the order they started, once a record is taken in. An exit goes to the
/// latest harness with its process id that has not exited, as an id can go to a later harness once
/// an earlier one has exited; an exit with no such harness is one of its own.
pub open spec fn apply_record(h: Seq<(u32, Option<i32>)>, r: Option<HarnessRecord>) -> Seq<
    (u32, Option<i32>),
> {
    match r {
        None => h,
        Some(HarnessRecord::Started(pid)) => h.push((pid, None)),
        Some(HarnessRecord::Exited(pid, code)) => {
            let k = last_open(h, pid);
            if k >= 0 {
                h.update(k, (pid, Some(code)))
            } else {
                h.push((pid, Some(code)))
            }
        },
    }
}

pub open spec fn harnesses_of_lines(ls: Seq<Seq<char>>) -> Seq<(u32, Option<i32>)>
    decreases ls.len(),
{
    if ls.len() == 0 {
        Seq::empty()
    } else {
        apply_record(harnesses_of_lines(ls.drop_last()), record_of_line(ls.last()))
    }
}

/// The code of each harness; one that recorded its start and no exit counts as having panicked.
pub open spec fn codes_of(h: Seq<(u32, Option<i32>)>) -> Seq<i32> {
    h.map_values(
        |e: (u32, Option<i32>)|
            match e.1 {
                Some(code) => code,
                None => PANIC,
            },
    )
}

/// The code each harness recorded in the log `log`, in the order they started.
pub open spec fn read_log(log: Seq<char>) -> Seq<i32> {
    codes_of(harnesses_of_lines(text::lines(log)))
}

proof fn lemma_last_open(h: Seq<(u32, Option<i32>)>, pid: u32)
    ensures
        -1 <= last_open(h, pid) < h.len(),
    decreases h.len(),
{
    if h.len() > 0 {
        lemma_last_open(h.drop_last(), pid);
    }
}

/// What a line records, if anything.
fn record_of_chars(line: &[char]) -> (r: Option<HarnessRecord>)
    ensures
        r == record_of_line(line@),
{
    let words = text::split_chars(line, ' ');
    proof {
        reveal_strlit("started");
        reveal_strlit("exited");
        assert("started"@ =~= started_word());
        assert("exited"@ =~= exited_word());
        assert(words@.len() == text::split(line@, ' ').len());
        assert(forall|i: int| 0 <= i < words@.len() ==> #[trigger] words@[i]@ == text::split(line@, ' ')[i]);
    }
    if words.len() == 2 && text::chars_eq(words[0].as_slice(), "started") {
        match text::parse_u32_chars(words[1].as_slice()) {
            Some(pid) => Some(HarnessRecord::Started(pid)),
            None => None,
        }
    } else if words.len() == 3 && text::chars_eq(words[0].as_slice(), "exited") {
        match (text::parse_u32_chars(words[1].as_slice()), text::parse_i32_chars(words[2].as_slice())) {
            (Some(pid), Some(code)) => Some(HarnessRecord::Exited(pid, code)),
            _ => None,
        }
    } else {
        None
    }
}

/// Takes one record in.
fn apply(h: &mut Vec<(u32, Option<i32>)>, r: Option<HarnessRecord>)
    ensures
        final(h)@ == apply_record(old(h)@, r),
{
    match r {
        None => {},
        Some(HarnessRecord::Started(pid)) => {
            h.push((pid, None));
        },
        Some(HarnessRecord::Exited(pid, code)) => {
            let mut k: usize = h.len();
            proof {
                assert(h@.take(k as int) =~= h@);
            }
            while k > 0
                invariant
                    k <= h.len(),
                    h@ == old(h)@,
                    r == Some(HarnessRecord::Exited(pid, code)),
                    last_open(h@, pid) == last_open(h@.take(k as int), pid),
                decreases k,
            {
                let (started, exit) = h[k - 1];
                proof {
                    assert(h@.take(k as int).drop_last() =~= h@.take(k - 1));
                    assert(h@.take(k as int).last() == h@[k - 1]);
                }
                if started == pid && exit.is_none() {
                    proof {
                        assert(last_open(h@.take(k as int), pid) == k - 1);
                    }
                    let ghost before = h@;
                    h.set(k - 1, (pid, Some(code)));
                    proof {
                        assert(before == old(h)@);
                        assert(last_open(old(h)@, pid) == k - 1);
                        assert(h@ =~= old(h)@.update(k - 1, (pid, Some(code))));
                        assert(h@ == apply_record(old(h)@, r));
                    }
                    return;
                }
                k -= 1;
            }
            h.push((pid, Some(code)));
        },
    }
}

/// Takes a finished line in, without the carriage return that may end it.
fn take_line(h: &mut Vec<(u32, Option<i32>)>, line: Vec<char>)
    ensures
        final(h)@ == apply_record(old(h)@, record_of_line(text::strip_cr(line@))),
{
    let mut line = line;
    let n = line.len();
    if n > 0 && line[n - 1] == '\r' {
        line.pop();
    }
    let r = record_of_chars(line.as_slice());
    apply(h, r);
}

/// The code each harness recorded in the log, in the order they started. A harness that recorded
/// its start and no exit counts as having panicked.
pub fn read(log: &str) -> (codes: Vec<i32>)
    ensures
        codes@ == read_log(log@),
{
    let chars = text::chars_of(log);
    let mut harnesses: Vec<(u32, Option<i32>)> = Vec::new();
    let mut line: Vec<char> = Vec::new();
    let ghost mut done: Seq<Seq<char>> = Seq::empty();
    let mut i: usize = 0;
    while i < chars.len()
        invariant
            i <= chars.len(),
            done.push(line@) == text::split(chars@.take(i as int), '\n'),
            harnesses@ == harnesses_of_lines(done.map_values(|l: Seq<char>| text::strip_cr(l))),
        decreases chars.len() - i,
    {
        let c = chars[i];
        proof {
            text::lemma_split_len(chars@.take(i as int), '\n');
            assert(chars@.take(i as int + 1).drop_last() =~= chars@.take(i as int));
        }
        if c == '\n' {
            let ghost before = done;
            let finished = line;
            line = Vec::new();
            proof {
                done = done.push(finished@);
                let f = |l: Seq<char>| text::strip_cr(l);
                assert(done.map_values(f).drop_last() =~= before.map_values(f));
            }
            take_line(&mut harnesses, finished);
            proof {
                assert(done.push(line@) =~= before.push(done.last()).push(Seq::<char>::empty()));
            }
        } else {
            let ghost old_line = line@;
            line.push(c);
            proof {
                assert(done.push(line@) =~= done.push(old_line).update(
                    done.len() as int,
                    old_line.push(c),
                ));
            }
        }
        i += 1;
    }
    proof {
        assert(chars@.take(chars.len() as int) =~= chars@);
    }
    if line.len() > 0 {
        let ghost before = done;
        let ghost last = line@;
        let r = record_of_chars(line.as_slice());
        apply(&mut harnesses, r);
        proof {
            let f = |l: Seq<char>| text::strip_cr(l);
            assert(done.push(line@).drop_last() =~= done);
            assert(text::lines(log@) =~= before.map_values(f).push(last));
            assert(text::lines(log@).drop_last() =~= before.map_values(f));
        }
    } else {
        proof {
            let f = |l: Seq<char>| text::strip_cr(l);
            assert(done.push(line@).drop_last() =~= done);
            assert(text::lines(log@) =~= done.map_values(f));
        }
    }
    let mut codes: Vec<i32> = Vec::new();
    let mut j: usize = 0;
    while j < harnesses.len()
        invariant
            j <= harnesses.len(),
            codes@ == codes_of(harnesses@.take(j as int)),
        decreases harnesses.len() - j,
    {
        let (_, exit) = harnesses[j];
        let code = match exit {
            Some(code) => code,
            None => PANIC,
        };
        codes.push(code);
        proof {
            assert(codes_of(harnesses@.take(j as int + 1)) =~= codes_of(harnesses@.take(j as int)).push(code));
        }
        j += 1;
    }
    proof {
        assert(harnesses@.take(harnesses.len() as int) =~= harnesses@);
    }
    codes
}

/// The line a record is written as, without its line ending.
pub open spec fn record_body(r: HarnessRecord) -> Seq<char> {
    match r {
        HarnessRecord::Started(pid) => started_word() + seq![' '] + text::decimal(pid as nat),
        HarnessRecord::Exited(pid, code) => exited_word() + seq![' '] + text::decimal(pid as nat)
            + seq![' '] + text::signed_decimal(code as int),
    }
}

/// The text a record is written as: one line.
pub open spec fn record_text(r: HarnessRecord) -> Seq<char> {
    record_body(r) + seq!['\n']
}

/// The text of a log that these records were written to, one after another.
pub open spec fn records_text(rs: Seq<HarnessRecord>) -> Seq<char>
    decreases rs.len(),
{
    if rs.len() == 0 {
        Seq::empty()
    } else {
        records_text(rs.drop_last()) + record_text(rs.last())
    }
}

/// The harnesses these records describe, in the order they started.
pub open spec fn harnesses_of_records(rs: Seq<HarnessRecord>) -> Seq<(u32, Option<i32>)>
    decreases rs.len(),
{
    if rs.len() == 0 {
        Seq::empty()
    } else {
        apply_record(harnesses_of_records(rs.drop_last()), Some(rs.last()))
    }
}

/// The line that records that the harness with this process id has started.
pub fn record_start(pid: u32) -> (line: String)
    ensures
        line@ == record_text(HarnessRecord::Started(pid)),
{
    proof {
        reveal_strlit("started ");
        reveal_strlit("\n");
    }
    let mut line = String::from_str("started ");
    text::push_decimal(&mut line, pid as u64);
    line.append("\n");
    proof {
        assert(line@ =~= record_text(HarnessRecord::Started(pid)));
    }
    line
}

/// The line that records that the harness with this process id has exited with this code.
pub fn record_exit(pid: u32, code: i32) -> (line: String)
    ensures
        line@ == record_text(HarnessRecord::Exited(pid, code)),
{
    proof {
        reveal_strlit("exited ");
        reveal_strlit(" ");
        reveal_strlit("\n");
    }
    let mut line = String::from_str("exited ");
    text::push_decimal(&mut line, pid as u64);
    line.append(" ");
    text::push_signed_decimal(&mut line, code as i64);
    line.append("\n");
    proof {
        assert(line@ =~= record_text(HarnessRecord::Exited(pid, code)));
    }
    line
}

/// A word, a separator and the rest split into the word and the pieces of the rest.
proof fn lemma_split_word(w: Seq<char>, rest: Seq<char>, sep: char)
    requires
        !w.contains(sep),
    ensures
        text::split(w + seq![sep] + rest, sep) == seq![w] + text::split(rest, sep),
{
    text::lemma_split_without_sep(w, sep);
    lemma_split_single(sep);
    text::lemma_split_concat(w, seq![sep], sep);
    let ws = w + seq![sep];
    assert(w + Seq::<char>::empty() =~= w);
    assert(text::split(ws, sep) =~= seq![w, Seq::<char>::empty()]);
    text::lemma_split_concat(ws, rest, sep);
    text::lemma_split_len(rest, sep);
    assert(Seq::<char>::empty() + text::split(rest, sep)[0] =~= text::split(rest, sep)[0]);
    assert(seq![w] + seq![text::split(rest, sep)[0]] + text::split(rest, sep).skip(1) =~= seq![w]
        + text::split(rest, sep));
}

proof fn lemma_split_single(sep: char)
    ensures
        text::split(seq![sep], sep) == seq![Seq::<char>::empty(), Seq::<char>::empty()],
{
    assert(seq![sep].drop_last() =~= Seq::<char>::empty());
    assert(text::split(Seq::<char>::empty(), sep) == seq![Seq::<char>::empty()]);
    assert(seq![Seq::<char>::empty()].push(Seq::<char>::empty()) =~= seq![
        Seq::<char>::empty(),
        Seq::<char>::empty(),
    ]);
}

proof fn lemma_words_have_no_space()
    ensures
        !started_word().contains(' '),
        !exited_word().contains(' '),
        !started_word().contains('\n'),
        !exited_word().contains('\n'),
{
    assert(!started_word().contains(' ')) by {
        if started_word().contains(' ') {
            let i = choose|i: int| 0 <= i < started_word().len() && started_word()[i] == ' ';
        }
    }
    assert(!exited_word().contains(' ')) by {
        if exited_word().contains(' ') {
            let i = choose|i: int| 0 <= i < exited_word().len() && exited_word()[i] == ' ';
        }
    }
    assert(!started_word().contains('\n')) by {
        if started_word().contains('\n') {
            let i = choose|i: int| 0 <= i < started_word().len() && started_word()[i] == '\n';
        }
    }
    assert(!exited_word().contains('\n')) by {
        if exited_word().contains('\n') {
            let i = choose|i: int| 0 <= i < exited_word().len() && exited_word()[i] == '\n';
        }
    }
}

proof fn lemma_no_char_concat(a: Seq<char>, b: Seq<char>, c: char)
    requires
        !a.contains(c),
        !b.contains(c),
    ensures
        !(a + b).contains(c),
{
    if (a + b).contains(c) {
        let i = choose|i: int| 0 <= i < (a + b).len() && (a + b)[i] == c;
        if i < a.len() {
            assert(a[i] == c);
        } else {
            assert(b[i - a.len()] == c);
        }
    }
}

proof fn lemma_no_newline_in_separator(sep: char)
    requires
        sep != '\n',
    ensures
        !seq![sep].contains('\n'),
{
    if seq![sep].contains('\n') {
        let i = choose|i: int| 0 <= i < 1 && seq![sep][i] == '\n';
    }
}

/// A record's line holds no line ending, does not end in a carriage return, and reads back as the
/// record.
proof fn lemma_record_body(r: HarnessRecord)
    ensures
        !record_body(r).contains('\n'),
        record_body(r).len() > 0,
        record_body(r).last() != '\r',
        record_of_line(record_body(r)) == Some(r),
{
    lemma_words_have_no_space();
    lemma_no_newline_in_separator(' ');
    match r {
        HarnessRecord::Started(pid) => {
            text::lemma_decimal_digits(pid as nat);
            text::lemma_parse_decimal(pid as nat, u32::MAX as nat);
            let d = text::decimal(pid as nat);
            lemma_split_word(started_word(), d, ' ');
            text::lemma_split_without_sep(d, ' ');
            assert(text::split(record_body(r), ' ') =~= seq![started_word(), d]);
            lemma_no_char_concat(started_word(), seq![' '], '\n');
            lemma_no_char_concat(started_word() + seq![' '], d, '\n');
            assert(record_body(r).last() == d.last());
        },
        HarnessRecord::Exited(pid, code) => {
            text::lemma_decimal_digits(pid as nat);
            text::lemma_parse_decimal(pid as nat, u32::MAX as nat);
            text::lemma_parse_signed_decimal(code);
            let d = text::decimal(pid as nat);
            let c = text::signed_decimal(code as int);
            assert(record_body(r) =~= exited_word() + seq![' '] + (d + seq![' '] + c));
            lemma_split_word(exited_word(), d + seq![' '] + c, ' ');
            lemma_split_word(d, c, ' ');
            text::lemma_split_without_sep(c, ' ');
            assert(text::split(record_body(r), ' ') =~= seq![exited_word(), d, c]);
            lemma_no_char_concat(exited_word(), seq![' '], '\n');
            lemma_no_char_concat(exited_word() + seq![' '], d, '\n');
            lemma_no_char_concat(exited_word() + seq![' '] + d, seq![' '], '\n');
            lemma_no_char_concat(exited_word() + seq![' '] + d + seq![' '], c, '\n');
            assert(record_body(r).last() == c.last());
        },
    }
}

proof fn lemma_records_split(rs: Seq<HarnessRecord>)
    ensures
        text::split(records_text(rs), '\n') == rs.map_values(|r: HarnessRecord| record_body(r)).push(
            Seq::<char>::empty(),
        ),
    decreases rs.len(),
{
    let f = |r: HarnessRecord| record_body(r);
    if rs.len() == 0 {
        assert(rs.map_values(f).push(Seq::<char>::empty()) =~= seq![Seq::<char>::empty()]);
    } else {
        let init = rs.drop_last();
        let r = rs.last();
        lemma_records_split(init);
        lemma_record_body(r);
        let b = record_body(r);
        text::lemma_split_without_sep(b, '\n');
        lemma_split_single('\n');
        text::lemma_split_concat(b, seq!['\n'], '\n');
        assert(b + Seq::<char>::empty() =~= b);
        assert(text::split(record_text(r), '\n') =~= seq![b, Seq::<char>::empty()]);
        text::lemma_split_concat(records_text(init), record_text(r), '\n');
        assert(Seq::<char>::empty() + b =~= b);
        assert(rs.map_values(f) =~= init.map_values(f).push(b));
        assert(text::split(records_text(rs), '\n') =~= init.map_values(f).push(b).push(
            Seq::<char>::empty(),
        ));
    }
}

proof fn lemma_harnesses_of_bodies(rs: Seq<HarnessRecord>)
    ensures
        harnesses_of_lines(rs.map_values(|r: HarnessRecord| record_body(r))) == harnesses_of_records(
            rs,
        ),
    decreases rs.len(),
{
    let f = |r: HarnessRecord| record_body(r);
    if rs.len() > 0 {
        let init = rs.drop_last();
        lemma_harnesses_of_bodies(init);
        lemma_record_body(rs.last());
        assert(rs.map_values(f).drop_last() =~= init.map_values(f));
    }
}

/// What the harnesses of a run record is read back: the log that holds the lines of these
/// records, one after another, reads as the codes of the harnesses they describe.
pub proof fn lemma_records_read_back(rs: Seq<HarnessRecord>)
    ensures
        read_log(records_text(rs)) == codes_of(harnesses_of_records(rs)),
{
    let f = |r: HarnessRecord| record_body(r);
    let g = |l: Seq<char>| text::strip_cr(l);
    lemma_records_split(rs);
    let p = text::split(records_text(rs), '\n');
    assert(p.drop_last() =~= rs.map_values(f));
    assert forall|i: int| 0 <= i < rs.len() implies text::strip_cr(#[trigger] rs.map_values(f)[i])
        == rs.map_values(f)[i] by {
        lemma_record_body(rs[i]);
    }
    assert(p.drop_last().map_values(g) =~= rs.map_values(f));
    assert(text::lines(records_text(rs)) =~= rs.map_values(f));
    lemma_harnesses_of_bodies(rs);
}

/// The harnesses once each of `ys` is taken in, in order, after those of `h`.
spec fn apply_lines(h: Seq<(u32, Option<i32>)>, ys: Seq<Seq<char>>) -> Seq<(u32, Option<i32>)>
    decreases ys.len(),
{
    if ys.len() == 0 {
        h
    } else {
        apply_record(apply_lines(h, ys.drop_last()), record_of_line(ys.last()))
    }
}

proof fn lemma_harnesses_of_concat(xs: Seq<Seq<char>>, ys: Seq<Seq<char>>)
    ensures
        harnesses_of_lines(xs + ys) == apply_lines(harnesses_of_lines(xs), ys),
    decreases ys.len(),
{
    if ys.len() == 0 {
        assert(xs + ys =~= xs);
    } else {
        lemma_harnesses_of_concat(xs, ys.drop_last());
        assert((xs + ys).drop_last() =~= xs + ys.drop_last());
        assert((xs + ys).last() == ys.last());
    }
}

/// Text that is empty or ends in the separator ends in an empty piece.
proof fn lemma_split_ends_empty(a: Seq<char>, sep: char)
    requires
        a.len() == 0 || a.last() == sep,
    ensures
        text::split(a, sep).last() == Seq::<char>::empty(),
{
}

/// A line that is not a record can be taken out of a log, with its line ending, without changing
/// what the log reads as: where it starts a line and holds no other line ending, and, without a
/// carriage return that ends it, is neither `started <pid>` nor `exited <pid> <code>`.
#[verifier::rlimit(40)]
pub proof fn lemma_unrecognised_line_is_dropped(a: Seq<char>, l: Seq<char>, b: Seq<char>)
    requires
        a.len() == 0 || a.last() == '\n',
        !l.contains('\n'),
        record_of_line(text::strip_cr(l)).is_none(),
    ensures
        read_log(a + l + seq!['\n'] + b) == read_log(a + b),
{
    let nl = '\n';
    let pa = text::split(a, nl);
    let pb = text::split(b, nl);
    text::lemma_split_len(a, nl);
    text::lemma_split_len(b, nl);
    lemma_split_ends_empty(a, nl);
    let a0 = pa.drop_last();
    // The line and its ending are the line, then nothing.
    let m = l + seq![nl];
    text::lemma_split_without_sep(l, nl);
    lemma_split_single(nl);
    text::lemma_split_concat(l, seq![nl], nl);
    assert(l + Seq::<char>::empty() =~= l);
    assert(text::split(m, nl) =~= seq![l, Seq::<char>::empty()]);
    // After `a`, which ends a line.
    text::lemma_split_concat(a, m, nl);
    assert(Seq::<char>::empty() + l =~= l);
    let pm = text::split(a + m, nl);
    assert(pm =~= a0 + seq![l] + seq![Seq::<char>::empty()]);
    // Then `b`.
    text::lemma_split_concat(a + m, b, nl);
    assert(Seq::<char>::empty() + pb[0] =~= pb[0]);
    assert(pb =~= seq![pb[0]] + pb.skip(1));
    let px = text::split(a + m + b, nl);
    assert(px =~= a0 + seq![l] + pb);
    text::lemma_split_concat(a, b, nl);
    let py = text::split(a + b, nl);
    assert(py =~= a0 + pb);
    assert(a + l + seq![nl] + b =~= a + m + b);
    // The lines: those of `a`, the line, and those of `b`; and without it.
    let f = |x: Seq<char>| text::strip_cr(x);
    let l1 = a0.map_values(f);
    let l2 = if pb.last().len() == 0 {
        pb.drop_last().map_values(f)
    } else {
        pb.drop_last().map_values(f).push(pb.last())
    };
    assert(px.drop_last() =~= a0 + seq![l] + pb.drop_last());
    assert(py.drop_last() =~= a0 + pb.drop_last());
    assert(px.last() == pb.last());
    assert(py.last() == pb.last());
    let lx = text::lines(a + m + b);
    let ly = text::lines(a + b);
    assert(lx =~= l1 + seq![text::strip_cr(l)] + l2);
    assert(ly =~= l1 + l2);
    // Taking the line in changes nothing.
    let r = text::strip_cr(l);
    lemma_harnesses_of_concat(l1 + seq![r], l2);
    lemma_harnesses_of_concat(l1, l2);
    assert((l1 + seq![r]).drop_last() =~= l1);
    assert(harnesses_of_lines(l1 + seq![r]) == harnesses_of_lines(l1));
    assert(l1 + seq![r] + l2 =~= lx);
}

} // verus!
