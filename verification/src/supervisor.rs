//! A harness run is two processes: the supervisor, which Cargo starts, and the worker, which it
//! starts from the same binary to run the mutation analysis. These are the supervisor's decisions:
//! what a stop signal reaches, whether a worker may start, which mutations a worker that went down
//! was evaluating, how the run ends, and which processes it leaves behind to kill.
use vstd::prelude::*;

use crate::exit_code;
use crate::text;

verus! {

/// The variable that gives the worker its supervisor's process id.
pub const SUPERVISOR_PID_VAR: &'static str = "__MUTEST_SUPERVISOR_PID";

/// The variable that gives the worker how long the run had gone on when it was started, in
/// nanoseconds.
pub const RUN_ELAPSED_VAR: &'static str = "__MUTEST_RUN_ELAPSED_NANOS";

#[verifier::external_type_specification]
#[verifier::external_body]
pub struct ExInstant(std::time::Instant);

/// The duration of this many nanoseconds, as `Duration::from_nanos` gives it.
pub uninterp spec fn nanos_duration(nanos: u64) -> std::time::Duration;

/// The instant `d` before `now`, as `Instant::checked_sub` gives it: `None` where it cannot be
/// represented.
pub uninterp spec fn instant_minus(now: std::time::Instant, d: std::time::Duration) -> Option<
    std::time::Instant,
>;

/// `Duration::from_nanos`: the duration of this many nanoseconds. It depends on the number alone,
/// so its result is named: `nanos_duration`.
#[verifier::external_body]
fn duration_from_nanos(nanos: u64) -> (d: std::time::Duration)
    ensures
        d == nanos_duration(nanos),
{
    std::time::Duration::from_nanos(nanos)
}

/// `Instant::checked_sub`: the instant that long before `now`, where it can be represented. It
/// depends on its two arguments alone, so its result is named: `instant_minus`.
#[verifier::external_body]
fn instant_checked_sub(now: std::time::Instant, d: std::time::Duration) -> (r: Option<
    std::time::Instant,
>)
    ensures
        r == instant_minus(now, d),
{
    now.checked_sub(d)
}

/// When a run that had gone on for `elapsed_nanos` by `now` started: that many nanoseconds before
/// `now`; `None` where the text is not a number of nanoseconds, or where that instant cannot be
/// represented.
pub fn run_start_before(now: std::time::Instant, elapsed_nanos: &str) -> (r: Option<
    std::time::Instant,
>)
    ensures
        r == (match text::parse_u64(elapsed_nanos@) {
            Some(n) => instant_minus(now, nanos_duration(n)),
            None => None,
        }),
{
    let chars = text::chars_of(elapsed_nanos);
    match text::parse_u64_chars(chars.as_slice()) {
        Some(nanos) => instant_checked_sub(now, duration_from_nanos(nanos)),
        None => None,
    }
}

/// How a worker ended: the signal that killed it, or the code it exited with; neither where the
/// platform says nothing of it.
#[derive(Clone, Copy, Debug, PartialEq, Eq, Structural)]
pub struct WorkerStatus {
    pub signal: Option<i32>,
    pub code: Option<i32>,
}

/// The code a process that ended so is reported with, as a shell reports it: a process killed by a
/// signal ends with 128 plus the signal's number; one that ended without a code, as a panic.
pub open spec fn exit_code_spec(status: WorkerStatus) -> int {
    match status.signal {
        Some(signal) => 128 + signal,
        None => match status.code {
            Some(code) => code as int,
            None => exit_code::PANIC as int,
        },
    }
}

/// The code a process that ended so is reported with, as a shell reports it.
pub fn exit_code_of(status: WorkerStatus) -> (code: i32)
    requires
        status.signal matches Some(signal) ==> signal <= i32::MAX - 128,
    ensures
        code == exit_code_spec(status),
{
    match status.signal {
        Some(signal) => 128 + signal,
        None => match status.code {
            Some(code) => code,
            None => exit_code::PANIC,
        },
    }
}

/// How a worker ended, in words: not the platform's own, which also say whether a core was dumped.
pub open spec fn describe_end_spec(status: WorkerStatus) -> Seq<char> {
    match status.signal {
        Some(signal) => "was killed by signal "@ + text::signed_decimal(signal as int),
        None => match status.code {
            Some(code) => "exited with code "@ + text::signed_decimal(code as int),
            None => "ended"@,
        },
    }
}

/// How a worker ended, in words.
pub fn describe_end(status: WorkerStatus) -> (r: String)
    ensures
        r@ == describe_end_spec(status),
{
    match status.signal {
        Some(signal) => {
            let mut r = String::from_str("was killed by signal ");
            text::push_signed_decimal(&mut r, signal as i64);
            r
        },
        None => match status.code {
            Some(code) => {
                let mut r = String::from_str("exited with code ");
                text::push_signed_decimal(&mut r, code as i64);
                r
            },
            None => String::from_str("ended"),
        },
    }
}

/// Whether the worker was stopped by someone, rather than by what it ran: a stop signal has come,
/// or a stop signal killed it.
pub open spec fn stopped_on_request_spec(pending: Option<i32>, status: WorkerStatus, stop_signals: Seq<i32>) -> bool {
    pending.is_some() || (status.signal matches Some(signal) && stop_signals.contains(signal))
}

fn contains_signal(signals: &[i32], signal: i32) -> (r: bool)
    ensures
        r == signals@.contains(signal),
{
    let mut i: usize = 0;
    while i < signals.len()
        invariant
            i <= signals.len(),
            forall|j: int| 0 <= j < i ==> signals@[j] != signal,
        decreases signals.len() - i,
    {
        if signals[i] == signal {
            return true;
        }
        i += 1;
    }
    false
}

/// The signals the supervisor forwards to the worker, and what it has seen of them.
pub struct SignalState {
    /// The running worker, which a stop signal is forwarded to; 0 while there is none.
    pub worker_pid: i32,
    /// The stop signal received last; 0 until one is.
    pub stop_signal: i32,
}

impl SignalState {
    /// No worker, and no stop signal yet.
    pub fn new() -> (s: Self)
        ensures
            s.worker_pid == 0,
            s.stop_signal == 0,
    {
        SignalState { worker_pid: 0, stop_signal: 0 }
    }

    /// The stop signal that has come, if one has.
    pub open spec fn pending(&self) -> Option<i32> {
        if self.stop_signal == 0 {
            None
        } else {
            Some(self.stop_signal)
        }
    }

    /// The process a stop signal goes on to: the running worker, if there is one.
    pub open spec fn forward_target(&self) -> Option<i32> {
        if self.worker_pid > 0 {
            Some(self.worker_pid)
        } else {
            None
        }
    }

    /// Whether a worker may start: not once a stop signal has come, which is then the answer.
    pub open spec fn start_decision(&self) -> Result<(), i32> {
        match self.pending() {
            Some(signal) => Err(signal),
            None => Ok(()),
        }
    }

    /// The stop signal that has come, if one has.
    pub fn stop_signal(&self) -> (r: Option<i32>)
        ensures
            r == self.pending(),
    {
        if self.stop_signal == 0 {
            None
        } else {
            Some(self.stop_signal)
        }
    }

    /// A stop signal has come: it is remembered, and goes on to the running worker, whose process
    /// id is returned; to none while no worker runs.
    pub fn forward_signal(&mut self, signal: i32) -> (kill: Option<i32>)
        ensures
            final(self).stop_signal == signal,
            final(self).worker_pid == old(self).worker_pid,
            kill == old(self).forward_target(),
    {
        self.stop_signal = signal;
        if self.worker_pid > 0 {
            Some(self.worker_pid)
        } else {
            None
        }
    }

    /// Whether a worker may start: not once the run has been asked to stop, when it ends instead as
    /// the stop signal, returned here, would have ended the worker.
    pub fn may_start(&self) -> (r: Result<(), i32>)
        ensures
            r == self.start_decision(),
    {
        match self.stop_signal() {
            Some(signal) => Err(signal),
            None => Ok(()),
        }
    }

    /// A worker with this process id has started. A stop that came while it was starting found no
    /// worker to forward it to, so its signal is returned, for the new worker to be sent.
    pub fn started(&mut self, pid: i32) -> (kill: Option<i32>)
        ensures
            final(self).worker_pid == pid,
            final(self).stop_signal == old(self).stop_signal,
            kill == old(self).pending(),
    {
        self.worker_pid = pid;
        self.stop_signal()
    }

    /// The worker is about to be reaped: from then on its id can go to another process, so no stop
    /// signal goes to it any more.
    pub fn reaping(&mut self)
        ensures
            final(self).worker_pid == 0,
            final(self).stop_signal == old(self).stop_signal,
    {
        self.worker_pid = 0;
    }

    /// Whether the worker, which ended so, was stopped by someone rather than by what it ran.
    pub fn stopped_on_request(&self, status: WorkerStatus, stop_signals: &[i32]) -> (r: bool)
        ensures
            r == stopped_on_request_spec(self.pending(), status, stop_signals@),
    {
        if self.stop_signal != 0 {
            return true;
        }
        match status.signal {
            Some(signal) => contains_signal(stop_signals, signal),
            None => false,
        }
    }
}

/// A stop asked for between workers, once the last one has been reaped, reaches no process, and
/// no worker starts after it: the run ends as the signal would have ended the worker. A worker
/// that was already starting when it came is sent the signal as soon as it is registered.
pub proof fn lemma_stop_between_workers(s: SignalState, signal: i32, pid: i32)
    requires
        signal != 0,
    ensures
        ({
            let reaped = SignalState { worker_pid: 0, stop_signal: s.stop_signal };
            let stopped = SignalState { worker_pid: reaped.worker_pid, stop_signal: signal };
            &&& reaped.forward_target() is None
            &&& stopped.start_decision() == Err::<(), i32>(signal)
            &&& (SignalState { worker_pid: pid, stop_signal: stopped.stop_signal }).pending() == Some(signal)
        }),
{
}

/// Whether a new worker starts after one that went down: it does where the worker's journal shows
/// mutations it started and did not finish, and no one stopped it; those are returned, to be
/// recorded as crashed. Otherwise, `None`: the run ends as the worker did.
pub fn crashed_mutations(has_journal: bool, stopped_on_request: bool, unfinished: Vec<u32>) -> (r: Option<Vec<u32>>)
    ensures
        match r {
            Some(crashed) => has_journal && !stopped_on_request && unfinished@.len() > 0 && crashed@
                == unfinished@,
            None => !has_journal || stopped_on_request || unfinished@.len() == 0,
        },
{
    if has_journal && !stopped_on_request && unfinished.len() > 0 {
        Some(unfinished)
    } else {
        None
    }
}

/// The ids, in decimal, separated by `, `.
pub open spec fn joined_ids(ids: Seq<u32>) -> Seq<char>
    decreases ids.len(),
{
    if ids.len() == 0 {
        Seq::empty()
    } else if ids.len() == 1 {
        text::decimal(ids[0] as nat)
    } else {
        joined_ids(ids.drop_last()) + ", "@ + text::decimal(ids.last() as nat)
    }
}

/// What the supervisor reports of a worker that went down in the middle of these mutations.
pub open spec fn crash_report_spec(crashed: Seq<u32>) -> Seq<char> {
    "the test harness crashed while evaluating "@ + (if crashed.len() == 1 {
        "mutation"@
    } else {
        "mutations"@
    }) + " "@ + joined_ids(crashed) + ": counted as crashed; going on without "@ + (
    if crashed.len() == 1 {
        "it"@
    } else {
        "them"@
    })
}

/// What the supervisor reports of a worker that went down in the middle of these mutations.
pub fn crash_report(crashed: &[u32]) -> (r: String)
    ensures
        r@ == crash_report_spec(crashed@),
{
    let one = crashed.len() == 1;
    let mut r = String::from_str("the test harness crashed while evaluating ");
    r.append(if one { "mutation" } else { "mutations" });
    r.append(" ");
    let ghost head = r@;
    let mut i: usize = 0;
    while i < crashed.len()
        invariant
            i <= crashed.len(),
            r@ == head + joined_ids(crashed@.take(i as int)),
        decreases crashed.len() - i,
    {
        let ghost before = r@;
        if i > 0 {
            r.append(", ");
        }
        text::push_decimal(&mut r, crashed[i] as u64);
        proof {
            let t = crashed@.take(i as int + 1);
            assert(t.drop_last() =~= crashed@.take(i as int));
            if i == 0 {
                assert(joined_ids(crashed@.take(0)) =~= Seq::<char>::empty());
                assert(r@ =~= head + joined_ids(t));
            } else {
                assert(r@ =~= head + joined_ids(t));
            }
        }
        i += 1;
    }
    proof {
        assert(crashed@.take(crashed.len() as int) =~= crashed@);
    }
    r.append(": counted as crashed; going on without ");
    r.append(if one { "it" } else { "them" });
    r
}

/// Whether the worker, whose supervisor had this process id, is to end at once: its parent is no
/// longer that supervisor, which died before the worker could be set to die with it.
pub fn must_exit_without_supervisor(supervisor_pid: Option<i32>, parent_pid: i32) -> (r: bool)
    ensures
        r == (supervisor_pid matches Some(pid) && pid != parent_pid),
{
    match supervisor_pid {
        Some(pid) => pid != parent_pid,
        None => false,
    }
}

/// The supervisor's process id as the worker reads it from its environment.
pub fn parse_supervisor_pid(value: &str) -> (r: Option<i32>)
    ensures
        r == text::parse_i32(value@),
{
    let chars = text::chars_of(value);
    text::parse_i32_chars(chars.as_slice())
}

/// How long, in seconds, the supervisor goes on killing what a worker left running: a process stuck
/// in the kernel dies only when it leaves it, and is not waited for longer.
pub const KILL_DEADLINE_SECS: u64 = 10;

/// How long, in milliseconds, the supervisor pauses between one round of kills and the next.
pub const KILL_PAUSE_MILLIS: u64 = 5;

/// What happened while killing what a worker left running.
#[derive(Clone, Copy, Debug, PartialEq, Eq, Structural)]
pub enum ReapEvent {
    /// Each child was sent `SIGKILL`.
    Killed,
    /// `waitpid`, not waiting, returned `result`; `interrupted` says whether a failure was an
    /// interruption.
    Waited { result: i32, interrupted: bool },
    /// The deadline was looked at: whether it has passed.
    DeadlineChecked { passed: bool },
    /// The pause between rounds is over.
    Paused,
}

/// What the supervisor does next while killing what a worker left running. It starts with `Kill`.
#[derive(Clone, Copy, Debug, PartialEq, Eq, Structural)]
pub enum ReapAction {
    /// Send each child `SIGKILL`: a killed process's children are reparented to the supervisor, so
    /// this goes on round after round.
    Kill,
    /// Reap a child that has exited, without waiting.
    Wait,
    /// Look at whether the deadline has passed.
    CheckDeadline,
    /// Pause before the next round.
    Pause,
    /// Stop: no child remains, or the deadline has passed.
    Done,
}

/// After a round of kills, children are reaped until one remains that has not exited yet, which
/// starts another round, after a pause, unless the deadline has passed; a failed wait that was not
/// interrupted means no child remains.
pub open spec fn next_reap_action_spec(e: ReapEvent) -> ReapAction {
    match e {
        ReapEvent::Killed => ReapAction::Wait,
        ReapEvent::Waited { result, interrupted } => if result == 0 {
            ReapAction::CheckDeadline
        } else if result == -1 && !interrupted {
            ReapAction::Done
        } else {
            ReapAction::Wait
        },
        ReapEvent::DeadlineChecked { passed } => if passed {
            ReapAction::Done
        } else {
            ReapAction::Pause
        },
        ReapEvent::Paused => ReapAction::Kill,
    }
}

/// What the supervisor does next, after this, while killing what a worker left running.
pub fn next_reap_action(e: ReapEvent) -> (r: ReapAction)
    ensures
        r == next_reap_action_spec(e),
{
    match e {
        ReapEvent::Killed => ReapAction::Wait,
        ReapEvent::Waited { result, interrupted } => if result == 0 {
            ReapAction::CheckDeadline
        } else if result == -1 && !interrupted {
            ReapAction::Done
        } else {
            ReapAction::Wait
        },
        ReapEvent::DeadlineChecked { passed } => if passed {
            ReapAction::Done
        } else {
            ReapAction::Pause
        },
        ReapEvent::Paused => ReapAction::Kill,
    }
}

/// Whether the character is white space, as Unicode's `White_Space` property says.
pub open spec fn is_whitespace(c: char) -> bool {
    c == '\t' || c == '\n' || c == '\u{0B}' || c == '\u{0C}' || c == '\r' || c == ' ' || c
        == '\u{85}' || c == '\u{A0}' || c == '\u{1680}' || c == '\u{2000}' || c == '\u{2001}' || c
        == '\u{2002}' || c == '\u{2003}' || c == '\u{2004}' || c == '\u{2005}' || c == '\u{2006}'
        || c == '\u{2007}' || c == '\u{2008}' || c == '\u{2009}' || c == '\u{200A}' || c
        == '\u{2028}' || c == '\u{2029}' || c == '\u{202F}' || c == '\u{205F}' || c == '\u{3000}'
}

fn is_whitespace_char(c: char) -> (r: bool)
    ensures
        r == is_whitespace(c),
{
    c == '\t' || c == '\n' || c == '\u{0B}' || c == '\u{0C}' || c == '\r' || c == ' ' || c
        == '\u{85}' || c == '\u{A0}' || c == '\u{1680}' || c == '\u{2000}' || c == '\u{2001}' || c
        == '\u{2002}' || c == '\u{2003}' || c == '\u{2004}' || c == '\u{2005}' || c == '\u{2006}'
        || c == '\u{2007}' || c == '\u{2008}' || c == '\u{2009}' || c == '\u{200A}' || c
        == '\u{2028}' || c == '\u{2029}' || c == '\u{202F}' || c == '\u{205F}' || c == '\u{3000}'
}

/// The words of `s`, separated by white space, as `str::split_whitespace` gives them.
pub open spec fn words(s: Seq<char>) -> Seq<Seq<char>>
    decreases s.len(),
{
    if s.len() == 0 {
        Seq::empty()
    } else {
        let w = words(s.drop_last());
        let c = s.last();
        if is_whitespace(c) {
            w
        } else if s.len() >= 2 && !is_whitespace(s[s.len() - 2]) {
            w.update(w.len() - 1, w.last().push(c))
        } else {
            w.push(seq![c])
        }
    }
}

/// Where the last `)` of `s` is; -1 if there is none.
pub open spec fn last_paren(s: Seq<char>) -> int
    decreases s.len(),
{
    if s.len() == 0 {
        -1
    } else if s.last() == ')' {
        s.len() - 1
    } else {
        last_paren(s.drop_last())
    }
}

/// The parent's process id in a process's `/proc/<pid>/stat`: `pid (comm) state ppid ...`, where
/// `comm` may itself hold spaces and parentheses, so the fields are counted after its last `)`.
pub open spec fn parent_pid_spec(stat: Seq<char>) -> Option<i32> {
    let p = last_paren(stat);
    if p < 0 {
        None
    } else {
        let w = words(stat.skip(p + 1));
        if w.len() >= 2 {
            text::parse_i32(w[1])
        } else {
            None
        }
    }
}

proof fn lemma_words_nonempty(s: Seq<char>)
    ensures
        s.len() > 0 && !is_whitespace(s.last()) ==> words(s).len() >= 1,
        forall|i: int| 0 <= i < words(s).len() ==> (#[trigger] words(s)[i]).len() >= 1,
    decreases s.len(),
{
    if s.len() > 0 {
        lemma_words_nonempty(s.drop_last());
        let t = s.drop_last();
        if s.len() >= 2 && !is_whitespace(s[s.len() - 2]) {
            assert(t.last() == s[s.len() - 2]);
        }
    }
}

/// The parent's process id in a process's `/proc/<pid>/stat`, if it can be read there.
pub fn parent_pid_of_stat(stat: &str) -> (r: Option<i32>)
    ensures
        r == parent_pid_spec(stat@),
{
    let chars = text::chars_of(stat);
    let mut p: usize = chars.len();
    proof {
        assert(chars@.take(chars.len() as int) =~= chars@);
    }
    while p > 0 && chars[p - 1] != ')'
        invariant
            p <= chars.len(),
            last_paren(chars@) == last_paren(chars@.take(p as int)),
        decreases p,
    {
        proof {
            assert(chars@.take(p as int).drop_last() =~= chars@.take(p - 1));
        }
        p -= 1;
    }
    if p == 0 {
        proof {
            assert(chars@.take(0) =~= Seq::<char>::empty());
        }
        return None;
    }
    proof {
        assert(chars@.take(p as int).last() == chars@[p - 1]);
        assert(last_paren(chars@) == p - 1);
    }
    // The words after the last `)`, kept up to the second.
    let mut first: Vec<char> = Vec::new();
    let mut second: Vec<char> = Vec::new();
    let mut count: usize = 0;
    let mut prev_ws = true;
    let ghost rest = chars@.skip(p as int);
    let mut i: usize = p;
    proof {
        assert(rest.take(0) =~= Seq::<char>::empty());
    }
    while i < chars.len()
        invariant
            p <= i <= chars.len(),
            rest == chars@.skip(p as int),
            ({
                let w = words(rest.take(i - p));
                &&& count == (if w.len() > 3 { 3 } else { w.len() })
                &&& count >= 1 ==> first@ == w[0]
                &&& count >= 2 ==> second@ == w[1]
                &&& count == 0 ==> first@.len() == 0
                &&& count <= 1 ==> second@.len() == 0
                &&& prev_ws == (i == p || is_whitespace(rest[i - p - 1]))
            }),
        decreases chars.len() - i,
    {
        let c = chars[i];
        let ws = is_whitespace_char(c);
        let ghost k: int = i - p;
        let ghost t = rest.take(k + 1);
        let ghost w = words(rest.take(k));
        proof {
            assert(t.drop_last() =~= rest.take(k));
            assert(t.last() == c);
            assert(rest[k] == c);
            lemma_words_nonempty(rest.take(k));
            if k > 0 {
                assert(t[t.len() - 2] == rest[k - 1]);
                assert(rest.take(k).last() == rest[k - 1]);
            }
        }
        if !ws {
            if prev_ws {
                proof {
                    assert(words(t) == w.push(seq![c]));
                }
                if count == 0 {
                    first.push(c);
                    proof {
                        assert(first@ =~= seq![c]);
                    }
                } else if count == 1 {
                    second.push(c);
                    proof {
                        assert(second@ =~= seq![c]);
                    }
                }
                if count < 3 {
                    count += 1;
                }
            } else {
                proof {
                    assert(w.len() >= 1);
                    assert(words(t) == w.update(w.len() - 1, w.last().push(c)));
                }
                if count == 1 {
                    first.push(c);
                } else if count == 2 {
                    second.push(c);
                }
            }
        } else {
            proof {
                assert(words(t) == w);
            }
        }
        prev_ws = ws;
        i += 1;
    }
    proof {
        assert(rest.take(chars.len() - p) =~= rest);
    }
    if count < 2 {
        return None;
    }
    text::parse_i32_chars(second.as_slice())
}

/// An entry of `/proc`: its name, where it is text, and the contents of its `stat`, where that
/// could be read.
pub struct ProcEntry {
    pub name: Option<String>,
    pub stat: Option<String>,
}

/// The process an entry of `/proc` is, if it is a child of the process `me`.
pub open spec fn child_of(e: ProcEntry, me: i32) -> Option<i32> {
    match (e.name, e.stat) {
        (Some(name), Some(stat)) => match text::parse_i32(name@) {
            Some(pid) => if parent_pid_spec(stat@) == Some(me) {
                Some(pid)
            } else {
                None
            },
            None => None,
        },
        _ => None,
    }
}

/// The children of the process `me` among the first `m` entries of `/proc`, in order.
pub open spec fn children_among(entries: Seq<ProcEntry>, me: i32, m: nat) -> Seq<i32>
    decreases m,
{
    if m == 0 {
        Seq::empty()
    } else {
        match child_of(entries[m - 1], me) {
            Some(pid) => children_among(entries, me, (m - 1) as nat).push(pid),
            None => children_among(entries, me, (m - 1) as nat),
        }
    }
}

/// Every process whose parent is `me`, adopted or not, among the entries of `/proc`.
pub fn children(entries: &[ProcEntry], me: i32) -> (r: Vec<i32>)
    ensures
        r@ == children_among(entries@, me, entries@.len()),
{
    let mut r: Vec<i32> = Vec::new();
    let mut i: usize = 0;
    while i < entries.len()
        invariant
            i <= entries.len(),
            r@ == children_among(entries@, me, i as nat),
        decreases entries.len() - i,
    {
        let e = &entries[i];
        match (&e.name, &e.stat) {
            (Some(name), Some(stat)) => {
                let chars = text::chars_of(name.as_str());
                match text::parse_i32_chars(chars.as_slice()) {
                    Some(pid) => {
                        let ppid = parent_pid_of_stat(stat.as_str());
                        if ppid == Some(me) {
                            r.push(pid);
                        }
                    },
                    None => {},
                }
            },
            _ => {},
        }
        i += 1;
    }
    r
}

} // verus!
