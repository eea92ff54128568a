//! Background jobs: processes that are started now and polled later.
//!
//! A command that runs longer than a tool call may take is started detached: the caller gets a
//! handle at once and polls for new output until the process exits. Output is captured into a
//! capped buffer. Jobs live as long as the program and are killed when it ends.

use vstd::prelude::*;
use vstd::slice::slice_subrange;
use vstd::utf8::*;

use crate::bytes::{
    completable, decode, decoding_goes_on, from_utf8, open_ends_can_be_completed,
    prefix_and_rest_decode_to_the_whole, printed, replacement, utf8_error_len, valid_prefix,
    valid_up_to,
};
use crate::text::{
    at_most, before, between, blank, decimal, decimal_of, hex, hex_of, numbered_endings_tell_apart,
    order_is_total, order_is_transitive, precedes, same, signed, signed_of, starts, trim,
    trim_is_empty_iff_blank, within, within_whole,
};

verus! {

/// Bytes of output kept per job. What is older is dropped.
pub const MAX_CAPTURE: usize = 1_000_000;

/// The most bytes that one poll hands out.
pub const MAX_POLL: usize = 8_000;

/// How many jobs may exist at once, running or recently finished.
pub const MAX_JOBS: usize = 32;

/// Finished jobs are forgotten after this many milliseconds.
pub const RETAIN_FINISHED: u64 = 3_600_000;

/// The longest that one poll may wait for new output, in milliseconds.
pub const MAX_WAIT: u64 = 25_000;

/// The policy that the model is told: when to detach, and how to behave while a job runs.
pub const AGENT_HINT: &'static str = "LONG-RUNNING WORK: the powershell tool blocks for at most 120s and then the process is killed. For anything that may run longer — builds, deployments, dev servers, watch tasks, installs — pass background:true to powershell: it returns a job id immediately and the command keeps running. Poll with process_poll (its wait_ms blocks up to 25s per call for new output or exit, so prefer one wait_ms=20000 poll over ten immediate ones), and stop a job with process_kill. Between polls, do other useful work rather than spin.";

// ---- capture --------------------------------------------------------------------------------

/// The output of one process. Positions count from the first byte that it printed; only the
/// newest bytes are kept.
pub struct Capture {
    pub buf: Vec<u8>,
    /// How far polls have read.
    pub cursor: usize,
    /// The position of the first byte kept.
    pub dropped: usize,
    pub total: usize,
    /// All that was printed.
    pub stream: Ghost<Seq<u8>>,
}

/// What one poll has read.
#[derive(Debug)]
pub struct Taken {
    pub text: String,
    /// How many bytes were passed over.
    pub skipped: usize,
    /// The position behind the text, where the next poll goes on.
    pub end: usize,
}

pub struct TakenV {
    pub text: Seq<char>,
    pub skipped: int,
    pub end: int,
}

impl View for Taken {
    type V = TakenV;

    open spec fn view(&self) -> TakenV {
        TakenV { text: self.text@, skipped: self.skipped as int, end: self.end as int }
    }
}

/// How many bytes of a stream are no longer kept.
pub open spec fn evicted(stream: Seq<u8>) -> int {
    if stream.len() > MAX_CAPTURE {
        stream.len() - MAX_CAPTURE
    } else {
        0
    }
}

/// The nearest position at or before `i` whose byte continues no character, or 0.
pub open spec fn step_back(b: Seq<u8>, i: int) -> int
    decreases i,
{
    if 0 < i < b.len() && is_continuation_byte(b[i]) {
        step_back(b, i - 1)
    } else {
        i
    }
}

/// What decoding `b` from `from` yields, and where it ends. A character that is cut off at the
/// end is left for the next time; a sequence that no more bytes can mend is replaced, and ends
/// the text.
pub open spec fn decoded(b: Seq<u8>, from: int) -> (Seq<char>, int) {
    if from >= b.len() {
        (Seq::empty(), from)
    } else {
        let rest = b.skip(from);
        let v = valid_up_to(rest) as int;
        if valid_utf8(rest) {
            (decode_utf8(rest), b.len() as int)
        } else if completable(rest) {
            (decode_utf8(rest.take(v)), from + v)
        } else {
            (
                decode_utf8(rest.take(v)).push(replacement()),
                from + v + utf8_error_len(rest)->0,
            )
        }
    }
}

/// The bytes that a poll reads.
pub open spec fn offered(stream: Seq<u8>, from: int, max: int) -> Seq<u8> {
    let begin = if from > evicted(stream) {
        from
    } else {
        evicted(stream)
    };
    let kept = stream.skip(begin);
    kept.skip(
        step_back(
            kept,
            if kept.len() > max {
                kept.len() - max
            } else {
                0
            },
        ),
    )
}

/// What is read of a stream from position `from` on, at most about `max` bytes of it, and those
/// the newest.
pub open spec fn taken_from(stream: Seq<u8>, from: int, max: int) -> TakenV {
    if from >= stream.len() {
        TakenV { text: Seq::empty(), skipped: 0, end: from }
    } else {
        let begin = if from > evicted(stream) {
            from
        } else {
            evicted(stream)
        };
        let kept = stream.skip(begin);
        let start = step_back(
            kept,
            if kept.len() > max {
                kept.len() - max
            } else {
                0
            },
        );
        let d = decoded(kept, start);
        TakenV { text: d.0, skipped: begin + start - from, end: begin + d.1 }
    }
}

proof fn step_back_bound(b: Seq<u8>, i: int)
    requires
        0 <= i,
    ensures
        0 <= step_back(b, i) <= i,
    decreases i,
{
    if 0 < i < b.len() && is_continuation_byte(b[i]) {
        step_back_bound(b, i - 1);
    }
}

/// Decodes `buf` from `from`, tolerating bytes that stop inside a character.
///
/// A poll can fall between the bytes of a character. An incomplete character at the end is left
/// for the next poll; bytes that are really invalid are consumed, so that no poll is stuck on
/// them. Returns the text and how many bytes are consumed.
pub fn decode_from(buf: &[u8], from: usize) -> (r: (String, usize))
    ensures
        r.0@ == decoded(buf@, from as int).0,
        r.1 == decoded(buf@, from as int).1,
        from < buf@.len() ==> from <= r.1 <= buf@.len(),
        from < buf@.len() && !completable(buf@.skip(from as int)) ==> from < r.1,
{
    if from >= buf.len() {
        return (String::new(), from);
    }
    let rest = slice_subrange(buf, from, buf.len());
    assert(rest@ =~= buf@.skip(from as int));
    proof {
        valid_prefix(rest@);
        if !valid_utf8(rest@) {
            open_ends_can_be_completed(rest@);
        }
    }
    match from_utf8(rest) {
        Ok(s) => (s, buf.len()),
        Err((v, n)) => {
            let head = slice_subrange(rest, 0, v);
            assert(head@ =~= rest@.take(v as int));
            let mut text = decode(head);
            match n {
                Some(k) => {
                    text.push('\u{FFFD}');
                    (text, from + v + k)
                },
                None => (text, from + v),
            }
        },
    }
}

impl Capture {
    /// The buffer holds the newest bytes of the stream, and no poll has read past its end.
    pub open spec fn wf(&self) -> bool {
        &&& self.total == self.stream@.len()
        &&& self.dropped == evicted(self.stream@)
        &&& self.buf@ == self.stream@.skip(evicted(self.stream@))
        &&& self.cursor <= self.total
    }

    pub fn new() -> (r: Capture)
        ensures
            r.wf(),
            r.stream@ == Seq::<u8>::empty(),
            r.cursor == 0,
    {
        let r = Capture {
            buf: Vec::new(),
            cursor: 0,
            dropped: 0,
            total: 0,
            stream: Ghost(Seq::empty()),
        };
        assert(r.buf@ =~= r.stream@.skip(0));
        r
    }

    /// Takes more output and drops the oldest bytes beyond the cap.
    pub fn push(&mut self, data: &[u8])
        requires
            old(self).wf(),
            old(self).stream@.len() + data@.len() <= usize::MAX,
        ensures
            final(self).wf(),
            final(self).stream@ == old(self).stream@ + data@,
            final(self).cursor == old(self).cursor,
    {
        let ghost s0 = self.stream@;
        let ghost b0 = self.buf@;
        let mut i: usize = 0;
        while i < data.len()
            invariant
                i <= data.len(),
                self.buf@ == b0 + data@.take(i as int),
                self.cursor == old(self).cursor,
                self.dropped == old(self).dropped,
                self.total == old(self).total,
            decreases data.len() - i,
        {
            self.buf.push(data[i]);
            i += 1;
        }
        assert(data@.take(data@.len() as int) =~= data@);
        self.total = self.total + data.len();
        self.stream = Ghost(s0 + data@);
        assert(self.buf@ =~= (s0 + data@).skip(evicted(s0)));
        if self.buf.len() > MAX_CAPTURE {
            let excess: usize = self.buf.len() - MAX_CAPTURE;
            let rest = self.buf.split_off(excess);
            self.buf = rest;
            self.dropped = self.dropped + excess;
            assert(self.buf@ =~= (s0 + data@).skip(self.dropped as int));
        }
        assert(self.dropped == evicted(self.stream@));
    }

    /// How much the process has printed.
    pub fn total(&self) -> (r: usize)
        requires
            self.wf(),
        ensures
            r == self.stream@.len(),
    {
        self.total
    }

    /// Whether something was printed that no poll has read.
    pub fn has_new(&self) -> (r: bool)
        requires
            self.wf(),
        ensures
            r == (self.cursor < self.stream@.len()),
    {
        self.cursor < self.total
    }

    /// What was printed since the last poll, cut to the newest `max` bytes at a character
    /// boundary. The next poll returns only what came after. A poll never goes back, and stands
    /// still only where more output may complete what it saw.
    pub fn take_new(&mut self, max: usize) -> (r: Taken)
        requires
            old(self).wf(),
        ensures
            final(self).wf(),
            r@ == taken_from(old(self).stream@, old(self).cursor as int, max as int),
            final(self).stream@ == old(self).stream@,
            final(self).cursor == r.end,
            old(self).cursor <= r.end <= old(self).stream@.len(),
            old(self).cursor < old(self).stream@.len() && !completable(
                offered(old(self).stream@, old(self).cursor as int, max as int),
            ) ==> old(self).cursor < r.end,
    {
        let taken = self.take_from(self.cursor, max);
        self.cursor = taken.end;
        taken
    }

    /// The newest `max` bytes of all that is kept. No poll is affected, and what is no longer
    /// kept counts as skipped.
    pub fn tail(&self, max: usize) -> (r: Taken)
        requires
            self.wf(),
        ensures
            r@ == taken_from(self.stream@, 0, max as int),
    {
        self.take_from(0, max)
    }

    fn take_from(&self, from: usize, max: usize) -> (r: Taken)
        requires
            self.wf(),
            from <= self.total,
        ensures
            r@ == taken_from(self.stream@, from as int, max as int),
            from <= r.end <= self.total,
            from < self.total && !completable(offered(self.stream@, from as int, max as int))
                ==> from < r.end,
    {
        if from >= self.total {
            return Taken { text: String::new(), skipped: 0, end: from };
        }
        let begin: usize = if from > self.dropped {
            from
        } else {
            self.dropped
        };
        let kept = slice_subrange(self.buf.as_slice(), begin - self.dropped, self.buf.len());
        let ghost k = self.stream@.skip(begin as int);
        assert(kept@ =~= k);
        let first: usize = if kept.len() > max {
            kept.len() - max
        } else {
            0
        };
        let mut start: usize = first;
        while start > 0 && start < kept.len() && 0x80 <= kept[start] && kept[start] <= 0xbf
            invariant
                start <= first,
                first <= kept.len(),
                kept@ == k,
                step_back(k, start as int) == step_back(k, first as int),
            decreases start,
        {
            start -= 1;
        }
        let (text, consumed) = decode_from(kept, start);
        Taken { text, skipped: begin + start - from, end: begin + consumed }
    }
}

impl Default for Capture {
    fn default() -> (r: Capture)
        ensures
            r.wf(),
            r.stream@ == Seq::<u8>::empty(),
            r.cursor == 0,
    {
        Capture::new()
    }
}

/// Where a poll falls loses nothing: output that is valid text in the end, polled once before
/// its last bytes have come and once after, is read as one text, each byte once, wherever the
/// first poll cut it.
pub proof fn a_poll_inside_a_character_loses_nothing(
    stream: Seq<u8>,
    from: int,
    more: Seq<u8>,
    max: int,
)
    requires
        evicted(stream + more) <= from <= stream.len(),
        stream.len() + more.len() - from <= max,
        valid_utf8(stream.skip(from) + more),
    ensures
        ({
            let first = taken_from(stream, from, max);
            let second = taken_from(stream + more, first.end, max);
            &&& first.skipped == 0
            &&& second.skipped == 0
            &&& first.text + second.text == decode_utf8(stream.skip(from) + more)
            &&& second.end == stream.len() + more.len()
        }),
{
    let r = stream.skip(from);
    let w = r + more;
    let first = taken_from(stream, from, max);
    let v = valid_up_to(r) as int;
    prefix_and_rest_decode_to_the_whole(r, more);
    valid_prefix(r);
    assert(evicted(stream) <= evicted(stream + more));
    assert(completable(r)) by {
        assert(valid_utf8(r + more));
    }
    if from < stream.len() {
        assert(r.skip(0) =~= r);
        assert(first.end == from + v);
        assert(first.text == decode_utf8(r.take(v))) by {
            if valid_utf8(r) {
                assert(r.take(v) =~= r);
            }
        }
    } else {
        assert(r.len() == 0);
        assert(r.take(0) =~= Seq::empty());
        assert(first.text =~= decode_utf8(r.take(v)));
    }
    let whole = stream + more;
    let rest = whole.skip(first.end);
    assert(rest =~= w.skip(v));
    let second = taken_from(whole, first.end, max);
    if first.end < whole.len() {
        assert(rest.skip(0) =~= rest);
        assert(second.text == decode_utf8(rest));
    } else {
        assert(rest.len() == 0);
        assert(second.text =~= decode_utf8(rest));
    }
}

/// What polls read that follow each chunk of an output, and where the last of them ends.
pub open spec fn polled(chunks: Seq<Seq<u8>>, max: int) -> (Seq<char>, int)
    decreases chunks.len(),
{
    if chunks.len() == 0 {
        (Seq::empty(), 0)
    } else {
        let before = polled(chunks.drop_last(), max);
        let t = taken_from(printed(chunks), before.1, max);
        (before.0 + t.text, t.end)
    }
}

proof fn polled_so_far(chunks: Seq<Seq<u8>>, more: Seq<u8>, max: int)
    requires
        printed(chunks).len() <= max,
        printed(chunks).len() <= MAX_CAPTURE,
        valid_utf8(printed(chunks) + more),
    ensures
        polled(chunks, max).1 == valid_up_to(printed(chunks)),
        polled(chunks, max).0 == decode_utf8(
            printed(chunks).take(valid_up_to(printed(chunks)) as int),
        ),
    decreases chunks.len(),
{
    let s = printed(chunks);
    valid_prefix(s);
    if chunks.len() == 0 {
        assert(s.take(0) =~= Seq::empty());
        assert(polled(chunks, max).0 =~= decode_utf8(s.take(0)));
    } else {
        let p = printed(chunks.drop_last());
        let c = chunks.last();
        assert(p + (c + more) =~= s + more);
        polled_so_far(chunks.drop_last(), c + more, max);
        valid_prefix(p);
        let v = valid_up_to(p) as int;
        assert(s.take(v) =~= p.take(v));
        decoding_goes_on(s, v);
        let rest = s.skip(v);
        let t = taken_from(s, v, max);
        assert(s.skip(evicted(s)) =~= s);
        assert(s.take(v) + (s.skip(v) + more) =~= s + more);
        prefix_and_rest_decode_to_the_whole(s.take(v), s.skip(v) + more);
        valid_prefix(s.take(v));
        assert((s.take(v) + (s.skip(v) + more)).skip(v) =~= rest + more);
        assert(completable(rest)) by {
            assert(valid_utf8(rest + more));
        }
        if v < s.len() {
            assert(rest.skip(0) =~= rest);
            valid_prefix(rest);
            if valid_utf8(rest) {
                assert(rest.take(rest.len() as int) =~= rest);
            }
            assert(t.text == decode_utf8(rest.take(valid_up_to(rest) as int)));
        } else {
            assert(rest.len() == 0);
            assert(rest.take(0) =~= Seq::empty());
            assert(t.text =~= decode_utf8(rest.take(valid_up_to(rest) as int)));
        }
    }
}

/// However often a job is polled, and wherever the polls fall, they lose nothing: of output that is
/// valid text in the end, and that is not more than is kept or than one poll hands out, they read
/// that text, each byte once.
pub proof fn polls_lose_nothing(chunks: Seq<Seq<u8>>, max: int)
    requires
        printed(chunks).len() <= max,
        printed(chunks).len() <= MAX_CAPTURE,
        valid_utf8(printed(chunks)),
    ensures
        polled(chunks, max).0 == decode_utf8(printed(chunks)),
        polled(chunks, max).1 == printed(chunks).len(),
{
    let s = printed(chunks);
    assert(s + Seq::<u8>::empty() =~= s);
    polled_so_far(chunks, Seq::empty(), max);
    valid_prefix(s);
    assert(s.take(s.len() as int) =~= s);
}

// ---- jobs ------------------------------------------------------------------------------------

/// Whether a process runs, or how and when it ended. Moments are milliseconds of one clock that
/// never goes back.
#[derive(Debug, Clone, Copy, PartialEq, Eq, Structural)]
pub enum Status {
    Running,
    Done { code: i32, at: u64 },
}

pub struct Job {
    pub id: String,
    pub command: String,
    pub cwd: String,
    pub pid: u32,
    pub started_at: u64,
    /// What it printed, on both of its outputs.
    pub cap: Capture,
    pub status: Status,
    pub killed: bool,
}

/// All the jobs, and how many were ever started.
pub struct Jobs {
    pub jobs: Vec<Job>,
    pub started: u64,
}

pub open spec fn since(now: u64, earlier: u64) -> u64 {
    if now >= earlier {
        (now - earlier) as u64
    } else {
        0
    }
}

fn elapsed_since(now: u64, earlier: u64) -> (r: u64)
    ensures
        r == since(now, earlier),
{
    if now >= earlier {
        now - earlier
    } else {
        0
    }
}

/// How long a job has run, in milliseconds.
pub open spec fn run_time(j: Job, now: u64) -> u64 {
    match j.status {
        Status::Running => since(now, j.started_at),
        Status::Done { code, at } => since(at, j.started_at),
    }
}

/// The status line of a job.
pub open spec fn headline(j: Job, now: u64) -> Seq<char> {
    let secs = decimal_of((run_time(j, now) / 1000) as nat);
    let total = decimal_of(j.cap.stream@.len());
    match j.status {
        Status::Running => "[job "@ + j.id@ + "] running, "@ + secs + "s elapsed, "@ + total
            + " bytes of output so far"@,
        Status::Done { code, at } => if j.killed {
            "[job "@ + j.id@ + "] killed by request after "@ + secs
                + "s (process tree terminated, exit code "@ + signed_of(code as int) + ")"@
        } else {
            "[job "@ + j.id@ + "] exited with code "@ + signed_of(code as int) + " after "@ + secs
                + "s (total output "@ + total + " bytes)"@
        },
    }
}

/// What a poll reports: the status line, what is new, and how much of that was passed over.
pub open spec fn report(j: Job, now: u64) -> Seq<char> {
    let t = taken_from(j.cap.stream@, j.cap.cursor as int, MAX_POLL as int);
    let body = if !blank(t.text) {
        headline(j, now) + "\n"@ + t.text
    } else if j.status is Running {
        headline(j, now) + "\n(no new output since the last poll)"@
    } else if j.cap.stream@.len() == 0 {
        headline(j, now) + "\n(the command printed nothing)"@
    } else {
        headline(j, now)
    };
    if t.skipped > 0 {
        body + "\n[… skipped "@ + decimal_of(t.skipped as nat)
            + " bytes printed between polls — poll more often, or have long jobs write to a log file and read that]"@
    } else {
        body
    }
}

/// `j` with what polls have read set to `cursor`.
pub open spec fn read_up_to(j: Job, k: Job, cursor: int) -> bool {
    &&& k.id == j.id
    &&& k.command == j.command
    &&& k.cwd == j.cwd
    &&& k.pid == j.pid
    &&& k.started_at == j.started_at
    &&& k.status == j.status
    &&& k.killed == j.killed
    &&& k.cap.wf()
    &&& k.cap.stream@ == j.cap.stream@
    &&& k.cap.cursor == cursor
}

impl Job {
    /// How long the job has run, in milliseconds.
    pub fn elapsed(&self, now: u64) -> (r: u64)
        ensures
            r == run_time(*self, now),
    {
        match self.status {
            Status::Running => elapsed_since(now, self.started_at),
            Status::Done { code: _, at } => elapsed_since(at, self.started_at),
        }
    }

    pub fn done(&self) -> (r: bool)
        ensures
            r == self.status is Done,
    {
        match self.status {
            Status::Running => false,
            Status::Done { code: _, at: _ } => true,
        }
    }

    /// The report of a poll: the status line, and what the model has not seen yet. Never empty.
    pub fn render(&mut self, now: u64) -> (r: String)
        requires
            old(self).cap.wf(),
        ensures
            r@ == report(*old(self), now),
            r@.len() > 0,
            read_up_to(
                *old(self),
                *final(self),
                taken_from(
                    old(self).cap.stream@,
                    old(self).cap.cursor as int,
                    MAX_POLL as int,
                ).end,
            ),
    {
        let secs = decimal(self.elapsed(now) / 1000);
        let total = decimal(self.cap.total() as u64);
        let mut head = "[job ".to_string();
        head.append(self.id.as_str());
        match self.status {
            Status::Running => {
                head.append("] running, ");
                head.append(secs.as_str());
                head.append("s elapsed, ");
                head.append(total.as_str());
                head.append(" bytes of output so far");
            },
            Status::Done { code, at: _ } => {
                if self.killed {
                    head.append("] killed by request after ");
                    head.append(secs.as_str());
                    head.append("s (process tree terminated, exit code ");
                    head.append(signed(code).as_str());
                    head.append(")");
                } else {
                    head.append("] exited with code ");
                    head.append(signed(code).as_str());
                    head.append(" after ");
                    head.append(secs.as_str());
                    head.append("s (total output ");
                    head.append(total.as_str());
                    head.append(" bytes)");
                }
            },
        }
        assert(head@ == headline(*self, now));
        proof {
            reveal_strlit("[job ");
        }
        assert(head@.len() > 0);
        let taken = self.cap.take_new(MAX_POLL);
        let t = trim(taken.text.as_str());
        proof {
            trim_is_empty_iff_blank(taken.text@);
        }
        if t.as_str().unicode_len() > 0 {
            head.append("\n");
            head.append(taken.text.as_str());
        } else if !self.done() {
            head.append("\n(no new output since the last poll)");
        } else if self.cap.total() == 0 {
            head.append("\n(the command printed nothing)");
        }
        if taken.skipped > 0 {
            head.append("\n[… skipped ");
            head.append(decimal(taken.skipped as u64).as_str());
            head.append(
                " bytes printed between polls — poll more often, or have long jobs write to a log file and read that]",
            );
        }
        head
    }
}

/// The program that runs commands.
pub fn shell_executable(windows: bool) -> (r: &'static str)
    ensures
        r@ == if windows {
            "powershell.exe"@
        } else {
            "pwsh"@
        },
{
    if windows {
        "powershell.exe"
    } else {
        "pwsh"
    }
}

// ---- which jobs are kept ---------------------------------------------------------------------

/// Whether a job ended more than `retain` ago.
pub open spec fn expired(j: Job, now: u64, retain: u64) -> bool {
    match j.status {
        Status::Running => false,
        Status::Done { code, at } => since(now, at) > retain,
    }
}

pub open spec fn unexpired(jobs: Seq<Job>, now: u64, retain: u64) -> Seq<Job>
    decreases jobs.len(),
{
    if jobs.len() == 0 {
        Seq::empty()
    } else if expired(jobs.last(), now, retain) {
        unexpired(jobs.drop_last(), now, retain)
    } else {
        unexpired(jobs.drop_last(), now, retain).push(jobs.last())
    }
}

/// Whether `a` ended before `b`, or with it and has the smaller id.
pub open spec fn ended_before(a: Job, b: Job) -> bool {
    match (a.status, b.status) {
        (Status::Done { code: _, at: x }, Status::Done { code: _, at: y }) => x < y || (x == y
            && precedes(a.id@, b.id@)),
        _ => false,
    }
}

/// The job that ended first.
pub open spec fn oldest_finished(jobs: Seq<Job>) -> Option<int>
    decreases jobs.len(),
{
    if jobs.len() == 0 {
        None
    } else {
        let p = oldest_finished(jobs.drop_last());
        if jobs.last().status is Running {
            p
        } else {
            match p {
                Some(i) => if ended_before(jobs.last(), jobs[i]) {
                    Some(jobs.len() - 1)
                } else {
                    p
                },
                None => Some(jobs.len() - 1),
            }
        }
    }
}

/// The jobs without the ones that ended first, until `max` or only running ones are left.
pub open spec fn squeezed(jobs: Seq<Job>, max: int) -> Seq<Job>
    decreases jobs.len(),
    via squeezed_decreases
{
    if jobs.len() <= max {
        jobs
    } else {
        match oldest_finished(jobs) {
            Some(i) => squeezed(jobs.remove(i), max),
            None => jobs,
        }
    }
}

#[via_fn]
proof fn squeezed_decreases(jobs: Seq<Job>, max: int) {
    oldest_is_finished(jobs);
}

pub open spec fn pruned(jobs: Seq<Job>, max: int, retain: u64, now: u64) -> Seq<Job> {
    squeezed(unexpired(jobs, now, retain), max)
}

proof fn oldest_is_finished(jobs: Seq<Job>)
    ensures
        oldest_finished(jobs) matches Some(i) ==> 0 <= i < jobs.len() && jobs[i].status is Done,
        oldest_finished(jobs) is None ==> forall|i: int|
            0 <= i < jobs.len() ==> (#[trigger] jobs[i]).status is Running,
    decreases jobs.len(),
{
    if jobs.len() > 0 {
        let d = jobs.drop_last();
        oldest_is_finished(d);
        assert forall|i: int| 0 <= i < d.len() implies d[i] == jobs[i] by {}
    }
}

fn is_expired(j: &Job, now: u64, retain: u64) -> (r: bool)
    ensures
        r == expired(*j, now, retain),
{
    match j.status {
        Status::Running => false,
        Status::Done { code: _, at } => elapsed_since(now, at) > retain,
    }
}

fn ended_earlier(a: &Job, b: &Job) -> (r: bool)
    ensures
        r == ended_before(*a, *b),
{
    match (a.status, b.status) {
        (Status::Done { code: _, at: x }, Status::Done { code: _, at: y }) => x < y || (x == y
            && before(a.id.as_str(), b.id.as_str())),
        _ => false,
    }
}

fn find_oldest(jobs: &Vec<Job>) -> (r: Option<usize>)
    ensures
        match r {
            Some(i) => oldest_finished(jobs@) == Some(i as int) && i < jobs.len(),
            None => oldest_finished(jobs@) is None,
        },
{
    let mut best: Option<usize> = None;
    let mut i: usize = 0;
    while i < jobs.len()
        invariant
            i <= jobs.len(),
            match best {
                Some(b) => b < i && oldest_finished(jobs@.take(i as int)) == Some(b as int),
                None => oldest_finished(jobs@.take(i as int)) is None,
            },
        decreases jobs.len() - i,
    {
        assert(jobs@.take(i + 1).drop_last() =~= jobs@.take(i as int));
        if jobs[i].done() {
            match best {
                Some(b) => {
                    if ended_earlier(&jobs[i], &jobs[b]) {
                        best = Some(i);
                    }
                },
                None => {
                    best = Some(i);
                },
            }
        }
        i += 1;
    }
    assert(jobs@.take(jobs@.len() as int) =~= jobs@);
    best
}

/// Forgets the jobs that ended more than `retain` ago, then those that ended first until at most
/// `max` are left. A running job is never dropped.
pub fn prune(jobs: &mut Vec<Job>, max: usize, retain: u64, now: u64)
    ensures
        final(jobs)@ == pruned(old(jobs)@, max as int, retain, now),
{
    let ghost j0 = jobs@;
    let ghost mut gone: int = 0;
    let mut i: usize = 0;
    assert(jobs@.take(0) =~= unexpired(j0.take(0), now, retain));
    while i < jobs.len()
        invariant
            i <= jobs.len(),
            0 <= gone,
            jobs@.len() + gone == j0.len(),
            jobs@.take(i as int) == unexpired(j0.take(i + gone), now, retain),
            jobs@.skip(i as int) == j0.skip(i + gone),
        decreases jobs.len() - i,
    {
        assert(j0.take(i + gone + 1).drop_last() =~= j0.take(i + gone));
        assert(jobs@.skip(i as int)[0] == j0.skip(i + gone)[0]);
        assert(j0.take(i + gone + 1).last() == jobs@[i as int]);
        let ghost before_ = jobs@;
        assert(before_.skip(i as int).skip(1) =~= before_.skip(i + 1));
        assert(j0.skip(i + gone).skip(1) =~= j0.skip(i + gone + 1));
        if is_expired(&jobs[i], now, retain) {
            let _ = jobs.remove(i);
            assert(jobs@.take(i as int) =~= before_.take(i as int));
            assert(jobs@.skip(i as int) =~= before_.skip(i + 1));
            proof {
                gone = gone + 1;
            }
        } else {
            assert(jobs@.take(i + 1) =~= jobs@.take(i as int).push(jobs@[i as int]));
            i += 1;
        }
    }
    assert(jobs@.take(i as int) =~= jobs@);
    assert(j0.take(i + gone) =~= j0);
    let ghost u = jobs@;
    let mut open: bool = true;
    while open && jobs.len() > max
        invariant
            open ==> squeezed(jobs@, max as int) == squeezed(u, max as int),
            !open ==> jobs@ == squeezed(u, max as int),
        decreases jobs.len(), open as int,
    {
        match find_oldest(jobs) {
            Some(k) => {
                let _ = jobs.remove(k);
            },
            None => {
                open = false;
            },
        }
    }
}

proof fn squeezed_facts(jobs: Seq<Job>, max: int, j: Job)
    requires
        0 <= max,
    ensures
        j.status is Running && jobs.contains(j) ==> squeezed(jobs, max).contains(j),
        squeezed(jobs, max).contains(j) ==> jobs.contains(j),
        squeezed(jobs, max).len() <= max || forall|i: int|
            0 <= i < squeezed(jobs, max).len() ==> (#[trigger] squeezed(jobs, max)[i]).status is Running,
    decreases jobs.len(),
{
    oldest_is_finished(jobs);
    if jobs.len() > max {
        match oldest_finished(jobs) {
            Some(i) => {
                let r = jobs.remove(i);
                squeezed_facts(r, max, j);
                if j.status is Running && jobs.contains(j) {
                    let k = choose|k: int| 0 <= k < jobs.len() && jobs[k] == j;
                    assert(k != i);
                    assert(r[if k < i { k } else { k - 1 }] == j);
                }
                if r.contains(j) {
                    let k = choose|k: int| 0 <= k < r.len() && r[k] == j;
                    assert(jobs[if k < i { k } else { k + 1 }] == j);
                }
            },
            None => {},
        }
    }
}

proof fn unexpired_facts(jobs: Seq<Job>, now: u64, retain: u64, j: Job)
    ensures
        unexpired(jobs, now, retain).contains(j) <==> jobs.contains(j) && !expired(j, now, retain),
    decreases jobs.len(),
{
    if jobs.len() > 0 {
        let d = jobs.drop_last();
        unexpired_facts(d, now, retain, j);
        let u = unexpired(d, now, retain);
        if jobs.contains(j) {
            let k = choose|k: int| 0 <= k < jobs.len() && jobs[k] == j;
            if k < d.len() {
                assert(d[k] == j);
            }
        }
        if d.contains(j) {
            let k = choose|k: int| 0 <= k < d.len() && d[k] == j;
            assert(jobs[k] == j);
        }
        assert(jobs[jobs.len() - 1] == jobs.last());
        if !expired(jobs.last(), now, retain) {
            let w = u.push(jobs.last());
            assert(w[u.len() as int] == jobs.last());
            if u.contains(j) {
                let k = choose|k: int| 0 <= k < u.len() && u[k] == j;
                assert(w[k] == j);
            }
            if w.contains(j) {
                let k = choose|k: int| 0 <= k < w.len() && w[k] == j;
                if k < u.len() {
                    assert(u[k] == j);
                }
            }
        }
    }
}

/// Pruning keeps every running job, invents none, drops every job that has expired, and makes
/// room wherever a finished job could be let go.
pub proof fn pruning_never_drops_a_running_job(
    jobs: Seq<Job>,
    max: int,
    retain: u64,
    now: u64,
    j: Job,
)
    requires
        0 <= max,
    ensures
        j.status is Running && jobs.contains(j) ==> pruned(jobs, max, retain, now).contains(j),
        pruned(jobs, max, retain, now).contains(j) ==> jobs.contains(j) && !expired(j, now, retain),
        pruned(jobs, max, retain, now).len() <= max || forall|i: int|
            0 <= i < pruned(jobs, max, retain, now).len() ==> (#[trigger] pruned(
                jobs,
                max,
                retain,
                now,
            )[i]).status is Running,
{
    unexpired_facts(jobs, now, retain, j);
    squeezed_facts(unexpired(jobs, now, retain), max, j);
}

// ---- the table ---------------------------------------------------------------------------------

proof fn unexpired_apart(jobs: Seq<Job>, now: u64, retain: u64)
    requires
        apart(jobs),
    ensures
        apart(unexpired(jobs, now, retain)),
        forall|i: int|
            0 <= i < unexpired(jobs, now, retain).len() ==> jobs.contains(
                #[trigger] unexpired(jobs, now, retain)[i],
            ),
    decreases jobs.len(),
{
    if jobs.len() > 0 {
        let d = jobs.drop_last();
        assert(apart(d));
        unexpired_apart(d, now, retain);
        let w = unexpired(jobs, now, retain);
        let u = unexpired(d, now, retain);
        assert forall|i: int| 0 <= i < w.len() implies jobs.contains(#[trigger] w[i]) by {
            if i < u.len() {
                assert(d.contains(u[i]));
                let k = choose|k: int| 0 <= k < d.len() && d[k] == u[i];
                assert(jobs[k] == w[i]);
            } else {
                assert(jobs[jobs.len() - 1] == w[i]);
            }
        }
        assert forall|i: int, j: int| 0 <= i < j < w.len() implies (#[trigger] w[i]).id@ != (
        #[trigger] w[j]).id@ by {
            assert(w[i] == u[i]);
            if j < u.len() {
                assert(w[j] == u[j]);
            } else {
                assert(d.contains(u[i]));
                let k = choose|k: int| 0 <= k < d.len() && d[k] == u[i];
                assert(jobs[k].id@ != jobs[jobs.len() - 1].id@);
            }
        }
    }
}

proof fn squeezed_apart(jobs: Seq<Job>, max: int)
    requires
        apart(jobs),
    ensures
        apart(squeezed(jobs, max)),
    decreases jobs.len(),
{
    if jobs.len() > max {
        oldest_is_finished(jobs);
        match oldest_finished(jobs) {
            Some(k) => {
                if 0 <= k < jobs.len() {
                    let r = jobs.remove(k);
                    assert forall|i: int, j: int| 0 <= i < j < r.len() implies (
                    #[trigger] r[i]).id@ != (#[trigger] r[j]).id@ by {
                        let a = if i < k {
                            i
                        } else {
                            i + 1
                        };
                        let b = if j < k {
                            j
                        } else {
                            j + 1
                        };
                        assert(jobs[a].id@ != jobs[b].id@);
                    }
                    squeezed_apart(r, max);
                }
            },
            None => {},
        }
    }
}

/// Pruning leaves no two jobs with one id where there were none.
pub proof fn pruning_keeps_apart(jobs: Seq<Job>, max: int, retain: u64, now: u64)
    requires
        apart(jobs),
    ensures
        apart(pruned(jobs, max, retain, now)),
{
    unexpired_apart(jobs, now, retain);
    squeezed_apart(unexpired(jobs, now, retain), max);
}

/// The job with an id.
pub open spec fn position(jobs: Seq<Job>, id: Seq<char>) -> Option<int>
    decreases jobs.len(),
{
    if jobs.len() == 0 {
        None
    } else {
        match position(jobs.drop_last(), id) {
            Some(i) => Some(i),
            None => if jobs.last().id@ == id {
                Some(jobs.len() - 1)
            } else {
                None
            },
        }
    }
}

fn find(jobs: &Vec<Job>, id: &str) -> (r: Option<usize>)
    ensures
        match r {
            Some(i) => position(jobs@, id@) == Some(i as int) && i < jobs.len() && jobs@[i as int].id@
                == id@,
            None => position(jobs@, id@) is None,
        },
{
    let mut found: Option<usize> = None;
    let mut i: usize = 0;
    while i < jobs.len()
        invariant
            i <= jobs.len(),
            match found {
                Some(b) => b < i && position(jobs@.take(i as int), id@) == Some(b as int)
                    && jobs@[b as int].id@ == id@,
                None => position(jobs@.take(i as int), id@) is None,
            },
        decreases jobs.len() - i,
    {
        assert(jobs@.take(i + 1).drop_last() =~= jobs@.take(i as int));
        if found.is_none() && same(jobs[i].id.as_str(), id) {
            found = Some(i);
        }
        i += 1;
    }
    assert(jobs@.take(jobs@.len() as int) =~= jobs@);
    found
}

pub open spec fn full_text() -> Seq<char> {
    "too many background jobs ("@ + decimal_of(MAX_JOBS as nat)
        + "); poll or kill the existing ones first"@
}

fn full() -> (r: String)
    ensures
        r@ == full_text(),
{
    let mut s = "too many background jobs (".to_string();
    s.append(decimal(MAX_JOBS as u64).as_str());
    s.append("); poll or kill the existing ones first");
    s
}

/// The id of the `n`-th job, started at `millis`.
pub open spec fn job_id(millis: u128, n: nat) -> Seq<char> {
    "bg-"@ + hex_of(millis as nat) + "-"@ + decimal_of(n)
}

/// Whether no two jobs share an id.
pub open spec fn apart(jobs: Seq<Job>) -> bool {
    forall|i: int, j: int|
        0 <= i < j < jobs.len() ==> (#[trigger] jobs[i]).id@ != (#[trigger] jobs[j]).id@
}

/// Whether `id` is that of one of the first `started` jobs.
pub open spec fn handed_out(id: Seq<char>, started: u64) -> bool {
    exists|millis: u128, n: nat| n <= started && id == #[trigger] job_id(millis, n)
}

impl Jobs {
    /// Every capture is sound, every id was handed out, and no two jobs share one.
    pub open spec fn wf(&self) -> bool {
        &&& forall|i: int| 0 <= i < self.jobs@.len() ==> (#[trigger] self.jobs@[i]).cap.wf()
        &&& forall|i: int|
            0 <= i < self.jobs@.len() ==> handed_out((#[trigger] self.jobs@[i]).id@, self.started)
        &&& apart(self.jobs@)
    }

    pub fn new() -> (r: Jobs)
        ensures
            r.wf(),
            r.jobs@.len() == 0,
            r.started == 0,
    {
        Jobs { jobs: Vec::new(), started: 0 }
    }
}

/// Makes room for one more job, before its process is started.
pub fn make_room(jobs: &mut Jobs, now: u64) -> (r: Result<(), String>)
    requires
        old(jobs).wf(),
    ensures
        final(jobs).wf(),
        final(jobs).started == old(jobs).started,
        final(jobs).jobs@ == pruned(old(jobs).jobs@, MAX_JOBS - 1, RETAIN_FINISHED, now),
        match r {
            Ok(_) => final(jobs).jobs@.len() < MAX_JOBS,
            Err(e) => final(jobs).jobs@.len() >= MAX_JOBS && e@ == full_text(),
        },
{
    let ghost j0 = jobs.jobs@;
    prune(&mut jobs.jobs, MAX_JOBS - 1, RETAIN_FINISHED, now);
    assert forall|i: int| 0 <= i < jobs.jobs@.len() implies (#[trigger] jobs.jobs@[i]).cap.wf()
        && handed_out(jobs.jobs@[i].id@, jobs.started) by {
        let j = jobs.jobs@[i];
        assert(jobs.jobs@.contains(j));
        pruning_never_drops_a_running_job(j0, MAX_JOBS - 1, RETAIN_FINISHED, now, j);
        let k = choose|k: int| 0 <= k < j0.len() && j0[k] == j;
        assert(j0[k].cap.wf());
        assert(handed_out(j0[k].id@, jobs.started));
    }
    proof {
        pruning_keeps_apart(j0, MAX_JOBS - 1, RETAIN_FINISHED, now);
    }
    if jobs.jobs.len() >= MAX_JOBS {
        return Err(full());
    }
    Ok(())
}

/// Enters the job of a process that was just started and hands out its id. Where others have
/// taken the last place meanwhile, the process has to be killed.
pub fn start(
    jobs: &mut Jobs,
    cwd: &str,
    command: &str,
    pid: u32,
    now: u64,
    millis: u128,
) -> (r: Result<String, String>)
    requires
        old(jobs).wf(),
        old(jobs).started < u64::MAX,
    ensures
        final(jobs).wf(),
        final(jobs).started == old(jobs).started + 1,
        match r {
            Ok(id) => {
                &&& old(jobs).jobs@.len() < MAX_JOBS
                &&& id@ == job_id(millis, final(jobs).started as nat)
                &&& final(jobs).jobs@.len() == old(jobs).jobs@.len() + 1
                &&& final(jobs).jobs@.drop_last() == old(jobs).jobs@
                &&& ({
                    let j = final(jobs).jobs@.last();
                    &&& j.id@ == id@
                    &&& j.command@ == command@
                    &&& j.cwd@ == cwd@
                    &&& j.pid == pid
                    &&& j.started_at == now
                    &&& j.cap.stream@.len() == 0
                    &&& j.cap.cursor == 0
                    &&& j.status is Running
                    &&& !j.killed
                })
            },
            Err(e) => {
                &&& old(jobs).jobs@.len() >= MAX_JOBS
                &&& e@ == full_text()
                &&& final(jobs).jobs@ == old(jobs).jobs@
            },
        },
{
    jobs.started = jobs.started + 1;
    if jobs.jobs.len() >= MAX_JOBS {
        assert forall|i: int| 0 <= i < jobs.jobs@.len() implies handed_out(
            (#[trigger] jobs.jobs@[i]).id@,
            jobs.started,
        ) by {
            assert(handed_out(jobs.jobs@[i].id@, old(jobs).started));
        }
        return Err(full());
    }
    let mut id = "bg-".to_string();
    id.append(hex(millis).as_str());
    id.append("-");
    id.append(decimal(jobs.started).as_str());
    let job = Job {
        id: id.clone(),
        command: command.to_string(),
        cwd: cwd.to_string(),
        pid,
        started_at: now,
        cap: Capture::new(),
        status: Status::Running,
        killed: false,
    };
    jobs.jobs.push(job);
    assert(jobs.jobs@.drop_last() =~= old(jobs).jobs@);
    proof {
        let j0 = old(jobs).jobs@;
        assert forall|i: int| 0 <= i < jobs.jobs@.len() implies handed_out(
            (#[trigger] jobs.jobs@[i]).id@,
            jobs.started,
        ) by {
            if i < j0.len() {
                assert(jobs.jobs@[i] == j0[i]);
                assert(handed_out(j0[i].id@, old(jobs).started));
            } else {
                assert(jobs.jobs@[i].id@ == job_id(millis, jobs.started as nat));
            }
        }
        assert forall|i: int, k: int| 0 <= i < k < jobs.jobs@.len() implies (
        #[trigger] jobs.jobs@[i]).id@ != (#[trigger] jobs.jobs@[k]).id@ by {
            assert(jobs.jobs@[i] == j0[i]);
            if k < j0.len() {
                assert(jobs.jobs@[k] == j0[k]);
            } else {
                assert(handed_out(j0[i].id@, old(jobs).started));
                let (m, n) = choose|m: u128, n: nat|
                    n <= old(jobs).started && j0[i].id@ == #[trigger] job_id(m, n);
                job_ids_differ(m, n, millis, jobs.started as nat);
            }
        }
    }
    Ok(id)
}

pub open spec fn unknown_text(id: Seq<char>) -> Seq<char> {
    "no such background job: "@ + id
}

pub open spec fn unknown_to_poll_text(id: Seq<char>) -> Seq<char> {
    unknown_text(id)
        + ". Only ids that powershell background:true returned are valid, and finished jobs are forgotten after an hour."@
}

/// Whether a poll need not wait: the job has ended, or has printed something new.
pub fn ready(jobs: &Jobs, id: &str) -> (r: Result<bool, String>)
    requires
        jobs.wf(),
    ensures
        match r {
            Ok(b) => position(jobs.jobs@, id@) matches Some(i) && b == (jobs.jobs@[i].status is Done
                || jobs.jobs@[i].cap.cursor < jobs.jobs@[i].cap.stream@.len()),
            Err(e) => position(jobs.jobs@, id@) is None && e@ == unknown_to_poll_text(id@),
        },
{
    match find(&jobs.jobs, id) {
        Some(i) => Ok(jobs.jobs[i].done() || jobs.jobs[i].cap.has_new()),
        None => {
            let mut e = "no such background job: ".to_string();
            e.append(id);
            e.append(
                ". Only ids that powershell background:true returned are valid, and finished jobs are forgotten after an hour.",
            );
            Err(e)
        },
    }
}

/// Reports the status of a job and all that it printed since the last poll.
pub fn poll(jobs: &mut Jobs, id: &str, now: u64) -> (r: Result<String, String>)
    requires
        old(jobs).wf(),
    ensures
        final(jobs).wf(),
        final(jobs).started == old(jobs).started,
        match r {
            Ok(text) => position(old(jobs).jobs@, id@) matches Some(i) && {
                &&& text@ == report(old(jobs).jobs@[i], now)
                &&& text@.len() > 0
                &&& final(jobs).jobs@ == old(jobs).jobs@.update(i, final(jobs).jobs@[i])
                &&& read_up_to(
                    old(jobs).jobs@[i],
                    final(jobs).jobs@[i],
                    taken_from(
                        old(jobs).jobs@[i].cap.stream@,
                        old(jobs).jobs@[i].cap.cursor as int,
                        MAX_POLL as int,
                    ).end,
                )
            },
            Err(e) => {
                &&& position(old(jobs).jobs@, id@) is None
                &&& e@ == unknown_to_poll_text(id@)
                &&& final(jobs).jobs@ == old(jobs).jobs@
            },
        },
{
    match find(&jobs.jobs, id) {
        Some(i) => {
            let ghost j0 = jobs.jobs@;
            let text = jobs.jobs[i].render(now);
            assert(jobs.jobs@ =~= j0.update(i as int, jobs.jobs@[i as int]));
            assert forall|k: int| 0 <= k < jobs.jobs@.len() implies (
            #[trigger] jobs.jobs@[k]).cap.wf() by {
                if k != i {
                    assert(jobs.jobs@[k] == j0[k]);
                }
            }
            Ok(text)
        },
        None => {
            let mut e = "no such background job: ".to_string();
            e.append(id);
            e.append(
                ". Only ids that powershell background:true returned are valid, and finished jobs are forgotten after an hour.",
            );
            Err(e)
        },
    }
}

/// Marks a job as killed and hands out the process to end with all that it has started, so that
/// the next poll does not pass the signal's exit code off as the command's own. A job that has
/// ended is left alone.
pub fn kill(jobs: &mut Jobs, id: &str) -> (r: Result<(String, Option<u32>), String>)
    requires
        old(jobs).wf(),
    ensures
        final(jobs).wf(),
        final(jobs).started == old(jobs).started,
        match r {
            Ok((text, target)) => position(old(jobs).jobs@, id@) matches Some(i) && {
                let j = old(jobs).jobs@[i];
                if j.status is Done {
                    &&& text@ == "[job "@ + id@ + "] already exited; nothing to kill"@
                    &&& target is None
                    &&& final(jobs).jobs@ == old(jobs).jobs@
                } else {
                    &&& text@ == "[job "@ + id@
                        + "] kill signalled (process tree terminated, pid "@ + decimal_of(
                        j.pid as nat,
                    ) + "); poll to see its last output"@
                    &&& target == Some(j.pid)
                    &&& final(jobs).jobs@ == old(jobs).jobs@.update(i, Job { killed: true, ..j })
                }
            },
            Err(e) => {
                &&& position(old(jobs).jobs@, id@) is None
                &&& e@ == unknown_text(id@)
                &&& final(jobs).jobs@ == old(jobs).jobs@
            },
        },
{
    match find(&jobs.jobs, id) {
        Some(i) => {
            let mut s = "[job ".to_string();
            s.append(id);
            if jobs.jobs[i].done() {
                s.append("] already exited; nothing to kill");
                return Ok((s, None));
            }
            let ghost j0 = jobs.jobs@;
            jobs.jobs[i].killed = true;
            assert(jobs.jobs@ =~= j0.update(i as int, Job { killed: true, ..j0[i as int] }));
            let pid: u32 = jobs.jobs[i].pid;
            s.append("] kill signalled (process tree terminated, pid ");
            s.append(decimal(pid as u64).as_str());
            s.append("); poll to see its last output");
            Ok((s, Some(pid)))
        },
        None => {
            let mut e = "no such background job: ".to_string();
            e.append(id);
            Err(e)
        },
    }
}

/// The processes of the jobs that still run.
pub open spec fn living(jobs: Seq<Job>) -> Seq<u32>
    decreases jobs.len(),
{
    if jobs.len() == 0 {
        Seq::empty()
    } else if jobs.last().status is Running {
        living(jobs.drop_last()).push(jobs.last().pid)
    } else {
        living(jobs.drop_last())
    }
}

/// Forgets every job and hands out the processes to end.
pub fn shutdown_all(jobs: &mut Jobs) -> (r: Vec<u32>)
    ensures
        final(jobs).wf(),
        final(jobs).jobs@.len() == 0,
        final(jobs).started == old(jobs).started,
        r@ == living(old(jobs).jobs@),
{
    let mut out: Vec<u32> = Vec::new();
    let mut i: usize = 0;
    while i < jobs.jobs.len()
        invariant
            i <= jobs.jobs.len(),
            *jobs == *old(jobs),
            out@ == living(jobs.jobs@.take(i as int)),
        decreases jobs.jobs.len() - i,
    {
        assert(jobs.jobs@.take(i + 1).drop_last() =~= jobs.jobs@.take(i as int));
        if !jobs.jobs[i].done() {
            out.push(jobs.jobs[i].pid);
        }
        i += 1;
    }
    assert(jobs.jobs@.take(jobs.jobs@.len() as int) =~= jobs.jobs@);
    jobs.jobs.clear();
    out
}

/// Whether the jobs are those of before, with more output of the one with an id.
pub open spec fn captured(before: Seq<Job>, after: Seq<Job>, id: Seq<char>, data: Seq<u8>) -> bool {
    match position(before, id) {
        Some(i) => {
            let j = before[i];
            let k = after[i];
            &&& after == before.update(i, k)
            &&& k == (Job { cap: k.cap, ..j })
            &&& k.cap.stream@ == j.cap.stream@ + data
            &&& k.cap.cursor == j.cap.cursor
        },
        None => after == before,
    }
}

/// Takes what a job's process printed. An id that is not known is ignored.
pub fn capture(jobs: &mut Jobs, id: &str, data: &[u8])
    requires
        old(jobs).wf(),
        position(old(jobs).jobs@, id@) matches Some(i) ==> old(jobs).jobs@[i].cap.stream@.len()
            + data@.len() <= usize::MAX,
    ensures
        final(jobs).wf(),
        final(jobs).started == old(jobs).started,
        captured(old(jobs).jobs@, final(jobs).jobs@, id@, data@),
{
    match find(&jobs.jobs, id) {
        Some(i) => {
            let ghost j0 = jobs.jobs@;
            jobs.jobs[i].cap.push(data);
            assert(jobs.jobs@ =~= j0.update(i as int, jobs.jobs@[i as int]));
            assert forall|k: int| 0 <= k < jobs.jobs@.len() implies (
            #[trigger] jobs.jobs@[k]).cap.wf() by {
                if k != i {
                    assert(jobs.jobs@[k] == j0[k]);
                }
            }
        },
        None => {},
    }
}

/// The jobs once the process of the one with an id has ended.
pub open spec fn with_ended(jobs: Seq<Job>, id: Seq<char>, code: i32, at: u64) -> Seq<Job> {
    match position(jobs, id) {
        Some(i) => jobs.update(i, Job { status: Status::Done { code, at }, ..jobs[i] }),
        None => jobs,
    }
}

/// Records that a job's process has ended. An id that is not known is ignored.
pub fn finish(jobs: &mut Jobs, id: &str, code: i32, at: u64)
    requires
        old(jobs).wf(),
    ensures
        final(jobs).wf(),
        final(jobs).started == old(jobs).started,
        final(jobs).jobs@ == with_ended(old(jobs).jobs@, id@, code, at),
{
    match find(&jobs.jobs, id) {
        Some(i) => {
            let ghost j0 = jobs.jobs@;
            jobs.jobs[i].status = Status::Done { code, at };
            assert(jobs.jobs@ =~= j0.update(
                i as int,
                Job { status: Status::Done { code, at }, ..j0[i as int] },
            ));
            assert forall|k: int| 0 <= k < jobs.jobs@.len() implies (
            #[trigger] jobs.jobs@[k]).cap.wf() by {
                if k != i {
                    assert(jobs.jobs@[k] == j0[k]);
                }
            }
        },
        None => {},
    }
}

/// No two jobs share an id, whenever they were started.
pub proof fn job_ids_differ(millis: u128, n: nat, later: u128, m: nat)
    requires
        n != m,
    ensures
        job_id(millis, n) != job_id(later, m),
{
    reveal_strlit("-");
    let p = "bg-"@ + hex_of(millis as nat);
    let q = "bg-"@ + hex_of(later as nat);
    assert(job_id(millis, n) =~= p.push('-') + decimal_of(n));
    assert(job_id(later, m) =~= q.push('-') + decimal_of(m));
    if job_id(millis, n) == job_id(later, m) {
        numbered_endings_tell_apart(p, n, q, m, '-');
    }
}

// ---- what polling is for -----------------------------------------------------------------------------

/// A poll shows the newest of what was printed since the last: all of it, where it is not more than a
/// poll hands out and is still kept, and otherwise at least as much of its end. What it passes over
/// is counted, and what it shows is the output itself.
pub proof fn a_poll_shows_the_newest_output(stream: Seq<u8>, from: int, max: int)
    requires
        0 <= from < stream.len(),
        0 <= max,
    ensures
        ({
            let t = taken_from(stream, from, max);
            let start = from + t.skipped;
            &&& 0 <= t.skipped && start <= stream.len()
            &&& stream.len() - from <= max && stream.len() - from <= 1_000_000 ==> t.skipped == 0
            &&& stream.len() - start >= max || stream.len() - start >= 1_000_000 || start == from
            &&& valid_utf8(stream.skip(start)) ==> t.text == decode_utf8(stream.skip(start)) && t.end
                == stream.len()
        }),
{
    let t = taken_from(stream, from, max);
    let begin = if from > evicted(stream) {
        from
    } else {
        evicted(stream)
    };
    let kept = stream.skip(begin);
    let want = if kept.len() > max {
        kept.len() - max
    } else {
        0
    };
    step_back_bound(kept, want);
    let start = step_back(kept, want);
    assert(kept.skip(start) =~= stream.skip(begin + start));
    let rest = stream.skip(begin + start);
    if valid_utf8(rest) {
        if start >= kept.len() {
            assert(rest =~= Seq::<u8>::empty());
            assert(start == kept.len());
            decode_of_nothing();
        }
    }
}

proof fn decode_of_nothing()
    ensures
        decode_utf8(Seq::<u8>::empty()) == Seq::<char>::empty(),
{
    encode_utf8_decode_utf8(Seq::<char>::empty());
    assert(encode_utf8(Seq::<char>::empty()) =~= Seq::<u8>::empty());
}

/// A report names its job, says whether it runs or how it ended, and holds what the poll has read and
/// how much it passed over. That there is nothing new is said only where there is nothing.
pub proof fn a_report_tells_of_the_job(j: Job, now: u64)
    ensures
        ({
            let r = report(j, now);
            let t = taken_from(j.cap.stream@, j.cap.cursor as int, 8_000);
            &&& starts(r, "[job "@ + j.id@ + "]"@)
            &&& t.text.len() > 0 && !blank(t.text) ==> within("\n"@ + t.text, r)
            &&& t.skipped > 0 ==> within(decimal_of(t.skipped as nat), r)
            &&& j.status matches Status::Done { code, at } ==> within(signed_of(code as int), r)
            &&& j.status matches Status::Done { code, at } ==> j.killed ==> within(
                "] killed by request"@,
                r,
            )
            &&& j.status matches Status::Done { code, at } ==> !j.killed ==> within(
                "] exited with code "@ + signed_of(code as int),
                r,
            )
            &&& j.status is Running ==> within("] running, "@, r)
            &&& j.status is Running && blank(t.text) ==> within(
                "(no new output since the last poll)"@,
                r,
            )
        }),
{
    let r = report(j, now);
    let t = taken_from(j.cap.stream@, j.cap.cursor as int, 8_000);
    let h = headline(j, now);
    a_headline_tells_of_the_job(j, now);
    let rest = r.skip(h.len() as int);
    assert(r =~= h + rest);
    between(Seq::empty(), h, rest, r);
    let name = "[job "@ + j.id@ + "]"@;
    assert(r.take(name.len() as int) =~= h.take(name.len() as int));
    match j.status {
        Status::Done { code, at } => {
            within_whole(signed_of(code as int), h, r);
            if j.killed {
                within_whole("] killed by request"@, h, r);
            } else {
                within_whole("] exited with code "@ + signed_of(code as int), h, r);
            }
        },
        Status::Running => {
            within_whole("] running, "@, h, r);
        },
    }
    let body = if !blank(t.text) {
        h + "\n"@ + t.text
    } else if j.status is Running {
        h + "\n(no new output since the last poll)"@
    } else if j.cap.stream@.len() == 0 {
        h + "\n(the command printed nothing)"@
    } else {
        h
    };
    let tail = r.skip(body.len() as int);
    assert(r =~= body + tail);
    if !blank(t.text) {
        between(h, "\n"@ + t.text, tail, r);
    } else if j.status is Running {
        reveal_strlit("\n(no new output since the last poll)");
        reveal_strlit("(no new output since the last poll)");
        reveal_strlit("\n");
        let note = "(no new output since the last poll)"@;
        assert("\n(no new output since the last poll)"@ =~= "\n"@ + note);
        between(h + "\n"@, note, tail, r);
    }
    if t.skipped > 0 {
        let n = decimal_of(t.skipped as nat);
        let a = body + "\n[… skipped "@;
        between(a, n, r.skip((a.len() + n.len()) as int), r);
    }
}

proof fn a_headline_tells_of_the_job(j: Job, now: u64)
    ensures
        ({
            let h = headline(j, now);
            &&& starts(h, "[job "@ + j.id@ + "]"@)
            &&& j.status matches Status::Done { code, at } ==> within(signed_of(code as int), h)
            &&& j.status matches Status::Done { code, at } ==> j.killed ==> within(
                "] killed by request"@,
                h,
            )
            &&& j.status matches Status::Done { code, at } ==> !j.killed ==> within(
                "] exited with code "@ + signed_of(code as int),
                h,
            )
            &&& j.status is Running ==> within("] running, "@, h)
        }),
{
    let h = headline(j, now);
    let a = "[job "@ + j.id@;
    let name = a + "]"@;
    reveal_strlit("]");
    match j.status {
        Status::Done { code, at } => {
            let c = signed_of(code as int);
            if j.killed {
                reveal_strlit("] killed by request");
                reveal_strlit("] killed by request after ");
                let k = "] killed by request"@;
                assert("] killed by request after "@.take(k.len() as int) =~= k);
                between(a, k, h.skip((a.len() + k.len()) as int), h);
                assert(h.take(name.len() as int) =~= name);
                let b = a + "] killed by request after "@ + decimal_of(
                    (run_time(j, now) / 1000) as nat,
                ) + "s (process tree terminated, exit code "@;
                between(b, c, h.skip((b.len() + c.len()) as int), h);
            } else {
                reveal_strlit("] exited with code ");
                let b = a + "] exited with code "@;
                let k = "] exited with code "@ + c;
                between(a, k, h.skip((a.len() + k.len()) as int), h);
                between(b, c, h.skip((b.len() + c.len()) as int), h);
                assert(h.take(name.len() as int) =~= name);
            }
        },
        Status::Running => {
            reveal_strlit("] running, ");
            let k = "] running, "@;
            between(a, k, h.skip((a.len() + k.len()) as int), h);
            assert(h.take(name.len() as int) =~= name);
        },
    }
}

/// A job is found under its id, and only there.
pub proof fn a_job_is_found_under_its_id(jobs: Seq<Job>, id: Seq<char>)
    ensures
        position(jobs, id) matches Some(i) ==> 0 <= i < jobs.len() && jobs[i].id@ == id,
        position(jobs, id) is None ==> forall|i: int|
            0 <= i < jobs.len() ==> (#[trigger] jobs[i]).id@ != id,
    decreases jobs.len(),
{
    if jobs.len() > 0 {
        let d = jobs.drop_last();
        a_job_is_found_under_its_id(d, id);
        if position(jobs, id) is None {
            assert forall|i: int| 0 <= i < jobs.len() implies (#[trigger] jobs[i]).id@ != id by {
                if i < d.len() {
                    assert(d[i] == jobs[i]);
                }
            }
        }
    }
}

/// Every process that still runs is handed out to be ended, and no other.
pub proof fn every_running_process_is_ended(a: Seq<Job>, b: Seq<Job>, j: Job)
    ensures
        living(a + b) == living(a) + living(b),
        living(seq![j]) == if j.status is Running {
            seq![j.pid]
        } else {
            Seq::empty()
        },
    decreases b.len(),
{
    assert(seq![j].drop_last() =~= Seq::empty());
    assert(living(seq![j].drop_last()) =~= Seq::empty());
    assert(living(seq![j]) =~= if j.status is Running {
        seq![j.pid]
    } else {
        Seq::empty()
    });
    if b.len() == 0 {
        assert(a + b =~= a);
    } else {
        every_running_process_is_ended(a, b.drop_last(), j);
        assert((a + b).drop_last() =~= a + b.drop_last());
    }
    assert(living(a + b) =~= living(a) + living(b));
}

/// A job is forgotten only some time after it has ended, or to make room. While there is room, every
/// job is kept that runs or has ended lately enough; and where one that ended lately enough has to
/// go, no job is kept that ended before it.
pub proof fn the_oldest_are_forgotten_first(
    jobs: Seq<Job>,
    max: int,
    retain: u64,
    now: u64,
    j: Job,
    k: Job,
)
    requires
        0 <= max,
        jobs.contains(j),
        j.status matches Status::Done { code, at } ==> now < at || now - at <= retain,
    ensures
        jobs.len() <= max ==> pruned(jobs, max, retain, now).contains(j),
        !pruned(jobs, max, retain, now).contains(j) && pruned(jobs, max, retain, now).contains(k)
            && k.status is Done ==> !ended_before(k, j),
{
    let u = unexpired(jobs, now, retain);
    unexpired_facts(jobs, now, retain, j);
    unexpired_facts(jobs, now, retain, k);
    unexpired_len(jobs, now, retain);
    squeezed_in_order(u, max, j, k);
}

proof fn unexpired_len(jobs: Seq<Job>, now: u64, retain: u64)
    ensures
        unexpired(jobs, now, retain).len() <= jobs.len(),
    decreases jobs.len(),
{
    if jobs.len() > 0 {
        unexpired_len(jobs.drop_last(), now, retain);
    }
}

proof fn endings_are_ordered(a: Job, b: Job, c: Job)
    requires
        a.status is Done,
        b.status is Done,
        c.status is Done,
        !ended_before(b, a),
        !ended_before(c, b),
    ensures
        !ended_before(c, a),
{
    order_is_total(a.id@, b.id@);
    order_is_total(b.id@, c.id@);
    if at_most(a.id@, b.id@) && at_most(b.id@, c.id@) {
        order_is_transitive(a.id@, b.id@, c.id@);
    }
}

proof fn oldest_ended_first(jobs: Seq<Job>)
    ensures
        oldest_finished(jobs) matches Some(i) ==> 0 <= i < jobs.len() && jobs[i].status is Done
            && forall|k: int|
            0 <= k < jobs.len() && (#[trigger] jobs[k]).status is Done ==> !ended_before(
                jobs[k],
                jobs[i],
            ),
    decreases jobs.len(),
{
    if jobs.len() > 0 {
        let d = jobs.drop_last();
        oldest_ended_first(d);
        oldest_is_finished(d);
        match oldest_finished(jobs) {
            Some(i) => {
                assert forall|k: int|
                    0 <= k < jobs.len() && (#[trigger] jobs[k]).status is Done implies !ended_before(
                    jobs[k],
                    jobs[i],
                ) by {
                    match oldest_finished(d) {
                        Some(p) => {
                            if k < d.len() {
                                assert(d[k] == jobs[k]);
                                assert(!ended_before(d[k], d[p]));
                                if i == d.len() {
                                    assert(ended_before(jobs[i], jobs[p]));
                                    ended_one_way(jobs[i], jobs[p]);
                                    endings_are_ordered(jobs[i], jobs[p], jobs[k]);
                                }
                            } else if i == d.len() {
                                ended_not_before_itself(jobs[i]);
                            }
                        },
                        None => {
                            if k < d.len() {
                                assert(d[k] == jobs[k]);
                            } else {
                                ended_not_before_itself(jobs[i]);
                            }
                        },
                    }
                }
            },
            None => {},
        }
    }
}

proof fn ended_one_way(a: Job, b: Job)
    requires
        ended_before(a, b),
    ensures
        !ended_before(b, a),
{
    order_is_total(a.id@, b.id@);
}

proof fn ended_not_before_itself(a: Job)
    ensures
        !ended_before(a, a),
{
    order_is_total(a.id@, a.id@);
}

proof fn squeezed_in_order(jobs: Seq<Job>, max: int, j: Job, k: Job)
    requires
        0 <= max,
        jobs.contains(j),
    ensures
        jobs.len() <= max ==> squeezed(jobs, max).contains(j),
        !squeezed(jobs, max).contains(j) && squeezed(jobs, max).contains(k) && k.status is Done
            ==> !ended_before(k, j),
    decreases jobs.len(),
{
    if jobs.len() > max {
        oldest_ended_first(jobs);
        match oldest_finished(jobs) {
            Some(i) => {
                let rest = jobs.remove(i);
                let at = choose|at: int| 0 <= at < jobs.len() && jobs[at] == j;
                squeezed_facts(rest, max, k);
                if rest.contains(j) {
                    squeezed_in_order(rest, max, j, k);
                } else {
                    if at != i {
                        assert(rest[if at < i {
                            at
                        } else {
                            at - 1
                        }] == j);
                    }
                    assert(jobs[i] == j);
                    if squeezed(jobs, max).contains(k) && k.status is Done {
                        assert(rest.contains(k));
                        let n = choose|n: int| 0 <= n < rest.len() && rest[n] == k;
                        let m = if n < i {
                            n
                        } else {
                            n + 1
                        };
                        assert(jobs[m] == k);
                    }
                }
            },
            None => {},
        }
    }
}

/// A job says how long it has run, in whole seconds: until now while it runs, and until it ended once
/// it has.
pub proof fn a_job_says_how_long_it_ran(j: Job, now: u64)
    ensures
        j.status is Running && now >= j.started_at ==> run_time(j, now) == now - j.started_at,
        j.status matches Status::Done { code, at } ==> at >= j.started_at ==> run_time(j, now) == at
            - j.started_at,
        within(decimal_of((run_time(j, now) / 1000) as nat) + "s"@, report(j, now)),
{
    let h = headline(j, now);
    let r = report(j, now);
    let secs = decimal_of((run_time(j, now) / 1000) as nat);
    let piece = secs + "s"@;
    reveal_strlit("s");
    match j.status {
        Status::Running => {
            reveal_strlit("s elapsed, ");
            let a = "[job "@ + j.id@ + "] running, "@;
            assert(h.subrange(a.len() as int, (a.len() + piece.len()) as int) =~= piece);
            between(a, piece, h.skip((a.len() + piece.len()) as int), h);
        },
        Status::Done { code, at } => {
            if j.killed {
                reveal_strlit("s (process tree terminated, exit code ");
                let a = "[job "@ + j.id@ + "] killed by request after "@;
                assert(h.subrange(a.len() as int, (a.len() + piece.len()) as int) =~= piece);
                between(a, piece, h.skip((a.len() + piece.len()) as int), h);
            } else {
                reveal_strlit("s (total output ");
                let a = "[job "@ + j.id@ + "] exited with code "@ + signed_of(code as int)
                    + " after "@;
                assert(h.subrange(a.len() as int, (a.len() + piece.len()) as int) =~= piece);
                between(a, piece, h.skip((a.len() + piece.len()) as int), h);
            }
        },
    }
    between(Seq::empty(), h, r.skip(h.len() as int), r);
    within_whole(piece, h, r);
}

/// All that a process prints is taken, behind what it printed before, and by its own job only; and
/// the end of a process is the end of its own job only, with its exit code and its time.
pub proof fn output_and_end_go_to_their_job(
    before: Seq<Job>,
    after: Seq<Job>,
    i: int,
    j: int,
    data: Seq<u8>,
    code: i32,
    at: u64,
)
    requires
        apart(before),
        0 <= i < before.len(),
        0 <= j < before.len(),
        captured(before, after, before[i].id@, data),
    ensures
        after.len() == before.len(),
        after[i].cap.stream@ == before[i].cap.stream@ + data,
        after[i].cap.cursor == before[i].cap.cursor,
        after[i].status == before[i].status,
        j != i ==> after[j] == before[j],
        ({
            let e = with_ended(before, before[i].id@, code, at);
            &&& e.len() == before.len()
            &&& e[i].status == (Status::Done { code, at })
            &&& e[i].cap == before[i].cap
            &&& e[i].killed == before[i].killed
            &&& j != i ==> e[j] == before[j]
        }),
{
    let id = before[i].id@;
    a_job_is_found_under_its_id(before, id);
    let p = position(before, id);
    if p is None {
        assert(before[i].id@ != id);
    } else if p->Some_0 < i {
        assert(before[p->Some_0].id@ != before[i].id@);
    } else if p->Some_0 > i {
        assert(before[i].id@ != before[p->Some_0].id@);
    }
    assert(p == Some(i));
}

/// A job that is not there is named.
pub proof fn an_unknown_job_is_named(id: Seq<char>)
    ensures
        within(id, unknown_text(id)),
        within(id, unknown_to_poll_text(id)),
        within(decimal_of(32), full_text()),
{
    let a = "no such background job: "@;
    let t = unknown_text(id);
    let u = unknown_to_poll_text(id);
    between(a, id, Seq::empty(), t);
    between(Seq::empty(), t, u.skip(t.len() as int), u);
    within_whole(id, t, u);
    let b = "too many background jobs ("@;
    let f = full_text();
    between(b, decimal_of(32), f.skip((b.len() + decimal_of(32).len()) as int), f);
}

/// A poll moves on behind what it has read and changes nothing else of a job, so that the next one
/// reads on from there.
pub proof fn a_poll_only_moves_on(j: Job, k: Job, cursor: int)
    requires
        read_up_to(j, k, cursor),
    ensures
        k.cap.cursor == cursor,
        k.cap.stream@ == j.cap.stream@,
        k.status == j.status,
        k.killed == j.killed,
        k.id == j.id,
        k.command == j.command,
        k.pid == j.pid,
        k.started_at == j.started_at,
{
}

} // verus!
