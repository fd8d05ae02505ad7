//! The execution stage: the shell invocation composed for the remote
//! channel, the non-blocking dual-stream drain loop, and the exit-status
//! report. The loop is driven by poll events — one per iteration — and
//! forwards every byte of both streams until the channel itself reports
//! end-of-stream; only a real read failure aborts it.
use vstd::prelude::*;
use crate::decimal::dec_seq;
use crate::errors::{ErrorKind, RunError};

verus! {

/// The invocation submitted on the command channel: a `cd` into the
/// mirrored container composed with `&&`, so that a missing workspace
/// stops the command from ever running and surfaces as the shell's own
/// exit status.
pub fn compose_invocation(workspace: &str, command: &str) -> (s: String)
    ensures
        s@ == "cd "@ + workspace@ + "/container && "@ + command@,
{
    let mut s = String::from_str("cd ");
    s.append(workspace);
    s.append("/container && ");
    s.append(command);
    s
}

/// What one non-blocking read of a stream produced.
pub enum ReadOutcome {
    /// Bytes were pending (possibly none: a zero-length read is quiet).
    Data(Vec<u8>),
    /// No data right now; not an error.
    WouldBlock,
    /// A real read failure, carrying its description.
    Failed(String),
}

/// What the loop observed in one iteration: either the channel reported
/// end-of-stream, or both streams were polled.
pub enum PollEvent {
    ChannelEof,
    Streams { stdout: ReadOutcome, stderr: ReadOutcome },
}

/// What the loop does with one stream's read.
#[derive(Clone, Copy, Debug, PartialEq, Eq, Structural)]
pub enum ReadDirective {
    /// Forward the pending bytes to the stream's sink.
    ForwardBytes,
    /// Nothing to forward this iteration.
    NoData,
    /// Abort the loop with an execution error.
    Abort,
}

/// Decide what one read outcome means: pending bytes are forwarded
/// verbatim, would-block and empty reads are quiet, and any other failure
/// aborts the loop.
pub fn classify_read(o: &ReadOutcome) -> (d: ReadDirective)
    ensures
        d == ReadDirective::ForwardBytes <==> (o matches ReadOutcome::Data(v) && v@.len() > 0),
        d == ReadDirective::Abort <==> o is Failed,
        d == ReadDirective::NoData <==> (o is WouldBlock || (o matches ReadOutcome::Data(v)
            && v@.len() == 0)),
{
    match o {
        ReadOutcome::Data(v) => if v.len() > 0 {
            ReadDirective::ForwardBytes
        } else {
            ReadDirective::NoData
        },
        ReadOutcome::WouldBlock => ReadDirective::NoData,
        ReadOutcome::Failed(_) => ReadDirective::Abort,
    }
}

/// The bytes a read outcome carries.
pub open spec fn data_of(o: ReadOutcome) -> Seq<u8> {
    match o {
        ReadOutcome::Data(v) => v@,
        _ => Seq::empty(),
    }
}

/// Whether this event ends the loop: channel end-of-stream, or a read
/// failure on either stream.
pub open spec fn ev_stops(ev: PollEvent) -> bool {
    match ev {
        PollEvent::ChannelEof => true,
        PollEvent::Streams { stdout, stderr } => stdout is Failed || stderr is Failed,
    }
}

/// The bytes this event forwards to the standard-output sink.
pub open spec fn fwd_out(ev: PollEvent) -> Seq<u8> {
    match ev {
        PollEvent::ChannelEof => Seq::empty(),
        PollEvent::Streams { stdout, stderr } => if stdout is Failed {
            Seq::empty()
        } else {
            data_of(stdout)
        },
    }
}

/// The bytes this event forwards to the standard-error sink. A failed
/// standard-output read aborts the iteration before standard error is
/// read.
pub open spec fn fwd_err(ev: PollEvent) -> Seq<u8> {
    match ev {
        PollEvent::ChannelEof => Seq::empty(),
        PollEvent::Streams { stdout, stderr } => if stdout is Failed {
            Seq::empty()
        } else {
            data_of(stderr)
        },
    }
}

/// The first event that ends the loop, or the number of events if none
/// does.
pub open spec fn stop_idx(evs: Seq<PollEvent>) -> int
    decreases evs.len(),
{
    if evs.len() == 0 {
        0
    } else if ev_stops(evs[0]) {
        0
    } else {
        1 + stop_idx(evs.drop_first())
    }
}

/// All bytes the first `n` events forward to the standard-output sink.
pub open spec fn outs_upto(evs: Seq<PollEvent>, n: int) -> Seq<u8>
    decreases n,
{
    if n <= 0 {
        Seq::empty()
    } else {
        outs_upto(evs, n - 1) + fwd_out(evs[n - 1])
    }
}

/// All bytes the first `n` events forward to the standard-error sink.
pub open spec fn errs_upto(evs: Seq<PollEvent>, n: int) -> Seq<u8>
    decreases n,
{
    if n <= 0 {
        Seq::empty()
    } else {
        errs_upto(evs, n - 1) + fwd_err(evs[n - 1])
    }
}

/// How a drain pass ended.
pub enum DrainOutcome {
    /// The channel reported end-of-stream: the command is done and its
    /// exit status can be read.
    Finished,
    /// A stream read failed: the run fails with an execution error.
    Aborted(RunError),
    /// The supplied events ran out before the channel closed.
    Exhausted,
}

/// The result of a drain pass: both sinks and how the pass ended.
pub struct DrainRun {
    pub out: Vec<u8>,
    pub err: Vec<u8>,
    pub outcome: DrainOutcome,
}

/// Append a copy of `src` to `dst`.
fn append_bytes(dst: &mut Vec<u8>, src: &Vec<u8>) -> (r: ())
    ensures
        final(dst)@ == old(dst)@ + src@,
{
    let mut j: usize = 0;
    while j < src.len()
        invariant
            j <= src@.len(),
            dst@ == old(dst)@ + src@.subrange(0, j as int),
        decreases src@.len() - j,
    {
        dst.push(src[j]);
        proof {
            assert(old(dst)@ + src@.subrange(0, j + 1) =~= (old(dst)@ + src@.subrange(
                0,
                j as int,
            )).push(src@[j as int]));
        }
        j = j + 1;
    }
    proof {
        assert(src@.subrange(0, src@.len() as int) =~= src@);
    }
}

/// The stop index never passes the end of the events.
proof fn lemma_stop_bounds(evs: Seq<PollEvent>)
    ensures
        0 <= stop_idx(evs) <= evs.len(),
        stop_idx(evs) < evs.len() ==> ev_stops(evs[stop_idx(evs)]),
    decreases evs.len(),
{
    if evs.len() > 0 && !ev_stops(evs[0]) {
        lemma_stop_bounds(evs.drop_first());
    }
}

/// If nothing up to `i` ends the loop, the stop index lies at or past `i`;
/// a stopping event at `i` pins it there.
proof fn lemma_stop_prefix(evs: Seq<PollEvent>, i: int)
    requires
        0 <= i < evs.len(),
        forall|j: int| 0 <= j < i ==> !ev_stops(evs[j]),
    ensures
        i <= stop_idx(evs),
        ev_stops(evs[i]) ==> stop_idx(evs) == i,
        !ev_stops(evs[i]) ==> i + 1 <= stop_idx(evs),
    decreases i,
{
    if i == 0 {
        if !ev_stops(evs[0]) {
            lemma_stop_bounds(evs.drop_first());
            assert(stop_idx(evs) == 1 + stop_idx(evs.drop_first()));
        }
    } else {
        assert(!ev_stops(evs[0]));
        assert forall|j: int| 0 <= j < i - 1 implies !ev_stops(#[trigger] evs.drop_first()[j]) by {
            assert(evs.drop_first()[j] == evs[j + 1]);
        }
        lemma_stop_prefix(evs.drop_first(), i - 1);
        assert(stop_idx(evs) == 1 + stop_idx(evs.drop_first()));
        assert(evs.drop_first()[i - 1] == evs[i]);
    }
}

/// Drain both streams against the supplied poll events: every pending byte
/// of each stream is forwarded to its own sink, in order, until the
/// channel reports end-of-stream; would-block iterations forward nothing
/// and keep polling; a read failure aborts with an execution error, after
/// forwarding what the iteration had already read. Neither stream is
/// abandoned while the other still produces data: only the channel-level
/// end-of-stream ends the pass.
pub fn drain_events(events: &Vec<PollEvent>) -> (r: DrainRun)
    ensures
        ({
            let stop = stop_idx(events@);
            let end = if stop < events@.len() as int {
                stop + 1
            } else {
                events@.len() as int
            };
            &&& r.out@ == outs_upto(events@, end)
            &&& r.err@ == errs_upto(events@, end)
            &&& (r.outcome is Finished <==> (stop < events@.len() as int && events@[stop]
                is ChannelEof))
            &&& (r.outcome is Exhausted <==> stop == events@.len() as int)
            &&& (r.outcome matches DrainOutcome::Aborted(e) ==> e.kind == ErrorKind::Execution)
            &&& ((stop < events@.len() as int && !(events@[stop] is ChannelEof)) ==> r.outcome
                is Aborted)
        }),
{
    let ghost stop = stop_idx(events@);
    proof {
        lemma_stop_bounds(events@);
    }
    let mut out: Vec<u8> = Vec::new();
    let mut err: Vec<u8> = Vec::new();
    let mut i: usize = 0;
    while i < events.len()
        invariant
            i <= events@.len(),
            stop == stop_idx(events@),
            i <= stop,
            forall|j: int| 0 <= j < i ==> !ev_stops(events@[j]),
            out@ == outs_upto(events@, i as int),
            err@ == errs_upto(events@, i as int),
        decreases events@.len() - i,
    {
        proof {
            lemma_stop_prefix(events@, i as int);
        }
        match &events[i] {
            PollEvent::ChannelEof => {
                proof {
                    assert(outs_upto(events@, i + 1) =~= out@);
                    assert(errs_upto(events@, i + 1) =~= err@);
                }
                return DrainRun { out, err, outcome: DrainOutcome::Finished };
            },
            PollEvent::Streams { stdout, stderr } => {
                match stdout {
                    ReadOutcome::Data(v) => {
                        append_bytes(&mut out, v);
                    },
                    ReadOutcome::WouldBlock => {
                    },
                    ReadOutcome::Failed(_) => {
                        proof {
                            assert(outs_upto(events@, i + 1) =~= out@);
                            assert(errs_upto(events@, i + 1) =~= err@);
                        }
                        return DrainRun {
                            out,
                            err,
                            outcome: DrainOutcome::Aborted(
                                RunError::new(
                                    ErrorKind::Execution,
                                    String::from_str("reading the output stream failed"),
                                ),
                            ),
                        };
                    },
                }
                match stderr {
                    ReadOutcome::Data(v) => {
                        append_bytes(&mut err, v);
                    },
                    ReadOutcome::WouldBlock => {
                    },
                    ReadOutcome::Failed(_) => {
                        proof {
                            assert(outs_upto(events@, i + 1) =~= out@);
                            assert(errs_upto(events@, i + 1) =~= err@);
                        }
                        return DrainRun {
                            out,
                            err,
                            outcome: DrainOutcome::Aborted(
                                RunError::new(
                                    ErrorKind::Execution,
                                    String::from_str("reading the error stream failed"),
                                ),
                            ),
                        };
                    },
                }
                proof {
                    assert(outs_upto(events@, i + 1) =~= out@);
                    assert(errs_upto(events@, i + 1) =~= err@);
                }
            },
        }
        i = i + 1;
    }
    proof {
        if events@.len() > 0 {
            lemma_stop_prefix(events@, events@.len() - 1);
        }
    }
    DrainRun { out, err, outcome: DrainOutcome::Exhausted }
}

/// The decimal rendering of `n`, minus sign first when negative.
pub open spec fn int_dec_seq(n: int) -> Seq<char> {
    if n < 0 {
        seq!['-'] + dec_seq((-n) as nat)
    } else {
        dec_seq(n as nat)
    }
}

/// Render a signed number in decimal.
pub fn i32_to_dec(n: i32) -> (s: String)
    ensures
        s@ == int_dec_seq(n as int),
{
    if n < 0 {
        let mag: u32 = (-(n as i64)) as u32;
        let mut s = String::from_str("-");
        proof {
            reveal_strlit("-");
            assert(s@ =~= seq!['-']);
        }
        s.append(crate::decimal::u32_to_dec(mag).as_str());
        proof {
            assert(s@ =~= int_dec_seq(n as int));
        }
        s
    } else {
        crate::decimal::u32_to_dec(n as u32)
    }
}

/// The final report line: the exit status the remote command itself
/// returned, whatever its value. A non-zero status here is the command's
/// own failure code — reaching this line at all means the run saw no
/// execution error.
pub fn exit_report_line(status: i32) -> (s: String)
    ensures
        s@ == "\nExit status: "@ + int_dec_seq(status as int),
{
    let mut s = String::from_str("\nExit status: ");
    s.append(i32_to_dec(status).as_str());
    s
}

/// Whether an event leaves standard output silent: it either polled both
/// streams and saw no stdout bytes and no stdout failure, or it is the
/// channel's end-of-stream.
pub open spec fn out_silent(ev: PollEvent) -> bool {
    match ev {
        PollEvent::ChannelEof => true,
        PollEvent::Streams { stdout, stderr } => (stdout is WouldBlock || (stdout
            matches ReadOutcome::Data(v) && v@.len() == 0)) && !(stderr is Failed),
    }
}

/// The raw standard-error payload of one event, before any masking by a
/// failed standard-output read.
pub open spec fn err_payload(ev: PollEvent) -> Seq<u8> {
    match ev {
        PollEvent::ChannelEof => Seq::empty(),
        PollEvent::Streams { stdout, stderr } => data_of(stderr),
    }
}

/// The raw standard-error payload of the first `n` events.
pub open spec fn err_payloads_upto(evs: Seq<PollEvent>, n: int) -> Seq<u8>
    decreases n,
{
    if n <= 0 {
        Seq::empty()
    } else {
        err_payloads_upto(evs, n - 1) + err_payload(evs[n - 1])
    }
}

/// While standard output never fails, what reaches the error sink is the
/// raw standard-error payload.
proof fn lemma_errs_are_payloads(evs: Seq<PollEvent>, n: int)
    requires
        n <= evs.len(),
        forall|j: int|
            0 <= j < n ==> !(#[trigger] evs[j] matches PollEvent::Streams { stdout, .. } && stdout
                is Failed),
    ensures
        errs_upto(evs, n) == err_payloads_upto(evs, n),
    decreases n,
{
    if n > 0 {
        lemma_errs_are_payloads(evs, n - 1);
        assert(fwd_err(evs[n - 1]) == err_payload(evs[n - 1]));
    }
}

/// Standard output staying permanently silent does not starve standard
/// error: if every iteration before the channel's end-of-stream polls both
/// streams, sees no stdout data and no failure, then the loop runs to that
/// end-of-stream and every standard-error byte is forwarded.
pub proof fn lemma_stderr_not_starved(evs: Seq<PollEvent>, k: int)
    requires
        0 <= k < evs.len(),
        evs[k] is ChannelEof,
        forall|j: int|
            0 <= j < k ==> (#[trigger] evs[j] matches PollEvent::Streams { .. } && out_silent(
                evs[j],
            )),
    ensures
        stop_idx(evs) == k,
        errs_upto(evs, k + 1) == err_payloads_upto(evs, k),
{
    assert forall|j: int| 0 <= j < k implies !ev_stops(evs[j]) by {
        assert(out_silent(evs[j]));
    }
    lemma_stop_prefix(evs, k);
    assert forall|j: int|
        0 <= j < k + 1 implies !(#[trigger] evs[j] matches PollEvent::Streams { stdout, .. }
        && stdout is Failed) by {
        if j < k {
            assert(out_silent(evs[j]));
        }
    }
    lemma_errs_are_payloads(evs, k + 1);
    assert(err_payloads_upto(evs, k + 1) =~= err_payloads_upto(evs, k) + err_payload(evs[k]));
    assert(err_payloads_upto(evs, k + 1) =~= err_payloads_upto(evs, k));
}

/// Reaching the channel's end-of-stream — as a failed `cd` in the composed
/// invocation does, once the shell exits with its own non-zero status —
/// ends the loop normally: the run reports the remote exit status and
/// never turns it into an execution error.
pub proof fn lemma_eof_is_command_outcome(evs: Seq<PollEvent>, k: int)
    requires
        0 <= k < evs.len(),
        evs[k] is ChannelEof,
        forall|j: int| 0 <= j < k ==> !ev_stops(evs[j]),
    ensures
        stop_idx(evs) == k,
{
    lemma_stop_prefix(evs, k);
}

} // verus!
