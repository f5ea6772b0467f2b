//! Forwarding of a child's error stream, one complete line at a time.
//!
//! The forwarder never touches the stream itself. Whoever owns the stream
//! reads from it and reports each outcome; the forwarder answers with the
//! lines that are now complete and with what to do next.

use vstd::prelude::*;
use vstd::slice::{slice_subrange, slice_to_vec};
use vstd::string::*;
use vstd::utf8::encode_utf8;
use crate::error::{io_cause_of, io_error_cause, io_error_text, IoCause};
use crate::lines::{
    complete_lines, join_lines, lemma_join_concat, lemma_lines_are_newline_free,
    lemma_newline_free_is_partial, lemma_split_concat, lemma_split_rejoins, newline_free,
    partial_line, NEWLINE,
};

verus! {

/// The least number of bytes for which a read of the stream makes room.
pub const MIN_BUFFER_CAPACITY: usize = 100;

/// What one read from the child's error stream produced.
pub enum ReadOutcome {
    /// The bytes that were read. No bytes at all means the stream has ended.
    Data(Vec<u8>),
    /// Nothing is available right now on a non-blocking stream.
    WouldBlock,
    /// The read was interrupted before it transferred anything.
    Interrupted,
    /// The read failed for another reason, described by the text.
    Failed(String),
}

/// What the reader of the stream does after reporting an outcome.
#[derive(Clone, Copy, Debug, PartialEq, Eq, Structural)]
pub enum Progress {
    /// Read again at once.
    Continue,
    /// Come back later: the stream has nothing to offer for now.
    Yield,
    /// Stop and release the stream: it has ended.
    Done,
}

/// The answer to one reported read.
pub struct Step {
    /// The lines to forward, in order.
    pub lines: Vec<Vec<u8>>,
    /// What to do next.
    pub progress: Progress,
}

/// The result of draining a run of reads.
pub struct Drained {
    /// Whether the stream has ended.
    pub done: bool,
    /// How many of the reads were used.
    pub taken: usize,
    /// The lines to forward, in order.
    pub lines: Vec<Vec<u8>>,
}

/// The result of draining a stream to its end.
pub struct Forwarded {
    /// The lines to forward, in order.
    pub lines: Vec<Vec<u8>>,
    /// How many drains it took.
    pub drains: usize,
}

/// Splits a stream of bytes into lines as the bytes arrive.
pub struct StderrForwarder {
    open: bool,
    buffer: Vec<u8>,
}

/// The contents of a list of lines.
pub open spec fn lines_view(lines: Vec<Vec<u8>>) -> Seq<Seq<u8>> {
    Seq::new(lines@.len(), |i: int| lines@[i]@)
}

/// The buffer as the only line to forward, unless it is empty.
pub open spec fn flushed(buffer: Seq<u8>) -> Seq<Seq<u8>> {
    if buffer.len() > 0 {
        seq![buffer]
    } else {
        Seq::empty()
    }
}

/// The line that reports a failed read.
pub open spec fn failure_notice(text: Seq<char>) -> Seq<u8> {
    encode_utf8("Failed to read from child stderr: "@ + text)
}

/// The record written to the output for one forwarded line.
pub open spec fn warning_record(line: Seq<u8>) -> Seq<u8> {
    (encode_utf8("cargo:warning="@) + line).push(NEWLINE)
}

/// The outcome says that the stream is over.
pub open spec fn ends_stream(outcome: ReadOutcome) -> bool {
    match outcome {
        ReadOutcome::Data(bytes) => bytes@.len() == 0,
        ReadOutcome::Failed(_) => true,
        _ => false,
    }
}

/// The bytes that the outcome adds to the stream.
pub open spec fn bytes_read(outcome: ReadOutcome) -> Seq<u8> {
    match outcome {
        ReadOutcome::Data(bytes) => bytes@,
        _ => Seq::empty(),
    }
}

/// The lines forwarded when `outcome` is reported to a forwarder in `state`.
pub open spec fn step_lines(state: Option<Seq<u8>>, outcome: ReadOutcome) -> Seq<Seq<u8>> {
    match state {
        None => Seq::empty(),
        Some(buffer) => match outcome {
            ReadOutcome::Data(bytes) => if bytes@.len() > 0 {
                complete_lines(buffer + bytes@)
            } else {
                flushed(buffer)
            },
            ReadOutcome::WouldBlock => Seq::empty(),
            ReadOutcome::Interrupted => Seq::empty(),
            ReadOutcome::Failed(text) => flushed(buffer).push(failure_notice(text@)),
        },
    }
}

/// The state of a forwarder in `state` after `outcome` was reported to it.
pub open spec fn step_state(state: Option<Seq<u8>>, outcome: ReadOutcome) -> Option<Seq<u8>> {
    match state {
        None => None,
        Some(buffer) => match outcome {
            ReadOutcome::Data(bytes) => if bytes@.len() > 0 {
                Some(partial_line(buffer + bytes@))
            } else {
                None
            },
            ReadOutcome::WouldBlock => Some(buffer),
            ReadOutcome::Interrupted => Some(buffer),
            ReadOutcome::Failed(_) => None,
        },
    }
}

/// What the reader does after reporting `outcome` to a forwarder in `state`.
pub open spec fn step_progress(state: Option<Seq<u8>>, outcome: ReadOutcome) -> Progress {
    if state is None || ends_stream(outcome) {
        Progress::Done
    } else if outcome is WouldBlock {
        Progress::Yield
    } else {
        Progress::Continue
    }
}

/// What draining a run of reads amounts to.
pub struct Drain {
    /// Whether the stream has ended.
    pub done: bool,
    /// How many of the reads were used.
    pub taken: nat,
    /// The lines forwarded, in order.
    pub lines: Seq<Seq<u8>>,
    /// The state in which the forwarder is left.
    pub state: Option<Seq<u8>>,
}

/// Draining: a forwarder in `state` is given the outcomes `reads` one after
/// the other until one of them ends the stream or would block, or until none
/// is left. A finished forwarder uses none.
pub open spec fn drain(state: Option<Seq<u8>>, reads: Seq<ReadOutcome>) -> Drain
    decreases reads.len(),
{
    if state is None {
        Drain { done: true, taken: 0, lines: Seq::empty(), state: None }
    } else if reads.len() == 0 {
        Drain { done: false, taken: 0, lines: Seq::empty(), state }
    } else {
        let lines = step_lines(state, reads[0]);
        let next = step_state(state, reads[0]);
        match step_progress(state, reads[0]) {
            Progress::Continue => {
                let rest = drain(next, reads.skip(1));
                Drain {
                    done: rest.done,
                    taken: rest.taken + 1,
                    lines: lines + rest.lines,
                    state: rest.state,
                }
            },
            Progress::Yield => Drain { done: false, taken: 1, lines, state: next },
            Progress::Done => Drain { done: true, taken: 1, lines, state: next },
        }
    }
}

/// The lines forwarded when every outcome of `reads` is reported in turn to
/// a forwarder in `state`, however the reports are grouped into drains.
pub open spec fn feed_lines(state: Option<Seq<u8>>, reads: Seq<ReadOutcome>) -> Seq<Seq<u8>>
    decreases reads.len(),
{
    if reads.len() == 0 {
        Seq::empty()
    } else {
        step_lines(state, reads[0]) + feed_lines(step_state(state, reads[0]), reads.skip(1))
    }
}

/// The state of a forwarder in `state` after every outcome of `reads` was
/// reported to it in turn.
pub open spec fn feed_state(state: Option<Seq<u8>>, reads: Seq<ReadOutcome>) -> Option<Seq<u8>>
    decreases reads.len(),
{
    if reads.len() == 0 {
        state
    } else {
        feed_state(step_state(state, reads[0]), reads.skip(1))
    }
}

/// All the bytes that `reads` delivered, in order.
pub open spec fn stream_bytes(reads: Seq<ReadOutcome>) -> Seq<u8>
    decreases reads.len(),
{
    if reads.len() == 0 {
        Seq::empty()
    } else {
        bytes_read(reads[0]) + stream_bytes(reads.skip(1))
    }
}

/// How many of the reads would block.
pub open spec fn would_block_count(reads: Seq<ReadOutcome>) -> nat
    decreases reads.len(),
{
    if reads.len() == 0 {
        0
    } else {
        (if reads[0] is WouldBlock {
            1nat
        } else {
            0nat
        }) + would_block_count(reads.skip(1))
    }
}

/// How many drains it takes to finish a forwarder in `state`, where each
/// drain takes up the reads at the point at which the one before stopped. A
/// drain that finds no read left is the last one too.
pub open spec fn drains_needed(state: Option<Seq<u8>>, reads: Seq<ReadOutcome>) -> nat
    decreases reads.len(),
{
    let first = drain(state, reads);
    if first.done || first.taken == 0 || first.taken > reads.len() {
        1
    } else {
        1 + drains_needed(first.state, reads.skip(first.taken as int))
    }
}

/// The reads that delivered bytes or ended the stream, in order: those that
/// would block or were interrupted are left out.
pub open spec fn data_reads(reads: Seq<ReadOutcome>) -> Seq<ReadOutcome>
    decreases reads.len(),
{
    if reads.len() == 0 {
        Seq::empty()
    } else if reads[0] is WouldBlock || reads[0] is Interrupted {
        data_reads(reads.skip(1))
    } else {
        seq![reads[0]] + data_reads(reads.skip(1))
    }
}

/// None of the outcomes ends the stream.
pub open spec fn stream_goes_on(reads: Seq<ReadOutcome>) -> bool {
    forall|i: int| 0 <= i < reads.len() ==> !ends_stream(#[trigger] reads[i])
}

/// Builds the record that is written to the output for one forwarded line:
/// the marker, the line as it is, and a newline.
pub fn write_warning(line: &[u8]) -> (record: Vec<u8>)
    ensures
        record@ == warning_record(line@),
{
    let mut record = slice_to_vec("cargo:warning=".as_bytes());
    record.extend_from_slice(line);
    record.push(NEWLINE);
    record
}

/// The outcome that a failed read with the given cause amounts to: one that
/// would block or was interrupted is no failure of the stream, anything else
/// is, and `text` shows it.
pub open spec fn failed_read(cause: IoCause, text: String) -> ReadOutcome {
    match cause {
        IoCause::WouldBlock => ReadOutcome::WouldBlock,
        IoCause::Interrupted => ReadOutcome::Interrupted,
        _ => ReadOutcome::Failed(text),
    }
}

impl ReadOutcome {
    /// The outcome of a failed read, from its cause and the text that shows
    /// the failure.
    pub fn of_failure(cause: IoCause, text: String) -> (outcome: ReadOutcome)
        ensures
            outcome == failed_read(cause, text),
    {
        match cause {
            IoCause::WouldBlock => ReadOutcome::WouldBlock,
            IoCause::Interrupted => ReadOutcome::Interrupted,
            _ => ReadOutcome::Failed(text),
        }
    }

    /// The outcome of a read: the bytes where it succeeded, else what its
    /// error amounts to.
    pub fn of_read(read: Result<Vec<u8>, std::io::Error>) -> (outcome: ReadOutcome)
        ensures
            read matches Ok(bytes) ==> outcome == ReadOutcome::Data(bytes),
            read is Err ==> !(outcome is Data),
            read matches Err(error) ==> (outcome is WouldBlock) == (io_cause_of(error)
                == IoCause::WouldBlock),
            read matches Err(error) ==> (outcome is Interrupted) == (io_cause_of(error)
                == IoCause::Interrupted),
    {
        match read {
            Ok(bytes) => ReadOutcome::Data(bytes),
            Err(error) => {
                let cause = io_error_cause(&error);
                let text = io_error_text(&error);
                ReadOutcome::of_failure(cause, text)
            },
        }
    }
}

impl View for StderrForwarder {
    type V = Option<Seq<u8>>;

    /// `None` once the stream has ended, else the bytes of the line that is
    /// still incomplete.
    closed spec fn view(&self) -> Option<Seq<u8>> {
        if self.open {
            Some(self.buffer@)
        } else {
            None
        }
    }
}

impl StderrForwarder {
    /// The buffer holds no complete line.
    pub closed spec fn wf(&self) -> bool {
        newline_free(self.buffer@)
    }

    /// What is buffered never holds a complete line: every line is handed
    /// out by the step that completes it.
    pub proof fn lemma_buffer_is_newline_free(&self)
        requires
            self.wf(),
        ensures
            self@ matches Some(buffer) ==> newline_free(buffer),
    {
    }

    /// A forwarder for a captured stream, or one that is already finished
    /// where nothing was captured.
    pub fn new(captured: bool) -> (forwarder: StderrForwarder)
        ensures
            forwarder.wf(),
            forwarder@ == (if captured {
                Some(Seq::<u8>::empty())
            } else {
                None
            }),
    {
        StderrForwarder { open: captured, buffer: Vec::new() }
    }

    /// Whether the stream has ended.
    pub fn is_done(&self) -> (done: bool)
        ensures
            done == (self@ is None),
    {
        !self.open
    }

    /// Appends `bytes` to the buffer and takes out every line that they
    /// complete.
    fn absorb(&mut self, bytes: &Vec<u8>) -> (lines: Vec<Vec<u8>>)
        requires
            old(self).wf(),
        ensures
            final(self).wf(),
            final(self).open == old(self).open,
            final(self).buffer@ == partial_line(old(self).buffer@ + bytes@),
            lines_view(lines) == complete_lines(old(self).buffer@ + bytes@),
    {
        let mut lines: Vec<Vec<u8>> = Vec::new();
        let ghost start = self.buffer@;
        proof {
            lemma_newline_free_is_partial(start);
            assert(start + bytes@.take(0) =~= start);
            assert(lines_view(lines) =~= complete_lines(start));
        }
        let mut i: usize = 0;
        while i < bytes.len()
            invariant
                0 <= i <= bytes.len(),
                self.open == old(self).open,
                self.buffer@ == partial_line(start + bytes@.take(i as int)),
                lines_view(lines) == complete_lines(start + bytes@.take(i as int)),
            decreases bytes.len() - i,
        {
            let byte: u8 = bytes[i];
            let ghost seen = start + bytes@.take(i as int);
            let ghost next = start + bytes@.take(i + 1);
            proof {
                assert(next.drop_last() =~= seen);
                assert(next.last() == byte);
            }
            if byte == NEWLINE {
                let mut line: Vec<u8> = Vec::new();
                core::mem::swap(&mut line, &mut self.buffer);
                let ghost before = lines_view(lines);
                lines.push(line);
                proof {
                    assert(lines_view(lines) =~= before.push(line@));
                }
            } else {
                self.buffer.push(byte);
            }
            i += 1;
        }
        proof {
            assert(bytes@.take(bytes.len() as int) =~= bytes@);
            lemma_lines_are_newline_free(start + bytes@);
        }
        lines
    }

    /// Takes the incomplete line out of the buffer, as a line to forward
    /// unless it is empty.
    fn flush(&mut self) -> (lines: Vec<Vec<u8>>)
        ensures
            final(self).wf(),
            final(self).open == old(self).open,
            final(self).buffer@ == Seq::<u8>::empty(),
            lines_view(lines) == flushed(old(self).buffer@),
    {
        let mut lines: Vec<Vec<u8>> = Vec::new();
        if self.buffer.len() > 0 {
            let mut line: Vec<u8> = Vec::new();
            core::mem::swap(&mut line, &mut self.buffer);
            lines.push(line);
        }
        assert(lines_view(lines) =~= flushed(old(self).buffer@));
        lines
    }

    /// Takes the outcome of one read and answers with the lines that it
    /// completes and with what the reader does next.
    ///
    /// Bytes extend the buffered line; every newline among them completes a
    /// line, and what follows the last newline stays buffered. A read that
    /// would block or was interrupted changes nothing. The end of the stream,
    /// or a failed read, forwards what is buffered as a last line (a failed
    /// read adds a notice) and finishes the forwarder, which from then on
    /// answers `Done` to everything.
    pub fn on_read(&mut self, outcome: &ReadOutcome) -> (step: Step)
        requires
            old(self).wf(),
        ensures
            final(self).wf(),
            final(self)@ == step_state(old(self)@, *outcome),
            lines_view(step.lines) == step_lines(old(self)@, *outcome),
            step.progress == step_progress(old(self)@, *outcome),
    {
        if !self.open {
            let lines: Vec<Vec<u8>> = Vec::new();
            assert(lines_view(lines) =~= Seq::<Seq<u8>>::empty());
            return Step { lines, progress: Progress::Done };
        }
        match outcome {
            ReadOutcome::WouldBlock => {
                let lines: Vec<Vec<u8>> = Vec::new();
                assert(lines_view(lines) =~= Seq::<Seq<u8>>::empty());
                Step { lines, progress: Progress::Yield }
            },
            ReadOutcome::Interrupted => {
                let lines: Vec<Vec<u8>> = Vec::new();
                assert(lines_view(lines) =~= Seq::<Seq<u8>>::empty());
                Step { lines, progress: Progress::Continue }
            },
            ReadOutcome::Data(bytes) => {
                if bytes.len() > 0 {
                    let lines = self.absorb(bytes);
                    Step { lines, progress: Progress::Continue }
                } else {
                    let lines = self.flush();
                    self.open = false;
                    Step { lines, progress: Progress::Done }
                }
            },
            ReadOutcome::Failed(text) => {
                let mut lines = self.flush();
                let notice = String::from_str("Failed to read from child stderr: ").concat(
                    text.as_str(),
                );
                let ghost before = lines_view(lines);
                lines.push(notice.as_str().as_bytes_vec());
                assert(lines_view(lines) =~= before.push(failure_notice(text@)));
                self.open = false;
                Step { lines, progress: Progress::Done }
            },
        }
    }

    /// Drains what is available: reports the outcomes of `reads` in turn
    /// until one ends the stream (the answer is then done), one would block
    /// (not done, and nothing buffered is lost), or none is left (not done).
    /// A finished forwarder uses no read and answers done.
    pub fn forward_available(&mut self, reads: &[ReadOutcome]) -> (drained: Drained)
        requires
            old(self).wf(),
        ensures
            final(self).wf(),
            final(self)@ == drain(old(self)@, reads@).state,
            drained.done == drain(old(self)@, reads@).done,
            drained.taken == drain(old(self)@, reads@).taken,
            lines_view(drained.lines) == drain(old(self)@, reads@).lines,
    {
        let mut lines: Vec<Vec<u8>> = Vec::new();
        assert(lines_view(lines) =~= Seq::<Seq<u8>>::empty());
        if !self.open {
            return Drained { done: true, taken: 0, lines };
        }
        let ghost whole = drain(self@, reads@);
        let mut i: usize = 0;
        assert(reads@.skip(0) =~= reads@);
        while i < reads.len()
            invariant
                0 <= i <= reads.len(),
                self.wf(),
                self@ is Some,
                whole == drain(old(self)@, reads@),
                whole.done == drain(self@, reads@.skip(i as int)).done,
                whole.taken == i + drain(self@, reads@.skip(i as int)).taken,
                whole.lines == lines_view(lines) + drain(self@, reads@.skip(i as int)).lines,
                whole.state == drain(self@, reads@.skip(i as int)).state,
            decreases reads.len() - i,
        {
            let ghost before = lines_view(lines);
            let ghost rest = reads@.skip(i as int);
            let ghost prev = self@;
            assert(rest[0] == reads@[i as int]);
            assert(rest.len() > 0);
            assert(drain(prev, rest).lines == step_lines(prev, rest[0]) + (if step_progress(
                prev,
                rest[0],
            ) == Progress::Continue {
                drain(step_state(prev, rest[0]), rest.skip(1)).lines
            } else {
                Seq::empty()
            }));
            assert(rest.skip(1) =~= reads@.skip(i + 1));
            let step = self.on_read(&reads[i]);
            let mut fresh = step.lines;
            let ghost added = lines_view(fresh);
            lines.append(&mut fresh);
            assert(lines_view(lines) =~= before + added);
            i += 1;
            match step.progress {
                Progress::Continue => {
                    assert(whole.lines =~= lines_view(lines) + drain(
                        self@,
                        reads@.skip(i as int),
                    ).lines);
                },
                Progress::Yield => {
                    return Drained { done: false, taken: i, lines };
                },
                Progress::Done => {
                    return Drained { done: true, taken: i, lines };
                },
            }
        }
        assert(lines_view(lines) + Seq::<Seq<u8>>::empty() =~= lines_view(lines));
        Drained { done: false, taken: i, lines }
    }

    /// Drains the stream to its end: drains again, from the read at which
    /// the last drain stopped, until a drain reports done. Hands back every
    /// line forwarded on the way, and the number of drains. One of the reads
    /// must end the stream, as one of a stream whose writer has exited does.
    pub fn forward_all(&mut self, reads: &[ReadOutcome]) -> (forwarded: Forwarded)
        requires
            old(self).wf(),
            feed_state(old(self)@, reads@) is None,
        ensures
            final(self).wf(),
            final(self)@ is None,
            lines_view(forwarded.lines) == feed_lines(old(self)@, reads@),
            forwarded.drains == drains_needed(old(self)@, reads@),
    {
        proof {
            lemma_drain_then_rest(self@, reads@);
            lemma_done_means_finished(self@, reads@);
        }
        let first = self.forward_available(reads);
        let mut lines = first.lines;
        let mut at: usize = first.taken;
        let mut done = first.done;
        let mut drains: usize = 1;
        while !done
            invariant
                self.wf(),
                at <= reads.len(),
                done == (self@ is None),
                !done ==> 1 <= drains <= at,
                feed_state(self@, reads@.skip(at as int)) is None,
                feed_lines(old(self)@, reads@) == lines_view(lines) + feed_lines(
                    self@,
                    reads@.skip(at as int),
                ),
                drains_needed(old(self)@, reads@) == (if done {
                    drains as int
                } else {
                    drains + drains_needed(self@, reads@.skip(at as int))
                }),
            decreases reads.len() - at,
        {
            let ghost prev = self@;
            let ghost before = lines_view(lines);
            let rest = slice_subrange(reads, at, reads.len());
            proof {
                assert(rest@ =~= reads@.skip(at as int));
                lemma_drain_then_rest(prev, rest@);
                lemma_done_means_finished(prev, rest@);
            }
            let next = self.forward_available(rest);
            let mut fresh = next.lines;
            let ghost added = lines_view(fresh);
            lines.append(&mut fresh);
            proof {
                assert(lines_view(lines) =~= before + added);
                assert(rest@.skip(next.taken as int) =~= reads@.skip(at + next.taken));
                assert(feed_lines(old(self)@, reads@) =~= lines_view(lines) + feed_lines(
                    self@,
                    reads@.skip(at + next.taken),
                ));
            }
            at += next.taken;
            done = next.done;
            drains += 1;
        }
        proof {
            lemma_finished_is_idle(reads@.skip(at as int));
            assert(lines_view(lines) + Seq::<Seq<u8>>::empty() =~= lines_view(lines));
        }
        Forwarded { lines, drains }
    }
}

/// Whether one of the reads ends the stream.
pub fn reaches_end(reads: &[ReadOutcome]) -> (yes: bool)
    ensures
        yes == !stream_goes_on(reads@),
{
    let mut i: usize = 0;
    while i < reads.len()
        invariant
            0 <= i <= reads.len(),
            forall|j: int| 0 <= j < i ==> !ends_stream(#[trigger] reads@[j]),
        decreases reads.len() - i,
    {
        let ends = match &reads[i] {
            ReadOutcome::Data(bytes) => bytes.len() == 0,
            ReadOutcome::WouldBlock => false,
            ReadOutcome::Interrupted => false,
            ReadOutcome::Failed(_) => true,
        };
        if ends {
            assert(ends_stream(reads@[i as int]));
            return true;
        }
        i += 1;
    }
    false
}

/// Feeding the reads finishes a forwarder exactly when one of them ends the
/// stream, whatever is buffered.
pub proof fn lemma_feed_finishes_iff_stream_ends(buffer: Seq<u8>, reads: Seq<ReadOutcome>)
    ensures
        (feed_state(Some(buffer), reads) is None) == !stream_goes_on(reads),
    decreases reads.len(),
{
    if reads.len() > 0 {
        let tail = reads.skip(1);
        if ends_stream(reads[0]) {
            lemma_finished_is_idle(tail);
        } else {
            let next = step_state(Some(buffer), reads[0]);
            lemma_feed_finishes_iff_stream_ends(next.unwrap(), tail);
            if stream_goes_on(tail) {
                assert forall|i: int| 0 <= i < reads.len() implies !ends_stream(
                    #[trigger] reads[i],
                ) by {
                    if i > 0 {
                        assert(reads[i] == tail[i - 1]);
                    }
                }
            } else {
                let k = choose|k: int| 0 <= k < tail.len() && ends_stream(#[trigger] tail[k]);
                assert(ends_stream(reads[k + 1]));
            }
        }
    }
}

/// Draining until done takes one drain more than there are reads that would
/// block: let the reads go on, in any cuts, with any number that would block
/// or were interrupted, and let the end of the stream follow. Every read that
/// would block stops one drain, and the last drain reaches the end.
pub proof fn lemma_one_drain_per_would_block(
    buffer: Seq<u8>,
    reads: Seq<ReadOutcome>,
    end: ReadOutcome,
)
    requires
        stream_goes_on(reads),
        ends_stream(end),
    ensures
        drains_needed(Some(buffer), reads.push(end)) == would_block_count(reads) + 1,
    decreases reads.len(),
{
    let all = reads.push(end);
    let state = Some(buffer);
    if reads.len() == 0 {
        assert(all[0] == end);
        assert(drain(state, all).done);
    } else {
        let first = reads[0];
        let tail = reads.skip(1);
        assert(all[0] == first);
        assert(!ends_stream(first));
        assert(all.skip(1) =~= tail.push(end));
        assert forall|i: int| 0 <= i < tail.len() implies !ends_stream(#[trigger] tail[i]) by {
            assert(tail[i] == reads[i + 1]);
        }
        let next = step_state(state, first);
        lemma_one_drain_per_would_block(next.unwrap(), tail, end);
        if first is WouldBlock {
            assert(drain(state, all).taken == 1);
            assert(!drain(state, all).done);
        } else {
            let rest = drain(next, all.skip(1));
            lemma_done_means_finished(next, all.skip(1));
            assert(step_progress(state, first) == Progress::Continue);
            assert(drain(state, all).taken == rest.taken + 1);
            assert(all.skip(1).skip(rest.taken as int) =~= all.skip(rest.taken as int + 1));
        }
    }
}

/// A drain reports done exactly when it leaves the forwarder finished, and
/// it uses at least one read where there is one and the forwarder is not
/// finished.
pub proof fn lemma_done_means_finished(state: Option<Seq<u8>>, reads: Seq<ReadOutcome>)
    ensures
        drain(state, reads).done == (drain(state, reads).state is None),
        drain(state, reads).taken <= reads.len(),
        state is Some && reads.len() > 0 ==> drain(state, reads).taken >= 1,
    decreases reads.len(),
{
    if state is Some && reads.len() > 0 {
        lemma_done_means_finished(step_state(state, reads[0]), reads.skip(1));
    }
}

/// A finished forwarder stays finished: whatever is reported to it, it
/// forwards nothing, uses no read and answers done.
pub proof fn lemma_finished_is_idle(reads: Seq<ReadOutcome>)
    ensures
        drain(None, reads) == (Drain { done: true, taken: 0, lines: Seq::empty(), state: None }),
        feed_lines(None, reads) == Seq::<Seq<u8>>::empty(),
        feed_state(None, reads) == None::<Seq<u8>>,
    decreases reads.len(),
{
    if reads.len() > 0 {
        lemma_finished_is_idle(reads.skip(1));
        assert(feed_lines(None, reads) =~= Seq::<Seq<u8>>::empty());
    }
}

/// Draining in several goes forwards what one pass over the reads forwards:
/// the lines of a drain, followed by what the reads that it left unused
/// produce from the state it ended in, are the lines of feeding all of them,
/// and the final state is the same. A read that would block therefore
/// neither drops nor repeats anything.
pub proof fn lemma_drain_then_rest(state: Option<Seq<u8>>, reads: Seq<ReadOutcome>)
    ensures
        drain(state, reads).taken <= reads.len(),
        feed_lines(state, reads) == drain(state, reads).lines + feed_lines(
            drain(state, reads).state,
            reads.skip(drain(state, reads).taken as int),
        ),
        feed_state(state, reads) == feed_state(
            drain(state, reads).state,
            reads.skip(drain(state, reads).taken as int),
        ),
    decreases reads.len(),
{
    let d = drain(state, reads);
    if state is None || reads.len() == 0 {
        assert(reads.skip(0) =~= reads);
        assert(d.lines + feed_lines(state, reads) =~= feed_lines(state, reads));
    } else {
        let next = step_state(state, reads[0]);
        let tail = reads.skip(1);
        if step_progress(state, reads[0]) == Progress::Continue {
            lemma_drain_then_rest(next, tail);
            let r = drain(next, tail);
            assert(tail.skip(r.taken as int) =~= reads.skip(d.taken as int));
            assert(feed_lines(state, reads) =~= d.lines + feed_lines(
                d.state,
                reads.skip(d.taken as int),
            ));
        }
    }
}

/// A drain that reaches the end of the stream has forwarded everything that
/// the reads hold for the forwarder: reads after the end add nothing.
pub proof fn lemma_finished_drain_is_all(state: Option<Seq<u8>>, reads: Seq<ReadOutcome>)
    requires
        drain(state, reads).done,
    ensures
        drain(state, reads).lines == feed_lines(state, reads),
        feed_state(state, reads) == None::<Seq<u8>>,
{
    let d = drain(state, reads);
    lemma_drain_then_rest(state, reads);
    lemma_done_means_finished(state, reads);
    lemma_finished_is_idle(reads.skip(d.taken as int));
    assert(d.lines + Seq::<Seq<u8>>::empty() =~= d.lines);
}

/// Feeding two runs of reads one after the other is feeding their
/// concatenation.
pub proof fn lemma_feed_concat(
    state: Option<Seq<u8>>,
    first: Seq<ReadOutcome>,
    second: Seq<ReadOutcome>,
)
    ensures
        feed_lines(state, first + second) == feed_lines(state, first) + feed_lines(
            feed_state(state, first),
            second,
        ),
        feed_state(state, first + second) == feed_state(feed_state(state, first), second),
    decreases first.len(),
{
    if first.len() == 0 {
        assert(first + second =~= second);
        assert(feed_lines(state, first) + feed_lines(state, second) =~= feed_lines(state, second));
    } else {
        let next = step_state(state, first[0]);
        lemma_feed_concat(next, first.skip(1), second);
        assert((first + second).skip(1) =~= first.skip(1) + second);
        assert((first + second)[0] == first[0]);
        assert(feed_lines(state, first + second) =~= feed_lines(state, first) + feed_lines(
            feed_state(state, first),
            second,
        ));
    }
}

/// Where the reads are cut does not matter, nor how often a read would block
/// or was interrupted in between: as long as the stream goes on, the lines
/// forwarded are the complete lines of all the bytes delivered, and the
/// buffer holds what follows their last newline.
pub proof fn lemma_forwarding_ignores_chunking(buffer: Seq<u8>, reads: Seq<ReadOutcome>)
    requires
        newline_free(buffer),
        stream_goes_on(reads),
    ensures
        feed_lines(Some(buffer), reads) == complete_lines(buffer + stream_bytes(reads)),
        feed_state(Some(buffer), reads) == Some(partial_line(buffer + stream_bytes(reads))),
    decreases reads.len(),
{
    if reads.len() == 0 {
        assert(buffer + stream_bytes(reads) =~= buffer);
        lemma_newline_free_is_partial(buffer);
    } else {
        let first = reads[0];
        let tail = reads.skip(1);
        let joined = buffer + bytes_read(first);
        assert(!ends_stream(first));
        assert forall|i: int| 0 <= i < tail.len() implies !ends_stream(#[trigger] tail[i]) by {
            assert(tail[i] == reads[i + 1]);
        }
        lemma_lines_are_newline_free(joined);
        lemma_forwarding_ignores_chunking(partial_line(joined), tail);
        lemma_split_concat(joined, stream_bytes(tail));
        assert(joined + stream_bytes(tail) =~= buffer + stream_bytes(reads));
        if bytes_read(first).len() == 0 {
            assert(joined =~= buffer);
            lemma_newline_free_is_partial(buffer);
            assert(step_lines(Some(buffer), first) =~= complete_lines(joined));
        }
    }
}

/// Two ways of reading the same bytes forward the same lines: chunk
/// boundaries, and reads that would block or were interrupted, leave no
/// trace in the output.
pub proof fn lemma_same_bytes_same_lines(
    buffer: Seq<u8>,
    first: Seq<ReadOutcome>,
    second: Seq<ReadOutcome>,
)
    requires
        newline_free(buffer),
        stream_goes_on(first),
        stream_goes_on(second),
        stream_bytes(first) == stream_bytes(second),
    ensures
        feed_lines(Some(buffer), first) == feed_lines(Some(buffer), second),
        feed_state(Some(buffer), first) == feed_state(Some(buffer), second),
{
    lemma_forwarding_ignores_chunking(buffer, first);
    lemma_forwarding_ignores_chunking(buffer, second);
}

/// Leaving out the reads that would block or were interrupted leaves the
/// bytes of the stream as they are, and leaves no read that would block.
pub proof fn lemma_data_reads_keep_the_bytes(reads: Seq<ReadOutcome>)
    requires
        stream_goes_on(reads),
    ensures
        stream_goes_on(data_reads(reads)),
        stream_bytes(data_reads(reads)) == stream_bytes(reads),
        would_block_count(data_reads(reads)) == 0,
    decreases reads.len(),
{
    if reads.len() > 0 {
        let first = reads[0];
        let tail = reads.skip(1);
        assert(!ends_stream(first));
        assert forall|i: int| 0 <= i < tail.len() implies !ends_stream(#[trigger] tail[i]) by {
            assert(tail[i] == reads[i + 1]);
        }
        lemma_data_reads_keep_the_bytes(tail);
        let kept = data_reads(tail);
        if first is WouldBlock || first is Interrupted {
            assert(stream_bytes(reads) =~= stream_bytes(tail));
        } else {
            let all = seq![first] + kept;
            assert(all[0] == first);
            assert(all.skip(1) =~= kept);
            assert forall|i: int| 0 <= i < all.len() implies !ends_stream(#[trigger] all[i]) by {
                if i > 0 {
                    assert(all[i] == kept[i - 1]);
                }
            }
        }
    }
}

/// Reads that would block or were interrupted neither drop nor repeat
/// anything. Let the reads go on and the end of the stream follow. Draining
/// until done then forwards the same lines, in the same order, as draining
/// the reads without those that would block or were interrupted; it takes one
/// drain more than there are reads that would block, and a single drain
/// without them.
pub proof fn lemma_blocking_leaves_no_trace(
    buffer: Seq<u8>,
    reads: Seq<ReadOutcome>,
    end: ReadOutcome,
)
    requires
        newline_free(buffer),
        stream_goes_on(reads),
        ends_stream(end),
    ensures
        feed_lines(Some(buffer), reads.push(end)) == feed_lines(
            Some(buffer),
            data_reads(reads).push(end),
        ),
        drains_needed(Some(buffer), reads.push(end)) == would_block_count(reads) + 1,
        drains_needed(Some(buffer), data_reads(reads).push(end)) == 1,
{
    let state = Some(buffer);
    let kept = data_reads(reads);
    let last = seq![end];
    lemma_data_reads_keep_the_bytes(reads);
    lemma_same_bytes_same_lines(buffer, reads, kept);
    assert(reads.push(end) =~= reads + last);
    assert(kept.push(end) =~= kept + last);
    lemma_feed_concat(state, reads, last);
    lemma_feed_concat(state, kept, last);
    lemma_one_drain_per_would_block(buffer, reads, end);
    lemma_one_drain_per_would_block(buffer, kept, end);
}

/// A stream read to its end is forwarded whole. Let the reads deliver
/// `stream_bytes(reads)` in any cuts, with any number of reads that would
/// block or were interrupted, and let the end of the stream follow. A new
/// forwarder then forwards the complete lines of those bytes and, if bytes
/// follow the last newline, these as a final line. With a newline put back
/// after each line this is the stream itself, plus one newline where the
/// stream did not end in one.
pub proof fn lemma_whole_stream_is_forwarded(reads: Seq<ReadOutcome>, end: ReadOutcome)
    requires
        stream_goes_on(reads),
        end matches ReadOutcome::Data(bytes) && bytes@.len() == 0,
    ensures
        feed_state(Some(Seq::<u8>::empty()), reads.push(end)) == None::<Seq<u8>>,
        feed_lines(Some(Seq::<u8>::empty()), reads.push(end)) == complete_lines(
            stream_bytes(reads),
        ) + flushed(partial_line(stream_bytes(reads))),
        join_lines(feed_lines(Some(Seq::<u8>::empty()), reads.push(end))) == (if partial_line(
            stream_bytes(reads),
        ).len() > 0 {
            stream_bytes(reads).push(NEWLINE)
        } else {
            stream_bytes(reads)
        }),
{
    let start = Some(Seq::<u8>::empty());
    let all = stream_bytes(reads);
    let last = seq![end];
    assert(reads.push(end) =~= reads + last);
    lemma_feed_concat(start, reads, last);
    lemma_forwarding_ignores_chunking(Seq::<u8>::empty(), reads);
    assert(Seq::<u8>::empty() + all =~= all);
    let rest = Some(partial_line(all));
    assert(last.skip(1) =~= Seq::<ReadOutcome>::empty());
    assert(last[0] == end);
    assert(feed_lines(step_state(rest, end), last.skip(1)) =~= Seq::<Seq<u8>>::empty());
    assert(feed_state(step_state(rest, end), last.skip(1)) == step_state(rest, end));
    assert(feed_lines(rest, last) =~= flushed(partial_line(all)));
    assert(feed_state(rest, last) == None::<Seq<u8>>);
    lemma_split_rejoins(all);
    lemma_join_concat(complete_lines(all), flushed(partial_line(all)));
    if partial_line(all).len() > 0 {
        let only = flushed(partial_line(all));
        assert(only.drop_last() =~= Seq::<Seq<u8>>::empty());
        assert(join_lines(only.drop_last()) =~= Seq::<u8>::empty());
        assert(only.last() == partial_line(all));
        assert(join_lines(only) =~= partial_line(all).push(NEWLINE));
        assert(join_lines(complete_lines(all)) + join_lines(only) =~= (join_lines(
            complete_lines(all),
        ) + partial_line(all)).push(NEWLINE));
    } else {
        assert(join_lines(complete_lines(all)) + join_lines(flushed(partial_line(all)))
            =~= join_lines(complete_lines(all)) + partial_line(all));
    }
}

} // verus!
