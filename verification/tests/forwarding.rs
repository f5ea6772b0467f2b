use kotlinc::forwarder::{reaches_end, write_warning, Progress, ReadOutcome, StderrForwarder};

fn data(bytes: &[u8]) -> ReadOutcome {
    ReadOutcome::Data(bytes.to_vec())
}

fn end() -> ReadOutcome {
    ReadOutcome::Data(Vec::new())
}

fn lines(texts: &[&str]) -> Vec<Vec<u8>> {
    texts.iter().map(|t| t.as_bytes().to_vec()).collect()
}

/// Drains again and again until the reads are used up or the stream ends.
fn drain_repeatedly(forwarder: &mut StderrForwarder, reads: &[ReadOutcome]) -> (bool, Vec<Vec<u8>>) {
    let mut all = Vec::new();
    let mut at = 0;
    let mut done = forwarder.is_done();
    while at < reads.len() && !done {
        let drained = forwarder.forward_available(&reads[at..]);
        all.extend(drained.lines);
        at += drained.taken;
        done = drained.done;
    }
    (done, all)
}

#[test]
fn empty_stream_forwards_nothing_and_is_done() {
    let mut forwarder = StderrForwarder::new(true);
    assert!(!forwarder.is_done());
    let drained = forwarder.forward_available(&[end()]);
    assert!(drained.done);
    assert_eq!(drained.taken, 1);
    assert!(drained.lines.is_empty());
    assert!(forwarder.is_done());
}

#[test]
fn drain_after_done_is_a_no_op() {
    let mut forwarder = StderrForwarder::new(true);
    assert!(forwarder.forward_available(&[data(b"a\n"), end()]).done);
    let again = forwarder.forward_available(&[data(b"late\n"), end()]);
    assert!(again.done);
    assert_eq!(again.taken, 0);
    assert!(again.lines.is_empty());
    let step = forwarder.on_read(&data(b"later\n"));
    assert_eq!(step.progress, Progress::Done);
    assert!(step.lines.is_empty());
    assert!(forwarder.is_done());
}

#[test]
fn forwarder_without_stream_starts_done() {
    let mut forwarder = StderrForwarder::new(false);
    assert!(forwarder.is_done());
    let drained = forwarder.forward_available(&[data(b"x\n")]);
    assert!(drained.done);
    assert_eq!(drained.taken, 0);
    assert!(drained.lines.is_empty());
    let forwarded = forwarder.forward_all(&[]);
    assert!(forwarded.lines.is_empty());
    assert_eq!(forwarded.drains, 1);
}

#[test]
fn two_lines_split_at_every_offset() {
    let whole = b"line1\nline2\n";
    for cut in 0..=whole.len() {
        let mut reads = Vec::new();
        if cut > 0 {
            reads.push(data(&whole[..cut]));
        }
        if cut < whole.len() {
            reads.push(data(&whole[cut..]));
        }
        reads.push(end());
        let mut forwarder = StderrForwarder::new(true);
        let forwarded = forwarder.forward_all(&reads).lines;
        assert_eq!(forwarded, lines(&["line1", "line2"]), "cut at {}", cut);
        assert!(forwarder.is_done());
    }
}

#[test]
fn partial_line_is_forwarded_at_end_only() {
    let mut forwarder = StderrForwarder::new(true);
    let step = forwarder.on_read(&data(b"partial"));
    assert_eq!(step.progress, Progress::Continue);
    assert!(step.lines.is_empty());
    assert!(!forwarder.is_done());
    let step = forwarder.on_read(&end());
    assert_eq!(step.progress, Progress::Done);
    assert_eq!(step.lines, lines(&["partial"]));
    assert!(forwarder.is_done());
    let step = forwarder.on_read(&end());
    assert!(step.lines.is_empty());
}

#[test]
fn one_read_with_several_lines_keeps_the_rest() {
    let mut forwarder = StderrForwarder::new(true);
    let step = forwarder.on_read(&data(b"a\n\nbc\nde"));
    assert_eq!(step.progress, Progress::Continue);
    assert_eq!(step.lines, lines(&["a", "", "bc"]));
    let step = forwarder.on_read(&data(b"f\ng"));
    assert_eq!(step.lines, lines(&["def"]));
    let step = forwarder.on_read(&end());
    assert_eq!(step.lines, lines(&["g"]));
}

#[test]
fn would_block_yields_and_keeps_the_buffer() {
    let mut forwarder = StderrForwarder::new(true);
    let reads = vec![
        data(b"hel"),
        ReadOutcome::WouldBlock,
        data(b"lo\nwor"),
        ReadOutcome::Interrupted,
        data(b"ld\n"),
        end(),
    ];
    let first = forwarder.forward_available(&reads);
    assert!(!first.done);
    assert_eq!(first.taken, 2);
    assert!(first.lines.is_empty());
    assert!(!forwarder.is_done());
    let second = forwarder.forward_available(&reads[first.taken..]);
    assert!(second.done);
    assert_eq!(second.taken, 4);
    assert_eq!(second.lines, lines(&["hello", "world"]));
}

#[test]
fn interrupted_read_is_retried_without_loss() {
    let mut forwarder = StderrForwarder::new(true);
    let step = forwarder.on_read(&data(b"ab"));
    assert!(step.lines.is_empty());
    let step = forwarder.on_read(&ReadOutcome::Interrupted);
    assert_eq!(step.progress, Progress::Continue);
    assert!(step.lines.is_empty());
    let step = forwarder.on_read(&ReadOutcome::WouldBlock);
    assert_eq!(step.progress, Progress::Yield);
    assert!(step.lines.is_empty());
    let step = forwarder.on_read(&data(b"c\n"));
    assert_eq!(step.lines, lines(&["abc"]));
}

#[test]
fn reads_running_out_leave_the_forwarder_open() {
    let mut forwarder = StderrForwarder::new(true);
    let drained = forwarder.forward_available(&[data(b"one\ntw"), ReadOutcome::Interrupted]);
    assert!(!drained.done);
    assert_eq!(drained.taken, 2);
    assert_eq!(drained.lines, lines(&["one"]));
    let drained = forwarder.forward_available(&[]);
    assert!(!drained.done);
    assert_eq!(drained.taken, 0);
    let drained = forwarder.forward_available(&[data(b"o\n"), end()]);
    assert!(drained.done);
    assert_eq!(drained.lines, lines(&["two"]));
}

#[test]
fn failed_read_flushes_and_adds_a_notice() {
    let mut forwarder = StderrForwarder::new(true);
    forwarder.on_read(&data(b"done\nhalf"));
    let step = forwarder.on_read(&ReadOutcome::Failed("broken pipe".to_string()));
    assert_eq!(step.progress, Progress::Done);
    assert_eq!(
        step.lines,
        lines(&["half", "Failed to read from child stderr: broken pipe"])
    );
    assert!(forwarder.is_done());
}

#[test]
fn failed_read_with_empty_buffer_forwards_the_notice_only() {
    let mut forwarder = StderrForwarder::new(true);
    let drained = forwarder.forward_available(&[ReadOutcome::Failed("gone".to_string()), data(b"x\n")]);
    assert!(drained.done);
    assert_eq!(drained.taken, 1);
    assert_eq!(drained.lines, lines(&["Failed to read from child stderr: gone"]));
}

#[test]
fn chunking_does_not_change_what_is_forwarded() {
    let whole: &[u8] = b"first line\n\nsecond\r\nthird with \xff bytes\nlast without newline";
    let mut expected = lines(&["first line", "", "second\r"]);
    expected.push(b"third with \xff bytes".to_vec());
    expected.push(b"last without newline".to_vec());
    for size in 1..=whole.len() {
        let mut reads: Vec<ReadOutcome> = Vec::new();
        for chunk in whole.chunks(size) {
            reads.push(ReadOutcome::Interrupted);
            reads.push(data(chunk));
            reads.push(ReadOutcome::WouldBlock);
        }
        reads.push(end());
        let mut forwarder = StderrForwarder::new(true);
        let (done, forwarded) = drain_repeatedly(&mut forwarder, &reads);
        assert!(done);
        assert_eq!(forwarded, expected, "chunks of {}", size);
        let mut rejoined = Vec::new();
        for line in &forwarded {
            rejoined.extend_from_slice(line);
            rejoined.push(b'\n');
        }
        let mut with_newline = whole.to_vec();
        with_newline.push(b'\n');
        assert_eq!(rejoined, with_newline);
    }
}

#[test]
fn stream_ending_in_newline_is_rejoined_exactly() {
    let whole: &[u8] = b"a\nbb\nccc\n";
    let mut forwarder = StderrForwarder::new(true);
    let forwarded = forwarder.forward_all(&[data(&whole[..4]), data(&whole[4..]), end()]).lines;
    assert_eq!(forwarded, lines(&["a", "bb", "ccc"]));
    let mut rejoined = Vec::new();
    for line in &forwarded {
        rejoined.extend_from_slice(line);
        rejoined.push(b'\n');
    }
    assert_eq!(rejoined, whole.to_vec());
}

#[test]
fn ten_thousand_lines_arrive_once_and_in_order() {
    let mut whole = Vec::new();
    let mut expected = Vec::new();
    for n in 0..10_000 {
        let line = format!("warning number {}", n);
        whole.extend_from_slice(line.as_bytes());
        whole.push(b'\n');
        expected.push(line.into_bytes());
    }
    let mut reads: Vec<ReadOutcome> = whole.chunks(100).map(data).collect();
    reads.push(end());
    let mut forwarder = StderrForwarder::new(true);
    let forwarded = forwarder.forward_all(&reads).lines;
    assert_eq!(forwarded.len(), 10_000);
    assert_eq!(forwarded, expected);
}

#[test]
fn warning_record_is_marker_line_newline() {
    assert_eq!(write_warning(b"unused variable"), b"cargo:warning=unused variable\n".to_vec());
    assert_eq!(write_warning(b""), b"cargo:warning=\n".to_vec());
    assert_eq!(write_warning(b"\xff\x00"), b"cargo:warning=\xff\x00\n".to_vec());
}

#[test]
fn end_is_reached_when_a_read_ends_the_stream() {
    assert!(reaches_end(&[data(b"a\nb"), end()]));
    assert!(reaches_end(&[ReadOutcome::Interrupted, ReadOutcome::Failed("x".to_string())]));
    assert!(reaches_end(&[end(), ReadOutcome::WouldBlock]));
    assert!(reaches_end(&[data(b"a"), ReadOutcome::WouldBlock, end()]));
    assert!(!reaches_end(&[data(b"a\n"), ReadOutcome::Interrupted, ReadOutcome::WouldBlock]));
    assert!(!reaches_end(&[]));
}

#[test]
fn draining_to_the_end_waits_out_reads_that_would_block() {
    let reads = vec![
        data(b"hel"),
        ReadOutcome::WouldBlock,
        data(b"lo\nwor"),
        ReadOutcome::Interrupted,
        ReadOutcome::WouldBlock,
        data(b"ld\nrest"),
        end(),
        data(b"after the end\n"),
    ];
    assert!(reaches_end(&reads));
    let mut forwarder = StderrForwarder::new(true);
    let forwarded = forwarder.forward_all(&reads);
    assert_eq!(forwarded.lines, lines(&["hello", "world", "rest"]));
    assert_eq!(forwarded.drains, 3);
    assert!(forwarder.is_done());
}

#[test]
fn one_drain_suffices_where_nothing_blocks() {
    let mut forwarder = StderrForwarder::new(true);
    let forwarded = forwarder.forward_all(&[data(b"a\n"), ReadOutcome::Interrupted, end()]);
    assert_eq!(forwarded.lines, lines(&["a"]));
    assert_eq!(forwarded.drains, 1);
    let mut forwarder = StderrForwarder::new(true);
    let forwarded = forwarder.forward_all(&[ReadOutcome::WouldBlock, end()]);
    assert!(forwarded.lines.is_empty());
    assert_eq!(forwarded.drains, 2);
}

#[test]
fn blocking_reads_change_neither_lines_nor_order() {
    let with_blocks = vec![
        ReadOutcome::WouldBlock,
        data(b"one\ntw"),
        ReadOutcome::WouldBlock,
        ReadOutcome::Interrupted,
        data(b"o\nthree"),
        ReadOutcome::WouldBlock,
        end(),
    ];
    let without = vec![data(b"one\ntw"), data(b"o\nthree"), end()];
    let mut first = StderrForwarder::new(true);
    let mut second = StderrForwarder::new(true);
    let blocked = first.forward_all(&with_blocks);
    let plain = second.forward_all(&without);
    assert_eq!(blocked.lines, plain.lines);
    assert_eq!(blocked.lines, lines(&["one", "two", "three"]));
    assert_eq!(blocked.drains, 4);
    assert_eq!(plain.drains, 1);
    let mut third = StderrForwarder::new(true);
    let (done, repeated) = drain_repeatedly(&mut third, &with_blocks);
    assert!(done);
    assert_eq!(repeated, plain.lines);
}
