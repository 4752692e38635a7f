use xdcc_fetch::framer::LineFramer;

fn drain(f: &mut LineFramer) -> Vec<Vec<u8>> {
    let mut lines = Vec::new();
    while let Some(line) = f.next_line() {
        lines.push(line);
    }
    lines
}

#[test]
fn reassembles_lines_from_one_chunk() {
    let mut f = LineFramer::new();
    f.push_chunk(b"abc\ndef\nxy");
    let lines = drain(&mut f);
    assert_eq!(lines, vec![b"abc\n".to_vec(), b"def\n".to_vec()]);
    assert_eq!(f.next_line(), None);
}

#[test]
fn chunking_is_invariant_one_byte_at_a_time() {
    let stream = b"abc\ndef\nxy";
    let mut whole = LineFramer::new();
    whole.push_chunk(stream);
    let expected = drain(&mut whole);

    let mut tiny = LineFramer::new();
    let mut got = Vec::new();
    for b in stream.iter() {
        tiny.push_chunk(&[*b]);
        got.extend(drain(&mut tiny));
    }
    assert_eq!(got, expected);
}

#[test]
fn chunking_is_invariant_across_odd_cuts() {
    let stream = b"PING :1234\r\nJOIN :#chan\r\n";
    let mut whole = LineFramer::new();
    whole.push_chunk(stream);
    let expected = drain(&mut whole);

    for cut in 0..stream.len() {
        let mut f = LineFramer::new();
        let mut got = Vec::new();
        f.push_chunk(&stream[..cut]);
        got.extend(drain(&mut f));
        f.push_chunk(&stream[cut..]);
        got.extend(drain(&mut f));
        assert_eq!(got, expected);
    }
}

#[test]
fn incomplete_line_stays_buffered() {
    let mut f = LineFramer::new();
    f.push_chunk(b"no terminator yet");
    assert_eq!(f.next_line(), None);
    f.push_chunk(b"\n");
    assert_eq!(f.next_line(), Some(b"no terminator yet\n".to_vec()));
}

#[test]
fn empty_line_is_just_the_terminator() {
    let mut f = LineFramer::new();
    f.push_chunk(b"\n\n");
    assert_eq!(f.next_line(), Some(b"\n".to_vec()));
    assert_eq!(f.next_line(), Some(b"\n".to_vec()));
    assert_eq!(f.next_line(), None);
}

#[test]
fn take_lines_empties_the_buffer_of_complete_lines() {
    let mut f = LineFramer::new();
    f.push_chunk(b"one\ntwo\nthree");
    let lines = f.take_lines();
    assert_eq!(lines, vec![b"one\n".to_vec(), b"two\n".to_vec()]);
    assert_eq!(f.next_line(), None);
    f.push_chunk(b"\n");
    assert_eq!(f.take_lines(), vec![b"three\n".to_vec()]);
}
