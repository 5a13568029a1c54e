use wsgate::input::InputStream;

fn stream(body: &[u8]) -> InputStream {
    InputStream::new(body.to_vec())
}

#[test]
fn read_returns_at_most_requested() {
    let mut s = stream(b"abcdef");
    assert_eq!(s.read(4), b"abcd".to_vec());
    assert_eq!(s.remaining(), 2);
    assert_eq!(s.read(10), b"ef".to_vec());
    assert_eq!(s.read(3), Vec::<u8>::new());
    assert_eq!(s.remaining(), 0);
}

#[test]
fn read_zero_consumes_nothing() {
    let mut s = stream(b"abc");
    assert_eq!(s.read(0), Vec::<u8>::new());
    assert_eq!(s.remaining(), 3);
}

#[test]
fn repeated_reads_reconstruct_body_exactly_once() {
    let body = b"the quick brown fox";
    let mut s = stream(body);
    let mut collected: Vec<u8> = Vec::new();
    while s.remaining() > 0 {
        collected.extend(s.read(3));
    }
    assert_eq!(collected, body.to_vec());
    assert_eq!(s.read(8), Vec::<u8>::new());
}

#[test]
fn readline_excludes_terminator() {
    let mut s = stream(b"a\nbb");
    assert_eq!(s.readline(), b"a".to_vec());
    assert_eq!(s.readline(), b"bb".to_vec());
    assert_eq!(s.readline(), Vec::<u8>::new());
}

#[test]
fn readline_without_terminator_drains() {
    let mut s = stream(b"no terminator here");
    assert_eq!(s.readline(), b"no terminator here".to_vec());
    assert_eq!(s.remaining(), 0);
}

#[test]
fn readlines_splits_with_trailing_empty_line() {
    let mut s = stream(b"a\nbb\n");
    assert_eq!(
        s.readlines(0),
        vec![b"a".to_vec(), b"bb".to_vec(), Vec::<u8>::new()]
    );
    assert_eq!(s.remaining(), 0);
}

#[test]
fn readlines_empty_buffer_single_empty_line() {
    let mut s = stream(b"");
    assert_eq!(s.readlines(7), vec![Vec::<u8>::new()]);
}

#[test]
fn readlines_round_trip_rebuilds_buffer() {
    let bodies: Vec<&[u8]> = vec![b"", b"\n", b"a", b"a\n", b"a\nbb", b"a\nbb\n", b"\n\nx\n"];
    for body in bodies {
        let mut s = stream(body);
        let lines = s.readlines(0);
        let mut rebuilt: Vec<u8> = Vec::new();
        for (i, line) in lines.iter().enumerate() {
            if i > 0 {
                rebuilt.push(b'\n');
            }
            rebuilt.extend(line.iter().copied());
        }
        assert_eq!(rebuilt, body.to_vec());
    }
}

#[test]
fn iteration_stops_on_empty_buffer() {
    let mut s = stream(b"x\ny");
    assert_eq!(s.next_line(), Some(b"x".to_vec()));
    assert_eq!(s.next_line(), Some(b"y".to_vec()));
    assert_eq!(s.next_line(), None);
    assert_eq!(s.next_line(), None);
}

#[test]
fn iteration_consumes_trailing_terminator() {
    let mut s = stream(b"x\n");
    assert_eq!(s.next_line(), Some(b"x".to_vec()));
    assert_eq!(s.next_line(), None);
}
