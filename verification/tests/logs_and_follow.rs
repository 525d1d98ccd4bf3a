use oxproc::logs::{tail_buffer_sufficient, tail_last_lines, LineBuffer};

fn lines(buf: &[u8], n: usize) -> Vec<String> {
    tail_last_lines(buf, n)
        .into_iter()
        .map(|l| String::from_utf8(l).unwrap())
        .collect()
}

#[test]
fn tail_matches_whole_file_split() {
    let content = b"one\ntwo\nthree\nfour\n";
    assert_eq!(lines(content, 2), vec!["three", "four"]);
    assert_eq!(lines(content, 4), vec!["one", "two", "three", "four"]);
    // More lines requested than exist: all lines come back.
    assert_eq!(lines(content, 10), vec!["one", "two", "three", "four"]);
}

#[test]
fn tail_without_trailing_newline() {
    let content = b"a\nb\npartial";
    assert_eq!(lines(content, 2), vec!["b", "partial"]);
}

#[test]
fn tail_of_empty_and_blank_files() {
    assert_eq!(lines(b"", 3), Vec::<String>::new());
    assert_eq!(lines(b"\n", 3), vec![""]);
    assert_eq!(lines(b"\n\n", 3), vec!["", ""]);
}

#[test]
fn tail_zero_lines() {
    assert_eq!(lines(b"a\nb\n", 0), Vec::<String>::new());
}

#[test]
fn buffer_sufficiency_counts_newlines() {
    // With more than n newlines in the suffix, a backward reader may stop.
    assert!(tail_buffer_sufficient(b"a\nb\nc\n", 2));
    assert!(!tail_buffer_sufficient(b"a\nb\nc\n", 3));
    assert!(!tail_buffer_sufficient(b"no newline here", 0));
}

#[test]
fn follow_observes_every_line_exactly_once() {
    let mut lb = LineBuffer::new();
    // A line split across reads is emitted once, when it completes.
    let first = lb.feed(b"hel");
    assert!(first.is_empty());
    let second = lb.feed(b"lo\nwor");
    assert_eq!(second, vec![b"hello".to_vec()]);
    let third = lb.feed(b"ld\n\ntail");
    assert_eq!(third, vec![b"world".to_vec(), b"".to_vec()]);
    // Nothing is emitted twice and nothing is lost: the partial remainder
    // completes later.
    let fourth = lb.feed(b" end\n");
    assert_eq!(fourth, vec![b"tail end".to_vec()]);
}

#[test]
fn follow_after_reset_starts_clean() {
    // After truncation a follower reopens at the new end with a fresh
    // buffer; a fresh buffer holds no stale partial bytes.
    let mut lb = LineBuffer::new();
    lb.feed(b"old partial");
    let mut fresh = LineBuffer::new();
    let out = fresh.feed(b"new\n");
    assert_eq!(out, vec![b"new".to_vec()]);
}
