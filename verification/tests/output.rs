//! Output shaping.

use draug::output::{clamp, push_capped, MAX_BYTES, MAX_CAPTURE, MAX_LINES};

#[test]
fn short_output_is_verbatim() {
    let s = "line1\nline2\nline3\n";
    assert_eq!(clamp(s.as_bytes()), s);
}

#[test]
fn long_output_keeps_head_and_tail_with_marker() {
    let input: String = (1..=500).map(|i| format!("line{i}\n")).collect();
    let out = clamp(input.as_bytes());
    let lines: Vec<&str> = out.lines().collect();
    // 100 head + 1 marker + 100 tail.
    assert_eq!(lines.len(), MAX_LINES + 1);
    assert_eq!(lines[0], "line1");
    assert_eq!(lines[MAX_LINES / 2 - 1], "line100");
    assert_eq!(lines[MAX_LINES / 2], "[... 300 lines omitted ...]");
    assert_eq!(lines[MAX_LINES / 2 + 1], "line401");
    assert_eq!(*lines.last().unwrap(), "line500");
}

#[test]
fn one_enormous_line_is_byte_capped() {
    // A single line far over the byte cap and under the line cap: line
    // clamping leaves it alone, byte clamping must still bound it.
    let input = "x".repeat(MAX_BYTES * 3);
    let out = clamp(input.as_bytes());
    assert!(out.len() < MAX_BYTES + 128, "not byte-capped: {}", out.len());
    assert!(out.contains("bytes omitted"));
}

#[test]
fn invalid_utf8_does_not_panic() {
    let out = clamp(&[0xff, 0xfe, b'h', b'i', 0xff]);
    assert!(out.contains("hi"));
}

#[test]
fn capture_stops_but_marker_shows_truncation() {
    let mut buf = Vec::new();
    // Push more than MAX_CAPTURE; excess is dropped at capture time.
    let chunk = vec![b'a'; MAX_CAPTURE];
    push_capped(&mut buf, &chunk);
    push_capped(&mut buf, &chunk);
    assert_eq!(buf.len(), MAX_CAPTURE);
}

#[test]
fn capture_takes_what_fits() {
    let mut buf = vec![b'a'; MAX_CAPTURE - 2];
    push_capped(&mut buf, b"xyz");
    assert_eq!(buf.len(), MAX_CAPTURE);
    assert_eq!(&buf[MAX_CAPTURE - 3..], b"axy");
}

#[test]
fn invalid_bytes_are_replaced() {
    assert_eq!(clamp(&[b'a', 0xff, b'b']), "a\u{fffd}b");
}

#[test]
fn exactly_the_limit_is_verbatim() {
    let input: String = (1..=MAX_LINES).map(|i| format!("{i}\n")).collect();
    assert_eq!(clamp(input.as_bytes()), input);
    let line = "y".repeat(MAX_BYTES);
    assert_eq!(clamp(line.as_bytes()), line);
}

#[test]
fn byte_cap_cuts_at_characters_and_counts_what_it_drops() {
    // Two bytes per character; half of the cap falls between two of them.
    let input = "é".repeat(MAX_BYTES);
    let out = clamp(input.as_bytes());
    let half = MAX_BYTES / 2;
    let marker = format!("\n[... {} bytes omitted ...]\n", MAX_BYTES * 2 - 2 * half);
    assert_eq!(out, format!("{}{}{}", "é".repeat(half / 2), marker, "é".repeat(half / 2)));
    // One byte first: every boundary is odd, so both halves shrink by one.
    let shifted = format!("x{}", "é".repeat(MAX_BYTES));
    let out = clamp(shifted.as_bytes());
    assert!(out.starts_with("xé"));
    assert!(out.ends_with("é"));
    assert!(out.len() <= MAX_BYTES + 46);
}
