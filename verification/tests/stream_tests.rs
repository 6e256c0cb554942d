use scenter::stream::{done_line, flush_lines, flush_tail, strip_ansi};

#[test]
fn ansi_sequences_are_removed() {
    assert_eq!(strip_ansi(b"\x1b[1;32mok\x1b[0m done"), b"ok done".to_vec());
    assert_eq!(strip_ansi(b"\x1b]0;title\x07text"), b"text".to_vec());
    assert_eq!(strip_ansi(b"\x1b]0;title\x1b\\text"), b"text".to_vec());
    assert_eq!(strip_ansi(b"a\x1bcb"), b"ab".to_vec());
    assert_eq!(strip_ansi(b"tail\x1b"), b"tail".to_vec());
    assert_eq!(strip_ansi(b"plain text"), b"plain text".to_vec());
    assert!(!strip_ansi(b"\x1b[\x1b[31mred").contains(&0x1b));
}

#[test]
fn lines_are_cut_at_cr_and_lf() {
    let (sent, rest) = flush_lines("Installing 10%\r  Installing 20%\r\n\nDone\npart");
    assert_eq!(sent, vec!["Installing 10%", "Installing 20%", "Done"]);
    assert_eq!(rest, "part");
    let (sent, rest) = flush_lines("no break yet");
    assert!(sent.is_empty());
    assert_eq!(rest, "no break yet");
    assert_eq!(flush_tail("  last \n"), Some("last".to_string()));
    assert_eq!(flush_tail(" \t "), None);
}

#[test]
fn end_marker() {
    assert_eq!(done_line(0), "__done__0");
    assert_eq!(done_line(1), "__done__1");
    assert_eq!(done_line(-1), "__done__-1");
}

fn text_lines(s: &str) -> Vec<String> {
    scenter::text::lines(&s.chars().collect())
        .into_iter()
        .map(|l| l.into_iter().collect())
        .collect()
}

#[test]
fn lines_follow_str_lines() {
    for s in ["", "\n", "a", "a\n", "a\r\nb", "a\nb\n\n", "x\r", "\r\n\r\n", "a\rb\nc"] {
        let want: Vec<String> = s.lines().map(String::from).collect();
        assert_eq!(text_lines(s), want, "input {:?}", s);
    }
}

fn is_subsequence(a: &[u8], b: &[u8]) -> bool {
    let mut it = b.iter();
    a.iter().all(|x| it.any(|y| y == x))
}

#[test]
fn stripped_output_is_a_subsequence_of_the_input() {
    let input = b"\x1b[1;32mInstalling\x1b[0m \x1b]0;title\x07org.app \x1bcdone";
    let out = strip_ansi(input);
    assert_eq!(out, b"Installing org.app done".to_vec());
    assert!(is_subsequence(&out, input));
}
