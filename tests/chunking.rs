use kb_core::chunker::{chunk_text, split_lines};
use kb_core::digest::hash_query_context;
use kb_core::index_state::IndexState;
use kb_core::text::{decimal_string, is_blank, join};

fn numbered_lines(n: usize) -> String {
    let mut s = String::new();
    for i in 0..n {
        s.push_str(&format!("line {}\n", i + 1));
    }
    s
}

#[test]
fn twenty_five_lines_make_three_chunks() {
    let text = numbered_lines(25);
    let chunks = chunk_text(&text);
    assert_eq!(chunks.len(), 3);
    assert_eq!(chunks[0].lines().count(), 10);
    assert_eq!(chunks[1].lines().count(), 10);
    assert_eq!(chunks[2].lines().count(), 5);
    assert!(chunks[0].starts_with("line 1\nline 2\n"));
    assert!(chunks[0].ends_with("line 10"));
    assert!(chunks[1].starts_with("line 11\n"));
    assert_eq!(chunks[2], "line 21\nline 22\nline 23\nline 24\nline 25");
}

#[test]
fn identical_input_gives_identical_chunks_and_hashes() {
    let text = numbered_lines(37);
    let a = chunk_text(&text);
    let b = chunk_text(&text.clone());
    assert_eq!(a, b);
    let ha: Vec<String> = a.iter().map(|c| IndexState::hash_chunk(c)).collect();
    let hb: Vec<String> = b.iter().map(|c| IndexState::hash_chunk(c)).collect();
    assert_eq!(ha, hb);
}

#[test]
fn empty_text_has_no_chunks() {
    assert!(chunk_text("").is_empty());
}

#[test]
fn white_space_chunks_are_dropped() {
    let mut text = String::new();
    for _ in 0..10 {
        text.push_str("   \t\n");
    }
    text.push_str("content\n");
    let chunks = chunk_text(&text);
    assert_eq!(chunks, vec!["content".to_string()]);
}

#[test]
fn lines_split_like_str_lines() {
    for text in ["a\r\nb\nc", "a\n\nb\n", "\n", "x\r", "a\r\rb\r\n", "one", "é\u{2028}\r\nz"] {
        let expected: Vec<String> = text.lines().map(String::from).collect();
        assert_eq!(split_lines(text), expected, "input {:?}", text);
    }
}

#[test]
fn crlf_lines_join_with_newline() {
    let chunks = chunk_text("a\r\nb\r\n");
    assert_eq!(chunks, vec!["a\nb".to_string()]);
}

#[test]
fn hash_chunk_is_sha256_hex() {
    assert_eq!(
        IndexState::hash_chunk("hello"),
        "2cf24dba5fb0a30e26e83b2ac5b9e29e1b161e5c1fa7425e73043362938b9824"
    );
    assert_eq!(
        IndexState::hash_chunk(""),
        "e3b0c44298fc1c149afbf4c8996fb92427ae41e4649b934ca495991b7852b855"
    );
}

#[test]
fn context_hash_covers_query_then_chunks() {
    let chunks = vec!["c".to_string(), "d".to_string()];
    assert_eq!(hash_query_context("ab", &chunks), IndexState::hash_chunk("abcd"));
    assert_eq!(hash_query_context("ab", &[]), IndexState::hash_chunk("ab"));
}

#[test]
fn blank_and_join_and_decimal() {
    assert!(is_blank(""));
    assert!(is_blank(" \u{3000}\n"));
    assert!(!is_blank(" x "));
    let parts = vec!["a".to_string(), "b".to_string(), "c".to_string()];
    assert_eq!(join(&parts, ", "), "a, b, c");
    assert_eq!(join(&Vec::new(), ", "), "");
    assert_eq!(decimal_string(0), "0");
    assert_eq!(decimal_string(1234), "1234");
    assert_eq!(decimal_string(u64::MAX), u64::MAX.to_string());
}

#[test]
fn digests_are_64_lowercase_hex_digits() {
    for d in [
        IndexState::hash_chunk("some chunk ✓"),
        hash_query_context("q", &["a".to_string(), "b".to_string()]),
    ] {
        assert_eq!(d.len(), 64);
        assert!(d.chars().all(|c| c.is_ascii_digit() || ('a'..='f').contains(&c)));
    }
}
