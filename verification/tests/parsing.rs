//! Tests of the incremental parser: line assembly over chunked reads,
//! state carried across lines, the length cap, and agreement with
//! per-line scans.

use highlighter::document::{ChunkedDocument, VecDocument};
use highlighter::grammar::powershell_ground;
use highlighter::parser::{Parser, MEBI};
use highlighter::scan::scan_line;
use highlighter::tokens::{Token, TokenKind, Transition};

fn tok(start: usize, end: usize, kind: TokenKind) -> Token {
    Token { range: start..end, kind }
}

const DOC: &str = "# one\n<# open\nstill open #> $v\n$x yy\n";

fn expected_doc_tokens() -> Vec<Vec<Token>> {
    vec![
        vec![tok(0, 5, TokenKind::Comment)],
        vec![tok(6, 13, TokenKind::Comment)],
        vec![tok(14, 27, TokenKind::Comment), tok(28, 30, TokenKind::Variable)],
        vec![tok(31, 33, TokenKind::Variable)],
    ]
}

#[test]
fn parser_produces_each_line() {
    let doc = VecDocument::new(DOC.as_bytes().to_vec());
    let mut p = Parser::new(&doc, Transition::default());
    let expected = expected_doc_tokens();
    for (i, want) in expected.iter().enumerate() {
        let got = p.parse_next_line();
        assert_eq!(&got, want);
        assert_eq!(p.logical_pos_y(), i);
    }
    assert_eq!(p.parse_next_line(), vec![]);
    assert_eq!(p.logical_pos_y(), 3);
}

#[test]
fn chunked_reads_give_the_same_lines() {
    for step in [1usize, 2, 3, 5, 7, 1000] {
        let doc = ChunkedDocument::new(DOC.as_bytes().to_vec(), step);
        let mut p = Parser::new(&doc, Transition::default());
        for want in expected_doc_tokens() {
            assert_eq!(p.parse_next_line(), want);
        }
        assert_eq!(p.parse_next_line(), vec![]);
    }
}

#[test]
fn parser_agrees_with_per_line_scans() {
    let doc = VecDocument::new(DOC.as_bytes().to_vec());
    let mut p = Parser::new(&doc, Transition::default());
    let rules = powershell_ground();
    let mut st = Transition::default();
    let mut base = 0usize;
    for part in DOC.split_inclusive('\n') {
        let content = part.trim_end_matches(['\r', '\n']);
        let (want, next) = scan_line(&content.as_bytes().to_vec(), base, &rules, st);
        assert_eq!(p.parse_next_line(), want);
        st = next;
        base += part.len();
    }
    assert_eq!(p.parse_next_line(), vec![]);
}

#[test]
fn crlf_is_one_terminator() {
    let doc = VecDocument::new("$a\r\n$b".as_bytes().to_vec());
    let mut p = Parser::new(&doc, Transition::default());
    assert_eq!(p.parse_next_line(), vec![tok(0, 2, TokenKind::Variable)]);
    assert_eq!(p.parse_next_line(), vec![tok(4, 6, TokenKind::Variable)]);
    assert_eq!(p.parse_next_line(), vec![]);
}

#[test]
fn crlf_split_across_chunks() {
    let doc = ChunkedDocument::new("$a\r\n$b".as_bytes().to_vec(), 3);
    let mut p = Parser::new(&doc, Transition::default());
    assert_eq!(p.parse_next_line(), vec![tok(0, 2, TokenKind::Variable)]);
    assert_eq!(p.parse_next_line(), vec![tok(4, 6, TokenKind::Variable)]);
}

#[test]
fn bare_carriage_return_ends_a_line() {
    let doc = VecDocument::new("$a\r$b".as_bytes().to_vec());
    let mut p = Parser::new(&doc, Transition::default());
    assert_eq!(p.parse_next_line(), vec![tok(0, 2, TokenKind::Variable)]);
    assert_eq!(p.parse_next_line(), vec![tok(3, 5, TokenKind::Variable)]);
}

#[test]
fn empty_document_yields_nothing() {
    let doc = VecDocument::new(vec![]);
    let mut p = Parser::new(&doc, Transition::default());
    assert_eq!(p.parse_next_line(), vec![]);
    assert_eq!(p.logical_pos_y(), 0);
    assert_eq!(p.parse_next_line(), vec![]);
    assert_eq!(p.logical_pos_y(), 0);
}

#[test]
fn empty_lines_advance_the_counter() {
    let doc = VecDocument::new("\n\n$x".as_bytes().to_vec());
    let mut p = Parser::new(&doc, Transition::default());
    assert_eq!(p.parse_next_line(), vec![]);
    assert_eq!(p.logical_pos_y(), 0);
    assert_eq!(p.parse_next_line(), vec![]);
    assert_eq!(p.logical_pos_y(), 1);
    assert_eq!(p.parse_next_line(), vec![tok(2, 4, TokenKind::Variable)]);
    assert_eq!(p.logical_pos_y(), 2);
}

#[test]
fn oversized_line_yields_no_tokens_and_clears_open_span() {
    let mut bytes = "<#\n".as_bytes().to_vec();
    bytes.extend(std::iter::repeat(b'a').take(MEBI + 1));
    bytes.extend("\n$x".as_bytes());
    let doc = VecDocument::new(bytes);
    let mut p = Parser::new(&doc, Transition::default());
    assert_eq!(p.parse_next_line(), vec![tok(0, 2, TokenKind::Comment)]);
    // The long line is not highlighted and the open span is closed.
    assert_eq!(p.parse_next_line(), vec![]);
    // The next line is scanned from the default state, not as a comment.
    let base = 3 + MEBI + 1 + 1;
    assert_eq!(p.parse_next_line(), vec![tok(base, base + 2, TokenKind::Variable)]);
}

#[test]
fn line_at_the_cap_is_still_highlighted() {
    let mut bytes = "<#\n".as_bytes().to_vec();
    bytes.extend(std::iter::repeat(b'a').take(MEBI));
    bytes.push(b'\n');
    let doc = VecDocument::new(bytes);
    let mut p = Parser::new(&doc, Transition::default());
    assert_eq!(p.parse_next_line(), vec![tok(0, 2, TokenKind::Comment)]);
    // Exactly at the cap: the open span still covers the whole line.
    assert_eq!(p.parse_next_line(), vec![tok(3, 3 + MEBI, TokenKind::Comment)]);
}

#[test]
fn parser_accepts_a_carried_state() {
    let rules = powershell_ground();
    let (_, open) = scan_line(&"<#".as_bytes().to_vec(), 0, &rules, Transition::default());
    let doc = VecDocument::new("#> x".as_bytes().to_vec());
    let mut p = Parser::new(&doc, open);
    assert_eq!(p.parse_next_line(), vec![tok(0, 2, TokenKind::Comment)]);
}
