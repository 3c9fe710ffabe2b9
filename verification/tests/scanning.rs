//! Scenario tests for the matching engine on single lines.

use highlighter::grammar::powershell_ground;
use highlighter::scan::scan_line;
use highlighter::tokens::{Test, Token, TokenKind, Transition};

fn tok(start: usize, end: usize, kind: TokenKind) -> Token {
    Token { range: start..end, kind }
}

fn is_default(st: &Transition) -> bool {
    *st == Transition::default()
}

fn scan(text: &str, state: Transition) -> (Vec<Token>, Transition) {
    let rules = powershell_ground();
    let line = text.as_bytes().to_vec();
    scan_line(&line, 0, &rules, state)
}

#[test]
fn line_comment_whole_line() {
    let (toks, st) = scan("# comment text", Transition::default());
    assert_eq!(toks, vec![tok(0, 14, TokenKind::Comment)]);
    assert!(is_default(&st));
}

#[test]
fn line_comment_after_whitespace() {
    let (toks, st) = scan("   # x", Transition::default());
    assert_eq!(toks, vec![tok(3, 6, TokenKind::Comment)]);
    assert!(is_default(&st));
}

#[test]
fn unterminated_block_comment() {
    let (toks, st) = scan("<# start", Transition::default());
    assert_eq!(toks, vec![tok(0, 8, TokenKind::Comment)]);
    assert!(matches!(st.enter, Test::Prefix(ref p) if p == &vec![60u8, 35u8]));
    assert!(matches!(st.exit, Test::Prefix(ref p) if p == &vec![35u8, 62u8]));
    assert_eq!(st.kind, TokenKind::Comment);
}

#[test]
fn block_comment_closes_next_line() {
    let (_, open) = scan("<# start", Transition::default());
    let (toks, st) = scan("still inside #> code", open);
    assert_eq!(toks, vec![tok(0, 15, TokenKind::Comment)]);
    assert!(is_default(&st));
}

#[test]
fn open_span_covers_markerless_line() {
    let (_, open) = scan("<#", Transition::default());
    let (toks, st) = scan("no markers here", open);
    assert_eq!(toks, vec![tok(0, 15, TokenKind::Comment)]);
    assert!(matches!(st.exit, Test::Prefix(ref p) if p == &vec![35u8, 62u8]));
}

#[test]
fn ground_state_scenario() {
    // Only the `-` of `-eq` matches a rule: keyword rules are reserved
    // (never entered), and `($x` is skipped whole as one unmatched word.
    let (toks, st) = scan("if ($x -eq 1) { return }", Transition::default());
    assert_eq!(toks, vec![tok(7, 8, TokenKind::Operator)]);
    assert!(is_default(&st));
}

#[test]
fn variable_token() {
    let (toks, st) = scan("$foo", Transition::default());
    assert_eq!(toks, vec![tok(0, 4, TokenKind::Variable)]);
    assert!(is_default(&st));
}

#[test]
fn string_closes_at_word_start() {
    let (toks, st) = scan("' hi '", Transition::default());
    assert_eq!(toks, vec![tok(0, 6, TokenKind::String)]);
    assert!(is_default(&st));
}

#[test]
fn string_closer_inside_word_stays_open() {
    // The closing quote stands inside a word, so the word-boundary
    // search passes it over and the span stays open.
    let (toks, st) = scan("'hi' x", Transition::default());
    assert_eq!(toks, vec![tok(0, 6, TokenKind::String)]);
    assert!(matches!(st.exit, Test::Prefix(ref p) if p == &vec![39u8]));
}

#[test]
fn block_comment_then_variable() {
    let (toks, st) = scan("<# x #> $y", Transition::default());
    assert_eq!(
        toks,
        vec![tok(0, 7, TokenKind::Comment), tok(8, 10, TokenKind::Variable)]
    );
    assert!(is_default(&st));
}

#[test]
fn two_byte_operator_wins_over_prefix() {
    let (toks, _) = scan("<= <", Transition::default());
    assert_eq!(
        toks,
        vec![tok(0, 2, TokenKind::Operator), tok(3, 4, TokenKind::Operator)]
    );
}

#[test]
fn scan_is_deterministic() {
    let (t1, s1) = scan("<# x $y 'z", Transition::default());
    let (t2, s2) = scan("<# x $y 'z", Transition::default());
    assert_eq!(t1, t2);
    assert_eq!(s1, s2);
}

#[test]
fn empty_line_with_open_span_keeps_it_open() {
    let (_, open) = scan("<#", Transition::default());
    let exit = open.exit.clone();
    let (toks, st) = scan("", open);
    assert_eq!(toks, vec![tok(0, 0, TokenKind::Comment)]);
    assert_eq!(st.exit, exit);
}

#[test]
fn carried_state_closing_immediately() {
    let (_, open) = scan("<#", Transition::default());
    let (toks, st) = scan("#> x", open);
    assert_eq!(toks, vec![tok(0, 2, TokenKind::Comment)]);
    assert!(is_default(&st));
}

#[test]
fn token_ranges_use_the_line_offset() {
    let rules = powershell_ground();
    let line = "$a $b".as_bytes().to_vec();
    let (toks, _) = scan_line(&line, 100, &rules, Transition::default());
    assert_eq!(
        toks,
        vec![tok(100, 102, TokenKind::Variable), tok(103, 105, TokenKind::Variable)]
    );
}

#[test]
fn custom_rule_nondigit_exit() {
    let rules = vec![Transition {
        enter: Test::Prefix(vec![35u8]),
        exit: Test::NonDigit,
        kind: TokenKind::Number,
    }];
    let line = "#123x".as_bytes().to_vec();
    let (toks, st) = scan_line(&line, 0, &rules, Transition::default());
    assert_eq!(toks, vec![tok(0, 4, TokenKind::Number)]);
    assert!(is_default(&st));
}

#[test]
fn carried_state_is_default_or_an_open_rule() {
    // Only spans whose exit may cross a line stay open: after every
    // scan the state is the default or a rule with a Prefix exit test.
    let rules = powershell_ground();
    let mut st = Transition::default();
    for text in ["<# open", "still open", "closed #> 'and", "quoted ' $v", "# done"] {
        let line = text.as_bytes().to_vec();
        let (_, next) = scan_line(&line, 0, &rules, st);
        assert!(next == Transition::default() || matches!(next.exit, Test::Prefix(_)));
        st = next;
    }
}

#[test]
fn nonalpha_exit_consumes_multibyte_sequences() {
    // Bytes of multi-byte UTF-8 sequences count as word characters.
    let line = "$na\u{ef}ve x".as_bytes().to_vec();
    let rules = powershell_ground();
    let (toks, _) = scan_line(&line, 0, &rules, Transition::default());
    assert_eq!(toks, vec![tok(0, 7, TokenKind::Variable)]);
}
