//! The matching engine: the specification of how one line is carved into
//! tokens by an ordered transition table, and the executable scanner that
//! is proved to follow it.
//!
//! Scanning is a single left-to-right pass.  While no span is open, the
//! enter phase skips ASCII whitespace and tests the table's rules in
//! declared order at each word start, first match wins; text no rule
//! matches is skipped word by word and left unclassified.  Once a rule is
//! selected, its exit test decides where the span ends; a `Prefix` exit
//! test that never matches before the end of the line leaves the span
//! open, and the carried state resumes the scan on the next line.

use vstd::prelude::*;

use crate::tokens::{default_tv, TestV, Token, TokenKind, TokenV, Transition, TransitionV, Test};

verus! {

/// ASCII whitespace, as the engine skips it: space, tab, line feed,
/// form feed, carriage return.
pub open spec fn is_ws(b: u8) -> bool {
    b == 32 || b == 9 || b == 10 || b == 12 || b == 13
}

/// Bytes an open `NonAlpha` exit test consumes: ASCII alphanumerics and
/// all bytes of multi-byte UTF-8 sequences.
pub open spec fn is_alnum_ext(b: u8) -> bool {
    (48 <= b && b <= 57) || (65 <= b && b <= 90) || (97 <= b && b <= 122) || b >= 128
}

/// ASCII digits, consumed by a `NonDigit` exit test.
pub open spec fn is_digit(b: u8) -> bool {
    48 <= b && b <= 57
}

/// The line starts with the literal `p` at byte offset `pos`.
pub open spec fn starts_with_at(line: Seq<u8>, pos: int, p: Seq<u8>) -> bool {
    0 <= pos && pos + p.len() <= line.len() && line.subrange(pos, pos + p.len()) == p
}

/// Whether an enter test recognizes a token start at `pos`.  Only
/// `Always` and `Prefix` are active; the other variants are reserved and
/// never match.
pub open spec fn enter_matches(t: TestV, line: Seq<u8>, pos: int) -> bool {
    match t {
        TestV::Always => true,
        TestV::Prefix(p) => starts_with_at(line, pos, p),
        _ => false,
    }
}

/// How many bytes an enter match consumes.
pub open spec fn enter_width(t: TestV) -> int {
    match t {
        TestV::Prefix(p) => p.len() as int,
        _ => 0,
    }
}

/// The first rule at index `i` or later whose enter test matches at
/// `pos`: declared order, first match wins.
pub open spec fn enter_sel(rules: Seq<TransitionV>, i: int, line: Seq<u8>, pos: int) -> Option<
    int,
>
    decreases rules.len() - i,
{
    if i < 0 || i >= rules.len() {
        None
    } else if enter_matches(rules[i].enter, line, pos) {
        Some(i)
    } else {
        enter_sel(rules, i + 1, line, pos)
    }
}

/// The enter phase from `pos` on: skip whitespace, test the rules at each
/// word start, skip unmatched words whole.  Yields the match position and
/// the selected rule's index, or `None` when the line is exhausted.
/// `in_word` records that the scan stands inside an unmatched word.
pub open spec fn enter_scan(
    rules: Seq<TransitionV>,
    line: Seq<u8>,
    pos: int,
    in_word: bool,
) -> Option<(int, int)>
    decreases line.len() - pos, (if in_word { 0int } else { 1int }),
{
    if !in_word {
        if pos < 0 || pos >= line.len() {
            None
        } else if is_ws(line[pos]) {
            enter_scan(rules, line, pos + 1, false)
        } else {
            match enter_sel(rules, 0, line, pos) {
                Some(j) => Some((pos, j)),
                None => enter_scan(rules, line, pos, true),
            }
        }
    } else {
        if pos < 0 || pos >= line.len() {
            None
        } else if !is_ws(line[pos]) {
            enter_scan(rules, line, pos + 1, true)
        } else {
            enter_scan(rules, line, pos + 1, false)
        }
    }
}

/// The word-boundary search a `Prefix` exit test makes for its closing
/// literal: the literal is tested at word starts only, so a closer buried
/// inside a longer word is passed over.  Yields the offset just past the
/// consumed literal, or `None` when the line ends first.
pub open spec fn exit_find(line: Seq<u8>, pos: int, p: Seq<u8>, in_word: bool) -> Option<int>
    decreases line.len() - pos, (if in_word { 0int } else { 1int }),
{
    if !in_word {
        if 0 <= pos && pos < line.len() && is_ws(line[pos]) {
            exit_find(line, pos + 1, p, false)
        } else if starts_with_at(line, pos, p) {
            Some(pos + p.len())
        } else {
            exit_find(line, pos, p, true)
        }
    } else {
        if 0 <= pos && pos < line.len() && !is_ws(line[pos]) {
            exit_find(line, pos + 1, p, true)
        } else if pos < 0 || pos >= line.len() {
            None
        } else {
            exit_find(line, pos + 1, p, false)
        }
    }
}

/// End of the maximal alphanumeric-or-high-byte run starting at `pos`.
pub open spec fn run_end_alnum(line: Seq<u8>, pos: int) -> int
    decreases line.len() - pos,
{
    if 0 <= pos && pos < line.len() && is_alnum_ext(line[pos]) {
        run_end_alnum(line, pos + 1)
    } else {
        pos
    }
}

/// End of the maximal ASCII digit run starting at `pos`.
pub open spec fn run_end_digits(line: Seq<u8>, pos: int) -> int
    decreases line.len() - pos,
{
    if 0 <= pos && pos < line.len() && is_digit(line[pos]) {
        run_end_digits(line, pos + 1)
    } else {
        pos
    }
}

/// Where the selected rule's exit test ends the span that was entered at
/// `pos`, and whether the span closed on this line.  An exit that does
/// not close leaves the span open into the next line.  The reserved
/// `Word` exit closes on the spot, like `Always`.
pub open spec fn exit_end(t: TestV, line: Seq<u8>, pos: int) -> (int, bool) {
    match t {
        TestV::Always => (pos, true),
        TestV::LineEnd => (line.len() as int, true),
        TestV::Prefix(p) => match exit_find(line, pos, p, false) {
            Some(e) => (e, true),
            None => (line.len() as int, false),
        },
        TestV::Word(_) => (pos, true),
        TestV::NonAlpha => (run_end_alnum(line, pos), true),
        TestV::NonDigit => (run_end_digits(line, pos), true),
    }
}

/// A rule the engine can always make progress on: either its enter match
/// consumes at least one byte, or its exit test cannot close a span
/// where it began.  A table of such rules never emits two tokens at one
/// spot, which bounds the scan by the line's length.
pub open spec fn rule_ok(t: TransitionV) -> bool {
    ||| enter_width(t.enter) >= 1
    ||| !(t.enter is Always || t.enter is Prefix)
    ||| t.exit is LineEnd
    ||| match t.exit {
        TestV::Prefix(p) => p.len() >= 1,
        _ => false,
    }
}

/// Every rule of the table permits progress.
pub open spec fn wf_table(rules: Seq<TransitionV>) -> bool {
    forall|i: int| 0 <= i < rules.len() ==> rule_ok(#[trigger] rules[i])
}

/// Ordering of the carried state for termination: a carried open span is
/// resolved first, then scanning proceeds with the default state.
pub open spec fn tr_flag(st: TransitionV) -> int {
    if st.enter is Always {
        0
    } else {
        1
    }
}

/// The scan of a line from byte offset `pos` with carried state `st`:
/// the tokens emitted up to the end of the line, with `base` added to
/// their offsets, and the state to carry into the next line.
///
/// A carried open span (enter test not `Always`) is resolved by its exit
/// test before ordinary enter/exit cycles resume; a span that closes at
/// the end of the line resets the state, one that does not close carries
/// its rule over unchanged.
pub open spec fn scan_from(
    rules: Seq<TransitionV>,
    line: Seq<u8>,
    base: int,
    pos: int,
    st: TransitionV,
) -> (Seq<TokenV>, TransitionV)
    decreases line.len() - pos, tr_flag(st),
        when wf_table(rules) && 0 <= pos <= line.len()
        via scan_from_dec
{
    if st.enter is Always {
        match enter_scan(rules, line, pos, false) {
            None => (Seq::empty(), st),
            Some((m, j)) => {
                let t = rules[j];
                let w = m + enter_width(t.enter);
                let (e, closed) = exit_end(t.exit, line, w);
                let tok = TokenV { start: base + m, end: base + e, kind: t.kind };
                if !closed {
                    (seq![tok], t)
                } else if e >= line.len() {
                    (seq![tok], default_tv())
                } else {
                    let r = scan_from(rules, line, base, e, default_tv());
                    (seq![tok] + r.0, r.1)
                }
            },
        }
    } else {
        let (e, closed) = exit_end(st.exit, line, pos);
        let tok = TokenV { start: base + pos, end: base + e, kind: st.kind };
        if !closed {
            (seq![tok], st)
        } else if e >= line.len() {
            (seq![tok], default_tv())
        } else {
            let r = scan_from(rules, line, base, e, default_tv());
            (seq![tok] + r.0, r.1)
        }
    }
}

#[via_fn]
proof fn scan_from_dec(
    rules: Seq<TransitionV>,
    line: Seq<u8>,
    base: int,
    pos: int,
    st: TransitionV,
) {
    if st.enter is Always {
        lemma_enter_scan_props(rules, line, pos, false);
        match enter_scan(rules, line, pos, false) {
            None => (),
            Some((m, j)) => {
                let t = rules[j];
                let w = m + enter_width(t.enter);
                assert(rule_ok(rules[j]));
                lemma_exit_end_props(t.exit, line, w);
            },
        }
    } else {
        lemma_exit_end_props(st.exit, line, pos);
    }
}

/// A selected rule lies in the table and its enter test matches.
pub proof fn lemma_enter_sel_props(rules: Seq<TransitionV>, i: int, line: Seq<u8>, pos: int)
    ensures
        match enter_sel(rules, i, line, pos) {
            Some(j) => i <= j < rules.len() && enter_matches(rules[j].enter, line, pos),
            None => true,
        },
    decreases rules.len() - i,
{
    if 0 <= i && i < rules.len() && !enter_matches(rules[i].enter, line, pos) {
        lemma_enter_sel_props(rules, i + 1, line, pos);
    }
}

/// The enter phase matches within the line, at or after where it
/// started, on a rule of the table; the match fits in the line.
pub proof fn lemma_enter_scan_props(
    rules: Seq<TransitionV>,
    line: Seq<u8>,
    pos: int,
    in_word: bool,
)
    requires
        0 <= pos <= line.len(),
    ensures
        match enter_scan(rules, line, pos, in_word) {
            Some(mj) => pos <= mj.0 < line.len() && 0 <= mj.1 < rules.len() && enter_matches(
                rules[mj.1].enter,
                line,
                mj.0,
            ) && mj.0 + enter_width(rules[mj.1].enter) <= line.len(),
            None => true,
        },
    decreases line.len() - pos, (if in_word { 0int } else { 1int }),
{
    if !in_word {
        if pos >= line.len() {
        } else if is_ws(line[pos]) {
            lemma_enter_scan_props(rules, line, pos + 1, false);
        } else {
            lemma_enter_sel_props(rules, 0, line, pos);
            match enter_sel(rules, 0, line, pos) {
                Some(j) => (),
                None => lemma_enter_scan_props(rules, line, pos, true),
            }
        }
    } else {
        if pos >= line.len() {
        } else if !is_ws(line[pos]) {
            lemma_enter_scan_props(rules, line, pos + 1, true);
        } else {
            lemma_enter_scan_props(rules, line, pos + 1, false);
        }
    }
}

/// A found closing literal ends past where the search began, within the
/// line, with the literal consumed.
pub proof fn lemma_exit_find_props(line: Seq<u8>, pos: int, p: Seq<u8>, in_word: bool)
    requires
        0 <= pos <= line.len(),
    ensures
        match exit_find(line, pos, p, in_word) {
            Some(e) => pos + p.len() <= e <= line.len(),
            None => true,
        },
    decreases line.len() - pos, (if in_word { 0int } else { 1int }),
{
    if !in_word {
        if pos < line.len() && is_ws(line[pos]) {
            lemma_exit_find_props(line, pos + 1, p, false);
        } else if starts_with_at(line, pos, p) {
        } else {
            lemma_exit_find_props(line, pos, p, true);
        }
    } else {
        if pos < line.len() && !is_ws(line[pos]) {
            lemma_exit_find_props(line, pos + 1, p, true);
        } else if pos >= line.len() {
        } else {
            lemma_exit_find_props(line, pos + 1, p, false);
        }
    }
}

/// Character-class runs end within the line, at or after their start.
pub proof fn lemma_run_end_alnum(line: Seq<u8>, pos: int)
    requires
        0 <= pos <= line.len(),
    ensures
        pos <= run_end_alnum(line, pos) <= line.len(),
    decreases line.len() - pos,
{
    if pos < line.len() && is_alnum_ext(line[pos]) {
        lemma_run_end_alnum(line, pos + 1);
    }
}

/// Character-class runs end within the line, at or after their start.
pub proof fn lemma_run_end_digits(line: Seq<u8>, pos: int)
    requires
        0 <= pos <= line.len(),
    ensures
        pos <= run_end_digits(line, pos) <= line.len(),
    decreases line.len() - pos,
{
    if pos < line.len() && is_digit(line[pos]) {
        lemma_run_end_digits(line, pos + 1);
    }
}

/// Every exit test ends its span within the line, at or after where the
/// span's text began; one that does not close ends at the line's end,
/// and a closing `Prefix` exit consumes its literal.
pub proof fn lemma_exit_end_props(t: TestV, line: Seq<u8>, pos: int)
    requires
        0 <= pos <= line.len(),
    ensures
        pos <= exit_end(t, line, pos).0 <= line.len(),
        !exit_end(t, line, pos).1 ==> exit_end(t, line, pos).0 == line.len(),
        match t {
            TestV::Prefix(p) => exit_end(t, line, pos).1 ==> exit_end(t, line, pos).0 >= pos
                + p.len(),
            _ => true,
        },
{
    match t {
        TestV::Prefix(p) => {
            lemma_exit_find_props(line, pos, p, false);
        },
        TestV::NonAlpha => {
            lemma_run_end_alnum(line, pos);
        },
        TestV::NonDigit => {
            lemma_run_end_digits(line, pos);
        },
        _ => (),
    }
}

/// Scanning the same line with the same carried state yields the same
/// token sequence and the same successor state: the scan is a function
/// of the table, the line and the carried state alone.
pub proof fn lemma_scan_deterministic(
    rules1: Seq<TransitionV>,
    rules2: Seq<TransitionV>,
    line1: Seq<u8>,
    line2: Seq<u8>,
    base1: int,
    base2: int,
    st1: TransitionV,
    st2: TransitionV,
)
    requires
        rules1 == rules2,
        line1 == line2,
        base1 == base2,
        st1 == st2,
    ensures
        scan_from(rules1, line1, base1, 0, st1) == scan_from(rules2, line2, base2, 0, st2),
{
}

/// Every token's range lies within `[lo, hi]`, with its start at or
/// before its end.
pub open spec fn tokens_bounded(toks: Seq<TokenV>, lo: int, hi: int) -> bool {
    forall|k: int|
        0 <= k < toks.len() ==> lo <= (#[trigger] toks[k]).start && toks[k].start <= toks[k].end
            && toks[k].end <= hi
}

/// Any earlier token ends no later than any later one starts: the
/// ranges are ordered and non-overlapping.
pub open spec fn tokens_chained(toks: Seq<TokenV>) -> bool {
    forall|i: int, j: int|
        0 <= i < j < toks.len() ==> (#[trigger] toks[i]).end <= (#[trigger] toks[j]).start
}

/// Every token from index `s` on is nonempty.
pub open spec fn tokens_nonempty_from(toks: Seq<TokenV>, s: int) -> bool {
    forall|k: int| s <= k < toks.len() ==> (#[trigger] toks[k]).start < toks[k].end
}

proof fn lemma_tokens_cons(tok: TokenV, rest: Seq<TokenV>, lo: int, hi: int)
    requires
        lo <= tok.start <= tok.end <= hi,
        tokens_bounded(rest, tok.end, hi),
        tokens_chained(rest),
        tokens_nonempty_from(rest, 0),
    ensures
        tokens_bounded(seq![tok] + rest, lo, hi),
        tokens_chained(seq![tok] + rest),
        tokens_nonempty_from(seq![tok] + rest, 1),
        tok.start < tok.end ==> tokens_nonempty_from(seq![tok] + rest, 0),
{
    let all = seq![tok] + rest;
    assert forall|k: int| 0 <= k < all.len() implies lo <= (#[trigger] all[k]).start
        && all[k].start <= all[k].end && all[k].end <= hi by {
        if k >= 1 {
            assert(all[k] == rest[k - 1]);
        }
    }
    assert forall|i: int, j: int| 0 <= i < j < all.len() implies (#[trigger] all[i]).end <= (
    #[trigger] all[j]).start by {
        assert(all[j] == rest[j - 1]);
        if i >= 1 {
            assert(all[i] == rest[i - 1]);
        }
    }
    assert forall|k: int| 1 <= k < all.len() implies (#[trigger] all[k]).start < all[k].end by {
        assert(all[k] == rest[k - 1]);
    }
}

/// Token ranges are ordered and non-overlapping, and each lies within
/// the scanned line: every token starts at or after the scan position
/// and ends no later than the line's end.  Every token is nonempty,
/// except that a span carried in from a previous line may close at once
/// and leave one empty token at the front.
pub proof fn lemma_scan_token_ranges(
    rules: Seq<TransitionV>,
    line: Seq<u8>,
    base: int,
    pos: int,
    st: TransitionV,
)
    requires
        wf_table(rules),
        0 <= pos <= line.len(),
    ensures
        tokens_bounded(scan_from(rules, line, base, pos, st).0, base + pos, base + line.len()),
        tokens_chained(scan_from(rules, line, base, pos, st).0),
        tokens_nonempty_from(scan_from(rules, line, base, pos, st).0, 1),
        st.enter is Always ==> tokens_nonempty_from(scan_from(rules, line, base, pos, st).0, 0),
    decreases line.len() - pos, tr_flag(st),
{
    let toks = scan_from(rules, line, base, pos, st).0;
    if st.enter is Always {
        lemma_enter_scan_props(rules, line, pos, false);
        match enter_scan(rules, line, pos, false) {
            None => {},
            Some((m, j)) => {
                let t = rules[j];
                let w = m + enter_width(t.enter);
                lemma_exit_end_props(t.exit, line, w);
                let (e, closed) = exit_end(t.exit, line, w);
                let tok = TokenV { start: base + m, end: base + e, kind: t.kind };
                assert(rule_ok(rules[j]));
                assert(m < e) by {
                    if enter_width(t.enter) < 1 {
                        match t.exit {
                            TestV::LineEnd => {},
                            TestV::Prefix(p) => {},
                            _ => {},
                        }
                    }
                }
                if closed && e < line.len() {
                    lemma_scan_token_ranges(rules, line, base, e, default_tv());
                    let rest = scan_from(rules, line, base, e, default_tv()).0;
                    lemma_tokens_cons(tok, rest, base + pos, base + line.len());
                    assert(toks == seq![tok] + rest);
                } else {
                    assert(toks =~= seq![tok]);
                    assert(tokens_nonempty_from(toks, 0));
                }
            },
        }
    } else {
        lemma_exit_end_props(st.exit, line, pos);
        let (e, closed) = exit_end(st.exit, line, pos);
        let tok = TokenV { start: base + pos, end: base + e, kind: st.kind };
        if closed && e < line.len() {
            lemma_scan_token_ranges(rules, line, base, e, default_tv());
            let rest = scan_from(rules, line, base, e, default_tv()).0;
            lemma_tokens_cons(tok, rest, base + pos, base + line.len());
            assert(toks == seq![tok] + rest);
        } else {
            assert(toks =~= seq![tok]);
        }
    }
}

/// A carried state the engine itself can produce: the default state, or
/// a rule of the table whose `Prefix` exit test may keep a span open
/// across lines.
pub open spec fn carried_ok(rules: Seq<TransitionV>, st: TransitionV) -> bool {
    st == default_tv() || (exists|j: int|
        0 <= j < rules.len() && rules[j] == st && st.exit is Prefix)
}

/// Where a carried state can come from: after any scan the state is the
/// default, the state the scan began with (a span that stayed open), or
/// a rule of the table whose exit is a `Prefix` test — the only exit
/// that can leave a span open.  So the states the engine can produce
/// are closed under scanning: from the default or an open table rule,
/// only the default or an open table rule comes back.
pub proof fn lemma_scan_state_options(
    rules: Seq<TransitionV>,
    line: Seq<u8>,
    base: int,
    pos: int,
    st: TransitionV,
)
    requires
        wf_table(rules),
        0 <= pos <= line.len(),
    ensures
        ({
            let fin = scan_from(rules, line, base, pos, st).1;
            fin == default_tv() || fin == st || (exists|j: int|
                0 <= j < rules.len() && rules[j] == fin && fin.exit is Prefix)
        }),
        carried_ok(rules, st) ==> carried_ok(rules, scan_from(rules, line, base, pos, st).1),
    decreases line.len() - pos, tr_flag(st),
{
    if st.enter is Always {
        lemma_enter_scan_props(rules, line, pos, false);
        match enter_scan(rules, line, pos, false) {
            None => {},
            Some((m, j)) => {
                let t = rules[j];
                let w = m + enter_width(t.enter);
                lemma_exit_end_props(t.exit, line, w);
                let (e, closed) = exit_end(t.exit, line, w);
                if !closed {
                    assert(t.exit is Prefix);
                    assert(0 <= j < rules.len() && rules[j] == t && t.exit is Prefix);
                } else if e < line.len() {
                    lemma_scan_state_options(rules, line, base, e, default_tv());
                }
            },
        }
    } else {
        lemma_exit_end_props(st.exit, line, pos);
        let (e, closed) = exit_end(st.exit, line, pos);
        if closed && e < line.len() {
            lemma_scan_state_options(rules, line, base, e, default_tv());
        }
    }
}

/// Multi-line carry-over: a span carried open into a line whose closing
/// literal never matches at a word start covers the whole line as one
/// token of the span's kind, and the state stays open, unchanged.
pub proof fn lemma_open_span_covers_line(
    rules: Seq<TransitionV>,
    line: Seq<u8>,
    base: int,
    st: TransitionV,
)
    requires
        wf_table(rules),
        !(st.enter is Always),
        match st.exit {
            TestV::Prefix(p) => exit_find(line, 0, p, false) is None,
            _ => false,
        },
    ensures
        scan_from(rules, line, base, 0, st) == (
            seq![TokenV { start: base, end: base + line.len(), kind: st.kind }],
            st,
        ),
{
}

/// Multi-line carry-over, closing side: when the carried span's closing
/// literal is found, the first token of the line runs from the line's
/// start through the end of the found literal, with the span's kind.
pub proof fn lemma_open_span_closes_at_marker(
    rules: Seq<TransitionV>,
    line: Seq<u8>,
    base: int,
    st: TransitionV,
)
    requires
        wf_table(rules),
        !(st.enter is Always),
        match st.exit {
            TestV::Prefix(p) => exit_find(line, 0, p, false) is Some,
            _ => false,
        },
    ensures
        ({
            let toks = scan_from(rules, line, base, 0, st).0;
            match st.exit {
                TestV::Prefix(p) => match exit_find(line, 0, p, false) {
                    Some(e) => toks.len() >= 1 && toks[0] == TokenV {
                        start: base,
                        end: base + e,
                        kind: st.kind,
                    },
                    None => true,
                },
                _ => true,
            }
        }),
{
}

/// The view of a rule table.
pub open spec fn tv(rules: Seq<Transition>) -> Seq<TransitionV> {
    rules.map_values(|t: Transition| t@)
}

/// The view of a token sequence.
pub open spec fn tvs(toks: Seq<Token>) -> Seq<TokenV> {
    toks.map_values(|t: Token| t@)
}

fn ws_byte(b: u8) -> (r: bool)
    ensures
        r == is_ws(b),
{
    b == 32 || b == 9 || b == 10 || b == 12 || b == 13
}

fn alnum_ext_byte(b: u8) -> (r: bool)
    ensures
        r == is_alnum_ext(b),
{
    (48 <= b && b <= 57) || (65 <= b && b <= 90) || (97 <= b && b <= 122) || b >= 128
}

fn digit_byte(b: u8) -> (r: bool)
    ensures
        r == is_digit(b),
{
    48 <= b && b <= 57
}

fn prefix_matches(line: &Vec<u8>, pos: usize, p: &Vec<u8>) -> (r: bool)
    requires
        pos <= line@.len(),
    ensures
        r == starts_with_at(line@, pos as int, p@),
{
    let n = line.len();
    if p.len() > n - pos {
        return false;
    }
    let mut k: usize = 0;
    while k < p.len()
        invariant
            n == line@.len(),
            pos + p@.len() <= n,
            k <= p@.len(),
            forall|t: int| 0 <= t < k ==> line@[pos + t] == p@[t],
        decreases p@.len() - k,
    {
        if line[pos + k] != p[k] {
            proof {
                assert(line@.subrange(pos as int, pos + p@.len())[k as int] == line@[pos + k]);
            }
            return false;
        }
        k += 1;
    }
    proof {
        assert(line@.subrange(pos as int, pos + p@.len()) =~= p@);
    }
    true
}

/// Tests the table's rules in declared order at `pos`; first match wins.
fn select_rule(rules: &Vec<Transition>, line: &Vec<u8>, pos: usize) -> (r: Option<usize>)
    requires
        pos <= line@.len(),
    ensures
        match r {
            Some(j) => 0 <= j < rules@.len() && enter_sel(tv(rules@), 0, line@, pos as int)
                == Some(j as int),
            None => enter_sel(tv(rules@), 0, line@, pos as int) is None,
        },
{
    let n = rules.len();
    let mut j: usize = 0;
    while j < n
        invariant
            n == rules@.len(),
            j <= n,
            pos <= line@.len(),
            enter_sel(tv(rules@), 0, line@, pos as int) == enter_sel(
                tv(rules@),
                j as int,
                line@,
                pos as int,
            ),
        decreases n - j,
    {
        proof {
            assert(tv(rules@)[j as int] == rules@[j as int]@);
        }
        let matched = match &rules[j].enter {
            Test::Always => true,
            Test::Prefix(p) => prefix_matches(line, pos, p),
            _ => false,
        };
        if matched {
            return Some(j);
        }
        j += 1;
    }
    None
}

/// The enter phase: the word-by-word search for the next rule match.
fn find_enter(rules: &Vec<Transition>, line: &Vec<u8>, start: usize) -> (r: Option<
    (usize, usize),
>)
    requires
        start <= line@.len(),
    ensures
        match r {
            Some(mj) => start <= mj.0 && (mj.0 as int) < line@.len() && mj.1 < rules@.len()
                && enter_scan(tv(rules@), line@, start as int, false) == Some(
                (mj.0 as int, mj.1 as int),
            ),
            None => enter_scan(tv(rules@), line@, start as int, false) is None,
        },
{
    let mut pos = start;
    let mut in_word = false;
    loop
        invariant
            start <= pos <= line@.len(),
            enter_scan(tv(rules@), line@, start as int, false) == enter_scan(
                tv(rules@),
                line@,
                pos as int,
                in_word,
            ),
        decreases line@.len() - pos, (if in_word { 0int } else { 1int }),
    {
        if pos >= line.len() {
            return None;
        }
        let ws = ws_byte(line[pos]);
        if !in_word {
            if ws {
                pos += 1;
            } else {
                match select_rule(rules, line, pos) {
                    Some(j) => {
                        return Some((pos, j));
                    },
                    None => {
                        in_word = true;
                    },
                }
            }
        } else {
            if !ws {
                pos += 1;
            } else {
                pos += 1;
                in_word = false;
            }
        }
    }
}

/// The word-boundary search for a closing literal.
fn find_exit(line: &Vec<u8>, start: usize, p: &Vec<u8>) -> (r: Option<usize>)
    requires
        start <= line@.len(),
    ensures
        match r {
            Some(e) => start <= e <= line@.len() && exit_find(line@, start as int, p@, false)
                == Some(e as int),
            None => exit_find(line@, start as int, p@, false) is None,
        },
{
    let mut pos = start;
    let mut in_word = false;
    loop
        invariant
            start <= pos <= line@.len(),
            exit_find(line@, start as int, p@, false) == exit_find(
                line@,
                pos as int,
                p@,
                in_word,
            ),
        decreases line@.len() - pos, (if in_word { 0int } else { 1int }),
    {
        if !in_word {
            if pos < line.len() && ws_byte(line[pos]) {
                pos += 1;
            } else if prefix_matches(line, pos, p) {
                return Some(pos + p.len());
            } else {
                in_word = true;
            }
        } else {
            if pos < line.len() && !ws_byte(line[pos]) {
                pos += 1;
            } else if pos >= line.len() {
                return None;
            } else {
                pos += 1;
                in_word = false;
            }
        }
    }
}

/// Consumes the maximal alphanumeric-or-high-byte run.
fn take_alnum(line: &Vec<u8>, start: usize) -> (e: usize)
    requires
        start <= line@.len(),
    ensures
        start <= e <= line@.len(),
        e as int == run_end_alnum(line@, start as int),
{
    let mut pos = start;
    while pos < line.len() && alnum_ext_byte(line[pos])
        invariant
            start <= pos <= line@.len(),
            run_end_alnum(line@, start as int) == run_end_alnum(line@, pos as int),
        decreases line@.len() - pos,
    {
        pos += 1;
    }
    pos
}

/// Consumes the maximal ASCII digit run.
fn take_digits(line: &Vec<u8>, start: usize) -> (e: usize)
    requires
        start <= line@.len(),
    ensures
        start <= e <= line@.len(),
        e as int == run_end_digits(line@, start as int),
{
    let mut pos = start;
    while pos < line.len() && digit_byte(line[pos])
        invariant
            start <= pos <= line@.len(),
            run_end_digits(line@, start as int) == run_end_digits(line@, pos as int),
        decreases line@.len() - pos,
    {
        pos += 1;
    }
    pos
}

/// Runs a rule's exit test from `from`, where its enter match ended.
fn run_exit(line: &Vec<u8>, from: usize, t: &Transition) -> (r: (usize, bool))
    requires
        from <= line@.len(),
    ensures
        from <= r.0 <= line@.len(),
        (r.0 as int, r.1) == exit_end(t@.exit, line@, from as int),
{
    match &t.exit {
        Test::Always => (from, true),
        Test::Word(_) => (from, true),
        Test::LineEnd => (line.len(), true),
        Test::Prefix(p) => {
            proof {
                lemma_exit_find_props(line@, from as int, p@, false);
            }
            match find_exit(line, from, p) {
                Some(e) => (e, true),
                None => (line.len(), false),
            }
        },
        Test::NonAlpha => (take_alnum(line, from), true),
        Test::NonDigit => (take_digits(line, from), true),
    }
}

/// Scans one line, whose first byte lies at absolute offset `base` of
/// the document, with the carried state `start_state`.  Returns the
/// emitted tokens, their ranges absolute, and the state to carry into
/// the next line.  The result is exactly [`scan_from`] applied to the
/// line: scanning is deterministic.
pub fn scan_line(line: &Vec<u8>, base: usize, rules: &Vec<Transition>, start_state: Transition) -> (r: (
    Vec<Token>,
    Transition,
))
    requires
        wf_table(tv(rules@)),
        base + line@.len() <= usize::MAX,
    ensures
        tvs(r.0@) == scan_from(tv(rules@), line@, base as int, 0, start_state@).0,
        r.1@ == scan_from(tv(rules@), line@, base as int, 0, start_state@).1,
{
    let ghost rls = tv(rules@);
    let ghost total = scan_from(rls, line@, base as int, 0, start_state@);
    let mut toks: Vec<Token> = Vec::new();
    let mut st = start_state;
    let mut pos: usize = 0;
    loop
        invariant
            rls == tv(rules@),
            total == scan_from(rls, line@, base as int, 0, start_state@),
            wf_table(rls),
            base + line@.len() <= usize::MAX,
            pos <= line@.len(),
            total.0 == tvs(toks@) + scan_from(rls, line@, base as int, pos as int, st@).0,
            total.1 == scan_from(rls, line@, base as int, pos as int, st@).1,
        decreases line@.len() - pos, tr_flag(st@),
    {
        let ghost step = scan_from(rls, line@, base as int, pos as int, st@);
        let entering = matches!(&st.enter, Test::Always);
        if entering {
            match find_enter(rules, line, pos) {
                None => {
                    proof {
                        assert(step.0 =~= Seq::<TokenV>::empty());
                        assert(tvs(toks@) + Seq::<TokenV>::empty() =~= tvs(toks@));
                    }
                    return (toks, st);
                },
                Some((m, j)) => {
                    proof {
                        assert(rls[j as int] == rules@[j as int]@);
                        lemma_enter_scan_props(rls, line@, pos as int, false);
                    }
                    let t = rules[j].clone();
                    let w = match &t.enter {
                        Test::Prefix(p) => m + p.len(),
                        _ => m,
                    };
                    proof {
                        assert(w as int == m + enter_width(t@.enter));
                        lemma_exit_end_props(t@.exit, line@, w as int);
                    }
                    let (e, closed) = run_exit(line, w, &t);
                    let tok = Token { range: (base + m)..(base + e), kind: t.kind };
                    let ghost prev = toks@;
                    toks.push(tok);
                    proof {
                        assert(tvs(prev.push(tok)) =~= tvs(prev).push(tok@));
                        assert(step == ({
                            let tk = TokenV {
                                start: base + m,
                                end: base + e,
                                kind: t@.kind,
                            };
                            if !closed {
                                (seq![tk], t@)
                            } else if e >= line@.len() {
                                (seq![tk], default_tv())
                            } else {
                                let r2 = scan_from(rls, line@, base as int, e as int, default_tv());
                                (seq![tk] + r2.0, r2.1)
                            }
                        }));
                        assert(tok@ == TokenV { start: base + m, end: base + e, kind: t@.kind });
                    }
                    if closed {
                        st = Transition::default();
                        if e >= line.len() {
                            proof {
                                assert(tvs(toks@) =~= tvs(prev)
                                    + seq![TokenV { start: base + m, end: base + e, kind: t@.kind }]);
                            }
                            return (toks, st);
                        }
                        proof {
                            let r2 = scan_from(rls, line@, base as int, e as int, default_tv());
                            assert(tvs(prev) + (seq![tok@] + r2.0) =~= tvs(toks@) + r2.0);
                            assert(rule_ok(rls[j as int]));
                        }
                        pos = e;
                    } else {
                        proof {
                            assert(tvs(toks@) =~= tvs(prev) + seq![tok@]);
                        }
                        st = t;
                        return (toks, st);
                    }
                },
            }
        } else {
            let t = st.clone();
            proof {
                lemma_exit_end_props(t@.exit, line@, pos as int);
            }
            let (e, closed) = run_exit(line, pos, &t);
            let tok = Token { range: (base + pos)..(base + e), kind: t.kind };
            let ghost prev = toks@;
            toks.push(tok);
            proof {
                assert(tvs(prev.push(tok)) =~= tvs(prev).push(tok@));
                assert(step == ({
                    let tk = TokenV { start: base + pos, end: base + e, kind: st@.kind };
                    if !closed {
                        (seq![tk], st@)
                    } else if e >= line@.len() {
                        (seq![tk], default_tv())
                    } else {
                        let r2 = scan_from(rls, line@, base as int, e as int, default_tv());
                        (seq![tk] + r2.0, r2.1)
                    }
                }));
                assert(tok@ == TokenV { start: base + pos, end: base + e, kind: st@.kind });
            }
            if closed {
                st = Transition::default();
                if e >= line.len() {
                    proof {
                        assert(tvs(toks@) =~= tvs(prev)
                            + seq![TokenV { start: base + pos, end: base + e, kind: t@.kind }]);
                    }
                    return (toks, st);
                }
                proof {
                    let r2 = scan_from(rls, line@, base as int, e as int, default_tv());
                    assert(tvs(prev) + (seq![tok@] + r2.0) =~= tvs(toks@) + r2.0);
                }
                pos = e;
            } else {
                proof {
                    assert(tvs(toks@) =~= tvs(prev) + seq![tok@]);
                }
                st = t;
                return (toks, st);
            }
        }
    }
}

} // verus!
