//! The data model of the scanner: token categories, tokens, tests and
//! transition rules, together with their specification-level views.

use vstd::prelude::*;

verus! {

/// Classification assigned to a span of text.  `Other` is the default
/// category for unclassified text; gaps between tokens are implicitly
/// `Other` and never materialized as tokens.
#[derive(Clone, Copy, PartialEq, Eq, Structural, Debug)]
pub enum TokenKind {
    Other,
    Comment,
    Keyword,
    Operator,
    Number,
    String,
    Variable,
}

impl Default for TokenKind {
    fn default() -> (r: Self)
        ensures
            r == TokenKind::Other,
    {
        TokenKind::Other
    }
}

/// A classified half-open byte interval of the document.
#[derive(PartialEq, Eq, Debug)]
pub struct Token {
    pub range: core::ops::Range<usize>,
    pub kind: TokenKind,
}

impl Clone for Token {
    fn clone(&self) -> (r: Self)
        ensures
            r@ == self@,
    {
        Token { range: self.range.start..self.range.end, kind: self.kind }
    }
}

/// Specification-level value of a [`Token`]: its absolute byte bounds and
/// its category.
pub struct TokenV {
    pub start: int,
    pub end: int,
    pub kind: TokenKind,
}

impl View for Token {
    type V = TokenV;

    open spec fn view(&self) -> TokenV {
        TokenV { start: self.range.start as int, end: self.range.end as int, kind: self.kind }
    }
}

/// Per-grammar auxiliary state.  The sample grammar keeps no such data;
/// the struct is reserved for grammars that need it.
#[derive(Clone, Copy, PartialEq, Eq, Structural, Default)]
pub struct State {}

/// A predicate on line text, used to recognize where a token starts
/// (enter test) or where it ends (exit test).
///
/// Only `Always` and `Prefix` are active as enter tests; the other
/// variants are reserved and never recognized when entering a span.
/// All variants are legal as exit tests.
#[derive(PartialEq, Eq, Debug)]
pub enum Test {
    /// Matches unconditionally, consuming nothing.
    Always,
    /// Matches at the end of the line.
    LineEnd,
    /// Matches when the remaining text starts with the literal, and
    /// consumes it.
    Prefix(Vec<u8>),
    /// Reserved for whole-word matching; currently never matched.
    Word(Vec<u8>),
    /// Consumes a maximal run of ASCII alphanumeric bytes and bytes of
    /// multi-byte UTF-8 sequences.
    NonAlpha,
    /// Consumes a maximal run of ASCII digit bytes.
    NonDigit,
}

/// Specification-level value of a [`Test`], with the literals as sequences.
#[verifier::ext_equal]
pub enum TestV {
    Always,
    LineEnd,
    Prefix(Seq<u8>),
    Word(Seq<u8>),
    NonAlpha,
    NonDigit,
}

impl View for Test {
    type V = TestV;

    open spec fn view(&self) -> TestV {
        match self {
            Test::Always => TestV::Always,
            Test::LineEnd => TestV::LineEnd,
            Test::Prefix(p) => TestV::Prefix(p@),
            Test::Word(p) => TestV::Word(p@),
            Test::NonAlpha => TestV::NonAlpha,
            Test::NonDigit => TestV::NonDigit,
        }
    }
}

/// A single grammar rule: where a span of the given kind starts and where
/// it ends.  A carried `Transition` whose enter test is not `Always`
/// denotes a span left open by a previous line.
///
/// The fields are public so that grammars can be written as plain data.
/// A `Transition` used as a *carried state*, though, must be one the
/// scanner can produce: the default state, or an open rule that a scan
/// handed back — the parser's contract asks for exactly that.
#[derive(PartialEq, Eq, Debug)]
pub struct Transition {
    pub enter: Test,
    pub exit: Test,
    pub kind: TokenKind,
}

/// Specification-level value of a [`Transition`].
#[verifier::ext_equal]
pub struct TransitionV {
    pub enter: TestV,
    pub exit: TestV,
    pub kind: TokenKind,
}

impl View for Transition {
    type V = TransitionV;

    open spec fn view(&self) -> TransitionV {
        TransitionV { enter: self.enter@, exit: self.exit@, kind: self.kind }
    }
}

/// The carried state meaning "no span is open": enter matching starts
/// afresh, and anything the enter phase selects determines the kind.
pub open spec fn default_tv() -> TransitionV {
    TransitionV { enter: TestV::Always, exit: TestV::Always, kind: TokenKind::Other }
}

/// Copies a byte vector.
fn copy_bytes(v: &Vec<u8>) -> (r: Vec<u8>)
    ensures
        r@ == v@,
{
    let mut r: Vec<u8> = Vec::new();
    let mut i: usize = 0;
    while i < v.len()
        invariant
            i <= v@.len(),
            r@ == v@.subrange(0, i as int),
        decreases v@.len() - i,
    {
        r.push(v[i]);
        proof {
            assert(r@ =~= v@.subrange(0, i + 1));
        }
        i += 1;
    }
    proof {
        assert(r@ =~= v@);
    }
    r
}

impl Clone for Test {
    fn clone(&self) -> (r: Self)
        ensures
            r@ == self@,
    {
        match self {
            Test::Always => Test::Always,
            Test::LineEnd => Test::LineEnd,
            Test::Prefix(p) => Test::Prefix(copy_bytes(p)),
            Test::Word(p) => Test::Word(copy_bytes(p)),
            Test::NonAlpha => Test::NonAlpha,
            Test::NonDigit => Test::NonDigit,
        }
    }
}

impl Clone for Transition {
    fn clone(&self) -> (r: Self)
        ensures
            r@ == self@,
    {
        Transition { enter: self.enter.clone(), exit: self.exit.clone(), kind: self.kind }
    }
}

impl Default for Transition {
    /// The "no open span" state.
    fn default() -> (r: Self)
        ensures
            r@ == default_tv(),
    {
        Transition { enter: Test::Always, exit: Test::Always, kind: TokenKind::Other }
    }
}

} // verus!
