//! The sample grammar: an ordered transition table for a shell-like
//! language, written as plain data.  Order is significant: the engine
//! tests rules first to last and the first match wins, so overlapping
//! prefixes stand longest first.
//!
//! The keyword rules use the reserved `Word` enter test, which the engine
//! does not currently match; they are kept so the table documents the
//! intended grammar and exercises the full rule format.

use vstd::prelude::*;

use crate::scan::{rule_ok, tv, wf_table};
use crate::tokens::{Test, TestV, TokenKind, Transition, TransitionV};

verus! {

/// The ground-state rule table, as specification-level data.
pub open spec fn ps_table() -> Seq<TransitionV> {
    seq![
        // Comments: a line comment and a block comment.
        TransitionV {
            enter: TestV::Prefix(seq![35u8]),
            exit: TestV::LineEnd,
            kind: TokenKind::Comment,
        },
        TransitionV {
            enter: TestV::Prefix(seq![60u8, 35u8]),
            exit: TestV::Prefix(seq![35u8, 62u8]),
            kind: TokenKind::Comment,
        },
        // Keywords (reserved whole-word rules).
        kw_v(seq![98u8, 114u8, 101u8, 97u8, 107u8]),
        kw_v(seq![99u8, 97u8, 116u8, 99u8, 104u8]),
        kw_v(seq![99u8, 111u8, 110u8, 116u8, 105u8, 110u8, 117u8, 101u8]),
        kw_v(seq![100u8, 111u8]),
        kw_v(seq![101u8, 108u8, 115u8, 101u8]),
        kw_v(seq![102u8, 105u8, 110u8, 97u8, 108u8, 108u8, 121u8]),
        kw_v(seq![102u8, 111u8, 114u8, 101u8, 97u8, 99u8, 104u8]),
        kw_v(seq![102u8, 117u8, 110u8, 99u8, 116u8, 105u8, 111u8, 110u8]),
        kw_v(seq![105u8, 102u8]),
        kw_v(seq![114u8, 101u8, 116u8, 117u8, 114u8, 110u8]),
        kw_v(seq![115u8, 119u8, 105u8, 116u8, 99u8, 104u8]),
        kw_v(seq![116u8, 104u8, 114u8, 111u8, 119u8]),
        kw_v(seq![116u8, 114u8, 121u8]),
        kw_v(seq![117u8, 115u8, 105u8, 110u8, 103u8]),
        kw_v(seq![119u8, 104u8, 105u8, 108u8, 101u8]),
        // Operators, two-byte forms before their one-byte prefixes.
        op_v(seq![61u8, 61u8]),
        op_v(seq![33u8, 61u8]),
        op_v(seq![38u8, 38u8]),
        op_v(seq![124u8, 124u8]),
        op_v(seq![60u8, 61u8]),
        op_v(seq![62u8, 61u8]),
        op_v(seq![43u8, 43u8]),
        op_v(seq![45u8, 45u8]),
        op_v(seq![61u8]),
        op_v(seq![60u8]),
        op_v(seq![62u8]),
        op_v(seq![43u8]),
        op_v(seq![45u8]),
        op_v(seq![42u8]),
        op_v(seq![47u8]),
        op_v(seq![37u8]),
        op_v(seq![33u8]),
        // Strings, delimited by a matching quote.
        TransitionV {
            enter: TestV::Prefix(seq![39u8]),
            exit: TestV::Prefix(seq![39u8]),
            kind: TokenKind::String,
        },
        TransitionV {
            enter: TestV::Prefix(seq![34u8]),
            exit: TestV::Prefix(seq![34u8]),
            kind: TokenKind::String,
        },
        // Variables: a dollar sign and the following alphanumeric run.
        TransitionV {
            enter: TestV::Prefix(seq![36u8]),
            exit: TestV::NonAlpha,
            kind: TokenKind::Variable,
        },
    ]
}

/// A reserved whole-word keyword rule.
pub open spec fn kw_v(w: Seq<u8>) -> TransitionV {
    TransitionV { enter: TestV::Word(w), exit: TestV::Always, kind: TokenKind::Keyword }
}

/// An operator rule: the literal itself is the whole token.
pub open spec fn op_v(p: Seq<u8>) -> TransitionV {
    TransitionV { enter: TestV::Prefix(p), exit: TestV::Always, kind: TokenKind::Operator }
}

fn lit<const N: usize>(a: [u8; N]) -> (r: Vec<u8>)
    ensures
        r@ == a@,
{
    vstd::slice::slice_to_vec(a.as_slice())
}

fn kw(w: Vec<u8>) -> (r: Transition)
    ensures
        r@ == kw_v(w@),
{
    Transition { enter: Test::Word(w), exit: Test::Always, kind: TokenKind::Keyword }
}

fn op(p: Vec<u8>) -> (r: Transition)
    ensures
        r@ == op_v(p@),
{
    Transition { enter: Test::Prefix(p), exit: Test::Always, kind: TokenKind::Operator }
}

/// Builds the ground-state rule table.
pub fn powershell_ground() -> (r: Vec<Transition>)
    ensures
        tv(r@) == ps_table(),
        wf_table(ps_table()),
{
    let mut r: Vec<Transition> = Vec::new();
    r.push(
        Transition {
            enter: Test::Prefix(lit([35])),
            exit: Test::LineEnd,
            kind: TokenKind::Comment,
        },
    );
    r.push(
        Transition {
            enter: Test::Prefix(lit([60, 35])),
            exit: Test::Prefix(lit([35, 62])),
            kind: TokenKind::Comment,
        },
    );
    r.push(kw(lit([98, 114, 101, 97, 107])));
    r.push(kw(lit([99, 97, 116, 99, 104])));
    r.push(kw(lit([99, 111, 110, 116, 105, 110, 117, 101])));
    r.push(kw(lit([100, 111])));
    r.push(kw(lit([101, 108, 115, 101])));
    r.push(kw(lit([102, 105, 110, 97, 108, 108, 121])));
    r.push(kw(lit([102, 111, 114, 101, 97, 99, 104])));
    r.push(kw(lit([102, 117, 110, 99, 116, 105, 111, 110])));
    r.push(kw(lit([105, 102])));
    r.push(kw(lit([114, 101, 116, 117, 114, 110])));
    r.push(kw(lit([115, 119, 105, 116, 99, 104])));
    r.push(kw(lit([116, 104, 114, 111, 119])));
    r.push(kw(lit([116, 114, 121])));
    r.push(kw(lit([117, 115, 105, 110, 103])));
    r.push(kw(lit([119, 104, 105, 108, 101])));
    r.push(op(lit([61, 61])));
    r.push(op(lit([33, 61])));
    r.push(op(lit([38, 38])));
    r.push(op(lit([124, 124])));
    r.push(op(lit([60, 61])));
    r.push(op(lit([62, 61])));
    r.push(op(lit([43, 43])));
    r.push(op(lit([45, 45])));
    r.push(op(lit([61])));
    r.push(op(lit([60])));
    r.push(op(lit([62])));
    r.push(op(lit([43])));
    r.push(op(lit([45])));
    r.push(op(lit([42])));
    r.push(op(lit([47])));
    r.push(op(lit([37])));
    r.push(op(lit([33])));
    r.push(
        Transition {
            enter: Test::Prefix(lit([39])),
            exit: Test::Prefix(lit([39])),
            kind: TokenKind::String,
        },
    );
    r.push(
        Transition {
            enter: Test::Prefix(lit([34])),
            exit: Test::Prefix(lit([34])),
            kind: TokenKind::String,
        },
    );
    r.push(
        Transition {
            enter: Test::Prefix(lit([36])),
            exit: Test::NonAlpha,
            kind: TokenKind::Variable,
        },
    );
    proof {
        assert(tv(r@) =~~= ps_table());
        assert forall|i: int| 0 <= i < ps_table().len() implies rule_ok(
            #[trigger] ps_table()[i],
        ) by {
            assert(0 <= i < 37);
        }
    }
    r
}

} // verus!
