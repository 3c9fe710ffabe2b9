//! The caller-facing incremental parser: owns the scan position, the
//! logical line counter and the carried span state, and produces one
//! line's tokens per call, so a caller can highlight a visible window
//! without rescanning prior lines.

use vstd::prelude::*;

use crate::document::{
    is_nl, line_end, lemma_line_end_props, lemma_next_line_start_props, next_line_start,
    ReadableDocument,
};
use crate::grammar::{powershell_ground, ps_table};
use crate::scan::{carried_ok, lemma_scan_state_options, scan_from, scan_line, tv, tvs, wf_table};
use crate::tokens::{default_tv, Token, TokenV, Transition, TransitionV};

verus! {

/// The hard cap on a line's length in bytes.  A longer line is not
/// highlighted: it yields no tokens and closes any open span, bounding
/// the cost of a scan on pathological input.
pub const MEBI: usize = 1048576;

/// The continuous scan of a whole document from the line starting at
/// `start`, carrying state line by line: all tokens of all lines in
/// order, and the state after the last line.  A line over the cap
/// contributes no tokens and resets the carried state.
pub open spec fn doc_scan(
    rules: Seq<TransitionV>,
    doc: Seq<u8>,
    start: int,
    st: TransitionV,
) -> (Seq<TokenV>, TransitionV)
    decreases doc.len() - start,
        when wf_table(rules) && 0 <= start <= doc.len()
        via doc_scan_dec
{
    if start >= doc.len() {
        (Seq::empty(), st)
    } else {
        let e = line_end(doc, start);
        let ns = next_line_start(doc, start);
        if e - start > MEBI as int {
            doc_scan(rules, doc, ns, default_tv())
        } else {
            let ln = scan_from(rules, doc.subrange(start, e), start, 0, st);
            let rest = doc_scan(rules, doc, ns, ln.1);
            (ln.0 + rest.0, rest.1)
        }
    }
}

#[via_fn]
proof fn doc_scan_dec(rules: Seq<TransitionV>, doc: Seq<u8>, start: int, st: TransitionV) {
    if start < doc.len() {
        lemma_next_line_start_props(doc, start);
    }
}

/// Scanning a document line by line and concatenating the results
/// equals the continuous scan: the first line's tokens, followed by the
/// continuous scan of the rest of the document with the carried state.
pub proof fn lemma_scan_splits_at_lines(
    rules: Seq<TransitionV>,
    doc: Seq<u8>,
    start: int,
    st: TransitionV,
)
    requires
        wf_table(rules),
        0 <= start < doc.len(),
        line_end(doc, start) - start <= MEBI as int,
    ensures
        ({
            let e = line_end(doc, start);
            let ln = scan_from(rules, doc.subrange(start, e), start, 0, st);
            let rest = doc_scan(rules, doc, next_line_start(doc, start), ln.1);
            doc_scan(rules, doc, start, st) == (ln.0 + rest.0, rest.1)
        }),
{
    lemma_line_end_props(doc, start);
}

/// The incremental parser: bound to a document, it produces each
/// logical line's tokens in turn, carrying the open-span state across
/// lines.
pub struct Parser<'a, D: ReadableDocument> {
    doc: &'a D,
    offset: usize,
    logical_pos_y: usize,
    state: Transition,
    rules: Vec<Transition>,
}

impl<'a, D: ReadableDocument> Parser<'a, D> {
    /// The document's bytes.
    pub closed spec fn doc_spec(&self) -> Seq<u8> {
        self.doc.contents()
    }

    /// The byte offset of the next line to produce.
    pub closed spec fn pos_spec(&self) -> int {
        self.offset as int
    }

    /// The 0-based index of the line most recently produced.
    pub closed spec fn line_spec(&self) -> int {
        self.logical_pos_y as int
    }

    /// The carried span state.
    pub closed spec fn state_spec(&self) -> TransitionV {
        self.state@
    }

    /// The rule table the parser scans with.
    pub closed spec fn rules_spec(&self) -> Seq<TransitionV> {
        tv(self.rules@)
    }

    /// The parser stands at a line start within the document, its rule
    /// table is the sample grammar, the line counter never passes the
    /// byte offset, and the carried state is one the scanner can
    /// produce: the default, or a table rule whose span may stay open.
    pub closed spec fn wf(&self) -> bool {
        &&& self.offset <= self.doc.contents().len()
        &&& self.logical_pos_y <= self.offset
        &&& tv(self.rules@) == ps_table()
        &&& wf_table(tv(self.rules@))
        &&& carried_ok(ps_table(), self.state@)
    }

    /// A parser bound to `doc`, positioned at offset 0 and line 0, with
    /// the carried state `state`: the default state (no open span), or
    /// an open state that an earlier scan handed back.
    pub fn new(doc: &'a D, state: Transition) -> (p: Self)
        requires
            carried_ok(ps_table(), state@),
        ensures
            p.wf(),
            p.doc_spec() == doc.contents(),
            p.pos_spec() == 0,
            p.line_spec() == 0,
            p.state_spec() == state@,
            p.rules_spec() == ps_table(),
    {
        Parser { doc, offset: 0, logical_pos_y: 0, state, rules: powershell_ground() }
    }

    /// The 0-based index of the logical line most recently produced.
    pub fn logical_pos_y(&self) -> (y: usize)
        ensures
            y as int == self.line_spec(),
    {
        self.logical_pos_y
    }

    /// Assembles the next logical line from the document and scans it
    /// with the carried state.  Returns the line's tokens, with ranges
    /// absolute into the document; the empty sequence signals the end of
    /// the document or a line over the length cap.  Repeated calls
    /// reproduce exactly the continuous scan of the whole document.
    pub fn parse_next_line(&mut self) -> (toks: Vec<Token>)
        requires
            old(self).wf(),
        ensures
            final(self).wf(),
            final(self).doc_spec() == old(self).doc_spec(),
            final(self).rules_spec() == old(self).rules_spec(),
            old(self).pos_spec() >= old(self).doc_spec().len() ==> toks@.len() == 0
                && final(self).pos_spec() == old(self).pos_spec() && final(self).state_spec() == old(
                self,
            ).state_spec() && final(self).line_spec() == old(self).line_spec(),
            old(self).pos_spec() < old(self).doc_spec().len() ==> ({
                let doc = old(self).doc_spec();
                let off = old(self).pos_spec();
                let e = line_end(doc, off);
                &&& final(self).pos_spec() == next_line_start(doc, off)
                &&& final(self).line_spec() == old(self).line_spec() + (if off == 0 {
                    0int
                } else {
                    1int
                })
                &&& e - off > MEBI as int ==> toks@.len() == 0 && final(self).state_spec()
                    == default_tv()
                &&& e - off <= MEBI as int ==> ({
                    let s = scan_from(
                        old(self).rules_spec(),
                        doc.subrange(off, e),
                        off,
                        0,
                        old(self).state_spec(),
                    );
                    tvs(toks@) == s.0 && final(self).state_spec() == s.1
                })
            }),
            ({
                let pre = doc_scan(
                    old(self).rules_spec(),
                    old(self).doc_spec(),
                    old(self).pos_spec(),
                    old(self).state_spec(),
                );
                let post = doc_scan(
                    final(self).rules_spec(),
                    final(self).doc_spec(),
                    final(self).pos_spec(),
                    final(self).state_spec(),
                );
                pre.0 == tvs(toks@) + post.0 && pre.1 == post.1
            }),
            carried_ok(old(self).rules_spec(), final(self).state_spec()),
    {
        let doc = self.doc;
        let ghost dv = doc.contents();
        let line_start = self.offset;
        let mut chunk = doc.read_forward(line_start);
        if chunk.len() == 0 {
            let toks: Vec<Token> = Vec::new();
            proof {
                assert(tvs(toks@) =~= Seq::<TokenV>::empty());
                let post = doc_scan(tv(self.rules@), dv, line_start as int, self.state@);
                assert(tvs(toks@) + post.0 =~= post.0);
            }
            return toks;
        }
        if self.offset != 0 {
            self.logical_pos_y = self.logical_pos_y + 1;
        }

        // Assemble one logical line: scan forward chunk by chunk for a
        // terminator, keeping at most one byte over the cap.
        let mut buf: Vec<u8> = Vec::new();
        let mut chunk_start = line_start;
        let mut i: usize = 0;
        let mut found = false;
        let mut nl: u8 = 0;
        loop
            invariant_except_break
                !found,
            invariant
                dv == doc.contents(),
                line_start < dv.len(),
                line_start <= chunk_start,
                i <= chunk@.len(),
                chunk_start + chunk@.len() <= dv.len(),
                chunk_start + chunk@.len() <= usize::MAX,
                chunk@ == dv.subrange(chunk_start as int, chunk_start + chunk@.len()),
                line_end(dv, line_start as int) == line_end(dv, chunk_start + i),
                buf@.len() == vstd::math::min(chunk_start + i - line_start, MEBI + 1),
                buf@ == dv.subrange(line_start as int, line_start as int + buf@.len()),
            ensures
                found ==> chunk_start + i < dv.len() && dv[chunk_start + i] == nl && is_nl(nl),
                found ==> i < chunk@.len(),
                !found ==> chunk_start + i == dv.len(),
            decreases dv.len() - (chunk_start + i), (if i < chunk@.len() {
                0int
            } else {
                1int
            }),
        {
            if i >= chunk.len() {
                let next_off = chunk_start + i;
                chunk = doc.read_forward(next_off);
                chunk_start = next_off;
                i = 0;
                if chunk.len() == 0 {
                    break;
                }
            } else {
                let b = chunk[i];
                proof {
                    assert(b == dv[chunk_start + i]);
                }
                if b == 10 || b == 13 {
                    found = true;
                    nl = b;
                    break;
                }
                if buf.len() <= MEBI {
                    let ghost prev = buf@;
                    buf.push(b);
                    proof {
                        assert(buf@ =~= dv.subrange(
                            line_start as int,
                            line_start as int + prev.len() + 1,
                        ));
                    }
                }
                i += 1;
            }
        }
        let e = chunk_start + i;
        proof {
            lemma_line_end_props(dv, line_start as int);
            lemma_next_line_start_props(dv, line_start as int);
            if found {
                assert(is_nl_at(dv, e as int, nl));
                assert(line_end(dv, e as int) == e);
            } else {
                assert(e == dv.len());
                assert(line_end(dv, e as int) == e);
            }
            assert(line_end(dv, line_start as int) == e);
        }

        // Position the cursor at the start of the next line, treating a
        // CRLF pair as one terminator even across a chunk boundary.
        let new_offset: usize;
        if !found {
            new_offset = e;
        } else if nl == 10 {
            new_offset = e + 1;
        } else {
            if i + 1 < chunk.len() {
                if chunk[i + 1] == 10 {
                    new_offset = e + 2;
                } else {
                    new_offset = e + 1;
                }
            } else {
                let chunk2 = doc.read_forward(e + 1);
                if chunk2.len() == 0 {
                    new_offset = e + 1;
                } else {
                    if chunk2[0] == 10 {
                        new_offset = e + 2;
                    } else {
                        new_offset = e + 1;
                    }
                }
            }
        }
        proof {
            assert(new_offset as int == next_line_start(dv, line_start as int));
        }
        self.offset = new_offset;

        // A line over the cap is not highlighted: no tokens, and any
        // open span is closed.
        let clen = e - line_start;
        if clen > MEBI {
            self.state = Transition::default();
            let toks: Vec<Token> = Vec::new();
            proof {
                assert(tvs(toks@) =~= Seq::<TokenV>::empty());
                let post = doc_scan(tv(self.rules@), dv, new_offset as int, default_tv());
                assert(tvs(toks@) + post.0 =~= post.0);
            }
            return toks;
        }

        proof {
            assert(buf@ =~= dv.subrange(line_start as int, e as int));
        }
        let st0 = self.state.clone();
        let (toks, newst) = scan_line(&buf, line_start, &self.rules, st0);
        self.state = newst;
        proof {
            lemma_scan_state_options(tv(self.rules@), buf@, line_start as int, 0, old(self).state@);
            lemma_scan_splits_at_lines(
                tv(self.rules@),
                dv,
                line_start as int,
                old(self).state@,
            );
        }
        toks
    }
}

/// The byte at `p` is the terminator `nl`.
pub open spec fn is_nl_at(doc: Seq<u8>, p: int, nl: u8) -> bool {
    0 <= p < doc.len() && doc[p] == nl && (nl == 10 || nl == 13)
}

} // verus!
