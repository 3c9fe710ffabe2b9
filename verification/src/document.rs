//! The document side of the scanner: the collaborator that serves raw
//! byte chunks, and the line structure of a document — where each
//! logical line ends and where the next one starts.
//!
//! Recognized line terminators are LF, CR, and CRLF as one terminator.
//! This is deliberately narrower than full Unicode line breaking: the
//! multi-byte separators NEL (U+0085), LS (U+2028) and PS (U+2029) are
//! not recognized and count as line content.

use vstd::prelude::*;

verus! {

/// A line terminator byte: line feed or carriage return.  A carriage
/// return followed by a line feed counts as a single terminator.  The
/// multi-byte Unicode separators are not recognized; see the module
/// documentation.
pub open spec fn is_nl(b: u8) -> bool {
    b == 10 || b == 13
}

/// The first position at or after `start` holding a line terminator
/// byte, or the document's length when the last line has none.
pub open spec fn line_end(doc: Seq<u8>, start: int) -> int
    decreases doc.len() - start,
{
    if 0 <= start && start < doc.len() && !is_nl(doc[start]) {
        line_end(doc, start + 1)
    } else {
        start
    }
}

/// The offset of the first byte of the line after the one starting at
/// `start`: past the terminator, consuming a CRLF pair as one.
pub open spec fn next_line_start(doc: Seq<u8>, start: int) -> int {
    let e = line_end(doc, start);
    if e >= doc.len() {
        doc.len() as int
    } else if doc[e] == 13 && e + 1 < doc.len() && doc[e + 1] == 10 {
        e + 2
    } else {
        e + 1
    }
}

/// A line ends within the document, no terminator stands before its
/// end, and one stands at its end unless the document ran out.
pub proof fn lemma_line_end_props(doc: Seq<u8>, start: int)
    requires
        0 <= start <= doc.len(),
    ensures
        start <= line_end(doc, start) <= doc.len(),
        line_end(doc, start) < doc.len() ==> is_nl(doc[line_end(doc, start)]),
        forall|k: int| start <= k < line_end(doc, start) ==> !is_nl(#[trigger] doc[k]),
    decreases doc.len() - start,
{
    if start < doc.len() && !is_nl(doc[start]) {
        lemma_line_end_props(doc, start + 1);
    }
}

/// The next line starts past where this one began, and within the
/// document.
pub proof fn lemma_next_line_start_props(doc: Seq<u8>, start: int)
    requires
        0 <= start <= doc.len(),
    ensures
        line_end(doc, start) <= next_line_start(doc, start) <= doc.len(),
        start < doc.len() ==> start < next_line_start(doc, start),
{
    lemma_line_end_props(doc, start);
}

/// The document collaborator: serves the document's bytes in chunks of
/// its own choosing, reading forward only.
pub trait ReadableDocument {
    /// The whole document as the scanner sees it.
    spec fn contents(&self) -> Seq<u8>;

    /// The next available chunk of the document starting at `offset`:
    /// a nonempty run of the document's bytes there, or an empty slice
    /// at or past the end of the document.
    fn read_forward(&self, offset: usize) -> (chunk: &[u8])
        ensures
            (offset as int) < self.contents().len() ==> 1 <= chunk@.len() && offset
                + chunk@.len() <= self.contents().len() && chunk@ == self.contents().subrange(
                offset as int,
                offset + chunk@.len(),
            ),
            (offset as int) >= self.contents().len() ==> chunk@.len() == 0,
            offset + chunk@.len() <= usize::MAX,
    ;
}

/// An in-memory document that serves all remaining bytes in one chunk.
pub struct VecDocument {
    bytes: Vec<u8>,
}

impl VecDocument {
    pub fn new(bytes: Vec<u8>) -> (d: Self)
        ensures
            d.contents() == bytes@,
    {
        VecDocument { bytes }
    }
}

impl ReadableDocument for VecDocument {
    closed spec fn contents(&self) -> Seq<u8> {
        self.bytes@
    }

    fn read_forward(&self, offset: usize) -> (chunk: &[u8])
        ensures
            (offset as int) < self.contents().len() ==> 1 <= chunk@.len() && offset
                + chunk@.len() <= self.contents().len() && chunk@ == self.contents().subrange(
                offset as int,
                offset + chunk@.len(),
            ),
            (offset as int) >= self.contents().len() ==> chunk@.len() == 0,
            offset + chunk@.len() <= usize::MAX,
    {
        let n = self.bytes.len();
        if offset >= n {
            let chunk = &self.bytes.as_slice()[n..n];
            proof {
                assert(chunk@ =~= Seq::<u8>::empty());
            }
            chunk
        } else {
            &self.bytes.as_slice()[offset..n]
        }
    }
}

/// An in-memory document that serves at most `step` bytes per chunk,
/// exercising callers across chunk boundaries.  A `step` of zero serves
/// one byte at a time.
pub struct ChunkedDocument {
    bytes: Vec<u8>,
    step: usize,
}

impl ChunkedDocument {
    pub fn new(bytes: Vec<u8>, step: usize) -> (d: Self)
        ensures
            d.contents() == bytes@,
    {
        ChunkedDocument { bytes, step }
    }
}

impl ReadableDocument for ChunkedDocument {
    closed spec fn contents(&self) -> Seq<u8> {
        self.bytes@
    }

    fn read_forward(&self, offset: usize) -> (chunk: &[u8])
        ensures
            (offset as int) < self.contents().len() ==> 1 <= chunk@.len() && offset
                + chunk@.len() <= self.contents().len() && chunk@ == self.contents().subrange(
                offset as int,
                offset + chunk@.len(),
            ),
            (offset as int) >= self.contents().len() ==> chunk@.len() == 0,
            offset + chunk@.len() <= usize::MAX,
    {
        let n = self.bytes.len();
        if offset >= n {
            let chunk = &self.bytes.as_slice()[n..n];
            proof {
                assert(chunk@ =~= Seq::<u8>::empty());
            }
            chunk
        } else {
            let s = if self.step == 0 {
                1
            } else {
                self.step
            };
            let end = if n - offset > s {
                offset + s
            } else {
                n
            };
            &self.bytes.as_slice()[offset..end]
        }
    }
}

} // verus!
