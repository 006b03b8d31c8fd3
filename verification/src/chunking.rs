//! Splitting a document into ordered, bounded, overlapping text windows.
//!
//! A window starts every `max_chunk_size - overlap_chars` characters and
//! covers at most `max_chunk_size` characters, so consecutive windows share
//! `overlap_chars` characters of context. The trailing characters of one
//! window are duplicated at the start of the next: that is the overlap
//! policy this chunker commits to, and the contracts below pin it down.

use vstd::arithmetic::div_mod::lemma_fundamental_div_mod_converse_div;
use vstd::prelude::*;
use vstd::string::StrSliceExecFns;

verus! {

/// A chunk of text with its position in the original document.
pub struct DocumentChunk {
    /// Chunk index (0-based).
    pub id: usize,
    /// The text content of this chunk.
    pub text: String,
    /// Character offset where this chunk starts in the original document.
    pub start_offset: usize,
    /// Character offset where this chunk ends in the original document.
    pub end_offset: usize,
    /// Entities mentioned in this chunk (populated during extraction).
    pub entities_mentioned: Vec<String>,
}

/// Splits text into bounded windows with a fixed overlap.
pub struct SemanticChunker {
    max_chunk_size: usize,
    overlap_chars: usize,
}

impl SemanticChunker {
    /// Maximum characters per chunk.
    pub closed spec fn max_size(self) -> usize {
        self.max_chunk_size
    }

    /// Characters shared between consecutive chunks.
    pub closed spec fn overlap(self) -> usize {
        self.overlap_chars
    }

    /// The overlap is strictly shorter than a full window.
    pub open spec fn wf(self) -> bool {
        self.overlap() < self.max_size()
    }

    /// How far the window start moves from one chunk to the next.
    pub open spec fn advance(self) -> int {
        self.max_size() - self.overlap()
    }

    /// Where chunk `k` starts in the document.
    pub open spec fn chunk_start(self, k: int) -> int {
        k * self.advance()
    }

    /// Where chunk `k` ends in a document of `len` characters.
    pub open spec fn chunk_end(self, k: int, len: int) -> int {
        if self.chunk_start(k) + self.max_size() <= len {
            self.chunk_start(k) + self.max_size()
        } else {
            len
        }
    }

    /// Number of chunks for a document of `len` characters.
    pub open spec fn spec_chunk_count(self, len: nat) -> nat
        recommends
            self.wf(),
    {
        if len <= self.max_size() {
            1
        } else {
            ((len - 1) / self.advance() + 1) as nat
        }
    }

    /// Create a new chunker.
    pub fn new(max_chunk_size: usize, overlap_chars: usize) -> (s: Self)
        requires
            overlap_chars < max_chunk_size,
        ensures
            s.max_size() == max_chunk_size,
            s.overlap() == overlap_chars,
            s.wf(),
    {
        Self { max_chunk_size, overlap_chars }
    }

    /// Whether a document is longer than one window.
    pub fn needs_chunking(&self, text: &str) -> (r: bool)
        ensures
            r == (text@.len() > self.max_size()),
    {
        text.unicode_len() > self.max_chunk_size
    }

    /// Number of chunks that `chunk` will produce for this document.
    pub fn estimate_chunk_count(&self, text: &str) -> (r: usize)
        requires
            self.wf(),
        ensures
            r == self.spec_chunk_count(text@.len()),
    {
        let n: usize = text.unicode_len();
        if n <= self.max_chunk_size {
            return 1;
        }
        let adv: usize = self.max_chunk_size - self.overlap_chars;
        proof {
            assert((n - 1) / adv as int <= n - 1) by (nonlinear_arith)
                requires
                    adv >= 1,
                    n >= 1,
            ;
        }
        (n - 1) / adv + 1
    }

    /// Split text into ordered windows.
    ///
    /// Every window is at most `max_size` characters long, window `k` covers
    /// the characters from `chunk_start(k)` to `chunk_end(k)` of the original
    /// document, and the number of windows equals `estimate_chunk_count`. A
    /// document no longer than one window yields a single window spanning the
    /// whole text.
    pub fn chunk(&self, text: &str) -> (chunks: Vec<DocumentChunk>)
        requires
            self.wf(),
        ensures
            chunks@.len() == self.spec_chunk_count(text@.len()),
            forall|k: int|
                0 <= k < chunks@.len() ==> {
                    &&& (#[trigger] chunks@[k]).id == k
                    &&& chunks@[k].start_offset == self.chunk_start(k)
                    &&& chunks@[k].end_offset == self.chunk_end(k, text@.len() as int)
                    &&& chunks@[k].text@ == text@.subrange(
                        self.chunk_start(k),
                        self.chunk_end(k, text@.len() as int),
                    )
                    &&& chunks@[k].text@.len() <= self.max_size()
                    &&& chunks@[k].entities_mentioned@.len() == 0
                },
            text@.len() <= self.max_size() ==> chunks@.len() == 1 && chunks@[0].text@ == text@,
    {
        let n: usize = text.unicode_len();
        let mut chunks: Vec<DocumentChunk> = Vec::new();
        if n <= self.max_chunk_size {
            let piece = text.substring_char(0, n);
            chunks.push(
                DocumentChunk {
                    id: 0,
                    text: piece.to_owned(),
                    start_offset: 0,
                    end_offset: n,
                    entities_mentioned: Vec::new(),
                },
            );
            proof {
                assert(text@.subrange(0, n as int) =~= text@);
                assert(self.chunk_start(0) == 0) by (nonlinear_arith);
            }
            return chunks;
        }
        let adv: usize = self.max_chunk_size - self.overlap_chars;
        let mut start: usize = 0;
        proof {
            assert(chunks@.len() == 0);
            assert(0 * (adv as int) == 0) by (nonlinear_arith);
        }
        loop
            invariant
                self.wf(),
                adv == self.advance(),
                n == text@.len(),
                n > self.max_size(),
                start as int == chunks@.len() as int * (adv as int),
                start < n,
                forall|k: int|
                    0 <= k < chunks@.len() ==> {
                        &&& (#[trigger] chunks@[k]).id == k
                        &&& chunks@[k].start_offset == self.chunk_start(k)
                        &&& chunks@[k].end_offset == self.chunk_end(k, n as int)
                        &&& chunks@[k].text@ == text@.subrange(
                            self.chunk_start(k),
                            self.chunk_end(k, n as int),
                        )
                        &&& chunks@[k].text@.len() <= self.max_size()
                        &&& chunks@[k].entities_mentioned@.len() == 0
                    },
            decreases n - start,
        {
            let ghost i = chunks@.len() as int;
            let end: usize = if n - start < self.max_chunk_size {
                n
            } else {
                start + self.max_chunk_size
            };
            proof {
                assert(self.chunk_start(i) == start);
                assert(self.chunk_end(i, n as int) == end);
            }
            let piece = text.substring_char(start, end);
            let id: usize = chunks.len();
            chunks.push(
                DocumentChunk {
                    id,
                    text: piece.to_owned(),
                    start_offset: start,
                    end_offset: end,
                    entities_mentioned: Vec::new(),
                },
            );
            if n - start <= adv {
                proof {
                    let c = chunks@.len() as int;
                    assert(c * adv == (c - 1) * adv + adv) by (nonlinear_arith);
                    assert((c - 1) * adv <= n - 1 < c * adv);
                    lemma_fundamental_div_mod_converse_div(
                        n - 1,
                        adv as int,
                        c - 1,
                        (n - 1) - (c - 1) * adv,
                    );
                    assert(c == (n - 1) / adv as int + 1);
                }
                return chunks;
            }
            start = start + adv;
            proof {
                assert(chunks@.len() * adv as int == (chunks@.len() - 1) * adv + adv)
                    by (nonlinear_arith);
            }
        }
    }
}

impl Default for SemanticChunker {
    /// A window of 3500 characters with 400 characters of overlap.
    fn default() -> (s: Self)
        ensures
            s.max_size() == 3500,
            s.overlap() == 400,
            s.wf(),
    {
        Self::new(3500, 400)
    }
}

} // verus!
