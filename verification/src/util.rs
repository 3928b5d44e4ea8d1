//! Splitting long outgoing messages into bounded chunks.

use vstd::prelude::*;

use crate::strutil;
use crate::strutil::fit_len;

verus! {

/// Yields consecutive chunks of a text, in order, each the longest run of
/// whole characters whose UTF-8 encoding fits in `size` bytes. Used to keep
/// outgoing chat messages under the transport's line-length limit. Once no
/// whole character fits the budget (the text is exhausted, the size is zero,
/// or the next character alone is too wide), nothing more is yielded.
pub struct SplitChunks {
    chars: Vec<char>,
    pos: usize,
    size: usize,
}

impl SplitChunks {
    /// The characters not yet handed out.
    pub closed spec fn remaining(&self) -> Seq<char> {
        self.chars@.skip(self.pos as int)
    }

    /// The configured chunk size, in bytes of UTF-8.
    pub closed spec fn chunk_size(&self) -> nat {
        self.size as nat
    }

    pub closed spec fn wf(&self) -> bool {
        self.pos <= self.chars@.len()
    }

    pub fn new(text: &str, size: usize) -> (r: SplitChunks)
        ensures
            r.wf(),
            r.remaining() == text@,
            r.chunk_size() == size as nat,
    {
        let r = SplitChunks { chars: strutil::str_to_chars(text), pos: 0, size };
        proof {
            assert(r.remaining() =~= text@);
        }
        r
    }

    /// The next chunk: the longest character-boundary prefix of the
    /// remaining text whose UTF-8 encoding is at most `size` bytes, or
    /// `None` once that prefix is empty.
    pub fn next(&mut self) -> (r: Option<String>)
        requires
            old(self).wf(),
        ensures
            final(self).wf(),
            final(self).chunk_size() == old(self).chunk_size(),
            ({
                let k = fit_len(old(self).remaining(), 0, old(self).chunk_size() as int);
                if k == 0 {
                    &&& r is None
                    &&& final(self).remaining() == old(self).remaining()
                } else {
                    &&& r matches Some(chunk) && chunk@ == old(self).remaining().take(k)
                    &&& final(self).remaining() == old(self).remaining().skip(k)
                }
            }),
    {
        let n = self.chars.len();
        let k = strutil::take_within(&self.chars, self.pos, self.size);
        proof {
            assert(self.pos + k <= n);
            strutil::lemma_fit_len_skip(
                self.chars@,
                self.pos as int,
                self.pos as int,
                self.size as int,
            );
            assert(self.pos + k <= self.chars@.len());
        }
        if k == 0 {
            return None;
        }
        let chunk = strutil::string_range(&self.chars, self.pos, self.pos + k);
        proof {
            assert(self.chars@.subrange(self.pos as int, self.pos + k as int)
                =~= old(self).remaining().take(k as int));
            assert(self.chars@.skip(self.pos + k as int) =~= old(self).remaining().skip(k as int));
        }
        self.pos = self.pos + k;
        Some(chunk)
    }
}

} // verus!
