use crate::error::Error;
use vstd::prelude::*;

verus! {

/// Iterates a fixed-size byte window over one backing buffer, from an
/// inclusive start offset to an exclusive end offset: full windows while
/// enough bytes remain, then one final shorter window.
pub struct ByteChunkIter {
    data: Vec<u8>,
    cursor: usize,
    end: usize,
    chunk_size: usize,
}

impl ByteChunkIter {
    pub closed spec fn data_spec(self) -> Seq<u8> {
        self.data@
    }

    pub closed spec fn cursor_spec(self) -> int {
        self.cursor as int
    }

    pub closed spec fn end_spec(self) -> int {
        self.end as int
    }

    pub closed spec fn chunk_spec(self) -> int {
        self.chunk_size as int
    }

    pub closed spec fn wf(self) -> bool {
        &&& self.cursor <= self.end <= self.data@.len()
        &&& self.chunk_size >= 1
    }

    /// Builds an iterator over `data` between `start` (clamped to the end
    /// offset) and `end`, yielding `chunk_size` bytes per pull.
    pub fn new(data: Vec<u8>, start: usize, end: usize, chunk_size: usize) -> (r: Result<
        ByteChunkIter,
        Error,
    >)
        ensures
            r is Ok <==> chunk_size >= 1 && end <= data@.len(),
            r matches Ok(it) ==> {
                &&& it.wf()
                &&& it.data_spec() == data@
                &&& it.cursor_spec() == if start <= end {
                    start as int
                } else {
                    end as int
                }
                &&& it.end_spec() == end
                &&& it.chunk_spec() == chunk_size
            },
            r matches Err(e) ==> (e == Error::ZeroChunkSize && chunk_size == 0) || (e
                == Error::ByteWindowOutOfBounds && chunk_size >= 1 && end > data@.len()),
    {
        if chunk_size == 0 {
            return Err(Error::ZeroChunkSize);
        }
        if end > data.len() {
            return Err(Error::ByteWindowOutOfBounds);
        }
        let cursor = if start <= end {
            start
        } else {
            end
        };
        Ok(ByteChunkIter { data, cursor, end, chunk_size })
    }

    /// Pulls the next window: `chunk_size` bytes, or the shorter tail, or
    /// `None` once the cursor has reached the end offset.
    pub fn next(&mut self) -> (r: Option<Vec<u8>>)
        requires
            old(self).wf(),
        ensures
            final(self).wf(),
            final(self).data_spec() == old(self).data_spec(),
            final(self).end_spec() == old(self).end_spec(),
            final(self).chunk_spec() == old(self).chunk_spec(),
            old(self).cursor_spec() >= old(self).end_spec() ==> r is None
                && final(self).cursor_spec() == old(self).cursor_spec(),
            old(self).cursor_spec() < old(self).end_spec() ==> ({
                let c = if old(self).chunk_spec() <= old(self).end_spec() - old(
                    self,
                ).cursor_spec() {
                    old(self).chunk_spec()
                } else {
                    old(self).end_spec() - old(self).cursor_spec()
                };
                &&& final(self).cursor_spec() == old(self).cursor_spec() + c
                &&& r matches Some(v) && v@ == old(self).data_spec().subrange(
                    old(self).cursor_spec(),
                    old(self).cursor_spec() + c,
                )
            }),
    {
        if self.cursor >= self.end {
            return None;
        }
        let remaining = self.end - self.cursor;
        let c = if self.chunk_size <= remaining {
            self.chunk_size
        } else {
            remaining
        };
        let mut v: Vec<u8> = Vec::new();
        let mut i: usize = 0;
        while i < c
            invariant
                self.wf(),
                self.cursor + c <= self.end,
                i <= c,
                v@ =~= self.data_spec().subrange(self.cursor as int, self.cursor + i),
            decreases c - i,
        {
            v.push(self.data[self.cursor + i]);
            i += 1;
        }
        self.cursor = self.cursor + c;
        Some(v)
    }
}

} // verus!
