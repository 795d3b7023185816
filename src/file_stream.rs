//! Read-chunk sizing and the pull step of a byte stream with optional write-through.
use vstd::prelude::*;
use crate::mem_cache::{append_succeeds, appended, MemCache};

verus! {

/// Smallest read buffer used, whatever block size the storage reports.
pub const DEFAULT_READ_BUF_SIZE: usize = 4096;

/// The block size used for reads: the storage block size, raised to the default if smaller.
pub open spec fn block_size_of(blksize: nat) -> nat {
    if blksize > DEFAULT_READ_BUF_SIZE { blksize } else { DEFAULT_READ_BUF_SIZE as nat }
}

/// The read chunk size for a file: the block size, but never more than the file itself.
pub open spec fn optimal_buf_size_of(len: nat, blksize: nat) -> nat {
    let b = block_size_of(blksize);
    if b < len { b } else { len }
}

/// Block size for reads, given the block size the storage reports.
pub fn get_block_size(blksize: usize) -> (r: usize)
    ensures
        r == block_size_of(blksize as nat),
{
    if blksize > DEFAULT_READ_BUF_SIZE {
        blksize
    } else {
        DEFAULT_READ_BUF_SIZE
    }
}

/// Read chunk size for a file of `len` bytes on storage with block size `blksize`.
pub fn optimal_buf_size(len: u64, blksize: usize) -> (r: usize)
    ensures
        r as nat == optimal_buf_size_of(len as nat, blksize as nat),
{
    let block_size = get_block_size(blksize);
    if (block_size as u64) < len {
        block_size
    } else {
        len as usize
    }
}

/// The chunk size never exceeds the file length; it never drops below the default
/// when the file is at least that large and the block size fits in it; and a file
/// shorter than the default is read in one chunk of its own length.
pub proof fn lemma_optimal_buf_size_bounds(len: nat, blksize: nat)
    ensures
        optimal_buf_size_of(len, blksize) <= len,
        blksize <= len && DEFAULT_READ_BUF_SIZE <= len
            ==> optimal_buf_size_of(len, blksize) >= DEFAULT_READ_BUF_SIZE,
        len < DEFAULT_READ_BUF_SIZE ==> optimal_buf_size_of(len, blksize) == len,
{
}

/// The concatenation of a sequence of chunks.
pub open spec fn concat(chunks: Seq<Seq<u8>>) -> Seq<u8>
    decreases chunks.len(),
{
    if chunks.len() == 0 {
        Seq::empty()
    } else {
        concat(chunks.drop_last()) + chunks.last()
    }
}

/// The effect on the cache of producing `chunk` from a stream whose write-through key
/// is `key`: none without a key; else the chunk is appended to that key's entry when
/// there is one and its length stays within `usize`, and no entry changes otherwise.
pub open spec fn written_through(
    before: MemCache,
    after: MemCache,
    key: Option<Seq<char>>,
    chunk: Seq<u8>,
) -> bool {
    match key {
        None => after == before,
        Some(k) => appended(before, after, k, chunk, append_succeeds(before, k, chunk)),
    }
}

/// A pull-based stream of chunks read from a byte source, each at most `buf_size`
/// bytes long, written through to the cache entry of `path_str` when it is set.
pub struct FileStream {
    pub buf_size: usize,
    pub path_str: Option<String>,
}

impl FileStream {
    pub open spec fn key(&self) -> Option<Seq<char>> {
        match self.path_str {
            Some(s) => Some(s@),
            None => None,
        }
    }

    /// A zeroed transfer buffer of `buf_size` bytes, for the next read.
    pub fn new_buffer(&self) -> (r: Vec<u8>)
        ensures
            r@ == Seq::new(self.buf_size as nat, |i: int| 0u8),
    {
        let mut buf: Vec<u8> = Vec::with_capacity(self.buf_size);
        let mut i: usize = 0;
        while i < self.buf_size
            invariant
                i <= self.buf_size,
                buf@ == Seq::new(i as nat, |j: int| 0u8),
            decreases self.buf_size - i,
        {
            buf.push(0u8);
            i = i + 1;
            assert(buf@ =~= Seq::new(i as nat, |j: int| 0u8));
        }
        buf
    }

    /// Handles a read that put `n` bytes at the start of `buf`: zero bytes end the
    /// stream; otherwise the first `n` bytes are the next chunk, and they are appended
    /// to the cache entry of the stream's key, if it has one and the entry exists.
    pub fn poll_next(&self, buf: Vec<u8>, n: usize, cache: &mut MemCache) -> (r: Option<Vec<u8>>)
        requires
            n <= buf@.len(),
            old(cache).wf(),
        ensures
            final(cache).wf(),
            n == 0 ==> r is None && *final(cache) == *old(cache),
            n > 0 ==> (r matches Some(chunk) && chunk@ == buf@.take(n as int) && written_through(
                *old(cache),
                *final(cache),
                self.key(),
                chunk@,
            )),
    {
        if n == 0 {
            return None;
        }
        let ghost read = buf@;
        let mut buf = buf;
        buf.truncate(n);
        assert(buf@ =~= read.take(n as int));
        match &self.path_str {
            Some(s) => {
                let _ = cache.append(s.as_str(), buf.as_slice());
            },
            None => {},
        }
        Some(buf)
    }
}

/// Reading a stream through to its end fills the cache entry it writes to with exactly
/// the chunks it produced, in order, when the entry started empty and the whole fits
/// in memory.
pub proof fn lemma_write_through_concat(
    states: Seq<MemCache>,
    chunks: Seq<Seq<u8>>,
    key: Seq<char>,
)
    requires
        states.len() == chunks.len() + 1,
        states[0].entries().contains_key(key),
        states[0].entries()[key].content() == Seq::<u8>::empty(),
        concat(chunks).len() <= usize::MAX,
        forall|i: int|
            0 <= i < chunks.len() ==> #[trigger] written_through(
                states[i],
                states[i + 1],
                Some(key),
                chunks[i],
            ),
    ensures
        states.last().entries().contains_key(key),
        states.last().entries()[key].content() == concat(chunks),
    decreases chunks.len(),
{
    if chunks.len() > 0 {
        let n = chunks.len() - 1;
        assert(written_through(states[n], states[n + 1], Some(key), chunks[n]));
        assert forall|i: int| 0 <= i < chunks.drop_last().len() implies #[trigger] written_through(
            states.drop_last()[i],
            states.drop_last()[i + 1],
            Some(key),
            chunks.drop_last()[i],
        ) by {
            assert(written_through(states[i], states[i + 1], Some(key), chunks[i]));
        }
        lemma_write_through_concat(states.drop_last(), chunks.drop_last(), key);
    }
}

} // verus!
