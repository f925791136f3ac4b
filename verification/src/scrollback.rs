//! Append-only, byte-addressable scrollback log backed by fixed-size chunks.
//!
//! A session's recorded output is stored as a dense sequence of chunks of at
//! most `CHUNK_MAX` bytes each. Every chunk except the last is exactly
//! `CHUNK_MAX` bytes long; only the last chunk may be shorter, and it is the
//! only chunk that may grow on a later append. Concatenating the chunk
//! payloads in `chunk_index` order yields the full recorded byte stream.

use vstd::prelude::*;

verus! {

/// Upper bound on the payload size of a single scrollback chunk, in bytes.
pub const CHUNK_MAX: usize = 65536;

/// One stored chunk of a session's scrollback.
#[derive(Debug, Clone)]
pub struct ScrollbackChunk {
    pub session_id: u128,
    pub chunk_index: usize,
    pub data: Vec<u8>,
}

/// The full scrollback of one session: a dense, ordered run of chunks.
#[derive(Debug, Clone)]
pub struct ChunkLog {
    pub session_id: u128,
    pub chunks: Vec<ScrollbackChunk>,
}

/// Concatenation of a sequence of byte strings, in order.
pub open spec fn cat(cs: Seq<Seq<u8>>) -> Seq<u8>
    decreases cs.len(),
{
    if cs.len() == 0 {
        Seq::empty()
    } else {
        cat(cs.drop_last()) + cs.last()
    }
}

/// Concatenation distributes over appending sequences of byte strings.
pub proof fn lemma_cat_concat(a: Seq<Seq<u8>>, b: Seq<Seq<u8>>)
    ensures
        cat(a + b) == cat(a) + cat(b),
    decreases b.len(),
{
    if b.len() == 0 {
        assert(a + b =~= a);
        assert(cat(a) + cat(b) =~= cat(a));
    } else {
        lemma_cat_concat(a, b.drop_last());
        assert((a + b).drop_last() =~= a + b.drop_last());
        assert((a + b).last() == b.last());
        assert(cat(a) + cat(b.drop_last()) + b.last() =~= cat(a) + (cat(b.drop_last())
            + b.last()));
    }
}

/// Extending a prefix of `cs` by its next element extends the concatenation
/// by that element.
pub proof fn lemma_cat_take_step(cs: Seq<Seq<u8>>, i: int)
    requires
        0 <= i < cs.len(),
    ensures
        cat(cs.take(i + 1)) == cat(cs.take(i)) + cs[i],
{
    assert(cs.take(i + 1).drop_last() =~= cs.take(i));
    assert(cs.take(i + 1).last() == cs[i]);
}

/// Appends compose: a log that held `base` and then has `a` and `b`
/// appended records `base + a + b`, and from an empty log exactly `a + b`.
/// With `ChunkLog::append`'s contract this pins the stream recorded by any
/// two appends in order.
pub proof fn lemma_append_append(base: Seq<u8>, a: Seq<u8>, b: Seq<u8>)
    ensures
        (base + a) + b == base + (a + b),
        (Seq::<u8>::empty() + a) + b == a + b,
{
    assert((base + a) + b =~= base + (a + b));
    assert((Seq::<u8>::empty() + a) + b =~= a + b);
}

/// A prefix of the chunk sequence concatenates to at most the whole stream.
pub proof fn lemma_cat_prefix_len(cs: Seq<Seq<u8>>, i: int)
    requires
        0 <= i <= cs.len(),
    ensures
        cat(cs.take(i)).len() <= cat(cs).len(),
{
    lemma_cat_concat(cs.take(i), cs.skip(i));
    assert(cs.take(i) + cs.skip(i) =~= cs);
}

impl ChunkLog {
    /// The chunk payloads, in order.
    pub open spec fn datas(self) -> Seq<Seq<u8>> {
        self.chunks@.map(|_i: int, c: ScrollbackChunk| c.data@)
    }

    /// The recorded byte stream: all payloads concatenated in order.
    pub open spec fn bytes(self) -> Seq<u8> {
        cat(self.datas())
    }

    /// Structural invariant: indices are dense from 0, every chunk belongs to
    /// this session, all but the last chunk are exactly `CHUNK_MAX` bytes,
    /// and the last chunk is non-empty and at most `CHUNK_MAX` bytes.
    pub open spec fn wf(self) -> bool {
        &&& forall|i: int|
            0 <= i < self.chunks@.len() ==> (#[trigger] self.chunks@[i]).chunk_index == i
        &&& forall|i: int|
            0 <= i < self.chunks@.len() ==> (#[trigger] self.chunks@[i]).session_id
                == self.session_id
        &&& forall|i: int|
            0 <= i < self.chunks@.len() - 1 ==> (#[trigger] self.chunks@[i]).data@.len()
                == CHUNK_MAX
        &&& self.chunks@.len() > 0 ==> 0 < self.chunks@.last().data@.len() <= CHUNK_MAX
    }

    /// Fresh, empty log for a session.
    pub fn new(session_id: u128) -> (log: ChunkLog)
        ensures
            log.wf(),
            log.session_id == session_id,
            log.bytes() == Seq::<u8>::empty(),
            log.chunks@.len() == 0,
    {
        ChunkLog { session_id, chunks: Vec::new() }
    }

    /// Number of chunks currently stored.
    pub fn num_chunks(&self) -> (n: usize)
        ensures
            n == self.chunks@.len(),
    {
        self.chunks.len()
    }

    /// A log that records any bytes holds at least one chunk.
    pub proof fn lemma_nonempty_bytes_nonempty_chunks(self)
        requires
            self.bytes().len() > 0,
        ensures
            self.chunks@.len() > 0,
    {
        if self.chunks@.len() == 0 {
            assert(self.datas().len() == 0);
        }
    }

    /// The total recorded length equals the sum its chunk shape dictates:
    /// with `n` chunks the length lies in `((n-1) * CHUNK_MAX, n * CHUNK_MAX]`.
    /// In particular `CHUNK_MAX` bytes fit in exactly one chunk, and one more
    /// byte forces a second chunk.
    pub proof fn lemma_chunk_count(self)
        requires
            self.wf(),
        ensures
            self.chunks@.len() == 0 ==> self.bytes().len() == 0,
            self.chunks@.len() > 0 ==> (self.chunks@.len() - 1) * CHUNK_MAX < self.bytes().len()
                <= self.chunks@.len() * CHUNK_MAX,
    {
        lemma_cat_len_bounds(self.datas());
    }
}

impl ChunkLog {
    /// Append `data` to the recorded stream: first fill the remaining space
    /// of the last chunk, then create new chunks of up to `CHUNK_MAX` bytes
    /// until all input is stored. Appending nothing changes nothing.
    pub fn append(&mut self, data: &[u8])
        requires
            old(self).wf(),
            old(self).bytes().len() + data@.len() <= usize::MAX,
        ensures
            final(self).wf(),
            final(self).session_id == old(self).session_id,
            final(self).bytes() == old(self).bytes() + data@,
            data@.len() == 0 ==> *final(self) == *old(self),
    {
        if data.len() == 0 {
            proof {
                assert(old(self).bytes() + data@ =~= old(self).bytes());
            }
            return;
        }
        let mut consumed: usize = 0;
        let n = self.chunks.len();
        if n > 0 {
            let last_len = self.chunks[n - 1].data.len();
            if last_len < CHUNK_MAX {
                let space = CHUNK_MAX - last_len;
                let take = if space < data.len() {
                    space
                } else {
                    data.len()
                };
                let mut last = self.chunks.pop().unwrap();
                extend_with(&mut last.data, data, 0, take);
                self.chunks.push(last);
                consumed = take;
                proof {
                    let ds_old = old(self).datas();
                    let ds_new = self.datas();
                    assert(ds_new.drop_last() =~= ds_old.drop_last());
                    assert(ds_new.last() =~= ds_old.last() + data@.take(take as int));
                    assert(self.bytes() =~= old(self).bytes() + data@.take(consumed as int));
                }
            }
        }
        while consumed < data.len()
            invariant
                self.wf(),
                self.session_id == old(self).session_id,
                consumed <= data@.len(),
                self.bytes() == old(self).bytes() + data@.take(consumed as int),
                consumed < data@.len() ==> (self.chunks@.len() == 0
                    || self.chunks@.last().data@.len() == CHUNK_MAX),
            decreases data@.len() - consumed,
        {
            let remaining = data.len() - consumed;
            let sz = if remaining < CHUNK_MAX {
                remaining
            } else {
                CHUNK_MAX
            };
            let payload = copy_range(data, consumed, consumed + sz);
            let chunk = ScrollbackChunk {
                session_id: self.session_id,
                chunk_index: self.chunks.len(),
                data: payload,
            };
            let ghost before = self.datas();
            let ghost before_bytes = self.bytes();
            self.chunks.push(chunk);
            proof {
                assert(self.datas().drop_last() =~= before);
                assert(self.bytes() =~= before_bytes + data@.subrange(
                    consumed as int,
                    consumed + sz,
                ));
                assert(data@.take(consumed + sz) =~= data@.take(consumed as int) + data@.subrange(
                    consumed as int,
                    consumed + sz,
                ));
                assert(self.bytes() =~= old(self).bytes() + data@.take(consumed + sz));
            }
            consumed = consumed + sz;
        }
        proof {
            assert(data@.take(consumed as int) =~= data@);
        }
    }

    /// All recorded bytes, chunks concatenated in order.
    pub fn get_all(&self) -> (r: Vec<u8>)
        requires
            self.wf(),
        ensures
            r@ == self.bytes(),
    {
        let mut r: Vec<u8> = Vec::new();
        let mut i: usize = 0;
        while i < self.chunks.len()
            invariant
                self.wf(),
                i <= self.chunks@.len(),
                r@ == cat(self.datas().take(i as int)),
            decreases self.chunks@.len() - i,
        {
            let chunk = &self.chunks[i];
            extend_with(&mut r, chunk.data.as_slice(), 0, chunk.data.len());
            proof {
                lemma_cat_take_step(self.datas(), i as int);
                assert(chunk.data@.subrange(0, chunk.data@.len() as int) =~= chunk.data@);
            }
            i = i + 1;
        }
        proof {
            assert(self.datas().take(self.chunks@.len() as int) =~= self.datas());
        }
        r
    }

    /// The recorded bytes from `offset` on; empty when `offset` is at or
    /// past the end of the stream.
    pub fn get_from_offset(&self, offset: usize) -> (r: Vec<u8>)
        requires
            self.wf(),
            self.bytes().len() <= usize::MAX,
        ensures
            offset <= self.bytes().len() ==> r@ == self.bytes().skip(offset as int),
            offset > self.bytes().len() ==> r@ == Seq::<u8>::empty(),
    {
        let mut r: Vec<u8> = Vec::new();
        let mut current: usize = 0;
        let mut i: usize = 0;
        while i < self.chunks.len()
            invariant
                self.wf(),
                self.bytes().len() <= usize::MAX,
                i <= self.chunks@.len(),
                current == cat(self.datas().take(i as int)).len(),
                r@ == skip_clamped(cat(self.datas().take(i as int)), offset as int),
            decreases self.chunks@.len() - i,
        {
            proof {
                lemma_cat_take_step(self.datas(), i as int);
                lemma_cat_prefix_len(self.datas(), i + 1);
            }
            let ghost processed = cat(self.datas().take(i as int));
            let chunk = &self.chunks[i];
            let chunk_len = chunk.data.len();
            if current + chunk_len <= offset {
                // whole chunk lies before the offset
                proof {
                    assert(skip_clamped(processed + chunk.data@, offset as int)
                        =~= Seq::<u8>::empty());
                }
            } else if current < offset {
                // chunk straddles the offset
                let start_in_chunk = offset - current;
                extend_with(&mut r, chunk.data.as_slice(), start_in_chunk, chunk_len);
                proof {
                    assert(r@ =~= chunk.data@.subrange(start_in_chunk as int, chunk_len as int));
                    assert(skip_clamped(processed + chunk.data@, offset as int)
                        =~= chunk.data@.subrange(start_in_chunk as int, chunk_len as int));
                }
            } else {
                // chunk lies entirely past the offset
                extend_with(&mut r, chunk.data.as_slice(), 0, chunk_len);
                proof {
                    assert(chunk.data@.subrange(0, chunk_len as int) =~= chunk.data@);
                    assert(skip_clamped(processed + chunk.data@, offset as int)
                        =~= skip_clamped(processed, offset as int) + chunk.data@);
                }
            }
            current = current + chunk_len;
            i = i + 1;
        }
        proof {
            assert(self.datas().take(self.chunks@.len() as int) =~= self.datas());
        }
        r
    }

    /// Total number of recorded bytes.
    pub fn total_size(&self) -> (n: usize)
        requires
            self.wf(),
            self.bytes().len() <= usize::MAX,
        ensures
            n == self.bytes().len(),
    {
        let mut n: usize = 0;
        let mut i: usize = 0;
        while i < self.chunks.len()
            invariant
                self.wf(),
                self.bytes().len() <= usize::MAX,
                i <= self.chunks@.len(),
                n == cat(self.datas().take(i as int)).len(),
            decreases self.chunks@.len() - i,
        {
            proof {
                lemma_cat_take_step(self.datas(), i as int);
                lemma_cat_prefix_len(self.datas(), i + 1);
            }
            n = n + self.chunks[i].data.len();
            i = i + 1;
        }
        proof {
            assert(self.datas().take(self.chunks@.len() as int) =~= self.datas());
        }
        n
    }

    /// Remove every chunk of this session.
    pub fn clear(&mut self)
        ensures
            final(self).wf(),
            final(self).session_id == old(self).session_id,
            final(self).bytes() == Seq::<u8>::empty(),
            final(self).chunks@.len() == 0,
    {
        self.chunks.clear();
    }
}

/// `s.skip(k)` with `k` clamped to the length of `s`.
pub open spec fn skip_clamped(s: Seq<u8>, k: int) -> Seq<u8> {
    if k <= s.len() {
        s.skip(k)
    } else {
        Seq::empty()
    }
}

/// Copy `src[from..to]` into a fresh vector.
pub(crate) fn copy_range(src: &[u8], from: usize, to: usize) -> (r: Vec<u8>)
    requires
        from <= to <= src@.len(),
    ensures
        r@ == src@.subrange(from as int, to as int),
{
    let mut r: Vec<u8> = Vec::new();
    let mut j: usize = from;
    while j < to
        invariant
            from <= j <= to <= src@.len(),
            r@ == src@.subrange(from as int, j as int),
        decreases to - j,
    {
        r.push(src[j]);
        proof {
            assert(src@.subrange(from as int, j + 1) =~= src@.subrange(from as int, j as int).push(
                src@[j as int]));
        }
        j = j + 1;
    }
    r
}

/// Append `src[from..to]` to `dst`.
fn extend_with(dst: &mut Vec<u8>, src: &[u8], from: usize, to: usize)
    requires
        from <= to <= src@.len(),
    ensures
        final(dst)@ == old(dst)@ + src@.subrange(from as int, to as int),
{
    let mut j: usize = from;
    while j < to
        invariant
            from <= j <= to <= src@.len(),
            dst@ == old(dst)@ + src@.subrange(from as int, j as int),
        decreases to - j,
    {
        dst.push(src[j]);
        proof {
            assert(src@.subrange(from as int, j + 1) =~= src@.subrange(from as int, j as int).push(
                src@[j as int]));
            assert(old(dst)@ + src@.subrange(from as int, j + 1) =~= (old(dst)@ + src@.subrange(
                from as int,
                j as int,
            )).push(src@[j as int]));
        }
        j = j + 1;
    }
    proof {
        assert(dst@ == old(dst)@ + src@.subrange(from as int, to as int));
    }
}

/// Length bounds for the concatenation of a well-shaped chunk sequence.
proof fn lemma_cat_len_bounds(cs: Seq<Seq<u8>>)
    requires
        forall|i: int| 0 <= i < cs.len() - 1 ==> (#[trigger] cs[i]).len() == CHUNK_MAX,
        cs.len() > 0 ==> 0 < cs.last().len() <= CHUNK_MAX,
    ensures
        cs.len() == 0 ==> cat(cs).len() == 0,
        cs.len() > 0 ==> (cs.len() - 1) * CHUNK_MAX < cat(cs).len() <= cs.len() * CHUNK_MAX,
    decreases cs.len(),
{
    if cs.len() > 0 {
        let head = cs.drop_last();
        if head.len() > 0 {
            assert(head.last() == cs[cs.len() - 2]);
            assert(head.last().len() == CHUNK_MAX);
        }
        lemma_cat_len_bounds(head);
        if head.len() > 0 {
            // head consists only of full chunks, so its length is exact.
            lemma_cat_len_all_full(head);
        }
    }
}

/// The concatenation of full chunks has exactly `len * CHUNK_MAX` bytes.
proof fn lemma_cat_len_all_full(cs: Seq<Seq<u8>>)
    requires
        forall|i: int| 0 <= i < cs.len() ==> (#[trigger] cs[i]).len() == CHUNK_MAX,
    ensures
        cat(cs).len() == cs.len() * CHUNK_MAX,
    decreases cs.len(),
{
    if cs.len() > 0 {
        lemma_cat_len_all_full(cs.drop_last());
        assert(cs.len() * CHUNK_MAX == (cs.len() - 1) * CHUNK_MAX + CHUNK_MAX) by (nonlinear_arith);
    }
}

} // verus!
