//! A cache of chunk pieces read ahead for transfer: per chunk, the pieces
//! read so far, each at the offset where the previous one ended.

use vstd::prelude::*;
use crossbeam::queue::SegQueue;
use crate::text::{chars_of, chars_eq};

verus! {

#[verifier::external_type_specification]
#[verifier::external_body]
#[verifier::reject_recursive_types(T)]
pub struct ExSegQueue<T>(SegQueue<T>);

/// The pieces a queue holds, from head to tail: offset and bytes.
pub uninterp spec fn queued_pieces(q: SegQueue<(u64, Vec<u8>)>) -> Seq<(u64, Seq<u8>)>;

/// An empty queue (`SegQueue::new`).
#[verifier::external_body]
fn new_piece_queue() -> (q: SegQueue<(u64, Vec<u8>)>)
    ensures
        queued_pieces(q) == Seq::<(u64, Seq<u8>)>::empty(),
{
    SegQueue::new()
}

/// Appends a piece at the tail (`SegQueue::push`).
#[verifier::external_body]
fn push_piece(q: &mut SegQueue<(u64, Vec<u8>)>, offset: u64, piece: Vec<u8>)
    ensures
        queued_pieces(*final(q)) == queued_pieces(*old(q)).push((offset, piece@)),
{
    q.push((offset, piece));
}

/// Takes the piece at the head (`SegQueue::pop`): none when empty.
#[verifier::external_body]
fn pop_piece(q: &mut SegQueue<(u64, Vec<u8>)>) -> (r: Option<(u64, Vec<u8>)>)
    ensures
        queued_pieces(*old(q)).len() == 0 ==> r is None && queued_pieces(*final(q)) == queued_pieces(
            *old(q),
        ),
        queued_pieces(*old(q)).len() > 0 ==> (r matches Some((o, p)) && (o, p@) == queued_pieces(
            *old(q),
        )[0] && queued_pieces(*final(q)) == queued_pieces(*old(q)).drop_first()),
{
    q.pop()
}

/// The number of bytes a list of pieces holds.
pub open spec fn spec_pieces_len(p: Seq<(u64, Seq<u8>)>) -> int
    decreases p.len(),
{
    if p.len() == 0 {
        0
    } else {
        p[0].1.len() + spec_pieces_len(p.drop_first())
    }
}

/// Pieces that follow each other from `start`, ending at `end`.
pub open spec fn spec_pieces_contiguous(p: Seq<(u64, Seq<u8>)>, start: int, end: int) -> bool
    decreases p.len(),
{
    if p.len() == 0 {
        start == end
    } else {
        p[0].0 == start && spec_pieces_contiguous(p.drop_first(), start + p[0].1.len(), end)
    }
}

proof fn lemma_pieces_len_nonneg(p: Seq<(u64, Seq<u8>)>)
    ensures
        spec_pieces_len(p) >= 0,
    decreases p.len(),
{
    if p.len() > 0 {
        lemma_pieces_len_nonneg(p.drop_first());
    }
}

proof fn lemma_contiguous_push(p: Seq<(u64, Seq<u8>)>, start: int, end: int, piece: Seq<u8>)
    requires
        spec_pieces_contiguous(p, start, end),
        0 <= start,
        end <= u64::MAX,
    ensures
        spec_pieces_contiguous(p.push((end as u64, piece)), start, end + piece.len()),
    decreases p.len(),
{
    if p.len() == 0 {
        assert(start == end);
        assert((end as u64) as int == end);
        assert(p.push((end as u64, piece))[0] == (end as u64, piece));
        assert(p.push((end as u64, piece)).drop_first() =~= Seq::<(u64, Seq<u8>)>::empty());
        assert(spec_pieces_contiguous(Seq::<(u64, Seq<u8>)>::empty(), start + piece.len(), end + piece.len()));
    } else {
        assert(p.push((end as u64, piece))[0] == p[0]);
        assert(p.push((end as u64, piece)).drop_first() =~= p.drop_first().push((end as u64, piece)));
        lemma_contiguous_push(p.drop_first(), start + p[0].1.len(), end, piece);
    }
}

/// Pieces that run without gap from `start` to `end` hold exactly
/// `end - start` bytes: what a cache frees is what was added to it.
pub proof fn law_cache_bytes_span(p: Seq<(u64, Seq<u8>)>, start: int, end: int)
    requires
        spec_pieces_contiguous(p, start, end),
    ensures
        spec_pieces_len(p) == end - start,
    decreases p.len(),
{
    if p.len() > 0 {
        law_cache_bytes_span(p.drop_first(), start + p[0].1.len(), end);
    }
}

/// The pieces of one chunk read so far, covering `start_offset` up to
/// `end_offset`.
pub struct ChunkCacheNode {
    pub start_offset: u64,
    pub end_offset: u64,
    pub cache_pieces: SegQueue<(u64, Vec<u8>)>,
}

impl ChunkCacheNode {
    /// The pieces run without gap from the start to the end offset.
    pub open spec fn wf(&self) -> bool {
        &&& self.start_offset <= self.end_offset
        &&& spec_pieces_contiguous(
            queued_pieces(self.cache_pieces),
            self.start_offset as int,
            self.end_offset as int,
        )
    }

    /// Appends the next piece, where the pieces so far end.
    pub fn add_piece(&mut self, piece: Vec<u8>)
        requires
            old(self).wf(),
            old(self).end_offset + piece@.len() <= u64::MAX,
        ensures
            final(self).wf(),
            final(self).start_offset == old(self).start_offset,
            final(self).end_offset == old(self).end_offset + piece@.len(),
            queued_pieces(final(self).cache_pieces) == queued_pieces(old(self).cache_pieces).push(
                (old(self).end_offset, piece@),
            ),
    {
        let piece_len = piece.len() as u64;
        let piece_start_offset = self.end_offset;
        proof {
            lemma_contiguous_push(
                queued_pieces(self.cache_pieces),
                self.start_offset as int,
                self.end_offset as int,
                piece@,
            );
        }
        push_piece(&mut self.cache_pieces, piece_start_offset, piece);
        self.end_offset = self.end_offset + piece_len;
    }

    /// Frees the pieces before an offset; nothing is freed yet, and 0 is
    /// returned.
    pub fn free_piece_before_offset(&mut self, _offset: u64) -> (freed: u64)
        ensures
            freed == 0,
            *final(self) == *old(self),
    {
        0
    }
}

/// `a - b` wrapped into 64 bits, for `0 <= b <= u64::MAX`.
pub open spec fn spec_wrapping_sub(a: u64, b: int) -> int {
    if a >= b {
        a - b
    } else {
        a - b + 0x1_0000_0000_0000_0000
    }
}

/// The cache is bounded by this many bytes.
pub const MAX_CACHE_SIZE: u64 = 536870912;

/// The chunk caches by chunk id, and the bytes they hold.
pub struct ChunkTaskCacheMgr {
    pub total_size: u64,
    pub max_size: u64,
    chunk_cache: Vec<(String, ChunkCacheNode)>,
}

impl ChunkTaskCacheMgr {
    pub closed spec fn entries(&self) -> Seq<(String, ChunkCacheNode)> {
        self.chunk_cache@
    }

    pub closed spec fn spec_total_size(&self) -> u64 {
        self.total_size
    }

    pub closed spec fn spec_max_size(&self) -> u64 {
        self.max_size
    }

    /// Whether a chunk has a cache.
    pub open spec fn spec_has(&self, chunk_id: Seq<char>) -> bool {
        exists|i: int| 0 <= i < self.entries().len() && (#[trigger] self.entries()[i]).0@ == chunk_id
    }

    /// One cache per chunk id, each well formed.
    pub open spec fn wf(&self) -> bool {
        &&& forall|i: int, j: int|
            0 <= i < j < self.entries().len() ==> (#[trigger] self.entries()[i]).0@ != (
            #[trigger] self.entries()[j]).0@
        &&& forall|i: int| 0 <= i < self.entries().len() ==> (#[trigger] self.entries()[i]).1.wf()
    }

    /// An empty cache; the byte count starts at 1.
    pub fn new() -> (m: ChunkTaskCacheMgr)
        ensures
            m.wf(),
            m.entries().len() == 0,
            m.spec_total_size() == 1,
            m.spec_max_size() == MAX_CACHE_SIZE,
    {
        ChunkTaskCacheMgr { chunk_cache: Vec::new(), total_size: 1, max_size: MAX_CACHE_SIZE }
    }

    fn find(&self, chunk_id: &str) -> (r: Option<usize>)
        ensures
            match r {
                Some(i) => i < self.entries().len() && self.entries()[i as int].0@ == chunk_id@,
                None => !self.spec_has(chunk_id@),
            },
    {
        let key = chars_of(chunk_id);
        let mut i: usize = 0;
        while i < self.chunk_cache.len()
            invariant
                i <= self.chunk_cache@.len(),
                key@ == chunk_id@,
                forall|k: int| 0 <= k < i ==> (#[trigger] self.chunk_cache@[k]).0@ != chunk_id@,
            decreases self.chunk_cache.len() - i,
        {
            if chars_eq(&chars_of(self.chunk_cache[i].0.as_str()), &key) {
                return Some(i);
            }
            i = i + 1;
        }
        None
    }

    /// Starts an empty cache for a chunk at `start_offset`; a chunk that
    /// has one already is refused.
    pub fn create_chunk_cache(&mut self, chunk_id: &str, start_offset: u64) -> (r: Result<(), String>)
        requires
            old(self).wf(),
        ensures
            final(self).wf(),
            final(self).spec_total_size() == old(self).spec_total_size(),
            old(self).spec_has(chunk_id@) ==> (r matches Err(m) && m@ == "Chunk cache already exists"@
                && final(self).entries() == old(self).entries()),
            !old(self).spec_has(chunk_id@) ==> (r is Ok && final(self).entries().len() == old(
                self,
            ).entries().len() + 1 && final(self).entries().drop_last() == old(self).entries()
                && final(self).entries().last().0@ == chunk_id@ && final(self).entries().last().1.start_offset
                == start_offset && final(self).entries().last().1.end_offset == start_offset
                && queued_pieces(final(self).entries().last().1.cache_pieces).len() == 0),
    {
        if self.find(chunk_id).is_some() {
            return Err(String::from_str("Chunk cache already exists"));
        }
        let node = ChunkCacheNode {
            start_offset,
            end_offset: start_offset,
            cache_pieces: new_piece_queue(),
        };
        let ghost before = self.chunk_cache@;
        proof {
            assert(before == old(self).entries());
            assert forall|i: int| 0 <= i < before.len() implies (#[trigger] before[i]).0@
                != chunk_id@ by {
                assert(old(self).entries()[i] == before[i]);
            }
        }
        self.chunk_cache.push((String::from_str(chunk_id), node));
        proof {
            let e = self.chunk_cache@;
            assert(e.drop_last() =~= before);
            assert forall|i: int, j: int| 0 <= i < j < e.len() implies (#[trigger] e[i]).0@ != (
            #[trigger] e[j]).0@ by {
                if j == e.len() - 1 {
                    assert(e[i] == before[i]);
                } else {
                    assert(e[i] == before[i] && e[j] == before[j]);
                }
            }
            assert forall|i: int| 0 <= i < e.len() implies (#[trigger] e[i]).1.wf() by {
                if i < e.len() - 1 {
                    assert(e[i] == before[i]);
                }
            }
        }
        Ok(())
    }

    /// The cache of a chunk.
    pub fn get_chunk_cache_node(&self, chunk_id: &str) -> (r: Option<&ChunkCacheNode>)
        ensures
            match r {
                Some(n) => exists|i: int|
                    0 <= i < self.entries().len() && (#[trigger] self.entries()[i]).0@ == chunk_id@
                        && self.entries()[i].1 == *n,
                None => !self.spec_has(chunk_id@),
            },
    {
        match self.find(chunk_id) {
            Some(i) => Some(&self.chunk_cache[i].1),
            None => None,
        }
    }

    /// Drops the cache of a chunk and takes the bytes it held off the
    /// count (wrapping, as an atomic subtraction does); a chunk without a
    /// cache is refused.
    pub fn free_chunk_cache(&mut self, chunk_id: &str) -> (r: Result<(), String>)
        requires
            old(self).wf(),
        ensures
            final(self).wf(),
            !old(self).spec_has(chunk_id@) ==> (r matches Err(m) && m@ == "Chunk cache not found"@
                && final(self).entries() == old(self).entries() && final(self).spec_total_size() == old(self).spec_total_size()),
            old(self).spec_has(chunk_id@) ==> (r is Ok && exists|i: int|
                0 <= i < old(self).entries().len() && (#[trigger] old(self).entries()[i]).0@
                    == chunk_id@ && final(self).entries() == old(self).entries().remove(i)
                    && final(self).spec_total_size() == spec_wrapping_sub(
                    old(self).spec_total_size(),
                    old(self).entries()[i].1.end_offset - old(self).entries()[i].1.start_offset,
                )),
    {
        let i = match self.find(chunk_id) {
            Some(i) => i,
            None => return Err(String::from_str("Chunk cache not found")),
        };
        let ghost before = self.chunk_cache@;
        let (_, mut node) = self.chunk_cache.remove(i);
        let mut free_size: u64 = 0;
        let ghost start = node.start_offset as int;
        let ghost end = node.end_offset as int;
        let ghost mut seen: int = start;
        proof {
            assert(node == before[i as int].1);
            law_cache_bytes_span(queued_pieces(node.cache_pieces), start, end);
        }
        loop
            invariant
                0 <= start <= seen <= end,
                node.start_offset == start,
                node.end_offset == end,
                free_size == seen - start,
                spec_pieces_contiguous(queued_pieces(node.cache_pieces), seen, end),
                end <= u64::MAX,
            ensures
                free_size == end - start,
            decreases queued_pieces(node.cache_pieces).len(),
        {
            proof {
                law_cache_bytes_span(queued_pieces(node.cache_pieces), seen, end);
                lemma_pieces_len_nonneg(queued_pieces(node.cache_pieces));
            }
            let ghost q = queued_pieces(node.cache_pieces);
            match pop_piece(&mut node.cache_pieces) {
                Some((_piece_start_offset, piece)) => {
                    proof {
                        assert(q[0].1 == piece@);
                        law_cache_bytes_span(q.drop_first(), seen + piece@.len(), end);
                        lemma_pieces_len_nonneg(q.drop_first());
                        assert(spec_pieces_len(q) == q[0].1.len() + spec_pieces_len(q.drop_first()));
                        assert(seen + piece@.len() <= end);
                        assert(free_size + piece@.len() <= u64::MAX);
                        seen = seen + piece@.len();
                    }
                    free_size = free_size + piece.len() as u64;
                },
                None => {
                    proof {
                        assert(q.len() == 0);
                        assert(seen == end);
                    }
                    break;
                },
            }
        }
        self.total_size = self.total_size.wrapping_sub(free_size);
        proof {
            let e = self.chunk_cache@;
            assert(e == before.remove(i as int));
            assert forall|a: int, b: int| 0 <= a < b < e.len() implies (#[trigger] e[a]).0@ != (
            #[trigger] e[b]).0@ by {
                let oa = if a < i { a } else { a + 1 };
                let ob = if b < i { b } else { b + 1 };
                assert(e[a] == before[oa] && e[b] == before[ob]);
            }
            assert forall|a: int| 0 <= a < e.len() implies (#[trigger] e[a]).1.wf() by {
                let oa = if a < i { a } else { a + 1 };
                assert(e[a] == before[oa]);
            }
        }
        Ok(())
    }
}

} // verus!
