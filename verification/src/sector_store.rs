//! The decisions of the sector store: which chunk ranges go into the next
//! sector, what rows record them, where an interrupted upload resumes, and
//! what a chunk write does.

use vstd::prelude::*;
use std::time::Duration;
use std::ops::Range;
use crate::sector::{SectorBuilder, SectorMeta, SectorChunk, CHUNK_ID_SIZE, spec_added_length, spec_body_length, spec_chunk_start, spec_ranges_ok, lemma_chunk_end_within_body, lemma_body_length_take_step};

verus! {

/// Where the store keeps chunks and how it paces its work.
pub struct SectorStoreConfig {
    pub base_path: String,
    pub post_sector_interval: Duration,
    pub collect_sector_interval: Duration,
    pub max_sector_size: u64,
    pub chunk_max_wait_time: Duration,
}

/// A chunk waiting to be placed in sectors: its id, how much of it
/// sectors hold already, and its length.
pub struct PendingChunk {
    pub chunk_id: Vec<u8>,
    pub allocated: u64,
    pub length: u64,
}

/// A chunk range by value: id, start, end.
pub open spec fn spec_range_view(c: SectorChunk) -> (Seq<u8>, u64, u64) {
    (c.0@, c.1.start, c.1.end)
}

pub open spec fn spec_ranges_view(s: Seq<SectorChunk>) -> Seq<(Seq<u8>, u64, u64)> {
    s.map_values(|c: SectorChunk| spec_range_view(c))
}

pub open spec fn spec_pending_view(p: PendingChunk) -> (Seq<u8>, u64, u64) {
    (p.chunk_id@, p.allocated, p.length)
}

/// The ranges a sector of `limit` bytes takes from the pending chunks, in
/// order, when `used` bytes are taken already: the unallocated rest of each
/// chunk while it fits whole; the first that does not fit gives what fits
/// and ends the sector; a full sector takes nothing.
pub open spec fn spec_pack(limit: int, pending: Seq<(Seq<u8>, u64, u64)>, used: int) -> Seq<
    (Seq<u8>, u64, u64),
>
    decreases pending.len(),
{
    if pending.len() == 0 || used >= limit {
        Seq::empty()
    } else {
        let (id, a, l) = pending[0];
        let remain = l - a;
        let added = spec_added_length(used, limit, remain);
        seq![(id, a, (a + added) as u64)] + if added < remain {
            Seq::empty()
        } else {
            spec_pack(limit, pending.drop_first(), used + added)
        }
    }
}

/// Packs the pending chunks, oldest first, into a sector of at most
/// `max_sector_size` bytes (see `spec_pack`). The sector is kept when the
/// oldest chunk has waited too long or the sector is full.
pub fn pack_sector(max_sector_size: u64, pending: &Vec<PendingChunk>, overtime: bool) -> (r: Option<
    SectorBuilder,
>)
    requires
        forall|i: int|
            0 <= i < pending@.len() ==> (#[trigger] pending@[i]).allocated <= pending@[i].length
                && pending@[i].chunk_id@.len() == CHUNK_ID_SIZE,
    ensures
        match r {
            Some(b) => {
                &&& b.wf()
                &&& b.length_limit_view() == max_sector_size
                &&& spec_ranges_view(b.header_view().chunks@) == spec_pack(
                    max_sector_size as int,
                    pending@.map_values(|p: PendingChunk| spec_pending_view(p)),
                    0,
                )
                &&& (overtime || b.length_view() == max_sector_size)
            },
            None => !overtime && spec_body_length_of(
                spec_pack(
                    max_sector_size as int,
                    pending@.map_values(|p: PendingChunk| spec_pending_view(p)),
                    0,
                ),
            ) != max_sector_size,
        },
{
    let ghost pv = pending@.map_values(|p: PendingChunk| spec_pending_view(p));
    let mut builder = SectorBuilder::new().with_length_limit(max_sector_size);
    let mut i: usize = 0;
    let mut done = false;
    proof {
        assert(pv.skip(0) =~= pv);
        assert(spec_ranges_view(builder.header_view().chunks@) =~= Seq::<(Seq<u8>, u64, u64)>::empty());
    }
    while i < pending.len() && !done
        invariant
            i <= pending@.len(),
            pv == pending@.map_values(|p: PendingChunk| spec_pending_view(p)),
            forall|k: int|
                0 <= k < pending@.len() ==> (#[trigger] pending@[k]).allocated <= pending@[k].length
                    && pending@[k].chunk_id@.len() == CHUNK_ID_SIZE,
            builder.wf(),
            builder.length_limit_view() == max_sector_size,
            !done ==> spec_ranges_view(builder.header_view().chunks@) + spec_pack(
                max_sector_size as int,
                pv.skip(i as int),
                builder.length_view() as int,
            ) == spec_pack(max_sector_size as int, pv, 0),
            done ==> spec_ranges_view(builder.header_view().chunks@) == spec_pack(
                max_sector_size as int,
                pv,
                0,
            ),
            spec_body_length_of(spec_ranges_view(builder.header_view().chunks@))
                == builder.length_view(),
        decreases pending.len() - i,
    {
        let c = &pending[i];
        let remain = c.length - c.allocated;
        let ghost before = builder.header_view().chunks@;
        let ghost used = builder.length_view();
        let ghost rest = pv.skip(i as int);
        proof {
            assert(rest[0] == pv[i as int]);
            assert(rest.drop_first() =~= pv.skip(i + 1));
        }
        let id = copy_bytes(&c.chunk_id);
        let added = builder.add_chunk(id, c.allocated..c.length);
        proof {
            lemma_ranges_view_body(before);
            if used >= max_sector_size {
                assert(spec_pack(max_sector_size as int, rest, used as int) =~= Seq::<
                    (Seq<u8>, u64, u64),
                >::empty());
            } else {
                let e = builder.header_view().chunks@.last();
                assert(builder.header_view().chunks@ == before.push(e));
                assert(spec_ranges_view(before.push(e)) =~= spec_ranges_view(before).push(
                    spec_range_view(e),
                ));
                lemma_ranges_view_body(before.push(e));
            }
        }
        if added < remain {
            done = true;
        }
        i = i + 1;
    }
    proof {
        if !done {
            assert(pv.skip(i as int).len() == 0);
        }
    }
    if overtime || builder.length() == max_sector_size {
        Some(builder)
    } else {
        None
    }
}

/// The number of chunk bytes a list of ranges covers.
pub open spec fn spec_body_length_of(s: Seq<(Seq<u8>, u64, u64)>) -> int
    decreases s.len(),
{
    if s.len() == 0 {
        0
    } else {
        spec_body_length_of(s.drop_last()) + (s.last().2 - s.last().1)
    }
}

proof fn lemma_ranges_view_body(s: Seq<SectorChunk>)
    ensures
        spec_body_length_of(spec_ranges_view(s)) == spec_body_length(s),
    decreases s.len(),
{
    if s.len() > 0 {
        lemma_ranges_view_body(s.drop_last());
        assert(spec_ranges_view(s).drop_last() =~= spec_ranges_view(s.drop_last()));
    }
}

/// A copy of a byte vector.
fn copy_bytes(v: &Vec<u8>) -> (r: Vec<u8>)
    ensures
        r@ == v@,
{
    let mut r: Vec<u8> = Vec::new();
    let mut i: usize = 0;
    while i < v.len()
        invariant
            i <= v@.len(),
            r@ == v@.take(i as int),
        decreases v.len() - i,
    {
        r.push(v[i]);
        assert(v@.take(i + 1) =~= v@.take(i as int).push(v@[i as int]));
        i = i + 1;
    }
    assert(v@.take(v@.len() as int) =~= v@);
    r
}

/// The row that records one range of a sector: chunk id, start in the
/// chunk, length, and start in the sector's body.
pub struct SectorChunkRow {
    pub chunk_id: Vec<u8>,
    pub offset_in_chunk: u64,
    pub length: u64,
    pub offset_in_sector: u64,
}

/// The rows of a sector's ranges, in order; each starts where the ranges
/// before it end.
pub fn sector_chunk_rows(meta: &SectorMeta) -> (rows: Vec<SectorChunkRow>)
    requires
        meta.wf(),
    ensures
        rows@.len() == meta.header_view().chunks@.len(),
        forall|i: int|
            0 <= i < rows@.len() ==> {
                let c = meta.header_view().chunks@[i];
                &&& (#[trigger] rows@[i]).chunk_id@ == c.0@
                &&& rows@[i].offset_in_chunk == c.1.start
                &&& rows@[i].length == c.1.end - c.1.start
                &&& rows@[i].offset_in_sector == spec_chunk_start(meta.header_view().chunks@, i)
            },
{
    let chunks = &meta.header().chunks;
    let ghost cs = meta.header_view().chunks@;
    let mut rows: Vec<SectorChunkRow> = Vec::new();
    let mut offset: u64 = 0;
    let mut i: usize = 0;
    while i < chunks.len()
        invariant
            meta.wf(),
            cs == meta.header_view().chunks@,
            *chunks == meta.header_view().chunks,
            i <= cs.len(),
            rows@.len() == i,
            offset == spec_chunk_start(cs, i as int),
            forall|k: int|
                0 <= k < i ==> {
                    let c = cs[k];
                    &&& (#[trigger] rows@[k]).chunk_id@ == c.0@
                    &&& rows@[k].offset_in_chunk == c.1.start
                    &&& rows@[k].length == c.1.end - c.1.start
                    &&& rows@[k].offset_in_sector == spec_chunk_start(cs, k)
                },
        decreases cs.len() - i,
    {
        proof {
            assert(spec_ranges_ok(cs));
            lemma_chunk_end_within_body(cs, i as int);
            lemma_body_length_take_step(cs, i as int);
        }
        let entry = &chunks[i];
        let length = entry.1.end - entry.1.start;
        rows.push(
            SectorChunkRow {
                chunk_id: copy_bytes(&entry.0),
                offset_in_chunk: entry.1.start,
                length,
                offset_in_sector: offset,
            },
        );
        offset = offset + length;
        i = i + 1;
    }
    rows
}

/// Where the upload of a sector of `sector_length` bytes resumes, given
/// what the remote target holds of it, and how many bytes it sends.
pub fn sector_upload_range(sector_length: u64, written: Option<u64>) -> (r: (u64, u64))
    requires
        written matches Some(w) ==> w <= sector_length,
    ensures
        r.0 == match written {
            Some(w) => w,
            None => 0,
        },
        r.1 == sector_length - r.0,
{
    let offset = match written {
        Some(w) => w,
        None => 0,
    };
    (offset, sector_length - offset)
}

/// What a write of a chunk into the store does, given its row: a chunk
/// without one is registered first; one already written only reports its
/// length.
pub enum ChunkWriteAction {
    RegisterAndWrite,
    AlreadyWritten(u64),
    Write,
}

pub fn chunk_write_action(row: Option<(bool, Option<i64>)>) -> (r: ChunkWriteAction)
    requires
        row matches Some((true, len)) ==> len is Some,
    ensures
        row is None ==> r is RegisterAndWrite,
        row matches Some((true, Some(l))) ==> r == ChunkWriteAction::AlreadyWritten(l as u64),
        row matches Some((false, _)) ==> r is Write,
{
    match row {
        None => ChunkWriteAction::RegisterAndWrite,
        Some((written, len)) => {
            if written {
                match len {
                    Some(l) => ChunkWriteAction::AlreadyWritten(l as u64),
                    None => ChunkWriteAction::Write,
                }
            } else {
                ChunkWriteAction::Write
            }
        },
    }
}

} // verus!
