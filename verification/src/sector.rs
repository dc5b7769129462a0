//! Sector layout: a header that lists chunk ranges, followed by the chunk
//! bytes, padded to whole cipher blocks.

use vstd::prelude::*;
use std::ops::Range;
use crate::crypto::{sha256, sha256_digest};

verus! {

pub const SECTOR_MAGIC: u64 = 0x444d4358;
pub const SECTOR_VERSION_0: u32 = 0;
pub const SECTOR_FLAGS_DEFAULT: u32 = 0;
pub const SECTOR_KEY_SIZE: usize = 32;
/// Length of a chunk id in a sector header: a SHA-256 digest.
pub const CHUNK_ID_SIZE: usize = 32;
/// Cipher block length (AES).
pub const CIPHER_BLOCK: u64 = 16;
pub const DEFAULT_SECTOR_BLOCK_SIZE: u16 = 16384;

/// Big-endian bytes of a `u16`.
pub open spec fn spec_be_u16(v: u16) -> Seq<u8> {
    seq![(v / 0x100) as u8, (v % 0x100) as u8]
}

/// Big-endian bytes of a `u32`.
pub open spec fn spec_be_u32(v: u32) -> Seq<u8> {
    seq![
        (v / 0x1000000) as u8,
        ((v / 0x10000) % 0x100) as u8,
        ((v / 0x100) % 0x100) as u8,
        (v % 0x100) as u8,
    ]
}

/// Big-endian bytes of a `u64`.
pub open spec fn spec_be_u64(v: u64) -> Seq<u8> {
    seq![
        (v / 0x100000000000000) as u8,
        ((v / 0x1000000000000) % 0x100) as u8,
        ((v / 0x10000000000) % 0x100) as u8,
        ((v / 0x100000000) % 0x100) as u8,
        ((v / 0x1000000) % 0x100) as u8,
        ((v / 0x10000) % 0x100) as u8,
        ((v / 0x100) % 0x100) as u8,
        (v % 0x100) as u8,
    ]
}

fn push_be_u16(out: &mut Vec<u8>, v: u16)
    ensures
        final(out)@ == old(out)@ + spec_be_u16(v),
{
    out.push((v / 0x100) as u8);
    out.push((v % 0x100) as u8);
    assert(out@ =~= old(out)@ + spec_be_u16(v));
}

fn push_be_u32(out: &mut Vec<u8>, v: u32)
    ensures
        final(out)@ == old(out)@ + spec_be_u32(v),
{
    out.push((v / 0x1000000) as u8);
    out.push(((v / 0x10000) % 0x100) as u8);
    out.push(((v / 0x100) % 0x100) as u8);
    out.push((v % 0x100) as u8);
    assert(out@ =~= old(out)@ + spec_be_u32(v));
}

fn push_be_u64(out: &mut Vec<u8>, v: u64)
    ensures
        final(out)@ == old(out)@ + spec_be_u64(v),
{
    out.push((v / 0x100000000000000) as u8);
    out.push(((v / 0x1000000000000) % 0x100) as u8);
    out.push(((v / 0x10000000000) % 0x100) as u8);
    out.push(((v / 0x100000000) % 0x100) as u8);
    out.push(((v / 0x1000000) % 0x100) as u8);
    out.push(((v / 0x10000) % 0x100) as u8);
    out.push(((v / 0x100) % 0x100) as u8);
    out.push((v % 0x100) as u8);
    assert(out@ =~= old(out)@ + spec_be_u64(v));
}

/// Appends all of `src` to `dst`.
fn push_all(dst: &mut Vec<u8>, src: &[u8])
    ensures
        final(dst)@ == old(dst)@ + src@,
{
    let mut i: usize = 0;
    while i < src.len()
        invariant
            i <= src@.len(),
            dst@ == old(dst)@ + src@.subrange(0, i as int),
        decreases src.len() - i,
    {
        dst.push(src[i]);
        i = i + 1;
        assert(src@.subrange(0, i as int) =~= src@.subrange(0, i - 1).push(src@[i - 1]));
    }
    assert(src@.subrange(0, src@.len() as int) =~= src@);
}

/// A chunk of a sector: its id and the byte range of the chunk it holds.
pub type SectorChunk = (Vec<u8>, Range<u64>);

/// The header of a sector.
#[derive(Clone)]
pub struct SectorHeader {
    pub version: u32,
    pub flags: u32,
    pub block_size: u16,
    pub key: Option<Vec<u8>>,
    pub chunks: Vec<SectorChunk>,
    pub reserved: [u8; 12],
}

/// Key present only with its full length, chunk ids of digest length, ranges
/// not reversed.
pub open spec fn spec_header_wf(h: SectorHeader) -> bool {
    &&& (h.key matches Some(k) ==> k@.len() == SECTOR_KEY_SIZE)
    &&& forall|i: int|
        0 <= i < h.chunks@.len() ==> (#[trigger] h.chunks@[i]).0@.len() == CHUNK_ID_SIZE
            && h.chunks@[i].1.start <= h.chunks@[i].1.end
}

/// Length of the encoded header: magic, version, flags, block size, key,
/// chunk count, one entry (id and two offsets) per chunk, reserved bytes.
pub open spec fn spec_calc_length(h: SectorHeader) -> int {
    8 + 4 + 4 + 2 + (if h.key is Some { SECTOR_KEY_SIZE as int } else { 0 }) + 2 + 48
        * h.chunks@.len() + 12
}

pub open spec fn spec_key_bytes(k: Option<Vec<u8>>) -> Seq<u8> {
    match k {
        Some(k) => k@,
        None => Seq::empty(),
    }
}

/// The encoded chunk entries: id, then start and end, big-endian.
pub open spec fn spec_entries_bytes(chunks: Seq<SectorChunk>) -> Seq<u8>
    decreases chunks.len(),
{
    if chunks.len() == 0 {
        Seq::empty()
    } else {
        let e = chunks.last();
        spec_entries_bytes(chunks.drop_last()) + e.0@ + spec_be_u64(e.1.start) + spec_be_u64(
            e.1.end,
        )
    }
}

/// The encoded header.
#[verifier::opaque]
pub open spec fn spec_header_bytes(h: SectorHeader) -> Seq<u8> {
    spec_be_u64(SECTOR_MAGIC) + spec_be_u32(h.version) + spec_be_u32(h.flags) + spec_be_u16(
        h.block_size,
    ) + spec_key_bytes(h.key) + spec_be_u16(h.chunks@.len() as u16) + spec_entries_bytes(
        h.chunks@,
    ) + h.reserved@
}

/// What the sector id is computed from: the key, then every chunk entry.
pub open spec fn spec_id_material(h: SectorHeader) -> Seq<u8> {
    spec_key_bytes(h.key) + spec_entries_bytes(h.chunks@)
}

proof fn lemma_entries_len(chunks: Seq<SectorChunk>)
    requires
        forall|i: int| 0 <= i < chunks.len() ==> (#[trigger] chunks[i]).0@.len() == CHUNK_ID_SIZE,
    ensures
        spec_entries_bytes(chunks).len() == 48 * chunks.len(),
    decreases chunks.len(),
{
    if chunks.len() > 0 {
        assert(chunks[chunks.len() - 1].0@.len() == CHUNK_ID_SIZE);
        lemma_entries_len(chunks.drop_last());
    }
}

/// The encoded header is exactly as long as the header length says, and that
/// length is a whole number of cipher blocks.
pub proof fn law_header_length(h: SectorHeader)
    requires
        spec_header_wf(h),
    ensures
        spec_header_bytes(h).len() == spec_calc_length(h),
        spec_calc_length(h) % 16 == 0,
{
    reveal(spec_header_bytes);
    lemma_entries_len(h.chunks@);
}

impl SectorHeader {
    /// The default header: version 0, default flags, 16 KiB blocks, no key,
    /// no chunks.
    pub fn default_header() -> (h: SectorHeader)
        ensures
            h.version == SECTOR_VERSION_0,
            h.flags == SECTOR_FLAGS_DEFAULT,
            h.block_size == DEFAULT_SECTOR_BLOCK_SIZE,
            h.key is None,
            h.chunks@.len() == 0,
            h.reserved@ == Seq::new(12, |i: int| 0u8),
            spec_header_wf(h),
    {
        let h = SectorHeader {
            version: SECTOR_VERSION_0,
            flags: SECTOR_FLAGS_DEFAULT,
            block_size: DEFAULT_SECTOR_BLOCK_SIZE,
            key: None,
            chunks: Vec::new(),
            reserved: [0u8; 12],
        };
        assert(h.reserved@ =~= Seq::new(12, |i: int| 0u8));
        h
    }

    /// Length of the encoded header.
    pub fn calc_length(&self) -> (n: u64)
        requires
            spec_calc_length(*self) <= u64::MAX,
        ensures
            n == spec_calc_length(*self),
    {
        let key_len: u64 = if self.key.is_some() {
            32
        } else {
            0
        };
        let n: u64 = self.chunks.len() as u64;
        8 + 4 + 4 + 2 + key_len + 2 + 48 * n + 12
    }

    /// The encoded header.
    pub fn encrypt_to_vec(&self) -> (out: Vec<u8>)
        ensures
            out@ == spec_header_bytes(*self),
            spec_header_wf(*self) ==> out@.len() == spec_calc_length(*self),
    {
        let mut result: Vec<u8> = Vec::new();
        push_be_u64(&mut result, SECTOR_MAGIC);
        push_be_u32(&mut result, self.version);
        push_be_u32(&mut result, self.flags);
        push_be_u16(&mut result, self.block_size);
        match &self.key {
            Some(key) => push_all(&mut result, key.as_slice()),
            None => {},
        }
        assert(result@ =~= spec_be_u64(SECTOR_MAGIC) + spec_be_u32(self.version) + spec_be_u32(
            self.flags,
        ) + spec_be_u16(self.block_size) + spec_key_bytes(self.key));
        #[verifier::truncate]
        let count: u16 = self.chunks.len() as u16;
        push_be_u16(&mut result, count);
        let ghost before = result@;
        let mut i: usize = 0;
        while i < self.chunks.len()
            invariant
                i <= self.chunks@.len(),
                result@ == before + spec_entries_bytes(self.chunks@.take(i as int)),
            decreases self.chunks.len() - i,
        {
            let entry = &self.chunks[i];
            push_all(&mut result, entry.0.as_slice());
            push_be_u64(&mut result, entry.1.start);
            push_be_u64(&mut result, entry.1.end);
            proof {
                assert(self.chunks@.take(i + 1).drop_last() =~= self.chunks@.take(i as int));
            }
            i = i + 1;
        }
        assert(self.chunks@.take(self.chunks@.len() as int) =~= self.chunks@);
        push_all(&mut result, &self.reserved);
        proof {
            reveal(spec_header_bytes);
        }
        proof {
            if spec_header_wf(*self) {
                law_header_length(*self);
            }
        }
        result
    }
}

/// Number of chunk bytes a list of chunk ranges covers.
pub open spec fn spec_body_length(chunks: Seq<SectorChunk>) -> int
    decreases chunks.len(),
{
    if chunks.len() == 0 {
        0
    } else {
        spec_body_length(chunks.drop_last()) + (chunks.last().1.end - chunks.last().1.start)
    }
}

/// Rounds up to a whole number of cipher blocks.
pub open spec fn spec_round_up_16(x: int) -> int {
    if x % 16 != 0 {
        x / 16 * 16 + 16
    } else {
        x
    }
}

/// Ranges not reversed.
pub open spec fn spec_ranges_ok(chunks: Seq<SectorChunk>) -> bool {
    forall|i: int| 0 <= i < chunks.len() ==> (#[trigger] chunks[i]).1.start <= chunks[i].1.end
}

/// Where chunk `i` starts, counted from the end of the header.
pub open spec fn spec_chunk_start(chunks: Seq<SectorChunk>, i: int) -> int {
    spec_body_length(chunks.take(i))
}

pub proof fn lemma_body_length_push(chunks: Seq<SectorChunk>, e: SectorChunk)
    ensures
        spec_body_length(chunks.push(e)) == spec_body_length(chunks) + (e.1.end - e.1.start),
{
    assert(chunks.push(e).drop_last() =~= chunks);
}

pub proof fn lemma_body_length_take_step(chunks: Seq<SectorChunk>, i: int)
    requires
        0 <= i < chunks.len(),
    ensures
        spec_body_length(chunks.take(i + 1)) == spec_body_length(chunks.take(i)) + (
        chunks[i].1.end - chunks[i].1.start),
{
    assert(chunks.take(i + 1).drop_last() =~= chunks.take(i));
}

pub proof fn lemma_body_length_nonneg(chunks: Seq<SectorChunk>)
    requires
        spec_ranges_ok(chunks),
    ensures
        spec_body_length(chunks) >= 0,
    decreases chunks.len(),
{
    if chunks.len() > 0 {
        assert(chunks[chunks.len() - 1].1.start <= chunks[chunks.len() - 1].1.end);
        lemma_body_length_nonneg(chunks.drop_last());
    }
}

/// A prefix of the chunks covers no more bytes than all of them.
pub proof fn lemma_body_length_prefix(chunks: Seq<SectorChunk>, i: int)
    requires
        spec_ranges_ok(chunks),
        0 <= i <= chunks.len(),
    ensures
        0 <= spec_body_length(chunks.take(i)) <= spec_body_length(chunks),
    decreases chunks.len(),
{
    if i == chunks.len() {
        assert(chunks.take(i) =~= chunks);
        lemma_body_length_nonneg(chunks);
    } else {
        let d = chunks.drop_last();
        assert(chunks[chunks.len() - 1].1.start <= chunks[chunks.len() - 1].1.end);
        assert(d.take(i) =~= chunks.take(i));
        lemma_body_length_prefix(d, i);
    }
}

/// A chunk ends no later than the body does.
pub proof fn lemma_chunk_end_within_body(chunks: Seq<SectorChunk>, i: int)
    requires
        spec_ranges_ok(chunks),
        0 <= i < chunks.len(),
    ensures
        0 <= spec_chunk_start(chunks, i),
        spec_chunk_start(chunks, i) + (chunks[i].1.end - chunks[i].1.start) <= spec_body_length(
            chunks,
        ),
{
    lemma_body_length_take_step(chunks, i);
    lemma_body_length_prefix(chunks, i);
    lemma_body_length_prefix(chunks, i + 1);
}

/// Whether a sector offset falls on chunk `i` by the test of
/// [`SectorMeta::chunk_on_offset`]: the offset past the header is at or after
/// the chunk's start, and the offset is before the chunk's start plus its
/// length.
pub open spec fn spec_hits_chunk(chunks: Seq<SectorChunk>, header_length: int, offset: int, i: int) -> bool {
    let start = spec_chunk_start(chunks, i);
    offset - header_length >= start && offset < start + (chunks[i].1.end - chunks[i].1.start)
}

/// No chunk is hit at `offset`.
pub open spec fn spec_no_chunk_at(chunks: Seq<SectorChunk>, header_length: int, offset: int) -> bool {
    forall|j: int| 0 <= j < chunks.len() ==> !#[trigger] spec_hits_chunk(chunks, header_length, offset, j)
}

/// Chunk `i` is the first with id `id`.
pub open spec fn spec_first_with_id(chunks: Seq<SectorChunk>, id: Seq<u8>, i: int) -> bool {
    &&& chunks[i].0@ == id
    &&& forall|j: int| 0 <= j < i ==> #[trigger] chunks[j].0@ != id
}

/// Whether two byte slices are equal.
pub fn bytes_eq(a: &[u8], b: &[u8]) -> (r: bool)
    ensures
        r == (a@ == b@),
{
    if a.len() != b.len() {
        return false;
    }
    let mut i: usize = 0;
    while i < a.len()
        invariant
            a@.len() == b@.len(),
            i <= a@.len(),
            forall|k: int| 0 <= k < i ==> a@[k] == b@[k],
        decreases a.len() - i,
    {
        if a[i] != b[i] {
            return false;
        }
        i = i + 1;
    }
    assert(a@ =~= b@);
    true
}

/// The chunk found at a sector offset.
pub struct ChunkOnOffset {
    pub chunk_index: usize,
    pub range_in_sector: Range<u64>,
    pub range_in_chunk: Range<u64>,
}

/// A sector's layout: its header, id and lengths.
#[derive(Clone)]
pub struct SectorMeta {
    header: SectorHeader,
    id: Vec<u8>,
    header_length: u64,
    body_length: u64,
    sector_length: u64,
}

impl SectorMeta {
    pub closed spec fn header_view(&self) -> SectorHeader {
        self.header
    }

    pub closed spec fn id_view(&self) -> Seq<u8> {
        self.id@
    }

    pub closed spec fn header_length_view(&self) -> u64 {
        self.header_length
    }

    pub closed spec fn body_length_view(&self) -> u64 {
        self.body_length
    }

    pub closed spec fn sector_length_view(&self) -> u64 {
        self.sector_length
    }

    /// The lengths and the id follow from the header.
    pub open spec fn wf(&self) -> bool {
        let h = self.header_view();
        &&& spec_header_wf(h)
        &&& spec_calc_length(h) + spec_body_length(h.chunks@) + 15 <= u64::MAX
        &&& self.header_length_view() == spec_calc_length(h)
        &&& self.body_length_view() == spec_body_length(h.chunks@)
        &&& self.sector_length_view() == spec_round_up_16(
            self.header_length_view() + self.body_length_view(),
        )
        &&& self.id_view() == sha256(spec_id_material(h))
    }

    /// Lays out a sector for `header`: the header length, the body length
    /// (the sum of the chunk ranges), the sector length (rounded up to whole
    /// cipher blocks) and the sector id (SHA-256 of the key and the chunk
    /// entries).
    pub fn new(header: SectorHeader) -> (m: SectorMeta)
        requires
            spec_header_wf(header),
            spec_calc_length(header) + spec_body_length(header.chunks@) + 15 <= u64::MAX,
        ensures
            m.wf(),
            m.header_view() == header,
    {
        proof {
            lemma_body_length_nonneg(header.chunks@);
            law_header_length(header);
        }
        let header_length = header.calc_length();
        let mut body_length: u64 = 0;
        let mut i: usize = 0;
        while i < header.chunks.len()
            invariant
                spec_header_wf(header),
                spec_calc_length(header) + spec_body_length(header.chunks@) + 15 <= u64::MAX,
                i <= header.chunks@.len(),
                body_length == spec_body_length(header.chunks@.take(i as int)),
            decreases header.chunks.len() - i,
        {
            proof {
                assert(spec_ranges_ok(header.chunks@));
                lemma_body_length_take_step(header.chunks@, i as int);
                lemma_body_length_prefix(header.chunks@, i + 1);
            }
            let r = &header.chunks[i].1;
            body_length = body_length + (r.end - r.start);
            i = i + 1;
        }
        assert(header.chunks@.take(header.chunks@.len() as int) =~= header.chunks@);
        let total = header_length + body_length;
        let sector_length = if total % CIPHER_BLOCK != 0 {
            total / CIPHER_BLOCK * CIPHER_BLOCK + CIPHER_BLOCK
        } else {
            total
        };
        let mut material: Vec<u8> = Vec::new();
        match &header.key {
            Some(key) => push_all(&mut material, key.as_slice()),
            None => {},
        }
        let ghost before = material@;
        let mut j: usize = 0;
        while j < header.chunks.len()
            invariant
                j <= header.chunks@.len(),
                material@ == before + spec_entries_bytes(header.chunks@.take(j as int)),
            decreases header.chunks.len() - j,
        {
            let entry = &header.chunks[j];
            push_all(&mut material, entry.0.as_slice());
            push_be_u64(&mut material, entry.1.start);
            push_be_u64(&mut material, entry.1.end);
            proof {
                assert(header.chunks@.take(j + 1).drop_last() =~= header.chunks@.take(j as int));
            }
            j = j + 1;
        }
        assert(header.chunks@.take(header.chunks@.len() as int) =~= header.chunks@);
        assert(material@ =~= spec_id_material(header));
        let id = sha256_digest(material.as_slice());
        SectorMeta { header, id, header_length, body_length, sector_length }
    }

    pub fn header(&self) -> (h: &SectorHeader)
        ensures
            *h == self.header_view(),
    {
        &self.header
    }

    /// The sector id (a SHA-256 digest).
    pub fn sector_id(&self) -> (id: &Vec<u8>)
        ensures
            id@ == self.id_view(),
    {
        &self.id
    }

    pub fn sector_length(&self) -> (n: u64)
        ensures
            n == self.sector_length_view(),
    {
        self.sector_length
    }

    pub fn header_length(&self) -> (n: u64)
        ensures
            n == self.header_length_view(),
    {
        self.header_length
    }

    pub fn body_length(&self) -> (n: u64)
        ensures
            n == self.body_length_view(),
    {
        self.body_length
    }

    /// Finds the chunk that holds sector offset `offset`.
    ///
    /// Chunk `i` is taken when the offset past the header is at or after the
    /// chunk's start and `offset` itself is before the chunk's start plus its
    /// length (the first chunk for which both hold).
    pub fn chunk_on_offset(&self, offset: u64) -> (r: Option<ChunkOnOffset>)
        requires
            self.wf(),
            offset >= self.header_length_view(),
        ensures
            ({
                let h = self.header_view();
                let hl = self.header_length_view() as int;
                match r {
                    Some(c) => {
                        &&& c.chunk_index < h.chunks@.len()
                        &&& spec_hits_chunk(h.chunks@, hl, offset as int, c.chunk_index as int)
                        &&& forall|j: int|
                            0 <= j < c.chunk_index ==> !spec_hits_chunk(
                                h.chunks@,
                                hl,
                                offset as int,
                                j,
                            )
                        &&& c.range_in_chunk == h.chunks@[c.chunk_index as int].1
                        &&& c.range_in_sector.start == hl + spec_chunk_start(
                            h.chunks@,
                            c.chunk_index as int,
                        )
                        &&& c.range_in_sector.end == (if c.chunk_index == h.chunks@.len() - 1 {
                            self.sector_length_view() as int
                        } else {
                            hl + spec_chunk_start(h.chunks@, c.chunk_index as int) + (
                            h.chunks@[c.chunk_index as int].1.end - h.chunks@[c.chunk_index as int].1.start)
                        })
                    },
                    None => spec_no_chunk_at(h.chunks@, hl, offset as int),
                }
            }),
    {
        let ghost chunks = self.header.chunks@;
        proof {
            assert(spec_ranges_ok(chunks));
        }
        let offset_in_chunks = offset - self.header_length;
        let mut start: u64 = 0;
        let n = self.header.chunks.len();
        let mut i: usize = 0;
        while i < n
            invariant
                self.wf(),
                chunks == self.header_view().chunks@,
                n == chunks.len(),
                i <= n,
                start == spec_chunk_start(chunks, i as int),
                offset_in_chunks == offset - self.header_length_view(),
                forall|j: int|
                    0 <= j < i ==> !spec_hits_chunk(
                        chunks,
                        self.header_length_view() as int,
                        offset as int,
                        j,
                    ),
            decreases n - i,
        {
            let range = &self.header.chunks[i].1;
            proof {
                assert(spec_ranges_ok(chunks));
                lemma_chunk_end_within_body(chunks, i as int);
                lemma_body_length_take_step(chunks, i as int);
            }
            let end_in_chunks = start + (range.end - range.start);
            if offset_in_chunks >= start && offset < end_in_chunks {
                if i == n - 1 {
                    return Some(
                        ChunkOnOffset {
                            chunk_index: i,
                            range_in_sector: (self.header_length + start)..self.sector_length,
                            range_in_chunk: range.start..range.end,
                        },
                    );
                } else {
                    return Some(
                        ChunkOnOffset {
                            chunk_index: i,
                            range_in_sector: (self.header_length + start)..(self.header_length
                                + end_in_chunks),
                            range_in_chunk: range.start..range.end,
                        },
                    );
                }
            }
            start = end_in_chunks;
            i = i + 1;
        }
        None
    }

    /// The sector offset of the first chunk with id `chunk_id`, and the range
    /// of that chunk the sector holds.
    pub fn offset_of_chunk(&self, chunk_id: &[u8]) -> (r: Option<(u64, Range<u64>)>)
        requires
            self.wf(),
        ensures
            ({
                let h = self.header_view();
                match r {
                    Some(p) => exists|i: int|
                        0 <= i < h.chunks@.len() && spec_first_with_id(h.chunks@, chunk_id@, i)
                            && p.0 == self.header_length_view() + spec_chunk_start(h.chunks@, i)
                            && p.1 == h.chunks@[i].1,
                    None => forall|i: int|
                        0 <= i < h.chunks@.len() ==> #[trigger] h.chunks@[i].0@ != chunk_id@,
                }
            }),
    {
        let ghost chunks = self.header.chunks@;
        proof {
            assert(spec_ranges_ok(chunks));
        }
        let n = self.header.chunks.len();
        let mut start: u64 = 0;
        let mut i: usize = 0;
        while i < n
            invariant
                self.wf(),
                chunks == self.header_view().chunks@,
                n == chunks.len(),
                i <= n,
                start == spec_chunk_start(chunks, i as int),
                forall|j: int| 0 <= j < i ==> #[trigger] chunks[j].0@ != chunk_id@,
            decreases n - i,
        {
            let entry = &self.header.chunks[i];
            proof {
                assert(spec_ranges_ok(chunks));
                lemma_chunk_end_within_body(chunks, i as int);
                lemma_body_length_take_step(chunks, i as int);
            }
            if bytes_eq(entry.0.as_slice(), chunk_id) {
                let r = entry.1.start..entry.1.end;
                assert(spec_first_with_id(chunks, chunk_id@, i as int));
                return Some((self.header_length + start, r));
            }
            start = start + (entry.1.end - entry.1.start);
            i = i + 1;
        }
        None
    }
}

/// A laid-out sector holds its header and its body and ends on a cipher
/// block: its length is the first multiple of 16 at or after the header
/// length plus the body length. Sectors laid out for the same header have
/// the same id and the same lengths.
pub proof fn law_sector_layout(m: SectorMeta, n: SectorMeta)
    requires
        m.wf(),
        n.wf(),
    ensures
        m.sector_length_view() % 16 == 0,
        m.header_length_view() + m.body_length_view() <= m.sector_length_view(),
        m.sector_length_view() < m.header_length_view() + m.body_length_view() + 16,
        m.header_view() == n.header_view() ==> m.id_view() == n.id_view()
            && m.header_length_view() == n.header_length_view() && m.body_length_view()
            == n.body_length_view() && m.sector_length_view() == n.sector_length_view(),
{
    let x = m.header_length_view() + m.body_length_view();
    assert(x % 16 != 0 ==> x / 16 * 16 + 16 > x && x / 16 * 16 + 16 <= x + 15 && (x / 16 * 16
        + 16) % 16 == 0) by (nonlinear_arith)
        requires
            x >= 0,
    ;
}

/// Collects chunk ranges into a sector, up to a length limit.
pub struct SectorBuilder {
    length_limit: u64,
    length: u64,
    header: SectorHeader,
}

impl SectorBuilder {
    pub closed spec fn length_view(&self) -> u64 {
        self.length
    }

    pub closed spec fn length_limit_view(&self) -> u64 {
        self.length_limit
    }

    pub closed spec fn header_view(&self) -> SectorHeader {
        self.header
    }

    /// The length is what the chunks cover, and stays within the limit.
    pub open spec fn wf(&self) -> bool {
        &&& spec_header_wf(self.header_view())
        &&& self.length_view() == spec_body_length(self.header_view().chunks@)
        &&& self.length_view() <= self.length_limit_view()
    }

    /// An empty builder: default header, no limit.
    pub fn new() -> (b: SectorBuilder)
        ensures
            b.wf(),
            b.length_limit_view() == u64::MAX,
            b.length_view() == 0,
            b.header_view().version == SECTOR_VERSION_0,
            b.header_view().flags == SECTOR_FLAGS_DEFAULT,
            b.header_view().block_size == DEFAULT_SECTOR_BLOCK_SIZE,
            b.header_view().key is None,
            b.header_view().chunks@.len() == 0,
            b.header_view().reserved@ == Seq::new(12, |i: int| 0u8),
    {
        SectorBuilder { length_limit: u64::MAX, length: 0, header: SectorHeader::default_header() }
    }

    pub fn length(&self) -> (n: u64)
        ensures
            n == self.length_view(),
    {
        self.length
    }

    pub fn length_limit(&self) -> (n: u64)
        ensures
            n == self.length_limit_view(),
    {
        self.length_limit
    }

    /// Sets the key to the first 32 bytes of `key`.
    pub fn with_key(self, key: Vec<u8>) -> (b: SectorBuilder)
        requires
            self.wf(),
            key@.len() >= SECTOR_KEY_SIZE,
        ensures
            b.wf(),
            b.length_view() == self.length_view(),
            b.length_limit_view() == self.length_limit_view(),
            b.header_view() == (SectorHeader {
                key: b.header_view().key,
                ..self.header_view()
            }),
            b.header_view().key matches Some(k) && k@ == key@.subrange(0, 32),
    {
        let mut b = self;
        let mut k: Vec<u8> = Vec::new();
        let mut i: usize = 0;
        while i < SECTOR_KEY_SIZE
            invariant
                i <= SECTOR_KEY_SIZE <= key@.len(),
                k@ == key@.subrange(0, i as int),
            decreases SECTOR_KEY_SIZE - i,
        {
            k.push(key[i]);
            i = i + 1;
            assert(k@ =~= key@.subrange(0, i as int));
        }
        b.header.key = Some(k);
        b
    }

    /// Sets the length limit; only before any chunk is added.
    pub fn with_length_limit(self, length_limit: u64) -> (b: SectorBuilder)
        requires
            self.wf(),
            self.header_view().chunks@.len() == 0,
        ensures
            b.wf(),
            b.length_limit_view() == length_limit,
            b.length_view() == self.length_view(),
            b.header_view() == self.header_view(),
    {
        let mut b = self;
        b.length_limit = length_limit;
        b
    }

    pub fn with_block_size(self, block_size: u16) -> (b: SectorBuilder)
        requires
            self.wf(),
        ensures
            b.wf(),
            b.length_view() == self.length_view(),
            b.length_limit_view() == self.length_limit_view(),
            b.header_view() == (SectorHeader { block_size, ..self.header_view() }),
    {
        let mut b = self;
        b.header.block_size = block_size;
        b
    }

    /// Adds as much of `range` of chunk `chunk_id` as the limit leaves room
    /// for, and returns how many bytes were added. Nothing is added once the
    /// limit is reached.
    pub fn add_chunk(&mut self, chunk_id: Vec<u8>, range: Range<u64>) -> (added: u64)
        requires
            old(self).wf(),
            chunk_id@.len() == CHUNK_ID_SIZE,
            range.start <= range.end,
        ensures
            final(self).wf(),
            final(self).length_limit_view() == old(self).length_limit_view(),
            old(self).length_view() >= old(self).length_limit_view() ==> added == 0
                && *final(self) == *old(self),
            old(self).length_view() < old(self).length_limit_view() ==> {
                &&& added == spec_added_length(
                    old(self).length_view() as int,
                    old(self).length_limit_view() as int,
                    range.end - range.start,
                )
                &&& final(self).length_view() == old(self).length_view() + added
                &&& final(self).header_view() == (SectorHeader {
                    chunks: final(self).header_view().chunks,
                    ..old(self).header_view()
                })
                &&& final(self).header_view().chunks@ == old(self).header_view().chunks@.push(
                    (chunk_id, range.start..(range.start + added) as u64),
                )
            },
    {
        if self.length >= self.length_limit {
            return 0;
        }
        let full = range.end - range.start;
        let room = self.length_limit - self.length;
        let length = if full > room {
            room
        } else {
            full
        };
        proof {
            lemma_body_length_push(
                self.header.chunks@,
                (chunk_id, range.start..(range.start + length) as u64),
            );
        }
        self.length = self.length + length;
        self.header.chunks.push((chunk_id, range.start..(range.start + length)));
        proof {
            let cs = self.header.chunks@;
            assert(forall|i: int|
                0 <= i < cs.len() ==> (#[trigger] cs[i]).0@.len() == CHUNK_ID_SIZE && cs[i].1.start
                    <= cs[i].1.end) by {
                assert forall|i: int| 0 <= i < cs.len() implies (#[trigger] cs[i]).0@.len()
                    == CHUNK_ID_SIZE && cs[i].1.start <= cs[i].1.end by {
                    if i < cs.len() - 1 {
                        assert(cs[i] == old(self).header.chunks@[i]);
                    }
                }
            }
        }
        length
    }

    /// The layout of the collected sector.
    pub fn build(self) -> (m: SectorMeta)
        requires
            self.wf(),
            spec_calc_length(self.header_view()) + self.length_view() + 15 <= u64::MAX,
        ensures
            m.wf(),
            m.header_view() == self.header_view(),
    {
        SectorMeta::new(self.header)
    }
}

/// How many bytes of a range of `len` bytes fit when `length` of
/// `limit` are used.
pub open spec fn spec_added_length(length: int, limit: int, len: int) -> int {
    if length + len > limit {
        limit - length
    } else {
        len
    }
}

} // verus!
