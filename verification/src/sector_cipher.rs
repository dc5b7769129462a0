//! Encryption of a sector body in chains.
//!
//! The body (the chunk bytes, zero-padded to whole cipher blocks) is
//! encrypted with AES-256-CBC. A chain starts where the
//! body starts and again at every 16-byte step whose sector offset is a
//! multiple of the sector's block size, so that reading can resume at such an
//! offset. Each chain starts from the IV that `SectorMeta::iv_on_offset`
//! gives for its offset: sixteen zero bytes.

use vstd::prelude::*;
use std::ops::Range;
use crate::crypto::{aes256_cbc_decrypt, aes256_cbc_encrypt, cbc_decrypt, cbc_encrypt};
use crate::sector::{CIPHER_BLOCK as CIPHER_BLOCK_LEN, SectorChunk, SectorMeta, spec_header_bytes, spec_body_length, spec_round_up_16, spec_chunk_start, spec_ranges_ok, spec_hits_chunk, spec_first_with_id, spec_no_chunk_at, law_header_length, lemma_chunk_end_within_body};

verus! {

/// Length of the chain that starts at sector offset `pos` when `remaining`
/// bytes are left: up to the next 16-byte step that lands on a multiple of
/// `bs`, or to the end.
pub open spec fn spec_segment_len(pos: int, remaining: int, bs: int) -> int
    decreases remaining,
{
    if remaining <= 16 {
        remaining
    } else if (pos + 16) % bs == 0 {
        16
    } else {
        16 + spec_segment_len(pos + 16, remaining - 16, bs)
    }
}

/// The IV that starts the cipher chain at sector offset `offset` of a
/// sector with a key: sixteen zero bytes, whatever the offset.
pub open spec fn spec_chain_iv(offset: int) -> Seq<u8> {
    Seq::new(16, |_i: int| 0u8)
}

/// One CBC pass over a chain, from the IV `iv`.
pub open spec fn spec_cbc_pass(encrypt: bool, key: Seq<u8>, iv: Seq<u8>, data: Seq<u8>) -> Seq<u8> {
    if encrypt {
        aes256_cbc_encrypt(key, iv, data)
    } else {
        aes256_cbc_decrypt(key, iv, data)
    }
}

/// `data`, which starts at sector offset `pos`, encrypted (or decrypted)
/// chain by chain.
pub open spec fn spec_segments(encrypt: bool, key: Seq<u8>, data: Seq<u8>, pos: int, bs: int) -> Seq<
    u8,
>
    decreases data.len(),
{
    if data.len() == 0 {
        Seq::empty()
    } else {
        let n = spec_segment_len(pos, data.len() as int, bs);
        if 0 < n <= data.len() {
            spec_cbc_pass(encrypt, key, spec_chain_iv(pos), data.take(n)) + spec_segments(
                encrypt,
                key,
                data.skip(n),
                pos + n,
                bs,
            )
        } else {
            Seq::empty()
        }
    }
}

/// Every chain of `data` keeps its length under encryption and is given back
/// by decryption.
pub open spec fn spec_segments_invertible(key: Seq<u8>, data: Seq<u8>, pos: int, bs: int) -> bool
    decreases data.len(),
{
    if data.len() == 0 {
        true
    } else {
        let n = spec_segment_len(pos, data.len() as int, bs);
        if 0 < n <= data.len() {
            let s = data.take(n);
            &&& aes256_cbc_encrypt(key, spec_chain_iv(pos), s).len() == s.len()
            &&& aes256_cbc_decrypt(key, spec_chain_iv(pos), aes256_cbc_encrypt(key, spec_chain_iv(pos), s)) == s
            &&& spec_segments_invertible(key, data.skip(n), pos + n, bs)
        } else {
            true
        }
    }
}

/// A chain is never empty and never longer than what is left; over whole
/// blocks it is whole blocks.
pub proof fn lemma_segment_len_bounds(pos: int, remaining: int, bs: int)
    requires
        remaining > 0,
    ensures
        0 < spec_segment_len(pos, remaining, bs) <= remaining,
        remaining % 16 == 0 ==> spec_segment_len(pos, remaining, bs) % 16 == 0,
    decreases remaining,
{
    if remaining > 16 && (pos + 16) % bs != 0 {
        lemma_segment_len_bounds(pos + 16, remaining - 16, bs);
    }
}

/// A chain stops at or before the next chain start `d` bytes on, and is the
/// same whether `r` or only `d` bytes are left.
proof fn lemma_segment_stops_at_reset(pos: int, r: int, d: int, bs: int)
    requires
        r % 16 == 0,
        d % 16 == 0,
        0 < d < r,
        (pos + d) % bs == 0,
    ensures
        spec_segment_len(pos, r, bs) <= d,
        spec_segment_len(pos, d, bs) == spec_segment_len(pos, r, bs),
    decreases r,
{
    if (pos + 16) % bs != 0 {
        assert(d != 16);
        lemma_segment_stops_at_reset(pos + 16, r - 16, d - 16, bs);
    }
}

/// Chain by chain, a pass over `data` is a pass over the part before a chain
/// start followed by a pass over the part from it.
pub proof fn lemma_segments_split(encrypt: bool, key: Seq<u8>, data: Seq<u8>, pos: int, d: int, bs: int)
    requires
        data.len() % 16 == 0,
        0 <= d <= data.len(),
        d % 16 == 0,
        d == 0 || (pos + d) % bs == 0,
    ensures
        spec_segments(encrypt, key, data, pos, bs) == spec_segments(
            encrypt,
            key,
            data.take(d),
            pos,
            bs,
        ) + spec_segments(encrypt, key, data.skip(d), pos + d, bs),
    decreases data.len(),
{
    if d == 0 {
        assert(data.take(0) =~= Seq::<u8>::empty());
        assert(data.skip(0) =~= data);
        assert(spec_segments(encrypt, key, data.take(d), pos, bs) =~= Seq::<u8>::empty());
        assert(Seq::<u8>::empty() + spec_segments(encrypt, key, data, pos, bs) =~= spec_segments(
            encrypt,
            key,
            data,
            pos,
            bs,
        ));
    } else if d == data.len() {
        assert(data.take(d) =~= data);
        assert(data.skip(d) =~= Seq::<u8>::empty());
        assert(spec_segments(encrypt, key, data, pos, bs) + Seq::<u8>::empty() =~= spec_segments(
            encrypt,
            key,
            data,
            pos,
            bs,
        ));
    } else {
        let len = data.len() as int;
        lemma_segment_len_bounds(pos, len, bs);
        lemma_segment_stops_at_reset(pos, len, d, bs);
        let n = spec_segment_len(pos, len, bs);
        let t = data.take(d);
        lemma_segment_len_bounds(pos, d, bs);
        assert(t.take(n) =~= data.take(n));
        assert(t.skip(n) =~= data.skip(n).take(d - n));
        assert(data.skip(n).skip(d - n) =~= data.skip(d));
        lemma_segments_split(encrypt, key, data.skip(n), pos + n, d - n, bs);
    }
}

/// Invertibility splits the same way.
pub proof fn lemma_invertible_split(key: Seq<u8>, data: Seq<u8>, pos: int, d: int, bs: int)
    requires
        data.len() % 16 == 0,
        0 <= d <= data.len(),
        d % 16 == 0,
        d == 0 || (pos + d) % bs == 0,
        spec_segments_invertible(key, data, pos, bs),
    ensures
        spec_segments_invertible(key, data.take(d), pos, bs),
        spec_segments_invertible(key, data.skip(d), pos + d, bs),
    decreases data.len(),
{
    if d == 0 {
        assert(data.take(0) =~= Seq::<u8>::empty());
        assert(data.skip(0) =~= data);
    } else if d == data.len() {
        assert(data.take(d) =~= data);
        assert(data.skip(d) =~= Seq::<u8>::empty());
    } else {
        let len = data.len() as int;
        lemma_segment_len_bounds(pos, len, bs);
        lemma_segment_stops_at_reset(pos, len, d, bs);
        let n = spec_segment_len(pos, len, bs);
        let t = data.take(d);
        lemma_segment_len_bounds(pos, d, bs);
        assert(t.take(n) =~= data.take(n));
        assert(t.skip(n) =~= data.skip(n).take(d - n));
        assert(data.skip(n).skip(d - n) =~= data.skip(d));
        lemma_invertible_split(key, data.skip(n), pos + n, d - n, bs);
    }
}

/// Decrypting the chains of an encryption gives the plaintext back, and
/// encryption keeps the length.
pub proof fn lemma_segments_roundtrip(key: Seq<u8>, data: Seq<u8>, pos: int, bs: int)
    requires
        spec_segments_invertible(key, data, pos, bs),
    ensures
        spec_segments(true, key, data, pos, bs).len() == data.len(),
        spec_segments(false, key, spec_segments(true, key, data, pos, bs), pos, bs) == data,
    decreases data.len(),
{
    if data.len() > 0 {
        let len = data.len() as int;
        lemma_segment_len_bounds(pos, len, bs);
        let n = spec_segment_len(pos, len, bs);
        let s = data.take(n);
        let rest = data.skip(n);
        lemma_segments_roundtrip(key, rest, pos + n, bs);
        let e = aes256_cbc_encrypt(key, spec_chain_iv(pos), s);
        let c = spec_segments(true, key, data, pos, bs);
        let c_rest = spec_segments(true, key, rest, pos + n, bs);
        assert(c == e + c_rest);
        assert(c.take(n) =~= e);
        assert(c.skip(n) =~= c_rest);
        assert(s + rest =~= data);
    }
}

/// Length of the chain starting at sector offset `pos`.
fn segment_len(pos: u64, remaining: u64, bs: u64) -> (n: u64)
    requires
        bs > 0,
        pos + remaining <= u64::MAX,
    ensures
        n == spec_segment_len(pos as int, remaining as int, bs as int),
{
    let mut n: u64 = 0;
    while n < remaining
        invariant
            bs > 0,
            pos + remaining <= u64::MAX,
            n <= remaining,
            spec_segment_len(pos as int, remaining as int, bs as int) == n + spec_segment_len(
                pos + n,
                remaining - n,
                bs as int,
            ),
        decreases remaining - n,
    {
        let rem = remaining - n;
        if rem <= 16 {
            return remaining;
        }
        if (pos + n + 16) % bs == 0 {
            return n + 16;
        }
        n = n + 16;
    }
    n
}

/// Copies `src[start..end]`.
pub fn copy_range(src: &[u8], start: usize, end: usize) -> (out: Vec<u8>)
    requires
        start <= end <= src@.len(),
    ensures
        out@ == src@.subrange(start as int, end as int),
{
    let mut out: Vec<u8> = Vec::new();
    let mut i = start;
    while i < end
        invariant
            start <= i <= end <= src@.len(),
            out@ == src@.subrange(start as int, i as int),
        decreases end - i,
    {
        out.push(src[i]);
        i = i + 1;
        assert(out@ =~= src@.subrange(start as int, i as int));
    }
    out
}

/// Appends all of `src` to `dst`.
pub fn append_bytes(dst: &mut Vec<u8>, src: &[u8])
    ensures
        final(dst)@ == old(dst)@ + src@,
{
    let mut i: usize = 0;
    while i < src.len()
        invariant
            i <= src@.len(),
            dst@ == old(dst)@ + src@.subrange(0, i as int),
        decreases src.len() - i,
    {
        dst.push(src[i]);
        i = i + 1;
        assert(dst@ =~= old(dst)@ + src@.subrange(0, i as int));
    }
    assert(src@.subrange(0, src@.len() as int) =~= src@);
}

/// One pass over `data`, which starts at sector offset `pos` of the sector
/// laid out by `meta`, chain by chain, each chain from the IV the sector
/// gives for its offset. On encryption it also establishes that every chain
/// can be decrypted back.
pub fn cbc_segments(meta: &SectorMeta, encrypt: bool, key: &[u8], data: &[u8], pos: u64, bs: u64) -> (out: Vec<u8>)
    requires
        meta.header_view().key matches Some(k) && k@ == key@,
        key@.len() == 32,
        data@.len() % 16 == 0,
        bs > 0,
        pos + data@.len() <= u64::MAX,
    ensures
        out@ == spec_segments(encrypt, key@, data@, pos as int, bs as int),
        out@.len() == data@.len(),
        encrypt ==> spec_segments_invertible(key@, data@, pos as int, bs as int),
{
    let mut out: Vec<u8> = Vec::new();
    let mut i: usize = 0;
    assert(data@.skip(0) =~= data@);
    assert(out@ + spec_segments(encrypt, key@, data@, pos as int, bs as int) =~= spec_segments(
        encrypt,
        key@,
        data@,
        pos as int,
        bs as int,
    ));
    while i < data.len()
        invariant
            meta.header_view().key is Some,
            key@.len() == 32,
            bs > 0,
            pos + data@.len() <= u64::MAX,
            i <= data@.len(),
            out@.len() == i,
            (data@.len() - i) % 16 == 0,
            spec_segments(encrypt, key@, data@, pos as int, bs as int) == out@ + spec_segments(
                encrypt,
                key@,
                data@.skip(i as int),
                pos + i,
                bs as int,
            ),
            encrypt ==> (spec_segments_invertible(key@, data@.skip(i as int), pos + i, bs as int)
                ==> spec_segments_invertible(key@, data@, pos as int, bs as int)),
        decreases data.len() - i,
    {
        let remaining = (data.len() - i) as u64;
        let n = segment_len(pos + i as u64, remaining, bs);
        proof {
            lemma_segment_len_bounds(pos + i, remaining as int, bs as int);
        }
        let nu = n as usize;
        let seg = copy_range(data, i, i + nu);
        let ghost rest = data@.skip(i as int);
        proof {
            assert(rest.take(n as int) =~= seg@);
            assert(rest.skip(n as int) =~= data@.skip(i + nu));
        }
        let iv = match meta.iv_on_offset(pos + i as u64) {
            Some(v) => v,
            None => {
                proof {
                    assert(false);
                }
                Vec::new()
            },
        };
        let done = if encrypt {
            cbc_encrypt(key, iv.as_slice(), seg.as_slice())
        } else {
            cbc_decrypt(key, iv.as_slice(), seg.as_slice())
        };
        let ghost out_before = out@;
        append_bytes(&mut out, done.as_slice());
        proof {
            assert(out_before + (done@ + spec_segments(
                encrypt,
                key@,
                data@.skip(i + nu),
                pos + i + nu,
                bs as int,
            )) =~= out@ + spec_segments(encrypt, key@, data@.skip(i + nu), pos + i + nu, bs as int));
        }
        i = i + nu;
    }
    assert(data@.skip(i as int) =~= Seq::<u8>::empty());
    assert(out@ + Seq::<u8>::empty() =~= out@);
    out
}

/// Why a sector could not be encrypted or read.
#[derive(PartialEq, Eq, Structural)]
pub enum SectorError {
    /// Fewer or more chunk contents than the header lists.
    ChunkNotFound,
    /// A chunk's contents end before the range the sector holds of it.
    ChunkTooShort,
    /// Writing resumed past the header at an offset that is not a multiple
    /// of the block size.
    InvalidOffset,
    /// No chunk is found at the offset where writing resumes.
    OffsetOutOfRange,
    /// Reading started inside the header.
    SeekToHeader,
    /// The stored sector is not as long as the layout says.
    LengthMismatch,
}

/// The chunk bytes of a sector, in header order.
pub open spec fn spec_chunk_body(chunks: Seq<SectorChunk>, datas: Seq<Vec<u8>>) -> Seq<u8>
    decreases chunks.len(),
{
    if chunks.len() == 0 {
        Seq::empty()
    } else {
        let i = chunks.len() - 1;
        spec_chunk_body(chunks.drop_last(), datas) + datas[i]@.subrange(
            chunks[i].1.start as int,
            chunks[i].1.end as int,
        )
    }
}

/// One content per chunk, each long enough for its range.
pub open spec fn spec_datas_fit(chunks: Seq<SectorChunk>, datas: Seq<Vec<u8>>) -> bool {
    &&& datas.len() == chunks.len()
    &&& forall|i: int| 0 <= i < chunks.len() ==> (#[trigger] chunks[i]).1.end <= datas[i]@.len()
}

/// The body: chunk bytes, then zeros up to the sector length.
pub open spec fn spec_padded_body(m: SectorMeta, datas: Seq<Vec<u8>>) -> Seq<u8> {
    spec_chunk_body(m.header_view().chunks@, datas) + Seq::new(
        (m.sector_length_view() - m.header_length_view() - m.body_length_view()) as nat,
        |i: int| 0u8,
    )
}

/// The body as stored: encrypted chain by chain when the sector has a key.
pub open spec fn spec_stored_body(m: SectorMeta, datas: Seq<Vec<u8>>) -> Seq<u8> {
    match m.header_view().key {
        Some(k) => spec_segments(
            true,
            k@,
            spec_padded_body(m, datas),
            m.header_length_view() as int,
            m.header_view().block_size as int,
        ),
        None => spec_padded_body(m, datas),
    }
}

/// The stored sector: the encoded header, then the stored body.
pub open spec fn spec_sector_image(m: SectorMeta, datas: Seq<Vec<u8>>) -> Seq<u8> {
    spec_header_bytes(m.header_view()) + spec_stored_body(m, datas)
}

/// What reading a stored sector from `offset` gives: reading starts at the
/// cipher block that holds `offset`, with a fresh chain, and runs to the end
/// of the sector.
pub open spec fn spec_decrypted_from(m: SectorMeta, sector: Seq<u8>, offset: int) -> Seq<u8> {
    let a = offset / 16 * 16;
    let data = sector.subrange(a, m.sector_length_view() as int);
    let plain = match m.header_view().key {
        Some(k) => spec_segments(false, k@, data, a, m.header_view().block_size as int),
        None => data,
    };
    plain.skip(offset - a)
}

/// Whether the sector offset `off` starts a chain of the stored body.
pub open spec fn spec_is_chain_start(m: SectorMeta, off: int) -> bool {
    &&& m.header_length_view() <= off
    &&& off % 16 == 0
    &&& (off == m.header_length_view() || off % (m.header_view().block_size as int) == 0)
}

proof fn lemma_chunk_body_len(chunks: Seq<SectorChunk>, datas: Seq<Vec<u8>>, k: int)
    requires
        spec_ranges_ok(chunks),
        spec_datas_fit(chunks, datas),
        0 <= k <= chunks.len(),
    ensures
        spec_chunk_body(chunks.take(k), datas).len() == spec_body_length(chunks.take(k)),
    decreases k,
{
    if k > 0 {
        let t = chunks.take(k);
        assert(t.drop_last() =~= chunks.take(k - 1));
        assert(chunks[k - 1].1.start <= chunks[k - 1].1.end);
        assert(chunks[k - 1].1.end <= datas[k - 1]@.len());
        lemma_chunk_body_len(chunks, datas, k - 1);
    }
}

/// The bytes of chunk `i` sit in the body where the chunk starts.
proof fn lemma_chunk_body_slice(chunks: Seq<SectorChunk>, datas: Seq<Vec<u8>>, i: int)
    requires
        spec_ranges_ok(chunks),
        spec_datas_fit(chunks, datas),
        0 <= i < chunks.len(),
    ensures
        spec_chunk_body(chunks, datas).subrange(
            spec_chunk_start(chunks, i),
            spec_chunk_start(chunks, i) + (chunks[i].1.end - chunks[i].1.start),
        ) == datas[i]@.subrange(chunks[i].1.start as int, chunks[i].1.end as int),
    decreases chunks.len(),
{
    let n = chunks.len() as int;
    let d = chunks.drop_last();
    assert(chunks.take(n) =~= chunks);
    assert(chunks.take(n - 1) =~= d);
    lemma_chunk_body_len(chunks, datas, n - 1);
    lemma_chunk_end_within_body(chunks, i);
    lemma_chunk_body_len(chunks, datas, n);
    if i < n - 1 {
        assert(spec_ranges_ok(d));
        assert(spec_datas_fit(d, datas.take(n - 1)));
        assert(forall|j: int| 0 <= j < n - 1 ==> d[j] == chunks[j]);
        assert(d.take(i) =~= chunks.take(i));
        assert(d.take(n - 1) =~= d);
        lemma_chunk_end_within_body(d, i);
        lemma_chunk_body_same_datas(d, datas, datas.take(n - 1));
        lemma_chunk_body_slice(d, datas.take(n - 1), i);
    } else {
        assert(spec_chunk_start(chunks, i) == spec_body_length(d));
    }
}

/// The body depends only on the contents of the chunks it lists.
proof fn lemma_chunk_body_same_datas(chunks: Seq<SectorChunk>, a: Seq<Vec<u8>>, b: Seq<Vec<u8>>)
    requires
        chunks.len() <= a.len(),
        chunks.len() <= b.len(),
        forall|j: int| 0 <= j < chunks.len() ==> a[j] == b[j],
    ensures
        spec_chunk_body(chunks, a) == spec_chunk_body(chunks, b),
    decreases chunks.len(),
{
    if chunks.len() > 0 {
        lemma_chunk_body_same_datas(chunks.drop_last(), a, b);
    }
}

/// Appends `count` zero bytes.
fn push_zeros(body: &mut Vec<u8>, count: u64)
    ensures
        final(body)@ == old(body)@ + Seq::new(count as nat, |j: int| 0u8),
{
    let mut p: u64 = 0;
    while p < count
        invariant
            p <= count,
            body@ == old(body)@ + Seq::new(p as nat, |j: int| 0u8),
        decreases count - p,
    {
        body.push(0u8);
        p = p + 1;
        assert(body@ =~= old(body)@ + Seq::new(p as nat, |j: int| 0u8));
    }
}

/// The chunk bytes, in order.
fn chunk_body(chunks: &Vec<SectorChunk>, datas: &Vec<Vec<u8>>) -> (body: Vec<u8>)
    requires
        spec_ranges_ok(chunks@),
        spec_datas_fit(chunks@, datas@),
    ensures
        body@ == spec_chunk_body(chunks@, datas@),
{
    let n = chunks.len();
    let mut body: Vec<u8> = Vec::new();
    let mut i: usize = 0;
    while i < n
        invariant
            n == chunks@.len(),
            spec_ranges_ok(chunks@),
            spec_datas_fit(chunks@, datas@),
            i <= n,
            body@ == spec_chunk_body(chunks@.take(i as int), datas@),
        decreases n - i,
    {
        let entry = &chunks[i];
        proof {
            assert(chunks@[i as int].1.start <= chunks@[i as int].1.end);
            assert(chunks@[i as int].1.end <= datas@[i as int]@.len());
            assert(chunks@.take(i + 1).drop_last() =~= chunks@.take(i as int));
        }
        let data = datas[i].as_slice();
        let dlen = data.len();
        assert(entry.1.end <= dlen);
        let start = entry.1.start as usize;
        let end = entry.1.end as usize;
        let part = copy_range(data, start, end);
        append_bytes(&mut body, part.as_slice());
        i = i + 1;
    }
    assert(chunks@.take(n as int) =~= chunks@);
    body
}

/// Checks that there is one content per chunk and that each is long enough
/// for its range.
fn check_datas(chunks: &Vec<SectorChunk>, datas: &Vec<Vec<u8>>) -> (r: Result<(), SectorError>)
    ensures
        r is Ok <==> spec_datas_fit(chunks@, datas@),
        r matches Err(e) ==> {
            &&& datas@.len() != chunks@.len() ==> e == SectorError::ChunkNotFound
            &&& datas@.len() == chunks@.len() ==> e == SectorError::ChunkTooShort
        },
{
    let n = chunks.len();
    if datas.len() != n {
        return Err(SectorError::ChunkNotFound);
    }
    let mut k: usize = 0;
    while k < n
        invariant
            n == chunks@.len(),
            datas@.len() == n,
            k <= n,
            forall|j: int| 0 <= j < k ==> (#[trigger] chunks@[j]).1.end <= datas@[j]@.len(),
        decreases n - k,
    {
        if chunks[k].1.end > datas[k].len() as u64 {
            assert(chunks@[k as int].1.end > datas@[k as int]@.len());
            return Err(SectorError::ChunkTooShort);
        }
        k = k + 1;
    }
    Ok(())
}

impl SectorMeta {
    /// The IV that starts the cipher chain at sector offset `offset`: none
    /// when the sector is stored in clear, otherwise sixteen zero bytes.
    pub fn iv_on_offset(&self, offset: u64) -> (r: Option<Vec<u8>>)
        ensures
            r is Some <==> self.header_view().key is Some,
            r matches Some(iv) ==> iv@ == spec_chain_iv(offset as int),
    {
        match &self.header().key {
            Some(_) => {
                let mut iv: Vec<u8> = Vec::new();
                push_zeros(&mut iv, 16);
                assert(iv@ =~= spec_chain_iv(offset as int));
                Some(iv)
            },
            None => None,
        }
    }

    /// The body: chunk bytes, zero-padded to the sector length.
    fn padded_body(&self, datas: &Vec<Vec<u8>>) -> (body: Vec<u8>)
        requires
            self.wf(),
            spec_datas_fit(self.header_view().chunks@, datas@),
        ensures
            body@ == spec_padded_body(*self, datas@),
            body@.len() == self.sector_length_view() - self.header_length_view(),
    {
        let ghost chunks = self.header_view().chunks@;
        proof {
            assert(spec_ranges_ok(chunks));
            assert(chunks.take(chunks.len() as int) =~= chunks);
            lemma_chunk_body_len(chunks, datas@, chunks.len() as int);
            crate::sector::lemma_body_length_nonneg(chunks);
        }
        let mut body = chunk_body(&self.header().chunks, datas);
        let pad = self.sector_length() - self.header_length() - self.body_length();
        push_zeros(&mut body, pad);
        body
    }

    /// The stored sector for the given chunk contents (one per chunk, in
    /// header order): the encoded header, then the chunk bytes zero-padded to
    /// whole cipher blocks, encrypted chain by chain when the sector has a
    /// key.
    pub fn encrypt_sector(&self, datas: &Vec<Vec<u8>>) -> (r: Result<Vec<u8>, SectorError>)
        requires
            self.wf(),
            self.header_view().block_size > 0,
        ensures
            match r {
                Ok(img) => {
                    &&& spec_datas_fit(self.header_view().chunks@, datas@)
                    &&& img@ == spec_sector_image(*self, datas@)
                    &&& img@.len() == self.sector_length_view()
                    &&& (self.header_view().key matches Some(k) ==> spec_segments_invertible(
                        k@,
                        spec_padded_body(*self, datas@),
                        self.header_length_view() as int,
                        self.header_view().block_size as int,
                    ))
                },
                Err(e) => {
                    &&& datas@.len() != self.header_view().chunks@.len() ==> e
                        == SectorError::ChunkNotFound
                    &&& datas@.len() == self.header_view().chunks@.len() ==> e
                        == SectorError::ChunkTooShort
                    &&& !spec_datas_fit(self.header_view().chunks@, datas@)
                },
            },
    {
        let header = self.header();
        match check_datas(&header.chunks, datas) {
            Err(e) => {
                return Err(e);
            },
            Ok(()) => {},
        }
        let mut img = header.encrypt_to_vec();
        let body = self.padded_body(datas);
        let ghost hdr = img@;
        proof {
            law_header_length(*header);
            assert(hdr.len() == self.header_length_view());
        }
        match &header.key {
            Some(key) => {
                let bs = header.block_size as u64;
                let enc = cbc_segments(self, true, key.as_slice(), body.as_slice(), self.header_length(), bs);
                append_bytes(&mut img, enc.as_slice());
                assert(enc@ == spec_stored_body(*self, datas@));
            },
            None => {
                append_bytes(&mut img, body.as_slice());
                assert(body@ == spec_stored_body(*self, datas@));
            },
        }
        assert(img@ == hdr + spec_stored_body(*self, datas@));
        Ok(img)
    }
}

/// The sector length is a whole number of cipher blocks, holds header and
/// body, and pads by less than a block.
pub proof fn lemma_round_up_16(x: int)
    requires
        x >= 0,
    ensures
        spec_round_up_16(x) % 16 == 0,
        x <= spec_round_up_16(x) < x + 16,
{
}

impl SectorMeta {
    /// Reads the stored sector from `offset` to its end. Reading starts at the
    /// cipher block that holds `offset`, with a fresh chain, and chains start
    /// again at every multiple of the block size; reading inside the header
    /// is refused.
    pub fn decrypt_sector_from(&self, sector: &[u8], offset: u64) -> (r: Result<Vec<u8>, SectorError>)
        requires
            self.wf(),
            self.header_view().block_size > 0,
        ensures
            offset < self.header_length_view() ==> r == Err::<Vec<u8>, SectorError>(
                SectorError::SeekToHeader,
            ),
            offset >= self.header_length_view() && sector@.len() != self.sector_length_view()
                ==> r == Err::<Vec<u8>, SectorError>(SectorError::LengthMismatch),
            offset >= self.header_length_view() && sector@.len() == self.sector_length_view()
                ==> (r matches Ok(v) && (if offset < self.sector_length_view() {
                v@ == spec_decrypted_from(*self, sector@, offset as int) && v@.len()
                    == self.sector_length_view() - offset
            } else {
                v@.len() == 0
            })),
    {
        let hl = self.header_length();
        let sl = self.sector_length();
        if offset < hl {
            return Err(SectorError::SeekToHeader);
        }
        if sector.len() as u64 != sl {
            return Err(SectorError::LengthMismatch);
        }
        if offset >= sl {
            return Ok(Vec::new());
        }
        proof {
            law_header_length(self.header_view());
            lemma_round_up_16(hl + self.body_length_view());
        }
        let a = offset / CIPHER_BLOCK_LEN * CIPHER_BLOCK_LEN;
        let data = copy_range(sector, a as usize, sl as usize);
        let plain = match &self.header().key {
            Some(key) => {
                let bs = self.header().block_size as u64;
                cbc_segments(self, false, key.as_slice(), data.as_slice(), a, bs)
            },
            None => data,
        };
        let skip = (offset - a) as usize;
        let out = copy_range(plain.as_slice(), skip, plain.len());
        assert(out@ =~= plain@.skip(offset - a));
        Ok(out)
    }

    /// Resumes writing the stored sector at `offset`: past the header the
    /// offset must be a multiple of the block size and fall on a chunk (by the
    /// test of [`SectorMeta::chunk_on_offset`]); the result is the stored
    /// sector from `offset` on.
    pub fn encrypt_sector_from(&self, datas: &Vec<Vec<u8>>, offset: u64) -> (r: Result<
        Vec<u8>,
        SectorError,
    >)
        requires
            self.wf(),
            self.header_view().block_size > 0,
        ensures
            ({
                let hl = self.header_length_view() as int;
                let chunks = self.header_view().chunks@;
                let from = if offset < hl {
                    hl
                } else {
                    offset as int
                };
                if offset > hl && offset % (self.header_view().block_size as u64) != 0 {
                    r == Err::<Vec<u8>, SectorError>(SectorError::InvalidOffset)
                } else if spec_no_chunk_at(chunks, hl, from) {
                    r == Err::<Vec<u8>, SectorError>(SectorError::OffsetOutOfRange)
                } else {
                    match r {
                        Ok(v) => spec_datas_fit(chunks, datas@) && offset <= spec_sector_image(
                            *self,
                            datas@,
                        ).len() && v@ == spec_sector_image(*self, datas@).skip(offset as int),
                        Err(e) => !spec_datas_fit(chunks, datas@) && (e == SectorError::ChunkNotFound
                            || e == SectorError::ChunkTooShort),
                    }
                }
            }),
    {
        let hl = self.header_length();
        let bs = self.header().block_size as u64;
        if offset > hl && offset % bs != 0 {
            return Err(SectorError::InvalidOffset);
        }
        let from = if offset < hl {
            hl
        } else {
            offset
        };
        let hit = self.chunk_on_offset(from);
        let c = match hit {
            None => {
                return Err(SectorError::OffsetOutOfRange);
            },
            Some(c) => c,
        };
        let img = match self.encrypt_sector(datas) {
            Err(e) => {
                return Err(e);
            },
            Ok(img) => img,
        };
        proof {
            let chunks = self.header_view().chunks@;
            assert(spec_ranges_ok(chunks));
            lemma_chunk_end_within_body(chunks, c.chunk_index as int);
            lemma_round_up_16(self.header_length_view() + self.body_length_view());
            assert(spec_hits_chunk(chunks, hl as int, from as int, c.chunk_index as int));
            assert(!spec_no_chunk_at(chunks, hl as int, from as int));
            assert(offset <= img@.len());
        }
        let out = copy_range(img.as_slice(), offset as usize, img.len());
        assert(out@ =~= img@.skip(offset as int));
        Ok(out)
    }

    /// Reads the range of chunk `chunk_id` that the stored sector holds (the
    /// first chunk with that id), with the range.
    pub fn decrypt_chunk(&self, sector: &[u8], chunk_id: &[u8]) -> (r: Result<
        (Range<u64>, Vec<u8>),
        SectorError,
    >)
        requires
            self.wf(),
            self.header_view().block_size > 0,
        ensures
            ({
                let chunks = self.header_view().chunks@;
                let hl = self.header_length_view() as int;
                match r {
                    Ok((range, bytes)) => exists|i: int|
                        0 <= i < chunks.len() && spec_first_with_id(chunks, chunk_id@, i) && range
                            == chunks[i].1 && sector@.len() == self.sector_length_view() && bytes@
                            == spec_decrypted_from(
                            *self,
                            sector@,
                            hl + spec_chunk_start(chunks, i),
                        ).take(chunks[i].1.end - chunks[i].1.start),
                    Err(e) => {
                        ||| e == SectorError::ChunkNotFound && forall|i: int|
                            0 <= i < chunks.len() ==> #[trigger] chunks[i].0@ != chunk_id@
                        ||| e == SectorError::LengthMismatch && sector@.len()
                            != self.sector_length_view() && exists|i: int|
                            0 <= i < chunks.len() && spec_first_with_id(chunks, chunk_id@, i)
                    },
                }
            }),
    {
        let found = self.offset_of_chunk(chunk_id);
        let (off, range) = match found {
            None => {
                return Err(SectorError::ChunkNotFound);
            },
            Some(p) => p,
        };
        let ghost chunks = self.header_view().chunks@;
        let ghost hl = self.header_length_view() as int;
        let ghost i = choose|i: int|
            0 <= i < chunks.len() && spec_first_with_id(chunks, chunk_id@, i) && off == hl
                + spec_chunk_start(chunks, i) && range == chunks[i].1;
        assert(0 <= i < chunks.len() && spec_first_with_id(chunks, chunk_id@, i));
        if sector.len() as u64 != self.sector_length() {
            return Err(SectorError::LengthMismatch);
        }
        proof {
            assert(spec_ranges_ok(chunks));
            lemma_chunk_end_within_body(chunks, i);
            lemma_round_up_16(self.header_length_view() + self.body_length_view());
        }
        let len = range.end - range.start;
        let all = match self.decrypt_sector_from(sector, off) {
            Err(e) => {
                return Err(e);
            },
            Ok(v) => v,
        };
        assert(off + len <= self.sector_length_view());
        let bytes = copy_range(all.as_slice(), 0, len as usize);
        proof {
            if off < self.sector_length_view() {
                assert(bytes@ =~= spec_decrypted_from(*self, sector@, off as int).take(len as int));
            } else {
                assert(len == 0);
                assert(bytes@ =~= spec_decrypted_from(*self, sector@, off as int).take(len as int));
            }
        }
        Ok((range, bytes))
    }
}

/// From a chain start on, the stored body is the encryption of the rest of
/// the body, chain by chain, and decrypting it gives that rest back.
proof fn lemma_chain_suffix(k: Seq<u8>, p: Seq<u8>, hl: int, st: int, bs: int)
    requires
        p.len() % 16 == 0,
        0 <= st <= p.len(),
        st % 16 == 0,
        st == 0 || (hl + st) % bs == 0,
        spec_segments_invertible(k, p, hl, bs),
    ensures
        spec_segments(true, k, p, hl, bs).len() == p.len(),
        spec_segments(true, k, p, hl, bs).skip(st) == spec_segments(true, k, p.skip(st), hl + st, bs),
        spec_segments(false, k, spec_segments(true, k, p.skip(st), hl + st, bs), hl + st, bs)
            == p.skip(st),
{
    lemma_segments_roundtrip(k, p, hl, bs);
    lemma_segments_split(true, k, p, hl, st, bs);
    lemma_invertible_split(k, p, hl, st, bs);
    lemma_segments_roundtrip(k, p.take(st), hl, bs);
    lemma_segments_roundtrip(k, p.skip(st), hl + st, bs);
    let e1 = spec_segments(true, k, p.take(st), hl, bs);
    let e2 = spec_segments(true, k, p.skip(st), hl + st, bs);
    assert((e1 + e2).skip(st) =~= e2);
}

proof fn lemma_law_step_body(m: SectorMeta, datas: Seq<Vec<u8>>, i: int)
    requires
        m.wf(),
        spec_datas_fit(m.header_view().chunks@, datas),
        0 <= i < m.header_view().chunks@.len(),
    ensures
        ({
            let chunks = m.header_view().chunks@;
            let st = spec_chunk_start(chunks, i);
            let len = chunks[i].1.end - chunks[i].1.start;
            let body = spec_chunk_body(chunks, datas);
            &&& 0 <= st
            &&& st + len <= m.body_length_view()
            &&& body.len() == m.body_length_view()
            &&& body.subrange(st, st + len) == datas[i]@.subrange(
                chunks[i].1.start as int,
                chunks[i].1.end as int,
            )
        }),
{
    let chunks = m.header_view().chunks@;
    assert(spec_ranges_ok(chunks));
    lemma_chunk_end_within_body(chunks, i);
    assert(chunks.take(chunks.len() as int) =~= chunks);
    lemma_chunk_body_len(chunks, datas, chunks.len() as int);
    lemma_chunk_body_slice(chunks, datas, i);
}

proof fn lemma_law_step_image(m: SectorMeta, datas: Seq<Vec<u8>>, st: int)
    requires
        m.wf(),
        m.header_view().block_size > 0,
        spec_padded_body(m, datas).len() == m.sector_length_view() - m.header_length_view(),
        m.header_length_view() % 16 == 0,
        m.sector_length_view() % 16 == 0,
        spec_header_bytes(m.header_view()).len() == m.header_length_view(),
        0 <= st <= m.sector_length_view() - m.header_length_view(),
        st % 16 == 0,
        st == 0 || (m.header_length_view() + st) % (m.header_view().block_size as int) == 0,
        m.header_view().key matches Some(k) ==> spec_segments_invertible(
            k@,
            spec_padded_body(m, datas),
            m.header_length_view() as int,
            m.header_view().block_size as int,
        ),
    ensures
        ({
            let hl = m.header_length_view() as int;
            let p = spec_padded_body(m, datas);
            let data = spec_sector_image(m, datas).subrange(hl + st, m.sector_length_view() as int);
            match m.header_view().key {
                Some(k) => spec_segments(false, k@, data, hl + st, m.header_view().block_size as int)
                    == p.skip(st),
                None => data == p.skip(st),
            }
        }),
{
    let hl = m.header_length_view() as int;
    let sl = m.sector_length_view() as int;
    let bs = m.header_view().block_size as int;
    let p = spec_padded_body(m, datas);
    let img = spec_sector_image(m, datas);
    let c = spec_stored_body(m, datas);
    match m.header_view().key {
        Some(k) => {
            lemma_chain_suffix(k@, p, hl, st, bs);
        },
        None => {},
    }
    lemma_concat_tail(spec_header_bytes(m.header_view()), c, st);
}

proof fn lemma_concat_tail(a: Seq<u8>, b: Seq<u8>, st: int)
    requires
        0 <= st <= b.len(),
    ensures
        (a + b).subrange(a.len() + st, (a.len() + b.len()) as int) == b.skip(st),
{
    assert((a + b).subrange(a.len() + st, (a.len() + b.len()) as int) =~= b.skip(st));
}

/// A chunk range written into a sector reads back from the stored sector,
/// when the place of the chunk in the sector starts a chain (always so for
/// the first chunk).
#[verifier::rlimit(60)]
pub proof fn law_sector_chunk_roundtrip(m: SectorMeta, datas: Seq<Vec<u8>>, i: int)
    requires
        m.wf(),
        m.header_view().block_size > 0,
        spec_datas_fit(m.header_view().chunks@, datas),
        0 <= i < m.header_view().chunks@.len(),
        m.header_view().key matches Some(k) ==> spec_segments_invertible(
            k@,
            spec_padded_body(m, datas),
            m.header_length_view() as int,
            m.header_view().block_size as int,
        ),
        spec_is_chain_start(
            m,
            m.header_length_view() + spec_chunk_start(m.header_view().chunks@, i),
        ),
    ensures
        ({
            let chunks = m.header_view().chunks@;
            spec_decrypted_from(
                m,
                spec_sector_image(m, datas),
                m.header_length_view() + spec_chunk_start(chunks, i),
            ).take(chunks[i].1.end - chunks[i].1.start) == datas[i]@.subrange(
                chunks[i].1.start as int,
                chunks[i].1.end as int,
            )
        }),
{
    let h = m.header_view();
    let chunks = h.chunks@;
    let hl = m.header_length_view() as int;
    let sl = m.sector_length_view() as int;
    let bs = h.block_size as int;
    let st = spec_chunk_start(chunks, i);
    let len = chunks[i].1.end - chunks[i].1.start;
    let off = hl + st;
    let p = spec_padded_body(m, datas);
    let body = spec_chunk_body(chunks, datas);
    let img = spec_sector_image(m, datas);
    assert(hl % 16 == 0 && spec_header_bytes(h).len() == hl) by {
        law_header_length(h);
    }
    assert(sl % 16 == 0 && hl + m.body_length_view() <= sl) by {
        lemma_round_up_16(hl + m.body_length_view());
    }
    lemma_law_step_body(m, datas, i);
    assert(p.len() == sl - hl);
    lemma_law_step_image(m, datas, st);
    assert(off / 16 * 16 == off);
    assert(spec_decrypted_from(m, img, off) =~= p.skip(st));
    assert(p.skip(st).take(len) =~= body.subrange(st, st + len));
}

} // verus!
