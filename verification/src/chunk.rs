//! Chunks of a chunk store: items and write status, and the hashes that
//! name chunks.

use vstd::prelude::*;
use sha2::{Digest, Sha256};
use crate::crypto::{sha256, base58_text, to_base58};

verus! {

/// An item of a chunk source.
pub struct ChunkItem {
    pub item_id: String,
    pub chunk_id: Option<String>,
    pub length: u64,
    pub last_modify_time: u64,
    pub create_time: u64,
}

/// How much of a chunk a target holds.
pub struct ChunkStatus {
    pub chunk_id: String,
    pub written: u64,
}

/// A SHA-256 computation fed piece by piece (`sha2::Sha256`).
#[verifier::external_body]
pub struct Sha256Stream {
    inner: Sha256,
}

/// The bytes fed to a SHA-256 computation so far.
pub uninterp spec fn sha256_stream_input(s: Sha256Stream) -> Seq<u8>;

impl Sha256Stream {
    /// A fresh computation (`Sha256::new`): nothing fed yet.
    #[verifier::external_body]
    pub fn new() -> (s: Sha256Stream)
        ensures
            sha256_stream_input(s) == Seq::<u8>::empty(),
    {
        Sha256Stream { inner: Sha256::new() }
    }

    /// Feeds bytes (`Digest::update`): they follow what was fed before.
    #[verifier::external_body]
    pub fn update(&mut self, bytes: &[u8])
        ensures
            sha256_stream_input(*final(self)) == sha256_stream_input(*old(self)) + bytes@,
    {
        self.inner.update(bytes);
    }

    /// The digest of everything fed (`Digest::finalize`): the SHA-256 of
    /// those bytes, 32 bytes long.
    #[verifier::external_body]
    pub fn finalize(self) -> (d: Vec<u8>)
        ensures
            d@ == sha256(sha256_stream_input(self)),
            d@.len() == 32,
    {
        self.inner.finalize().to_vec()
    }
}

/// The id text of content: the base58 text of its SHA-256 digest.
pub open spec fn spec_full_hash(data: Seq<u8>) -> Seq<char> {
    base58_text(sha256(data))
}

/// Hashes content given in pieces into its id text.
pub struct FullHasher {
    hasher: Sha256Stream,
}

impl FullHasher {
    /// The content fed so far.
    pub closed spec fn fed(&self) -> Seq<u8> {
        sha256_stream_input(self.hasher)
    }

    pub fn new() -> (h: FullHasher)
        ensures
            h.fed() == Seq::<u8>::empty(),
    {
        FullHasher { hasher: Sha256Stream::new() }
    }

    pub fn update_from_bytes(&mut self, bytes: &[u8])
        ensures
            final(self).fed() == old(self).fed() + bytes@,
    {
        self.hasher.update(bytes);
    }

    /// The id text of `bytes` (see `spec_full_hash`).
    pub fn calc_from_bytes(bytes: &[u8]) -> (r: String)
        ensures
            r@ == spec_full_hash(bytes@),
    {
        let mut hasher = Sha256Stream::new();
        hasher.update(bytes);
        assert(sha256_stream_input(hasher) =~= bytes@);
        let digest = hasher.finalize();
        to_base58(digest.as_slice())
    }

    /// The id text of everything fed.
    pub fn finalize(self) -> (r: String)
        ensures
            r@ == spec_full_hash(self.fed()),
    {
        let digest = self.hasher.finalize();
        to_base58(digest.as_slice())
    }
}

/// Hashes a sample of a reader's content: the whole of a short content,
/// else reads spread over it.
pub struct QuickHasher {
    block_size: u64,
    max_samples: u64,
}

impl QuickHasher {
    pub closed spec fn spec_block_size(&self) -> u64 {
        self.block_size
    }

    pub closed spec fn spec_max_samples(&self) -> u64 {
        self.max_samples
    }

    /// The reads the hash is computed from, each an offset and a length, in
    /// order (see `spec_quick_reads`).
    pub fn sample_reads(&self, length: u64) -> (r: Vec<(u64, u64)>)
        requires
            self.spec_block_size() > 0,
            self.spec_max_samples() > 0,
        ensures
            r@ == spec_quick_reads(length, self.spec_block_size(), self.spec_max_samples()),
    {
        let mut reads: Vec<(u64, u64)> = Vec::new();
        if length < self.block_size {
            reads.push((0, length));
            assert(reads@ =~= spec_quick_reads(length, self.block_size, self.max_samples));
            return reads;
        }
        let q = length / self.max_samples;
        let interval = if q > self.block_size {
            q
        } else {
            self.block_size
        };
        let ghost all = spec_offsets_from(0, interval, length);
        let ghost mut done: Seq<u64> = Seq::empty();
        let mut offset: u64 = 0;
        proof {
            assert(done + spec_offsets_from(offset, interval, length) =~= all);
            assert(reads@ =~= done.map_values(|o: u64| (o, length)));
        }
        while offset < length
            invariant
                0 < interval,
                offset <= length,
                all == spec_offsets_from(0, interval, length),
                done + spec_offsets_from(offset, interval, length) == all,
                reads@ == done.map_values(|o: u64| (o, length)),
            decreases length - offset,
        {
            reads.push((offset, length));
            let next: u64 = if interval < length - offset {
                offset + interval
            } else {
                length
            };
            proof {
                assert(spec_offsets_from(offset, interval, length) =~= seq![offset]
                    + spec_offsets_from(next, interval, length));
                assert(done.push(offset) + spec_offsets_from(next, interval, length) =~= done
                    + spec_offsets_from(offset, interval, length));
                assert(reads@ =~= done.push(offset).map_values(|o: u64| (o, length)));
                done = done.push(offset);
            }
            offset = next;
        }
        let ghost before = reads@;
        reads.push((length, length));
        proof {
            assert(done =~= all);
            assert(reads@ =~= before + seq![(length, length)]);
        }
        reads
    }
}

impl Default for QuickHasher {
    /// Blocks of 4 KiB, at most 100 samples.
    fn default() -> (q: QuickHasher)
        ensures
            q.spec_block_size() == 4096,
            q.spec_max_samples() == 100,
    {
        QuickHasher { block_size: 4096, max_samples: 100 }
    }
}

/// The offsets of the sampled reads: from `offset`, every `interval`
/// bytes, while inside the content.
pub open spec fn spec_offsets_from(offset: u64, interval: u64, length: u64) -> Seq<u64>
    decreases length - offset,
{
    if offset >= length || interval == 0 {
        Seq::empty()
    } else if interval >= length - offset {
        seq![offset]
    } else {
        seq![offset] + spec_offsets_from((offset + interval) as u64, interval, length)
    }
}

/// The reads of a quick hash of `length` bytes: all of a content shorter
/// than a block; otherwise reads of `length` bytes at every sampling
/// interval (the larger of a block and an even spread over the samples),
/// then one at the end of the content.
pub open spec fn spec_quick_reads(length: u64, block_size: u64, max_samples: u64) -> Seq<(u64, u64)> {
    if length < block_size {
        seq![(0u64, length)]
    } else {
        let q = length / max_samples;
        let interval = if q > block_size {
            q
        } else {
            block_size
        };
        spec_offsets_from(0, interval, length).map_values(|o: u64| (o, length)) + seq![
            (length, length),
        ]
    }
}

} // verus!
