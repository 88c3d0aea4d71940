//! Block headers and their hashes.
use vstd::prelude::*;
use vstd::string::*;

use crate::codec::{
    SerializationError, le_u32, prefix_at, read_array, read_u32, read_var_bytes, var_bytes,
    write_u32, write_var_bytes,
};
use crate::hasher::append_bytes;
use crate::hashes::{hex_encode, hex_of, sha256d, sha256d_digest};
use crate::serialization::{
    ZcashDeserialize, ZcashSerialize, lemma_prefix_at_join, lemma_prefix_at_split,
};
use crate::transaction::Transaction;

verus! {

/// The double SHA-256 of a block header, which names the block.
#[derive(Debug, Clone, Copy, PartialEq, Eq)]
pub struct BlockHeaderHash(pub [u8; 32]);

/// The root of the Merkle tree of the transactions of a block.
#[derive(Debug, Clone, Copy, PartialEq, Eq)]
pub struct MerkleTreeRootHash(pub [u8; 32]);

/// The root of the Sapling note commitment tree after a block.
#[derive(Debug, Clone, Copy, PartialEq, Eq)]
pub struct SaplingNoteTreeRootHash(pub [u8; 32]);

/// The text of a block header hash: its name and its bytes in lowercase hex
/// between quotes.
pub open spec fn block_hash_text(hash: Seq<u8>) -> Seq<char> {
    seq!['B', 'l', 'o', 'c', 'k', 'H', 'e', 'a', 'd', 'e', 'r', 'H', 'a', 's', 'h', '(', '"']
        + hex_of(hash) + seq!['"', ')']
}

impl BlockHeaderHash {
    /// The hash as text, `BlockHeaderHash("<hex>")`.
    pub fn debug_string(&self) -> (r: String)
        ensures
            r@ == block_hash_text(self.0@),
    {
        let hex = hex_encode(self.0.as_slice());
        let mut text = String::from_str("BlockHeaderHash(\"");
        text.append(hex.as_str());
        text.append("\")");
        proof {
            reveal_strlit("BlockHeaderHash(\"");
            reveal_strlit("\")");
        }
        assert(text@ =~= block_hash_text(self.0@));
        text
    }

    /// The hash of a block header: the double SHA-256 of its encoding.
    pub fn from_header(header: &BlockHeader) -> (r: BlockHeaderHash)
        requires
            header.wf(),
        ensures
            r.0@ == sha256d(header.encoding()),
    {
        let mut bytes: Vec<u8> = Vec::new();
        header.zcash_serialize(&mut bytes);
        assert(bytes@ =~= header.encoding());
        BlockHeaderHash(sha256d_digest(bytes.as_slice()))
    }
}

impl From<BlockHeader> for BlockHeaderHash {
    fn from(header: BlockHeader) -> (r: BlockHeaderHash) {
        assert(header.solution@.len() <= u64::MAX) by {
            assert(header.solution@.len() == header.solution.len());
        }
        let r = BlockHeaderHash::from_header(&header);
        proof {
            let c = choose|h: BlockHeaderHash| h.0@ == sha256d(header.encoding());
            assert(c.0@ == r.0@);
            assert(c.0 =~= r.0);
        }
        r
    }
}

impl vstd::std_specs::convert::FromSpecImpl<BlockHeader> for BlockHeaderHash {
    open spec fn obeys_from_spec() -> bool {
        true
    }

    /// The hash whose bytes are the double SHA-256 of the header's encoding.
    open spec fn from_spec(header: BlockHeader) -> BlockHeaderHash {
        choose|h: BlockHeaderHash| h.0@ == sha256d(header.encoding())
    }
}

impl ZcashSerialize for BlockHeaderHash {
    open spec fn wf(&self) -> bool {
        true
    }

    open spec fn encoding(&self) -> Seq<u8> {
        self.0@
    }

    fn zcash_serialize(&self, out: &mut Vec<u8>) {
        append_bytes(out, self.0.as_slice());
        assert(final(out)@ =~= old(out)@ + self.encoding());
    }
}

impl ZcashDeserialize for BlockHeaderHash {
    fn zcash_deserialize(data: &[u8], pos: usize) -> (r: Result<(Self, usize), SerializationError>) {
        match read_array::<32>(data, pos) {
            Ok((bytes, end)) => Ok((BlockHeaderHash(bytes), end)),
            Err(e) => Err(e),
        }
    }
}

/// A block header, up to its Equihash solution.
#[derive(Debug, Clone, PartialEq, Eq)]
pub struct BlockHeader {
    /// The hash of the previous block's header.
    pub previous_block_hash: BlockHeaderHash,
    /// The root of the Merkle tree of the block's transactions.
    pub merkle_root_hash: MerkleTreeRootHash,
    /// The root of the Sapling note commitment tree after the block.
    pub final_sapling_root_hash: SaplingNoteTreeRootHash,
    /// The time the miner started hashing the header, in seconds since the
    /// Unix epoch.
    pub time: u32,
    /// The encoded difficulty target.
    pub bits: u32,
    /// The nonce miners vary.
    pub nonce: [u8; 32],
    /// The Equihash solution.
    pub solution: Vec<u8>,
}

/// Where the encoding of a header stands, each of its fields stands at its
/// offset.
proof fn lemma_header_fields(data: Seq<u8>, pos: int, h: BlockHeader)
    requires
        prefix_at(data, pos, h.encoding()),
    ensures
        prefix_at(data, pos, h.previous_block_hash.0@),
        prefix_at(data, pos + 32, h.merkle_root_hash.0@),
        prefix_at(data, pos + 64, h.final_sapling_root_hash.0@),
        prefix_at(data, pos + 96, le_u32(h.time)),
        prefix_at(data, pos + 100, le_u32(h.bits)),
        prefix_at(data, pos + 104, h.nonce@),
        prefix_at(data, pos + 136, var_bytes(h.solution@)),
{
    vstd::bytes::lemma_auto_spec_u32_to_from_le_bytes();
    let a = h.previous_block_hash.0@;
    let b = h.merkle_root_hash.0@;
    let c = h.final_sapling_root_hash.0@;
    let t = le_u32(h.time);
    let d = le_u32(h.bits);
    let n = h.nonce@;
    let v = var_bytes(h.solution@);
    lemma_prefix_at_split(data, pos, a + b + c + t + d + n, v);
    lemma_prefix_at_split(data, pos, a + b + c + t + d, n);
    lemma_prefix_at_split(data, pos, a + b + c + t, d);
    lemma_prefix_at_split(data, pos, a + b + c, t);
    lemma_prefix_at_split(data, pos, a + b, c);
    lemma_prefix_at_split(data, pos, a, b);
}

impl ZcashSerialize for BlockHeader {
    open spec fn wf(&self) -> bool {
        self.solution@.len() <= u64::MAX
    }

    /// The hashes, the time, the difficulty bits, the nonce, then the
    /// solution prefixed by its length.
    open spec fn encoding(&self) -> Seq<u8> {
        self.previous_block_hash.0@ + self.merkle_root_hash.0@ + self.final_sapling_root_hash.0@
            + le_u32(self.time) + le_u32(self.bits) + self.nonce@ + var_bytes(self.solution@)
    }

    fn zcash_serialize(&self, out: &mut Vec<u8>) {
        self.previous_block_hash.zcash_serialize(out);
        append_bytes(out, self.merkle_root_hash.0.as_slice());
        append_bytes(out, self.final_sapling_root_hash.0.as_slice());
        write_u32(out, self.time);
        write_u32(out, self.bits);
        append_bytes(out, self.nonce.as_slice());
        write_var_bytes(out, self.solution.as_slice());
        assert(final(out)@ =~= old(out)@ + self.encoding());
    }
}

impl ZcashDeserialize for BlockHeader {
    fn zcash_deserialize(data: &[u8], pos: usize) -> (r: Result<(Self, usize), SerializationError>) {
        proof {
            vstd::bytes::lemma_auto_spec_u32_to_from_le_bytes();
            assert forall|h: BlockHeader|
                h.wf() && prefix_at(data@, pos as int, #[trigger] h.encoding()) implies pos + 136
                <= data@.len() && prefix_at(data@, pos + 136, var_bytes(h.solution@)) by {
                lemma_header_fields(data@, pos as int, h);
            }
        }
        let (prev, p1) = match read_array::<32>(data, pos) {
            Ok(x) => x,
            Err(e) => return Err(e),
        };
        let (merkle, p2) = match read_array::<32>(data, p1) {
            Ok(x) => x,
            Err(e) => return Err(e),
        };
        let (sapling_root, p3) = match read_array::<32>(data, p2) {
            Ok(x) => x,
            Err(e) => return Err(e),
        };
        let (time, p4) = match read_u32(data, p3) {
            Ok(x) => x,
            Err(e) => return Err(e),
        };
        let (bits, p5) = match read_u32(data, p4) {
            Ok(x) => x,
            Err(e) => return Err(e),
        };
        let (nonce, p6) = match read_array::<32>(data, p5) {
            Ok(x) => x,
            Err(e) => return Err(e),
        };
        let (solution, end) = match read_var_bytes(data, p6) {
            Ok(x) => x,
            Err(e) => {
                proof {
                    assert forall|h: BlockHeader|
                        h.wf() && prefix_at(data@, pos as int, #[trigger] h.encoding())
                            implies false by {
                        lemma_header_fields(data@, pos as int, h);
                    }
                }
                return Err(e);
            },
        };
        let header = BlockHeader {
            previous_block_hash: BlockHeaderHash(prev),
            merkle_root_hash: MerkleTreeRootHash(merkle),
            final_sapling_root_hash: SaplingNoteTreeRootHash(sapling_root),
            time,
            bits,
            nonce,
            solution,
        };
        proof {
            lemma_prefix_at_join(data@, pos as int, prev@, merkle@);
            lemma_prefix_at_join(data@, pos as int, prev@ + merkle@, sapling_root@);
            lemma_prefix_at_join(data@, pos as int, prev@ + merkle@ + sapling_root@, le_u32(time));
            lemma_prefix_at_join(
                data@,
                pos as int,
                prev@ + merkle@ + sapling_root@ + le_u32(time),
                le_u32(bits),
            );
            lemma_prefix_at_join(
                data@,
                pos as int,
                prev@ + merkle@ + sapling_root@ + le_u32(time) + le_u32(bits),
                nonce@,
            );
            lemma_prefix_at_join(
                data@,
                pos as int,
                prev@ + merkle@ + sapling_root@ + le_u32(time) + le_u32(bits) + nonce@,
                var_bytes(solution@),
            );
            assert forall|h: BlockHeader|
                h.wf() && prefix_at(data@, pos as int, #[trigger] h.encoding()) implies h.encoding()
                == header.encoding() by {
                lemma_header_fields(data@, pos as int, h);
            }
        }
        Ok((header, end))
    }
}

/// A block: its header and its transactions.
#[derive(Debug, PartialEq, Eq)]
pub struct Block {
    /// The header.
    pub header: BlockHeader,
    /// The transactions, in order.
    pub transactions: Vec<Transaction>,
}

impl Block {
    /// The hash of the block's header.
    pub fn hash(&self) -> (r: BlockHeaderHash)
        requires
            self.header.wf(),
        ensures
            r.0@ == sha256d(self.header.encoding()),
    {
        BlockHeaderHash::from_header(&self.header)
    }
}

} // verus!
