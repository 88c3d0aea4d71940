use zebra_txid::block::{
    BlockHeader, BlockHeaderHash, MerkleTreeRootHash, SaplingNoteTreeRootHash,
};
use zebra_txid::codec::SerializationError;
use zebra_txid::hashes::sha256d_digest;
use zebra_txid::serialization::{ZcashDeserialize, ZcashSerialize};

fn zero_header() -> BlockHeader {
    let some_bytes = [0; 32];
    BlockHeader {
        previous_block_hash: BlockHeaderHash(some_bytes),
        merkle_root_hash: MerkleTreeRootHash(some_bytes),
        final_sapling_root_hash: SaplingNoteTreeRootHash(some_bytes),
        time: 61,
        bits: 0,
        nonce: some_bytes,
        solution: vec![0; 1344],
    }
}

#[test]
fn blockheaderhash_debug() {
    let preimage = b"foo bar baz";
    let hash = BlockHeaderHash(sha256d_digest(preimage));

    assert_eq!(
        hash.debug_string(),
        "BlockHeaderHash(\"bf46b4b5030752fedac6f884976162bbfb29a9398f104a280b3e34d51b416631\")"
    );
}

#[test]
fn blockheaderhash_from_blockheader() {
    let blockheader = zero_header();

    let hash = BlockHeaderHash::from(blockheader);

    assert_eq!(
        hash.debug_string(),
        "BlockHeaderHash(\"35be4a0f97803879ed642d4e10a146c3fba8727a1dca8079e3f107221be1e7e4\")"
    );
}

#[test]
fn block_header_round_trip() {
    let mut header = zero_header();
    header.time = 1_700_000_000;
    header.bits = 0x1d00_ffff;
    header.nonce[5] = 9;
    header.solution = vec![7, 8, 9];
    let mut bytes = Vec::new();
    header.zcash_serialize(&mut bytes);
    assert_eq!(bytes.len(), 32 * 3 + 4 + 4 + 32 + 1 + 3);
    assert_eq!(&bytes[96..100], &1_700_000_000u32.to_le_bytes());
    let (back, end) = BlockHeader::zcash_deserialize(&bytes, 0).unwrap();
    assert_eq!(back, header);
    assert_eq!(end, bytes.len());
}

#[test]
fn block_header_truncated() {
    let header = zero_header();
    let mut bytes = Vec::new();
    header.zcash_serialize(&mut bytes);
    bytes.pop();
    assert_eq!(
        BlockHeader::zcash_deserialize(&bytes, 0),
        Err(SerializationError::Truncated)
    );
    assert_eq!(
        BlockHeader::zcash_deserialize(&bytes[..50], 0),
        Err(SerializationError::Truncated)
    );
}
