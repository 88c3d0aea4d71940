use zebra_txid::burn::{AssetBase, Burn, BurnItem, NoBurn};
use zebra_txid::codec::{
    read_compactsize, read_i64, read_u32, read_var_bytes, write_compactsize, write_var_bytes,
    SerializationError,
};
use zebra_txid::orchard::{read_flags, EncryptedNote, Flags, WrappedNoteKey};
use zebra_txid::serialization::{read_vec, TrustedPreallocate, ZcashDeserialize, ZcashSerialize};
use zebra_txid::transparent::{Input, OutPoint, Output, MAX_BLOCK_BYTES};

fn compact(n: u64) -> Vec<u8> {
    let mut out = Vec::new();
    write_compactsize(&mut out, n);
    out
}

#[test]
fn compactsize_length_classes() {
    assert_eq!(compact(0), vec![0]);
    assert_eq!(compact(252), vec![252]);
    assert_eq!(compact(253), vec![0xfd, 253, 0]);
    assert_eq!(compact(65535), vec![0xfd, 0xff, 0xff]);
    assert_eq!(compact(65536), vec![0xfe, 0, 0, 1, 0]);
    assert_eq!(compact(0xffff_ffff), vec![0xfe, 0xff, 0xff, 0xff, 0xff]);
    assert_eq!(compact(0x1_0000_0000), vec![0xff, 0, 0, 0, 0, 1, 0, 0, 0]);
    for n in [0u64, 252, 253, 65535, 65536, 0xffff_ffff, 0x1_0000_0000, u64::MAX] {
        let bytes = compact(n);
        assert_eq!(read_compactsize(&bytes, 0), Ok((n, bytes.len())));
    }
}

#[test]
fn compactsize_rejects_non_minimal() {
    assert_eq!(read_compactsize(&[0xfd, 0x00, 0x00], 0), Err(SerializationError::Parse));
    assert_eq!(read_compactsize(&[0xfd, 0xfc, 0x00], 0), Err(SerializationError::Parse));
    assert_eq!(read_compactsize(&[0xfe, 0xff, 0xff, 0, 0], 0), Err(SerializationError::Parse));
    assert_eq!(
        read_compactsize(&[0xff, 0xff, 0xff, 0xff, 0xff, 0, 0, 0, 0], 0),
        Err(SerializationError::Parse)
    );
}

#[test]
fn compactsize_truncated() {
    assert_eq!(read_compactsize(&[], 0), Err(SerializationError::Truncated));
    assert_eq!(read_compactsize(&[0xfd, 0x00], 0), Err(SerializationError::Truncated));
    assert_eq!(read_compactsize(&[0xfe, 1, 2, 3], 0), Err(SerializationError::Truncated));
    assert_eq!(read_compactsize(&[7], 1), Err(SerializationError::Truncated));
}

#[test]
fn integers_little_endian() {
    assert_eq!(read_u32(&[0x78, 0x56, 0x34, 0x12], 0), Ok((0x1234_5678, 4)));
    assert_eq!(read_u32(&[1, 2, 3], 0), Err(SerializationError::Truncated));
    assert_eq!(read_i64(&[0xff; 8], 0), Ok((-1, 8)));
}

#[test]
fn var_bytes_round_trip() {
    let mut out = Vec::new();
    write_var_bytes(&mut out, &[5, 6, 7]);
    assert_eq!(out, vec![3, 5, 6, 7]);
    assert_eq!(read_var_bytes(&out, 0), Ok((vec![5, 6, 7], 4)));
    assert_eq!(read_var_bytes(&out[..3], 0), Err(SerializationError::Truncated));
}

#[test]
fn flags_decode() {
    let (flags, end) = read_flags(&[0b0000_0011], 0).unwrap();
    assert_eq!(end, 1);
    assert_eq!(flags.bits(), 3);
    assert!(flags.contains(1) && flags.contains(2));
    assert_eq!(read_flags(&[0b0000_0100], 0), Err(SerializationError::Parse));
    assert_eq!(read_flags(&[0b1000_0001], 0), Err(SerializationError::Parse));
    assert_eq!(read_flags(&[], 0), Err(SerializationError::Truncated));
    assert!(Flags::from_bits(4).is_none());
    let mut out = Vec::new();
    flags.zcash_serialize(&mut out);
    assert_eq!(out, vec![3]);
    assert_eq!(Flags::zcash_deserialize(&out, 0), Ok((flags, 1)));
}

#[test]
fn preallocation_bounds() {
    assert_eq!(BurnItem::max_allocation(), (MAX_BLOCK_BYTES - 1) / 40);
    assert_eq!(Input::max_allocation(), (MAX_BLOCK_BYTES - 1) / 41);
    assert_eq!(Output::max_allocation(), (MAX_BLOCK_BYTES - 1) / 9);
    assert_eq!(zebra_txid::orchard::Action::max_allocation(), (MAX_BLOCK_BYTES - 1) / 916);
    assert!(zebra_txid::orchard::Action::max_allocation() < 1 << 16);
    assert_eq!(BurnItem::max_allocation(), 49_999);
    assert_eq!(Input::max_allocation(), 48_780);
    assert_eq!(Output::max_allocation(), 222_222);
    assert_eq!(zebra_txid::orchard::Action::max_allocation(), 2_183);
    assert_eq!(zebra_txid::orchard::Signature::max_allocation(), 2_183);
    assert_eq!(zebra_txid::sapling::SpendPrefixInTransactionV5::max_allocation(), 5_681);
    assert_eq!(zebra_txid::sapling::OutputInTransactionV5::max_allocation(), 2_109);
}

#[test]
fn oversized_vector_refused() {
    let mut bytes = compact(BurnItem::max_allocation() + 1);
    bytes.extend_from_slice(&[0; 40]);
    assert_eq!(
        read_vec::<BurnItem>(&bytes, 0),
        Err(SerializationError::PreallocationExceeded)
    );
    let bytes = compact(u64::MAX);
    assert_eq!(
        read_vec::<Output>(&bytes, 0),
        Err(SerializationError::PreallocationExceeded)
    );
    let mut bytes = compact(3);
    bytes.extend_from_slice(&[0; 40]);
    assert_eq!(read_vec::<BurnItem>(&bytes, 0), Err(SerializationError::Truncated));
}

#[test]
fn burn_round_trip() {
    let burn = Burn(vec![BurnItem(AssetBase([4; 32]), 7), BurnItem(AssetBase([5; 32]), 1 << 40)]);
    let mut bytes = Vec::new();
    burn.zcash_serialize(&mut bytes);
    assert_eq!(bytes.len(), 1 + 2 * 40);
    assert_eq!(bytes[0], 2);
    assert_eq!(&bytes[33..41], &7u64.to_le_bytes());
    let (back, end) = Burn::zcash_deserialize(&bytes, 0).unwrap();
    assert_eq!(back, burn);
    assert_eq!(end, bytes.len());
    assert_eq!(back.items()[1].asset(), AssetBase([5; 32]));
    assert_eq!(back.items()[1].amount(), 1 << 40);

    let mut none = Vec::new();
    NoBurn.zcash_serialize(&mut none);
    assert!(none.is_empty());
    assert_eq!(NoBurn::zcash_deserialize(&[1, 2], 1), Ok((NoBurn, 1)));
}

#[test]
fn transparent_round_trip() {
    let inputs = vec![
        Input::PrevOut {
            outpoint: OutPoint { hash: [9; 32], index: 2 },
            unlock_script: vec![1, 2, 3],
            sequence: 5,
        },
        Input::Coinbase { data: vec![4, 4], sequence: 0xffff_ffff },
    ];
    for input in &inputs {
        let mut bytes = Vec::new();
        input.zcash_serialize(&mut bytes);
        assert_eq!(Input::zcash_deserialize(&bytes, 0), Ok((input.clone(), bytes.len())));
    }
    let mut coinbase = Vec::new();
    inputs[1].zcash_serialize(&mut coinbase);
    assert_eq!(&coinbase[..32], &[0; 32]);
    assert_eq!(&coinbase[32..36], &[0xff; 4]);

    let output = Output { value: 21, lock_script: vec![0x51] };
    let mut bytes = Vec::new();
    output.zcash_serialize(&mut bytes);
    assert_eq!(bytes, vec![21, 0, 0, 0, 0, 0, 0, 0, 1, 0x51]);
    assert_eq!(Output::zcash_deserialize(&bytes, 0), Ok((output, bytes.len())));

    let negative = [0xff, 0xff, 0xff, 0xff, 0xff, 0xff, 0xff, 0xff, 0];
    assert_eq!(Output::zcash_deserialize(&negative, 0), Err(SerializationError::Parse));
}

#[test]
fn ciphertexts_round_trip() {
    let key = WrappedNoteKey([3; 80]);
    let mut bytes = Vec::new();
    key.zcash_serialize(&mut bytes);
    assert_eq!(WrappedNoteKey::zcash_deserialize(&bytes, 0), Ok((key, 80)));
    assert_eq!(
        WrappedNoteKey::zcash_deserialize(&bytes[..79], 0),
        Err(SerializationError::Truncated)
    );
    let note = EncryptedNote(vec![1; 580]);
    let mut bytes = Vec::new();
    note.zcash_serialize(&mut bytes);
    assert_eq!(EncryptedNote::zcash_deserialize_sized(&bytes, 0, 580), Ok((note, 580)));
    assert_eq!(
        EncryptedNote::zcash_deserialize_sized(&bytes, 1, 580),
        Err(SerializationError::Truncated)
    );
}
