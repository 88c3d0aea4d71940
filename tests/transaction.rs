use std::marker::PhantomData;

use zebra_txid::burn::{AssetBase, Burn, BurnItem};
use zebra_txid::codec::SerializationError;
use zebra_txid::orchard::{
    read_orchard_part, Action, AtLeastOne, AuthorizedAction, EncryptedNote, Flags, OrchardZSA,
    ShieldedData, Signature, WrappedNoteKey,
};
use zebra_txid::sapling;
use zebra_txid::transaction::{NetworkUpgrade, Transaction};
use zebra_txid::transparent::{Input, OutPoint, Output};

fn inputs() -> Vec<Input> {
    vec![
        Input::PrevOut {
            outpoint: OutPoint { hash: [0x11; 32], index: 1 },
            unlock_script: vec![0xaa, 0xbb],
            sequence: 0xffff_fffe,
        },
        Input::Coinbase { data: vec![1, 2], sequence: 7 },
    ]
}

fn outputs() -> Vec<Output> {
    vec![Output { value: 100_000, lock_script: vec![0x76, 0xa9] }]
}

fn round_trip(tx: &Transaction) -> Vec<u8> {
    let mut bytes = Vec::new();
    tx.zcash_serialize(&mut bytes);
    let (back, end) = Transaction::zcash_deserialize(&bytes, 0).unwrap();
    assert_eq!(&back, tx);
    assert_eq!(end, bytes.len());
    bytes
}

fn sapling_data() -> sapling::ShieldedData {
    let spend = sapling::Spend {
        cv: [0x31; 32],
        nullifier: [0x32; 32],
        rk: [0x33; 32],
        zkproof: [0x34; 192],
        spend_auth_sig: [0x35; 64],
    };
    let output = sapling::Output {
        cv: [0x41; 32],
        cm_u: [0x42; 32],
        ephemeral_key: [0x43; 32],
        enc_ciphertext: [0x45; 580],
        out_ciphertext: WrappedNoteKey([0x44; 80]),
        zkproof: [0x46; 192],
    };
    sapling::ShieldedData {
        value_balance: -250,
        shared_anchor: Some([0x21; 32]),
        spends: vec![spend, spend],
        outputs: vec![output],
        binding_sig: [0x47; 64],
    }
}

fn zsa_bundle() -> ShieldedData<OrchardZSA> {
    let action = Action {
        cv: [1; 32],
        nullifier: [2; 32],
        rk: [3; 32],
        cm_x: [4; 32],
        ephemeral_key: [5; 32],
        enc_ciphertext: EncryptedNote(vec![9; 612]),
        out_ciphertext: WrappedNoteKey([6; 80]),
    };
    let authorized = AuthorizedAction { action, spend_auth_sig: Signature([8; 64]) };
    ShieldedData {
        flags: Flags::from_bits(1).unwrap(),
        value_balance: -5,
        shared_anchor: [7; 32],
        proof: vec![1, 2, 3, 4],
        actions: AtLeastOne::from_vec(vec![authorized.clone(), authorized]).unwrap(),
        binding_sig: [9; 64],
        burn: Burn(vec![BurnItem(AssetBase([0xab; 32]), 12)]),
        flavour: PhantomData,
    }
}

#[test]
fn legacy_transactions_round_trip() {
    let v1 = Transaction::V1 { inputs: inputs(), outputs: outputs(), lock_time: 9 };
    let bytes = round_trip(&v1);
    assert_eq!(&bytes[..4], &[1, 0, 0, 0]);
    let v2 = Transaction::V2 { inputs: inputs(), outputs: vec![], lock_time: 0 };
    let bytes = round_trip(&v2);
    assert_eq!(*bytes.last().unwrap(), 0);
    let v3 = Transaction::V3 { inputs: vec![], outputs: outputs(), lock_time: 1, expiry_height: 2 };
    let bytes = round_trip(&v3);
    assert_eq!(&bytes[..8], &[3, 0, 0, 0x80, 0x70, 0x82, 0xc4, 0x03]);
    let v4 = Transaction::V4 { inputs: inputs(), outputs: outputs(), lock_time: 7, expiry_height: 99 };
    round_trip(&v4);
}

#[test]
fn v5_transaction_round_trip() {
    let tx = Transaction::V5 {
        network_upgrade: NetworkUpgrade::Nu5,
        lock_time: 3,
        expiry_height: 4,
        inputs: inputs(),
        outputs: outputs(),
        sapling_shielded_data: Some(sapling_data()),
        orchard_shielded_data: None,
    };
    round_trip(&tx);
    let empty = Transaction::V5 {
        network_upgrade: NetworkUpgrade::Nu6,
        lock_time: 0,
        expiry_height: 0,
        inputs: vec![],
        outputs: vec![],
        sapling_shielded_data: None,
        orchard_shielded_data: None,
    };
    let bytes = round_trip(&empty);
    assert_eq!(bytes.len(), 20 + 2 + 2 + 1);
}

#[test]
fn v6_transaction_round_trip() {
    let tx = Transaction::V6 {
        network_upgrade: NetworkUpgrade::Nu7,
        lock_time: 3,
        expiry_height: 4,
        inputs: vec![],
        outputs: outputs(),
        sapling_shielded_data: None,
        orchard_shielded_data: Some(zsa_bundle()),
    };
    round_trip(&tx);
}

#[test]
fn orchard_part_round_trip() {
    let bundle = Some(zsa_bundle());
    let mut bytes = Vec::new();
    zebra_txid::orchard::write_orchard_part(&mut bytes, &bundle);
    assert_eq!(bytes[0], 2);
    let (back, end) = read_orchard_part::<OrchardZSA>(&bytes, 0).unwrap();
    assert_eq!(back, bundle);
    assert_eq!(end, bytes.len());
    assert_eq!(read_orchard_part::<OrchardZSA>(&[0], 0), Ok((None, 1)));
    assert_eq!(
        read_orchard_part::<OrchardZSA>(&bytes[..bytes.len() - 1], 0),
        Err(SerializationError::Truncated)
    );
}

#[test]
fn transaction_parse_errors() {
    assert_eq!(Transaction::zcash_deserialize(&[7, 0, 0, 0], 0), Err(SerializationError::Parse));
    assert_eq!(Transaction::zcash_deserialize(&[1, 0], 0), Err(SerializationError::Truncated));

    let v2 = Transaction::V2 { inputs: vec![], outputs: vec![], lock_time: 0 };
    let mut bytes = Vec::new();
    v2.zcash_serialize(&mut bytes);
    let last = bytes.len() - 1;
    bytes[last] = 1;
    assert_eq!(Transaction::zcash_deserialize(&bytes, 0), Err(SerializationError::Parse));

    let v5 = Transaction::V5 {
        network_upgrade: NetworkUpgrade::Nu5,
        lock_time: 0,
        expiry_height: 0,
        inputs: vec![],
        outputs: vec![],
        sapling_shielded_data: None,
        orchard_shielded_data: None,
    };
    let mut bytes = Vec::new();
    v5.zcash_serialize(&mut bytes);
    bytes[8] ^= 0xff;
    assert_eq!(Transaction::zcash_deserialize(&bytes, 0), Err(SerializationError::Parse));
    bytes[8] ^= 0xff;
    bytes[4] ^= 1;
    assert_eq!(Transaction::zcash_deserialize(&bytes, 0), Err(SerializationError::Parse));
}

#[test]
fn bundle_accessors() {
    let bundle = zsa_bundle();
    assert_eq!(bundle.value_balance(), -5);
    assert_eq!(bundle.actions.len(), 2);
    assert_eq!(bundle.actions.first().spend_auth_sig, Signature([8; 64]));
    let actions = bundle.actions();
    assert_eq!(actions.len(), 2);
    assert_eq!(actions[1].cm_x, [4; 32]);
    assert_eq!(bundle.actions.actions().len(), 2);
    assert_eq!(bundle.nullifiers(), vec![[2; 32], [2; 32]]);
    assert_eq!(bundle.note_commitments(), vec![[4; 32], [4; 32]]);
    let commons = bundle.action_commons();
    assert_eq!(commons.len(), 2);
    assert_eq!(commons[0].cv, [1; 32]);
    assert_eq!(commons[0].rk, [3; 32]);
    assert_eq!(bundle.burn.items()[0].amount(), 12);
    assert!(AtLeastOne::<u8>::from_vec(vec![]).is_none());

    let authorized = bundle.actions.as_slice()[0].clone();
    let (action, sig) = authorized.clone().into_parts();
    assert_eq!(AuthorizedAction::from_parts(action, sig), authorized);
}

#[test]
fn network_upgrade_branches() {
    assert_eq!(NetworkUpgrade::Nu5.branch_id(), Some(0xc2d6_d0b4));
    assert_eq!(NetworkUpgrade::Genesis.branch_id(), None);
    assert_eq!(NetworkUpgrade::from_branch_id(0xc8e7_1055), Some(NetworkUpgrade::Nu6));
    assert_eq!(NetworkUpgrade::from_branch_id(0), None);
}
