use std::marker::PhantomData;

use zebra_txid::burn::Burn;
use zebra_txid::digests::{hash_header, hash_orchard, hash_sapling, hash_transparent};
use zebra_txid::hasher::Hasher;
use zebra_txid::orchard::{
    Action, AtLeastOne, AuthorizedAction, EncryptedNote, Flags, Orchard, ShieldedData,
    WrappedNoteKey,
};
use zebra_txid::sapling;
use zebra_txid::transaction::{NetworkUpgrade, Transaction};
use zebra_txid::transparent::{Input, OutPoint, Output};
use zebra_txid::txid::{
    calculate_tx_personal, calculate_txid, hash_txid, TxIdBuilder, TxIdError,
};

fn hex(bytes: &[u8]) -> String {
    bytes.iter().map(|b| format!("{:02x}", b)).collect()
}

fn legacy_input() -> Input {
    Input::PrevOut {
        outpoint: OutPoint { hash: [0x11; 32], index: 1 },
        unlock_script: vec![0xaa, 0xbb],
        sequence: 0xffff_fffe,
    }
}

fn legacy_output() -> Output {
    Output { value: 100_000, lock_script: vec![0x76, 0xa9] }
}

fn orchard_bundle() -> ShieldedData<Orchard> {
    let enc: Vec<u8> = (0..580u32).map(|i| (i % 256) as u8).collect();
    let action = Action {
        cv: [1; 32],
        nullifier: [2; 32],
        rk: [3; 32],
        cm_x: [4; 32],
        ephemeral_key: [5; 32],
        enc_ciphertext: EncryptedNote(enc),
        out_ciphertext: WrappedNoteKey([6; 80]),
    };
    ShieldedData {
        flags: Flags::from_bits(3).unwrap(),
        value_balance: 1234,
        shared_anchor: [7; 32],
        proof: vec![1, 2, 3],
        actions: AtLeastOne::from_vec(vec![AuthorizedAction { action, spend_auth_sig: zebra_txid::orchard::Signature([8; 64]) }])
            .unwrap(),
        binding_sig: [9; 64],
        burn: Burn(vec![]),
        flavour: PhantomData,
    }
}

fn v5_transaction(network_upgrade: NetworkUpgrade) -> Transaction {
    Transaction::V5 {
        network_upgrade,
        lock_time: 0,
        expiry_height: 10,
        inputs: vec![Input::Coinbase { data: vec![3, 1, 2, 3], sequence: 0xffff_ffff }],
        outputs: vec![Output { value: 5000, lock_script: vec![0x51] }],
        sapling_shielded_data: None,
        orchard_shielded_data: Some(orchard_bundle()),
    }
}

#[test]
fn legacy_v1_txid_vector() {
    let tx = Transaction::V1 {
        inputs: vec![legacy_input()],
        outputs: vec![legacy_output()],
        lock_time: 0,
    };
    let id = TxIdBuilder::new(&tx).txid().unwrap();
    assert_eq!(hex(&id.0), "c5c7a348501e69b219fe34cf6b2f05707937f4059b4e957842bb6696ca24a834");
    assert_eq!(calculate_txid(&tx), Ok(None));
}

#[test]
fn legacy_v4_txid_vector() {
    let tx = Transaction::V4 {
        inputs: vec![legacy_input()],
        outputs: vec![legacy_output()],
        lock_time: 7,
        expiry_height: 99,
    };
    let id = TxIdBuilder::new(&tx).txid().unwrap();
    assert_eq!(hex(&id.0), "9a43f43d5cd19888fb5ba2b4f3e30a81802ab194c7fd480261dd6e74343265d6");
}

#[test]
fn v5_txid_vector() {
    let tx = v5_transaction(NetworkUpgrade::Nu5);
    let expected = "8ac71f1fb5f675351c0d991adfc4e3b4e4c189d47aa6ab9fd0397fffc53bf4c1";
    let id = calculate_txid(&tx).unwrap().unwrap();
    assert_eq!(hex(&id.0), expected);
    let id = TxIdBuilder::new(&tx).txid().unwrap();
    assert_eq!(hex(&id.0), expected);
}

#[test]
fn txid_is_deterministic() {
    let a = v5_transaction(NetworkUpgrade::Nu5);
    let b = v5_transaction(NetworkUpgrade::Nu5);
    let first: zebra_txid::txid::Hash = calculate_txid(&a).unwrap().unwrap();
    let second: zebra_txid::txid::Hash = calculate_txid(&b).unwrap().unwrap();
    assert_eq!(first, second);
    assert_eq!(calculate_txid(&a).unwrap().unwrap(), first);
    let legacy = Transaction::V1 { inputs: vec![legacy_input()], outputs: vec![], lock_time: 3 };
    assert_eq!(TxIdBuilder::new(&legacy).txid(), TxIdBuilder::new(&legacy).txid());
}

#[test]
fn txid_changes_with_branch() {
    let nu5 = calculate_txid(&v5_transaction(NetworkUpgrade::Nu5)).unwrap().unwrap();
    let nu6 = calculate_txid(&v5_transaction(NetworkUpgrade::Nu6)).unwrap().unwrap();
    assert_ne!(nu5, nu6);
}

#[test]
fn txid_without_branch_fails() {
    let tx = v5_transaction(NetworkUpgrade::BeforeOverwinter);
    assert_eq!(calculate_txid(&tx), Err(TxIdError::MissingBranchId));
    assert!(hash_txid(&tx).is_err());
    assert_eq!(TxIdBuilder::new(&tx).txid(), Err(TxIdError::MissingBranchId));
}

#[test]
fn tx_personal_layout() {
    assert_eq!(hex(&calculate_tx_personal(0xc2d6_d0b4)), "5a636173685478486173685fb4d0d6c2");
}

#[test]
fn empty_orchard_digest() {
    let empty: Option<ShieldedData<Orchard>> = None;
    let digest = hash_orchard(&empty);
    assert!(digest.is_empty());
    assert_eq!(
        hex(&digest.finalize()),
        "9fbe4ed13b0c08e671c11a3407d84e1117cd45028a2eee1b9feae78b48a6e2c1"
    );
    let fresh = Hasher::new(&zebra_txid::digests::ZCASH_ORCHARD_HASH_PERSONALIZATION);
    assert_eq!(digest.finalize(), fresh.finalize());
    assert!(!hash_orchard(&Some(orchard_bundle())).is_empty());
}

#[test]
fn header_and_transparent_digests() {
    let header = hash_header(5 | 0x8000_0000, 0x26A7_270A, 0xc2d6_d0b4, 0, 10);
    assert_eq!(
        hex(&header.finalize()),
        "6333f775013184871eb7bbb1f426426749e7c7b1a701ff678437ee73451820d8"
    );
    let inputs = vec![Input::Coinbase { data: vec![3, 1, 2, 3], sequence: 0xffff_ffff }];
    let outputs = vec![Output { value: 5000, lock_script: vec![0x51] }];
    let transparent = hash_transparent(&inputs, &outputs);
    assert_eq!(
        hex(&transparent.finalize()),
        "8db4f2cb7a88c87d2ba5a36000f9647fa2599f1c69a595afc4dc3c6596649f86"
    );
    assert!(hash_transparent(&[], &[]).is_empty());
}

fn sapling_output() -> sapling::Output {
    let mut enc = [0u8; 580];
    for (i, b) in enc.iter_mut().enumerate() {
        *b = ((i * 7) % 256) as u8;
    }
    sapling::Output {
        cv: [0x41; 32],
        cm_u: [0x42; 32],
        ephemeral_key: [0x43; 32],
        enc_ciphertext: enc,
        out_ciphertext: WrappedNoteKey([0x44; 80]),
        zkproof: [0; 192],
    }
}

#[test]
fn sapling_digest_vectors() {
    let spend = sapling::Spend {
        cv: [0x31; 32],
        nullifier: [0x32; 32],
        rk: [0x33; 32],
        zkproof: [0; 192],
        spend_auth_sig: [0; 64],
    };
    let data = sapling::ShieldedData {
        value_balance: -250,
        shared_anchor: Some([0x21; 32]),
        spends: vec![spend],
        outputs: vec![sapling_output()],
        binding_sig: [0; 64],
    };
    assert_eq!(
        hex(&hash_sapling(&Some(data)).finalize()),
        "8bd903473e1ac72a5f80c152f1c3cd5510d08e54a4c902982b83f40b679b2938"
    );
    let outputs_only = sapling::ShieldedData {
        value_balance: -250,
        shared_anchor: None,
        spends: vec![],
        outputs: vec![sapling_output()],
        binding_sig: [0; 64],
    };
    assert_eq!(
        hex(&hash_sapling(&Some(outputs_only)).finalize()),
        "8c4eec18b0475d38fdee69714f1c3d6c102269d1d113f3746ea8aac6f51a244e"
    );
    assert!(hash_sapling(&None).is_empty());
}

#[test]
fn hasher_all_or_none() {
    let parent = [1u8; 16];
    let empty_children = [Hasher::new(&[2; 16]), Hasher::new(&[3; 16])];
    let h = Hasher::new(&parent).add_all_if_any_nonempty(&empty_children);
    assert!(h.is_empty());
    assert_eq!(h.finalize(), Hasher::new(&parent).finalize());

    let children = [Hasher::new(&[2; 16]), Hasher::new(&[3; 16]).add(&[9])];
    let h = Hasher::new(&parent).add_all_if_any_nonempty(&children);
    let expected = Hasher::new(&parent).add_hasher(&children[0]).add_hasher(&children[1]);
    assert_eq!(h.finalize(), expected.finalize());
    assert!(!h.is_empty());
    assert_eq!(h.finalize(), h.finalize());
}

#[test]
fn v5_encoding_layout() {
    let tx = v5_transaction(NetworkUpgrade::Nu5);
    let mut bytes = Vec::new();
    tx.zcash_serialize(&mut bytes);
    assert_eq!(bytes.len(), 1073);
    assert_eq!(&bytes[0..4], &[5, 0, 0, 0x80]);
    assert_eq!(&bytes[4..8], &0x26A7_270Au32.to_le_bytes());
    assert_eq!(
        hex(&zebra_txid::hashes::sha256d_digest(&bytes)),
        "fda44cfb96971a2c9c6d041d72bee1d0b359c247de0fc912c89a85a4b9e182fe"
    );
}
