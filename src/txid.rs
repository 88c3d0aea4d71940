//! Transaction identifiers: the double SHA-256 of the encoding for versions 1
//! to 4, and the ZIP-244 tree of personalized digests from version 5 on.
use vstd::prelude::*;

use crate::codec::le_u32;
use crate::digests::{
    ZCASH_TX_PERSONALIZATION_PREFIX, digest, hash_header, hash_orchard, hash_sapling,
    hash_transparent, header_bytes, orchard_bytes, sapling_bytes, transparent_bytes,
    ZCASH_HEADERS_HASH_PERSONALIZATION, ZCASH_ORCHARD_HASH_PERSONALIZATION,
    ZCASH_SAPLING_HASH_PERSONALIZATION, ZCASH_TRANSPARENT_HASH_PERSONALIZATION,
};
use crate::hasher::Hasher;
use crate::hashes::{sha256d, sha256d_digest};
use crate::orchard::{OrchardFlavour, ShieldedData};
use crate::sapling;
use crate::serialization::ZcashSerialize;
use crate::transaction::{
    Transaction, OVERWINTER_FLAG, TX_V5_VERSION_GROUP_ID, TX_V6_VERSION_GROUP_ID,
    spec_branch_id,
};
use crate::transparent::{Input, Output};

verus! {

/// A transaction identifier.
#[derive(Debug, Clone, Copy, PartialEq, Eq)]
pub struct Hash(pub [u8; 32]);

/// Why an identifier could not be computed.
#[derive(Debug, Clone, Copy, PartialEq, Eq, Structural)]
pub enum TxIdError {
    /// The transaction names a network upgrade without a consensus branch.
    MissingBranchId,
}

/// The personalization of the identifier of a transaction of the given
/// consensus branch.
pub open spec fn tx_personal(consensus_branch_id: u32) -> Seq<u8> {
    ZCASH_TX_PERSONALIZATION_PREFIX@ + le_u32(consensus_branch_id)
}

/// The input of the identifier digest: the digests of the header, the
/// transparent part, the Sapling bundle and the Orchard bundle, all four
/// always present and in that order.
pub open spec fn tree_bytes<V: OrchardFlavour>(
    version: u32,
    version_group_id: u32,
    consensus_branch_id: u32,
    lock_time: u32,
    expiry_height: u32,
    inputs: Seq<Input>,
    outputs: Seq<Output>,
    sapling_data: Option<sapling::ShieldedData>,
    orchard_data: Option<ShieldedData<V>>,
) -> Seq<u8> {
    digest(
        ZCASH_HEADERS_HASH_PERSONALIZATION@,
        header_bytes(version, version_group_id, consensus_branch_id, lock_time, expiry_height),
    ) + digest(ZCASH_TRANSPARENT_HASH_PERSONALIZATION@, transparent_bytes(inputs, outputs))
        + digest(ZCASH_SAPLING_HASH_PERSONALIZATION@, sapling_bytes(sapling_data)) + digest(
        ZCASH_ORCHARD_HASH_PERSONALIZATION@,
        orchard_bytes(orchard_data),
    )
}

/// The personalization and the input of the identifier digest of a version 5
/// or 6 transaction whose network upgrade has a consensus branch.
pub open spec fn spec_tree(tx: Transaction) -> Option<(Seq<u8>, Seq<u8>)> {
    match tx {
        Transaction::V5 {
            network_upgrade,
            lock_time,
            expiry_height,
            inputs,
            outputs,
            sapling_shielded_data,
            orchard_shielded_data,
        } => match spec_branch_id(network_upgrade) {
            Some(b) => Some(
                (
                    tx_personal(b),
                    tree_bytes(
                        5 | OVERWINTER_FLAG,
                        TX_V5_VERSION_GROUP_ID,
                        b,
                        lock_time,
                        expiry_height,
                        inputs@,
                        outputs@,
                        sapling_shielded_data,
                        orchard_shielded_data,
                    ),
                ),
            ),
            None => None,
        },
        Transaction::V6 {
            network_upgrade,
            lock_time,
            expiry_height,
            inputs,
            outputs,
            sapling_shielded_data,
            orchard_shielded_data,
        } => match spec_branch_id(network_upgrade) {
            Some(b) => Some(
                (
                    tx_personal(b),
                    tree_bytes(
                        6 | OVERWINTER_FLAG,
                        TX_V6_VERSION_GROUP_ID,
                        b,
                        lock_time,
                        expiry_height,
                        inputs@,
                        outputs@,
                        sapling_shielded_data,
                        orchard_shielded_data,
                    ),
                ),
            ),
            None => None,
        },
        _ => None,
    }
}

/// The identifier of a transaction, or `None` for a version 5 or 6
/// transaction whose network upgrade has no consensus branch.
pub open spec fn spec_txid(tx: Transaction) -> Option<Seq<u8>> {
    if tx.is_legacy() {
        Some(sha256d(tx.legacy_encoding()))
    } else {
        match spec_tree(tx) {
            Some((p, i)) => Some(digest(p, i)),
            None => None,
        }
    }
}

/// The personalization of the identifier: the prefix `ZcashTxHash_` and the
/// little-endian consensus branch.
pub fn calculate_tx_personal(consensus_branch_id: u32) -> (r: [u8; 16])
    ensures
        r@ == tx_personal(consensus_branch_id),
{
    let branch = vstd::bytes::u32_to_le_bytes(consensus_branch_id);
    let mut personal = [0u8; 16];
    let mut i: usize = 0;
    while i < 16
        invariant
            i <= 16,
            personal@.len() == 16,
            branch@ == le_u32(consensus_branch_id),
            branch@.len() == 4,
            forall|k: int| 0 <= k < i ==> personal@[k] == tx_personal(consensus_branch_id)[k],
        decreases 16 - i,
    {
        if i < 12 {
            personal[i] = ZCASH_TX_PERSONALIZATION_PREFIX[i];
        } else {
            personal[i] = branch[i - 12];
        }
        i = i + 1;
    }
    assert(personal@ =~= tx_personal(consensus_branch_id));
    personal
}

/// The tree of digests of one bundle flavour.
fn hash_tree<V: OrchardFlavour>(
    version: u32,
    version_group_id: u32,
    consensus_branch_id: u32,
    lock_time: u32,
    expiry_height: u32,
    inputs: &[Input],
    outputs: &[Output],
    sapling_data: &Option<sapling::ShieldedData>,
    orchard_data: &Option<ShieldedData<V>>,
) -> (r: Hasher)
    requires
        forall|i: int| 0 <= i < outputs@.len() ==> (#[trigger] outputs@[i]).wf(),
        sapling_data matches Some(d) ==> d.wf(),
        orchard_data matches Some(d) ==> d.wf(),
    ensures
        r.personal() == tx_personal(consensus_branch_id),
        r.input() == tree_bytes(
            version,
            version_group_id,
            consensus_branch_id,
            lock_time,
            expiry_height,
            inputs@,
            outputs@,
            *sapling_data,
            *orchard_data,
        ),
{
    let header = hash_header(version, version_group_id, consensus_branch_id, lock_time, expiry_height);
    let transparent = hash_transparent(inputs, outputs);
    let sapling = hash_sapling(sapling_data);
    let orchard = hash_orchard(orchard_data);
    let personal = calculate_tx_personal(consensus_branch_id);
    let r = Hasher::new(&personal).add_hasher(&header).add_hasher(&transparent).add_hasher(
        &sapling,
    ).add_hasher(&orchard);
    assert(r.input() =~= tree_bytes(
        version,
        version_group_id,
        consensus_branch_id,
        lock_time,
        expiry_height,
        inputs@,
        outputs@,
        *sapling_data,
        *orchard_data,
    ));
    r
}

/// The hasher of the identifier of a version 5 or 6 transaction, not yet
/// finalized; `None` for versions 1 to 4.
pub fn hash_txid(tx: &Transaction) -> (r: Result<Option<Hasher>, TxIdError>)
    requires
        tx.wf(),
    ensures
        tx.is_legacy() ==> r == Ok::<Option<Hasher>, TxIdError>(None),
        !tx.is_legacy() ==> match spec_tree(*tx) {
            Some((p, i)) => r matches Ok(Some(h)) && h.personal() == p && h.input() == i,
            None => r == Err::<Option<Hasher>, TxIdError>(TxIdError::MissingBranchId),
        },
{
    match tx {
        Transaction::V5 {
            network_upgrade,
            lock_time,
            expiry_height,
            inputs,
            outputs,
            sapling_shielded_data,
            orchard_shielded_data,
        } => {
            let branch = match network_upgrade.branch_id() {
                Some(b) => b,
                None => return Err(TxIdError::MissingBranchId),
            };
            Ok(
                Some(
                    hash_tree(
                        5 | OVERWINTER_FLAG,
                        TX_V5_VERSION_GROUP_ID,
                        branch,
                        *lock_time,
                        *expiry_height,
                        inputs.as_slice(),
                        outputs.as_slice(),
                        sapling_shielded_data,
                        orchard_shielded_data,
                    ),
                ),
            )
        },
        Transaction::V6 {
            network_upgrade,
            lock_time,
            expiry_height,
            inputs,
            outputs,
            sapling_shielded_data,
            orchard_shielded_data,
        } => {
            let branch = match network_upgrade.branch_id() {
                Some(b) => b,
                None => return Err(TxIdError::MissingBranchId),
            };
            Ok(
                Some(
                    hash_tree(
                        6 | OVERWINTER_FLAG,
                        TX_V6_VERSION_GROUP_ID,
                        branch,
                        *lock_time,
                        *expiry_height,
                        inputs.as_slice(),
                        outputs.as_slice(),
                        sapling_shielded_data,
                        orchard_shielded_data,
                    ),
                ),
            )
        },
        _ => Ok(None),
    }
}

/// The ZIP-244 identifier of a version 5 or 6 transaction; `None` for
/// versions 1 to 4, whose identifier is not a tree of digests.
pub fn calculate_txid(tx: &Transaction) -> (r: Result<Option<Hash>, TxIdError>)
    requires
        tx.wf(),
    ensures
        tx.is_legacy() ==> r == Ok::<Option<Hash>, TxIdError>(None),
        !tx.is_legacy() ==> match spec_txid(*tx) {
            Some(id) => r matches Ok(Some(h)) && h.0@ == id,
            None => r == Err::<Option<Hash>, TxIdError>(TxIdError::MissingBranchId),
        },
{
    match hash_txid(tx) {
        Ok(Some(hasher)) => Ok(Some(Hash(hasher.finalize()))),
        Ok(None) => Ok(None),
        Err(e) => Err(e),
    }
}

/// The identifier of a transaction of versions 1 to 4 depends on its encoding
/// alone: two such transactions with byte-identical encodings have the same
/// identifier.
pub proof fn lemma_legacy_txid_deterministic(a: Transaction, b: Transaction)
    requires
        a.is_legacy(),
        b.is_legacy(),
        a.legacy_encoding() == b.legacy_encoding(),
    ensures
        spec_txid(a) == spec_txid(b),
        spec_txid(a) == Some(sha256d(a.legacy_encoding())),
{
}

/// The identifier of a transaction from version 5 on depends only on its
/// consensus branch and the input of its tree of digests: two such
/// transactions that agree on both have the same identifier.
pub proof fn lemma_tree_txid_deterministic(a: Transaction, b: Transaction)
    requires
        !a.is_legacy(),
        !b.is_legacy(),
        spec_tree(a) == spec_tree(b),
    ensures
        spec_txid(a) == spec_txid(b),
{
}

/// Computes the identifier of one transaction.
pub struct TxIdBuilder<'a> {
    trans: &'a Transaction,
}

impl<'a> TxIdBuilder<'a> {
    /// The transaction the builder computes the identifier of.
    pub closed spec fn transaction(&self) -> Transaction {
        *self.trans
    }

    /// A builder for the given transaction.
    pub fn new(trans: &'a Transaction) -> (r: Self)
        ensures
            r.transaction() == *trans,
    {
        TxIdBuilder { trans }
    }

    /// The identifier of the transaction: the double SHA-256 of its encoding
    /// for versions 1 to 4, the ZIP-244 digest from version 5 on.
    pub fn txid(self) -> (r: Result<Hash, TxIdError>)
        requires
            self.transaction().wf(),
        ensures
            match spec_txid(self.transaction()) {
                Some(id) => r matches Ok(h) && h.0@ == id,
                None => r == Err::<Hash, TxIdError>(TxIdError::MissingBranchId),
            },
    {
        match self.trans {
            Transaction::V1 { .. } | Transaction::V2 { .. } | Transaction::V3 { .. }
            | Transaction::V4 { .. } => Ok(self.txid_v1_to_v4()),
            _ => self.txid_v5_v6(),
        }
    }

    /// The double SHA-256 of the encoding.
    fn txid_v1_to_v4(self) -> (r: Hash)
        requires
            self.transaction().wf(),
            self.transaction().is_legacy(),
        ensures
            r.0@ == sha256d(self.transaction().legacy_encoding()),
    {
        let mut bytes: Vec<u8> = Vec::new();
        self.trans.zcash_serialize(&mut bytes);
        assert(bytes@ =~= self.transaction().legacy_encoding());
        Hash(sha256d_digest(bytes.as_slice()))
    }

    /// The root of the tree of digests.
    fn txid_v5_v6(self) -> (r: Result<Hash, TxIdError>)
        requires
            self.transaction().wf(),
            !self.transaction().is_legacy(),
        ensures
            match spec_txid(self.transaction()) {
                Some(id) => r matches Ok(h) && h.0@ == id,
                None => r == Err::<Hash, TxIdError>(TxIdError::MissingBranchId),
            },
    {
        match calculate_txid(self.trans) {
            Ok(Some(h)) => Ok(h),
            Ok(None) => {
                proof {
                    assert(false);
                }
                Err(TxIdError::MissingBranchId)
            },
            Err(e) => Err(e),
        }
    }
}

} // verus!
