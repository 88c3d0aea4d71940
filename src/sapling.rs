//! The Sapling shielded pool, as a version 5 transaction carries it.
use vstd::prelude::*;

use crate::codec::{
    SerializationError, compact_size, le_i64, prefix_at, read_array, read_compactsize, read_i64,
    write_compactsize, write_i64,
};
use crate::hasher::append_bytes;
use crate::orchard::WrappedNoteKey;
use crate::serialization::{
    TrustedPreallocate, ZcashDeserialize, ZcashSerialize, lemma_prefix_at_join,
    lemma_prefix_at_split, lemma_seq_encoding_pointwise, read_items, seq_encoding, write_items,
};
use crate::transparent::MAX_BLOCK_BYTES;

verus! {

/// The size of a Sapling encrypted note.
pub const SAPLING_ENCRYPTED_NOTE_SIZE: usize = 580;

/// A Sapling spend description.
#[derive(Debug, Clone, Copy, PartialEq, Eq)]
pub struct Spend {
    /// The value commitment to the value of the note spent.
    pub cv: [u8; 32],
    /// The nullifier of the note spent.
    pub nullifier: [u8; 32],
    /// The randomized validating key of the spend authorization signature.
    pub rk: [u8; 32],
    /// The proof of the spend.
    pub zkproof: [u8; 192],
    /// The spend authorization signature.
    pub spend_auth_sig: [u8; 64],
}

/// A Sapling output description.
#[derive(Debug, Clone, Copy, PartialEq, Eq)]
pub struct Output {
    /// The value commitment to the value of the note created.
    pub cv: [u8; 32],
    /// The u-coordinate of the commitment to the note created.
    pub cm_u: [u8; 32],
    /// The ephemeral public key of the encryption.
    pub ephemeral_key: [u8; 32],
    /// The encrypted note.
    pub enc_ciphertext: [u8; 580],
    /// The outgoing ciphertext.
    pub out_ciphertext: WrappedNoteKey,
    /// The proof of the output.
    pub zkproof: [u8; 192],
}

/// The Sapling spends and outputs of a transaction, with their shared data.
#[derive(Debug, Clone, PartialEq, Eq)]
pub struct ShieldedData {
    /// The net value of Sapling spends minus outputs.
    pub value_balance: i64,
    /// The anchor shared by all spends; present exactly when there are spends.
    pub shared_anchor: Option<[u8; 32]>,
    /// The spends, in order.
    pub spends: Vec<Spend>,
    /// The outputs, in order.
    pub outputs: Vec<Output>,
    /// The binding signature.
    pub binding_sig: [u8; 64],
}

impl ShieldedData {
    /// A valid bundle has an anchor when it has spends, and at least one spend
    /// or output.
    pub open spec fn wf(&self) -> bool {
        &&& self.spends@.len() > 0 ==> self.shared_anchor is Some
        &&& self.spends@.len() > 0 || self.outputs@.len() > 0
    }

    /// The bytes of the shared anchor; empty when there is none.
    pub open spec fn anchor_bytes(&self) -> Seq<u8> {
        match self.shared_anchor {
            Some(a) => a@,
            None => seq![],
        }
    }

    /// The net value of Sapling spends minus outputs.
    pub fn value_balance(&self) -> (r: i64)
        ensures
            r == self.value_balance,
    {
        self.value_balance
    }
}

/// The part of a spend that a version 5 transaction stores with the other
/// spends' parts, before the proofs and signatures.
#[derive(Debug, Clone, Copy, PartialEq, Eq)]
pub struct SpendPrefixInTransactionV5 {
    /// The value commitment.
    pub cv: [u8; 32],
    /// The nullifier.
    pub nullifier: [u8; 32],
    /// The randomized validating key.
    pub rk: [u8; 32],
}

/// The part of an output that a version 5 transaction stores with the other
/// outputs' parts, before the proofs.
#[derive(Debug, Clone, Copy, PartialEq, Eq)]
pub struct OutputInTransactionV5 {
    /// The value commitment.
    pub cv: [u8; 32],
    /// The note commitment.
    pub cm_u: [u8; 32],
    /// The ephemeral public key.
    pub ephemeral_key: [u8; 32],
    /// The encrypted note.
    pub enc_ciphertext: [u8; 580],
    /// The outgoing ciphertext.
    pub out_ciphertext: WrappedNoteKey,
}

/// The encoded size of a spend with its proof and signature.
pub const SHARED_ANCHOR_SPEND_SIZE: u64 = 32 * 3 + 192 + 64;

/// The encoded size of an output with its proof.
pub const OUTPUT_SIZE: u64 = 32 * 3 + 580 + 80 + 192;

impl ZcashSerialize for SpendPrefixInTransactionV5 {
    open spec fn wf(&self) -> bool {
        true
    }

    open spec fn encoding(&self) -> Seq<u8> {
        self.cv@ + self.nullifier@ + self.rk@
    }

    fn zcash_serialize(&self, out: &mut Vec<u8>) {
        append_bytes(out, self.cv.as_slice());
        append_bytes(out, self.nullifier.as_slice());
        append_bytes(out, self.rk.as_slice());
        assert(final(out)@ =~= old(out)@ + self.encoding());
    }
}

impl ZcashDeserialize for SpendPrefixInTransactionV5 {
    fn zcash_deserialize(data: &[u8], pos: usize) -> (r: Result<(Self, usize), SerializationError>) {
        proof {
            assert forall|x: Self| x.wf() && prefix_at(data@, pos as int, #[trigger] x.encoding())
                implies prefix_at(data@, pos as int, x.cv@) && prefix_at(data@, pos + 32, x.nullifier@)
                && prefix_at(data@, pos + 64, x.rk@) by {
                lemma_prefix_at_split(data@, pos as int, x.cv@ + x.nullifier@, x.rk@);
                lemma_prefix_at_split(data@, pos as int, x.cv@, x.nullifier@);
            }
        }
        let (cv, p1) = match read_array::<32>(data, pos) {
            Ok(x) => x,
            Err(e) => return Err(e),
        };
        let (nullifier, p2) = match read_array::<32>(data, p1) {
            Ok(x) => x,
            Err(e) => return Err(e),
        };
        let (rk, end) = match read_array::<32>(data, p2) {
            Ok(x) => x,
            Err(e) => return Err(e),
        };
        proof {
            lemma_prefix_at_join(data@, pos as int, cv@, nullifier@);
            lemma_prefix_at_join(data@, pos as int, cv@ + nullifier@, rk@);
        }
        Ok((SpendPrefixInTransactionV5 { cv, nullifier, rk }, end))
    }
}

impl ZcashSerialize for OutputInTransactionV5 {
    open spec fn wf(&self) -> bool {
        true
    }

    open spec fn encoding(&self) -> Seq<u8> {
        self.cv@ + self.cm_u@ + self.ephemeral_key@ + self.enc_ciphertext@ + self.out_ciphertext.0@
    }

    fn zcash_serialize(&self, out: &mut Vec<u8>) {
        append_bytes(out, self.cv.as_slice());
        append_bytes(out, self.cm_u.as_slice());
        append_bytes(out, self.ephemeral_key.as_slice());
        append_bytes(out, self.enc_ciphertext.as_slice());
        append_bytes(out, self.out_ciphertext.0.as_slice());
        assert(final(out)@ =~= old(out)@ + self.encoding());
    }
}

impl ZcashDeserialize for OutputInTransactionV5 {
    fn zcash_deserialize(data: &[u8], pos: usize) -> (r: Result<(Self, usize), SerializationError>) {
        proof {
            assert forall|x: Self| x.wf() && prefix_at(data@, pos as int, #[trigger] x.encoding())
                implies prefix_at(data@, pos as int, x.cv@) && prefix_at(data@, pos + 32, x.cm_u@)
                && prefix_at(data@, pos + 64, x.ephemeral_key@) && prefix_at(
                data@,
                pos + 96,
                x.enc_ciphertext@,
            ) && prefix_at(data@, pos + 676, x.out_ciphertext.0@) by {
                let a = x.cv@;
                let b = x.cm_u@;
                let c = x.ephemeral_key@;
                let d = x.enc_ciphertext@;
                let e = x.out_ciphertext.0@;
                lemma_prefix_at_split(data@, pos as int, a + b + c + d, e);
                lemma_prefix_at_split(data@, pos as int, a + b + c, d);
                lemma_prefix_at_split(data@, pos as int, a + b, c);
                lemma_prefix_at_split(data@, pos as int, a, b);
            }
        }
        let (cv, p1) = match read_array::<32>(data, pos) {
            Ok(x) => x,
            Err(e) => return Err(e),
        };
        let (cm_u, p2) = match read_array::<32>(data, p1) {
            Ok(x) => x,
            Err(e) => return Err(e),
        };
        let (ephemeral_key, p3) = match read_array::<32>(data, p2) {
            Ok(x) => x,
            Err(e) => return Err(e),
        };
        let (enc_ciphertext, p4) = match read_array::<580>(data, p3) {
            Ok(x) => x,
            Err(e) => return Err(e),
        };
        let (out, end) = match read_array::<80>(data, p4) {
            Ok(x) => x,
            Err(e) => return Err(e),
        };
        proof {
            lemma_prefix_at_join(data@, pos as int, cv@, cm_u@);
            lemma_prefix_at_join(data@, pos as int, cv@ + cm_u@, ephemeral_key@);
            lemma_prefix_at_join(data@, pos as int, cv@ + cm_u@ + ephemeral_key@, enc_ciphertext@);
            lemma_prefix_at_join(
                data@,
                pos as int,
                cv@ + cm_u@ + ephemeral_key@ + enc_ciphertext@,
                out@,
            );
        }
        Ok((
            OutputInTransactionV5 {
                cv,
                cm_u,
                ephemeral_key,
                enc_ciphertext,
                out_ciphertext: WrappedNoteKey(out),
            },
            end,
        ))
    }
}

impl TrustedPreallocate for SpendPrefixInTransactionV5 {
    /// Each spend takes its prefix, its proof and its signature.
    open spec fn spec_max_allocation() -> nat {
        ((MAX_BLOCK_BYTES - 1) as int / SHARED_ANCHOR_SPEND_SIZE as int) as nat
    }

    fn max_allocation() -> (r: u64) {
        (MAX_BLOCK_BYTES - 1) / SHARED_ANCHOR_SPEND_SIZE
    }
}

impl TrustedPreallocate for OutputInTransactionV5 {
    /// Each output takes its description and its proof.
    open spec fn spec_max_allocation() -> nat {
        ((MAX_BLOCK_BYTES - 1) as int / OUTPUT_SIZE as int) as nat
    }

    fn max_allocation() -> (r: u64) {
        (MAX_BLOCK_BYTES - 1) / OUTPUT_SIZE
    }
}

impl Spend {
    /// The part stored before the proofs.
    pub open spec fn spec_prefix(&self) -> SpendPrefixInTransactionV5 {
        SpendPrefixInTransactionV5 { cv: self.cv, nullifier: self.nullifier, rk: self.rk }
    }
}

impl Output {
    /// The part stored before the proofs.
    pub open spec fn spec_in_tx(&self) -> OutputInTransactionV5 {
        OutputInTransactionV5 {
            cv: self.cv,
            cm_u: self.cm_u,
            ephemeral_key: self.ephemeral_key,
            enc_ciphertext: self.enc_ciphertext,
            out_ciphertext: self.out_ciphertext,
        }
    }
}

/// The prefixes of the spends.
pub open spec fn spend_prefixes(s: Seq<Spend>) -> Seq<SpendPrefixInTransactionV5> {
    s.map_values(|x: Spend| x.spec_prefix())
}

/// The proofs of the spends.
pub open spec fn spend_proofs(s: Seq<Spend>) -> Seq<[u8; 192]> {
    s.map_values(|x: Spend| x.zkproof)
}

/// The signatures of the spends.
pub open spec fn spend_sigs(s: Seq<Spend>) -> Seq<[u8; 64]> {
    s.map_values(|x: Spend| x.spend_auth_sig)
}

/// The descriptions of the outputs.
pub open spec fn output_descs(o: Seq<Output>) -> Seq<OutputInTransactionV5> {
    o.map_values(|x: Output| x.spec_in_tx())
}

/// The proofs of the outputs.
pub open spec fn output_proofs(o: Seq<Output>) -> Seq<[u8; 192]> {
    o.map_values(|x: Output| x.zkproof)
}

/// The anchor as the encoding stores it: only when there are spends.
pub open spec fn stored_anchor(d: ShieldedData) -> Seq<u8> {
    if d.spends@.len() > 0 {
        d.anchor_bytes()
    } else {
        seq![]
    }
}

/// The leading half of the Sapling part: the spend prefixes and the output
/// descriptions, each with its count.
pub open spec fn sapling_head(spends: Seq<Spend>, outputs: Seq<Output>) -> Seq<u8> {
    compact_size(spends.len() as u64) + seq_encoding(spend_prefixes(spends)) + compact_size(
        outputs.len() as u64,
    ) + seq_encoding(output_descs(outputs))
}

/// The trailing half of the Sapling part of a bundle.
pub open spec fn sapling_tail(d: ShieldedData) -> Seq<u8> {
    le_i64(d.value_balance) + stored_anchor(d) + seq_encoding(spend_proofs(d.spends@))
        + seq_encoding(spend_sigs(d.spends@)) + seq_encoding(output_proofs(d.outputs@))
        + d.binding_sig@
}

/// The encoding of the Sapling part of a version 5 transaction: the spend
/// prefixes and the output descriptions, each with its count; then, for a
/// bundle, the value balance, the anchor if there are spends, the spend
/// proofs, the spend signatures, the output proofs and the binding signature.
pub open spec fn sapling_part_encoding(data: Option<ShieldedData>) -> Seq<u8> {
    match data {
        None => compact_size(0) + compact_size(0),
        Some(d) => sapling_head(d.spends@, d.outputs@) + sapling_tail(d),
    }
}

impl ShieldedData {
    /// A bundle that its encoding can carry: valid, with no more spends and
    /// outputs than a block can hold.
    pub open spec fn readable(&self) -> bool {
        &&& self.wf()
        &&& self.spends@.len() <= SpendPrefixInTransactionV5::spec_max_allocation()
        &&& self.outputs@.len() <= OutputInTransactionV5::spec_max_allocation()
    }
}

/// The spends of an optional bundle.
pub open spec fn spends_of(d: Option<ShieldedData>) -> Seq<Spend> {
    match d {
        None => seq![],
        Some(x) => x.spends@,
    }
}

/// The outputs of an optional bundle.
pub open spec fn outputs_of(d: Option<ShieldedData>) -> Seq<Output> {
    match d {
        None => seq![],
        Some(x) => x.outputs@,
    }
}

/// The Sapling part of `d` stands at `pos`, for a readable bundle or none.
pub open spec fn sapling_part_at(data: Seq<u8>, pos: int, d: Option<ShieldedData>) -> bool {
    &&& d matches Some(x) ==> x.readable()
    &&& prefix_at(data, pos, sapling_part_encoding(d))
}

/// Where the Sapling part stands, its leading half stands, and the trailing
/// half of a bundle after it.
proof fn lemma_sapling_part_split(data: Seq<u8>, pos: int, d: Option<ShieldedData>)
    requires
        sapling_part_at(data, pos, d),
    ensures
        prefix_at(data, pos, compact_size(spends_of(d).len() as u64)),
        prefix_at(
            data,
            pos + compact_size(spends_of(d).len() as u64).len(),
            seq_encoding(spend_prefixes(spends_of(d))),
        ),
        prefix_at(
            data,
            pos + compact_size(spends_of(d).len() as u64).len() + seq_encoding(
                spend_prefixes(spends_of(d)),
            ).len(),
            compact_size(outputs_of(d).len() as u64),
        ),
        prefix_at(
            data,
            pos + compact_size(spends_of(d).len() as u64).len() + seq_encoding(
                spend_prefixes(spends_of(d)),
            ).len() + compact_size(outputs_of(d).len() as u64).len(),
            seq_encoding(output_descs(outputs_of(d))),
        ),
        d matches Some(x) ==> prefix_at(
            data,
            pos + sapling_head(x.spends@, x.outputs@).len(),
            sapling_tail(x),
        ),
{
    let s = spends_of(d);
    let o = outputs_of(d);
    let a = compact_size(s.len() as u64);
    let b = seq_encoding(spend_prefixes(s));
    let c = compact_size(o.len() as u64);
    let e = seq_encoding(output_descs(o));
    if d is None {
        assert(spend_prefixes(s) =~= Seq::<SpendPrefixInTransactionV5>::empty());
        assert(output_descs(o) =~= Seq::<OutputInTransactionV5>::empty());
        assert(sapling_part_encoding(d) =~= a + b + c + e);
    } else {
        lemma_prefix_at_split(data, pos, a + b + c + e, sapling_tail(d->0));
    }
    lemma_prefix_at_split(data, pos, a + b + c, e);
    lemma_prefix_at_split(data, pos, a + b, c);
    lemma_prefix_at_split(data, pos, a, b);
}

/// Where the trailing half of a bundle stands, each of its parts stands
/// after the parts before it.
proof fn lemma_sapling_tail_parts(data: Seq<u8>, pos: int, x: ShieldedData)
    requires
        prefix_at(data, pos, sapling_tail(x)),
    ensures
        prefix_at(data, pos, le_i64(x.value_balance)),
        prefix_at(data, pos + 8, stored_anchor(x)),
        prefix_at(data, pos + 8 + stored_anchor(x).len(), seq_encoding(spend_proofs(x.spends@))),
        prefix_at(
            data,
            pos + 8 + stored_anchor(x).len() + seq_encoding(spend_proofs(x.spends@)).len(),
            seq_encoding(spend_sigs(x.spends@)),
        ),
        prefix_at(
            data,
            pos + 8 + stored_anchor(x).len() + seq_encoding(spend_proofs(x.spends@)).len()
                + seq_encoding(spend_sigs(x.spends@)).len(),
            seq_encoding(output_proofs(x.outputs@)),
        ),
        prefix_at(
            data,
            pos + 8 + stored_anchor(x).len() + seq_encoding(spend_proofs(x.spends@)).len()
                + seq_encoding(spend_sigs(x.spends@)).len() + seq_encoding(
                output_proofs(x.outputs@),
            ).len(),
            x.binding_sig@,
        ),
{
    vstd::bytes::lemma_auto_spec_u64_to_from_le_bytes();
    let a = le_i64(x.value_balance);
    let b = stored_anchor(x);
    let c = seq_encoding(spend_proofs(x.spends@));
    let d = seq_encoding(spend_sigs(x.spends@));
    let e = seq_encoding(output_proofs(x.outputs@));
    let f = x.binding_sig@;
    lemma_prefix_at_split(data, pos, a + b + c + d + e, f);
    lemma_prefix_at_split(data, pos, a + b + c + d, e);
    lemma_prefix_at_split(data, pos, a + b + c, d);
    lemma_prefix_at_split(data, pos, a + b, c);
    lemma_prefix_at_split(data, pos, a, b);
}

/// Reads the trailing half of a bundle whose spend prefixes and output
/// descriptions were read.
#[verifier::rlimit(40)]
fn read_sapling_tail(
    data: &[u8],
    start: usize,
    prefixes: Vec<SpendPrefixInTransactionV5>,
    descs: Vec<OutputInTransactionV5>,
) -> (r: Result<(ShieldedData, usize), SerializationError>)
    requires
        prefixes@.len() + descs@.len() > 0,
        prefixes@.len() <= u64::MAX,
        descs@.len() <= u64::MAX,
    ensures
        match r {
            Ok((y, end)) => {
                &&& y.wf()
                &&& spend_prefixes(y.spends@) == prefixes@
                &&& output_descs(y.outputs@) == descs@
                &&& end == start + sapling_tail(y).len()
                &&& prefix_at(data@, start as int, sapling_tail(y))
            },
            Err(_) => true,
        },
        forall|x: ShieldedData|
            x.wf() && x.spends@.len() == prefixes@.len() && x.outputs@.len() == descs@.len()
                && prefix_at(data@, start as int, #[trigger] sapling_tail(x)) ==> (r matches Ok(
                (y, end),
            ) && sapling_tail(y) == sapling_tail(x)),
{
    let ns = prefixes.len();
    let no = descs.len();
    proof {
        vstd::bytes::lemma_auto_spec_u64_to_from_le_bytes();
        assert forall|x: ShieldedData|
            x.wf() && x.spends@.len() == prefixes@.len() && x.outputs@.len() == descs@.len()
                && prefix_at(data@, start as int, #[trigger] sapling_tail(x)) implies prefix_at(
            data@,
            start as int,
            le_i64(x.value_balance),
        ) by {
            lemma_sapling_tail_parts(data@, start as int, x);
        }
    }
    let (value_balance, p1) = match read_i64(data, start) {
        Ok(x) => x,
        Err(e) => return Err(e),
    };
    let (shared_anchor, p2) = if ns > 0 {
        match read_array::<32>(data, p1) {
            Ok((a, p)) => (Some(a), p),
            Err(e) => {
                proof {
                    assert forall|x: ShieldedData|
                        x.wf() && x.spends@.len() == prefixes@.len() && x.outputs@.len()
                            == descs@.len() && prefix_at(data@, start as int, #[trigger] sapling_tail(x))
                            implies false by {
                        lemma_sapling_tail_parts(data@, start as int, x);
                    }
                }
                return Err(e);
            },
        }
    } else {
        (None, p1)
    };
    let ghost anchor_part = if ns > 0 {
        shared_anchor->0@
    } else {
        Seq::<u8>::empty()
    };
    proof {
        if ns == 0 {
            assert(data@.subrange(p1 as int, p1 as int) =~= anchor_part);
        }
        assert forall|x: ShieldedData|
            x.wf() && x.spends@.len() == prefixes@.len() && x.outputs@.len() == descs@.len()
                && prefix_at(data@, start as int, #[trigger] sapling_tail(x)) implies x.value_balance
            == value_balance && stored_anchor(x) == anchor_part && prefix_at(
            data@,
            p2 as int,
            seq_encoding(spend_proofs(x.spends@)),
        ) by {
            lemma_sapling_tail_parts(data@, start as int, x);
        }
    }
    let (proofs, p3) = match read_items::<[u8; 192]>(data, p2, ns as u64) {
        Ok(x) => x,
        Err(e) => return Err(e),
    };
    proof {
        assert forall|x: ShieldedData|
            x.wf() && x.spends@.len() == prefixes@.len() && x.outputs@.len() == descs@.len()
                && prefix_at(data@, start as int, #[trigger] sapling_tail(x)) implies seq_encoding(
            proofs@,
        ) == seq_encoding(spend_proofs(x.spends@)) && prefix_at(
            data@,
            p3 as int,
            seq_encoding(spend_sigs(x.spends@)),
        ) by {
            lemma_sapling_tail_parts(data@, start as int, x);
            lemma_seq_encoding_pointwise(proofs@, spend_proofs(x.spends@));
        }
    }
    let (sigs, p4) = match read_items::<[u8; 64]>(data, p3, ns as u64) {
        Ok(x) => x,
        Err(e) => return Err(e),
    };
    proof {
        assert forall|x: ShieldedData|
            x.wf() && x.spends@.len() == prefixes@.len() && x.outputs@.len() == descs@.len()
                && prefix_at(data@, start as int, #[trigger] sapling_tail(x)) implies seq_encoding(
            sigs@,
        ) == seq_encoding(spend_sigs(x.spends@)) && prefix_at(
            data@,
            p4 as int,
            seq_encoding(output_proofs(x.outputs@)),
        ) by {
            lemma_sapling_tail_parts(data@, start as int, x);
            lemma_seq_encoding_pointwise(proofs@, spend_proofs(x.spends@));
            lemma_seq_encoding_pointwise(sigs@, spend_sigs(x.spends@));
        }
    }
    let (output_zkproofs, p5) = match read_items::<[u8; 192]>(data, p4, no as u64) {
        Ok(x) => x,
        Err(e) => return Err(e),
    };
    proof {
        assert forall|x: ShieldedData|
            x.wf() && x.spends@.len() == prefixes@.len() && x.outputs@.len() == descs@.len()
                && prefix_at(data@, start as int, #[trigger] sapling_tail(x)) implies seq_encoding(
            output_zkproofs@,
        ) == seq_encoding(output_proofs(x.outputs@)) && prefix_at(
            data@,
            p5 as int,
            x.binding_sig@,
        ) by {
            lemma_sapling_tail_parts(data@, start as int, x);
            lemma_seq_encoding_pointwise(proofs@, spend_proofs(x.spends@));
            lemma_seq_encoding_pointwise(sigs@, spend_sigs(x.spends@));
            lemma_seq_encoding_pointwise(output_zkproofs@, output_proofs(x.outputs@));
        }
    }
    let (binding_sig, end) = match read_array::<64>(data, p5) {
        Ok(x) => x,
        Err(e) => return Err(e),
    };
    let mut spends: Vec<Spend> = Vec::new();
    let mut i: usize = 0;
    while i < ns
        invariant
            i <= ns,
            ns == prefixes@.len(),
            proofs@.len() == ns,
            sigs@.len() == ns,
            spends@.len() == i,
            forall|j: int|
                0 <= j < i ==> (#[trigger] spends@[j]).spec_prefix() == prefixes@[j]
                    && spends@[j].zkproof == proofs@[j] && spends@[j].spend_auth_sig == sigs@[j],
        decreases ns - i,
    {
        let prefix = prefixes[i];
        spends.push(
            Spend {
                cv: prefix.cv,
                nullifier: prefix.nullifier,
                rk: prefix.rk,
                zkproof: proofs[i],
                spend_auth_sig: sigs[i],
            },
        );
        i = i + 1;
    }
    let mut outputs: Vec<Output> = Vec::new();
    let mut k: usize = 0;
    while k < no
        invariant
            k <= no,
            no == descs@.len(),
            output_zkproofs@.len() == no,
            outputs@.len() == k,
            forall|j: int|
                0 <= j < k ==> (#[trigger] outputs@[j]).spec_in_tx() == descs@[j]
                    && outputs@[j].zkproof == output_zkproofs@[j],
        decreases no - k,
    {
        let desc = descs[k];
        outputs.push(
            Output {
                cv: desc.cv,
                cm_u: desc.cm_u,
                ephemeral_key: desc.ephemeral_key,
                enc_ciphertext: desc.enc_ciphertext,
                out_ciphertext: desc.out_ciphertext,
                zkproof: output_zkproofs[k],
            },
        );
        k = k + 1;
    }
    let y = ShieldedData { value_balance, shared_anchor, spends, outputs, binding_sig };
    proof {
        assert(spend_prefixes(y.spends@) =~= prefixes@);
        assert(output_descs(y.outputs@) =~= descs@);
        assert(spend_proofs(y.spends@) =~= proofs@);
        assert(spend_sigs(y.spends@) =~= sigs@);
        assert(output_proofs(y.outputs@) =~= output_zkproofs@);
        assert(stored_anchor(y) == anchor_part);
        let a = le_i64(value_balance);
        lemma_prefix_at_join(data@, start as int, a, anchor_part);
        lemma_prefix_at_join(data@, start as int, a + anchor_part, seq_encoding(proofs@));
        lemma_prefix_at_join(
            data@,
            start as int,
            a + anchor_part + seq_encoding(proofs@),
            seq_encoding(sigs@),
        );
        lemma_prefix_at_join(
            data@,
            start as int,
            a + anchor_part + seq_encoding(proofs@) + seq_encoding(sigs@),
            seq_encoding(output_zkproofs@),
        );
        lemma_prefix_at_join(
            data@,
            start as int,
            a + anchor_part + seq_encoding(proofs@) + seq_encoding(sigs@) + seq_encoding(
                output_zkproofs@,
            ),
            binding_sig@,
        );
        assert forall|x: ShieldedData|
            x.wf() && x.spends@.len() == prefixes@.len() && x.outputs@.len() == descs@.len()
                && prefix_at(data@, start as int, #[trigger] sapling_tail(x)) implies sapling_tail(y)
            == sapling_tail(x) by {
            lemma_sapling_tail_parts(data@, start as int, x);
            lemma_seq_encoding_pointwise(proofs@, spend_proofs(x.spends@));
            lemma_seq_encoding_pointwise(sigs@, spend_sigs(x.spends@));
            lemma_seq_encoding_pointwise(output_zkproofs@, output_proofs(x.outputs@));
        }
    }
    Ok((y, end))
}

/// Reads the Sapling part of a version 5 or 6 transaction: `None` when it
/// has neither spends nor outputs.
#[verifier::rlimit(80)]
pub fn read_sapling_part(data: &[u8], pos: usize) -> (r: Result<
    (Option<ShieldedData>, usize),
    SerializationError,
>)
    ensures
        match r {
            Ok((d, end)) => (d matches Some(x) ==> x.readable()) && end == pos
                + sapling_part_encoding(d).len() && prefix_at(
                data@,
                pos as int,
                sapling_part_encoding(d),
            ),
            Err(_) => true,
        },
        forall|d: Option<ShieldedData>| #[trigger]
            sapling_part_at(data@, pos as int, d) ==> (r matches Ok((e, end))
                && sapling_part_encoding(e) == sapling_part_encoding(d) && end == pos
                + sapling_part_encoding(d).len()),
{
    let (ns, p0) = match read_compactsize(data, pos) {
        Ok(x) => x,
        Err(e) => {
            proof {
                assert forall|d: Option<ShieldedData>| #[trigger] sapling_part_at(data@, pos as int, d)
                    implies false by {
                    lemma_sapling_part_split(data@, pos as int, d);
                }
            }
            return Err(e);
        },
    };
    proof {
        assert forall|d: Option<ShieldedData>| #[trigger] sapling_part_at(data@, pos as int, d)
            implies spends_of(d).len() == ns && prefix_at(
            data@,
            p0 as int,
            seq_encoding(spend_prefixes(spends_of(d))),
        ) by {
            lemma_sapling_part_split(data@, pos as int, d);
        }
    }
    if ns > SpendPrefixInTransactionV5::max_allocation() {
        return Err(SerializationError::PreallocationExceeded);
    }
    let (prefixes, p1) = match read_items::<SpendPrefixInTransactionV5>(data, p0, ns) {
        Ok(x) => x,
        Err(e) => return Err(e),
    };
    proof {
        assert forall|d: Option<ShieldedData>| #[trigger] sapling_part_at(data@, pos as int, d)
            implies seq_encoding(prefixes@) == seq_encoding(spend_prefixes(spends_of(d)))
            && prefix_at(data@, p1 as int, compact_size(outputs_of(d).len() as u64)) by {
            lemma_sapling_part_split(data@, pos as int, d);
            lemma_seq_encoding_pointwise(prefixes@, spend_prefixes(spends_of(d)));
        }
    }
    let (no, p2) = match read_compactsize(data, p1) {
        Ok(x) => x,
        Err(e) => return Err(e),
    };
    proof {
        assert forall|d: Option<ShieldedData>| #[trigger] sapling_part_at(data@, pos as int, d)
            implies outputs_of(d).len() == no && prefix_at(
            data@,
            p2 as int,
            seq_encoding(output_descs(outputs_of(d))),
        ) by {
            lemma_sapling_part_split(data@, pos as int, d);
            lemma_seq_encoding_pointwise(prefixes@, spend_prefixes(spends_of(d)));
        }
    }
    if no > OutputInTransactionV5::max_allocation() {
        return Err(SerializationError::PreallocationExceeded);
    }
    let (descs, p3) = match read_items::<OutputInTransactionV5>(data, p2, no) {
        Ok(x) => x,
        Err(e) => return Err(e),
    };
    let ghost head = compact_size(ns) + seq_encoding(prefixes@) + compact_size(no) + seq_encoding(
        descs@,
    );
    proof {
        lemma_prefix_at_join(data@, pos as int, compact_size(ns), seq_encoding(prefixes@));
        lemma_prefix_at_join(
            data@,
            pos as int,
            compact_size(ns) + seq_encoding(prefixes@),
            compact_size(no),
        );
        lemma_prefix_at_join(
            data@,
            pos as int,
            compact_size(ns) + seq_encoding(prefixes@) + compact_size(no),
            seq_encoding(descs@),
        );
        assert forall|d: Option<ShieldedData>| #[trigger] sapling_part_at(data@, pos as int, d)
            implies seq_encoding(descs@) == seq_encoding(output_descs(outputs_of(d))) && (
        d matches Some(x) ==> prefix_at(data@, p3 as int, sapling_tail(x))) by {
            lemma_sapling_part_split(data@, pos as int, d);
            lemma_seq_encoding_pointwise(prefixes@, spend_prefixes(spends_of(d)));
            lemma_seq_encoding_pointwise(descs@, output_descs(outputs_of(d)));
        }
    }
    if ns == 0 && no == 0 {
        proof {
            assert(seq_encoding(prefixes@) =~= Seq::<u8>::empty());
            assert(seq_encoding(descs@) =~= Seq::<u8>::empty());
            assert(head =~= sapling_part_encoding(None));
            assert forall|d: Option<ShieldedData>| #[trigger] sapling_part_at(data@, pos as int, d)
                implies d is None by {
                lemma_sapling_part_split(data@, pos as int, d);
            }
        }
        return Ok((None, p3));
    }
    let ghost prefixes_v = prefixes@;
    let ghost descs_v = descs@;
    let (y, end) = match read_sapling_tail(data, p3, prefixes, descs) {
        Ok(x) => x,
        Err(e) => {
            proof {
                assert forall|d: Option<ShieldedData>| #[trigger] sapling_part_at(data@, pos as int, d)
                    implies false by {
                    lemma_sapling_part_split(data@, pos as int, d);
                    if let Some(x) = d {
                        assert(x.spends@.len() == prefixes_v.len());
                    }
                }
            }
            return Err(e);
        },
    };
    proof {
        assert(sapling_head(y.spends@, y.outputs@) =~= head);
        lemma_prefix_at_join(data@, pos as int, head, sapling_tail(y));
        assert forall|d: Option<ShieldedData>| #[trigger] sapling_part_at(data@, pos as int, d)
            implies sapling_part_encoding(Some(y)) == sapling_part_encoding(d) by {
            lemma_sapling_part_split(data@, pos as int, d);
            if let Some(x) = d {
                assert(x.spends@.len() == prefixes_v.len());
                assert(sapling_head(x.spends@, x.outputs@) == head);
            }
        }
    }
    Ok((Some(y), end))
}

/// Appends the Sapling part of a version 5 transaction.
pub fn write_sapling_part(out: &mut Vec<u8>, data: &Option<ShieldedData>)
    requires
        data matches Some(d) ==> d.wf() && d.spends@.len() <= u64::MAX && d.outputs@.len()
            <= u64::MAX,
    ensures
        final(out)@ == old(out)@ + sapling_part_encoding(*data),
{
    match data {
        None => {
            write_compactsize(out, 0);
            write_compactsize(out, 0);
            assert(final(out)@ =~= old(out)@ + sapling_part_encoding(*data));
        },
        Some(d) => {
            let spends = d.spends.as_slice();
            let outputs = d.outputs.as_slice();
            let mut prefixes: Vec<SpendPrefixInTransactionV5> = Vec::new();
            let mut proofs: Vec<[u8; 192]> = Vec::new();
            let mut sigs: Vec<[u8; 64]> = Vec::new();
            let mut i: usize = 0;
            while i < spends.len()
                invariant
                    i <= spends@.len(),
                    prefixes@ == spend_prefixes(spends@).take(i as int),
                    proofs@ == spend_proofs(spends@).take(i as int),
                    sigs@ == spend_sigs(spends@).take(i as int),
                decreases spends@.len() - i,
            {
                let spend = spends[i];
                prefixes.push(SpendPrefixInTransactionV5 { cv: spend.cv, nullifier: spend.nullifier, rk: spend.rk });
                proofs.push(spend.zkproof);
                sigs.push(spend.spend_auth_sig);
                assert(prefixes@ =~= spend_prefixes(spends@).take(i + 1));
                assert(proofs@ =~= spend_proofs(spends@).take(i + 1));
                assert(sigs@ =~= spend_sigs(spends@).take(i + 1));
                i = i + 1;
            }
            let mut descs: Vec<OutputInTransactionV5> = Vec::new();
            let mut output_zkproofs: Vec<[u8; 192]> = Vec::new();
            let mut k: usize = 0;
            while k < outputs.len()
                invariant
                    k <= outputs@.len(),
                    descs@ == output_descs(outputs@).take(k as int),
                    output_zkproofs@ == output_proofs(outputs@).take(k as int),
                decreases outputs@.len() - k,
            {
                let output = outputs[k];
                descs.push(
                    OutputInTransactionV5 {
                        cv: output.cv,
                        cm_u: output.cm_u,
                        ephemeral_key: output.ephemeral_key,
                        enc_ciphertext: output.enc_ciphertext,
                        out_ciphertext: output.out_ciphertext,
                    },
                );
                output_zkproofs.push(output.zkproof);
                assert(descs@ =~= output_descs(outputs@).take(k + 1));
                assert(output_zkproofs@ =~= output_proofs(outputs@).take(k + 1));
                k = k + 1;
            }
            assert(spend_prefixes(spends@).take(spends@.len() as int) =~= spend_prefixes(spends@));
            assert(spend_proofs(spends@).take(spends@.len() as int) =~= spend_proofs(spends@));
            assert(spend_sigs(spends@).take(spends@.len() as int) =~= spend_sigs(spends@));
            assert(output_descs(outputs@).take(outputs@.len() as int) =~= output_descs(outputs@));
            assert(output_proofs(outputs@).take(outputs@.len() as int) =~= output_proofs(outputs@));
            write_compactsize(out, spends.len() as u64);
            write_items(out, prefixes.as_slice());
            write_compactsize(out, outputs.len() as u64);
            write_items(out, descs.as_slice());
            write_i64(out, d.value_balance);
            if spends.len() > 0 {
                match &d.shared_anchor {
                    Some(anchor) => append_bytes(out, anchor.as_slice()),
                    None => {},
                }
            }
            write_items(out, proofs.as_slice());
            write_items(out, sigs.as_slice());
            write_items(out, output_zkproofs.as_slice());
            append_bytes(out, d.binding_sig.as_slice());
            assert(final(out)@ =~= old(out)@ + sapling_part_encoding(*data));
        },
    }
}

} // verus!
