//! The component digests of ZIP-244: one personalized hash tree for each
//! section of a transaction.
use vstd::prelude::*;

use crate::codec::{le_i64, le_u32};
use crate::hasher::{Hasher, lemma_three_children, lemma_two_children};
use crate::hashes::blake2b_256_personal;
use crate::orchard::{OrchardFlavour, ShieldedData, AuthorizedAction, MEMO_SIZE};
use crate::sapling;
use crate::serialization::{ZcashSerialize, seq_encoding};
use crate::transparent::{Input, Output};

verus! {

/// The personalization "ZTxIdHeadersHash".
pub const ZCASH_HEADERS_HASH_PERSONALIZATION: [u8; 16] = [0x5a, 0x54, 0x78, 0x49, 0x64, 0x48, 0x65, 0x61, 0x64, 0x65, 0x72, 0x73, 0x48, 0x61, 0x73, 0x68];

/// The personalization "ZTxIdTranspaHash".
pub const ZCASH_TRANSPARENT_HASH_PERSONALIZATION: [u8; 16] = [0x5a, 0x54, 0x78, 0x49, 0x64, 0x54, 0x72, 0x61, 0x6e, 0x73, 0x70, 0x61, 0x48, 0x61, 0x73, 0x68];

/// The personalization "ZTxIdPrevoutHash".
pub const ZCASH_PREVOUTS_HASH_PERSONALIZATION: [u8; 16] = [0x5a, 0x54, 0x78, 0x49, 0x64, 0x50, 0x72, 0x65, 0x76, 0x6f, 0x75, 0x74, 0x48, 0x61, 0x73, 0x68];

/// The personalization "ZTxIdSequencHash".
pub const ZCASH_SEQUENCE_HASH_PERSONALIZATION: [u8; 16] = [0x5a, 0x54, 0x78, 0x49, 0x64, 0x53, 0x65, 0x71, 0x75, 0x65, 0x6e, 0x63, 0x48, 0x61, 0x73, 0x68];

/// The personalization "ZTxIdOutputsHash".
pub const ZCASH_OUTPUTS_HASH_PERSONALIZATION: [u8; 16] = [0x5a, 0x54, 0x78, 0x49, 0x64, 0x4f, 0x75, 0x74, 0x70, 0x75, 0x74, 0x73, 0x48, 0x61, 0x73, 0x68];

/// The personalization "ZTxIdSaplingHash".
pub const ZCASH_SAPLING_HASH_PERSONALIZATION: [u8; 16] = [0x5a, 0x54, 0x78, 0x49, 0x64, 0x53, 0x61, 0x70, 0x6c, 0x69, 0x6e, 0x67, 0x48, 0x61, 0x73, 0x68];

/// The personalization "ZTxIdSSpendsHash".
pub const ZCASH_SAPLING_SPENDS_HASH_PERSONALIZATION: [u8; 16] = [0x5a, 0x54, 0x78, 0x49, 0x64, 0x53, 0x53, 0x70, 0x65, 0x6e, 0x64, 0x73, 0x48, 0x61, 0x73, 0x68];

/// The personalization "ZTxIdSSpendCHash".
pub const ZCASH_SAPLING_SPENDS_COMPACT_HASH_PERSONALIZATION: [u8; 16] = [0x5a, 0x54, 0x78, 0x49, 0x64, 0x53, 0x53, 0x70, 0x65, 0x6e, 0x64, 0x43, 0x48, 0x61, 0x73, 0x68];

/// The personalization "ZTxIdSSpendNHash".
pub const ZCASH_SAPLING_SPENDS_NONCOMPACT_HASH_PERSONALIZATION: [u8; 16] = [0x5a, 0x54, 0x78, 0x49, 0x64, 0x53, 0x53, 0x70, 0x65, 0x6e, 0x64, 0x4e, 0x48, 0x61, 0x73, 0x68];

/// The personalization "ZTxIdSOutputHash".
pub const ZCASH_SAPLING_OUTPUTS_HASH_PERSONALIZATION: [u8; 16] = [0x5a, 0x54, 0x78, 0x49, 0x64, 0x53, 0x4f, 0x75, 0x74, 0x70, 0x75, 0x74, 0x48, 0x61, 0x73, 0x68];

/// The personalization "ZTxIdSOutC__Hash".
pub const ZCASH_SAPLING_OUTPUTS_COMPACT_HASH_PERSONALIZATION: [u8; 16] = [0x5a, 0x54, 0x78, 0x49, 0x64, 0x53, 0x4f, 0x75, 0x74, 0x43, 0x5f, 0x5f, 0x48, 0x61, 0x73, 0x68];

/// The personalization "ZTxIdSOutM__Hash".
pub const ZCASH_SAPLING_OUTPUTS_MEMOS_HASH_PERSONALIZATION: [u8; 16] = [0x5a, 0x54, 0x78, 0x49, 0x64, 0x53, 0x4f, 0x75, 0x74, 0x4d, 0x5f, 0x5f, 0x48, 0x61, 0x73, 0x68];

/// The personalization "ZTxIdSOutN__Hash".
pub const ZCASH_SAPLING_OUTPUTS_NONCOMPACT_HASH_PERSONALIZATION: [u8; 16] = [0x5a, 0x54, 0x78, 0x49, 0x64, 0x53, 0x4f, 0x75, 0x74, 0x4e, 0x5f, 0x5f, 0x48, 0x61, 0x73, 0x68];

/// The personalization "ZTxIdOrchardHash".
pub const ZCASH_ORCHARD_HASH_PERSONALIZATION: [u8; 16] = [0x5a, 0x54, 0x78, 0x49, 0x64, 0x4f, 0x72, 0x63, 0x68, 0x61, 0x72, 0x64, 0x48, 0x61, 0x73, 0x68];

/// The personalization "ZTxIdOrcActCHash".
pub const ZCASH_ORCHARD_ACTIONS_COMPACT_HASH_PERSONALIZATION: [u8; 16] = [0x5a, 0x54, 0x78, 0x49, 0x64, 0x4f, 0x72, 0x63, 0x41, 0x63, 0x74, 0x43, 0x48, 0x61, 0x73, 0x68];

/// The personalization "ZTxIdOrcActMHash".
pub const ZCASH_ORCHARD_ACTIONS_MEMOS_HASH_PERSONALIZATION: [u8; 16] = [0x5a, 0x54, 0x78, 0x49, 0x64, 0x4f, 0x72, 0x63, 0x41, 0x63, 0x74, 0x4d, 0x48, 0x61, 0x73, 0x68];

/// The personalization "ZTxIdOrcActNHash".
pub const ZCASH_ORCHARD_ACTIONS_NONCOMPACT_HASH_PERSONALIZATION: [u8; 16] = [0x5a, 0x54, 0x78, 0x49, 0x64, 0x4f, 0x72, 0x63, 0x41, 0x63, 0x74, 0x4e, 0x48, 0x61, 0x73, 0x68];

/// The prefix "ZcashTxHash_" of the personalization of a transaction identifier.
pub const ZCASH_TX_PERSONALIZATION_PREFIX: [u8; 12] = [0x5a, 0x63, 0x61, 0x73, 0x68, 0x54, 0x78, 0x48, 0x61, 0x73, 0x68, 0x5f];

/// The personalized digest of `data`.
pub open spec fn digest(personal: Seq<u8>, data: Seq<u8>) -> Seq<u8> {
    blake2b_256_personal(personal, data)
}

/// The concatenation of `f` over the elements, in order.
pub open spec fn concat_map<A>(s: Seq<A>, f: spec_fn(A) -> Seq<u8>) -> Seq<u8>
    decreases s.len(),
{
    if s.len() == 0 {
        seq![]
    } else {
        concat_map(s.drop_last(), f) + f(s.last())
    }
}

/// One more element extends the concatenation by that element's bytes.
pub proof fn lemma_concat_map_step<A>(s: Seq<A>, f: spec_fn(A) -> Seq<u8>, i: int)
    requires
        0 <= i < s.len(),
    ensures
        concat_map(s.take(i + 1), f) == concat_map(s.take(i), f) + f(s[i]),
{
    assert(s.take(i + 1).drop_last() =~= s.take(i));
}

/// The bytes of a prefix of a sequence are a prefix of its bytes.
pub proof fn lemma_concat_map_take<A>(s: Seq<A>, f: spec_fn(A) -> Seq<u8>, j: int)
    requires
        0 <= j <= s.len(),
    ensures
        concat_map(s.take(j), f).len() <= concat_map(s, f).len(),
        concat_map(s, f).subrange(0, concat_map(s.take(j), f).len() as int) == concat_map(
            s.take(j),
            f,
        ),
    decreases s.len(),
{
    if j == s.len() {
        assert(s.take(j) =~= s);
    } else {
        lemma_concat_map_take(s.drop_last(), f, j);
        assert(s.drop_last().take(j) =~= s.take(j));
        let a = concat_map(s.drop_last(), f);
        let p = concat_map(s.take(j), f);
        assert((a + f(s.last())).subrange(0, p.len() as int) =~= a.subrange(0, p.len() as int));
    }
}

/// Two sequences whose elements give the same bytes, one by one, give the
/// same bytes.
pub proof fn lemma_concat_map_pointwise<A, B>(
    s: Seq<A>,
    f: spec_fn(A) -> Seq<u8>,
    t: Seq<B>,
    g: spec_fn(B) -> Seq<u8>,
)
    requires
        s.len() == t.len(),
        forall|i: int| 0 <= i < s.len() ==> f(#[trigger] s[i]) == g(t[i]),
    ensures
        concat_map(s, f) == concat_map(t, g),
    decreases s.len(),
{
    if s.len() > 0 {
        assert forall|i: int| 0 <= i < s.drop_last().len() implies f(#[trigger] s.drop_last()[i]) == g(
            t.drop_last()[i],
        ) by {
            assert(s.drop_last()[i] == s[i]);
            assert(t.drop_last()[i] == t[i]);
        }
        lemma_concat_map_pointwise(s.drop_last(), f, t.drop_last(), g);
        assert(f(s[s.len() - 1]) == g(t[t.len() - 1]));
    }
}

/// The input of the header digest.
pub open spec fn header_bytes(
    version: u32,
    version_group_id: u32,
    consensus_branch_id: u32,
    lock_time: u32,
    expiry_height: u32,
) -> Seq<u8> {
    le_u32(version) + le_u32(version_group_id) + le_u32(consensus_branch_id) + le_u32(lock_time)
        + le_u32(expiry_height)
}

/// The header digest: version, version group, consensus branch, lock time and
/// expiry height, in that order.
pub fn hash_header(
    version: u32,
    version_group_id: u32,
    consensus_branch_id: u32,
    lock_time: u32,
    expiry_height: u32,
) -> (r: Hasher)
    ensures
        r.personal() == ZCASH_HEADERS_HASH_PERSONALIZATION@,
        r.input() == header_bytes(
            version,
            version_group_id,
            consensus_branch_id,
            lock_time,
            expiry_height,
        ),
{
    let r = Hasher::new(&ZCASH_HEADERS_HASH_PERSONALIZATION).add_u32(version).add_u32(
        version_group_id,
    ).add_u32(consensus_branch_id).add_u32(lock_time).add_u32(expiry_height);
    assert(r.input() =~= header_bytes(
        version,
        version_group_id,
        consensus_branch_id,
        lock_time,
        expiry_height,
    ));
    r
}

/// The outpoints the inputs commit to.
pub open spec fn prevouts_bytes(inputs: Seq<Input>) -> Seq<u8> {
    concat_map(inputs, |i: Input| i.prevout())
}

/// The sequence numbers of the inputs.
pub open spec fn sequence_bytes(inputs: Seq<Input>) -> Seq<u8> {
    concat_map(inputs, |i: Input| le_u32(i.spec_sequence()))
}

/// The input of the transparent digest: the digests of the outpoints, of the
/// sequence numbers and of the outputs, or nothing when all three are empty.
pub open spec fn transparent_bytes(inputs: Seq<Input>, outputs: Seq<Output>) -> Seq<u8> {
    let prevouts = prevouts_bytes(inputs);
    let sequences = sequence_bytes(inputs);
    let outs = seq_encoding(outputs);
    if prevouts.len() > 0 || sequences.len() > 0 || outs.len() > 0 {
        digest(ZCASH_PREVOUTS_HASH_PERSONALIZATION@, prevouts) + digest(
            ZCASH_SEQUENCE_HASH_PERSONALIZATION@,
            sequences,
        ) + digest(ZCASH_OUTPUTS_HASH_PERSONALIZATION@, outs)
    } else {
        seq![]
    }
}

/// The transparent digest.
pub fn hash_transparent(inputs: &[Input], outputs: &[Output]) -> (r: Hasher)
    requires
        forall|i: int| 0 <= i < outputs@.len() ==> (#[trigger] outputs@[i]).wf(),
    ensures
        r.personal() == ZCASH_TRANSPARENT_HASH_PERSONALIZATION@,
        r.input() == transparent_bytes(inputs@, outputs@),
{
    let mut prevouts = Hasher::new(&ZCASH_PREVOUTS_HASH_PERSONALIZATION);
    let mut sequences = Hasher::new(&ZCASH_SEQUENCE_HASH_PERSONALIZATION);
    let mut i: usize = 0;
    while i < inputs.len()
        invariant
            i <= inputs@.len(),
            prevouts.personal() == ZCASH_PREVOUTS_HASH_PERSONALIZATION@,
            sequences.personal() == ZCASH_SEQUENCE_HASH_PERSONALIZATION@,
            prevouts.input() == prevouts_bytes(inputs@.take(i as int)),
            sequences.input() == sequence_bytes(inputs@.take(i as int)),
        decreases inputs@.len() - i,
    {
        proof {
            lemma_concat_map_step(inputs@, |i: Input| i.prevout(), i as int);
            lemma_concat_map_step(inputs@, |i: Input| le_u32(i.spec_sequence()), i as int);
        }
        let input = &inputs[i];
        prevouts = prevouts.add_serialized(&input.outpoint());
        sequences = sequences.add_u32(input.sequence());
        i = i + 1;
    }
    let mut outs = Hasher::new(&ZCASH_OUTPUTS_HASH_PERSONALIZATION);
    let mut k: usize = 0;
    while k < outputs.len()
        invariant
            k <= outputs@.len(),
            forall|i: int| 0 <= i < outputs@.len() ==> (#[trigger] outputs@[i]).wf(),
            outs.personal() == ZCASH_OUTPUTS_HASH_PERSONALIZATION@,
            outs.input() == seq_encoding(outputs@.take(k as int)),
        decreases outputs@.len() - k,
    {
        proof {
            assert(outputs@.take(k + 1).drop_last() =~= outputs@.take(k as int));
        }
        outs = outs.add_serialized(&outputs[k]);
        k = k + 1;
    }
    proof {
        assert(inputs@.take(inputs@.len() as int) =~= inputs@);
        assert(outputs@.take(outputs@.len() as int) =~= outputs@);
        lemma_three_children(prevouts, sequences, outs);
    }
    let children = [prevouts, sequences, outs];
    assert(children@ =~= seq![prevouts, sequences, outs]);
    Hasher::new(&ZCASH_TRANSPARENT_HASH_PERSONALIZATION).add_all_if_any_nonempty(&children)
}

/// The nullifiers of the spends.
pub open spec fn spends_compact_bytes(spends: Seq<sapling::Spend>) -> Seq<u8> {
    concat_map(spends, |s: sapling::Spend| s.nullifier@)
}

/// The value commitments, the shared anchor and the keys of the spends.
pub open spec fn spends_noncompact_bytes(spends: Seq<sapling::Spend>, anchor: Seq<u8>) -> Seq<u8> {
    concat_map(spends, |s: sapling::Spend| s.cv@ + anchor + s.rk@)
}

/// The input of the Sapling spends digest.
pub open spec fn sapling_spends_bytes(data: sapling::ShieldedData) -> Seq<u8> {
    let compact = spends_compact_bytes(data.spends@);
    let noncompact = spends_noncompact_bytes(data.spends@, data.anchor_bytes());
    if compact.len() > 0 || noncompact.len() > 0 {
        digest(ZCASH_SAPLING_SPENDS_COMPACT_HASH_PERSONALIZATION@, compact) + digest(
            ZCASH_SAPLING_SPENDS_NONCOMPACT_HASH_PERSONALIZATION@,
            noncompact,
        )
    } else {
        seq![]
    }
}

/// The compact part of the outputs: commitment, ephemeral key and the first
/// 52 bytes of the encrypted note.
pub open spec fn outputs_compact_bytes(outputs: Seq<sapling::Output>) -> Seq<u8> {
    concat_map(
        outputs,
        |o: sapling::Output| o.cm_u@ + o.ephemeral_key@ + o.enc_ciphertext@.subrange(0, 52),
    )
}

/// The memo part of the outputs: the next 512 bytes of the encrypted note.
pub open spec fn outputs_memos_bytes(outputs: Seq<sapling::Output>) -> Seq<u8> {
    concat_map(outputs, |o: sapling::Output| o.enc_ciphertext@.subrange(52, 564))
}

/// The rest of the outputs: value commitment, the end of the encrypted note
/// and the outgoing ciphertext.
pub open spec fn outputs_noncompact_bytes(outputs: Seq<sapling::Output>) -> Seq<u8> {
    concat_map(
        outputs,
        |o: sapling::Output| o.cv@ + o.enc_ciphertext@.subrange(564, 580) + o.out_ciphertext.0@,
    )
}

/// The input of the Sapling outputs digest.
pub open spec fn sapling_outputs_bytes(data: sapling::ShieldedData) -> Seq<u8> {
    let compact = outputs_compact_bytes(data.outputs@);
    let memos = outputs_memos_bytes(data.outputs@);
    let noncompact = outputs_noncompact_bytes(data.outputs@);
    if compact.len() > 0 || memos.len() > 0 || noncompact.len() > 0 {
        digest(ZCASH_SAPLING_OUTPUTS_COMPACT_HASH_PERSONALIZATION@, compact) + digest(
            ZCASH_SAPLING_OUTPUTS_MEMOS_HASH_PERSONALIZATION@,
            memos,
        ) + digest(ZCASH_SAPLING_OUTPUTS_NONCOMPACT_HASH_PERSONALIZATION@, noncompact)
    } else {
        seq![]
    }
}

/// The input of the Sapling digest: nothing without spends and outputs, else
/// the spends digest, the outputs digest and the value balance.
pub open spec fn sapling_bytes(data: Option<sapling::ShieldedData>) -> Seq<u8> {
    match data {
        None => seq![],
        Some(d) => {
            let spends = sapling_spends_bytes(d);
            let outputs = sapling_outputs_bytes(d);
            if spends.len() == 0 && outputs.len() == 0 {
                seq![]
            } else {
                digest(ZCASH_SAPLING_SPENDS_HASH_PERSONALIZATION@, spends) + digest(
                    ZCASH_SAPLING_OUTPUTS_HASH_PERSONALIZATION@,
                    outputs,
                ) + le_i64(d.value_balance)
            }
        },
    }
}

/// The Sapling spends digest.
pub fn hash_sapling_spends(data: &sapling::ShieldedData) -> (r: Hasher)
    requires
        data.wf(),
    ensures
        r.personal() == ZCASH_SAPLING_SPENDS_HASH_PERSONALIZATION@,
        r.input() == sapling_spends_bytes(*data),
{
    let mut compact = Hasher::new(&ZCASH_SAPLING_SPENDS_COMPACT_HASH_PERSONALIZATION);
    let mut noncompact = Hasher::new(&ZCASH_SAPLING_SPENDS_NONCOMPACT_HASH_PERSONALIZATION);
    let ghost anchor = data.anchor_bytes();
    let ghost f = |s: sapling::Spend| s.nullifier@;
    let ghost g = |s: sapling::Spend| s.cv@ + anchor + s.rk@;
    let mut i: usize = 0;
    while i < data.spends.len()
        invariant
            i <= data.spends@.len(),
            data.wf(),
            anchor == data.anchor_bytes(),
            f == (|s: sapling::Spend| s.nullifier@),
            g == (|s: sapling::Spend| s.cv@ + anchor + s.rk@),
            compact.personal() == ZCASH_SAPLING_SPENDS_COMPACT_HASH_PERSONALIZATION@,
            noncompact.personal() == ZCASH_SAPLING_SPENDS_NONCOMPACT_HASH_PERSONALIZATION@,
            compact.input() == concat_map(data.spends@.take(i as int), f),
            noncompact.input() == concat_map(data.spends@.take(i as int), g),
        decreases data.spends@.len() - i,
    {
        proof {
            lemma_concat_map_step(data.spends@, f, i as int);
            lemma_concat_map_step(data.spends@, g, i as int);
        }
        let spend = &data.spends[i];
        let anchor_bytes = match &data.shared_anchor {
            Some(a) => a,
            None => { proof { assert(false); } &spend.cv },
        };
        compact = compact.add(spend.nullifier.as_slice());
        noncompact = noncompact.add(spend.cv.as_slice()).add(anchor_bytes.as_slice()).add(
            spend.rk.as_slice(),
        );
        proof {
            assert(noncompact.input() =~= concat_map(data.spends@.take(i as int), g) + g(data.spends@[i as int]));
        }
        i = i + 1;
    }
    proof {
        assert(data.spends@.take(data.spends@.len() as int) =~= data.spends@);
        lemma_two_children(compact, noncompact);
    }
    let children = [compact, noncompact];
    assert(children@ =~= seq![compact, noncompact]);
    Hasher::new(&ZCASH_SAPLING_SPENDS_HASH_PERSONALIZATION).add_all_if_any_nonempty(&children)
}

/// The Sapling outputs digest.
pub fn hash_sapling_outputs(data: &sapling::ShieldedData) -> (r: Hasher)
    ensures
        r.personal() == ZCASH_SAPLING_OUTPUTS_HASH_PERSONALIZATION@,
        r.input() == sapling_outputs_bytes(*data),
{
    let mut compact = Hasher::new(&ZCASH_SAPLING_OUTPUTS_COMPACT_HASH_PERSONALIZATION);
    let mut memos = Hasher::new(&ZCASH_SAPLING_OUTPUTS_MEMOS_HASH_PERSONALIZATION);
    let mut noncompact = Hasher::new(&ZCASH_SAPLING_OUTPUTS_NONCOMPACT_HASH_PERSONALIZATION);
    let ghost f = |o: sapling::Output| o.cm_u@ + o.ephemeral_key@ + o.enc_ciphertext@.subrange(0, 52);
    let ghost g = |o: sapling::Output| o.enc_ciphertext@.subrange(52, 564);
    let ghost h = |o: sapling::Output| o.cv@ + o.enc_ciphertext@.subrange(564, 580) + o.out_ciphertext.0@;
    let mut i: usize = 0;
    while i < data.outputs.len()
        invariant
            i <= data.outputs@.len(),
            f == (|o: sapling::Output| o.cm_u@ + o.ephemeral_key@ + o.enc_ciphertext@.subrange(0, 52)),
            g == (|o: sapling::Output| o.enc_ciphertext@.subrange(52, 564)),
            h == (|o: sapling::Output| o.cv@ + o.enc_ciphertext@.subrange(564, 580) + o.out_ciphertext.0@),
            compact.personal() == ZCASH_SAPLING_OUTPUTS_COMPACT_HASH_PERSONALIZATION@,
            memos.personal() == ZCASH_SAPLING_OUTPUTS_MEMOS_HASH_PERSONALIZATION@,
            noncompact.personal() == ZCASH_SAPLING_OUTPUTS_NONCOMPACT_HASH_PERSONALIZATION@,
            compact.input() == concat_map(data.outputs@.take(i as int), f),
            memos.input() == concat_map(data.outputs@.take(i as int), g),
            noncompact.input() == concat_map(data.outputs@.take(i as int), h),
        decreases data.outputs@.len() - i,
    {
        proof {
            lemma_concat_map_step(data.outputs@, f, i as int);
            lemma_concat_map_step(data.outputs@, g, i as int);
            lemma_concat_map_step(data.outputs@, h, i as int);
        }
        let output = &data.outputs[i];
        let enc = output.enc_ciphertext.as_slice();
        compact = compact.add(output.cm_u.as_slice()).add(output.ephemeral_key.as_slice()).add(
            vstd::slice::slice_subrange(enc, 0, 52),
        );
        memos = memos.add(vstd::slice::slice_subrange(enc, 52, 564));
        noncompact = noncompact.add(output.cv.as_slice()).add(
            vstd::slice::slice_subrange(enc, 564, 580),
        ).add(output.out_ciphertext.0.as_slice());
        proof {
            let o = data.outputs@[i as int];
            assert(compact.input() =~= concat_map(data.outputs@.take(i as int), f) + f(o));
            assert(noncompact.input() =~= concat_map(data.outputs@.take(i as int), h) + h(o));
        }
        i = i + 1;
    }
    proof {
        assert(data.outputs@.take(data.outputs@.len() as int) =~= data.outputs@);
        lemma_three_children(compact, memos, noncompact);
    }
    let children = [compact, memos, noncompact];
    assert(children@ =~= seq![compact, memos, noncompact]);
    Hasher::new(&ZCASH_SAPLING_OUTPUTS_HASH_PERSONALIZATION).add_all_if_any_nonempty(&children)
}

/// The Sapling digest.
pub fn hash_sapling(data: &Option<sapling::ShieldedData>) -> (r: Hasher)
    requires
        data matches Some(d) ==> d.wf(),
    ensures
        r.personal() == ZCASH_SAPLING_HASH_PERSONALIZATION@,
        r.input() == sapling_bytes(*data),
{
    let mut hasher = Hasher::new(&ZCASH_SAPLING_HASH_PERSONALIZATION);
    if let Some(d) = data {
        let spends = hash_sapling_spends(d);
        let outputs = hash_sapling_outputs(d);
        if !(spends.is_empty() && outputs.is_empty()) {
            hasher = hasher.add_hasher(&spends).add_hasher(&outputs).add_i64(d.value_balance());
            assert(hasher.input() =~= sapling_bytes(*data));
        }
    }
    hasher
}

/// The compact part of the actions: nullifier, note commitment, ephemeral key
/// and the first `cs` bytes of the encrypted note.
pub open spec fn actions_compact_bytes(actions: Seq<AuthorizedAction>, cs: int) -> Seq<u8> {
    concat_map(
        actions,
        |a: AuthorizedAction|
            a.action.nullifier@ + a.action.cm_x@ + a.action.ephemeral_key@
                + a.action.enc_ciphertext.0@.subrange(0, cs),
    )
}

/// The memo part of the actions: the 512 bytes after the compact part.
pub open spec fn actions_memos_bytes(actions: Seq<AuthorizedAction>, cs: int) -> Seq<u8> {
    concat_map(
        actions,
        |a: AuthorizedAction| a.action.enc_ciphertext.0@.subrange(cs, cs + MEMO_SIZE),
    )
}

/// The rest of the actions: value commitment, key, the end of the encrypted
/// note and the outgoing ciphertext.
pub open spec fn actions_noncompact_bytes(actions: Seq<AuthorizedAction>, cs: int) -> Seq<u8> {
    concat_map(
        actions,
        |a: AuthorizedAction|
            a.action.cv@ + a.action.rk@ + a.action.enc_ciphertext.0@.subrange(
                cs + MEMO_SIZE,
                a.action.enc_ciphertext.0@.len() as int,
            ) + a.action.out_ciphertext.0@,
    )
}

/// The input of the Orchard digest: nothing without a bundle or without
/// actions; else the three action digests, the flags, the value balance and
/// the shared anchor.
pub open spec fn orchard_bytes<V: OrchardFlavour>(data: Option<ShieldedData<V>>) -> Seq<u8> {
    match data {
        None => seq![],
        Some(d) => {
            let cs = V::spec_compact_size() as int;
            if d.actions@.len() == 0 {
                seq![]
            } else {
                digest(
                    ZCASH_ORCHARD_ACTIONS_COMPACT_HASH_PERSONALIZATION@,
                    actions_compact_bytes(d.actions@, cs),
                ) + digest(
                    ZCASH_ORCHARD_ACTIONS_MEMOS_HASH_PERSONALIZATION@,
                    actions_memos_bytes(d.actions@, cs),
                ) + digest(
                    ZCASH_ORCHARD_ACTIONS_NONCOMPACT_HASH_PERSONALIZATION@,
                    actions_noncompact_bytes(d.actions@, cs),
                ) + seq![d.flags.spec_bits()] + le_i64(d.value_balance) + d.shared_anchor@
            }
        },
    }
}

/// The three action digests of a bundle, or `None` when it has no action.
pub fn calculate_action_digests<V: OrchardFlavour>(data: &ShieldedData<V>) -> (r: Option<
    (Hasher, Hasher, Hasher),
>)
    requires
        data.wf(),
    ensures
        r is None <==> data.actions@.len() == 0,
        r matches Some((c, m, n)) ==> {
            let cs = V::spec_compact_size() as int;
            &&& c.personal() == ZCASH_ORCHARD_ACTIONS_COMPACT_HASH_PERSONALIZATION@
            &&& m.personal() == ZCASH_ORCHARD_ACTIONS_MEMOS_HASH_PERSONALIZATION@
            &&& n.personal() == ZCASH_ORCHARD_ACTIONS_NONCOMPACT_HASH_PERSONALIZATION@
            &&& c.input() == actions_compact_bytes(data.actions@, cs)
            &&& m.input() == actions_memos_bytes(data.actions@, cs)
            &&& n.input() == actions_noncompact_bytes(data.actions@, cs)
        },
{
    let actions = data.actions.as_slice();
    if actions.len() == 0 {
        return None;
    }
    let cs = V::encrypted_note_compact_size();
    let size = V::encrypted_note_size();
    let ghost f = |a: AuthorizedAction|
        a.action.nullifier@ + a.action.cm_x@ + a.action.ephemeral_key@
            + a.action.enc_ciphertext.0@.subrange(0, cs as int);
    let ghost g = |a: AuthorizedAction| a.action.enc_ciphertext.0@.subrange(cs as int, cs + MEMO_SIZE);
    let ghost h = |a: AuthorizedAction|
        a.action.cv@ + a.action.rk@ + a.action.enc_ciphertext.0@.subrange(
            cs + MEMO_SIZE,
            a.action.enc_ciphertext.0@.len() as int,
        ) + a.action.out_ciphertext.0@;
    let mut compact = Hasher::new(&ZCASH_ORCHARD_ACTIONS_COMPACT_HASH_PERSONALIZATION);
    let mut memos = Hasher::new(&ZCASH_ORCHARD_ACTIONS_MEMOS_HASH_PERSONALIZATION);
    let mut noncompact = Hasher::new(&ZCASH_ORCHARD_ACTIONS_NONCOMPACT_HASH_PERSONALIZATION);
    let mut i: usize = 0;
    while i < actions.len()
        invariant
            i <= actions@.len(),
            actions@ == data.actions@,
            data.wf(),
            cs == V::spec_compact_size(),
            size == V::spec_note_size(),
            cs + MEMO_SIZE <= size,
            f == (|a: AuthorizedAction|
                a.action.nullifier@ + a.action.cm_x@ + a.action.ephemeral_key@
                    + a.action.enc_ciphertext.0@.subrange(0, cs as int)),
            g == (|a: AuthorizedAction| a.action.enc_ciphertext.0@.subrange(cs as int, cs + MEMO_SIZE)),
            h == (|a: AuthorizedAction|
                a.action.cv@ + a.action.rk@ + a.action.enc_ciphertext.0@.subrange(
                    cs + MEMO_SIZE,
                    a.action.enc_ciphertext.0@.len() as int,
                ) + a.action.out_ciphertext.0@),
            compact.personal() == ZCASH_ORCHARD_ACTIONS_COMPACT_HASH_PERSONALIZATION@,
            memos.personal() == ZCASH_ORCHARD_ACTIONS_MEMOS_HASH_PERSONALIZATION@,
            noncompact.personal() == ZCASH_ORCHARD_ACTIONS_NONCOMPACT_HASH_PERSONALIZATION@,
            compact.input() == concat_map(actions@.take(i as int), f),
            memos.input() == concat_map(actions@.take(i as int), g),
            noncompact.input() == concat_map(actions@.take(i as int), h),
        decreases actions@.len() - i,
    {
        proof {
            lemma_concat_map_step(actions@, f, i as int);
            lemma_concat_map_step(actions@, g, i as int);
            lemma_concat_map_step(actions@, h, i as int);
        }
        let action = &actions[i].action;
        let enc = action.enc_ciphertext.0.as_slice();
        assert(enc@.len() == size);
        compact = compact.add(action.nullifier.as_slice()).add(action.cm_x.as_slice()).add(
            action.ephemeral_key.as_slice(),
        ).add(vstd::slice::slice_subrange(enc, 0, cs));
        memos = memos.add(vstd::slice::slice_subrange(enc, cs, cs + MEMO_SIZE));
        noncompact = noncompact.add(action.cv.as_slice()).add(action.rk.as_slice()).add(
            vstd::slice::slice_subrange(enc, cs + MEMO_SIZE, enc.len()),
        ).add(action.out_ciphertext.0.as_slice());
        proof {
            let a = actions@[i as int];
            assert(compact.input() =~= concat_map(actions@.take(i as int), f) + f(a));
            assert(noncompact.input() =~= concat_map(actions@.take(i as int), h) + h(a));
        }
        i = i + 1;
    }
    assert(actions@.take(actions@.len() as int) =~= actions@);
    Some((compact, memos, noncompact))
}

/// The Orchard digest.
pub fn hash_orchard<V: OrchardFlavour>(data: &Option<ShieldedData<V>>) -> (r: Hasher)
    requires
        data matches Some(d) ==> d.wf(),
    ensures
        r.personal() == ZCASH_ORCHARD_HASH_PERSONALIZATION@,
        r.input() == orchard_bytes(*data),
{
    let mut hasher = Hasher::new(&ZCASH_ORCHARD_HASH_PERSONALIZATION);
    if let Some(d) = data {
        if let Some((compact, memos, noncompact)) = calculate_action_digests(d) {
            hasher = hasher.add_hasher(&compact).add_hasher(&memos).add_hasher(&noncompact);
            let flags = [d.flags.bits()];
            assert(flags@ =~= seq![d.flags.spec_bits()]);
            hasher = hasher.add(&flags).add_i64(d.value_balance()).add(d.shared_anchor.as_slice());
            assert(hasher.input() =~= orchard_bytes(*data));
        }
    }
    hasher
}

/// A bundle without actions contributes nothing to the Orchard digest,
/// whatever its flags, value balance and anchor: its digest is the digest of
/// an empty input, the same as for a transaction without a bundle.
pub proof fn lemma_orchard_digest_without_actions<V: OrchardFlavour>(
    a: ShieldedData<V>,
    b: ShieldedData<V>,
)
    requires
        a.actions@.len() == 0,
        b.actions@.len() == 0,
    ensures
        orchard_bytes(Some(a)) == Seq::<u8>::empty(),
        orchard_bytes(Some(a)) == orchard_bytes(Some(b)),
        orchard_bytes(Some(a)) == orchard_bytes::<V>(None),
        digest(ZCASH_ORCHARD_HASH_PERSONALIZATION@, orchard_bytes(Some(a))) == digest(
            ZCASH_ORCHARD_HASH_PERSONALIZATION@,
            Seq::<u8>::empty(),
        ),
{
}

} // verus!
