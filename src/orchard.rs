//! The shielded pool of Orchard actions, in its two flavours.
use vstd::prelude::*;

use std::marker::PhantomData;

use crate::burn::Burn;
use crate::codec::{
    SerializationError, compact_size, le_i64, prefix_at, read_array, read_compactsize, read_i64,
    read_u8, read_var_bytes, var_bytes, write_compactsize, write_i64, write_var_bytes,
};
use crate::digests::{concat_map, lemma_concat_map_pointwise, lemma_concat_map_step};
use crate::hasher::append_bytes;
use crate::serialization::{
    TrustedPreallocate, ZcashDeserialize, ZcashSerialize, lemma_prefix_at_element,
    lemma_prefix_at_join, lemma_prefix_at_split,
};
use crate::transparent::MAX_BLOCK_BYTES;

verus! {

/// The size of an encrypted note of a version 5 transaction.
pub const ENCRYPTED_NOTE_SIZE_V5: usize = 580;

/// The size of an encrypted note of a version 6 transaction, which also
/// carries the asset of the note.
pub const ENCRYPTED_NOTE_SIZE_V6: usize = 612;

/// The size of the memo part of an encrypted note.
pub const MEMO_SIZE: usize = 512;

/// The settings of one variant of the Orchard protocol.
pub trait OrchardFlavour {
    /// The size of an encrypted note.
    spec fn spec_note_size() -> nat;

    /// The size of the leading part of an encrypted note that the compact
    /// format of an action keeps.
    spec fn spec_compact_size() -> nat;

    /// Whether bundles of this flavour carry a burn field.
    spec fn spec_has_burn() -> bool;

    /// The size of an encrypted note.
    fn encrypted_note_size() -> (r: usize)
        ensures
            r == Self::spec_note_size(),
            Self::spec_compact_size() + MEMO_SIZE <= r,
    ;

    /// The size of the compact part of an encrypted note.
    fn encrypted_note_compact_size() -> (r: usize)
        ensures
            r == Self::spec_compact_size(),
            r + MEMO_SIZE <= Self::spec_note_size(),
    ;

    /// Whether bundles of this flavour carry a burn field.
    fn has_burn() -> (r: bool)
        ensures
            r == Self::spec_has_burn(),
    ;
}

/// The flavour of version 5 transactions.
#[derive(Debug, Clone, Copy, PartialEq, Eq)]
pub struct Orchard;

/// The flavour of version 6 transactions, which supports assets (ZSA).
#[derive(Debug, Clone, Copy, PartialEq, Eq)]
pub struct OrchardZSA;

impl OrchardFlavour for Orchard {
    open spec fn spec_note_size() -> nat {
        ENCRYPTED_NOTE_SIZE_V5 as nat
    }

    open spec fn spec_compact_size() -> nat {
        52
    }

    open spec fn spec_has_burn() -> bool {
        false
    }

    fn encrypted_note_size() -> (r: usize) {
        ENCRYPTED_NOTE_SIZE_V5
    }

    fn encrypted_note_compact_size() -> (r: usize) {
        52
    }

    fn has_burn() -> (r: bool) {
        false
    }
}

impl OrchardFlavour for OrchardZSA {
    open spec fn spec_note_size() -> nat {
        ENCRYPTED_NOTE_SIZE_V6 as nat
    }

    open spec fn spec_compact_size() -> nat {
        84
    }

    open spec fn spec_has_burn() -> bool {
        true
    }

    fn encrypted_note_size() -> (r: usize) {
        ENCRYPTED_NOTE_SIZE_V6
    }

    fn encrypted_note_compact_size() -> (r: usize) {
        84
    }

    fn has_burn() -> (r: bool) {
        true
    }
}

/// The flag that enables spending non-zero valued notes.
pub const ENABLE_SPENDS: u8 = 0b0000_0001;

/// The flag that enables creating non-zero valued notes.
pub const ENABLE_OUTPUTS: u8 = 0b0000_0010;

/// Per-transaction Orchard flags. Bits 2 to 7 are reserved and zero.
#[derive(Debug, Clone, Copy, PartialEq, Eq, Structural)]
pub struct Flags {
    bits: u8,
}

impl Flags {
    /// The flag byte.
    pub closed spec fn spec_bits(&self) -> u8 {
        self.bits
    }

    /// The flags of a byte, or `None` if a reserved bit is set.
    pub fn from_bits(bits: u8) -> (r: Option<Flags>)
        ensures
            r is Some <==> bits & !(ENABLE_SPENDS | ENABLE_OUTPUTS) == 0,
            r is Some <==> bits < 4,
            r is Some ==> r->0.spec_bits() == bits,
    {
        assert(bits & !(ENABLE_SPENDS | ENABLE_OUTPUTS) == 0 <==> bits < 4) by (bit_vector);
        if bits < 4 {
            Some(Flags { bits })
        } else {
            None
        }
    }

    /// The flag byte.
    pub fn bits(&self) -> (r: u8)
        ensures
            r == self.spec_bits(),
    {
        self.bits
    }

    /// The flags with no bit set.
    pub fn empty() -> (r: Flags)
        ensures
            r.spec_bits() == 0,
    {
        Flags { bits: 0 }
    }

    /// Whether every flag set in `other` is set in `self`.
    pub fn contains(&self, other: u8) -> (r: bool)
        ensures
            r == (self.spec_bits() & other == other),
    {
        self.bits & other == other
    }
}

/// An encrypted note of an action: its size is the flavour's.
#[derive(Debug, Clone, PartialEq, Eq)]
pub struct EncryptedNote(pub Vec<u8>);

/// The outgoing ciphertext of an action, which wraps the key of the note.
#[derive(Debug, Clone, Copy, PartialEq, Eq)]
pub struct WrappedNoteKey(pub [u8; 80]);

/// An action description: one spend and one output.
#[derive(Debug, Clone, PartialEq, Eq)]
pub struct Action {
    /// The value commitment to the net value of the action.
    pub cv: [u8; 32],
    /// The nullifier of the note spent.
    pub nullifier: [u8; 32],
    /// The randomized validating key of the spend authorization signature.
    pub rk: [u8; 32],
    /// The x-coordinate of the commitment to the note created.
    pub cm_x: [u8; 32],
    /// The ephemeral public key of the encryption.
    pub ephemeral_key: [u8; 32],
    /// The encrypted note.
    pub enc_ciphertext: EncryptedNote,
    /// The outgoing ciphertext.
    pub out_ciphertext: WrappedNoteKey,
}

/// A 64-byte spend authorization signature.
#[derive(Debug, Clone, Copy, PartialEq, Eq)]
pub struct Signature(pub [u8; 64]);

/// An action with its spend authorization signature.
#[derive(Debug, Clone, PartialEq, Eq)]
pub struct AuthorizedAction {
    /// The action.
    pub action: Action,
    /// The spend authorization signature.
    pub spend_auth_sig: Signature,
}

impl AuthorizedAction {
    /// The action and the signature, for encodings that store them apart.
    pub fn into_parts(self) -> (r: (Action, Signature))
        ensures
            r.0 == self.action,
            r.1 == self.spend_auth_sig,
    {
        (self.action, self.spend_auth_sig)
    }

    /// Joins an action and its signature.
    pub fn from_parts(action: Action, spend_auth_sig: Signature) -> (r: AuthorizedAction)
        ensures
            r.action == action,
            r.spend_auth_sig == spend_auth_sig,
    {
        AuthorizedAction { action, spend_auth_sig }
    }
}

/// The fields of an action that do not depend on the flavour.
#[derive(Debug, Clone, Copy, PartialEq, Eq)]
pub struct ActionCommon {
    /// The value commitment to the net value of the action.
    pub cv: [u8; 32],
    /// The nullifier of the note spent.
    pub nullifier: [u8; 32],
    /// The randomized validating key of the spend authorization signature.
    pub rk: [u8; 32],
    /// The x-coordinate of the commitment to the note created.
    pub cm_x: [u8; 32],
}

impl ActionCommon {
    /// The flavour-independent fields of an action.
    pub fn from_action(action: &Action) -> (r: ActionCommon)
        ensures
            r.cv == action.cv,
            r.nullifier == action.nullifier,
            r.rk == action.rk,
            r.cm_x == action.cm_x,
    {
        ActionCommon { cv: action.cv, nullifier: action.nullifier, rk: action.rk, cm_x: action.cm_x }
    }
}

/// A sequence with at least one element.
#[derive(Debug, PartialEq, Eq)]
pub struct AtLeastOne<T> {
    inner: Vec<T>,
}

impl<T> View for AtLeastOne<T> {
    type V = Seq<T>;

    closed spec fn view(&self) -> Seq<T> {
        self.inner@
    }
}

impl<T> AtLeastOne<T> {
    #[verifier::type_invariant]
    spec fn inv(&self) -> bool {
        self.inner@.len() >= 1
    }

    /// The elements of `v`, or `None` if it is empty.
    pub fn from_vec(v: Vec<T>) -> (r: Option<AtLeastOne<T>>)
        ensures
            r is Some <==> v@.len() >= 1,
            r is Some ==> r->0@ == v@,
    {
        if v.len() == 0 {
            None
        } else {
            Some(AtLeastOne { inner: v })
        }
    }

    /// The number of elements, at least one.
    pub fn len(&self) -> (r: usize)
        ensures
            r == self@.len(),
            r >= 1,
    {
        proof {
            use_type_invariant(self);
        }
        self.inner.len()
    }

    /// The elements, in order.
    pub fn as_slice(&self) -> (r: &[T])
        ensures
            r@ == self@,
            r@.len() >= 1,
    {
        proof {
            use_type_invariant(self);
        }
        self.inner.as_slice()
    }

    /// The first element.
    pub fn first(&self) -> (r: &T)
        ensures
            *r == self@[0],
    {
        proof {
            use_type_invariant(self);
        }
        &self.inner[0]
    }
}

impl AtLeastOne<AuthorizedAction> {
    /// The actions of the authorized actions, in order.
    pub fn actions(&self) -> (r: Vec<&Action>)
        ensures
            r@.len() == self@.len(),
            forall|i: int| 0 <= i < r@.len() ==> *r@[i] == self@[i].action,
    {
        let items = self.as_slice();
        let mut r: Vec<&Action> = Vec::new();
        let mut i: usize = 0;
        while i < items.len()
            invariant
                i <= items@.len(),
                items@ == self@,
                r@.len() == i,
                forall|k: int| 0 <= k < i ==> *r@[k] == self@[k].action,
            decreases items@.len() - i,
        {
            r.push(&items[i].action);
            i = i + 1;
        }
        r
    }
}

/// A bundle of Orchard actions with its signature data.
#[derive(Debug, PartialEq, Eq)]
pub struct ShieldedData<V: OrchardFlavour> {
    /// The Orchard flags.
    pub flags: Flags,
    /// The net value of Orchard spends minus outputs.
    pub value_balance: i64,
    /// The anchor shared by all spends.
    pub shared_anchor: [u8; 32],
    /// The aggregated proof of all the actions.
    pub proof: Vec<u8>,
    /// The actions, in the order they appear in the transaction.
    pub actions: AtLeastOne<AuthorizedAction>,
    /// The binding signature.
    pub binding_sig: [u8; 64],
    /// The assets burnt; empty for flavours without a burn field.
    pub burn: Burn,
    /// The flavour of the bundle.
    pub flavour: PhantomData<V>,
}

impl<V: OrchardFlavour> ShieldedData<V> {
    /// A valid bundle: valid flags, encrypted notes of the flavour's size, and
    /// no burn unless the flavour has a burn field.
    pub open spec fn wf(&self) -> bool {
        &&& self.flags.wf()
        &&& forall|i: int|
            0 <= i < self.actions@.len() ==> (#[trigger] self.actions@[i]).action.enc_ciphertext.0@.len()
                == V::spec_note_size()
        &&& !V::spec_has_burn() ==> self.burn.0@.len() == 0
    }

    /// The actions of the bundle, in order.
    pub fn actions(&self) -> (r: Vec<&Action>)
        ensures
            r@.len() == self.actions@.len(),
            forall|i: int| 0 <= i < r@.len() ==> *r@[i] == self.actions@[i].action,
    {
        self.actions.actions()
    }

    /// The nullifiers of the actions, in order.
    pub fn nullifiers(&self) -> (r: Vec<[u8; 32]>)
        ensures
            r@.len() == self.actions@.len(),
            forall|i: int| 0 <= i < r@.len() ==> r@[i] == self.actions@[i].action.nullifier,
    {
        let items = self.actions.as_slice();
        let mut r: Vec<[u8; 32]> = Vec::new();
        let mut i: usize = 0;
        while i < items.len()
            invariant
                i <= items@.len(),
                items@ == self.actions@,
                r@.len() == i,
                forall|k: int| 0 <= k < i ==> r@[k] == self.actions@[k].action.nullifier,
            decreases items@.len() - i,
        {
            r.push(items[i].action.nullifier);
            i = i + 1;
        }
        r
    }

    /// The note commitments of the actions, in order.
    pub fn note_commitments(&self) -> (r: Vec<[u8; 32]>)
        ensures
            r@.len() == self.actions@.len(),
            forall|i: int| 0 <= i < r@.len() ==> r@[i] == self.actions@[i].action.cm_x,
    {
        let items = self.actions.as_slice();
        let mut r: Vec<[u8; 32]> = Vec::new();
        let mut i: usize = 0;
        while i < items.len()
            invariant
                i <= items@.len(),
                items@ == self.actions@,
                r@.len() == i,
                forall|k: int| 0 <= k < i ==> r@[k] == self.actions@[k].action.cm_x,
            decreases items@.len() - i,
        {
            r.push(items[i].action.cm_x);
            i = i + 1;
        }
        r
    }

    /// The net value of Orchard spends minus outputs.
    pub fn value_balance(&self) -> (r: i64)
        ensures
            r == self.value_balance,
    {
        self.value_balance
    }

    /// The flavour-independent fields of the actions, in order.
    pub fn action_commons(&self) -> (r: Vec<ActionCommon>)
        ensures
            r@.len() == self.actions@.len(),
            forall|i: int|
                0 <= i < r@.len() ==> {
                    let a = #[trigger] self.actions@[i].action;
                    r@[i] == ActionCommon { cv: a.cv, nullifier: a.nullifier, rk: a.rk, cm_x: a.cm_x }
                },
    {
        let items = self.actions.as_slice();
        let mut r: Vec<ActionCommon> = Vec::new();
        let mut i: usize = 0;
        while i < items.len()
            invariant
                i <= items@.len(),
                items@ == self.actions@,
                r@.len() == i,
                forall|k: int|
                    0 <= k < i ==> {
                        let a = #[trigger] self.actions@[k].action;
                        r@[k] == ActionCommon { cv: a.cv, nullifier: a.nullifier, rk: a.rk, cm_x: a.cm_x }
                    },
            decreases items@.len() - i,
        {
            r.push(ActionCommon::from_action(&items[i].action));
            i = i + 1;
        }
        r
    }
}

impl ZcashSerialize for Flags {
    /// The reserved bits 2 to 7 are clear.
    open spec fn wf(&self) -> bool {
        self.spec_bits() < 4
    }

    open spec fn encoding(&self) -> Seq<u8> {
        seq![self.spec_bits()]
    }

    fn zcash_serialize(&self, out: &mut Vec<u8>) {
        out.push(self.bits);
        assert(final(out)@ =~= old(out)@ + self.encoding());
    }
}

/// Reads the flag byte, rejecting a byte with a reserved bit set.
pub fn read_flags(data: &[u8], pos: usize) -> (r: Result<(Flags, usize), SerializationError>)
    ensures
        pos >= data@.len() ==> r == Err::<(Flags, usize), SerializationError>(
            SerializationError::Truncated,
        ),
        pos < data@.len() && data@[pos as int] >= 4 ==> r == Err::<(Flags, usize), SerializationError>(
            SerializationError::Parse,
        ),
        pos < data@.len() && data@[pos as int] < 4 ==> (r matches Ok((f, end)) && f.spec_bits()
            == data@[pos as int] && end == pos + 1),
{
    let (byte, end) = match read_u8(data, pos) {
        Ok(x) => x,
        Err(e) => return Err(e),
    };
    assert(data@.subrange(pos as int, pos + 1)[0] == data@[pos as int]);
    match Flags::from_bits(byte) {
        Some(flags) => Ok((flags, end)),
        None => Err(SerializationError::Parse),
    }
}

impl ZcashDeserialize for Flags {
    fn zcash_deserialize(data: &[u8], pos: usize) -> (r: Result<(Self, usize), SerializationError>) {
        let r = read_flags(data, pos);
        proof {
            if let Ok((f, end)) = r {
                assert(data@.subrange(pos as int, end as int) =~= f.encoding());
            }
            assert forall|x: Flags| x.wf() && prefix_at(data@, pos as int, #[trigger] x.encoding())
                implies (r matches Ok((y, end)) && y.encoding() == x.encoding() && end == pos
                + x.encoding().len()) by {
                assert(data@.subrange(pos as int, pos + 1)[0] == data@[pos as int]);
            }
        }
        r
    }
}

impl ZcashSerialize for WrappedNoteKey {
    open spec fn wf(&self) -> bool {
        true
    }

    open spec fn encoding(&self) -> Seq<u8> {
        self.0@
    }

    fn zcash_serialize(&self, out: &mut Vec<u8>) {
        append_bytes(out, self.0.as_slice());
    }
}

impl ZcashDeserialize for WrappedNoteKey {
    fn zcash_deserialize(data: &[u8], pos: usize) -> (r: Result<(Self, usize), SerializationError>) {
        match read_array::<80>(data, pos) {
            Ok((bytes, end)) => Ok((WrappedNoteKey(bytes), end)),
            Err(e) => Err(e),
        }
    }
}

impl ZcashSerialize for EncryptedNote {
    open spec fn wf(&self) -> bool {
        true
    }

    open spec fn encoding(&self) -> Seq<u8> {
        self.0@
    }

    fn zcash_serialize(&self, out: &mut Vec<u8>) {
        append_bytes(out, self.0.as_slice());
    }
}

impl EncryptedNote {
    /// Reads an encrypted note of the given size.
    pub fn zcash_deserialize_sized(data: &[u8], pos: usize, size: usize) -> (r: Result<
        (EncryptedNote, usize),
        SerializationError,
    >)
        ensures
            pos + size <= data@.len() ==> (r matches Ok((note, end)) && end == pos + size
                && note.0@ == data@.subrange(pos as int, pos + size)),
            pos + size > data@.len() ==> r == Err::<(EncryptedNote, usize), SerializationError>(
                SerializationError::Truncated,
            ),
    {
        if pos > data.len() || data.len() - pos < size {
            return Err(SerializationError::Truncated);
        }
        let bytes = vstd::slice::slice_to_vec(vstd::slice::slice_subrange(data, pos, pos + size));
        Ok((EncryptedNote(bytes), pos + size))
    }
}

impl ZcashSerialize for Action {
    open spec fn wf(&self) -> bool {
        true
    }

    /// The five 32-byte fields, the encrypted note, then the outgoing
    /// ciphertext.
    open spec fn encoding(&self) -> Seq<u8> {
        self.cv@ + self.nullifier@ + self.rk@ + self.cm_x@ + self.ephemeral_key@
            + self.enc_ciphertext.0@ + self.out_ciphertext.0@
    }

    fn zcash_serialize(&self, out: &mut Vec<u8>) {
        append_bytes(out, self.cv.as_slice());
        append_bytes(out, self.nullifier.as_slice());
        append_bytes(out, self.rk.as_slice());
        append_bytes(out, self.cm_x.as_slice());
        append_bytes(out, self.ephemeral_key.as_slice());
        append_bytes(out, self.enc_ciphertext.0.as_slice());
        append_bytes(out, self.out_ciphertext.0.as_slice());
        assert(final(out)@ =~= old(out)@ + self.encoding());
    }
}

/// Where the encoding of an action stands, each of its fields stands at its
/// offset.
proof fn lemma_action_fields(data: Seq<u8>, pos: int, a: Action)
    requires
        prefix_at(data, pos, a.encoding()),
    ensures
        prefix_at(data, pos, a.cv@),
        prefix_at(data, pos + 32, a.nullifier@),
        prefix_at(data, pos + 64, a.rk@),
        prefix_at(data, pos + 96, a.cm_x@),
        prefix_at(data, pos + 128, a.ephemeral_key@),
        prefix_at(data, pos + 160, a.enc_ciphertext.0@),
        prefix_at(data, pos + 160 + a.enc_ciphertext.0@.len(), a.out_ciphertext.0@),
{
    let e = a.enc_ciphertext.0@;
    lemma_prefix_at_split(data, pos, a.cv@ + a.nullifier@ + a.rk@ + a.cm_x@ + a.ephemeral_key@ + e, a.out_ciphertext.0@);
    lemma_prefix_at_split(data, pos, a.cv@ + a.nullifier@ + a.rk@ + a.cm_x@ + a.ephemeral_key@, e);
    lemma_prefix_at_split(data, pos, a.cv@ + a.nullifier@ + a.rk@ + a.cm_x@, a.ephemeral_key@);
    lemma_prefix_at_split(data, pos, a.cv@ + a.nullifier@ + a.rk@, a.cm_x@);
    lemma_prefix_at_split(data, pos, a.cv@ + a.nullifier@, a.rk@);
    lemma_prefix_at_split(data, pos, a.cv@, a.nullifier@);
}

impl Action {
    /// Reads an action whose encrypted note has the size of the flavour `V`.
    pub fn zcash_deserialize_flavour<V: OrchardFlavour>(data: &[u8], pos: usize) -> (r: Result<
        (Action, usize),
        SerializationError,
    >)
        ensures
            match r {
                Ok((a, end)) => a.enc_ciphertext.0@.len() == V::spec_note_size() && end == pos
                    + a.encoding().len() && prefix_at(data@, pos as int, a.encoding()),
                Err(_) => true,
            },
            forall|x: Action|
                x.enc_ciphertext.0@.len() == V::spec_note_size() && prefix_at(
                    data@,
                    pos as int,
                    #[trigger] x.encoding(),
                ) ==> (r matches Ok((y, end)) && y.encoding() == x.encoding() && end == pos
                    + x.encoding().len()),
    {
        let size = V::encrypted_note_size();
        proof {
            assert forall|x: Action|
                x.enc_ciphertext.0@.len() == V::spec_note_size() && prefix_at(
                    data@,
                    pos as int,
                    #[trigger] x.encoding(),
                ) implies pos + 160 + size + 80 <= data@.len() && prefix_at(
                data@,
                pos + 160,
                x.enc_ciphertext.0@,
            ) by {
                lemma_action_fields(data@, pos as int, x);
            }
        }
        let (cv, p1) = match read_array::<32>(data, pos) {
            Ok(x) => x,
            Err(e) => return Err(e),
        };
        let (nullifier, p2) = match read_array::<32>(data, p1) {
            Ok(x) => x,
            Err(e) => return Err(e),
        };
        let (rk, p3) = match read_array::<32>(data, p2) {
            Ok(x) => x,
            Err(e) => return Err(e),
        };
        let (cm_x, p4) = match read_array::<32>(data, p3) {
            Ok(x) => x,
            Err(e) => return Err(e),
        };
        let (ephemeral_key, p5) = match read_array::<32>(data, p4) {
            Ok(x) => x,
            Err(e) => return Err(e),
        };
        let (enc_ciphertext, p6) = match EncryptedNote::zcash_deserialize_sized(data, p5, size) {
            Ok(x) => x,
            Err(e) => return Err(e),
        };
        let (out_ciphertext, end) = match WrappedNoteKey::zcash_deserialize(data, p6) {
            Ok(x) => x,
            Err(e) => {
                proof {
                    assert forall|x: Action|
                        x.enc_ciphertext.0@.len() == V::spec_note_size() && prefix_at(
                            data@,
                            pos as int,
                            #[trigger] x.encoding(),
                        ) implies false by {
                        lemma_action_fields(data@, pos as int, x);
                        assert(x.out_ciphertext.wf());
                        assert(x.out_ciphertext.encoding() == x.out_ciphertext.0@);
                    }
                }
                return Err(e);
            },
        };
        let action = Action { cv, nullifier, rk, cm_x, ephemeral_key, enc_ciphertext, out_ciphertext };
        proof {
            let e = action.enc_ciphertext.0@;
            assert(prefix_at(data@, p5 as int, e)) by {
                assert(data@.subrange(p5 as int, p5 + e.len()) == e);
            }
            lemma_prefix_at_join(data@, pos as int, cv@, nullifier@);
            lemma_prefix_at_join(data@, pos as int, cv@ + nullifier@, rk@);
            lemma_prefix_at_join(data@, pos as int, cv@ + nullifier@ + rk@, cm_x@);
            lemma_prefix_at_join(data@, pos as int, cv@ + nullifier@ + rk@ + cm_x@, ephemeral_key@);
            lemma_prefix_at_join(data@, pos as int, cv@ + nullifier@ + rk@ + cm_x@ + ephemeral_key@, e);
            lemma_prefix_at_join(
                data@,
                pos as int,
                cv@ + nullifier@ + rk@ + cm_x@ + ephemeral_key@ + e,
                out_ciphertext.0@,
            );
            assert forall|x: Action|
                x.enc_ciphertext.0@.len() == V::spec_note_size() && prefix_at(
                    data@,
                    pos as int,
                    #[trigger] x.encoding(),
                ) implies action.encoding() == x.encoding() by {
                lemma_action_fields(data@, pos as int, x);
                assert(x.out_ciphertext.wf());
                assert(x.out_ciphertext.encoding() == x.out_ciphertext.0@);
                assert(x.enc_ciphertext.0@ =~= e);
            }
        }
        Ok((action, end))
    }
}

/// The bytes of an action.
pub open spec fn action_bytes(a: Action) -> Seq<u8> {
    a.encoding()
}

/// The bytes of the action of an authorized action.
pub open spec fn authorized_action_bytes(a: AuthorizedAction) -> Seq<u8> {
    a.action.encoding()
}

/// The bytes of a signature.
pub open spec fn signature_bytes(s: Signature) -> Seq<u8> {
    s.0@
}

/// The bytes of the signature of an authorized action.
pub open spec fn authorized_signature_bytes(a: AuthorizedAction) -> Seq<u8> {
    a.spend_auth_sig.0@
}

/// The bytes of the actions of a sequence of authorized actions.
pub open spec fn authorized_actions_bytes(s: Seq<AuthorizedAction>) -> Seq<u8> {
    concat_map(s, |a: AuthorizedAction| authorized_action_bytes(a))
}

/// The bytes of the signatures of a sequence of authorized actions.
pub open spec fn authorized_signatures_bytes(s: Seq<AuthorizedAction>) -> Seq<u8> {
    concat_map(s, |a: AuthorizedAction| authorized_signature_bytes(a))
}

/// The bytes of a sequence of actions.
pub open spec fn actions_bytes(s: Seq<Action>) -> Seq<u8> {
    concat_map(s, |a: Action| action_bytes(a))
}

/// The bytes of a sequence of signatures.
pub open spec fn signatures_bytes(s: Seq<Signature>) -> Seq<u8> {
    concat_map(s, |x: Signature| signature_bytes(x))
}

impl<V: OrchardFlavour> ShieldedData<V> {
    /// The encoding of the bundle inside a transaction: the actions with their
    /// count, the flags, the value balance, the anchor, the proof with its
    /// length, the spend authorization signatures, the burn items for
    /// flavours that have them, then the binding signature.
    pub open spec fn bundle_encoding(&self) -> Seq<u8> {
        let actions = self.actions@;
        compact_size(actions.len() as u64) + authorized_actions_bytes(actions) + seq![
            self.flags.spec_bits(),
        ] + le_i64(self.value_balance) + self.shared_anchor@ + var_bytes(self.proof@)
            + authorized_signatures_bytes(actions) + (if V::spec_has_burn() {
            self.burn.encoding()
        } else {
            seq![]
        }) + self.binding_sig@
    }

    /// Bounds on the lengths that the encoding writes.
    pub open spec fn lengths_fit(&self) -> bool {
        &&& self.actions@.len() <= u64::MAX
        &&& self.proof@.len() <= u64::MAX
        &&& self.burn.wf()
    }
}

/// The encoding of the Orchard part of a version 5 or 6 transaction: a zero
/// count of actions when there is no bundle.
pub open spec fn orchard_part_encoding<V: OrchardFlavour>(data: Option<ShieldedData<V>>) -> Seq<u8> {
    match data {
        None => compact_size(0),
        Some(d) => d.bundle_encoding(),
    }
}

/// Appends the Orchard part of a version 5 or 6 transaction.
pub fn write_orchard_part<V: OrchardFlavour>(out: &mut Vec<u8>, data: &Option<ShieldedData<V>>)
    requires
        data matches Some(d) ==> d.wf() && d.lengths_fit(),
    ensures
        final(out)@ == old(out)@ + orchard_part_encoding(*data),
{
    match data {
        None => write_compactsize(out, 0),
        Some(d) => {
            let actions = d.actions.as_slice();
            let ghost start = out@;
            write_compactsize(out, actions.len() as u64);
            let ghost f = |a: AuthorizedAction| authorized_action_bytes(a);
            let ghost g = |a: AuthorizedAction| authorized_signature_bytes(a);
            let ghost mid = out@;
            let mut i: usize = 0;
            while i < actions.len()
                invariant
                    i <= actions@.len(),
                    actions@ == d.actions@,
                    f == (|a: AuthorizedAction| authorized_action_bytes(a)),
                    out@ == mid + concat_map(actions@.take(i as int), f),
                decreases actions@.len() - i,
            {
                proof {
                    lemma_concat_map_step(actions@, f, i as int);
                }
                actions[i].action.zcash_serialize(out);
                i = i + 1;
            }
            assert(actions@.take(actions@.len() as int) =~= actions@);
            d.flags.zcash_serialize(out);
            write_i64(out, d.value_balance);
            append_bytes(out, d.shared_anchor.as_slice());
            write_var_bytes(out, d.proof.as_slice());
            let ghost mid2 = out@;
            let mut k: usize = 0;
            while k < actions.len()
                invariant
                    k <= actions@.len(),
                    actions@ == d.actions@,
                    g == (|a: AuthorizedAction| authorized_signature_bytes(a)),
                    out@ == mid2 + concat_map(actions@.take(k as int), g),
                decreases actions@.len() - k,
            {
                proof {
                    lemma_concat_map_step(actions@, g, k as int);
                }
                append_bytes(out, actions[k].spend_auth_sig.0.as_slice());
                k = k + 1;
            }
            if V::has_burn() {
                d.burn.zcash_serialize(out);
            }
            append_bytes(out, d.binding_sig.as_slice());
            assert(final(out)@ =~= old(out)@ + orchard_part_encoding(*data));
        },
    }
}

/// Pairs each action with the signature at the same position.
fn zip_actions(actions: Vec<Action>, sigs: Vec<Signature>) -> (r: Vec<AuthorizedAction>)
    requires
        actions@.len() == sigs@.len(),
    ensures
        r@.len() == actions@.len(),
        forall|i: int|
            0 <= i < r@.len() ==> (#[trigger] r@[i]).action == actions@[i] && r@[i].spend_auth_sig
                == sigs@[i],
{
    let ghost a0 = actions@;
    let ghost s0 = sigs@;
    let n = actions.len();
    let mut actions = actions;
    let mut sigs = sigs;
    let mut reversed: Vec<AuthorizedAction> = Vec::new();
    while actions.len() > 0
        invariant
            actions@.len() == sigs@.len(),
            actions@.len() + reversed@.len() == n,
            n == a0.len(),
            a0.len() == s0.len(),
            actions@ == a0.subrange(0, actions@.len() as int),
            sigs@ == s0.subrange(0, sigs@.len() as int),
            forall|j: int|
                0 <= j < reversed@.len() ==> (#[trigger] reversed@[j]).action == a0[n - 1 - j]
                    && reversed@[j].spend_auth_sig == s0[n - 1 - j],
        decreases actions@.len(),
    {
        let action = actions.pop().unwrap();
        let sig = sigs.pop().unwrap();
        reversed.push(AuthorizedAction { action, spend_auth_sig: sig });
    }
    let mut r: Vec<AuthorizedAction> = Vec::new();
    while reversed.len() > 0
        invariant
            reversed@.len() + r@.len() == n,
            n == a0.len(),
            a0.len() == s0.len(),
            forall|j: int|
                0 <= j < reversed@.len() ==> (#[trigger] reversed@[j]).action == a0[n - 1 - j]
                    && reversed@[j].spend_auth_sig == s0[n - 1 - j],
            forall|j: int|
                0 <= j < r@.len() ==> (#[trigger] r@[j]).action == a0[j] && r@[j].spend_auth_sig
                    == s0[j],
        decreases reversed@.len(),
    {
        let item = reversed.pop().unwrap();
        r.push(item);
    }
    r
}

impl<V: OrchardFlavour> ShieldedData<V> {
    /// A bundle that its encoding can carry: valid, with lengths that fit, and
    /// with one to the largest number of actions a block can hold.
    pub open spec fn readable(&self) -> bool {
        &&& self.wf()
        &&& self.lengths_fit()
        &&& 1 <= self.actions@.len() <= ACTION_MAX_ALLOCATION
    }
}

/// The parts of the encoding of a bundle, in order.
pub open spec fn bundle_parts<V: OrchardFlavour>(x: ShieldedData<V>) -> Seq<Seq<u8>> {
    seq![
        compact_size(x.actions@.len() as u64),
        authorized_actions_bytes(x.actions@),
        seq![x.flags.spec_bits()],
        le_i64(x.value_balance),
        x.shared_anchor@,
        var_bytes(x.proof@),
        authorized_signatures_bytes(x.actions@),
        if V::spec_has_burn() {
            x.burn.encoding()
        } else {
            seq![]
        },
        x.binding_sig@,
    ]
}

/// The total length of the first `k` parts.
pub open spec fn parts_len(parts: Seq<Seq<u8>>, k: int) -> int
    decreases k,
{
    if k <= 0 {
        0
    } else {
        parts_len(parts, k - 1) + parts[k - 1].len()
    }
}

/// Where the encoding of a bundle stands, each part stands after the parts
/// before it.
proof fn lemma_bundle_parts<V: OrchardFlavour>(data: Seq<u8>, pos: int, x: ShieldedData<V>)
    requires
        prefix_at(data, pos, x.bundle_encoding()),
    ensures
        forall|k: int| 0 <= k < 9 ==> prefix_at(data, pos + parts_len(bundle_parts(x), k), #[trigger] bundle_parts(x)[k]),
        parts_len(bundle_parts(x), 9) == x.bundle_encoding().len(),
{
    reveal_with_fuel(parts_len, 10);
    let p = bundle_parts(x);
    let e = p[0] + p[1] + p[2] + p[3] + p[4] + p[5] + p[6] + p[7] + p[8];
    assert(e =~= x.bundle_encoding());
    lemma_prefix_at_split(data, pos, p[0] + p[1] + p[2] + p[3] + p[4] + p[5] + p[6] + p[7], p[8]);
    lemma_prefix_at_split(data, pos, p[0] + p[1] + p[2] + p[3] + p[4] + p[5] + p[6], p[7]);
    lemma_prefix_at_split(data, pos, p[0] + p[1] + p[2] + p[3] + p[4] + p[5], p[6]);
    lemma_prefix_at_split(data, pos, p[0] + p[1] + p[2] + p[3] + p[4], p[5]);
    lemma_prefix_at_split(data, pos, p[0] + p[1] + p[2] + p[3], p[4]);
    lemma_prefix_at_split(data, pos, p[0] + p[1] + p[2], p[3]);
    lemma_prefix_at_split(data, pos, p[0] + p[1], p[2]);
    lemma_prefix_at_split(data, pos, p[0], p[1]);
    assert(parts_len(p, 9) == x.bundle_encoding().len());
    assert forall|k: int| 0 <= k < 9 implies prefix_at(data, pos + parts_len(p, k), #[trigger] p[k]) by {
        if k == 0 {
        } else if k == 1 {
        } else if k == 2 {
        } else if k == 3 {
        } else if k == 4 {
        } else if k == 5 {
        } else if k == 6 {
        } else if k == 7 {
        } else {
        }
    }
}

/// The bundle `x` is readable and its encoding stands at `pos`.
pub open spec fn bundle_at<V: OrchardFlavour>(data: Seq<u8>, pos: int, x: ShieldedData<V>) -> bool {
    x.readable() && prefix_at(data, pos, x.bundle_encoding())
}

/// Reads `n` actions of the flavour `V`.
fn read_actions<V: OrchardFlavour>(data: &[u8], start: usize, n: u64) -> (r: Result<
    (Vec<Action>, usize),
    SerializationError,
>)
    ensures
        match r {
            Ok((acts, end)) => {
                &&& acts@.len() == n
                &&& forall|j: int|
                    0 <= j < n ==> (#[trigger] acts@[j]).enc_ciphertext.0@.len() == V::spec_note_size()
                &&& end == start + actions_bytes(acts@).len()
                &&& prefix_at(data@, start as int, actions_bytes(acts@))
            },
            Err(_) => true,
        },
        forall|s: Seq<AuthorizedAction>|
            s.len() == n && (forall|j: int|
                0 <= j < n ==> (#[trigger] s[j]).action.enc_ciphertext.0@.len()
                    == V::spec_note_size()) && prefix_at(
                data@,
                start as int,
                #[trigger] authorized_actions_bytes(s),
            ) ==> (r matches Ok((acts, end)) && actions_bytes(acts@)
                == authorized_actions_bytes(s)),
{
    let ghost fa = |a: Action| action_bytes(a);
    let ghost fx = |a: AuthorizedAction| authorized_action_bytes(a);
    let mut acts: Vec<Action> = Vec::new();
    let mut cur = start;
    let mut i: u64 = 0;
    assert(concat_map(acts@, fa) =~= Seq::<u8>::empty());
    if start > data.len() {
        return Err(SerializationError::Truncated);
    }
    assert(data@.subrange(start as int, start as int) =~= Seq::<u8>::empty());
    while i < n
        invariant
            i <= n,
            acts@.len() == i,
            fa == (|a: Action| action_bytes(a)),
            fx == (|a: AuthorizedAction| authorized_action_bytes(a)),
            forall|j: int|
                0 <= j < i ==> (#[trigger] acts@[j]).enc_ciphertext.0@.len() == V::spec_note_size(),
            cur == start + concat_map(acts@, fa).len(),
            prefix_at(data@, start as int, concat_map(acts@, fa)),
            forall|s: Seq<AuthorizedAction>|
                s.len() == n && (forall|j: int|
                    0 <= j < n ==> (#[trigger] s[j]).action.enc_ciphertext.0@.len()
                        == V::spec_note_size()) && prefix_at(data@, start as int, #[trigger] concat_map(s, fx))
                    ==> concat_map(acts@, fa) == concat_map(s.take(i as int), fx),
        decreases n - i,
    {
        let ghost old_acts = acts@;
        proof {
            assert forall|s: Seq<AuthorizedAction>|
                s.len() == n && (forall|j: int|
                    0 <= j < n ==> (#[trigger] s[j]).action.enc_ciphertext.0@.len()
                        == V::spec_note_size()) && prefix_at(data@, start as int, #[trigger] concat_map(s, fx))
                    implies prefix_at(data@, cur as int, s[i as int].action.encoding()) by {
                lemma_prefix_at_element(data@, start as int, s, fx, i as int);
            }
        }
        let (a, next) = match Action::zcash_deserialize_flavour::<V>(data, cur) {
            Ok(x) => x,
            Err(e) => {
                proof {
                    assert forall|s: Seq<AuthorizedAction>|
                        s.len() == n && (forall|j: int|
                            0 <= j < n ==> (#[trigger] s[j]).action.enc_ciphertext.0@.len()
                                == V::spec_note_size()) && prefix_at(data@, start as int, #[trigger] concat_map(s, fx))
                            implies false by {
                        assert(prefix_at(data@, cur as int, s[i as int].action.encoding()));
                        assert(s[i as int].action.enc_ciphertext.0@.len() == V::spec_note_size());
                    }
                }
                return Err(e);
            },
        };
        acts.push(a);
        proof {
            assert(acts@.drop_last() =~= old_acts);
            lemma_prefix_at_join(data@, start as int, concat_map(old_acts, fa), a.encoding());
            assert forall|s: Seq<AuthorizedAction>|
                s.len() == n && (forall|j: int|
                    0 <= j < n ==> (#[trigger] s[j]).action.enc_ciphertext.0@.len()
                        == V::spec_note_size()) && prefix_at(data@, start as int, #[trigger] concat_map(s, fx))
                    implies concat_map(acts@, fa) == concat_map(s.take(i + 1), fx) by {
                assert(prefix_at(data@, cur as int, s[i as int].action.encoding()));
                assert(s[i as int].action.enc_ciphertext.0@.len() == V::spec_note_size());
                lemma_concat_map_step(s, fx, i as int);
            }
        }
        cur = next;
        i = i + 1;
    }
    proof {
        assert forall|s: Seq<AuthorizedAction>|
            s.len() == n && (forall|j: int|
                0 <= j < n ==> (#[trigger] s[j]).action.enc_ciphertext.0@.len()
                    == V::spec_note_size()) && prefix_at(data@, start as int, #[trigger] concat_map(s, fx))
                implies concat_map(acts@, fa) == concat_map(s, fx) by {
            assert(s.take(n as int) =~= s);
        }
    }
    Ok((acts, cur))
}

/// Reads `n` spend authorization signatures.
fn read_signatures(data: &[u8], start: usize, n: u64) -> (r: Result<
    (Vec<Signature>, usize),
    SerializationError,
>)
    ensures
        match r {
            Ok((sigs, end)) => {
                &&& sigs@.len() == n
                &&& end == start + signatures_bytes(sigs@).len()
                &&& prefix_at(data@, start as int, signatures_bytes(sigs@))
            },
            Err(_) => true,
        },
        forall|s: Seq<AuthorizedAction>|
            s.len() == n && prefix_at(
                data@,
                start as int,
                #[trigger] authorized_signatures_bytes(s),
            ) ==> (r matches Ok((sigs, end)) && forall|j: int|
                0 <= j < n ==> #[trigger] sigs@[j] == s[j].spend_auth_sig),
{
    let ghost gs = |x: Signature| signature_bytes(x);
    let ghost gx = |a: AuthorizedAction| authorized_signature_bytes(a);
    let mut sigs: Vec<Signature> = Vec::new();
    let mut cur = start;
    let mut k: u64 = 0;
    assert(concat_map(sigs@, gs) =~= Seq::<u8>::empty());
    if start > data.len() {
        return Err(SerializationError::Truncated);
    }
    assert(data@.subrange(start as int, start as int) =~= Seq::<u8>::empty());
    while k < n
        invariant
            k <= n,
            gs == (|x: Signature| signature_bytes(x)),
            gx == (|a: AuthorizedAction| authorized_signature_bytes(a)),
            sigs@.len() == k,
            cur == start + concat_map(sigs@, gs).len(),
            prefix_at(data@, start as int, concat_map(sigs@, gs)),
            forall|s: Seq<AuthorizedAction>|
                s.len() == n && prefix_at(data@, start as int, #[trigger] concat_map(s, gx)) ==> forall|
                    j: int,
                | 0 <= j < k ==> #[trigger] sigs@[j] == s[j].spend_auth_sig,
        decreases n - k,
    {
        let ghost old_sigs = sigs@;
        proof {
            assert forall|s: Seq<AuthorizedAction>|
                s.len() == n && prefix_at(data@, start as int, #[trigger] concat_map(s, gx)) implies prefix_at(
                data@,
                cur as int,
                s[k as int].spend_auth_sig.0@,
            ) by {
                lemma_prefix_at_element(data@, start as int, s, gx, k as int);
                lemma_concat_map_pointwise(sigs@, gs, s.take(k as int), gx);
            }
        }
        let (sig, next) = match read_array::<64>(data, cur) {
            Ok(x) => x,
            Err(e) => {
                proof {
                    assert forall|s: Seq<AuthorizedAction>|
                        s.len() == n && prefix_at(data@, start as int, #[trigger] concat_map(s, gx))
                            implies false by {
                        assert(prefix_at(data@, cur as int, s[k as int].spend_auth_sig.0@));
                    }
                }
                return Err(e);
            },
        };
        sigs.push(Signature(sig));
        proof {
            assert(sigs@.drop_last() =~= old_sigs);
            lemma_prefix_at_join(data@, start as int, concat_map(old_sigs, gs), sig@);
            assert forall|s: Seq<AuthorizedAction>|
                s.len() == n && prefix_at(data@, start as int, #[trigger] concat_map(s, gx)) implies forall|
                    j: int,
                | 0 <= j < k + 1 ==> #[trigger] sigs@[j] == s[j].spend_auth_sig by {
                assert(prefix_at(data@, cur as int, s[k as int].spend_auth_sig.0@));
                assert(sig == s[k as int].spend_auth_sig.0);
            }
        }
        cur = next;
        k = k + 1;
    }
    Ok((sigs, cur))
}

/// The fields a reader finds where a bundle stands, at the offsets of its
/// parts.
proof fn lemma_bundle_offsets<V: OrchardFlavour>(data: Seq<u8>, pos: int, x: ShieldedData<V>)
    requires
        bundle_at(data, pos, x),
    ensures
        ({
            let p = bundle_parts(x);
            let p0 = pos + compact_size(x.actions@.len() as u64).len();
            let p1 = p0 + authorized_actions_bytes(x.actions@).len();
            let p5 = p1 + 1 + 8 + 32 + var_bytes(x.proof@).len();
            let p6 = p5 + authorized_signatures_bytes(x.actions@).len();
            &&& prefix_at(data, pos, compact_size(x.actions@.len() as u64))
            &&& prefix_at(data, p0, authorized_actions_bytes(x.actions@))
            &&& prefix_at(data, p1, x.flags.encoding())
            &&& prefix_at(data, p1 + 1, le_i64(x.value_balance))
            &&& prefix_at(data, p1 + 9, x.shared_anchor@)
            &&& prefix_at(data, p1 + 41, var_bytes(x.proof@))
            &&& prefix_at(data, p5, authorized_signatures_bytes(x.actions@))
            &&& prefix_at(data, p6, p[7])
            &&& prefix_at(data, p6 + p[7].len(), x.binding_sig@)
            &&& x.bundle_encoding().len() == p6 + p[7].len() + 64 - pos
        }),
{
    reveal_with_fuel(parts_len, 10);
    vstd::bytes::lemma_auto_spec_u64_to_from_le_bytes();
    lemma_bundle_parts(data, pos, x);
    let p = bundle_parts(x);
    assert(p[1] == authorized_actions_bytes(x.actions@));
    assert(p[6] == authorized_signatures_bytes(x.actions@));
    assert(p[2] == x.flags.encoding());
    assert(prefix_at(data, pos + parts_len(p, 0), p[0]));
    assert(prefix_at(data, pos + parts_len(p, 1), p[1]));
    assert(prefix_at(data, pos + parts_len(p, 2), p[2]));
    assert(prefix_at(data, pos + parts_len(p, 3), p[3]));
    assert(prefix_at(data, pos + parts_len(p, 4), p[4]));
    assert(prefix_at(data, pos + parts_len(p, 5), p[5]));
    assert(prefix_at(data, pos + parts_len(p, 6), p[6]));
    assert(prefix_at(data, pos + parts_len(p, 7), p[7]));
    assert(prefix_at(data, pos + parts_len(p, 8), p[8]));
}

/// Where the Orchard part of a transaction stands, either a zero count or a
/// readable bundle stands.
proof fn lemma_part_cases<V: OrchardFlavour>(data: Seq<u8>, pos: int, d: Option<ShieldedData<V>>)
    requires
        d matches Some(x) ==> x.readable(),
        prefix_at(data, pos, orchard_part_encoding(d)),
    ensures
        d matches Some(x) ==> bundle_at(data, pos, x),
        d is None ==> prefix_at(data, pos, compact_size(0)),
{
}

/// What a reader that found each part of a bundle in turn returns: a bundle
/// whose encoding is what it read, the same as the encoding of any readable
/// bundle standing there.
proof fn lemma_read_bundle_result<V: OrchardFlavour>(
    data: Seq<u8>,
    pos: int,
    y: ShieldedData<V>,
    acts: Seq<Action>,
    sigs: Seq<Signature>,
    n: u64,
    p0: int,
    p1: int,
    p5: int,
    p6: int,
    burn_part: Seq<u8>,
    end: int,
)
    requires
        y.readable(),
        y.actions@.len() == n,
        acts.len() == n,
        sigs.len() == n,
        forall|j: int|
            0 <= j < n ==> (#[trigger] y.actions@[j]).action == acts[j] && y.actions@[j].spend_auth_sig
                == sigs[j],
        prefix_at(data, pos, compact_size(n)),
        p0 == pos + compact_size(n).len(),
        prefix_at(data, p0, actions_bytes(acts)),
        p1 == p0 + actions_bytes(acts).len(),
        prefix_at(data, p1, y.flags.encoding()),
        prefix_at(data, p1 + 1, le_i64(y.value_balance)),
        prefix_at(data, p1 + 9, y.shared_anchor@),
        prefix_at(data, p1 + 41, var_bytes(y.proof@)),
        p5 == p1 + 41 + var_bytes(y.proof@).len(),
        prefix_at(data, p5, signatures_bytes(sigs)),
        p6 == p5 + signatures_bytes(sigs).len(),
        burn_part == (if V::spec_has_burn() {
            y.burn.encoding()
        } else {
            Seq::<u8>::empty()
        }),
        prefix_at(data, p6, burn_part),
        prefix_at(data, p6 + burn_part.len(), y.binding_sig@),
        end == p6 + burn_part.len() + 64,
        forall|x: ShieldedData<V>| #[trigger]
            bundle_at(data, pos, x) ==> {
                &&& x.actions@.len() == n
                &&& actions_bytes(acts) == concat_map(
                    x.actions@,
                    |a: AuthorizedAction| authorized_action_bytes(a),
                )
                &&& x.flags.encoding() == y.flags.encoding()
                &&& x.value_balance == y.value_balance
                &&& x.shared_anchor == y.shared_anchor
                &&& x.proof@ == y.proof@
                &&& forall|j: int| 0 <= j < n ==> #[trigger] sigs[j] == x.actions@[j].spend_auth_sig
                &&& bundle_parts(x)[7] == burn_part
                &&& x.binding_sig == y.binding_sig
            },
    ensures
        end == pos + y.bundle_encoding().len(),
        prefix_at(data, pos, y.bundle_encoding()),
        forall|x: ShieldedData<V>| #[trigger]
            bundle_at(data, pos, x) ==> y.bundle_encoding() == x.bundle_encoding(),
{
    vstd::bytes::lemma_auto_spec_u64_to_from_le_bytes();
    let fa = |a: Action| action_bytes(a);
    let fx = |a: AuthorizedAction| authorized_action_bytes(a);
    let gs = |x: Signature| signature_bytes(x);
    let gx = |a: AuthorizedAction| authorized_signature_bytes(a);
    lemma_concat_map_pointwise(y.actions@, fx, acts, fa);
    lemma_concat_map_pointwise(y.actions@, gx, sigs, gs);
    let q = bundle_parts(y);
    assert(q[0] == compact_size(n));
    assert(q[1] == concat_map(acts, fa));
    assert(q[2] == y.flags.encoding());
    assert(q[6] == concat_map(sigs, gs));
    assert(q[7] == burn_part);
    lemma_prefix_at_join(data, pos, q[0], q[1]);
    lemma_prefix_at_join(data, pos, q[0] + q[1], q[2]);
    lemma_prefix_at_join(data, pos, q[0] + q[1] + q[2], q[3]);
    lemma_prefix_at_join(data, pos, q[0] + q[1] + q[2] + q[3], q[4]);
    lemma_prefix_at_join(data, pos, q[0] + q[1] + q[2] + q[3] + q[4], q[5]);
    lemma_prefix_at_join(data, pos, q[0] + q[1] + q[2] + q[3] + q[4] + q[5], q[6]);
    lemma_prefix_at_join(data, pos, q[0] + q[1] + q[2] + q[3] + q[4] + q[5] + q[6], q[7]);
    lemma_prefix_at_join(
        data,
        pos,
        q[0] + q[1] + q[2] + q[3] + q[4] + q[5] + q[6] + q[7],
        q[8],
    );
    assert(q[0] + q[1] + q[2] + q[3] + q[4] + q[5] + q[6] + q[7] + q[8] =~= y.bundle_encoding());
    assert forall|x: ShieldedData<V>| #[trigger] bundle_at(data, pos, x) implies y.bundle_encoding()
        == x.bundle_encoding() by {
        let p = bundle_parts(x);
        lemma_concat_map_pointwise(sigs, gs, x.actions@, gx);
        assert(p[0] == q[0]);
        assert(p[1] == q[1]);
        assert(p[2] == q[2]);
        assert(p[6] == q[6]);
        assert(p[0] + p[1] + p[2] + p[3] + p[4] + p[5] + p[6] + p[7] + p[8] =~= x.bundle_encoding());
    }
}

/// Reads the rest of a bundle whose count of actions, `n`, was read at
/// `pos` and ends at `p0`.
#[verifier::rlimit(60)]
fn read_bundle_body<V: OrchardFlavour>(data: &[u8], pos: usize, n: u64, p0: usize) -> (r: Result<
    (ShieldedData<V>, usize),
    SerializationError,
>)
    requires
        1 <= n <= ACTION_MAX_ALLOCATION,
        prefix_at(data@, pos as int, compact_size(n)),
        p0 == pos + compact_size(n).len(),
        forall|x: ShieldedData<V>| #[trigger] bundle_at(data@, pos as int, x) ==> x.actions@.len() == n,
    ensures
        match r {
            Ok((y, end)) => y.readable() && end == pos + y.bundle_encoding().len() && prefix_at(
                data@,
                pos as int,
                y.bundle_encoding(),
            ),
            Err(_) => true,
        },
        forall|x: ShieldedData<V>| #[trigger]
            bundle_at(data@, pos as int, x) ==> (r matches Ok((y, end)) && y.bundle_encoding()
                == x.bundle_encoding()),
{
    let (acts, p1) = match read_actions::<V>(data, p0, n) {
        Ok(x) => x,
        Err(e) => {
            proof {
                assert forall|x: ShieldedData<V>| #[trigger] bundle_at(data@, pos as int, x) implies false by {
                    lemma_bundle_offsets(data@, pos as int, x);
                }
            }
            return Err(e);
        },
    };
    proof {
        assert forall|x: ShieldedData<V>| #[trigger] bundle_at(data@, pos as int, x) implies concat_map(
            acts@,
            |a: Action| action_bytes(a),
        ) == authorized_actions_bytes(x.actions@) by {
            lemma_bundle_offsets(data@, pos as int, x);
        }
    }
    let (flags, p2) = match Flags::zcash_deserialize(data, p1) {
        Ok(x) => x,
        Err(e) => {
            proof {
                assert forall|x: ShieldedData<V>| #[trigger] bundle_at(data@, pos as int, x) implies false by {
                    lemma_bundle_offsets(data@, pos as int, x);
                }
            }
            return Err(e);
        },
    };
    let (value_balance, p3) = match read_i64(data, p2) {
        Ok(x) => x,
        Err(e) => {
            proof {
                assert forall|x: ShieldedData<V>| #[trigger] bundle_at(data@, pos as int, x) implies false by {
                    lemma_bundle_offsets(data@, pos as int, x);
                }
            }
            return Err(e);
        },
    };
    let (shared_anchor, p4) = match read_array::<32>(data, p3) {
        Ok(x) => x,
        Err(e) => {
            proof {
                assert forall|x: ShieldedData<V>| #[trigger] bundle_at(data@, pos as int, x) implies false by {
                    lemma_bundle_offsets(data@, pos as int, x);
                }
            }
            return Err(e);
        },
    };
    let (proof_bytes, p5) = match read_var_bytes(data, p4) {
        Ok(x) => x,
        Err(e) => {
            proof {
                assert forall|x: ShieldedData<V>| #[trigger] bundle_at(data@, pos as int, x) implies false by {
                    lemma_bundle_offsets(data@, pos as int, x);
                }
            }
            return Err(e);
        },
    };
    proof {
        vstd::bytes::lemma_auto_spec_u64_to_from_le_bytes();
        assert forall|x: ShieldedData<V>| #[trigger] bundle_at(data@, pos as int, x) implies {
            &&& x.flags.encoding() == flags.encoding()
            &&& x.value_balance == value_balance
            &&& x.shared_anchor == shared_anchor
            &&& x.proof@ == proof_bytes@
        } by {
            lemma_bundle_offsets(data@, pos as int, x);
        }
    }
    let (sigs, p6) = match read_signatures(data, p5, n) {
        Ok(x) => x,
        Err(e) => {
            proof {
                assert forall|x: ShieldedData<V>| #[trigger] bundle_at(data@, pos as int, x) implies false by {
                    lemma_bundle_offsets(data@, pos as int, x);
                }
            }
            return Err(e);
        },
    };
    let (burn, p7) = if V::has_burn() {
        match Burn::zcash_deserialize(data, p6) {
            Ok(x) => x,
            Err(e) => {
                proof {
                    assert forall|x: ShieldedData<V>| #[trigger] bundle_at(data@, pos as int, x) implies false by {
                        lemma_bundle_offsets(data@, pos as int, x);
                        lemma_concat_map_pointwise(sigs@, |x: Signature| signature_bytes(x), x.actions@, |a: AuthorizedAction| authorized_signature_bytes(a));
                    }
                }
                return Err(e);
            },
        }
    } else {
        assert(data@.subrange(p6 as int, p6 as int) =~= Seq::<u8>::empty());
        (Burn(Vec::new()), p6)
    };
    proof {
        assert forall|x: ShieldedData<V>| #[trigger] bundle_at(data@, pos as int, x) implies (forall|
            j: int,
        | 0 <= j < n ==> #[trigger] sigs@[j] == x.actions@[j].spend_auth_sig) by {
            lemma_bundle_offsets(data@, pos as int, x);
        }
    }
    let ghost burn_part = if V::spec_has_burn() {
        burn.encoding()
    } else {
        Seq::<u8>::empty()
    };
    proof {
        assert forall|x: ShieldedData<V>| #[trigger] bundle_at(data@, pos as int, x) implies bundle_parts(
            x,
        )[7] == burn_part && p7 == p6 + burn_part.len() by {
            lemma_bundle_offsets(data@, pos as int, x);
            lemma_concat_map_pointwise(sigs@, |x: Signature| signature_bytes(x), x.actions@, |a: AuthorizedAction| authorized_signature_bytes(a));
        }
    }
    let (binding_sig, end) = match read_array::<64>(data, p7) {
        Ok(x) => x,
        Err(e) => {
            proof {
                assert forall|x: ShieldedData<V>| #[trigger] bundle_at(data@, pos as int, x) implies false by {
                    lemma_bundle_offsets(data@, pos as int, x);
                    lemma_concat_map_pointwise(sigs@, |x: Signature| signature_bytes(x), x.actions@, |a: AuthorizedAction| authorized_signature_bytes(a));
                }
            }
            return Err(e);
        },
    };
    proof {
        assert forall|x: ShieldedData<V>| #[trigger] bundle_at(data@, pos as int, x) implies x.binding_sig
            == binding_sig by {
            lemma_bundle_offsets(data@, pos as int, x);
            lemma_concat_map_pointwise(sigs@, |x: Signature| signature_bytes(x), x.actions@, |a: AuthorizedAction| authorized_signature_bytes(a));
        }
    }
    let ghost acts_v = acts@;
    let ghost sigs_v = sigs@;
    let authorized = zip_actions(acts, sigs);
    let actions = match AtLeastOne::from_vec(authorized) {
        Some(a) => a,
        None => {
            proof {
                assert(false);
            }
            return Err(SerializationError::Parse);
        },
    };
    let y = ShieldedData::<V> {
        flags,
        value_balance,
        shared_anchor,
        proof: proof_bytes,
        actions,
        binding_sig,
        burn,
        flavour: PhantomData,
    };
    proof {
        lemma_read_bundle_result(
            data@,
            pos as int,
            y,
            acts_v,
            sigs_v,
            n,
            p0 as int,
            p1 as int,
            p5 as int,
            p6 as int,
            burn_part,
            end as int,
        );
    }
    Ok((y, end))
}

/// Reads the Orchard part of a version 5 or 6 transaction: `None` for a zero
/// count of actions.
pub fn read_orchard_part<V: OrchardFlavour>(data: &[u8], pos: usize) -> (r: Result<
    (Option<ShieldedData<V>>, usize),
    SerializationError,
>)
    ensures
        match r {
            Ok((d, end)) => (d matches Some(x) ==> x.readable()) && end == pos
                + orchard_part_encoding(d).len() && prefix_at(
                data@,
                pos as int,
                orchard_part_encoding(d),
            ),
            Err(_) => true,
        },
        forall|d: Option<ShieldedData<V>>|
            (d matches Some(x) ==> x.readable()) && prefix_at(
                data@,
                pos as int,
                #[trigger] orchard_part_encoding(d),
            ) ==> (r matches Ok((e, end)) && orchard_part_encoding(e) == orchard_part_encoding(d)
                && end == pos + orchard_part_encoding(d).len()),
{
    let (n, p0) = match read_compactsize(data, pos) {
        Ok(x) => x,
        Err(e) => {
            proof {
                assert forall|d: Option<ShieldedData<V>>|
                    (d matches Some(x) ==> x.readable()) && prefix_at(
                        data@,
                        pos as int,
                        #[trigger] orchard_part_encoding(d),
                    ) implies false by {
                    lemma_part_cases(data@, pos as int, d);
                    if let Some(x) = d {
                        lemma_bundle_offsets(data@, pos as int, x);
                    }
                }
            }
            return Err(e);
        },
    };
    proof {
        assert forall|x: ShieldedData<V>| #[trigger] bundle_at(data@, pos as int, x) implies x.actions@.len()
            == n by {
            lemma_bundle_offsets(data@, pos as int, x);
        }
    }
    if n == 0 {
        proof {
            assert(data@.subrange(pos as int, p0 as int) =~= orchard_part_encoding::<V>(None));
            assert forall|d: Option<ShieldedData<V>>|
                (d matches Some(x) ==> x.readable()) && prefix_at(
                    data@,
                    pos as int,
                    #[trigger] orchard_part_encoding(d),
                ) implies d is None by {
                lemma_part_cases(data@, pos as int, d);
            }
        }
        return Ok((None, p0));
    }
    proof {
        assert forall|d: Option<ShieldedData<V>>|
            (d matches Some(x) ==> x.readable()) && prefix_at(
                data@,
                pos as int,
                #[trigger] orchard_part_encoding(d),
            ) implies d matches Some(x) && bundle_at(data@, pos as int, x) by {
            lemma_part_cases(data@, pos as int, d);
        }
    }
    if n > ACTION_MAX_ALLOCATION {
        return Err(SerializationError::PreallocationExceeded);
    }
    let (y, end) = match read_bundle_body::<V>(data, pos, n, p0) {
        Ok(x) => x,
        Err(e) => return Err(e),
    };
    proof {
        assert forall|d: Option<ShieldedData<V>>|
            (d matches Some(x) ==> x.readable()) && prefix_at(
                data@,
                pos as int,
                #[trigger] orchard_part_encoding(d),
            ) implies orchard_part_encoding(Some(y)) == orchard_part_encoding(d) by {
            lemma_part_cases(data@, pos as int, d);
        }
    }
    Ok((Some(y), end))
}
/// The size of an action without its encrypted note.
pub const ACTION_SIZE_WITHOUT_NOTE: u64 = 5 * 32 + 80;

/// The size of a spend authorization signature.
pub const SPEND_AUTH_SIG_SIZE: u64 = 64;

/// The size of an authorized action of the largest flavour.
pub const AUTHORIZED_ACTION_SIZE: u64 = ACTION_SIZE_WITHOUT_NOTE + ENCRYPTED_NOTE_SIZE_V6 as u64 + SPEND_AUTH_SIG_SIZE;

/// The most actions one block can hold: a vector of actions takes at least
/// one byte for its length, and each action needs its signature.
pub const ACTION_MAX_ALLOCATION: u64 = (MAX_BLOCK_BYTES - 1) / AUTHORIZED_ACTION_SIZE;

impl TrustedPreallocate for Signature {
    /// Each signature belongs to one action.
    open spec fn spec_max_allocation() -> nat {
        ACTION_MAX_ALLOCATION as nat
    }

    fn max_allocation() -> (r: u64) {
        Action::max_allocation()
    }
}

impl TrustedPreallocate for Action {
    open spec fn spec_max_allocation() -> nat {
        ACTION_MAX_ALLOCATION as nat
    }

    fn max_allocation() -> (r: u64)
        ensures
            r < 0x1_0000,
    {
        assert(ACTION_MAX_ALLOCATION == 2183) by (nonlinear_arith);
        ACTION_MAX_ALLOCATION
    }
}

} // verus!
