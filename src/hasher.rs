//! The personalized hash-tree builder.
//!
//! A [`Hasher`] collects the input of one BLAKE2b-256 digest keyed by a fixed
//! 16-byte personalization. The digest of one hasher can be fed to another,
//! which builds the trees of digests that identify a transaction.
use vstd::prelude::*;

use crate::codec::{le_i64, le_u32, write_i64, write_u32};
use crate::hashes::{blake2b_256, blake2b_256_personal};
use crate::serialization::ZcashSerialize;

verus! {

/// Appends `bytes` to `out`.
pub fn append_bytes(out: &mut Vec<u8>, bytes: &[u8])
    ensures
        final(out)@ == old(out)@ + bytes@,
{
    out.extend_from_slice(bytes);
    assert(final(out)@ =~= old(out)@ + bytes@);
}

/// The accumulated input of one personalized BLAKE2b-256 digest.
pub struct Hasher {
    personal: [u8; 16],
    input: Vec<u8>,
}

/// The digests of the given hashers, concatenated in order.
pub open spec fn digests_concat(hashers: Seq<Hasher>) -> Seq<u8>
    decreases hashers.len(),
{
    if hashers.len() == 0 {
        seq![]
    } else {
        digests_concat(hashers.drop_last()) + hashers.last().digest()
    }
}

/// Whether at least one of the hashers has been fed some input.
pub open spec fn any_nonempty(hashers: Seq<Hasher>) -> bool {
    exists|i: int| 0 <= i < hashers.len() && (#[trigger] hashers[i].input()).len() > 0
}

/// Composition of two children.
pub proof fn lemma_two_children(a: Hasher, b: Hasher)
    ensures
        any_nonempty(seq![a, b]) == (a.input().len() > 0 || b.input().len() > 0),
        digests_concat(seq![a, b]) == a.digest() + b.digest(),
{
    let s = seq![a, b];
    assert(s[0] == a && s[1] == b);
    assert(s.drop_last() =~= seq![a]);
    assert(seq![a].drop_last() =~= Seq::<Hasher>::empty());
    assert(seq![a].last() == a);
    assert(digests_concat(Seq::<Hasher>::empty()) =~= Seq::<u8>::empty());
    assert(digests_concat(seq![a]) =~= a.digest());
    if a.input().len() > 0 || b.input().len() > 0 {
        if a.input().len() > 0 {
            assert(s[0].input().len() > 0);
        } else {
            assert(s[1].input().len() > 0);
        }
    }
}

/// Composition of three children.
pub proof fn lemma_three_children(a: Hasher, b: Hasher, c: Hasher)
    ensures
        any_nonempty(seq![a, b, c]) == (a.input().len() > 0 || b.input().len() > 0
            || c.input().len() > 0),
        digests_concat(seq![a, b, c]) == a.digest() + b.digest() + c.digest(),
{
    let s = seq![a, b, c];
    assert(s[0] == a && s[1] == b && s[2] == c);
    assert(s.drop_last() =~= seq![a, b]);
    lemma_two_children(a, b);
    if a.input().len() > 0 || b.input().len() > 0 || c.input().len() > 0 {
        if a.input().len() > 0 {
            assert(s[0].input().len() > 0);
        } else if b.input().len() > 0 {
            assert(s[1].input().len() > 0);
        } else {
            assert(s[2].input().len() > 0);
        }
    }
}

impl Hasher {
    /// The personalization the hasher was created with.
    pub closed spec fn personal(&self) -> Seq<u8> {
        self.personal@
    }

    /// All the bytes fed to the hasher so far, in order.
    pub closed spec fn input(&self) -> Seq<u8> {
        self.input@
    }

    /// The digest that `finalize` returns.
    pub open spec fn digest(&self) -> Seq<u8> {
        blake2b_256_personal(self.personal(), self.input())
    }

    /// A hasher with the given personalization and no input.
    pub fn new(personal: &[u8; 16]) -> (r: Hasher)
        ensures
            r.personal() == personal@,
            r.input() == Seq::<u8>::empty(),
    {
        Hasher { personal: *personal, input: Vec::new() }
    }

    /// Feeds raw bytes.
    pub fn add(self, bytes: &[u8]) -> (r: Hasher)
        ensures
            r.personal() == self.personal(),
            r.input() == self.input() + bytes@,
    {
        let mut hasher = self;
        append_bytes(&mut hasher.input, bytes);
        hasher
    }

    /// Feeds the little-endian bytes of a 32-bit integer.
    pub fn add_u32(self, v: u32) -> (r: Hasher)
        ensures
            r.personal() == self.personal(),
            r.input() == self.input() + le_u32(v),
    {
        let mut hasher = self;
        write_u32(&mut hasher.input, v);
        hasher
    }

    /// Feeds the little-endian bytes of a signed 64-bit integer.
    pub fn add_i64(self, v: i64) -> (r: Hasher)
        ensures
            r.personal() == self.personal(),
            r.input() == self.input() + le_i64(v),
    {
        let mut hasher = self;
        write_i64(&mut hasher.input, v);
        hasher
    }

    /// Feeds the canonical encoding of a structure.
    pub fn add_serialized<T: ZcashSerialize>(self, value: &T) -> (r: Hasher)
        requires
            value.wf(),
        ensures
            r.personal() == self.personal(),
            r.input() == self.input() + value.encoding(),
    {
        let mut hasher = self;
        value.zcash_serialize(&mut hasher.input);
        hasher
    }

    /// Feeds the digest of another hasher.
    pub fn add_hasher(self, child: &Hasher) -> (r: Hasher)
        ensures
            r.personal() == self.personal(),
            r.input() == self.input() + child.digest(),
    {
        let digest = child.finalize();
        self.add(&digest)
    }

    /// Feeds the digests of all the children, in order, if at least one of
    /// them has input; otherwise feeds nothing.
    pub fn add_all_if_any_nonempty(self, children: &[Hasher]) -> (r: Hasher)
        ensures
            r.personal() == self.personal(),
            r.input() == if any_nonempty(children@) {
                self.input() + digests_concat(children@)
            } else {
                self.input()
            },
    {
        let mut any = false;
        let mut i: usize = 0;
        while i < children.len()
            invariant
                i <= children@.len(),
                any == exists|j: int| 0 <= j < i && (#[trigger] children@[j].input()).len() > 0,
            decreases children@.len() - i,
        {
            if !children[i].is_empty() {
                any = true;
            }
            i = i + 1;
        }
        if !any {
            return self;
        }
        let mut hasher = self;
        let mut k: usize = 0;
        while k < children.len()
            invariant
                k <= children@.len(),
                hasher.personal() == self.personal(),
                hasher.input() == self.input() + digests_concat(children@.take(k as int)),
            decreases children@.len() - k,
        {
            proof {
                assert(children@.take(k + 1).drop_last() =~= children@.take(k as int));
            }
            hasher = hasher.add_hasher(&children[k]);
            k = k + 1;
        }
        assert(children@.take(children@.len() as int) =~= children@);
        hasher
    }

    /// Whether no byte has been fed yet.
    pub fn is_empty(&self) -> (r: bool)
        ensures
            r == (self.input().len() == 0),
    {
        self.input.len() == 0
    }

    /// The 32-byte digest of everything fed so far. Calling it again gives the
    /// same value.
    pub fn finalize(&self) -> (r: [u8; 32])
        ensures
            r@ == self.digest(),
    {
        blake2b_256(&self.personal, self.input.as_slice())
    }
}

} // verus!
