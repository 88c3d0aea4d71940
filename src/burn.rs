//! Assets burnt by a ZSA bundle.
use vstd::prelude::*;

use crate::codec::{SerializationError, le_u64, prefix_at, read_array, read_u64, write_u64};
use crate::hasher::append_bytes;
use crate::serialization::{
    TrustedPreallocate, ZcashDeserialize, ZcashSerialize, lemma_prefix_at_join,
    lemma_prefix_at_split, read_vec, vec_encoding, vec_wf, write_vec,
};
use crate::transparent::MAX_BLOCK_BYTES;

verus! {

/// The size of an encoded asset base.
pub const ASSET_BASE_SIZE: u64 = 32;

/// The size of an encoded amount.
pub const AMOUNT_SIZE: u64 = 8;

/// The size of an encoded burn item.
pub const BURN_ITEM_SIZE: u64 = ASSET_BASE_SIZE + AMOUNT_SIZE;

/// The identifier of an asset: the bytes of its base point.
#[derive(Debug, Clone, Copy, PartialEq, Eq)]
pub struct AssetBase(pub [u8; 32]);

/// An amount of one asset to burn.
#[derive(Debug, Clone, Copy, PartialEq, Eq)]
pub struct BurnItem(pub AssetBase, pub u64);

impl BurnItem {
    /// The asset burnt.
    pub fn asset(&self) -> (r: AssetBase)
        ensures
            r == self.0,
    {
        self.0
    }

    /// The amount burnt.
    pub fn amount(&self) -> (r: u64)
        ensures
            r == self.1,
    {
        self.1
    }
}

impl ZcashSerialize for BurnItem {
    open spec fn wf(&self) -> bool {
        true
    }

    /// The asset base, then the amount in little-endian order.
    open spec fn encoding(&self) -> Seq<u8> {
        self.0.0@ + le_u64(self.1)
    }

    fn zcash_serialize(&self, out: &mut Vec<u8>) {
        append_bytes(out, self.0.0.as_slice());
        write_u64(out, self.1);
        assert(final(out)@ =~= old(out)@ + self.encoding());
    }
}

impl TrustedPreallocate for BurnItem {
    open spec fn spec_max_allocation() -> nat {
        ((MAX_BLOCK_BYTES - 1) as int / BURN_ITEM_SIZE as int) as nat
    }

    fn max_allocation() -> (r: u64) {
        (MAX_BLOCK_BYTES - 1) / BURN_ITEM_SIZE
    }
}

impl ZcashDeserialize for BurnItem {
    fn zcash_deserialize(data: &[u8], pos: usize) -> (r: Result<(Self, usize), SerializationError>) {
        proof {
            vstd::bytes::lemma_auto_spec_u64_to_from_le_bytes();
            assert forall|x: BurnItem| x.wf() && prefix_at(data@, pos as int, #[trigger] x.encoding())
                implies prefix_at(data@, pos as int, x.0.0@) && prefix_at(
                data@,
                pos + 32,
                le_u64(x.1),
            ) by {
                lemma_prefix_at_split(data@, pos as int, x.0.0@, le_u64(x.1));
            }
        }
        let (asset, p1) = match read_array::<32>(data, pos) {
            Ok(x) => x,
            Err(e) => return Err(e),
        };
        let (amount, end) = match read_u64(data, p1) {
            Ok(x) => x,
            Err(e) => return Err(e),
        };
        proof {
            lemma_prefix_at_join(data@, pos as int, asset@, le_u64(amount));
        }
        Ok((BurnItem(AssetBase(asset), amount), end))
    }
}

impl ZcashDeserialize for NoBurn {
    fn zcash_deserialize(data: &[u8], pos: usize) -> (r: Result<(Self, usize), SerializationError>) {
        if pos > data.len() {
            return Err(SerializationError::Truncated);
        }
        assert(data@.subrange(pos as int, pos as int) =~= Seq::<u8>::empty());
        Ok((NoBurn, pos))
    }
}

impl ZcashSerialize for Burn {
    open spec fn wf(&self) -> bool {
        vec_wf(self.0@)
    }

    /// The number of items, then the items.
    open spec fn encoding(&self) -> Seq<u8> {
        vec_encoding(self.0@)
    }

    fn zcash_serialize(&self, out: &mut Vec<u8>) {
        write_vec(out, self.0.as_slice());
    }
}

impl ZcashDeserialize for Burn {
    fn zcash_deserialize(data: &[u8], pos: usize) -> (r: Result<(Self, usize), SerializationError>) {
        let r = read_vec::<BurnItem>(data, pos);
        match r {
            Ok((items, end)) => Ok((Burn(items), end)),
            Err(e) => Err(e),
        }
    }
}

/// The marker of a bundle that has no burn field; it has an empty encoding.
#[derive(Debug, Clone, Copy, PartialEq, Eq, Default)]
pub struct NoBurn;

impl ZcashSerialize for NoBurn {
    open spec fn wf(&self) -> bool {
        true
    }

    open spec fn encoding(&self) -> Seq<u8> {
        seq![]
    }

    fn zcash_serialize(&self, out: &mut Vec<u8>) {
        assert(final(out)@ =~= old(out)@ + self.encoding());
    }
}

/// The assets a ZSA bundle burns.
#[derive(Debug, Clone, PartialEq, Eq, Default)]
pub struct Burn(pub Vec<BurnItem>);

impl Burn {
    /// The burn items, in order.
    pub fn items(&self) -> (r: &[BurnItem])
        ensures
            r@ == self.0@,
    {
        self.0.as_slice()
    }
}

} // verus!
