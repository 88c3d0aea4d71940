//! Transparent inputs and outputs.
use vstd::prelude::*;

use crate::codec::{
    SerializationError, le_i64, le_u32, prefix_at, read_array, read_i64, read_u32,
    read_var_bytes, var_bytes, write_i64, write_u32, write_var_bytes,
};
use crate::hasher::append_bytes;
use crate::serialization::{
    TrustedPreallocate, ZcashDeserialize, ZcashSerialize, lemma_prefix_at_join,
    lemma_prefix_at_split,
};

verus! {

/// The largest number of bytes in a block.
pub const MAX_BLOCK_BYTES: u64 = 2_000_000;

/// The largest amount of money, in zatoshi.
pub const MAX_MONEY: i64 = 2_100_000_000_000_000;

/// The smallest encoding of an input: an outpoint, an empty script and a
/// sequence number.
pub const MIN_TRANSPARENT_INPUT_SIZE: u64 = 32 + 4 + 1 + 4;

/// The smallest encoding of an output: a value and an empty script.
pub const MIN_TRANSPARENT_OUTPUT_SIZE: u64 = 8 + 1;

/// A reference to an output of an earlier transaction.
#[derive(Debug, Clone, Copy, PartialEq, Eq)]
pub struct OutPoint {
    /// The identifier of the transaction holding the output.
    pub hash: [u8; 32],
    /// The position of the output in that transaction.
    pub index: u32,
}

/// The encoding of the outpoint that stands for the input of a coinbase
/// transaction: 32 zero bytes and the index `0xffff_ffff`.
pub open spec fn coinbase_prevout() -> Seq<u8> {
    Seq::new(32, |_i: int| 0u8) + le_u32(0xffff_ffff)
}

/// The 36-byte encoding of an outpoint.
pub open spec fn outpoint_encoding(o: OutPoint) -> Seq<u8> {
    o.hash@ + le_u32(o.index)
}

/// The outpoint of a coinbase input.
pub fn coinbase_outpoint() -> (r: OutPoint)
    ensures
        outpoint_encoding(r) == coinbase_prevout(),
{
    let hash = [0u8; 32];
    proof {
        assert(hash == vstd::array::spec_array_fill_for_copy_type::<u8, 32>(0u8));
        assert(hash@.len() == 32);
        assert forall|i: int| 0 <= i < 32 implies hash@[i] == 0u8 by {}
        assert(hash@ =~= Seq::new(32, |_i: int| 0u8));
    }
    let r = OutPoint { hash, index: 0xffff_ffff };
    r
}

/// A transparent input.
#[derive(Debug, Clone, PartialEq, Eq)]
pub enum Input {
    /// Spends an earlier output.
    PrevOut {
        /// The output spent.
        outpoint: OutPoint,
        /// The script that unlocks it.
        unlock_script: Vec<u8>,
        /// The sequence number.
        sequence: u32,
    },
    /// Creates new coins.
    Coinbase {
        /// The coinbase script.
        data: Vec<u8>,
        /// The sequence number.
        sequence: u32,
    },
}

impl Input {
    /// The outpoint the input commits to: the coinbase outpoint for coinbase
    /// inputs.
    pub open spec fn prevout(&self) -> Seq<u8> {
        match self {
            Input::PrevOut { outpoint, .. } => outpoint_encoding(*outpoint),
            Input::Coinbase { .. } => coinbase_prevout(),
        }
    }

    /// The sequence number of the input.
    pub open spec fn spec_sequence(&self) -> u32 {
        match self {
            Input::PrevOut { sequence, .. } => *sequence,
            Input::Coinbase { sequence, .. } => *sequence,
        }
    }

    /// The script of the input.
    pub open spec fn script(&self) -> Seq<u8> {
        match self {
            Input::PrevOut { unlock_script, .. } => unlock_script@,
            Input::Coinbase { data, .. } => data@,
        }
    }

    /// The outpoint the input commits to.
    pub fn outpoint(&self) -> (r: OutPoint)
        ensures
            outpoint_encoding(r) == self.prevout(),
    {
        match self {
            Input::PrevOut { outpoint, .. } => *outpoint,
            Input::Coinbase { .. } => coinbase_outpoint(),
        }
    }

    /// The sequence number of the input.
    pub fn sequence(&self) -> (r: u32)
        ensures
            r == self.spec_sequence(),
    {
        match self {
            Input::PrevOut { sequence, .. } => *sequence,
            Input::Coinbase { sequence, .. } => *sequence,
        }
    }
}

/// A transparent output.
#[derive(Debug, Clone, PartialEq, Eq)]
pub struct Output {
    /// The value, in zatoshi.
    pub value: i64,
    /// The script that locks it.
    pub lock_script: Vec<u8>,
}

impl ZcashSerialize for OutPoint {
    open spec fn wf(&self) -> bool {
        true
    }

    open spec fn encoding(&self) -> Seq<u8> {
        outpoint_encoding(*self)
    }

    fn zcash_serialize(&self, out: &mut Vec<u8>) {
        append_bytes(out, self.hash.as_slice());
        write_u32(out, self.index);
        assert(final(out)@ =~= old(out)@ + self.encoding());
    }
}

impl ZcashSerialize for Input {
    /// A spending input never names the coinbase outpoint, which would read
    /// back as a coinbase input.
    open spec fn wf(&self) -> bool {
        &&& self.script().len() <= u64::MAX
        &&& match self {
            Input::PrevOut { outpoint, .. } => outpoint_encoding(*outpoint) != coinbase_prevout(),
            Input::Coinbase { .. } => true,
        }
    }

    open spec fn encoding(&self) -> Seq<u8> {
        self.prevout() + var_bytes(self.script()) + le_u32(self.spec_sequence())
    }

    fn zcash_serialize(&self, out: &mut Vec<u8>) {
        let outpoint = self.outpoint();
        outpoint.zcash_serialize(out);
        match self {
            Input::PrevOut { unlock_script, sequence, .. } => {
                write_var_bytes(out, unlock_script.as_slice());
                write_u32(out, *sequence);
            },
            Input::Coinbase { data, sequence } => {
                write_var_bytes(out, data.as_slice());
                write_u32(out, *sequence);
            },
        }
        assert(final(out)@ =~= old(out)@ + self.encoding());
    }
}

impl ZcashSerialize for Output {
    /// The value lies between zero and the largest amount of money.
    open spec fn wf(&self) -> bool {
        &&& 0 <= self.value <= MAX_MONEY
        &&& self.lock_script@.len() <= u64::MAX
    }

    open spec fn encoding(&self) -> Seq<u8> {
        le_i64(self.value) + var_bytes(self.lock_script@)
    }

    fn zcash_serialize(&self, out: &mut Vec<u8>) {
        write_i64(out, self.value);
        write_var_bytes(out, self.lock_script.as_slice());
        assert(final(out)@ =~= old(out)@ + self.encoding());
    }
}

impl TrustedPreallocate for Input {
    open spec fn spec_max_allocation() -> nat {
        ((MAX_BLOCK_BYTES - 1) as int / MIN_TRANSPARENT_INPUT_SIZE as int) as nat
    }

    fn max_allocation() -> (r: u64) {
        (MAX_BLOCK_BYTES - 1) / MIN_TRANSPARENT_INPUT_SIZE
    }
}

impl TrustedPreallocate for Output {
    open spec fn spec_max_allocation() -> nat {
        ((MAX_BLOCK_BYTES - 1) as int / MIN_TRANSPARENT_OUTPUT_SIZE as int) as nat
    }

    fn max_allocation() -> (r: u64) {
        (MAX_BLOCK_BYTES - 1) / MIN_TRANSPARENT_OUTPUT_SIZE
    }
}

/// Whether an outpoint is the coinbase outpoint.
pub fn is_coinbase_outpoint(o: &OutPoint) -> (r: bool)
    ensures
        r == (outpoint_encoding(*o) == coinbase_prevout()),
{
    proof {
        vstd::bytes::lemma_auto_spec_u32_to_from_le_bytes();
    }
    let mut zero = true;
    let mut i: usize = 0;
    while i < 32
        invariant
            i <= 32,
            o.hash@.len() == 32,
            zero == forall|k: int| 0 <= k < i ==> o.hash@[k] == 0u8,
        decreases 32 - i,
    {
        if o.hash[i] != 0 {
            zero = false;
        }
        i = i + 1;
    }
    let r = zero && o.index == 0xffff_ffff;
    proof {
        let z = Seq::new(32, |_i: int| 0u8);
        if r {
            assert(o.hash@ =~= z);
        }
        if outpoint_encoding(*o) == coinbase_prevout() {
            assert(outpoint_encoding(*o).subrange(0, 32) =~= o.hash@);
            assert(coinbase_prevout().subrange(0, 32) =~= z);
            assert(outpoint_encoding(*o).subrange(32, 36) =~= le_u32(o.index));
            assert(coinbase_prevout().subrange(32, 36) =~= le_u32(0xffff_ffff));
            assert forall|k: int| 0 <= k < 32 implies o.hash@[k] == 0u8 by {
                assert(o.hash@[k] == outpoint_encoding(*o)[k]);
            }
        }
    }
    r
}

impl ZcashDeserialize for OutPoint {
    fn zcash_deserialize(data: &[u8], pos: usize) -> (r: Result<(Self, usize), SerializationError>) {
        proof {
            vstd::bytes::lemma_auto_spec_u32_to_from_le_bytes();
            assert forall|o: OutPoint| o.wf() && prefix_at(data@, pos as int, #[trigger] o.encoding())
                implies prefix_at(data@, pos as int, o.hash@) && prefix_at(
                data@,
                pos + 32,
                le_u32(o.index),
            ) by {
                vstd::bytes::lemma_auto_spec_u32_to_from_le_bytes();
                lemma_prefix_at_split(data@, pos as int, o.hash@, le_u32(o.index));
            }
        }
        let (hash, p1) = match read_array::<32>(data, pos) {
            Ok(x) => x,
            Err(e) => return Err(e),
        };
        let (index, end) = match read_u32(data, p1) {
            Ok(x) => x,
            Err(e) => return Err(e),
        };
        proof {
            lemma_prefix_at_join(data@, pos as int, hash@, le_u32(index));
        }
        Ok((OutPoint { hash, index }, end))
    }
}

impl ZcashDeserialize for Input {
    fn zcash_deserialize(data: &[u8], pos: usize) -> (r: Result<(Self, usize), SerializationError>) {
        proof {
            vstd::bytes::lemma_auto_spec_u32_to_from_le_bytes();
            assert forall|x: Input| x.wf() && prefix_at(data@, pos as int, #[trigger] x.encoding())
                implies prefix_at(data@, pos as int, x.prevout()) && prefix_at(
                data@,
                pos + 36,
                var_bytes(x.script()),
            ) && prefix_at(data@, pos + 36 + var_bytes(x.script()).len(), le_u32(x.spec_sequence())) by {
                lemma_prefix_at_split(data@, pos as int, x.prevout() + var_bytes(x.script()), le_u32(x.spec_sequence()));
                lemma_prefix_at_split(data@, pos as int, x.prevout(), var_bytes(x.script()));
            }
        }
        let (hash, p0) = match read_array::<32>(data, pos) {
            Ok(x) => x,
            Err(e) => return Err(e),
        };
        let (index, p1) = match read_u32(data, p0) {
            Ok(x) => x,
            Err(e) => return Err(e),
        };
        let outpoint = OutPoint { hash, index };
        proof {
            lemma_prefix_at_join(data@, pos as int, hash@, le_u32(index));
            assert forall|x: Input| x.wf() && prefix_at(data@, pos as int, #[trigger] x.encoding())
                implies x.prevout() == outpoint_encoding(outpoint) by {
                assert(x.prevout().len() == 36);
            }
        }
        let (script, p2) = match read_var_bytes(data, p1) {
            Ok(x) => x,
            Err(e) => return Err(e),
        };
        let (sequence, end) = match read_u32(data, p2) {
            Ok(x) => x,
            Err(e) => return Err(e),
        };
        let input = if is_coinbase_outpoint(&outpoint) {
            Input::Coinbase { data: script, sequence }
        } else {
            Input::PrevOut { outpoint, unlock_script: script, sequence }
        };
        proof {
            lemma_prefix_at_join(data@, pos as int, outpoint_encoding(outpoint), var_bytes(input.script()));
            lemma_prefix_at_join(
                data@,
                pos as int,
                outpoint_encoding(outpoint) + var_bytes(input.script()),
                le_u32(sequence),
            );
        }
        Ok((input, end))
    }
}

impl ZcashDeserialize for Output {
    fn zcash_deserialize(data: &[u8], pos: usize) -> (r: Result<(Self, usize), SerializationError>) {
        proof {
            vstd::bytes::lemma_auto_spec_u64_to_from_le_bytes();
            assert forall|x: Output| x.wf() && prefix_at(data@, pos as int, #[trigger] x.encoding())
                implies prefix_at(data@, pos as int, le_i64(x.value)) && prefix_at(
                data@,
                pos + 8,
                var_bytes(x.lock_script@),
            ) by {
                lemma_prefix_at_split(data@, pos as int, le_i64(x.value), var_bytes(x.lock_script@));
            }
        }
        let (value, p1) = match read_i64(data, pos) {
            Ok(x) => x,
            Err(e) => return Err(e),
        };
        if value < 0 || value > MAX_MONEY {
            return Err(SerializationError::Parse);
        }
        let (lock_script, end) = match read_var_bytes(data, p1) {
            Ok(x) => x,
            Err(e) => return Err(e),
        };
        proof {
            lemma_prefix_at_join(data@, pos as int, le_i64(value), var_bytes(lock_script@));
        }
        Ok((Output { value, lock_script }, end))
    }
}

} // verus!
