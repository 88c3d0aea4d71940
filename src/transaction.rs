//! Transactions, their network upgrades and their legacy encoding.
use vstd::prelude::*;

use crate::codec::{
    SerializationError, compact_size, le_i64, le_u32, prefix_at, read_compactsize, read_i64,
    read_u32, write_compactsize, write_i64, write_u32,
};
use crate::orchard::{
    Orchard, OrchardFlavour, OrchardZSA, ShieldedData, orchard_part_encoding, read_orchard_part,
    write_orchard_part,
};
use crate::sapling;
use crate::sapling::{
    read_sapling_part, sapling_part_at, sapling_part_encoding, write_sapling_part,
};
use crate::serialization::{
    ZcashSerialize, lemma_prefix_at_join, lemma_prefix_at_split, read_vec, vec_encoding, vec_wf,
    write_vec,
};
use crate::transparent::{Input, Output};

verus! {

/// The version group of Overwinter transactions.
pub const OVERWINTER_VERSION_GROUP_ID: u32 = 0x03C4_8270;

/// The version group of Sapling transactions.
pub const SAPLING_VERSION_GROUP_ID: u32 = 0x892F_2085;

/// The version group of version 5 transactions.
pub const TX_V5_VERSION_GROUP_ID: u32 = 0x26A7_270A;

/// The version group of version 6 transactions.
pub const TX_V6_VERSION_GROUP_ID: u32 = 0x26A7_270B;

/// The bit of the version field set by every transaction from Overwinter on.
pub const OVERWINTER_FLAG: u32 = 0x8000_0000;

/// A network upgrade of the Zcash chain.
#[derive(Debug, Clone, Copy, PartialEq, Eq, Structural)]
pub enum NetworkUpgrade {
    /// The genesis block.
    Genesis,
    /// The blocks before Overwinter.
    BeforeOverwinter,
    /// Overwinter.
    Overwinter,
    /// Sapling.
    Sapling,
    /// Blossom.
    Blossom,
    /// Heartwood.
    Heartwood,
    /// Canopy.
    Canopy,
    /// NU5, which brought Orchard.
    Nu5,
    /// NU6.
    Nu6,
    /// NU7, which brings assets to Orchard.
    Nu7,
}

/// The consensus branch of a network upgrade, if it has one.
pub open spec fn spec_branch_id(nu: NetworkUpgrade) -> Option<u32> {
    match nu {
        NetworkUpgrade::Genesis => None,
        NetworkUpgrade::BeforeOverwinter => None,
        NetworkUpgrade::Overwinter => Some(0x5ba8_1b19u32),
        NetworkUpgrade::Sapling => Some(0x76b8_09bbu32),
        NetworkUpgrade::Blossom => Some(0x2bb4_0e60u32),
        NetworkUpgrade::Heartwood => Some(0xf5b9_230bu32),
        NetworkUpgrade::Canopy => Some(0xe9ff_75a6u32),
        NetworkUpgrade::Nu5 => Some(0xc2d6_d0b4u32),
        NetworkUpgrade::Nu6 => Some(0xc8e7_1055u32),
        NetworkUpgrade::Nu7 => Some(0x7719_0ad8u32),
    }
}

impl NetworkUpgrade {
    /// The network upgrade with the given consensus branch, if there is one.
    pub fn from_branch_id(branch_id: u32) -> (r: Option<NetworkUpgrade>)
        ensures
            r matches Some(nu) ==> spec_branch_id(nu) == Some(branch_id),
            (exists|nu: NetworkUpgrade| spec_branch_id(nu) == Some(branch_id)) ==> r is Some,
    {
        let r = if branch_id == 0x5ba8_1b19 {
            Some(NetworkUpgrade::Overwinter)
        } else if branch_id == 0x76b8_09bb {
            Some(NetworkUpgrade::Sapling)
        } else if branch_id == 0x2bb4_0e60 {
            Some(NetworkUpgrade::Blossom)
        } else if branch_id == 0xf5b9_230b {
            Some(NetworkUpgrade::Heartwood)
        } else if branch_id == 0xe9ff_75a6 {
            Some(NetworkUpgrade::Canopy)
        } else if branch_id == 0xc2d6_d0b4 {
            Some(NetworkUpgrade::Nu5)
        } else if branch_id == 0xc8e7_1055 {
            Some(NetworkUpgrade::Nu6)
        } else if branch_id == 0x7719_0ad8 {
            Some(NetworkUpgrade::Nu7)
        } else {
            None
        };
        proof {
            assert forall|nu: NetworkUpgrade| spec_branch_id(nu) == Some(branch_id) implies r is Some by {
                match nu {
                    NetworkUpgrade::Genesis => {},
                    NetworkUpgrade::BeforeOverwinter => {},
                    NetworkUpgrade::Overwinter => {},
                    NetworkUpgrade::Sapling => {},
                    NetworkUpgrade::Blossom => {},
                    NetworkUpgrade::Heartwood => {},
                    NetworkUpgrade::Canopy => {},
                    NetworkUpgrade::Nu5 => {},
                    NetworkUpgrade::Nu6 => {},
                    NetworkUpgrade::Nu7 => {},
                }
            }
        }
        r
    }

    /// The consensus branch identifier, which upgrades before Overwinter lack.
    pub fn branch_id(&self) -> (r: Option<u32>)
        ensures
            r == spec_branch_id(*self),
    {
        match self {
            NetworkUpgrade::Genesis => None,
            NetworkUpgrade::BeforeOverwinter => None,
            NetworkUpgrade::Overwinter => Some(0x5ba8_1b19),
            NetworkUpgrade::Sapling => Some(0x76b8_09bb),
            NetworkUpgrade::Blossom => Some(0x2bb4_0e60),
            NetworkUpgrade::Heartwood => Some(0xf5b9_230b),
            NetworkUpgrade::Canopy => Some(0xe9ff_75a6),
            NetworkUpgrade::Nu5 => Some(0xc2d6_d0b4),
            NetworkUpgrade::Nu6 => Some(0xc8e7_1055),
            NetworkUpgrade::Nu7 => Some(0x7719_0ad8),
        }
    }
}

/// The version group of a transaction of version 3 or 4.
pub open spec fn legacy_group(version: u32) -> u32 {
    if version == 3 {
        OVERWINTER_VERSION_GROUP_ID
    } else {
        SAPLING_VERSION_GROUP_ID
    }
}

/// The body of a transaction of versions 1 to 4, after the version field:
/// the version group from version 3 on, the inputs, the outputs, the lock
/// time, the expiry height from version 3 on, an empty Sapling part for
/// version 4 and an empty JoinSplit count from version 2 on.
pub open spec fn legacy_body(
    version: u32,
    inputs: Seq<Input>,
    outputs: Seq<Output>,
    lock_time: u32,
    expiry_height: u32,
) -> Seq<u8> {
    (if version >= 3 {
        le_u32(legacy_group(version))
    } else {
        seq![]
    }) + vec_encoding(inputs) + vec_encoding(outputs) + le_u32(lock_time) + (if version >= 3 {
        le_u32(expiry_height)
    } else {
        seq![]
    }) + (if version == 4 {
        le_i64(0) + compact_size(0) + compact_size(0)
    } else {
        seq![]
    }) + (if version >= 2 {
        compact_size(0)
    } else {
        seq![]
    })
}

/// The body of a transaction from version 5 on, after the version field.
pub open spec fn tree_body<V: OrchardFlavour>(
    version_group_id: u32,
    consensus_branch_id: u32,
    lock_time: u32,
    expiry_height: u32,
    inputs: Seq<Input>,
    outputs: Seq<Output>,
    sapling_data: Option<sapling::ShieldedData>,
    orchard_data: Option<ShieldedData<V>>,
) -> Seq<u8> {
    le_u32(version_group_id) + le_u32(consensus_branch_id) + le_u32(lock_time) + le_u32(
        expiry_height,
    ) + vec_encoding(inputs) + vec_encoding(outputs) + sapling_part_encoding(sapling_data)
        + orchard_part_encoding(orchard_data)
}

/// The encoding of a transaction from version 5 on.
pub open spec fn tree_tx_encoding<V: OrchardFlavour>(
    version: u32,
    version_group_id: u32,
    consensus_branch_id: u32,
    lock_time: u32,
    expiry_height: u32,
    inputs: Seq<Input>,
    outputs: Seq<Output>,
    sapling_data: Option<sapling::ShieldedData>,
    orchard_data: Option<ShieldedData<V>>,
) -> Seq<u8> {
    le_u32(version) + tree_body(
        version_group_id,
        consensus_branch_id,
        lock_time,
        expiry_height,
        inputs,
        outputs,
        sapling_data,
        orchard_data,
    )
}

/// Appends the encoding of a transaction from version 5 on.
fn write_tree_transaction<V: OrchardFlavour>(
    out: &mut Vec<u8>,
    version: u32,
    version_group_id: u32,
    consensus_branch_id: u32,
    lock_time: u32,
    expiry_height: u32,
    inputs: &[Input],
    outputs: &[Output],
    sapling_data: &Option<sapling::ShieldedData>,
    orchard_data: &Option<ShieldedData<V>>,
)
    requires
        transparent_wf(inputs@, outputs@),
        sapling_data matches Some(d) ==> d.wf() && d.spends@.len() <= u64::MAX && d.outputs@.len()
            <= u64::MAX,
        orchard_data matches Some(d) ==> d.wf() && d.lengths_fit(),
    ensures
        final(out)@ == old(out)@ + tree_tx_encoding(
            version,
            version_group_id,
            consensus_branch_id,
            lock_time,
            expiry_height,
            inputs@,
            outputs@,
            *sapling_data,
            *orchard_data,
        ),
{
    write_u32(out, version);
    let ghost head = out@;
    write_u32(out, version_group_id);
    write_u32(out, consensus_branch_id);
    write_u32(out, lock_time);
    write_u32(out, expiry_height);
    write_vec(out, inputs);
    write_vec(out, outputs);
    write_sapling_part(out, sapling_data);
    write_orchard_part(out, orchard_data);
    assert(out@ =~= head + tree_body(
        version_group_id,
        consensus_branch_id,
        lock_time,
        expiry_height,
        inputs@,
        outputs@,
        *sapling_data,
        *orchard_data,
    ));
    assert(final(out)@ =~= old(out)@ + tree_tx_encoding(
        version,
        version_group_id,
        consensus_branch_id,
        lock_time,
        expiry_height,
        inputs@,
        outputs@,
        *sapling_data,
        *orchard_data,
    ));
}

/// The body of a transaction of versions 1 to 4 with valid vectors stands at
/// `pos`.
pub open spec fn legacy_at(
    data: Seq<u8>,
    pos: int,
    version: u32,
    inputs: Seq<Input>,
    outputs: Seq<Output>,
    lock_time: u32,
    expiry_height: u32,
) -> bool {
    &&& vec_wf(inputs)
    &&& vec_wf(outputs)
    &&& prefix_at(data, pos, legacy_body(version, inputs, outputs, lock_time, expiry_height))
}

/// The group part of a legacy body.
pub open spec fn legacy_group_part(version: u32) -> Seq<u8> {
    if version >= 3 {
        le_u32(legacy_group(version))
    } else {
        seq![]
    }
}

/// The expiry part of a legacy body.
pub open spec fn legacy_expiry_part(version: u32, expiry_height: u32) -> Seq<u8> {
    if version >= 3 {
        le_u32(expiry_height)
    } else {
        seq![]
    }
}

/// The empty Sapling part of a version 4 body.
pub open spec fn legacy_sapling_part(version: u32) -> Seq<u8> {
    if version == 4 {
        le_i64(0) + compact_size(0) + compact_size(0)
    } else {
        seq![]
    }
}

/// The empty JoinSplit part of a body from version 2 on.
pub open spec fn legacy_joinsplit_part(version: u32) -> Seq<u8> {
    if version >= 2 {
        compact_size(0)
    } else {
        seq![]
    }
}

/// Where a legacy body stands, each of its parts stands after the parts
/// before it.
proof fn lemma_legacy_parts(
    data: Seq<u8>,
    pos: int,
    version: u32,
    inputs: Seq<Input>,
    outputs: Seq<Output>,
    lock_time: u32,
    expiry_height: u32,
)
    requires
        prefix_at(data, pos, legacy_body(version, inputs, outputs, lock_time, expiry_height)),
    ensures
        ({
            let g = legacy_group_part(version);
            let a = vec_encoding(inputs);
            let b = vec_encoding(outputs);
            let l = le_u32(lock_time);
            let x = legacy_expiry_part(version, expiry_height);
            let y = legacy_sapling_part(version);
            let z = legacy_joinsplit_part(version);
            &&& prefix_at(data, pos, g)
            &&& prefix_at(data, pos + g.len(), a)
            &&& prefix_at(data, pos + g.len() + a.len(), b)
            &&& prefix_at(data, pos + g.len() + a.len() + b.len(), l)
            &&& prefix_at(data, pos + g.len() + a.len() + b.len() + 4, x)
            &&& prefix_at(data, pos + g.len() + a.len() + b.len() + 4 + x.len(), y)
            &&& prefix_at(data, pos + g.len() + a.len() + b.len() + 4 + x.len() + y.len(), z)
            &&& legacy_body(version, inputs, outputs, lock_time, expiry_height) == g + a + b + l + x
                + y + z
        }),
{
    vstd::bytes::lemma_auto_spec_u32_to_from_le_bytes();
    let g = legacy_group_part(version);
    let a = vec_encoding(inputs);
    let b = vec_encoding(outputs);
    let l = le_u32(lock_time);
    let x = legacy_expiry_part(version, expiry_height);
    let y = legacy_sapling_part(version);
    let z = legacy_joinsplit_part(version);
    assert(legacy_body(version, inputs, outputs, lock_time, expiry_height) =~= g + a + b + l + x + y
        + z);
    lemma_prefix_at_split(data, pos, g + a + b + l + x + y, z);
    lemma_prefix_at_split(data, pos, g + a + b + l + x, y);
    lemma_prefix_at_split(data, pos, g + a + b + l, x);
    lemma_prefix_at_split(data, pos, g + a + b, l);
    lemma_prefix_at_split(data, pos, g + a, b);
    lemma_prefix_at_split(data, pos, g, a);
}

/// Reads a compact-size count that must be zero.
fn read_zero_count(data: &[u8], pos: usize) -> (r: Result<usize, SerializationError>)
    ensures
        r matches Ok(end) ==> end == pos + 1 && prefix_at(data@, pos as int, compact_size(0)),
        prefix_at(data@, pos as int, compact_size(0)) ==> r == Ok::<usize, SerializationError>(
            (pos + 1) as usize,
        ),
{
    match read_compactsize(data, pos) {
        Ok((n, end)) => {
            if n != 0 {
                return Err(SerializationError::Parse);
            }
            Ok(end)
        },
        Err(e) => Err(e),
    }
}

/// Reads the body of a transaction of versions 1 to 4.
#[verifier::rlimit(60)]
fn read_legacy_body(data: &[u8], pos: usize, version: u32) -> (r: Result<
    (Vec<Input>, Vec<Output>, u32, u32, usize),
    SerializationError,
>)
    requires
        1 <= version <= 4,
    ensures
        match r {
            Ok((i, o, l, e, end)) => {
                &&& vec_wf(i@)
                &&& vec_wf(o@)
                &&& version < 3 ==> e == 0
                &&& end == pos + legacy_body(version, i@, o@, l, e).len()
                &&& prefix_at(data@, pos as int, legacy_body(version, i@, o@, l, e))
            },
            Err(_) => true,
        },
        forall|i: Seq<Input>, o: Seq<Output>, l: u32, e: u32| #[trigger]
            legacy_at(data@, pos as int, version, i, o, l, e) ==> (r matches Ok((i2, o2, l2, e2, end))
                && legacy_body(version, i2@, o2@, l2, e2) == legacy_body(version, i, o, l, e) && end
                == pos + legacy_body(version, i, o, l, e).len()),
{
    proof {
        vstd::bytes::lemma_auto_spec_u32_to_from_le_bytes();
        vstd::bytes::lemma_auto_spec_u64_to_from_le_bytes();
    }
    if pos > data.len() {
        return Err(SerializationError::Truncated);
    }
    let mut p0 = pos;
    if version >= 3 {
        let (group, next) = match read_u32(data, pos) {
            Ok(x) => x,
            Err(e) => {
                proof {
                    assert forall|i: Seq<Input>, o: Seq<Output>, l: u32, e: u32| #[trigger]
                        legacy_at(data@, pos as int, version, i, o, l, e) implies false by {
                        lemma_legacy_parts(data@, pos as int, version, i, o, l, e);
                    }
                }
                return Err(e);
            },
        };
        let expected = if version == 3 {
            OVERWINTER_VERSION_GROUP_ID
        } else {
            SAPLING_VERSION_GROUP_ID
        };
        if group != expected {
            proof {
                assert forall|i: Seq<Input>, o: Seq<Output>, l: u32, e: u32| #[trigger]
                    legacy_at(data@, pos as int, version, i, o, l, e) implies false by {
                    lemma_legacy_parts(data@, pos as int, version, i, o, l, e);
                }
            }
            return Err(SerializationError::Parse);
        }
        p0 = next;
    }
    let ghost g = legacy_group_part(version);
    proof {
        if version < 3 {
            assert(data@.subrange(pos as int, pos as int) =~= g);
        }
        assert forall|i: Seq<Input>, o: Seq<Output>, l: u32, e: u32| #[trigger]
            legacy_at(data@, pos as int, version, i, o, l, e) implies prefix_at(
            data@,
            p0 as int,
            vec_encoding(i),
        ) by {
            lemma_legacy_parts(data@, pos as int, version, i, o, l, e);
        }
    }
    let (inputs, p1) = match read_vec::<Input>(data, p0) {
        Ok(x) => x,
        Err(e) => return Err(e),
    };
    proof {
        assert forall|i: Seq<Input>, o: Seq<Output>, l: u32, e: u32| #[trigger]
            legacy_at(data@, pos as int, version, i, o, l, e) implies vec_encoding(inputs@)
            == vec_encoding(i) && prefix_at(data@, p1 as int, vec_encoding(o)) by {
            lemma_legacy_parts(data@, pos as int, version, i, o, l, e);
        }
    }
    let (outputs, p2) = match read_vec::<Output>(data, p1) {
        Ok(x) => x,
        Err(e) => return Err(e),
    };
    proof {
        assert forall|i: Seq<Input>, o: Seq<Output>, l: u32, e: u32| #[trigger]
            legacy_at(data@, pos as int, version, i, o, l, e) implies vec_encoding(outputs@)
            == vec_encoding(o) && prefix_at(data@, p2 as int, le_u32(l)) by {
            lemma_legacy_parts(data@, pos as int, version, i, o, l, e);
        }
    }
    let (lock_time, p3) = match read_u32(data, p2) {
        Ok(x) => x,
        Err(e) => return Err(e),
    };
    let (expiry_height, p4) = if version >= 3 {
        match read_u32(data, p3) {
            Ok(x) => x,
            Err(e) => {
                proof {
                    assert forall|i: Seq<Input>, o: Seq<Output>, l: u32, e: u32| #[trigger]
                        legacy_at(data@, pos as int, version, i, o, l, e) implies false by {
                        lemma_legacy_parts(data@, pos as int, version, i, o, l, e);
                    }
                }
                return Err(e);
            },
        }
    } else {
        (0, p3)
    };
    proof {
        if version < 3 {
            assert(data@.subrange(p3 as int, p3 as int) =~= legacy_expiry_part(version, expiry_height));
        }
        assert forall|i: Seq<Input>, o: Seq<Output>, l: u32, e: u32| #[trigger]
            legacy_at(data@, pos as int, version, i, o, l, e) implies l == lock_time
            && legacy_expiry_part(version, e) == legacy_expiry_part(version, expiry_height) && prefix_at(
            data@,
            p4 as int,
            legacy_sapling_part(version),
        ) by {
            lemma_legacy_parts(data@, pos as int, version, i, o, l, e);
        }
    }
    let mut p5 = p4;
    if version == 4 {
        let (balance, q1) = match read_i64(data, p4) {
            Ok(x) => x,
            Err(e) => return Err(e),
        };
        if balance != 0 {
            proof {
                assert forall|i: Seq<Input>, o: Seq<Output>, l: u32, e: u32| #[trigger]
                    legacy_at(data@, pos as int, version, i, o, l, e) implies false by {
                    lemma_legacy_parts(data@, pos as int, version, i, o, l, e);
                    lemma_prefix_at_split(data@, p4 as int, le_i64(0) + compact_size(0), compact_size(0));
                    lemma_prefix_at_split(data@, p4 as int, le_i64(0), compact_size(0));
                }
            }
            return Err(SerializationError::Parse);
        }
        proof {
            assert forall|i: Seq<Input>, o: Seq<Output>, l: u32, e: u32| #[trigger]
                legacy_at(data@, pos as int, version, i, o, l, e) implies prefix_at(
                data@,
                q1 as int,
                compact_size(0),
            ) && prefix_at(data@, q1 + 1, compact_size(0)) by {
                lemma_legacy_parts(data@, pos as int, version, i, o, l, e);
                lemma_prefix_at_split(data@, p4 as int, le_i64(0) + compact_size(0), compact_size(0));
                lemma_prefix_at_split(data@, p4 as int, le_i64(0), compact_size(0));
            }
        }
        let q2 = match read_zero_count(data, q1) {
            Ok(x) => x,
            Err(e) => return Err(e),
        };
        let q3 = match read_zero_count(data, q2) {
            Ok(x) => x,
            Err(e) => return Err(e),
        };
        proof {
            lemma_prefix_at_join(data@, p4 as int, le_i64(0), compact_size(0));
            lemma_prefix_at_join(data@, p4 as int, le_i64(0) + compact_size(0), compact_size(0));
        }
        p5 = q3;
    }
    proof {
        if version != 4 {
            assert(data@.subrange(p4 as int, p4 as int) =~= legacy_sapling_part(version));
        }
        assert forall|i: Seq<Input>, o: Seq<Output>, l: u32, e: u32| #[trigger]
            legacy_at(data@, pos as int, version, i, o, l, e) implies prefix_at(
            data@,
            p5 as int,
            legacy_joinsplit_part(version),
        ) by {
            lemma_legacy_parts(data@, pos as int, version, i, o, l, e);
        }
    }
    let mut end = p5;
    if version >= 2 {
        end = match read_zero_count(data, p5) {
            Ok(x) => x,
            Err(e) => return Err(e),
        };
    }
    proof {
        if version < 2 {
            assert(data@.subrange(p5 as int, p5 as int) =~= legacy_joinsplit_part(version));
        }
        let body = legacy_body(version, inputs@, outputs@, lock_time, expiry_height);
        lemma_prefix_at_join(data@, pos as int, g, vec_encoding(inputs@));
        lemma_prefix_at_join(data@, pos as int, g + vec_encoding(inputs@), vec_encoding(outputs@));
        lemma_prefix_at_join(
            data@,
            pos as int,
            g + vec_encoding(inputs@) + vec_encoding(outputs@),
            le_u32(lock_time),
        );
        lemma_prefix_at_join(
            data@,
            pos as int,
            g + vec_encoding(inputs@) + vec_encoding(outputs@) + le_u32(lock_time),
            legacy_expiry_part(version, expiry_height),
        );
        lemma_prefix_at_join(
            data@,
            pos as int,
            g + vec_encoding(inputs@) + vec_encoding(outputs@) + le_u32(lock_time)
                + legacy_expiry_part(version, expiry_height),
            legacy_sapling_part(version),
        );
        lemma_prefix_at_join(
            data@,
            pos as int,
            g + vec_encoding(inputs@) + vec_encoding(outputs@) + le_u32(lock_time)
                + legacy_expiry_part(version, expiry_height) + legacy_sapling_part(version),
            legacy_joinsplit_part(version),
        );
        assert(body =~= g + vec_encoding(inputs@) + vec_encoding(outputs@) + le_u32(lock_time)
            + legacy_expiry_part(version, expiry_height) + legacy_sapling_part(version)
            + legacy_joinsplit_part(version));
        assert forall|i: Seq<Input>, o: Seq<Output>, l: u32, e: u32| #[trigger]
            legacy_at(data@, pos as int, version, i, o, l, e) implies body == legacy_body(
            version,
            i,
            o,
            l,
            e,
        ) by {
            lemma_legacy_parts(data@, pos as int, version, i, o, l, e);
        }
    }
    Ok((inputs, outputs, lock_time, expiry_height, end))
}

/// The body of a transaction from version 5 on, with a known consensus
/// branch, valid vectors and readable bundles, stands at `pos`.
pub open spec fn tree_at<V: OrchardFlavour>(
    data: Seq<u8>,
    pos: int,
    version_group_id: u32,
    consensus_branch_id: u32,
    lock_time: u32,
    expiry_height: u32,
    inputs: Seq<Input>,
    outputs: Seq<Output>,
    sapling_data: Option<sapling::ShieldedData>,
    orchard_data: Option<ShieldedData<V>>,
) -> bool {
    &&& exists|nu: NetworkUpgrade| spec_branch_id(nu) == Some(consensus_branch_id)
    &&& vec_wf(inputs)
    &&& vec_wf(outputs)
    &&& sapling_data matches Some(d) ==> d.readable()
    &&& orchard_data matches Some(d) ==> d.readable()
    &&& prefix_at(
        data,
        pos,
        tree_body(
            version_group_id,
            consensus_branch_id,
            lock_time,
            expiry_height,
            inputs,
            outputs,
            sapling_data,
            orchard_data,
        ),
    )
}

/// Where the body of a transaction from version 5 on stands, each of its
/// parts stands after the parts before it.
proof fn lemma_tree_parts<V: OrchardFlavour>(
    data: Seq<u8>,
    pos: int,
    version_group_id: u32,
    consensus_branch_id: u32,
    lock_time: u32,
    expiry_height: u32,
    inputs: Seq<Input>,
    outputs: Seq<Output>,
    sapling_data: Option<sapling::ShieldedData>,
    orchard_data: Option<ShieldedData<V>>,
)
    requires
        prefix_at(
            data,
            pos,
            tree_body(
                version_group_id,
                consensus_branch_id,
                lock_time,
                expiry_height,
                inputs,
                outputs,
                sapling_data,
                orchard_data,
            ),
        ),
    ensures
        ({
            let a = vec_encoding(inputs);
            let b = vec_encoding(outputs);
            let c = sapling_part_encoding(sapling_data);
            let d = orchard_part_encoding(orchard_data);
            &&& prefix_at(data, pos, le_u32(version_group_id))
            &&& prefix_at(data, pos + 4, le_u32(consensus_branch_id))
            &&& prefix_at(data, pos + 8, le_u32(lock_time))
            &&& prefix_at(data, pos + 12, le_u32(expiry_height))
            &&& prefix_at(data, pos + 16, a)
            &&& prefix_at(data, pos + 16 + a.len(), b)
            &&& prefix_at(data, pos + 16 + a.len() + b.len(), c)
            &&& prefix_at(data, pos + 16 + a.len() + b.len() + c.len(), d)
        }),
{
    vstd::bytes::lemma_auto_spec_u32_to_from_le_bytes();
    let g = le_u32(version_group_id);
    let h = le_u32(consensus_branch_id);
    let l = le_u32(lock_time);
    let x = le_u32(expiry_height);
    let a = vec_encoding(inputs);
    let b = vec_encoding(outputs);
    let c = sapling_part_encoding(sapling_data);
    let d = orchard_part_encoding(orchard_data);
    lemma_prefix_at_split(data, pos, g + h + l + x + a + b + c, d);
    lemma_prefix_at_split(data, pos, g + h + l + x + a + b, c);
    lemma_prefix_at_split(data, pos, g + h + l + x + a, b);
    lemma_prefix_at_split(data, pos, g + h + l + x, a);
    lemma_prefix_at_split(data, pos, g + h + l, x);
    lemma_prefix_at_split(data, pos, g + h, l);
    lemma_prefix_at_split(data, pos, g, h);
}

/// Reads the body of a transaction from version 5 on, whose version group
/// must be `version_group_id`.
#[verifier::rlimit(80)]
fn read_tree_body<V: OrchardFlavour>(data: &[u8], pos: usize, version_group_id: u32) -> (r: Result<
    (
        NetworkUpgrade,
        u32,
        u32,
        Vec<Input>,
        Vec<Output>,
        Option<sapling::ShieldedData>,
        Option<ShieldedData<V>>,
        usize,
    ),
    SerializationError,
>)
    ensures
        match r {
            Ok((nu, l, e, i, o, s, d, end)) => {
                &&& spec_branch_id(nu) is Some
                &&& vec_wf(i@)
                &&& vec_wf(o@)
                &&& s matches Some(x) ==> x.readable()
                &&& d matches Some(x) ==> x.readable()
                &&& end == pos + tree_body(
                    version_group_id,
                    spec_branch_id(nu)->0,
                    l,
                    e,
                    i@,
                    o@,
                    s,
                    d,
                ).len()
                &&& prefix_at(
                    data@,
                    pos as int,
                    tree_body(version_group_id, spec_branch_id(nu)->0, l, e, i@, o@, s, d),
                )
            },
            Err(_) => true,
        },
        forall|
            b: u32,
            l: u32,
            e: u32,
            i: Seq<Input>,
            o: Seq<Output>,
            s: Option<sapling::ShieldedData>,
            d: Option<ShieldedData<V>>,
        |
            #[trigger] tree_at(data@, pos as int, version_group_id, b, l, e, i, o, s, d) ==> (r matches Ok(
                (nu2, l2, e2, i2, o2, s2, d2, end),
            ) && tree_body(version_group_id, spec_branch_id(nu2)->0, l2, e2, i2@, o2@, s2, d2)
                == tree_body(version_group_id, b, l, e, i, o, s, d) && end == pos + tree_body(
                version_group_id,
                b,
                l,
                e,
                i,
                o,
                s,
                d,
            ).len()),
{
    proof {
        vstd::bytes::lemma_auto_spec_u32_to_from_le_bytes();
    }
    let (group, p1) = match read_u32(data, pos) {
        Ok(x) => x,
        Err(e) => {
            proof {
                assert forall|b: u32, l: u32, e: u32, i: Seq<Input>, o: Seq<Output>, s: Option<sapling::ShieldedData>, d: Option<ShieldedData<V>>|
                    #[trigger] tree_at(data@, pos as int, version_group_id, b, l, e, i, o, s, d) implies false by {
                    lemma_tree_parts(data@, pos as int, version_group_id, b, l, e, i, o, s, d);
                }
            }
            return Err(e);
        },
    };
    if group != version_group_id {
        proof {
            assert forall|b: u32, l: u32, e: u32, i: Seq<Input>, o: Seq<Output>, s: Option<sapling::ShieldedData>, d: Option<ShieldedData<V>>|
                #[trigger] tree_at(data@, pos as int, version_group_id, b, l, e, i, o, s, d) implies false by {
                lemma_tree_parts(data@, pos as int, version_group_id, b, l, e, i, o, s, d);
            }
        }
        return Err(SerializationError::Parse);
    }
    let (branch, p2) = match read_u32(data, p1) {
        Ok(x) => x,
        Err(e) => {
            proof {
                assert forall|b: u32, l: u32, e: u32, i: Seq<Input>, o: Seq<Output>, s: Option<sapling::ShieldedData>, d: Option<ShieldedData<V>>|
                    #[trigger] tree_at(data@, pos as int, version_group_id, b, l, e, i, o, s, d) implies false by {
                    lemma_tree_parts(data@, pos as int, version_group_id, b, l, e, i, o, s, d);
                }
            }
            return Err(e);
        },
    };
    let network_upgrade = match NetworkUpgrade::from_branch_id(branch) {
        Some(nu) => nu,
        None => {
            proof {
                assert forall|b: u32, l: u32, e: u32, i: Seq<Input>, o: Seq<Output>, s: Option<sapling::ShieldedData>, d: Option<ShieldedData<V>>|
                    #[trigger] tree_at(data@, pos as int, version_group_id, b, l, e, i, o, s, d) implies false by {
                    lemma_tree_parts(data@, pos as int, version_group_id, b, l, e, i, o, s, d);
                }
            }
            return Err(SerializationError::Parse);
        },
    };
    let (lock_time, p3) = match read_u32(data, p2) {
        Ok(x) => x,
        Err(e) => {
            proof {
                assert forall|b: u32, l: u32, e: u32, i: Seq<Input>, o: Seq<Output>, s: Option<sapling::ShieldedData>, d: Option<ShieldedData<V>>|
                    #[trigger] tree_at(data@, pos as int, version_group_id, b, l, e, i, o, s, d) implies false by {
                    lemma_tree_parts(data@, pos as int, version_group_id, b, l, e, i, o, s, d);
                }
            }
            return Err(e);
        },
    };
    let (expiry_height, p4) = match read_u32(data, p3) {
        Ok(x) => x,
        Err(e) => {
            proof {
                assert forall|b: u32, l: u32, e: u32, i: Seq<Input>, o: Seq<Output>, s: Option<sapling::ShieldedData>, d: Option<ShieldedData<V>>|
                    #[trigger] tree_at(data@, pos as int, version_group_id, b, l, e, i, o, s, d) implies false by {
                    lemma_tree_parts(data@, pos as int, version_group_id, b, l, e, i, o, s, d);
                }
            }
            return Err(e);
        },
    };
    proof {
        assert forall|b: u32, l: u32, e: u32, i: Seq<Input>, o: Seq<Output>, s: Option<sapling::ShieldedData>, d: Option<ShieldedData<V>>|
            #[trigger] tree_at(data@, pos as int, version_group_id, b, l, e, i, o, s, d) implies b == branch
            && l == lock_time && e == expiry_height && prefix_at(data@, p4 as int, vec_encoding(i)) by {
            lemma_tree_parts(data@, pos as int, version_group_id, b, l, e, i, o, s, d);
        }
    }
    let (inputs, p5) = match read_vec::<Input>(data, p4) {
        Ok(x) => x,
        Err(e) => return Err(e),
    };
    proof {
        assert forall|b: u32, l: u32, e: u32, i: Seq<Input>, o: Seq<Output>, s: Option<sapling::ShieldedData>, d: Option<ShieldedData<V>>|
            #[trigger] tree_at(data@, pos as int, version_group_id, b, l, e, i, o, s, d) implies vec_encoding(
            inputs@,
        ) == vec_encoding(i) && prefix_at(data@, p5 as int, vec_encoding(o)) by {
            lemma_tree_parts(data@, pos as int, version_group_id, b, l, e, i, o, s, d);
        }
    }
    let (outputs, p6) = match read_vec::<Output>(data, p5) {
        Ok(x) => x,
        Err(e) => return Err(e),
    };
    proof {
        assert forall|b: u32, l: u32, e: u32, i: Seq<Input>, o: Seq<Output>, s: Option<sapling::ShieldedData>, d: Option<ShieldedData<V>>|
            #[trigger] tree_at(data@, pos as int, version_group_id, b, l, e, i, o, s, d) implies vec_encoding(
            outputs@,
        ) == vec_encoding(o) && sapling_part_at(data@, p6 as int, s) by {
            lemma_tree_parts(data@, pos as int, version_group_id, b, l, e, i, o, s, d);
        }
    }
    let (sapling_data, p7) = match read_sapling_part(data, p6) {
        Ok(x) => x,
        Err(e) => return Err(e),
    };
    proof {
        assert forall|b: u32, l: u32, e: u32, i: Seq<Input>, o: Seq<Output>, s: Option<sapling::ShieldedData>, d: Option<ShieldedData<V>>|
            #[trigger] tree_at(data@, pos as int, version_group_id, b, l, e, i, o, s, d) implies sapling_part_encoding(
            sapling_data,
        ) == sapling_part_encoding(s) && prefix_at(data@, p7 as int, orchard_part_encoding(d)) by {
            lemma_tree_parts(data@, pos as int, version_group_id, b, l, e, i, o, s, d);
            assert(sapling_part_at(data@, p6 as int, s));
        }
    }
    let (orchard_data, end) = match read_orchard_part::<V>(data, p7) {
        Ok(x) => x,
        Err(e) => return Err(e),
    };
    proof {
        let g = le_u32(version_group_id);
        let h = le_u32(branch);
        let l = le_u32(lock_time);
        let x = le_u32(expiry_height);
        let a = vec_encoding(inputs@);
        let b = vec_encoding(outputs@);
        let c = sapling_part_encoding(sapling_data);
        let d = orchard_part_encoding(orchard_data);
        lemma_prefix_at_join(data@, pos as int, g, h);
        lemma_prefix_at_join(data@, pos as int, g + h, l);
        lemma_prefix_at_join(data@, pos as int, g + h + l, x);
        lemma_prefix_at_join(data@, pos as int, g + h + l + x, a);
        lemma_prefix_at_join(data@, pos as int, g + h + l + x + a, b);
        lemma_prefix_at_join(data@, pos as int, g + h + l + x + a + b, c);
        lemma_prefix_at_join(data@, pos as int, g + h + l + x + a + b + c, d);
        assert forall|b: u32, l: u32, e: u32, i: Seq<Input>, o: Seq<Output>, s: Option<sapling::ShieldedData>, d: Option<ShieldedData<V>>|
            #[trigger] tree_at(data@, pos as int, version_group_id, b, l, e, i, o, s, d) implies orchard_part_encoding(
            orchard_data,
        ) == orchard_part_encoding(d) by {
            lemma_tree_parts(data@, pos as int, version_group_id, b, l, e, i, o, s, d);
        }
    }
    Ok((network_upgrade, lock_time, expiry_height, inputs, outputs, sapling_data, orchard_data, end))
}

/// The version field of a transaction.
pub open spec fn version_field(tx: Transaction) -> u32 {
    match tx {
        Transaction::V1 { .. } => 1,
        Transaction::V2 { .. } => 2,
        Transaction::V3 { .. } => 0x8000_0003,
        Transaction::V4 { .. } => 0x8000_0004,
        Transaction::V5 { .. } => 0x8000_0005,
        Transaction::V6 { .. } => 0x8000_0006,
    }
}

/// The encoding of a transaction after its version field.
pub open spec fn body_encoding(tx: Transaction) -> Seq<u8> {
    match tx {
        Transaction::V1 { inputs, outputs, lock_time } => legacy_body(1, inputs@, outputs@, lock_time, 0),
        Transaction::V2 { inputs, outputs, lock_time } => legacy_body(2, inputs@, outputs@, lock_time, 0),
        Transaction::V3 { inputs, outputs, lock_time, expiry_height } => legacy_body(
            3,
            inputs@,
            outputs@,
            lock_time,
            expiry_height,
        ),
        Transaction::V4 { inputs, outputs, lock_time, expiry_height } => legacy_body(
            4,
            inputs@,
            outputs@,
            lock_time,
            expiry_height,
        ),
        Transaction::V5 {
            network_upgrade,
            lock_time,
            expiry_height,
            inputs,
            outputs,
            sapling_shielded_data,
            orchard_shielded_data,
        } => tree_body(
            TX_V5_VERSION_GROUP_ID,
            spec_branch_id(network_upgrade)->0,
            lock_time,
            expiry_height,
            inputs@,
            outputs@,
            sapling_shielded_data,
            orchard_shielded_data,
        ),
        Transaction::V6 {
            network_upgrade,
            lock_time,
            expiry_height,
            inputs,
            outputs,
            sapling_shielded_data,
            orchard_shielded_data,
        } => tree_body(
            TX_V6_VERSION_GROUP_ID,
            spec_branch_id(network_upgrade)->0,
            lock_time,
            expiry_height,
            inputs@,
            outputs@,
            sapling_shielded_data,
            orchard_shielded_data,
        ),
    }
}

/// The inputs of a transaction of versions 1 to 4.
pub open spec fn legacy_inputs(tx: Transaction) -> Seq<Input> {
    match tx {
        Transaction::V1 { inputs, .. } => inputs@,
        Transaction::V2 { inputs, .. } => inputs@,
        Transaction::V3 { inputs, .. } => inputs@,
        Transaction::V4 { inputs, .. } => inputs@,
        _ => seq![],
    }
}

/// The outputs of a transaction of versions 1 to 4.
pub open spec fn legacy_outputs(tx: Transaction) -> Seq<Output> {
    match tx {
        Transaction::V1 { outputs, .. } => outputs@,
        Transaction::V2 { outputs, .. } => outputs@,
        Transaction::V3 { outputs, .. } => outputs@,
        Transaction::V4 { outputs, .. } => outputs@,
        _ => seq![],
    }
}

/// The lock time of a transaction of versions 1 to 4.
pub open spec fn legacy_lock_time(tx: Transaction) -> u32 {
    match tx {
        Transaction::V1 { lock_time, .. } => lock_time,
        Transaction::V2 { lock_time, .. } => lock_time,
        Transaction::V3 { lock_time, .. } => lock_time,
        Transaction::V4 { lock_time, .. } => lock_time,
        _ => 0,
    }
}

/// The expiry height of a transaction of versions 3 and 4, zero before.
pub open spec fn legacy_expiry(tx: Transaction) -> u32 {
    match tx {
        Transaction::V3 { expiry_height, .. } => expiry_height,
        Transaction::V4 { expiry_height, .. } => expiry_height,
        _ => 0,
    }
}

/// The body of a transaction from version 5 on stands at `pos`, as the body
/// reader of its flavour expects it.
pub open spec fn tree_at_of(data: Seq<u8>, pos: int, tx: Transaction) -> bool {
    match tx {
        Transaction::V5 {
            network_upgrade,
            lock_time,
            expiry_height,
            inputs,
            outputs,
            sapling_shielded_data,
            orchard_shielded_data,
        } => tree_at(
            data,
            pos,
            TX_V5_VERSION_GROUP_ID,
            spec_branch_id(network_upgrade)->0,
            lock_time,
            expiry_height,
            inputs@,
            outputs@,
            sapling_shielded_data,
            orchard_shielded_data,
        ),
        Transaction::V6 {
            network_upgrade,
            lock_time,
            expiry_height,
            inputs,
            outputs,
            sapling_shielded_data,
            orchard_shielded_data,
        } => tree_at(
            data,
            pos,
            TX_V6_VERSION_GROUP_ID,
            spec_branch_id(network_upgrade)->0,
            lock_time,
            expiry_height,
            inputs@,
            outputs@,
            sapling_shielded_data,
            orchard_shielded_data,
        ),
        _ => false,
    }
}

/// A transaction's encoding is its version field, then its body.
pub proof fn lemma_header_body(tx: Transaction)
    ensures
        tx.encoding() == le_u32(version_field(tx)) + body_encoding(tx),
        tx.is_legacy() ==> tx.encoding() == tx.legacy_encoding(),
{
    assert(3u32 | OVERWINTER_FLAG == 0x8000_0003u32) by (bit_vector);
    assert(4u32 | OVERWINTER_FLAG == 0x8000_0004u32) by (bit_vector);
    assert(5u32 | OVERWINTER_FLAG == 0x8000_0005u32) by (bit_vector);
    assert(6u32 | OVERWINTER_FLAG == 0x8000_0006u32) by (bit_vector);
}

/// A transaction.
///
/// Versions 1 to 4 are held with their transparent parts; their encoding
/// carries no JoinSplit and no Sapling description.
#[derive(Debug, PartialEq, Eq)]
pub enum Transaction {
    /// A version 1 transaction.
    V1 {
        /// The transparent inputs.
        inputs: Vec<Input>,
        /// The transparent outputs.
        outputs: Vec<Output>,
        /// The lock time.
        lock_time: u32,
    },
    /// A version 2 transaction.
    V2 {
        /// The transparent inputs.
        inputs: Vec<Input>,
        /// The transparent outputs.
        outputs: Vec<Output>,
        /// The lock time.
        lock_time: u32,
    },
    /// A version 3 (Overwinter) transaction.
    V3 {
        /// The transparent inputs.
        inputs: Vec<Input>,
        /// The transparent outputs.
        outputs: Vec<Output>,
        /// The lock time.
        lock_time: u32,
        /// The height after which the transaction expires.
        expiry_height: u32,
    },
    /// A version 4 (Sapling) transaction.
    V4 {
        /// The transparent inputs.
        inputs: Vec<Input>,
        /// The transparent outputs.
        outputs: Vec<Output>,
        /// The lock time.
        lock_time: u32,
        /// The height after which the transaction expires.
        expiry_height: u32,
    },
    /// A version 5 transaction.
    V5 {
        /// The network upgrade whose consensus branch the transaction commits to.
        network_upgrade: NetworkUpgrade,
        /// The lock time.
        lock_time: u32,
        /// The height after which the transaction expires.
        expiry_height: u32,
        /// The transparent inputs.
        inputs: Vec<Input>,
        /// The transparent outputs.
        outputs: Vec<Output>,
        /// The Sapling bundle.
        sapling_shielded_data: Option<sapling::ShieldedData>,
        /// The Orchard bundle.
        orchard_shielded_data: Option<ShieldedData<Orchard>>,
    },
    /// A version 6 transaction.
    V6 {
        /// The network upgrade whose consensus branch the transaction commits to.
        network_upgrade: NetworkUpgrade,
        /// The lock time.
        lock_time: u32,
        /// The height after which the transaction expires.
        expiry_height: u32,
        /// The transparent inputs.
        inputs: Vec<Input>,
        /// The transparent outputs.
        outputs: Vec<Output>,
        /// The Sapling bundle.
        sapling_shielded_data: Option<sapling::ShieldedData>,
        /// The Orchard bundle, in its ZSA flavour.
        orchard_shielded_data: Option<ShieldedData<OrchardZSA>>,
    },
}

/// Valid transparent parts: every element valid.
pub open spec fn transparent_wf(inputs: Seq<Input>, outputs: Seq<Output>) -> bool {
    &&& forall|i: int| 0 <= i < inputs.len() ==> (#[trigger] inputs[i]).wf()
    &&& forall|i: int| 0 <= i < outputs.len() ==> (#[trigger] outputs[i]).wf()
}

impl Transaction {
    /// Whether the transaction has one of the versions 1 to 4.
    pub open spec fn is_legacy(&self) -> bool {
        !(self is V5 || self is V6)
    }

    /// A valid transaction: valid transparent parts and bundles.
    pub open spec fn wf(&self) -> bool {
        match self {
            Transaction::V1 { inputs, outputs, .. } => transparent_wf(inputs@, outputs@),
            Transaction::V2 { inputs, outputs, .. } => transparent_wf(inputs@, outputs@),
            Transaction::V3 { inputs, outputs, .. } => transparent_wf(inputs@, outputs@),
            Transaction::V4 { inputs, outputs, .. } => transparent_wf(inputs@, outputs@),
            Transaction::V5 {
                inputs,
                outputs,
                sapling_shielded_data,
                orchard_shielded_data,
                ..
            } => {
                &&& transparent_wf(inputs@, outputs@)
                &&& sapling_shielded_data matches Some(d) ==> d.wf()
                &&& orchard_shielded_data matches Some(d) ==> d.wf()
            },
            Transaction::V6 {
                inputs,
                outputs,
                sapling_shielded_data,
                orchard_shielded_data,
                ..
            } => {
                &&& transparent_wf(inputs@, outputs@)
                &&& sapling_shielded_data matches Some(d) ==> d.wf()
                &&& orchard_shielded_data matches Some(d) ==> d.wf()
            },
        }
    }

    /// The encoding of a transaction of versions 1 to 4: the version field,
    /// then the body.
    pub open spec fn legacy_encoding(&self) -> Seq<u8> {
        match self {
            Transaction::V1 { inputs, outputs, lock_time } => le_u32(1) + legacy_body(
                1,
                inputs@,
                outputs@,
                *lock_time,
                0,
            ),
            Transaction::V2 { inputs, outputs, lock_time } => le_u32(2) + legacy_body(
                2,
                inputs@,
                outputs@,
                *lock_time,
                0,
            ),
            Transaction::V3 { inputs, outputs, lock_time, expiry_height } => le_u32(
                3 | OVERWINTER_FLAG,
            ) + legacy_body(3, inputs@, outputs@, *lock_time, *expiry_height),
            Transaction::V4 { inputs, outputs, lock_time, expiry_height } => le_u32(
                4 | OVERWINTER_FLAG,
            ) + legacy_body(4, inputs@, outputs@, *lock_time, *expiry_height),
            _ => seq![],
        }
    }

    /// The network upgrade of a version 5 or 6 transaction has a consensus
    /// branch, and the bundles' lengths fit their length prefixes.
    pub open spec fn encodable(&self) -> bool {
        match self {
            Transaction::V5 { network_upgrade, sapling_shielded_data, orchard_shielded_data, .. } => {
                &&& spec_branch_id(*network_upgrade) is Some
                &&& sapling_shielded_data matches Some(d) ==> d.spends@.len() <= u64::MAX
                    && d.outputs@.len() <= u64::MAX
                &&& orchard_shielded_data matches Some(d) ==> d.lengths_fit()
            },
            Transaction::V6 { network_upgrade, sapling_shielded_data, orchard_shielded_data, .. } => {
                &&& spec_branch_id(*network_upgrade) is Some
                &&& sapling_shielded_data matches Some(d) ==> d.spends@.len() <= u64::MAX
                    && d.outputs@.len() <= u64::MAX
                &&& orchard_shielded_data matches Some(d) ==> d.lengths_fit()
            },
            _ => true,
        }
    }

    /// The canonical encoding: the legacy layout for versions 1 to 4; from
    /// version 5 on the header (version, version group, consensus branch,
    /// lock time, expiry height), the transparent inputs and outputs, the
    /// Sapling part and the Orchard part.
    pub open spec fn encoding(&self) -> Seq<u8> {
        match self {
            Transaction::V5 {
                network_upgrade,
                lock_time,
                expiry_height,
                inputs,
                outputs,
                sapling_shielded_data,
                orchard_shielded_data,
            } => tree_tx_encoding(
                5 | OVERWINTER_FLAG,
                TX_V5_VERSION_GROUP_ID,
                spec_branch_id(*network_upgrade).unwrap(),
                *lock_time,
                *expiry_height,
                inputs@,
                outputs@,
                *sapling_shielded_data,
                *orchard_shielded_data,
            ),
            Transaction::V6 {
                network_upgrade,
                lock_time,
                expiry_height,
                inputs,
                outputs,
                sapling_shielded_data,
                orchard_shielded_data,
            } => tree_tx_encoding(
                6 | OVERWINTER_FLAG,
                TX_V6_VERSION_GROUP_ID,
                spec_branch_id(*network_upgrade).unwrap(),
                *lock_time,
                *expiry_height,
                inputs@,
                outputs@,
                *sapling_shielded_data,
                *orchard_shielded_data,
            ),
            _ => self.legacy_encoding(),
        }
    }

    /// A transaction that its encoding can carry: valid and encodable, with
    /// no more inputs and outputs than a block can hold, and readable bundles.
    pub open spec fn readable(&self) -> bool {
        &&& self.wf()
        &&& self.encodable()
        &&& match self {
            Transaction::V1 { inputs, outputs, .. } => vec_wf(inputs@) && vec_wf(outputs@),
            Transaction::V2 { inputs, outputs, .. } => vec_wf(inputs@) && vec_wf(outputs@),
            Transaction::V3 { inputs, outputs, .. } => vec_wf(inputs@) && vec_wf(outputs@),
            Transaction::V4 { inputs, outputs, .. } => vec_wf(inputs@) && vec_wf(outputs@),
            Transaction::V5 {
                inputs,
                outputs,
                sapling_shielded_data,
                orchard_shielded_data,
                ..
            } => {
                &&& vec_wf(inputs@)
                &&& vec_wf(outputs@)
                &&& sapling_shielded_data matches Some(d) ==> d.readable()
                &&& orchard_shielded_data matches Some(d) ==> d.readable()
            },
            Transaction::V6 {
                inputs,
                outputs,
                sapling_shielded_data,
                orchard_shielded_data,
                ..
            } => {
                &&& vec_wf(inputs@)
                &&& vec_wf(outputs@)
                &&& sapling_shielded_data matches Some(d) ==> d.readable()
                &&& orchard_shielded_data matches Some(d) ==> d.readable()
            },
        }
    }

    /// Reads a transaction at `pos`: the version field decides the layout of
    /// the body.
    pub fn zcash_deserialize(data: &[u8], pos: usize) -> (r: Result<
        (Transaction, usize),
        SerializationError,
    >)
        ensures
            match r {
                Ok((y, end)) => y.readable() && end == pos + y.encoding().len() && prefix_at(
                    data@,
                    pos as int,
                    y.encoding(),
                ),
                Err(_) => true,
            },
            forall|x: Transaction|
                x.readable() && prefix_at(data@, pos as int, #[trigger] x.encoding()) ==> (r matches Ok(
                    (y, end),
                ) && y.encoding() == x.encoding() && end == pos + x.encoding().len()),
    {
        proof {
            vstd::bytes::lemma_auto_spec_u32_to_from_le_bytes();
            assert(3u32 | OVERWINTER_FLAG == 0x8000_0003u32) by (bit_vector);
            assert(4u32 | OVERWINTER_FLAG == 0x8000_0004u32) by (bit_vector);
            assert(5u32 | OVERWINTER_FLAG == 0x8000_0005u32) by (bit_vector);
            assert(6u32 | OVERWINTER_FLAG == 0x8000_0006u32) by (bit_vector);
            assert forall|x: Transaction|
                x.readable() && prefix_at(data@, pos as int, #[trigger] x.encoding()) implies prefix_at(
                data@,
                pos as int,
                le_u32(version_field(x)),
            ) && prefix_at(data@, pos + 4, body_encoding(x)) by {
                lemma_header_body(x);
                lemma_prefix_at_split(data@, pos as int, le_u32(version_field(x)), body_encoding(x));
            }
        }
        let (header, p1) = match read_u32(data, pos) {
            Ok(x) => x,
            Err(e) => return Err(e),
        };
        proof {
            assert forall|x: Transaction|
                x.readable() && prefix_at(data@, pos as int, #[trigger] x.encoding()) implies version_field(x)
                == header by {}
        }
        if header == 1 || header == 2 || header == 0x8000_0003 || header == 0x8000_0004 {
            let version: u32 = if header == 1 {
                1
            } else if header == 2 {
                2
            } else if header == 0x8000_0003 {
                3
            } else {
                4
            };
            proof {
                assert forall|x: Transaction|
                    x.readable() && prefix_at(data@, pos as int, #[trigger] x.encoding()) implies legacy_at(
                    data@,
                    p1 as int,
                    version,
                    legacy_inputs(x),
                    legacy_outputs(x),
                    legacy_lock_time(x),
                    legacy_expiry(x),
                ) by {
                    lemma_header_body(x);
                }
            }
            let (inputs, outputs, lock_time, expiry_height, end) = match read_legacy_body(
                data,
                p1,
                version,
            ) {
                Ok(x) => x,
                Err(e) => return Err(e),
            };
            let tx = if version == 1 {
                Transaction::V1 { inputs, outputs, lock_time }
            } else if version == 2 {
                Transaction::V2 { inputs, outputs, lock_time }
            } else if version == 3 {
                Transaction::V3 { inputs, outputs, lock_time, expiry_height }
            } else {
                Transaction::V4 { inputs, outputs, lock_time, expiry_height }
            };
            proof {
                lemma_header_body(tx);
                lemma_prefix_at_join(data@, pos as int, le_u32(header), body_encoding(tx));
                assert forall|x: Transaction|
                    x.readable() && prefix_at(data@, pos as int, #[trigger] x.encoding()) implies tx.encoding()
                    == x.encoding() by {
                    lemma_header_body(x);
                    assert(legacy_at(
                        data@,
                        p1 as int,
                        version,
                        legacy_inputs(x),
                        legacy_outputs(x),
                        legacy_lock_time(x),
                        legacy_expiry(x),
                    ));
                }
            }
            Ok((tx, end))
        } else if header == 0x8000_0005 {
            proof {
                assert forall|x: Transaction|
                    x.readable() && prefix_at(data@, pos as int, #[trigger] x.encoding()) implies x is V5
                    && tree_at_of(data@, p1 as int, x) by {
                    lemma_header_body(x);
                }
            }
            let (network_upgrade, lock_time, expiry_height, inputs, outputs, sapling_data, orchard_data, end) =
                match read_tree_body::<Orchard>(data, p1, TX_V5_VERSION_GROUP_ID) {
                Ok(x) => x,
                Err(e) => {
                    proof {
                        assert forall|x: Transaction|
                            x.readable() && prefix_at(data@, pos as int, #[trigger] x.encoding())
                                implies false by {
                            assert(tree_at_of(data@, p1 as int, x));
                        }
                    }
                    return Err(e);
                },
            };
            let tx = Transaction::V5 {
                network_upgrade,
                lock_time,
                expiry_height,
                inputs,
                outputs,
                sapling_shielded_data: sapling_data,
                orchard_shielded_data: orchard_data,
            };
            proof {
                lemma_header_body(tx);
                lemma_prefix_at_join(data@, pos as int, le_u32(header), body_encoding(tx));
                assert forall|x: Transaction|
                    x.readable() && prefix_at(data@, pos as int, #[trigger] x.encoding()) implies tx.encoding()
                    == x.encoding() by {
                    lemma_header_body(x);
                    assert(tree_at_of(data@, p1 as int, x));
                }
            }
            Ok((tx, end))
        } else if header == 0x8000_0006 {
            proof {
                assert forall|x: Transaction|
                    x.readable() && prefix_at(data@, pos as int, #[trigger] x.encoding()) implies x is V6
                    && tree_at_of(data@, p1 as int, x) by {
                    lemma_header_body(x);
                }
            }
            let (network_upgrade, lock_time, expiry_height, inputs, outputs, sapling_data, orchard_data, end) =
                match read_tree_body::<OrchardZSA>(data, p1, TX_V6_VERSION_GROUP_ID) {
                Ok(x) => x,
                Err(e) => {
                    proof {
                        assert forall|x: Transaction|
                            x.readable() && prefix_at(data@, pos as int, #[trigger] x.encoding())
                                implies false by {
                            assert(tree_at_of(data@, p1 as int, x));
                        }
                    }
                    return Err(e);
                },
            };
            let tx = Transaction::V6 {
                network_upgrade,
                lock_time,
                expiry_height,
                inputs,
                outputs,
                sapling_shielded_data: sapling_data,
                orchard_shielded_data: orchard_data,
            };
            proof {
                lemma_header_body(tx);
                lemma_prefix_at_join(data@, pos as int, le_u32(header), body_encoding(tx));
                assert forall|x: Transaction|
                    x.readable() && prefix_at(data@, pos as int, #[trigger] x.encoding()) implies tx.encoding()
                    == x.encoding() by {
                    lemma_header_body(x);
                    assert(tree_at_of(data@, p1 as int, x));
                }
            }
            Ok((tx, end))
        } else {
            proof {
                assert forall|x: Transaction|
                    x.readable() && prefix_at(data@, pos as int, #[trigger] x.encoding()) implies false by {
                    lemma_header_body(x);
                }
            }
            Err(SerializationError::Parse)
        }
    }

    /// Appends the canonical encoding.
    pub fn zcash_serialize(&self, out: &mut Vec<u8>)
        requires
            self.wf(),
            self.encodable(),
        ensures
            final(out)@ == old(out)@ + self.encoding(),
    {
        match self {
            Transaction::V5 {
                network_upgrade,
                lock_time,
                expiry_height,
                inputs,
                outputs,
                sapling_shielded_data,
                orchard_shielded_data,
            } => {
                let branch = match network_upgrade.branch_id() {
                    Some(b) => b,
                    None => {
                        proof {
                            assert(false);
                        }
                        0
                    },
                };
                write_tree_transaction(
                    out,
                    5 | OVERWINTER_FLAG,
                    TX_V5_VERSION_GROUP_ID,
                    branch,
                    *lock_time,
                    *expiry_height,
                    inputs.as_slice(),
                    outputs.as_slice(),
                    sapling_shielded_data,
                    orchard_shielded_data,
                );
            },
            Transaction::V6 {
                network_upgrade,
                lock_time,
                expiry_height,
                inputs,
                outputs,
                sapling_shielded_data,
                orchard_shielded_data,
            } => {
                let branch = match network_upgrade.branch_id() {
                    Some(b) => b,
                    None => {
                        proof {
                            assert(false);
                        }
                        0
                    },
                };
                write_tree_transaction(
                    out,
                    6 | OVERWINTER_FLAG,
                    TX_V6_VERSION_GROUP_ID,
                    branch,
                    *lock_time,
                    *expiry_height,
                    inputs.as_slice(),
                    outputs.as_slice(),
                    sapling_shielded_data,
                    orchard_shielded_data,
                );
            },
            _ => self.zcash_serialize_legacy(out),
        }
    }

    /// Appends the encoding of a transaction of versions 1 to 4.
    fn zcash_serialize_legacy(&self, out: &mut Vec<u8>)
        requires
            self.wf(),
            self.is_legacy(),
        ensures
            final(out)@ == old(out)@ + self.legacy_encoding(),
    {
        match self {
            Transaction::V1 { inputs, outputs, lock_time } => {
                write_u32(out, 1);
                write_vec(out, inputs.as_slice());
                write_vec(out, outputs.as_slice());
                write_u32(out, *lock_time);
            },
            Transaction::V2 { inputs, outputs, lock_time } => {
                write_u32(out, 2);
                write_vec(out, inputs.as_slice());
                write_vec(out, outputs.as_slice());
                write_u32(out, *lock_time);
                write_compactsize(out, 0);
            },
            Transaction::V3 { inputs, outputs, lock_time, expiry_height } => {
                write_u32(out, 3 | OVERWINTER_FLAG);
                write_u32(out, OVERWINTER_VERSION_GROUP_ID);
                write_vec(out, inputs.as_slice());
                write_vec(out, outputs.as_slice());
                write_u32(out, *lock_time);
                write_u32(out, *expiry_height);
                write_compactsize(out, 0);
            },
            Transaction::V4 { inputs, outputs, lock_time, expiry_height } => {
                write_u32(out, 4 | OVERWINTER_FLAG);
                write_u32(out, SAPLING_VERSION_GROUP_ID);
                write_vec(out, inputs.as_slice());
                write_vec(out, outputs.as_slice());
                write_u32(out, *lock_time);
                write_u32(out, *expiry_height);
                write_i64(out, 0);
                write_compactsize(out, 0);
                write_compactsize(out, 0);
                write_compactsize(out, 0);
            },
            _ => {},
        }
        assert(final(out)@ =~= old(out)@ + self.legacy_encoding());
    }
}

} // verus!
