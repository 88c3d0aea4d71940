//! Byte codec primitives: little-endian integers, fixed-size byte arrays and
//! the compact-size integer that prefixes every vector.
//!
//! Readers take the whole input and a position in it, and return the value
//! read together with the position just past it.
use vstd::prelude::*;
use vstd::bytes::*;

use crate::hasher::append_bytes;

verus! {

/// Why a value could not be read.
#[derive(Debug, Clone, Copy, PartialEq, Eq, Structural)]
pub enum SerializationError {
    /// The byte source or sink failed.
    IoFailure,
    /// The input ended before the value did.
    Truncated,
    /// The bytes break a rule of the encoding.
    Parse,
    /// A vector claims more elements than a block can hold.
    PreallocationExceeded,
}

/// `e` stands in `data` from position `pos` on.
pub open spec fn prefix_at(data: Seq<u8>, pos: int, e: Seq<u8>) -> bool {
    &&& 0 <= pos
    &&& pos + e.len() <= data.len()
    &&& data.subrange(pos, pos + e.len()) == e
}

/// The little-endian bytes of a 32-bit integer.
pub open spec fn le_u32(v: u32) -> Seq<u8> {
    spec_u32_to_le_bytes(v)
}

/// The little-endian bytes of a 64-bit integer.
pub open spec fn le_u64(v: u64) -> Seq<u8> {
    spec_u64_to_le_bytes(v)
}

/// The little-endian two's complement bytes of a signed 64-bit integer.
pub open spec fn le_i64(v: i64) -> Seq<u8> {
    spec_u64_to_le_bytes(v as u64)
}

/// The minimal compact-size encoding of `n`: one byte below `0xFD`, else a
/// tag byte `0xFD`, `0xFE` or `0xFF` followed by 2, 4 or 8 little-endian bytes.
pub open spec fn compact_size(n: u64) -> Seq<u8> {
    if n < 0xFD {
        seq![n as u8]
    } else if n <= 0xFFFF {
        seq![0xFDu8] + spec_u16_to_le_bytes(n as u16)
    } else if n <= 0xFFFF_FFFF {
        seq![0xFEu8] + spec_u32_to_le_bytes(n as u32)
    } else {
        seq![0xFFu8] + spec_u64_to_le_bytes(n)
    }
}

/// The length of a compact-size encoding, as its first byte announces it.
pub open spec fn compact_size_len(tag: u8) -> int {
    if tag < 0xFD {
        1
    } else if tag == 0xFD {
        3
    } else if tag == 0xFE {
        5
    } else {
        9
    }
}

/// A byte string prefixed by its compact-size length.
pub open spec fn var_bytes(b: Seq<u8>) -> Seq<u8> {
    compact_size(b.len() as u64) + b
}

/// The byte lengths of all the little-endian encodings.
pub proof fn lemma_le_lengths()
    ensures
        forall|v: u32| #[trigger] spec_u32_to_le_bytes(v).len() == 4,
        forall|v: u64| #[trigger] spec_u64_to_le_bytes(v).len() == 8,
        forall|v: u16| #[trigger] spec_u16_to_le_bytes(v).len() == 2,
{
    lemma_auto_spec_u32_to_from_le_bytes();
    lemma_auto_spec_u64_to_from_le_bytes();
    lemma_auto_spec_u16_to_from_le_bytes();
}

/// The length of the compact-size encoding of `n`.
pub proof fn lemma_compact_size_len(n: u64)
    ensures
        compact_size(n).len() == compact_size_len(compact_size(n)[0]),
        compact_size(n).len() == (if n < 0xFD {
            1int
        } else if n <= 0xFFFF {
            3int
        } else if n <= 0xFFFF_FFFF {
            5int
        } else {
            9int
        }),
{
    lemma_le_lengths();
}

/// Appends the little-endian bytes of `v`.
pub fn write_u32(out: &mut Vec<u8>, v: u32)
    ensures
        final(out)@ == old(out)@ + le_u32(v),
{
    let bytes = u32_to_le_bytes(v);
    append_bytes(out, bytes.as_slice());
}

/// Appends the little-endian bytes of `v`.
pub fn write_u64(out: &mut Vec<u8>, v: u64)
    ensures
        final(out)@ == old(out)@ + le_u64(v),
{
    let bytes = u64_to_le_bytes(v);
    append_bytes(out, bytes.as_slice());
}

/// Appends the little-endian two's complement bytes of `v`.
pub fn write_i64(out: &mut Vec<u8>, v: i64)
    ensures
        final(out)@ == old(out)@ + le_i64(v),
{
    write_u64(out, v as u64);
}

/// Appends the minimal compact-size encoding of `n`.
pub fn write_compactsize(out: &mut Vec<u8>, n: u64)
    ensures
        final(out)@ == old(out)@ + compact_size(n),
{
    if n < 0xFD {
        out.push(n as u8);
        assert(final(out)@ =~= old(out)@ + compact_size(n));
    } else if n <= 0xFFFF {
        out.push(0xFD);
        let bytes = u16_to_le_bytes(n as u16);
        append_bytes(out, bytes.as_slice());
        assert(final(out)@ =~= old(out)@ + compact_size(n));
    } else if n <= 0xFFFF_FFFF {
        out.push(0xFE);
        let bytes = u32_to_le_bytes(n as u32);
        append_bytes(out, bytes.as_slice());
        assert(final(out)@ =~= old(out)@ + compact_size(n));
    } else {
        out.push(0xFF);
        let bytes = u64_to_le_bytes(n);
        append_bytes(out, bytes.as_slice());
        assert(final(out)@ =~= old(out)@ + compact_size(n));
    }
}

/// Appends `bytes` prefixed by their compact-size length.
pub fn write_var_bytes(out: &mut Vec<u8>, bytes: &[u8])
    ensures
        final(out)@ == old(out)@ + var_bytes(bytes@),
{
    write_compactsize(out, bytes.len() as u64);
    append_bytes(out, bytes);
    assert(final(out)@ =~= old(out)@ + var_bytes(bytes@));
}


/// Reads one byte.
pub fn read_u8(data: &[u8], pos: usize) -> (r: Result<(u8, usize), SerializationError>)
    ensures
        match r {
            Ok((v, end)) => end == pos + 1 && prefix_at(data@, pos as int, seq![v]),
            Err(e) => e == SerializationError::Truncated && pos >= data@.len(),
        },
        pos < data@.len() ==> r is Ok,
{
    if pos >= data.len() {
        Err(SerializationError::Truncated)
    } else {
        let v = data[pos];
        assert(data@.subrange(pos as int, pos + 1) =~= seq![v]);
        Ok((v, pos + 1))
    }
}

/// Reads a little-endian 32-bit integer.
pub fn read_u32(data: &[u8], pos: usize) -> (r: Result<(u32, usize), SerializationError>)
    ensures
        match r {
            Ok((v, end)) => end == pos + 4 && prefix_at(data@, pos as int, le_u32(v)),
            Err(e) => e == SerializationError::Truncated && pos + 4 > data@.len(),
        },
        pos + 4 <= data@.len() ==> r is Ok,
        forall|v: u32|
            prefix_at(data@, pos as int, #[trigger] le_u32(v)) ==> r == Ok::<
                (u32, usize),
                SerializationError,
            >((v, (pos + 4) as usize)),
{
    proof {
        lemma_auto_spec_u32_to_from_le_bytes();
    }
    if pos > data.len() || data.len() - pos < 4 {
        Err(SerializationError::Truncated)
    } else {
        let s = vstd::slice::slice_subrange(data, pos, pos + 4);
        let v = u32_from_le_bytes(s);
        proof {
            lemma_auto_spec_u32_to_from_le_bytes();
        }
        Ok((v, pos + 4))
    }
}

/// Reads a little-endian 64-bit integer.
pub fn read_u64(data: &[u8], pos: usize) -> (r: Result<(u64, usize), SerializationError>)
    ensures
        match r {
            Ok((v, end)) => end == pos + 8 && prefix_at(data@, pos as int, le_u64(v)),
            Err(e) => e == SerializationError::Truncated && pos + 8 > data@.len(),
        },
        pos + 8 <= data@.len() ==> r is Ok,
        forall|v: u64|
            prefix_at(data@, pos as int, #[trigger] le_u64(v)) ==> r == Ok::<
                (u64, usize),
                SerializationError,
            >((v, (pos + 8) as usize)),
{
    proof {
        lemma_auto_spec_u64_to_from_le_bytes();
    }
    if pos > data.len() || data.len() - pos < 8 {
        Err(SerializationError::Truncated)
    } else {
        let s = vstd::slice::slice_subrange(data, pos, pos + 8);
        let v = u64_from_le_bytes(s);
        proof {
            lemma_auto_spec_u64_to_from_le_bytes();
        }
        Ok((v, pos + 8))
    }
}

/// Reads a little-endian two's complement 64-bit integer.
pub fn read_i64(data: &[u8], pos: usize) -> (r: Result<(i64, usize), SerializationError>)
    ensures
        match r {
            Ok((v, end)) => end == pos + 8 && prefix_at(data@, pos as int, le_i64(v)),
            Err(e) => e == SerializationError::Truncated && pos + 8 > data@.len(),
        },
        pos + 8 <= data@.len() ==> r is Ok,
        forall|v: i64|
            prefix_at(data@, pos as int, #[trigger] le_i64(v)) ==> r == Ok::<
                (i64, usize),
                SerializationError,
            >((v, (pos + 8) as usize)),
{
    let r = match read_u64(data, pos) {
        Ok((v, end)) => {
            assert(v as i64 as u64 == v) by (bit_vector);
            Ok((v as i64, end))
        },
        Err(e) => Err(e),
    };
    proof {
        assert forall|v: i64| prefix_at(data@, pos as int, #[trigger] le_i64(v)) implies r == Ok::<
            (i64, usize),
            SerializationError,
        >((v, (pos + 8) as usize)) by {
            let u = v as u64;
            assert(le_i64(v) == le_u64(u));
            assert(u as i64 == v) by (bit_vector)
                requires u == v as u64;
        }
    }
    r
}

/// Reads `N` bytes into an array.
pub fn read_array<const N: usize>(data: &[u8], pos: usize) -> (r: Result<([u8; N], usize), SerializationError>)
    ensures
        match r {
            Ok((a, end)) => end == pos + N && prefix_at(data@, pos as int, a@),
            Err(e) => e == SerializationError::Truncated && pos + N > data@.len(),
        },
        pos + N <= data@.len() ==> r is Ok,
        forall|b: [u8; N]|
            prefix_at(data@, pos as int, #[trigger] b@) ==> r == Ok::<
                ([u8; N], usize),
                SerializationError,
            >((b, (pos + N) as usize)),
{
    if pos > data.len() || data.len() - pos < N {
        return Err(SerializationError::Truncated);
    }
    let mut a = [0u8; N];
    let mut i: usize = 0;
    while i < N
        invariant
            i <= N,
            pos + N <= data.len(),
            a@.len() == N,
            forall|j: int| 0 <= j < i ==> a@[j] == data@[pos + j],
        decreases N - i,
    {
        a[i] = data[pos + i];
        i = i + 1;
    }
    assert(data@.subrange(pos as int, pos + N) =~= a@);
    proof {
        assert forall|b: [u8; N]| prefix_at(data@, pos as int, #[trigger] b@) implies b == a by {
            assert(b@ =~= a@);
            assert(b =~= a);
        }
    }
    Ok((a, pos + N))
}

/// Reads a compact-size integer, rejecting any encoding longer than the
/// minimal one.
pub fn read_compactsize(data: &[u8], pos: usize) -> (r: Result<(u64, usize), SerializationError>)
    ensures
        match r {
            Ok((n, end)) => end == pos + compact_size(n).len() && prefix_at(
                data@,
                pos as int,
                compact_size(n),
            ),
            Err(e) => {
                &&& e == SerializationError::Truncated || e == SerializationError::Parse
                &&& (e == SerializationError::Truncated <==> (pos >= data@.len() || pos
                    + compact_size_len(data@[pos as int]) > data@.len()))
            },
        },
        forall|n: u64|
            prefix_at(data@, pos as int, #[trigger] compact_size(n)) ==> r == Ok::<
                (u64, usize),
                SerializationError,
            >((n, (pos + compact_size(n).len()) as usize)),
{
    proof {
        lemma_auto_spec_u16_to_from_le_bytes();
        lemma_auto_spec_u32_to_from_le_bytes();
        lemma_auto_spec_u64_to_from_le_bytes();
    }
    if pos >= data.len() {
        proof {
            assert forall|n: u64| !prefix_at(data@, pos as int, #[trigger] compact_size(n)) by {
                lemma_compact_size_len(n);
            }
        }
        return Err(SerializationError::Truncated);
    }
    let tag = data[pos];
    let len: usize = if tag < 0xFD {
        1
    } else if tag == 0xFD {
        3
    } else if tag == 0xFE {
        5
    } else {
        9
    };
    if data.len() - pos < len {
        proof {
            assert forall|n: u64| !prefix_at(data@, pos as int, #[trigger] compact_size(n)) by {
                lemma_compact_size_len(n);
                if prefix_at(data@, pos as int, compact_size(n)) {
                    assert(data@.subrange(pos as int, pos + compact_size(n).len())[0] == data@[pos as int]);
                }
            }
        }
        return Err(SerializationError::Truncated);
    }
    let s = vstd::slice::slice_subrange(data, pos + 1, pos + len);
    let r: Result<(u64, usize), SerializationError> = if tag < 0xFD {
        Ok((tag as u64, pos + 1))
    } else if tag == 0xFD {
        let v = u16_from_le_bytes(s);
        if v < 0xFD { Err(SerializationError::Parse) } else { Ok((v as u64, pos + 3)) }
    } else if tag == 0xFE {
        let v = u32_from_le_bytes(s);
        if v <= 0xFFFF { Err(SerializationError::Parse) } else { Ok((v as u64, pos + 5)) }
    } else {
        let v = u64_from_le_bytes(s);
        if v <= 0xFFFF_FFFF { Err(SerializationError::Parse) } else { Ok((v, pos + 9)) }
    };
    proof {
        let whole = data@.subrange(pos as int, pos + len);
        assert(whole =~= seq![tag] + s@);
        if let Ok((n, end)) = r {
            lemma_compact_size_len(n);
            assert(data@.subrange(pos as int, end as int) =~= compact_size(n));
        }
        assert forall|n: u64| prefix_at(data@, pos as int, #[trigger] compact_size(n)) implies r
            == Ok::<(u64, usize), SerializationError>((n, (pos + compact_size(n).len()) as usize)) by {
            lemma_compact_size_len(n);
            let e = compact_size(n);
            assert(e[0] == data@[pos as int]);
            assert(e.len() == len);
            assert(whole == e);
            assert(s@ =~= e.subrange(1, e.len() as int));
            if n >= 0xFD && n <= 0xFFFF {
                assert(e.subrange(1, 3) =~= spec_u16_to_le_bytes(n as u16));
            } else if n > 0xFFFF && n <= 0xFFFF_FFFF {
                assert(e.subrange(1, 5) =~= spec_u32_to_le_bytes(n as u32));
            } else if n > 0xFFFF_FFFF {
                assert(e.subrange(1, 9) =~= spec_u64_to_le_bytes(n));
            }
        }
    }
    r
}

/// Reads a byte string prefixed by its compact-size length.
pub fn read_var_bytes(data: &[u8], pos: usize) -> (r: Result<(Vec<u8>, usize), SerializationError>)
    ensures
        match r {
            Ok((b, end)) => b@.len() <= u64::MAX && end == pos + var_bytes(b@).len() && prefix_at(
                data@,
                pos as int,
                var_bytes(b@),
            ),
            Err(_) => true,
        },
        forall|b: Seq<u8>|
            b.len() <= u64::MAX && prefix_at(data@, pos as int, #[trigger] var_bytes(b)) ==> r is Ok
                && r->Ok_0.0@ == b,
{
    match read_compactsize(data, pos) {
        Err(e) => {
            proof {
                assert forall|b: Seq<u8>|
                    b.len() <= u64::MAX && prefix_at(data@, pos as int, #[trigger] var_bytes(b))
                        implies false by {
                    assert(data@.subrange(pos as int, pos + compact_size(b.len() as u64).len())
                        =~= compact_size(b.len() as u64));
                }
            }
            Err(e)
        },
        Ok((n, p)) => {
            if p > data.len() || ((data.len() - p) as u64) < n {
                proof {
                    assert forall|b: Seq<u8>|
                        b.len() <= u64::MAX && prefix_at(data@, pos as int, #[trigger] var_bytes(b))
                            implies false by {
                        assert(data@.subrange(pos as int, pos + compact_size(b.len() as u64).len())
                            =~= compact_size(b.len() as u64));
                    }
                }
                return Err(SerializationError::Truncated);
            }
            let end = p + n as usize;
            let s = vstd::slice::slice_subrange(data, p, end);
            let b = vstd::slice::slice_to_vec(s);
            proof {
                assert(data@.subrange(pos as int, end as int) =~= var_bytes(b@));
                assert forall|c: Seq<u8>|
                    c.len() <= u64::MAX && prefix_at(data@, pos as int, #[trigger] var_bytes(c))
                        implies b@ == c by {
                    let cs = compact_size(c.len() as u64);
                    assert(data@.subrange(pos as int, pos + cs.len()) =~= cs);
                    assert(prefix_at(data@, pos as int, cs));
                    assert(n == c.len());
                    assert(p == pos + cs.len());
                    let whole = data@.subrange(pos as int, pos + var_bytes(c).len());
                    assert(whole.subrange(cs.len() as int, whole.len() as int) =~= c);
                    assert(c =~= data@.subrange(p as int, end as int));
                }
            }
            Ok((b, end))
        },
    }
}

} // verus!
