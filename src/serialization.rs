//! The serialization contract shared by every consensus structure, and the
//! length-prefixed vectors built on it.
use vstd::prelude::*;

use crate::digests::{concat_map, lemma_concat_map_step, lemma_concat_map_take};
use crate::codec::{
    SerializationError, compact_size, prefix_at, read_compactsize, write_compactsize,
};

verus! {

/// A structure with a canonical byte encoding.
pub trait ZcashSerialize: Sized {
    /// Whether the value is a valid instance of its type.
    spec fn wf(&self) -> bool;

    /// The canonical encoding of the value.
    spec fn encoding(&self) -> Seq<u8>;

    /// Appends the canonical encoding.
    fn zcash_serialize(&self, out: &mut Vec<u8>)
        requires
            self.wf(),
        ensures
            final(out)@ == old(out)@ + self.encoding(),
    ;
}

/// A structure that can be read back from its canonical encoding.
///
/// A successful read returns a valid value whose encoding is exactly the
/// bytes consumed; and wherever the encoding of a valid value stands, the
/// read succeeds, consumes exactly that encoding and returns a value with the
/// same encoding, that is, with the same contents field by field.
pub trait ZcashDeserialize: ZcashSerialize {
    /// Reads a value at `pos`, returning it with the position just past it.
    fn zcash_deserialize(data: &[u8], pos: usize) -> (r: Result<(Self, usize), SerializationError>)
        ensures
            match r {
                Ok((x, end)) => x.wf() && end == pos + x.encoding().len() && prefix_at(
                    data@,
                    pos as int,
                    x.encoding(),
                ),
                Err(_) => true,
            },
            forall|x: Self|
                x.wf() && prefix_at(data@, pos as int, #[trigger] x.encoding()) ==> (r matches Ok(
                    (y, end),
                ) && y.encoding() == x.encoding() && end == pos + x.encoding().len()),
    ;
}

/// A bound on how many elements of a type a vector read from a peer can
/// hold: no more than fit in one maximally sized block.
pub trait TrustedPreallocate {
    /// The bound.
    spec fn spec_max_allocation() -> nat;

    /// The bound, computed.
    fn max_allocation() -> (r: u64)
        ensures
            r == Self::spec_max_allocation(),
    ;
}

/// The encodings of the elements, concatenated in order.
pub open spec fn seq_encoding<T: ZcashSerialize>(s: Seq<T>) -> Seq<u8>
    decreases s.len(),
{
    if s.len() == 0 {
        seq![]
    } else {
        seq_encoding(s.drop_last()) + s.last().encoding()
    }
}

/// The encoding of a vector: its compact-size length, then its elements.
pub open spec fn vec_encoding<T: ZcashSerialize>(s: Seq<T>) -> Seq<u8> {
    compact_size(s.len() as u64) + seq_encoding(s)
}

/// A valid vector: valid elements, no more than the preallocation bound.
pub open spec fn vec_wf<T: ZcashSerialize + TrustedPreallocate>(s: Seq<T>) -> bool {
    &&& s.len() <= T::spec_max_allocation()
    &&& s.len() <= u64::MAX
    &&& forall|i: int| 0 <= i < s.len() ==> (#[trigger] s[i]).wf()
}

/// The encoding of a prefix of a sequence is a prefix of its encoding.
pub proof fn lemma_seq_encoding_take<T: ZcashSerialize>(s: Seq<T>, j: int)
    requires
        0 <= j <= s.len(),
    ensures
        seq_encoding(s.take(j)).len() <= seq_encoding(s).len(),
        seq_encoding(s).subrange(0, seq_encoding(s.take(j)).len() as int) == seq_encoding(
            s.take(j),
        ),
    decreases s.len(),
{
    if j == s.len() {
        assert(s.take(j) =~= s);
    } else {
        lemma_seq_encoding_take(s.drop_last(), j);
        assert(s.drop_last().take(j) =~= s.take(j));
        let a = seq_encoding(s.drop_last());
        let p = seq_encoding(s.take(j));
        assert((a + s.last().encoding()).subrange(0, p.len() as int) =~= a.subrange(
            0,
            p.len() as int,
        ));
    }
}

/// One more element extends the encoding by that element's encoding.
pub proof fn lemma_seq_encoding_step<T: ZcashSerialize>(s: Seq<T>, i: int)
    requires
        0 <= i < s.len(),
    ensures
        seq_encoding(s.take(i + 1)) == seq_encoding(s.take(i)) + s[i].encoding(),
{
    assert(s.take(i + 1).drop_last() =~= s.take(i));
}

/// A part of what stands at a position stands there too.
pub proof fn lemma_prefix_at_split(data: Seq<u8>, pos: int, a: Seq<u8>, b: Seq<u8>)
    requires
        prefix_at(data, pos, a + b),
    ensures
        prefix_at(data, pos, a),
        prefix_at(data, pos + a.len(), b),
{
    let whole = data.subrange(pos, pos + a.len() + b.len());
    assert(whole == a + b);
    assert(data.subrange(pos, pos + a.len()) =~= whole.subrange(0, a.len() as int));
    assert(whole.subrange(0, a.len() as int) =~= a);
    assert(data.subrange(pos + a.len(), pos + a.len() + b.len()) =~= whole.subrange(
        a.len() as int,
        whole.len() as int,
    ));
    assert(whole.subrange(a.len() as int, whole.len() as int) =~= b);
}

/// A prefix of what stands at a position stands there too.
pub proof fn lemma_prefix_at_prefix(data: Seq<u8>, pos: int, a: Seq<u8>, k: int)
    requires
        prefix_at(data, pos, a),
        0 <= k <= a.len(),
    ensures
        prefix_at(data, pos, a.subrange(0, k)),
{
    assert(data.subrange(pos, pos + k) =~= data.subrange(pos, pos + a.len()).subrange(0, k));
}

/// Two pieces standing side by side make their concatenation.
pub proof fn lemma_prefix_at_join(data: Seq<u8>, pos: int, a: Seq<u8>, b: Seq<u8>)
    requires
        prefix_at(data, pos, a),
        prefix_at(data, pos + a.len(), b),
    ensures
        prefix_at(data, pos, a + b),
{
    assert(data.subrange(pos, pos + a.len() + b.len()) =~= data.subrange(pos, pos + a.len())
        + data.subrange(pos + a.len(), pos + a.len() + b.len()));
}

/// Where the bytes of a sequence stand, the bytes of each element stand after
/// those of the elements before it.
pub proof fn lemma_prefix_at_element<A>(
    data: Seq<u8>,
    pos: int,
    s: Seq<A>,
    f: spec_fn(A) -> Seq<u8>,
    i: int,
)
    requires
        prefix_at(data, pos, concat_map(s, f)),
        0 <= i < s.len(),
    ensures
        prefix_at(data, pos + concat_map(s.take(i), f).len(), f(s[i])),
{
    lemma_concat_map_take(s, f, i + 1);
    lemma_concat_map_step(s, f, i);
    let p = concat_map(s.take(i + 1), f);
    lemma_prefix_at_prefix(data, pos, concat_map(s, f), p.len() as int);
    lemma_prefix_at_split(data, pos, concat_map(s.take(i), f), f(s[i]));
}

/// Sequences whose elements have the same encodings, one by one, have the
/// same encoding.
pub proof fn lemma_seq_encoding_pointwise<T: ZcashSerialize, U: ZcashSerialize>(s: Seq<T>, t: Seq<U>)
    requires
        s.len() == t.len(),
        forall|j: int| 0 <= j < s.len() ==> (#[trigger] s[j]).encoding() == t[j].encoding(),
    ensures
        seq_encoding(s) == seq_encoding(t),
    decreases s.len(),
{
    if s.len() > 0 {
        assert forall|j: int| 0 <= j < s.drop_last().len() implies (#[trigger] s.drop_last()[j]).encoding()
            == t.drop_last()[j].encoding() by {
            assert(s.drop_last()[j] == s[j]);
            assert(t.drop_last()[j] == t[j]);
        }
        lemma_seq_encoding_pointwise(s.drop_last(), t.drop_last());
        assert(s.last().encoding() == t.last().encoding());
    }
}

/// Appends the compact-size length and the encodings of the elements.
pub fn write_vec<T: ZcashSerialize>(out: &mut Vec<u8>, v: &[T])
    requires
        forall|i: int| 0 <= i < v@.len() ==> (#[trigger] v@[i]).wf(),
    ensures
        final(out)@ == old(out)@ + vec_encoding(v@),
{
    write_compactsize(out, v.len() as u64);
    let ghost start = out@;
    let mut i: usize = 0;
    while i < v.len()
        invariant
            i <= v@.len(),
            forall|k: int| 0 <= k < v@.len() ==> (#[trigger] v@[k]).wf(),
            out@ == start + seq_encoding(v@.take(i as int)),
        decreases v@.len() - i,
    {
        proof {
            lemma_seq_encoding_step(v@, i as int);
        }
        v[i].zcash_serialize(out);
        assert(out@ =~= start + seq_encoding(v@.take(i + 1)));
        i = i + 1;
    }
    assert(v@.take(v@.len() as int) =~= v@);
    assert(final(out)@ =~= old(out)@ + vec_encoding(v@));
}

/// Reads a vector: a compact-size count, then that many elements.
///
/// A count above the element type's preallocation bound is refused before
/// anything is allocated, and the buffer is never sized beyond that bound.
pub fn read_vec<T: ZcashDeserialize + TrustedPreallocate>(data: &[u8], pos: usize) -> (r: Result<
    (Vec<T>, usize),
    SerializationError,
>)
    ensures
        match r {
            Ok((v, end)) => vec_wf(v@) && end == pos + vec_encoding(v@).len() && prefix_at(
                data@,
                pos as int,
                vec_encoding(v@),
            ),
            Err(_) => true,
        },
        forall|s: Seq<T>|
            vec_wf(s) && prefix_at(data@, pos as int, #[trigger] vec_encoding(s)) ==> (r matches Ok(
                (v, end),
            ) && v@.len() == s.len() && seq_encoding(v@) == seq_encoding(s) && end == pos
                + vec_encoding(s).len()),
        forall|n: u64|
            prefix_at(data@, pos as int, #[trigger] compact_size(n)) && n > T::spec_max_allocation()
                ==> r == Err::<(Vec<T>, usize), SerializationError>(
                SerializationError::PreallocationExceeded,
            ),
{
    let (n, start) = match read_compactsize(data, pos) {
        Ok(x) => x,
        Err(e) => {
            proof {
                assert forall|s: Seq<T>|
                    vec_wf(s) && prefix_at(data@, pos as int, #[trigger] vec_encoding(s))
                        implies false by {
                    lemma_prefix_at_split(data@, pos as int, compact_size(s.len() as u64), seq_encoding(s));
                }
            }
            return Err(e);
        },
    };
    let ghost cs = compact_size(n);
    proof {
        assert forall|s: Seq<T>|
            vec_wf(s) && prefix_at(data@, pos as int, #[trigger] vec_encoding(s)) implies s.len() == n by {
            lemma_prefix_at_split(data@, pos as int, compact_size(s.len() as u64), seq_encoding(s));
        }
    }
    let max = T::max_allocation();
    if n > max {
        return Err(SerializationError::PreallocationExceeded);
    }
    let mut v: Vec<T> = Vec::with_capacity(#[verifier::truncate] (n as usize));
    let mut cur = start;
    let mut i: u64 = 0;
    assert(seq_encoding(v@) =~= Seq::<u8>::empty());
    assert(cs + seq_encoding(v@) =~= cs);
    while i < n
        invariant
            i <= n,
            n <= max,
            max == T::spec_max_allocation(),
            cs == compact_size(n),
            forall|m: u64| prefix_at(data@, pos as int, #[trigger] compact_size(m)) ==> m == n,
            v@.len() == i,
            forall|k: int| 0 <= k < v@.len() ==> (#[trigger] v@[k]).wf(),
            cur == pos + cs.len() + seq_encoding(v@).len(),
            prefix_at(data@, pos as int, cs + seq_encoding(v@)),
            forall|s: Seq<T>|
                vec_wf(s) && prefix_at(data@, pos as int, #[trigger] vec_encoding(s)) ==> s.len()
                    == n && seq_encoding(v@) == seq_encoding(s.take(i as int)),
        decreases n - i,
    {
        let ghost old_v = v@;
        proof {
            assert forall|s: Seq<T>|
                vec_wf(s) && prefix_at(data@, pos as int, #[trigger] vec_encoding(s)) implies prefix_at(
                data@,
                cur as int,
                s[i as int].encoding(),
            ) by {
                lemma_seq_encoding_take(s, i + 1);
                lemma_seq_encoding_step(s, i as int);
                let p = seq_encoding(s.take(i + 1));
                lemma_prefix_at_prefix(data@, pos as int, vec_encoding(s), (cs.len() + p.len()) as int);
                assert(vec_encoding(s).subrange(0, (cs.len() + p.len()) as int) =~= cs + p);
                assert(cs + p =~= (cs + seq_encoding(s.take(i as int))) + s[i as int].encoding());
                lemma_prefix_at_split(
                    data@,
                    pos as int,
                    cs + seq_encoding(s.take(i as int)),
                    s[i as int].encoding(),
                );
            }
        }
        let (x, next) = match T::zcash_deserialize(data, cur) {
            Ok(x) => x,
            Err(e) => {
                proof {
                    assert forall|s: Seq<T>|
                        vec_wf(s) && prefix_at(data@, pos as int, #[trigger] vec_encoding(s))
                            implies false by {
                        assert(s[i as int].wf());
                        assert(prefix_at(data@, cur as int, s[i as int].encoding()));
                    }
                }
                return Err(e);
            },
        };
        v.push(x);
        proof {
            assert(v@.drop_last() =~= old_v);
            lemma_prefix_at_join(data@, pos as int, cs + seq_encoding(old_v), x.encoding());
            assert(cs + seq_encoding(v@) =~= cs + seq_encoding(old_v) + x.encoding());
            assert forall|s: Seq<T>|
                vec_wf(s) && prefix_at(data@, pos as int, #[trigger] vec_encoding(s)) implies seq_encoding(v@)
                == seq_encoding(s.take(i + 1)) by {
                assert(s[i as int].wf());
                assert(prefix_at(data@, cur as int, s[i as int].encoding()));
                assert(x.encoding() == s[i as int].encoding());
                lemma_seq_encoding_step(s, i as int);
            }
        }
        cur = next;
        i = i + 1;
    }
    proof {
        assert forall|s: Seq<T>|
            vec_wf(s) && prefix_at(data@, pos as int, #[trigger] vec_encoding(s)) implies seq_encoding(v@)
            == seq_encoding(s) by {
            assert(s.take(n as int) =~= s);
        }
    }
    Ok((v, cur))
}

impl<const N: usize> ZcashSerialize for [u8; N] {
    open spec fn wf(&self) -> bool {
        true
    }

    open spec fn encoding(&self) -> Seq<u8> {
        self@
    }

    fn zcash_serialize(&self, out: &mut Vec<u8>) {
        crate::hasher::append_bytes(out, self.as_slice());
    }
}

impl<const N: usize> ZcashDeserialize for [u8; N] {
    fn zcash_deserialize(data: &[u8], pos: usize) -> (r: Result<(Self, usize), SerializationError>) {
        crate::codec::read_array::<N>(data, pos)
    }
}

/// Appends the encodings of the elements, without a count.
pub fn write_items<T: ZcashSerialize>(out: &mut Vec<u8>, v: &[T])
    requires
        forall|i: int| 0 <= i < v@.len() ==> (#[trigger] v@[i]).wf(),
    ensures
        final(out)@ == old(out)@ + seq_encoding(v@),
{
    let ghost start = out@;
    let mut i: usize = 0;
    assert(seq_encoding(v@.take(0)) =~= Seq::<u8>::empty());
    assert(out@ =~= start + seq_encoding(v@.take(0)));
    while i < v.len()
        invariant
            i <= v@.len(),
            forall|k: int| 0 <= k < v@.len() ==> (#[trigger] v@[k]).wf(),
            out@ == start + seq_encoding(v@.take(i as int)),
        decreases v@.len() - i,
    {
        proof {
            lemma_seq_encoding_step(v@, i as int);
        }
        v[i].zcash_serialize(out);
        assert(out@ =~= start + seq_encoding(v@.take(i + 1)));
        i = i + 1;
    }
    assert(v@.take(v@.len() as int) =~= v@);
}

/// Reads `n` elements, without a count.
pub fn read_items<T: ZcashDeserialize>(data: &[u8], start: usize, n: u64) -> (r: Result<
    (Vec<T>, usize),
    SerializationError,
>)
    ensures
        match r {
            Ok((v, end)) => {
                &&& v@.len() == n
                &&& forall|j: int| 0 <= j < n ==> (#[trigger] v@[j]).wf()
                &&& end == start + seq_encoding(v@).len()
                &&& prefix_at(data@, start as int, seq_encoding(v@))
            },
            Err(_) => true,
        },
        forall|s: Seq<T>|
            s.len() == n && (forall|j: int| 0 <= j < n ==> (#[trigger] s[j]).wf()) && prefix_at(
                data@,
                start as int,
                #[trigger] seq_encoding(s),
            ) ==> (r matches Ok((v, end)) && forall|j: int|
                0 <= j < n ==> (#[trigger] v@[j]).encoding() == s[j].encoding()),
{
    let mut v: Vec<T> = Vec::new();
    if start > data.len() {
        return Err(SerializationError::Truncated);
    }
    let mut cur = start;
    let mut i: u64 = 0;
    assert(seq_encoding(v@) =~= Seq::<u8>::empty());
    assert(data@.subrange(start as int, start as int) =~= Seq::<u8>::empty());
    while i < n
        invariant
            i <= n,
            v@.len() == i,
            forall|k: int| 0 <= k < i ==> (#[trigger] v@[k]).wf(),
            cur == start + seq_encoding(v@).len(),
            prefix_at(data@, start as int, seq_encoding(v@)),
            forall|s: Seq<T>|
                s.len() == n && (forall|j: int| 0 <= j < n ==> (#[trigger] s[j]).wf()) && prefix_at(
                    data@,
                    start as int,
                    #[trigger] seq_encoding(s),
                ) ==> seq_encoding(v@) == seq_encoding(s.take(i as int)) && forall|j: int|
                    0 <= j < i ==> (#[trigger] v@[j]).encoding() == s[j].encoding(),
        decreases n - i,
    {
        let ghost old_v = v@;
        proof {
            assert forall|s: Seq<T>|
                s.len() == n && (forall|j: int| 0 <= j < n ==> (#[trigger] s[j]).wf()) && prefix_at(
                    data@,
                    start as int,
                    #[trigger] seq_encoding(s),
                ) implies prefix_at(data@, cur as int, s[i as int].encoding()) by {
                lemma_seq_encoding_take(s, i + 1);
                lemma_seq_encoding_step(s, i as int);
                let p = seq_encoding(s.take(i + 1));
                lemma_prefix_at_prefix(data@, start as int, seq_encoding(s), p.len() as int);
                lemma_prefix_at_split(data@, start as int, seq_encoding(s.take(i as int)), s[i as int].encoding());
            }
        }
        let (x, next) = match T::zcash_deserialize(data, cur) {
            Ok(x) => x,
            Err(e) => {
                proof {
                    assert forall|s: Seq<T>|
                        s.len() == n && (forall|j: int| 0 <= j < n ==> (#[trigger] s[j]).wf())
                            && prefix_at(data@, start as int, #[trigger] seq_encoding(s)) implies false by {
                        assert(s[i as int].wf());
                        assert(prefix_at(data@, cur as int, s[i as int].encoding()));
                    }
                }
                return Err(e);
            },
        };
        v.push(x);
        proof {
            assert(v@.drop_last() =~= old_v);
            lemma_prefix_at_join(data@, start as int, seq_encoding(old_v), x.encoding());
            assert forall|s: Seq<T>|
                s.len() == n && (forall|j: int| 0 <= j < n ==> (#[trigger] s[j]).wf()) && prefix_at(
                    data@,
                    start as int,
                    #[trigger] seq_encoding(s),
                ) implies seq_encoding(v@) == seq_encoding(s.take(i + 1)) && forall|j: int|
                0 <= j < i + 1 ==> (#[trigger] v@[j]).encoding() == s[j].encoding() by {
                assert(s[i as int].wf());
                assert(prefix_at(data@, cur as int, s[i as int].encoding()));
                lemma_seq_encoding_step(s, i as int);
            }
        }
        cur = next;
        i = i + 1;
    }
    Ok((v, cur))
}

} // verus!
