//! Laws of the wire format: what was written is read back, and a buffer that
//! stops too early is reported as such.
use vstd::prelude::*;
use crate::error::DecodeError;
use crate::wire::{
    array_at, bool_at, bool_bytes, bytes_at, elements_at, elements_bytes,
    encoded_at, in_bounds, option_u64_at, option_u64_bytes, prefixed_bytes, prefixed_seq, seq_at,
    u16_at, u16_bytes, u32_at, u32_bytes, u64_at, u64_bytes, u8_at, u8_bytes, Decoded, WireElement,
};

verus! {

/// Bytes that stand at a position are made of the bytes of their two parts, one behind the other.
pub proof fn lemma_encoded_split(s: Seq<u8>, pos: int, a: Seq<u8>, b: Seq<u8>)
    requires
        encoded_at(s, pos, a + b),
    ensures
        encoded_at(s, pos, a),
        encoded_at(s, pos + a.len(), b),
{
    let e = a + b;
    let whole = s.subrange(pos, pos + e.len());
    assert forall|i: int| 0 <= i < a.len() implies s[pos + i] == a[i] by {
        assert(whole[i] == e[i]);
    }
    assert forall|i: int| 0 <= i < b.len() implies s[pos + a.len() + i] == b[i] by {
        assert(whole[a.len() + i] == e[a.len() + i]);
    }
    assert(s.subrange(pos, pos + a.len()) =~= a);
    assert(s.subrange(pos + a.len(), pos + a.len() + b.len()) =~= b);
}

/// A buffer stands at its own start.
pub proof fn lemma_encoded_whole(e: Seq<u8>)
    ensures
        encoded_at(e, 0, e),
{
    assert(e.subrange(0, e.len() as int) =~= e);
}

/// A byte is read back.
pub proof fn lemma_u8_roundtrip(s: Seq<u8>, pos: int, x: u8)
    requires
        encoded_at(s, pos, u8_bytes(x)),
    ensures
        u8_at(s, pos) == Ok::<(u8, int), DecodeError>((x, pos + 1)),
{
    assert(s[pos] == s.subrange(pos, pos + 1)[0]);
}

/// A 16-bit integer is read back from its bytes.
pub proof fn lemma_u16_roundtrip(s: Seq<u8>, pos: int, x: u16)
    requires
        encoded_at(s, pos, u16_bytes(x)),
    ensures
        u16_at(s, pos) == Ok::<(u16, int), DecodeError>((x, pos + 2)),
{
    assert(s[pos] == s.subrange(pos, pos + 2)[0]);
    assert(s[pos + 1] == s.subrange(pos, pos + 2)[1]);
}

/// A 32-bit integer is read back from its bytes.
pub proof fn lemma_u32_roundtrip(s: Seq<u8>, pos: int, x: u32)
    requires
        encoded_at(s, pos, u32_bytes(x)),
    ensures
        u32_at(s, pos) == Ok::<(u32, int), DecodeError>((x, pos + 4)),
{
    let hi = (x / 65536) as u16;
    let lo = (x % 65536) as u16;
    lemma_encoded_split(s, pos, u16_bytes(hi), u16_bytes(lo));
    lemma_u16_roundtrip(s, pos, hi);
    lemma_u16_roundtrip(s, pos + 2, lo);
}

/// A 64-bit integer is read back from its bytes.
pub proof fn lemma_u64_roundtrip(s: Seq<u8>, pos: int, x: u64)
    requires
        encoded_at(s, pos, u64_bytes(x)),
    ensures
        u64_at(s, pos) == Ok::<(u64, int), DecodeError>((x, pos + 8)),
{
    let hi = (x / 4294967296) as u32;
    let lo = (x % 4294967296) as u32;
    lemma_encoded_split(s, pos, u32_bytes(hi), u32_bytes(lo));
    lemma_u32_roundtrip(s, pos, hi);
    lemma_u32_roundtrip(s, pos + 4, lo);
}

/// A flag is read back from its byte.
pub proof fn lemma_bool_roundtrip(s: Seq<u8>, pos: int, b: bool)
    requires
        encoded_at(s, pos, bool_bytes(b)),
    ensures
        bool_at(s, pos) == Ok::<(bool, int), DecodeError>((b, pos + 1)),
{
    assert(s[pos] == s.subrange(pos, pos + 1)[0]);
}

/// An optional 64-bit integer is read back from its bytes.
pub proof fn lemma_option_u64_roundtrip(s: Seq<u8>, pos: int, v: Option<u64>)
    requires
        encoded_at(s, pos, option_u64_bytes(v)),
    ensures
        option_u64_at(s, pos) == Ok::<(Option<u64>, int), DecodeError>(
            (v, pos + option_u64_bytes(v).len()),
        ),
{
    match v {
        None => {
            lemma_bool_roundtrip(s, pos, false);
        },
        Some(x) => {
            lemma_encoded_split(s, pos, bool_bytes(true), u64_bytes(x));
            lemma_bool_roundtrip(s, pos, true);
            lemma_u64_roundtrip(s, pos + 1, x);
        },
    }
}

/// Bytes of a fixed number are read back.
pub proof fn lemma_array_roundtrip(s: Seq<u8>, pos: int, a: Seq<u8>)
    requires
        encoded_at(s, pos, a),
    ensures
        array_at(s, pos, a.len() as int) == Ok::<(Seq<u8>, int), DecodeError>((a, pos + a.len())),
{
}

/// A byte string is read back behind its count.
pub proof fn lemma_bytes_roundtrip(s: Seq<u8>, pos: int, b: Seq<u8>)
    requires
        b.len() <= u64::MAX,
        encoded_at(s, pos, prefixed_bytes(b)),
    ensures
        bytes_at(s, pos) == Ok::<(Seq<u8>, int), DecodeError>((b, pos + 8 + b.len())),
{
    lemma_encoded_split(s, pos, u64_bytes(b.len() as u64), b);
    lemma_u64_roundtrip(s, pos, b.len() as u64);
}

/// The values of a sequence are read back one after the other.
pub proof fn lemma_elements_roundtrip<T: WireElement>(s: Seq<u8>, pos: int, vs: Seq<T::V>)
    requires
        forall|i: int| 0 <= i < vs.len() ==> T::well_formed(#[trigger] vs[i]),
        encoded_at(s, pos, elements_bytes::<T>(vs)),
    ensures
        elements_at::<T>(s, pos, vs.len()) == Ok::<(Seq<T::V>, int), DecodeError>(
            (vs, pos + elements_bytes::<T>(vs).len()),
        ),
        vs.len() <= elements_bytes::<T>(vs).len(),
    decreases vs.len(),
{
    if vs.len() == 0 {
        assert(vs =~= Seq::<T::V>::empty());
    } else {
        let front = vs.drop_last();
        assert(front.len() == vs.len() - 1);
        assert forall|i: int| 0 <= i < front.len() implies T::well_formed(#[trigger] front[i]) by {
            assert(front[i] == vs[i]);
        }
        lemma_encoded_split(s, pos, elements_bytes::<T>(front), T::encoding(vs.last()));
        lemma_elements_roundtrip::<T>(s, pos, front);
        T::lemma_decode_encoding(s, pos + elements_bytes::<T>(front).len(), vs.last());
        T::lemma_encoding_nonempty(vs.last());
        assert(front.push(vs.last()) =~= vs);
        assert(elements_at::<T>(s, pos, (vs.len() - 1) as nat) == Ok::<(Seq<T::V>, int), DecodeError>(
            (front, pos + elements_bytes::<T>(front).len()),
        ));
    }
}

/// A sequence is read back behind its count.
pub proof fn lemma_seq_roundtrip<T: WireElement>(s: Seq<u8>, pos: int, vs: Seq<T::V>)
    requires
        vs.len() <= u64::MAX,
        forall|i: int| 0 <= i < vs.len() ==> T::well_formed(#[trigger] vs[i]),
        encoded_at(s, pos, prefixed_seq::<T>(vs)),
    ensures
        seq_at::<T>(s, pos) == Ok::<(Seq<T::V>, int), DecodeError>(
            (vs, pos + prefixed_seq::<T>(vs).len()),
        ),
{
    lemma_encoded_split(s, pos, u64_bytes(vs.len() as u64), elements_bytes::<T>(vs));
    lemma_u64_roundtrip(s, pos, vs.len() as u64);
    lemma_elements_roundtrip::<T>(s, pos + 8, vs);
}

/// What a read yields on the first `k` bytes of a buffer on which it succeeds: the same
/// where the value lies within them, and the end of the data where it does not.
pub open spec fn truncates_well<T>(whole: Decoded<T>, cut: Decoded<T>, k: int) -> bool {
    whole matches Ok((_, end)) ==> if end <= k {
        cut == whole
    } else {
        cut matches Err(e) && e.is_truncation()
    }
}

/// A byte is read from a prefix of the buffer as far as it reaches.
pub proof fn lemma_u8_truncated(s: Seq<u8>, pos: int, k: int)
    requires
        0 <= k <= s.len(),
    ensures
        truncates_well(u8_at(s, pos), u8_at(s.take(k), pos), k),
{
}

/// A 16-bit integer is read from a prefix of the buffer as far as it reaches.
pub proof fn lemma_u16_truncated(s: Seq<u8>, pos: int, k: int)
    requires
        0 <= k <= s.len(),
    ensures
        truncates_well(u16_at(s, pos), u16_at(s.take(k), pos), k),
{
}

/// A 32-bit integer is read from a prefix of the buffer as far as it reaches.
pub proof fn lemma_u32_truncated(s: Seq<u8>, pos: int, k: int)
    requires
        0 <= k <= s.len(),
    ensures
        truncates_well(u32_at(s, pos), u32_at(s.take(k), pos), k),
{
}

/// A 64-bit integer is read from a prefix of the buffer as far as it reaches.
pub proof fn lemma_u64_truncated(s: Seq<u8>, pos: int, k: int)
    requires
        0 <= k <= s.len(),
    ensures
        truncates_well(u64_at(s, pos), u64_at(s.take(k), pos), k),
{
}

/// A flag is read from a prefix of the buffer as far as it reaches.
pub proof fn lemma_bool_truncated(s: Seq<u8>, pos: int, k: int)
    requires
        0 <= k <= s.len(),
    ensures
        truncates_well(bool_at(s, pos), bool_at(s.take(k), pos), k),
{
}

/// An optional 64-bit integer is read from a prefix of the buffer as far as it reaches.
pub proof fn lemma_option_u64_truncated(s: Seq<u8>, pos: int, k: int)
    requires
        0 <= k <= s.len(),
    ensures
        truncates_well(option_u64_at(s, pos), option_u64_at(s.take(k), pos), k),
{
    lemma_bool_truncated(s, pos, k);
    lemma_u64_truncated(s, pos + 1, k);
}

/// Bytes of a fixed number are read from a prefix of the buffer as far as it reaches.
pub proof fn lemma_array_truncated(s: Seq<u8>, pos: int, n: int, k: int)
    requires
        0 <= k <= s.len(),
    ensures
        truncates_well(array_at(s, pos, n), array_at(s.take(k), pos, n), k),
{
    if in_bounds(s, pos, n) && pos + n <= k {
        assert(s.take(k).subrange(pos, pos + n) =~= s.subrange(pos, pos + n));
    }
}

/// A byte string is read from a prefix of the buffer as far as it reaches; where the
/// prefix holds its count and not all of its bytes, the length cannot be satisfied.
pub proof fn lemma_bytes_truncated(s: Seq<u8>, pos: int, k: int)
    requires
        0 <= k <= s.len(),
    ensures
        truncates_well(bytes_at(s, pos), bytes_at(s.take(k), pos), k),
{
    lemma_u64_truncated(s, pos, k);
    if let Ok((b, end)) = bytes_at(s, pos) {
        if end <= k {
            assert(s.take(k).subrange(pos + 8, end) =~= s.subrange(pos + 8, end));
        }
    }
}

/// The first values of a sequence are read from a prefix of the buffer as far as it reaches.
pub proof fn lemma_elements_truncated<T: WireElement>(s: Seq<u8>, pos: int, count: nat, k: int)
    requires
        0 <= pos <= k <= s.len(),
    ensures
        truncates_well(elements_at::<T>(s, pos, count), elements_at::<T>(s.take(k), pos, count), k),
        elements_at::<T>(s, pos, count) matches Ok((_, end)) ==> pos + count <= end <= s.len(),
    decreases count,
{
    if count > 0 {
        lemma_elements_truncated::<T>(s, pos, (count - 1) as nat, k);
        if let Ok((vs, p)) = elements_at::<T>(s, pos, (count - 1) as nat) {
            if T::decode_at(s, p) is Ok {
                T::lemma_decode_truncated(s, p, k);
            }
        }
    }
}

/// A sequence is read from a prefix of the buffer as far as it reaches.
pub proof fn lemma_seq_truncated<T: WireElement>(s: Seq<u8>, pos: int, k: int)
    requires
        0 <= pos,
        0 <= k <= s.len(),
    ensures
        truncates_well(seq_at::<T>(s, pos), seq_at::<T>(s.take(k), pos), k),
        seq_at::<T>(s, pos) matches Ok((_, end)) ==> pos <= end <= s.len(),
{
    lemma_u64_truncated(s, pos, k);
    if let Ok((n, p)) = u64_at(s, pos) {
        lemma_elements_truncated::<T>(s, p, n as nat, s.len() as int);
        if p <= k {
            lemma_elements_truncated::<T>(s, p, n as nat, k);
        }
    }
}

} // verus!
