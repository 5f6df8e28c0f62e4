//! Sequential reader and writer of the binary fields of a snapshot.
//!
//! Integers are big-endian. A byte string and a sequence are preceded by a
//! 64-bit count. The specification of each read is a function of the buffer
//! and the position at which the read starts; it yields the value and the
//! position behind it, or the error.
use vstd::prelude::*;
use crate::error::DecodeError;

verus! {

/// What a read at some position yields: the value and the position behind it.
pub type Decoded<T> = Result<(T, int), DecodeError>;

/// `n` bytes are available in `s` from position `pos` on.
pub open spec fn in_bounds(s: Seq<u8>, pos: int, n: int) -> bool {
    0 <= pos && 0 <= n && pos + n <= s.len()
}

/// Value of the two bytes at `pos`, most significant first.
pub open spec fn be16(s: Seq<u8>, pos: int) -> int {
    s[pos] * 256 + s[pos + 1]
}

/// Value of the four bytes at `pos`, most significant first.
pub open spec fn be32(s: Seq<u8>, pos: int) -> int {
    be16(s, pos) * 65536 + be16(s, pos + 2)
}

/// Value of the eight bytes at `pos`, most significant first.
pub open spec fn be64(s: Seq<u8>, pos: int) -> int {
    be32(s, pos) * 4294967296 + be32(s, pos + 4)
}

/// The byte at `pos`.
pub open spec fn u8_at(s: Seq<u8>, pos: int) -> Decoded<u8> {
    if in_bounds(s, pos, 1) {
        Ok((s[pos], pos + 1))
    } else {
        Err(DecodeError::UnexpectedEndOfData)
    }
}

/// The 16-bit integer at `pos`.
pub open spec fn u16_at(s: Seq<u8>, pos: int) -> Decoded<u16> {
    if in_bounds(s, pos, 2) {
        Ok((be16(s, pos) as u16, pos + 2))
    } else {
        Err(DecodeError::UnexpectedEndOfData)
    }
}

/// The 32-bit integer at `pos`.
pub open spec fn u32_at(s: Seq<u8>, pos: int) -> Decoded<u32> {
    if in_bounds(s, pos, 4) {
        Ok((be32(s, pos) as u32, pos + 4))
    } else {
        Err(DecodeError::UnexpectedEndOfData)
    }
}

/// The 64-bit integer at `pos`.
pub open spec fn u64_at(s: Seq<u8>, pos: int) -> Decoded<u64> {
    if in_bounds(s, pos, 8) {
        Ok((be64(s, pos) as u64, pos + 8))
    } else {
        Err(DecodeError::UnexpectedEndOfData)
    }
}

/// A flag: one byte, 0 for false and 1 for true.
pub open spec fn bool_at(s: Seq<u8>, pos: int) -> Decoded<bool> {
    if !in_bounds(s, pos, 1) {
        Err(DecodeError::UnexpectedEndOfData)
    } else if s[pos] == 0 {
        Ok((false, pos + 1))
    } else if s[pos] == 1 {
        Ok((true, pos + 1))
    } else {
        Err(DecodeError::InvalidValue)
    }
}

/// An optional 64-bit integer: a flag, and the integer where the flag is set.
pub open spec fn option_u64_at(s: Seq<u8>, pos: int) -> Decoded<Option<u64>> {
    match bool_at(s, pos) {
        Err(e) => Err(e),
        Ok((false, p)) => Ok((None, p)),
        Ok((true, p)) => match u64_at(s, p) {
            Err(e) => Err(e),
            Ok((v, q)) => Ok((Some(v), q)),
        },
    }
}

/// The `n` bytes at `pos`.
pub open spec fn array_at(s: Seq<u8>, pos: int, n: int) -> Decoded<Seq<u8>> {
    if in_bounds(s, pos, n) {
        Ok((s.subrange(pos, pos + n), pos + n))
    } else {
        Err(DecodeError::UnexpectedEndOfData)
    }
}

/// A byte string: a 64-bit count and that many bytes.
pub open spec fn bytes_at(s: Seq<u8>, pos: int) -> Decoded<Seq<u8>> {
    match u64_at(s, pos) {
        Err(e) => Err(e),
        Ok((n, p)) => if n <= s.len() - p {
            Ok((s.subrange(p, p + n), p + n))
        } else {
            Err(DecodeError::InvalidLength)
        },
    }
}

/// The bytes `e` stand in `s` at position `pos`.
pub open spec fn encoded_at(s: Seq<u8>, pos: int, e: Seq<u8>) -> bool {
    in_bounds(s, pos, e.len() as int) && s.subrange(pos, pos + e.len()) == e
}

/// A type whose values are written to and read from the wire one after the other.
pub trait WireElement: Sized + View {
    /// The value at `pos` of `s` and the position behind it.
    spec fn decode_at(s: Seq<u8>, pos: int) -> Decoded<Self::V>;

    /// The bytes that stand for a value.
    spec fn encoding(v: Self::V) -> Seq<u8>;

    /// What holds of the view of every value of the type, and makes a view one
    /// that is read back from its bytes.
    spec fn well_formed(v: Self::V) -> bool;

    /// A value takes at least one byte.
    proof fn lemma_encoding_nonempty(v: Self::V)
        ensures
            Self::encoding(v).len() > 0,
    ;

    /// Decoding the bytes that stand for a value gives back the value.
    proof fn lemma_decode_encoding(s: Seq<u8>, pos: int, v: Self::V)
        requires
            Self::well_formed(v),
            encoded_at(s, pos, Self::encoding(v)),
        ensures
            Self::decode_at(s, pos) == Ok::<(Self::V, int), DecodeError>(
                (v, pos + Self::encoding(v).len()),
            ),
    ;

    /// A value that was decoded lies inside the buffer; it is decoded again from every
    /// prefix of the buffer that holds all of it, and from a shorter prefix the decoder
    /// reports that the data ended.
    proof fn lemma_decode_truncated(s: Seq<u8>, pos: int, k: int)
        requires
            0 <= pos,
            0 <= k <= s.len(),
            Self::decode_at(s, pos) is Ok,
        ensures
            pos < Self::decode_at(s, pos)->Ok_0.1 <= s.len(),
            Self::decode_at(s, pos)->Ok_0.1 <= k ==> Self::decode_at(s.take(k), pos)
                == Self::decode_at(s, pos),
            k < Self::decode_at(s, pos)->Ok_0.1 ==> (Self::decode_at(s.take(k), pos) matches Err(e)
                && e.is_truncation()),
    ;

    /// Reads one value at the cursor.
    fn decode(r: &mut Reader) -> (res: Result<Self, DecodeError>)
        ensures
            final(r).buffer() == old(r).buffer(),
            match res {
                Ok(v) => Self::decode_at(old(r).buffer(), old(r).cursor()) == Ok::<
                    (Self::V, int),
                    DecodeError,
                >((v@, final(r).cursor())),
                Err(e) => Self::decode_at(old(r).buffer(), old(r).cursor()) == Err::<
                    (Self::V, int),
                    DecodeError,
                >(e),
            },
    ;

    /// Appends the bytes that stand for the value.
    fn encode(&self, out: &mut Vec<u8>)
        ensures
            final(out)@ == old(out)@ + Self::encoding(self@),
    ;
}

/// The first `count` values from `pos` on, one behind the other.
pub open spec fn elements_at<T: WireElement>(s: Seq<u8>, pos: int, count: nat) -> Decoded<Seq<T::V>>
    decreases count,
{
    if count == 0 {
        Ok((Seq::empty(), pos))
    } else {
        match elements_at::<T>(s, pos, (count - 1) as nat) {
            Err(e) => Err(e),
            Ok((vs, p)) => match T::decode_at(s, p) {
                Err(e) => Err(e),
                Ok((v, q)) => Ok((vs.push(v), q)),
            },
        }
    }
}

/// A sequence: a 64-bit count and that many values.
pub open spec fn seq_at<T: WireElement>(s: Seq<u8>, pos: int) -> Decoded<Seq<T::V>> {
    match u64_at(s, pos) {
        Err(e) => Err(e),
        Ok((n, p)) => if n <= s.len() - p {
            elements_at::<T>(s, p, n as nat)
        } else {
            Err(DecodeError::InvalidLength)
        },
    }
}

/// The views of the elements of `v`, in order.
pub open spec fn views_of<T: View>(v: Seq<T>) -> Seq<T::V> {
    v.map_values(|t: T| t@)
}

/// Cursor over an immutable byte buffer.
pub struct Reader<'a> {
    buf: &'a [u8],
    pos: usize,
}

impl<'a> Reader<'a> {
    #[verifier::type_invariant]
    spec fn in_buffer(self) -> bool {
        self.pos <= self.buf@.len()
    }

    /// The bytes that the reader was made over.
    pub closed spec fn buffer(self) -> Seq<u8> {
        self.buf@
    }

    /// The position of the next read.
    pub closed spec fn cursor(self) -> int {
        self.pos as int
    }

    /// A reader at the start of `buf`.
    pub fn new(buf: &'a [u8]) -> (r: Self)
        ensures
            r.buffer() == buf@,
            r.cursor() == 0,
    {
        Reader { buf, pos: 0 }
    }

    /// The number of bytes read so far.
    pub fn position(&self) -> (p: usize)
        ensures
            p == self.cursor(),
            p <= self.buffer().len(),
    {
        proof {
            use_type_invariant(self);
        }
        self.pos
    }

    /// The number of bytes not read yet.
    pub fn remaining(&self) -> (n: usize)
        ensures
            n == self.buffer().len() - self.cursor(),
    {
        proof {
            use_type_invariant(self);
        }
        self.buf.len() - self.pos
    }

    fn be16_here(&self, at: usize) -> (v: u16)
        requires
            at + 2 <= self.buffer().len(),
        ensures
            v == be16(self.buffer(), at as int),
    {
        let hi: u16 = self.buf[at] as u16;
        let lo: u16 = self.buf[at + 1] as u16;
        hi * 256 + lo
    }

    fn be32_here(&self, at: usize) -> (v: u32)
        requires
            at + 4 <= self.buffer().len(),
        ensures
            v == be32(self.buffer(), at as int),
    {
        let _len = self.buf.len();
        let hi: u32 = self.be16_here(at) as u32;
        let lo: u32 = self.be16_here(at + 2) as u32;
        hi * 65536 + lo
    }

    fn be64_here(&self, at: usize) -> (v: u64)
        requires
            at + 8 <= self.buffer().len(),
        ensures
            v == be64(self.buffer(), at as int),
    {
        let _len = self.buf.len();
        let hi: u64 = self.be32_here(at) as u64;
        let lo: u64 = self.be32_here(at + 4) as u64;
        hi * 4294967296 + lo
    }

    /// Reads one byte.
    pub fn read_u8(&mut self) -> (res: Result<u8, DecodeError>)
        ensures
            final(self).buffer() == old(self).buffer(),
            match res {
                Ok(v) => u8_at(old(self).buffer(), old(self).cursor()) == Ok::<
                    (u8, int),
                    DecodeError,
                >((v, final(self).cursor())),
                Err(e) => u8_at(old(self).buffer(), old(self).cursor()) == Err::<
                    (u8, int),
                    DecodeError,
                >(e) && final(self).cursor() == old(self).cursor(),
            },
    {
        proof {
            use_type_invariant(&*self);
        }
        if self.buf.len() - self.pos < 1 {
            return Err(DecodeError::UnexpectedEndOfData);
        }
        let v = self.buf[self.pos];
        self.pos = self.pos + 1;
        Ok(v)
    }

    /// Reads a 16-bit integer.
    pub fn read_u16(&mut self) -> (res: Result<u16, DecodeError>)
        ensures
            final(self).buffer() == old(self).buffer(),
            match res {
                Ok(v) => u16_at(old(self).buffer(), old(self).cursor()) == Ok::<
                    (u16, int),
                    DecodeError,
                >((v, final(self).cursor())),
                Err(e) => u16_at(old(self).buffer(), old(self).cursor()) == Err::<
                    (u16, int),
                    DecodeError,
                >(e) && final(self).cursor() == old(self).cursor(),
            },
    {
        proof {
            use_type_invariant(&*self);
        }
        if self.buf.len() - self.pos < 2 {
            return Err(DecodeError::UnexpectedEndOfData);
        }
        let v = self.be16_here(self.pos);
        self.pos = self.pos + 2;
        Ok(v)
    }

    /// Reads a 32-bit integer.
    pub fn read_u32(&mut self) -> (res: Result<u32, DecodeError>)
        ensures
            final(self).buffer() == old(self).buffer(),
            match res {
                Ok(v) => u32_at(old(self).buffer(), old(self).cursor()) == Ok::<
                    (u32, int),
                    DecodeError,
                >((v, final(self).cursor())),
                Err(e) => u32_at(old(self).buffer(), old(self).cursor()) == Err::<
                    (u32, int),
                    DecodeError,
                >(e) && final(self).cursor() == old(self).cursor(),
            },
    {
        proof {
            use_type_invariant(&*self);
        }
        if self.buf.len() - self.pos < 4 {
            return Err(DecodeError::UnexpectedEndOfData);
        }
        let v = self.be32_here(self.pos);
        self.pos = self.pos + 4;
        Ok(v)
    }

    /// Reads a 64-bit integer.
    pub fn read_u64(&mut self) -> (res: Result<u64, DecodeError>)
        ensures
            final(self).buffer() == old(self).buffer(),
            match res {
                Ok(v) => u64_at(old(self).buffer(), old(self).cursor()) == Ok::<
                    (u64, int),
                    DecodeError,
                >((v, final(self).cursor())),
                Err(e) => u64_at(old(self).buffer(), old(self).cursor()) == Err::<
                    (u64, int),
                    DecodeError,
                >(e) && final(self).cursor() == old(self).cursor(),
            },
    {
        proof {
            use_type_invariant(&*self);
        }
        if self.buf.len() - self.pos < 8 {
            return Err(DecodeError::UnexpectedEndOfData);
        }
        let v = self.be64_here(self.pos);
        self.pos = self.pos + 8;
        Ok(v)
    }

    /// Reads a flag.
    pub fn read_bool(&mut self) -> (res: Result<bool, DecodeError>)
        ensures
            final(self).buffer() == old(self).buffer(),
            match res {
                Ok(v) => bool_at(old(self).buffer(), old(self).cursor()) == Ok::<
                    (bool, int),
                    DecodeError,
                >((v, final(self).cursor())),
                Err(e) => bool_at(old(self).buffer(), old(self).cursor()) == Err::<
                    (bool, int),
                    DecodeError,
                >(e),
            },
    {
        match self.read_u8() {
            Err(e) => Err(e),
            Ok(b) => if b == 0 {
                Ok(false)
            } else if b == 1 {
                Ok(true)
            } else {
                Err(DecodeError::InvalidValue)
            },
        }
    }

    /// Reads an optional 64-bit integer.
    pub fn read_option_u64(&mut self) -> (res: Result<Option<u64>, DecodeError>)
        ensures
            final(self).buffer() == old(self).buffer(),
            match res {
                Ok(v) => option_u64_at(old(self).buffer(), old(self).cursor()) == Ok::<
                    (Option<u64>, int),
                    DecodeError,
                >((v, final(self).cursor())),
                Err(e) => option_u64_at(old(self).buffer(), old(self).cursor()) == Err::<
                    (Option<u64>, int),
                    DecodeError,
                >(e),
            },
    {
        match self.read_bool() {
            Err(e) => Err(e),
            Ok(false) => Ok(None),
            Ok(true) => match self.read_u64() {
                Err(e) => Err(e),
                Ok(v) => Ok(Some(v)),
            },
        }
    }

    /// Reads `N` bytes.
    pub fn read_array<const N: usize>(&mut self) -> (res: Result<[u8; N], DecodeError>)
        ensures
            final(self).buffer() == old(self).buffer(),
            match res {
                Ok(v) => array_at(old(self).buffer(), old(self).cursor(), N as int) == Ok::<
                    (Seq<u8>, int),
                    DecodeError,
                >((v@, final(self).cursor())),
                Err(e) => array_at(old(self).buffer(), old(self).cursor(), N as int) == Err::<
                    (Seq<u8>, int),
                    DecodeError,
                >(e) && final(self).cursor() == old(self).cursor(),
            },
    {
        proof {
            use_type_invariant(&*self);
        }
        if self.buf.len() - self.pos < N {
            return Err(DecodeError::UnexpectedEndOfData);
        }
        let mut out: [u8; N] = [0u8; N];
        let mut i: usize = 0;
        while i < N
            invariant
                i <= N,
                self.pos + N <= self.buf@.len() <= usize::MAX,
                forall|j: int| 0 <= j < i ==> out@[j] == self.buf@[self.pos + j],
            decreases N - i,
        {
            out[i] = self.buf[self.pos + i];
            i = i + 1;
        }
        assert(out@ =~= self.buf@.subrange(self.pos as int, self.pos + N));
        self.pos = self.pos + N;
        Ok(out)
    }

    /// Reads a byte string with its 64-bit count.
    pub fn read_bytes(&mut self) -> (res: Result<Vec<u8>, DecodeError>)
        ensures
            final(self).buffer() == old(self).buffer(),
            match res {
                Ok(v) => bytes_at(old(self).buffer(), old(self).cursor()) == Ok::<
                    (Seq<u8>, int),
                    DecodeError,
                >((v@, final(self).cursor())),
                Err(e) => bytes_at(old(self).buffer(), old(self).cursor()) == Err::<
                    (Seq<u8>, int),
                    DecodeError,
                >(e),
            },
    {
        proof {
            use_type_invariant(&*self);
        }
        let n = match self.read_u64() {
            Err(e) => { return Err(e); },
            Ok(n) => n,
        };
        proof {
            use_type_invariant(&*self);
        }
        let left: usize = self.buf.len() - self.pos;
        if n > left as u64 {
            return Err(DecodeError::InvalidLength);
        }
        let len: usize = n as usize;
        let mut out: Vec<u8> = Vec::new();
        let mut i: usize = 0;
        while i < len
            invariant
                i <= len,
                self.pos + len <= self.buf@.len() <= usize::MAX,
                out@.len() == i,
                forall|j: int| 0 <= j < i ==> out@[j] == self.buf@[self.pos + j],
            decreases len - i,
        {
            out.push(self.buf[self.pos + i]);
            i = i + 1;
        }
        assert(out@ =~= self.buf@.subrange(self.pos as int, self.pos + len));
        self.pos = self.pos + len;
        Ok(out)
    }

    /// Reads a sequence with its 64-bit count, each value by the decoder of its type.
    pub fn read_seq<T: WireElement>(&mut self) -> (res: Result<Vec<T>, DecodeError>)
        ensures
            final(self).buffer() == old(self).buffer(),
            match res {
                Ok(v) => seq_at::<T>(old(self).buffer(), old(self).cursor()) == Ok::<
                    (Seq<T::V>, int),
                    DecodeError,
                >((views_of(v@), final(self).cursor())),
                Err(e) => seq_at::<T>(old(self).buffer(), old(self).cursor()) == Err::<
                    (Seq<T::V>, int),
                    DecodeError,
                >(e),
            },
    {
        let n = match self.read_u64() {
            Err(e) => { return Err(e); },
            Ok(n) => n,
        };
        if n > self.remaining() as u64 {
            return Err(DecodeError::InvalidLength);
        }
        let ghost start = self.cursor();
        let ghost s = self.buffer();
        let mut out: Vec<T> = Vec::new();
        let mut i: u64 = 0;
        assert(views_of(out@) =~= Seq::<T::V>::empty());
        while i < n
            invariant
                i <= n,
                self.buffer() == s,
                s == old(self).buffer(),
                u64_at(s, old(self).cursor()) == Ok::<(u64, int), DecodeError>((n, start)),
                n <= s.len() - start,
                elements_at::<T>(s, start, i as nat) == Ok::<(Seq<T::V>, int), DecodeError>(
                    (views_of(out@), self.cursor()),
                ),
            decreases n - i,
        {
            let ghost before = views_of(out@);
            match T::decode(self) {
                Err(e) => {
                    proof {
                        lemma_elements_fail::<T>(s, start, (i + 1) as nat, n as nat);
                    }
                    return Err(e);
                },
                Ok(v) => {
                    out.push(v);
                    assert(views_of(out@) =~= before.push(v@));
                },
            }
            i = i + 1;
        }
        Ok(out)
    }
}

/// Once the first `m` values cannot be read, no larger number of them can.
pub proof fn lemma_elements_fail<T: WireElement>(s: Seq<u8>, pos: int, m: nat, n: nat)
    requires
        m <= n,
        elements_at::<T>(s, pos, m) is Err,
    ensures
        elements_at::<T>(s, pos, n) == elements_at::<T>(s, pos, m),
    decreases n,
{
    if m < n {
        lemma_elements_fail::<T>(s, pos, m, (n - 1) as nat);
    }
}

/// The byte that stands for `x`.
pub open spec fn u8_bytes(x: u8) -> Seq<u8> {
    seq![x]
}

/// The two bytes that stand for `x`, most significant first.
pub open spec fn u16_bytes(x: u16) -> Seq<u8> {
    seq![(x / 256) as u8, (x % 256) as u8]
}

/// The four bytes that stand for `x`, most significant first.
pub open spec fn u32_bytes(x: u32) -> Seq<u8> {
    u16_bytes((x / 65536) as u16) + u16_bytes((x % 65536) as u16)
}

/// The eight bytes that stand for `x`, most significant first.
pub open spec fn u64_bytes(x: u64) -> Seq<u8> {
    u32_bytes((x / 4294967296) as u32) + u32_bytes((x % 4294967296) as u32)
}

/// The byte that stands for a flag.
pub open spec fn bool_bytes(b: bool) -> Seq<u8> {
    seq![if b { 1u8 } else { 0u8 }]
}

/// The bytes that stand for an optional 64-bit integer.
pub open spec fn option_u64_bytes(v: Option<u64>) -> Seq<u8> {
    match v {
        None => bool_bytes(false),
        Some(x) => bool_bytes(true) + u64_bytes(x),
    }
}

/// A byte string behind its 64-bit count.
pub open spec fn prefixed_bytes(b: Seq<u8>) -> Seq<u8> {
    u64_bytes(b.len() as u64) + b
}

/// The bytes of the values of `vs`, one behind the other.
pub open spec fn elements_bytes<T: WireElement>(vs: Seq<T::V>) -> Seq<u8>
    decreases vs.len(),
{
    if vs.len() == 0 {
        Seq::empty()
    } else {
        elements_bytes::<T>(vs.drop_last()) + T::encoding(vs.last())
    }
}

/// A sequence behind its 64-bit count.
pub open spec fn prefixed_seq<T: WireElement>(vs: Seq<T::V>) -> Seq<u8> {
    u64_bytes(vs.len() as u64) + elements_bytes::<T>(vs)
}

/// Appends one byte.
pub fn put_u8(out: &mut Vec<u8>, x: u8)
    ensures
        final(out)@ == old(out)@ + u8_bytes(x),
{
    out.push(x);
    assert(out@ =~= old(out)@ + u8_bytes(x));
}

/// Appends a 16-bit integer.
pub fn put_u16(out: &mut Vec<u8>, x: u16)
    ensures
        final(out)@ == old(out)@ + u16_bytes(x),
{
    out.push((x / 256) as u8);
    out.push((x % 256) as u8);
    assert(out@ =~= old(out)@ + u16_bytes(x));
}

/// Appends a 32-bit integer.
pub fn put_u32(out: &mut Vec<u8>, x: u32)
    ensures
        final(out)@ == old(out)@ + u32_bytes(x),
{
    put_u16(out, (x / 65536) as u16);
    put_u16(out, (x % 65536) as u16);
    assert(out@ =~= old(out)@ + u32_bytes(x));
}

/// Appends a 64-bit integer.
pub fn put_u64(out: &mut Vec<u8>, x: u64)
    ensures
        final(out)@ == old(out)@ + u64_bytes(x),
{
    put_u32(out, (x / 4294967296) as u32);
    put_u32(out, (x % 4294967296) as u32);
    assert(out@ =~= old(out)@ + u64_bytes(x));
}

/// Appends a flag.
pub fn put_bool(out: &mut Vec<u8>, b: bool)
    ensures
        final(out)@ == old(out)@ + bool_bytes(b),
{
    out.push(if b { 1u8 } else { 0u8 });
    assert(out@ =~= old(out)@ + bool_bytes(b));
}

/// Appends an optional 64-bit integer.
pub fn put_option_u64(out: &mut Vec<u8>, v: Option<u64>)
    ensures
        final(out)@ == old(out)@ + option_u64_bytes(v),
{
    match v {
        None => put_bool(out, false),
        Some(x) => {
            put_bool(out, true);
            put_u64(out, x);
            assert(out@ =~= old(out)@ + option_u64_bytes(v));
        },
    }
}

/// Appends the bytes of `b` as they are.
pub fn put_slice(out: &mut Vec<u8>, b: &[u8])
    ensures
        final(out)@ == old(out)@ + b@,
{
    let mut i: usize = 0;
    while i < b.len()
        invariant
            i <= b@.len(),
            out@ == old(out)@ + b@.take(i as int),
        decreases b@.len() - i,
    {
        out.push(b[i]);
        assert(b@.take(i + 1) =~= b@.take(i as int).push(b@[i as int]));
        assert(out@ =~= old(out)@ + b@.take(i + 1));
        i = i + 1;
    }
    assert(b@.take(i as int) =~= b@);
}

/// Appends a byte string behind its 64-bit count.
pub fn put_bytes(out: &mut Vec<u8>, b: &[u8])
    ensures
        final(out)@ == old(out)@ + prefixed_bytes(b@),
{
    put_u64(out, b.len() as u64);
    put_slice(out, b);
    assert(out@ =~= old(out)@ + prefixed_bytes(b@));
}

/// Appends a sequence behind its 64-bit count.
pub fn put_seq<T: WireElement>(out: &mut Vec<u8>, vs: &Vec<T>)
    ensures
        final(out)@ == old(out)@ + prefixed_seq::<T>(views_of(vs@)),
{
    put_u64(out, vs.len() as u64);
    let ghost base = out@;
    let mut i: usize = 0;
    assert(views_of(vs@).take(0) =~= Seq::<T::V>::empty());
    while i < vs.len()
        invariant
            i <= vs@.len(),
            base == old(out)@ + u64_bytes(vs@.len() as u64),
            out@ == base + elements_bytes::<T>(views_of(vs@).take(i as int)),
        decreases vs@.len() - i,
    {
        vs[i].encode(out);
        proof {
            let now = views_of(vs@).take(i + 1);
            assert(now.drop_last() =~= views_of(vs@).take(i as int));
            assert(now.last() == vs@[i as int]@);
            assert(out@ =~= base + elements_bytes::<T>(now));
        }
        i = i + 1;
    }
    assert(views_of(vs@).take(i as int) =~= views_of(vs@));
    assert(out@ =~= old(out)@ + prefixed_seq::<T>(views_of(vs@)));
}

} // verus!
