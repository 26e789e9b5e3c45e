//! Byte-level wire codec: an append-only packet writer, a cursor-based packet
//! reader, and the encodings of the primitive wire values.
//!
//! Every primitive has a specification-level encoding (`enc_*`) and decoding
//! (`dec_*`). A decoder takes the remaining bytes of a buffer and yields the
//! decoded value together with the number of bytes consumed, or nothing when
//! the bytes do not start with a valid encoding. The executable readers and
//! writers are proved to agree with these functions exactly.

use vstd::prelude::*;

verus! {

use vstd::bytes::{
    spec_u16_to_le_bytes, spec_u16_from_le_bytes, lemma_auto_spec_u16_to_from_le_bytes,
    spec_u32_to_le_bytes, spec_u32_from_le_bytes, lemma_auto_spec_u32_to_from_le_bytes,
    spec_u64_to_le_bytes, spec_u64_from_le_bytes, lemma_auto_spec_u64_to_from_le_bytes,
    u16_from_le_bytes, u16_to_le_bytes,
    u32_from_le_bytes, u32_to_le_bytes,
    u64_from_le_bytes, u64_to_le_bytes,
};
use vstd::utf8::{valid_utf8, decode_utf8, encode_utf8};
use vstd::string::StrSliceExecFns;

// ---------------------------------------------------------------------------
// Specification-level encodings of the primitive wire values.
// ---------------------------------------------------------------------------

pub open spec fn enc_u8(v: u8) -> Seq<u8> {
    seq![v]
}

pub open spec fn dec_u8(s: Seq<u8>) -> Option<(u8, int)> {
    if s.len() >= 1 {
        Some((s[0], 1int))
    } else {
        None
    }
}

pub open spec fn enc_bool(v: bool) -> Seq<u8> {
    seq![if v { 1u8 } else { 0u8 }]
}

/// A boolean is one byte; any nonzero byte decodes as true.
pub open spec fn dec_bool(s: Seq<u8>) -> Option<(bool, int)> {
    if s.len() >= 1 {
        Some((s[0] != 0, 1int))
    } else {
        None
    }
}

pub open spec fn enc_i8(v: i8) -> Seq<u8> {
    seq![v as u8]
}

pub open spec fn dec_i8(s: Seq<u8>) -> Option<(i8, int)> {
    if s.len() >= 1 {
        Some((s[0] as i8, 1int))
    } else {
        None
    }
}

pub open spec fn enc_u16(v: u16) -> Seq<u8> {
    spec_u16_to_le_bytes(v)
}

pub open spec fn dec_u16(s: Seq<u8>) -> Option<(u16, int)> {
    if s.len() >= 2 {
        Some((spec_u16_from_le_bytes(s.take(2)), 2int))
    } else {
        None
    }
}

pub open spec fn enc_u32(v: u32) -> Seq<u8> {
    spec_u32_to_le_bytes(v)
}

pub open spec fn dec_u32(s: Seq<u8>) -> Option<(u32, int)> {
    if s.len() >= 4 {
        Some((spec_u32_from_le_bytes(s.take(4)), 4int))
    } else {
        None
    }
}

pub open spec fn enc_u64(v: u64) -> Seq<u8> {
    spec_u64_to_le_bytes(v)
}

pub open spec fn dec_u64(s: Seq<u8>) -> Option<(u64, int)> {
    if s.len() >= 8 {
        Some((spec_u64_from_le_bytes(s.take(8)), 8int))
    } else {
        None
    }
}

/// Word-sized values travel as eight little-endian bytes.
pub open spec fn enc_usize(v: usize) -> Seq<u8> {
    spec_u64_to_le_bytes(v as u64)
}

pub open spec fn dec_usize(s: Seq<u8>) -> Option<(usize, int)> {
    if s.len() >= 8 {
        let v = spec_u64_from_le_bytes(s.take(8));
        if v <= usize::MAX as u64 {
            Some((v as usize, 8int))
        } else {
            None
        }
    } else {
        None
    }
}

/// A text value is its UTF-8 byte length as a word-sized prefix, then the
/// UTF-8 bytes themselves.
pub open spec fn enc_text(t: Seq<char>) -> Seq<u8> {
    enc_usize(encode_utf8(t).len() as usize) + encode_utf8(t)
}

/// Text decoding fails when the declared length exceeds the remaining bytes
/// or when the bytes are not valid UTF-8.
pub open spec fn dec_text(s: Seq<u8>) -> Option<(Seq<char>, int)> {
    match dec_usize(s) {
        None => None,
        Some((len, p)) => {
            if s.len() - p < len {
                None
            } else {
                let bytes = s.subrange(p, p + len);
                if valid_utf8(bytes) {
                    Some((decode_utf8(bytes), p + len))
                } else {
                    None
                }
            }
        },
    }
}

/// A text value can be encoded only when its UTF-8 form fits the length
/// prefix; every value held in a real `String` satisfies this.
pub open spec fn text_fits(t: Seq<char>) -> bool {
    encode_utf8(t).len() <= usize::MAX
}

/// A sum-typed wire value: one discriminant byte selects the alternative,
/// followed by that alternative's encoding.
#[derive(Debug, PartialEq)]
pub enum Either<L, R> {
    Left(L),
    Right(R),
}

impl<L: View, R: View> View for Either<L, R> {
    type V = Either<L::V, R::V>;

    open spec fn view(&self) -> Either<L::V, R::V> {
        match self {
            Either::Left(l) => Either::Left(l@),
            Either::Right(r) => Either::Right(r@),
        }
    }
}

// ---------------------------------------------------------------------------
// Writer
// ---------------------------------------------------------------------------

/// Accumulates an append-only byte buffer.
pub struct PacketWriter {
    pub bytes: Vec<u8>,
}

impl View for PacketWriter {
    type V = Seq<u8>;

    open spec fn view(&self) -> Seq<u8> {
        self.bytes@
    }
}

impl PacketWriter {
    pub fn new() -> (r: Self)
        ensures
            r@ == Seq::<u8>::empty(),
    {
        PacketWriter { bytes: Vec::new() }
    }

    pub fn write<W: Writable>(&mut self, data: W)
        ensures
            final(self)@ == old(self)@ + data.spec_enc(),
    {
        data.write(self);
    }

    pub fn write_u8(&mut self, data: u8)
        ensures
            final(self)@ == old(self)@ + seq![data],
    {
        self.bytes.push(data);
    }

    pub fn write_all(&mut self, data: Vec<u8>)
        ensures
            final(self)@ == old(self)@ + data@,
    {
        let n = data.len();
        let mut i: usize = 0;
        while i < n
            invariant
                i <= n,
                n == data@.len(),
                self@ == old(self)@ + data@.take(i as int),
            decreases n - i,
        {
            self.bytes.push(data[i]);
            i += 1;
            proof {
                assert(old(self)@ + data@.take(i as int) =~= (old(self)@ + data@.take(
                    i - 1,
                )).push(data@[i - 1]));
            }
        }
        proof {
            assert(data@.take(n as int) =~= data@);
        }
    }

    pub fn get(self) -> (r: Vec<u8>)
        ensures
            r@ == self@,
    {
        self.bytes
    }
}

// ---------------------------------------------------------------------------
// Reader
// ---------------------------------------------------------------------------

/// Consumes a fixed byte buffer through a monotonically advancing cursor.
pub struct PacketReader {
    pub index: usize,
    pub buf: Vec<u8>,
}

impl PacketReader {
    /// Bytes not yet consumed.
    pub open spec fn remaining(&self) -> Seq<u8> {
        self.buf@.skip(self.index as int)
    }

    /// The cursor never passes the end of the buffer.
    pub open spec fn wf(&self) -> bool {
        self.index <= self.buf@.len()
    }

    pub fn new(buf: Vec<u8>) -> (r: Self)
        ensures
            r.wf(),
            r.remaining() == buf@,
            r.buf@ == buf@,
    {
        let r = PacketReader { index: 0, buf };
        proof {
            assert(r.remaining() =~= r.buf@);
        }
        r
    }

    pub fn read<T: Readable>(&mut self) -> (r: Option<T>)
        requires
            old(self).wf(),
        ensures
            final(self).wf(),
            final(self).buf@ == old(self).buf@,
            match T::spec_dec(old(self).remaining()) {
                Some((m, n)) => {
                    &&& r matches Some(v) && v@ == m
                    &&& 0 <= n <= old(self).remaining().len()
                    &&& final(self).remaining() == old(self).remaining().skip(n)
                },
                None => r is None,
            },
    {
        T::read(self)
    }

    pub fn read_u8(&mut self) -> (r: Option<u8>)
        requires
            old(self).wf(),
        ensures
            final(self).wf(),
            final(self).buf@ == old(self).buf@,
            match dec_u8(old(self).remaining()) {
                Some((v, n)) => {
                    &&& r == Some(v)
                    &&& final(self).remaining() == old(self).remaining().skip(n)
                },
                None => r is None && *final(self) == *old(self),
            },
    {
        if self.index < self.buf.len() {
            let b = self.buf[self.index];
            self.index += 1;
            proof {
                assert(old(self).remaining()[0] == b);
                assert(self.remaining() =~= old(self).remaining().skip(1));
            }
            Some(b)
        } else {
            proof {
                assert(old(self).remaining().len() == 0);
            }
            None
        }
    }

    /// Reads exactly `S` bytes into a fixed-size array, or fails when fewer
    /// remain.
    pub fn read_n<const S: usize>(&mut self) -> (r: Option<[u8; S]>)
        requires
            old(self).wf(),
        ensures
            final(self).wf(),
            final(self).buf@ == old(self).buf@,
            if old(self).remaining().len() >= S {
                &&& r matches Some(v) && v@ == old(self).remaining().take(S as int)
                &&& final(self).remaining() == old(self).remaining().skip(S as int)
            } else {
                r is None && *final(self) == *old(self)
            },
    {
        if S > self.buf.len() - self.index {
            return None;
        }
        let blen = self.buf.len();
        let mut bytes = [0u8; S];
        let start = self.index;
        let mut i: usize = 0;
        while i < S
            invariant
                i <= S,
                start == old(self).index,
                self.buf@ == old(self).buf@,
                blen == self.buf@.len(),
                self.index == start + i,
                start + S <= blen,
                bytes@.len() == S,
                bytes@.take(i as int) == old(self).remaining().take(i as int),
            decreases S - i,
        {
            let b = self.buf[self.index];
            bytes[i] = b;
            self.index += 1;
            i += 1;
            proof {
                assert(old(self).remaining()[i - 1] == b);
                assert(bytes@.take(i as int) =~= bytes@.take(i - 1).push(b));
                assert(old(self).remaining().take(i as int) =~= old(self).remaining().take(
                    i - 1,
                ).push(b));
            }
        }
        proof {
            assert(bytes@ =~= bytes@.take(S as int));
            assert(self.remaining() =~= old(self).remaining().skip(S as int));
        }
        Some(bytes)
    }

    /// Reads exactly `len` bytes, or fails when fewer remain.
    pub fn read_n_slice(&mut self, len: usize) -> (r: Option<Vec<u8>>)
        requires
            old(self).wf(),
        ensures
            final(self).wf(),
            final(self).buf@ == old(self).buf@,
            if old(self).remaining().len() >= len {
                &&& r matches Some(v) && v@ == old(self).remaining().take(len as int)
                &&& final(self).remaining() == old(self).remaining().skip(len as int)
            } else {
                r is None && *final(self) == *old(self)
            },
    {
        if len > self.buf.len() - self.index {
            return None;
        }
        let blen = self.buf.len();
        let mut out: Vec<u8> = Vec::new();
        let start = self.index;
        let mut i: usize = 0;
        while i < len
            invariant
                i <= len,
                start == old(self).index,
                self.buf@ == old(self).buf@,
                blen == self.buf@.len(),
                self.index == start + i,
                start + len <= blen,
                out@ == old(self).remaining().take(i as int),
            decreases len - i,
        {
            let b = self.buf[self.index];
            out.push(b);
            self.index += 1;
            i += 1;
            proof {
                assert(old(self).remaining()[i - 1] == b);
                assert(old(self).remaining().take(i as int) =~= old(self).remaining().take(
                    i - 1,
                ).push(b));
            }
        }
        proof {
            assert(self.remaining() =~= old(self).remaining().skip(len as int));
        }
        Some(out)
    }

    pub fn has_next(&self) -> (r: bool)
        requires
            self.wf(),
        ensures
            r == (self.remaining().len() > 0),
    {
        self.index < self.buf.len()
    }
}

// ---------------------------------------------------------------------------
// Readable / Writable
// ---------------------------------------------------------------------------

/// A value with a fixed byte encoding that can be appended to a writer.
pub trait Writable: Sized {
    /// The byte encoding of this value.
    spec fn spec_enc(&self) -> Seq<u8>;

    fn write(self, writer: &mut PacketWriter)
        ensures
            final(writer)@ == old(writer)@ + self.spec_enc(),
    ;
}

/// A value that can be decoded from the front of a reader's remaining bytes.
/// The executable `read` agrees exactly with the type's `spec_dec`.
pub trait Readable: View + Sized {
    /// Decodes a value from the front of `s`, yielding its abstract form and
    /// the number of bytes consumed.
    spec fn spec_dec(s: Seq<u8>) -> Option<(Self::V, int)>;

    fn read(reader: &mut PacketReader) -> (r: Option<Self>)
        requires
            old(reader).wf(),
        ensures
            final(reader).wf(),
            final(reader).buf@ == old(reader).buf@,
            match Self::spec_dec(old(reader).remaining()) {
                Some((m, n)) => {
                    &&& r matches Some(v) && v@ == m
                    &&& 0 <= n <= old(reader).remaining().len()
                    &&& final(reader).remaining() == old(reader).remaining().skip(n)
                },
                None => r is None,
            },
    ;
}

impl Writable for u8 {
    open spec fn spec_enc(&self) -> Seq<u8> {
        enc_u8(*self)
    }

    fn write(self, writer: &mut PacketWriter) {
        writer.write_u8(self);
    }
}

impl Readable for u8 {
    open spec fn spec_dec(s: Seq<u8>) -> Option<(u8, int)> {
        dec_u8(s)
    }

    fn read(reader: &mut PacketReader) -> (r: Option<Self>) {
        reader.read_u8()
    }
}

impl Writable for bool {
    open spec fn spec_enc(&self) -> Seq<u8> {
        enc_bool(*self)
    }

    fn write(self, writer: &mut PacketWriter) {
        writer.write_u8(if self { 1 } else { 0 });
    }
}

impl Readable for bool {
    open spec fn spec_dec(s: Seq<u8>) -> Option<(bool, int)> {
        dec_bool(s)
    }

    fn read(reader: &mut PacketReader) -> (r: Option<Self>) {
        match reader.read_u8() {
            Some(b) => Some(b != 0),
            None => None,
        }
    }
}

impl Writable for i8 {
    open spec fn spec_enc(&self) -> Seq<u8> {
        enc_i8(*self)
    }

    fn write(self, writer: &mut PacketWriter) {
        writer.write_u8(self as u8);
    }
}

impl Readable for i8 {
    open spec fn spec_dec(s: Seq<u8>) -> Option<(i8, int)> {
        dec_i8(s)
    }

    fn read(reader: &mut PacketReader) -> (r: Option<Self>) {
        match reader.read_u8() {
            Some(b) => Some(b as i8),
            None => None,
        }
    }
}

impl Writable for u16 {
    open spec fn spec_enc(&self) -> Seq<u8> {
        enc_u16(*self)
    }

    fn write(self, writer: &mut PacketWriter) {
        let bytes = u16_to_le_bytes(self);
        writer.write_all(bytes);
    }
}

impl Readable for u16 {
    open spec fn spec_dec(s: Seq<u8>) -> Option<(u16, int)> {
        dec_u16(s)
    }

    fn read(reader: &mut PacketReader) -> (r: Option<Self>) {
        match reader.read_n::<2>() {
            Some(bytes) => Some(u16_from_le_bytes(bytes.as_slice())),
            None => None,
        }
    }
}

impl Writable for u32 {
    open spec fn spec_enc(&self) -> Seq<u8> {
        enc_u32(*self)
    }

    fn write(self, writer: &mut PacketWriter) {
        let bytes = u32_to_le_bytes(self);
        writer.write_all(bytes);
    }
}

impl Readable for u32 {
    open spec fn spec_dec(s: Seq<u8>) -> Option<(u32, int)> {
        dec_u32(s)
    }

    fn read(reader: &mut PacketReader) -> (r: Option<Self>) {
        match reader.read_n::<4>() {
            Some(bytes) => Some(u32_from_le_bytes(bytes.as_slice())),
            None => None,
        }
    }
}

impl Writable for u64 {
    open spec fn spec_enc(&self) -> Seq<u8> {
        enc_u64(*self)
    }

    fn write(self, writer: &mut PacketWriter) {
        let bytes = u64_to_le_bytes(self);
        writer.write_all(bytes);
    }
}

impl Readable for u64 {
    open spec fn spec_dec(s: Seq<u8>) -> Option<(u64, int)> {
        dec_u64(s)
    }

    fn read(reader: &mut PacketReader) -> (r: Option<Self>) {
        match reader.read_n::<8>() {
            Some(bytes) => Some(u64_from_le_bytes(bytes.as_slice())),
            None => None,
        }
    }
}

impl Writable for usize {
    open spec fn spec_enc(&self) -> Seq<u8> {
        enc_usize(*self)
    }

    fn write(self, writer: &mut PacketWriter) {
        let bytes = u64_to_le_bytes(self as u64);
        writer.write_all(bytes);
    }
}

impl Readable for usize {
    open spec fn spec_dec(s: Seq<u8>) -> Option<(usize, int)> {
        dec_usize(s)
    }

    fn read(reader: &mut PacketReader) -> (r: Option<Self>) {
        match reader.read_n::<8>() {
            Some(bytes) => {
                let v = u64_from_le_bytes(bytes.as_slice());
                if v <= usize::MAX as u64 {
                    Some(v as usize)
                } else {
                    None
                }
            },
            None => None,
        }
    }
}

/// Relies on `String::from_utf8`: it succeeds exactly on valid UTF-8 input,
/// returning the string whose characters decode from those bytes.
#[verifier::external_body]
fn utf8_to_string(bytes: Vec<u8>) -> (r: Option<String>)
    ensures
        match r {
            Some(s) => valid_utf8(bytes@) && s@ == decode_utf8(bytes@),
            None => !valid_utf8(bytes@),
        },
{
    String::from_utf8(bytes).ok()
}

impl Writable for String {
    open spec fn spec_enc(&self) -> Seq<u8> {
        enc_text(self@)
    }

    fn write(self, writer: &mut PacketWriter) {
        let bytes = self.as_str().as_bytes_vec();
        writer.write(bytes.len());
        writer.write_all(bytes);
    }
}

impl Readable for String {
    open spec fn spec_dec(s: Seq<u8>) -> Option<(Seq<char>, int)> {
        dec_text(s)
    }

    fn read(reader: &mut PacketReader) -> (r: Option<Self>) {
        let ghost s = old(reader).remaining();
        let len: usize = match reader.read() {
            Some(v) => v,
            None => {
                return None;
            },
        };
        let bytes = match reader.read_n_slice(len) {
            Some(v) => v,
            None => {
                return None;
            },
        };
        proof {
            assert(bytes@ =~= s.subrange(8, 8 + len as int));
            assert(reader.remaining() =~= s.skip(8 + len as int));
        }
        utf8_to_string(bytes)
    }
}

// ---------------------------------------------------------------------------
// Round-trip and truncation facts about the primitive encodings.
// ---------------------------------------------------------------------------

/// The lengths of the primitive encodings, which are otherwise opaque.
pub proof fn lemma_enc_len_facts()
    ensures
        forall|v: u16| (#[trigger] enc_u16(v)).len() == 2,
        forall|v: u32| (#[trigger] enc_u32(v)).len() == 4,
        forall|v: u64| (#[trigger] enc_u64(v)).len() == 8,
        forall|v: usize| (#[trigger] enc_usize(v)).len() == 8,
        forall|t: Seq<char>| (#[trigger] enc_text(t)).len() == 8 + encode_utf8(t).len(),
{
    lemma_auto_spec_u16_to_from_le_bytes();
    lemma_auto_spec_u32_to_from_le_bytes();
    lemma_auto_spec_u64_to_from_le_bytes();
    assert forall|t: Seq<char>| (#[trigger] enc_text(t)).len() == 8 + encode_utf8(t).len() by {
        assert(enc_usize(encode_utf8(t).len() as usize).len() == 8);
    }
}

/// An encoded byte, followed by anything, decodes back to the byte.
pub proof fn lemma_u8_round_trip(v: u8, rest: Seq<u8>)
    ensures
        dec_u8(enc_u8(v) + rest) == Some((v, 1int)),
{
    assert((enc_u8(v) + rest)[0] == v);
}

/// An encoded boolean, followed by anything, decodes back to the boolean.
pub proof fn lemma_bool_round_trip(v: bool, rest: Seq<u8>)
    ensures
        dec_bool(enc_bool(v) + rest) == Some((v, 1int)),
{
    assert((enc_bool(v) + rest)[0] == (if v { 1u8 } else { 0u8 }));
}

/// An encoded signed byte, followed by anything, decodes back to the value.
pub proof fn lemma_i8_round_trip(v: i8, rest: Seq<u8>)
    ensures
        dec_i8(enc_i8(v) + rest) == Some((v, 1int)),
{
    assert((enc_i8(v) + rest)[0] == v as u8);
    assert((v as u8) as i8 == v) by (bit_vector);
}

/// An encoded 16-bit value, followed by anything, decodes back to the value.
pub proof fn lemma_u16_round_trip(v: u16, rest: Seq<u8>)
    ensures
        dec_u16(enc_u16(v) + rest) == Some((v, 2int)),
{
    lemma_auto_spec_u16_to_from_le_bytes();
    assert((enc_u16(v) + rest).take(2) =~= enc_u16(v));
}

/// An encoded 32-bit value, followed by anything, decodes back to the value.
pub proof fn lemma_u32_round_trip(v: u32, rest: Seq<u8>)
    ensures
        dec_u32(enc_u32(v) + rest) == Some((v, 4int)),
{
    lemma_auto_spec_u32_to_from_le_bytes();
    assert((enc_u32(v) + rest).take(4) =~= enc_u32(v));
}

/// An encoded 64-bit value, followed by anything, decodes back to the value.
pub proof fn lemma_u64_round_trip(v: u64, rest: Seq<u8>)
    ensures
        dec_u64(enc_u64(v) + rest) == Some((v, 8int)),
{
    lemma_auto_spec_u64_to_from_le_bytes();
    assert((enc_u64(v) + rest).take(8) =~= enc_u64(v));
}

/// An encoded word-sized value, followed by anything, decodes back to it.
pub proof fn lemma_usize_round_trip(v: usize, rest: Seq<u8>)
    ensures
        dec_usize(enc_usize(v) + rest) == Some((v, 8int)),
{
    lemma_auto_spec_u64_to_from_le_bytes();
    assert((enc_usize(v) + rest).take(8) =~= enc_usize(v));
}

/// Encoded text, followed by anything, decodes back to the same characters.
pub proof fn lemma_text_round_trip(t: Seq<char>, rest: Seq<u8>)
    requires
        text_fits(t),
    ensures
        dec_text(enc_text(t) + rest) == Some((t, enc_text(t).len() as int)),
{
    broadcast use vstd::utf8::encode_utf8_valid_utf8, vstd::utf8::encode_utf8_decode_utf8;

    lemma_auto_spec_u64_to_from_le_bytes();
    let bytes = encode_utf8(t);
    let n = bytes.len() as usize;
    let s = enc_text(t) + rest;
    lemma_usize_round_trip(n, bytes + rest);
    assert(s =~= enc_usize(n) + (bytes + rest));
    assert(dec_usize(s) == Some((n, 8int)));
    assert(s.subrange(8, 8 + n as int) =~= bytes);
}

/// Text decoding consumes at least the length prefix and never more than the
/// buffer holds.
pub proof fn lemma_dec_text_bounds(s: Seq<u8>)
    ensures
        dec_text(s) matches Some((t, n)) ==> 8 <= n <= s.len(),
{
}

/// Encoded text truncated anywhere before its end fails to decode: either
/// the length prefix itself is cut, or the declared length exceeds what is
/// left.
pub proof fn lemma_text_truncation(t: Seq<char>, k: int)
    requires
        text_fits(t),
        0 <= k < enc_text(t).len(),
    ensures
        dec_text(enc_text(t).take(k)) is None,
{
    lemma_auto_spec_u64_to_from_le_bytes();
    let bytes = encode_utf8(t);
    let n = bytes.len() as usize;
    let s = enc_text(t).take(k);
    if k < 8 {
        assert(dec_usize(s) is None);
    } else {
        assert(s.take(8) =~= enc_usize(n));
        assert(dec_usize(s) == Some((n, 8int)));
        assert(s.len() - 8 < n);
    }
}

} // verus!
