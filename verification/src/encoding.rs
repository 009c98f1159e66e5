//! Cursor-based encoder and decoder for the wire primitives: bytes, 16-bit
//! big-endian words, register arrays, and LSB-first bit-packed bool arrays.

use vstd::prelude::*;
use vstd::arithmetic::power2::{pow2, lemma_pow2_unfold, lemma_pow2_strictly_increases, lemma2_to64};

verus! {

/// Failure while encoding: a value did not fit the field width that the wire
/// format gives it.
#[derive(Clone, Copy, Debug, PartialEq, Eq, Structural)]
pub enum EncodeError {
    Overflow,
}

pub type EncodeResult = Result<(), EncodeError>;

/// Failure while decoding. `MissingData` means more bytes may still complete
/// the value; `InvalidData` is a terminal framing fault.
#[derive(Clone, Copy, Debug, PartialEq, Eq, Structural)]
pub enum DecodeError {
    MissingData,
    InvalidData,
}

pub type DecodeResult<T> = Result<T, DecodeError>;

/// The two bytes of `v`, most significant first.
pub open spec fn u16_be_bytes(v: u16) -> Seq<u8> {
    seq![(v / 256) as u8, (v % 256) as u8]
}

/// The 16-bit value read from two big-endian bytes.
pub open spec fn u16_from_be(hi: u8, lo: u8) -> u16 {
    (hi * 256 + lo) as u16
}

pub proof fn lemma_u16_be_round_trip(v: u16)
    ensures
        u16_from_be(u16_be_bytes(v)[0], u16_be_bytes(v)[1]) == v,
{
}

/// Registers laid out one after the other, each as two big-endian bytes.
pub open spec fn register_bytes(regs: Seq<u16>) -> Seq<u8>
    decreases regs.len(),
{
    if regs.len() == 0 {
        Seq::empty()
    } else {
        u16_be_bytes(regs[0]) + register_bytes(regs.drop_first())
    }
}

pub proof fn lemma_register_bytes_push(regs: Seq<u16>, v: u16)
    ensures
        register_bytes(regs.push(v)) == register_bytes(regs) + u16_be_bytes(v),
    decreases regs.len(),
{
    if regs.len() == 0 {
        assert(regs.push(v).drop_first() =~= Seq::<u16>::empty());
        assert(regs.push(v)[0] == v);
        assert(register_bytes(Seq::<u16>::empty()) == Seq::<u8>::empty());
        assert(register_bytes(regs.push(v)) =~= register_bytes(regs) + u16_be_bytes(v));
    } else {
        assert(regs.push(v).drop_first() =~= regs.drop_first().push(v));
        lemma_register_bytes_push(regs.drop_first(), v);
        assert(register_bytes(regs.push(v)) =~= register_bytes(regs) + u16_be_bytes(v));
    }
}

pub proof fn lemma_register_bytes_len(regs: Seq<u16>)
    ensures
        register_bytes(regs).len() == 2 * regs.len(),
    decreases regs.len(),
{
    if regs.len() > 0 {
        lemma_register_bytes_len(regs.drop_first());
    }
}

/// Byte `2*i` and `2*i + 1` of a register array's wire form are the big-endian
/// halves of register `i`.
pub proof fn lemma_register_bytes_index(regs: Seq<u16>, i: int)
    requires
        0 <= i < regs.len(),
    ensures
        register_bytes(regs).len() == 2 * regs.len(),
        register_bytes(regs)[2 * i] == u16_be_bytes(regs[i])[0],
        register_bytes(regs)[2 * i + 1] == u16_be_bytes(regs[i])[1],
    decreases regs.len(),
{
    lemma_register_bytes_len(regs);
    lemma_register_bytes_len(regs.drop_first());
    if i > 0 {
        lemma_register_bytes_index(regs.drop_first(), i - 1);
    }
}

/// Value of a bit sequence read least-significant-bit first.
pub open spec fn bits_value(bits: Seq<bool>) -> nat
    decreases bits.len(),
{
    if bits.len() == 0 {
        0
    } else {
        (if bits[0] { 1nat } else { 0nat }) + 2 * bits_value(bits.drop_first())
    }
}

pub proof fn lemma_bits_value_bound(bits: Seq<bool>)
    ensures
        bits_value(bits) < pow2(bits.len()),
    decreases bits.len(),
{
    if bits.len() == 0 {
        lemma2_to64();
    } else {
        lemma_bits_value_bound(bits.drop_first());
        lemma_pow2_unfold(bits.len());
    }
}

/// The `i`-th bit of `byte`, counting from the least significant.
pub open spec fn bit_of(byte: u8, i: int) -> bool
    decreases i,
{
    if i <= 0 {
        byte % 2 == 1
    } else {
        bit_of(byte / 2, i - 1)
    }
}

pub proof fn lemma_bit_of_zero(i: int)
    requires
        0 <= i,
    ensures
        !bit_of(0u8, i),
    decreases i,
{
    if i > 0 {
        lemma_bit_of_zero(i - 1);
    }
}

/// Reading bit `i` out of a packed byte gives back the bit that was packed,
/// and `false` past the end.
pub proof fn lemma_bit_of_bits_value(bits: Seq<bool>, i: int)
    requires
        bits.len() <= 8,
        0 <= i,
    ensures
        bit_of(bits_value(bits) as u8, i) == (i < bits.len() && bits[i]),
    decreases i,
{
    lemma_bits_value_bound(bits);
    if bits.len() < 8 {
        lemma_pow2_strictly_increases(bits.len(), 8);
    }
    lemma2_to64();
    if bits.len() == 0 {
        lemma_bit_of_zero(i);
    } else {
        let b0: nat = if bits[0] { 1 } else { 0 };
        let rest = bits.drop_first();
        lemma_bits_value_bound(rest);
        if rest.len() < 8 {
            lemma_pow2_strictly_increases(rest.len(), 8);
        }
        let r = bits_value(rest);
        assert(bits_value(bits) == b0 + 2 * r);
        if i == 0 {
            assert((b0 + 2 * r) % 2 == b0);
        } else {
            assert((b0 + 2 * r) as u8 / 2 == r);
            lemma_bit_of_bits_value(rest, i - 1);
        }
    }
}

/// Number of bytes that hold `n` packed bits.
pub open spec fn packed_len(n: nat) -> nat {
    (n + 7) / 8
}

/// The eight (or fewer, for the last byte) bits that land in packed byte `k`.
pub open spec fn bit_chunk(values: Seq<bool>, k: int) -> Seq<bool> {
    values.subrange(
        8 * k,
        if 8 * k + 8 <= values.len() {
            8 * k + 8
        } else {
            values.len() as int
        },
    )
}

pub open spec fn packed_byte(values: Seq<bool>, k: int) -> u8 {
    bits_value(bit_chunk(values, k)) as u8
}

/// The bits of `values` packed least-significant-bit first, eight to a byte;
/// trailing bits of the last byte are zero.
pub open spec fn packed_bytes(values: Seq<bool>) -> Seq<u8> {
    Seq::new(packed_len(values.len()), |k: int| packed_byte(values, k))
}

/// Bit `j` of a packed byte stream: bit `j % 8` of byte `j / 8`.
pub open spec fn unpacked_bits(bytes: Seq<u8>, n: nat) -> Seq<bool> {
    Seq::new(n, |j: int| bit_of(bytes[j / 8], j % 8))
}

/// Packing bits and unpacking the first `values.len()` of them is the
/// identity.
pub proof fn lemma_bits_round_trip(values: Seq<bool>)
    ensures
        unpacked_bits(packed_bytes(values), values.len()) == values,
{
    let packed = packed_bytes(values);
    let unpacked = unpacked_bits(packed, values.len());
    assert forall|j: int| 0 <= j < values.len() implies unpacked[j] == values[j] by {
        let k = j / 8;
        let i = j % 8;
        assert(8 * k <= j < 8 * k + 8 && 0 <= i < 8 && j == 8 * k + i) by (nonlinear_arith)
            requires
                k == j / 8,
                i == j % 8,
                0 <= j,
        ;
        let c = bit_chunk(values, k);
        lemma_bit_of_bits_value(c, i);
        assert(c[i] == values[j]);
    }
    assert(unpacked =~= values);
}

/// A write-side buffer with append-only operations.
pub struct Encoder {
    buffer: Vec<u8>,
}

impl View for Encoder {
    type V = Seq<u8>;

    closed spec fn view(&self) -> Seq<u8> {
        self.buffer@
    }
}

/// A value with a defined wire form that can be written to an [`Encoder`].
pub trait Encodable: Sized {
    /// Whether the value fits the field widths the wire format gives it.
    spec fn wire_ok(&self) -> bool;

    /// The value's bytes on the wire.
    spec fn wire(&self) -> Seq<u8>;

    fn encode(&self, encoder: &mut Encoder) -> (r: EncodeResult)
        ensures
            r is Ok <==> self.wire_ok(),
            self.wire_ok() ==> final(encoder)@ == old(encoder)@ + self.wire(),
    ;

    /// Encode the whole value into a fresh byte vector.
    fn encode_to_bytes(&self) -> (r: Result<Vec<u8>, EncodeError>)
        ensures
            r is Ok <==> self.wire_ok(),
            self.wire_ok() ==> (r matches Ok(bytes) && bytes@ == self.wire()),
    {
        let mut encoder = Encoder::new();
        match self.encode(&mut encoder) {
            Ok(()) => Ok(encoder.finish()),
            Err(e) => Err(e),
        }
    }
}

impl Encoder {
    pub fn new() -> (r: Self)
        ensures
            r@ == Seq::<u8>::empty(),
    {
        Encoder { buffer: Vec::new() }
    }

    pub fn position(&self) -> (r: usize)
        ensures
            r == self@.len(),
    {
        self.buffer.len()
    }

    pub fn write_u8(&mut self, value: u8)
        ensures
            final(self)@ == old(self)@.push(value),
    {
        self.buffer.push(value);
    }

    pub fn write_u16(&mut self, value: u16)
        ensures
            final(self)@ == old(self)@ + u16_be_bytes(value),
    {
        self.buffer.push((value / 256) as u8);
        self.buffer.push((value % 256) as u8);
        assert(self@ =~= old(self)@ + u16_be_bytes(value));
    }

    pub fn write_bytes(&mut self, value: &[u8])
        ensures
            final(self)@ == old(self)@ + value@,
    {
        let mut i: usize = 0;
        while i < value.len()
            invariant
                i <= value.len(),
                self@ == old(self)@ + value@.subrange(0, i as int),
            decreases value.len() - i,
        {
            self.buffer.push(value[i]);
            assert(self@ =~= old(self)@ + value@.subrange(0, i + 1 as int));
            i = i + 1;
        }
        assert(self@ =~= old(self)@ + value@);
    }

    pub fn write_registers(&mut self, value: &[u16])
        ensures
            final(self)@ == old(self)@ + register_bytes(value@),
    {
        let mut i: usize = 0;
        while i < value.len()
            invariant
                i <= value.len(),
                self@ == old(self)@ + register_bytes(value@.subrange(0, i as int)),
            decreases value.len() - i,
        {
            self.write_u16(value[i]);
            proof {
                lemma_register_bytes_push(value@.subrange(0, i as int), value@[i as int]);
                assert(value@.subrange(0, i as int).push(value@[i as int])
                    =~= value@.subrange(0, i + 1 as int));
            }
            i = i + 1;
        }
        assert(value@.subrange(0, value@.len() as int) =~= value@);
    }

    pub fn write_bools(&mut self, values: &[bool])
        ensures
            final(self)@ == old(self)@ + packed_bytes(values@),
    {
        let byte_length = values.len() / 8 + if values.len() % 8 == 0 {
            0
        } else {
            1
        };
        assert(byte_length == packed_len(values@.len()));
        let mut k: usize = 0;
        while k < byte_length
            invariant
                k <= byte_length,
                byte_length == packed_len(values@.len()),
                self@ == old(self)@ + packed_bytes(values@).subrange(0, k as int),
            decreases byte_length - k,
        {
            let ghost c = bit_chunk(values@, k as int);
            proof {
                assert(8 * k < values@.len()) by (nonlinear_arith)
                    requires
                        k < byte_length,
                        byte_length == (values@.len() + 7) / 8,
                ;
            }
            let cl: usize = if values.len() - 8 * k >= 8 {
                8
            } else {
                values.len() - 8 * k
            };
            assert(cl == c.len());
            let mut byte: u8 = 0;
            let mut i2: usize = 8;
            while i2 > 0
                invariant
                    i2 <= 8,
                    cl == c.len(),
                    cl <= 8,
                    8 * k + cl <= values@.len(),
                    values@.len() <= usize::MAX,
                    c == bit_chunk(values@, k as int),
                    byte as nat == bits_value(c.skip(if i2 <= cl { i2 as int } else { cl as int })),
                decreases i2,
            {
                i2 = i2 - 1;
                let bit = if i2 < cl {
                    values[8 * k + i2]
                } else {
                    false
                };
                proof {
                    if i2 < cl {
                        let s_new = c.skip(i2 as int);
                        let s_old = c.skip(i2 + 1 as int);
                        assert(s_new.drop_first() =~= s_old);
                        assert(s_new[0] == c[i2 as int]);
                        assert(c[i2 as int] == values@[8 * k + i2]);
                        lemma_bits_value_bound(s_old);
                        if s_old.len() < 7 {
                            lemma_pow2_strictly_increases(s_old.len(), 7);
                        }
                        lemma2_to64();
                        assert(bits_value(s_new) == (if s_new[0] { 1nat } else { 0nat }) + 2
                            * bits_value(s_old));
                    } else {
                        assert(c.skip(cl as int) =~= Seq::<bool>::empty());
                    }
                }
                byte = 2 * byte + if bit {
                    1
                } else {
                    0
                };
            }
            assert(c.skip(0) =~= c);
            proof {
                lemma_bits_value_bound(c);
                if c.len() < 8 {
                    lemma_pow2_strictly_increases(c.len(), 8);
                }
                lemma2_to64();
                assert(byte == packed_byte(values@, k as int));
            }
            self.write_u8(byte);
            assert(self@ =~= old(self)@ + packed_bytes(values@).subrange(0, k + 1 as int));
            k = k + 1;
        }
        assert(packed_bytes(values@).subrange(0, packed_bytes(values@).len() as int)
            =~= packed_bytes(values@));
    }

    pub fn write_type<T: Encodable>(&mut self, value: &T) -> (r: EncodeResult)
        ensures
            r is Ok <==> value.wire_ok(),
            value.wire_ok() ==> final(self)@ == old(self)@ + value.wire(),
    {
        value.encode(self)
    }

    pub fn finish(self) -> (r: Vec<u8>)
        ensures
            r@ == self@,
    {
        self.buffer
    }

    /// Encode a whole value into a fresh byte vector.
    pub fn encode<T: Encodable>(value: &T) -> (r: Result<Vec<u8>, EncodeError>)
        ensures
            r is Ok <==> value.wire_ok(),
            value.wire_ok() ==> (r matches Ok(bytes) && bytes@ == value.wire()),
    {
        let mut encoder = Self::new();
        match encoder.write_type(value) {
            Ok(()) => Ok(encoder.finish()),
            Err(e) => Err(e),
        }
    }
}

/// What reading one `u8` at `pos` yields.
pub open spec fn spec_read_u8(data: Seq<u8>, pos: int) -> Result<(u8, int), DecodeError> {
    if pos + 1 <= data.len() {
        Ok((data[pos], pos + 1))
    } else {
        Err(DecodeError::MissingData)
    }
}

/// What reading one big-endian `u16` at `pos` yields.
pub open spec fn spec_read_u16(data: Seq<u8>, pos: int) -> Result<(u16, int), DecodeError> {
    if pos + 2 <= data.len() {
        Ok((u16_from_be(data[pos], data[pos + 1]), pos + 2))
    } else {
        Err(DecodeError::MissingData)
    }
}

/// What reading `len` raw bytes at `pos` yields.
pub open spec fn spec_read_bytes(data: Seq<u8>, pos: int, len: int) -> Result<
    (Seq<u8>, int),
    DecodeError,
> {
    if pos + len <= data.len() {
        Ok((data.subrange(pos, pos + len), pos + len))
    } else {
        Err(DecodeError::MissingData)
    }
}

/// What reading `len` big-endian registers at `pos` yields.
pub open spec fn spec_read_registers(data: Seq<u8>, pos: int, len: int) -> Result<
    (Seq<u16>, int),
    DecodeError,
> {
    if pos + 2 * len <= data.len() {
        Ok((Seq::new(len as nat, |i: int| u16_from_be(data[pos + 2 * i], data[pos + 2 * i + 1])),
        pos + 2 * len))
    } else {
        Err(DecodeError::MissingData)
    }
}

/// What reading `len` packed bools at `pos` yields: `packed_len(len)` bytes
/// are consumed and the first `len` bits are the values.
pub open spec fn spec_read_bools(data: Seq<u8>, pos: int, len: int) -> Result<
    (Seq<bool>, int),
    DecodeError,
> {
    let nbytes = packed_len(len as nat) as int;
    if pos + nbytes <= data.len() {
        Ok((unpacked_bits(data.subrange(pos, pos + nbytes), len as nat), pos + nbytes))
    } else {
        Err(DecodeError::MissingData)
    }
}

/// A read-side cursor over a byte buffer.
pub struct Decoder<'a> {
    data: &'a [u8],
    pos: usize,
}

/// A value that can be read back from a [`Decoder`]. `spec_decode` is the
/// type's parse function: the value and the cursor position after it, or the
/// failure, for any buffer and start position.
pub trait Decodable<T: View> {
    spec fn spec_decode(data: Seq<u8>, pos: int) -> Result<(<T as View>::V, int), DecodeError>;

    fn decode(decoder: &mut Decoder) -> (r: DecodeResult<T>)
        requires
            old(decoder).wf(),
        ensures
            final(decoder).wf(),
            final(decoder).data_spec() == old(decoder).data_spec(),
            match r {
                Ok(v) => Self::spec_decode(old(decoder).data_spec(), old(decoder).pos_spec())
                    == Ok::<_, DecodeError>((v@, final(decoder).pos_spec())),
                Err(e) => Self::spec_decode(old(decoder).data_spec(), old(decoder).pos_spec())
                    == Err::<(<T as View>::V, int), _>(e),
            },
    ;

    /// Decode a whole value from the front of a byte buffer.
    fn decode_from_bytes(buffer: &[u8]) -> (r: DecodeResult<T>)
        ensures
            match r {
                Ok(v) => exists|end: int|
                    Self::spec_decode(buffer@, 0) == Ok::<_, DecodeError>((v@, end)),
                Err(e) => Self::spec_decode(buffer@, 0) == Err::<(<T as View>::V, int), _>(e),
            },
    {
        let mut decoder = Decoder::new(buffer);
        Self::decode(&mut decoder)
    }
}

impl<'a> Decoder<'a> {
    pub closed spec fn data_spec(&self) -> Seq<u8> {
        self.data@
    }

    pub closed spec fn pos_spec(&self) -> int {
        self.pos as int
    }

    pub open spec fn wf(&self) -> bool {
        self.pos_spec() <= self.data_spec().len()
    }

    pub open spec fn remaining_spec(&self) -> int {
        self.data_spec().len() - self.pos_spec()
    }

    pub fn new(buffer: &'a [u8]) -> (r: Self)
        ensures
            r.wf(),
            r.data_spec() == buffer@,
            r.pos_spec() == 0,
    {
        Decoder { data: buffer, pos: 0 }
    }

    pub fn position(&self) -> (r: usize)
        ensures
            r == self.pos_spec(),
    {
        self.pos
    }

    pub fn remaining(&self) -> (r: usize)
        requires
            self.wf(),
        ensures
            r == self.remaining_spec(),
    {
        self.data.len() - self.pos
    }

    pub fn read_u8(&mut self) -> (r: DecodeResult<u8>)
        requires
            old(self).wf(),
        ensures
            final(self).wf(),
            final(self).data_spec() == old(self).data_spec(),
            match r {
                Ok(v) => spec_read_u8(old(self).data_spec(), old(self).pos_spec())
                    == Ok::<_, DecodeError>((v, final(self).pos_spec())),
                Err(e) => spec_read_u8(old(self).data_spec(), old(self).pos_spec())
                    == Err::<(u8, int), _>(e) && final(self).pos_spec() == old(self).pos_spec(),
            },
    {
        if self.data.len() - self.pos < 1 {
            return Err(DecodeError::MissingData);
        }
        let v = self.data[self.pos];
        self.pos = self.pos + 1;
        Ok(v)
    }

    pub fn read_u16(&mut self) -> (r: DecodeResult<u16>)
        requires
            old(self).wf(),
        ensures
            final(self).wf(),
            final(self).data_spec() == old(self).data_spec(),
            match r {
                Ok(v) => spec_read_u16(old(self).data_spec(), old(self).pos_spec())
                    == Ok::<_, DecodeError>((v, final(self).pos_spec())),
                Err(e) => spec_read_u16(old(self).data_spec(), old(self).pos_spec())
                    == Err::<(u16, int), _>(e) && final(self).pos_spec() == old(self).pos_spec(),
            },
    {
        if self.data.len() - self.pos < 2 {
            return Err(DecodeError::MissingData);
        }
        let hi = self.data[self.pos];
        let lo = self.data[self.pos + 1];
        self.pos = self.pos + 2;
        Ok((hi as u16) * 256 + (lo as u16))
    }

    pub fn read_bytes(&mut self, length: usize) -> (r: DecodeResult<Vec<u8>>)
        requires
            old(self).wf(),
        ensures
            final(self).wf(),
            final(self).data_spec() == old(self).data_spec(),
            match r {
                Ok(v) => spec_read_bytes(old(self).data_spec(), old(self).pos_spec(), length as int)
                    == Ok::<_, DecodeError>((v@, final(self).pos_spec())),
                Err(e) => spec_read_bytes(
                    old(self).data_spec(),
                    old(self).pos_spec(),
                    length as int,
                ) == Err::<(Seq<u8>, int), _>(e) && final(self).pos_spec() == old(self).pos_spec(),
            },
    {
        if self.data.len() - self.pos < length {
            return Err(DecodeError::MissingData);
        }
        let mut bytes: Vec<u8> = Vec::new();
        let mut i: usize = 0;
        while i < length
            invariant
                i <= length,
                self.pos + length <= self.data@.len(),
                self.data@.len() <= usize::MAX,
                bytes@ == self.data@.subrange(self.pos as int, self.pos + i),
            decreases length - i,
        {
            bytes.push(self.data[self.pos + i]);
            assert(bytes@ =~= self.data@.subrange(self.pos as int, self.pos + i + 1));
            i = i + 1;
        }
        self.pos = self.pos + length;
        Ok(bytes)
    }

    pub fn read_registers(&mut self, length: usize) -> (r: DecodeResult<Vec<u16>>)
        requires
            old(self).wf(),
        ensures
            final(self).wf(),
            final(self).data_spec() == old(self).data_spec(),
            match r {
                Ok(v) => spec_read_registers(
                    old(self).data_spec(),
                    old(self).pos_spec(),
                    length as int,
                ) == Ok::<_, DecodeError>((v@, final(self).pos_spec())),
                Err(e) => spec_read_registers(
                    old(self).data_spec(),
                    old(self).pos_spec(),
                    length as int,
                ) == Err::<(Seq<u16>, int), _>(e) && final(self).pos_spec() == old(self).pos_spec(),
            },
    {
        let data_len = self.data.len();
        if length > usize::MAX / 2 || data_len - self.pos < 2 * length {
            return Err(DecodeError::MissingData);
        }
        let ghost start = self.pos_spec();
        let mut registers: Vec<u16> = Vec::new();
        let mut i: usize = 0;
        while i < length
            invariant
                i <= length,
                self.data_spec() == old(self).data_spec(),
                start + 2 * length <= self.data_spec().len(),
                self.pos_spec() == start + 2 * i,
                registers@.len() == i,
                forall|j: int|
                    0 <= j < i ==> registers@[j] == u16_from_be(
                        self.data_spec()[start + 2 * j],
                        self.data_spec()[start + 2 * j + 1],
                    ),
            decreases length - i,
        {
            let v = match self.read_u16() {
                Ok(v) => v,
                Err(e) => {
                    return Err(e);
                },
            };
            registers.push(v);
            i = i + 1;
        }
        let ghost expected = Seq::new(
            length as nat,
            |j: int| u16_from_be(self.data_spec()[start + 2 * j], self.data_spec()[start + 2 * j + 1]),
        );
        assert(registers@ =~= expected);
        Ok(registers)
    }

    pub fn read_bools(&mut self, length: usize) -> (r: DecodeResult<Vec<bool>>)
        requires
            old(self).wf(),
        ensures
            final(self).wf(),
            final(self).data_spec() == old(self).data_spec(),
            match r {
                Ok(v) => spec_read_bools(old(self).data_spec(), old(self).pos_spec(), length as int)
                    == Ok::<_, DecodeError>((v@, final(self).pos_spec())),
                Err(e) => spec_read_bools(
                    old(self).data_spec(),
                    old(self).pos_spec(),
                    length as int,
                ) == Err::<(Seq<bool>, int), _>(e) && final(self).pos_spec() == old(self).pos_spec(),
            },
    {
        let byte_length = length / 8 + if length % 8 == 0 {
            0
        } else {
            1
        };
        assert(byte_length == packed_len(length as nat));
        if self.data.len() - self.pos < byte_length {
            return Err(DecodeError::MissingData);
        }
        let ghost start = self.pos_spec();
        let ghost window = self.data_spec().subrange(start, start + byte_length);
        let mut values: Vec<bool> = Vec::new();
        let mut k: usize = 0;
        while k < byte_length
            invariant
                k <= byte_length,
                0 <= start,
                byte_length == packed_len(length as nat),
                self.data_spec() == old(self).data_spec(),
                start + byte_length <= self.data_spec().len(),
                self.pos_spec() == start + k,
                window == self.data_spec().subrange(start, start + byte_length),
                window.len() == byte_length,
                values@.len() == (if 8 * k <= length {
                    8 * k
                } else {
                    length as int
                }),
                forall|j: int| 0 <= j < values@.len() ==> values@[j] == bit_of(window[j / 8], j % 8),
            decreases byte_length - k,
        {
            let byte = match self.read_u8() {
                Ok(v) => v,
                Err(e) => {
                    return Err(e);
                },
            };
            assert(start + k + 1 <= self.data_spec().len());
            assert(byte == self.data_spec()[start + k]);
            assert(window[k as int] == self.data_spec()[start + k]);
            assert(byte == window[k as int]);
            let mut b = byte;
            let mut i2: usize = 0;
            while i2 < 8
                invariant
                    i2 <= 8,
                    k < byte_length,
                    byte_length == packed_len(length as nat),
                    window.len() == byte_length,
                    byte == window[k as int],
                    values@.len() == (if 8 * k + i2 <= length {
                        8 * k + i2
                    } else {
                        length as int
                    }),
                    forall|j: int|
                        0 <= j < values@.len() ==> values@[j] == bit_of(window[j / 8], j % 8),
                    forall|j: int| 0 <= j ==> #[trigger] bit_of(b, j) == bit_of(byte, i2 + j),
                decreases 8 - i2,
            {
                if values.len() < length {
                    proof {
                        assert(8 * k + i2 < length);
                        let j = 8 * k + i2;
                        assert(j / 8 == k && j % 8 == i2) by (nonlinear_arith)
                            requires
                                j == 8 * k + i2,
                                0 <= i2 < 8,
                                0 <= k,
                        ;
                        assert(bit_of(b, 0) == bit_of(byte, i2 + 0));
                    }
                    values.push(b % 2 == 1);
                }
                proof {
                    assert forall|j: int| 0 <= j implies #[trigger] bit_of(b / 2, j) == bit_of(
                        byte,
                        i2 + 1 + j,
                    ) by {
                        assert(bit_of(b, j + 1) == bit_of(b / 2, j));
                        assert(bit_of(b, j + 1) == bit_of(byte, i2 + (j + 1)));
                    }
                }
                b = b / 2;
                i2 = i2 + 1;
            }
            proof {
                assert(8 * (k + 1) <= length ==> values@.len() == 8 * (k + 1));
                assert(8 * (k + 1) > length ==> values@.len() == length) by (nonlinear_arith)
                    requires
                        values@.len() == (if 8 * k + 8 <= length {
                            8 * k + 8
                        } else {
                            length as int
                        }),
                        k + 1 <= byte_length,
                        byte_length == (length + 7) / 8,
                ;
            }
            k = k + 1;
        }
        proof {
            assert(values@.len() == length) by (nonlinear_arith)
                requires
                    values@.len() == (if 8 * byte_length <= length {
                        8 * byte_length
                    } else {
                        length as int
                    }),
                    byte_length == (length + 7) / 8,
            ;
            assert(values@ =~= unpacked_bits(window, length as nat));
        }
        Ok(values)
    }

    pub fn read_type<T: View + Decodable<T>>(&mut self) -> (r: DecodeResult<T>)
        requires
            old(self).wf(),
        ensures
            final(self).wf(),
            final(self).data_spec() == old(self).data_spec(),
            match r {
                Ok(v) => T::spec_decode(old(self).data_spec(), old(self).pos_spec())
                    == Ok::<_, DecodeError>((v@, final(self).pos_spec())),
                Err(e) => T::spec_decode(old(self).data_spec(), old(self).pos_spec())
                    == Err::<(<T as View>::V, int), _>(e),
            },
    {
        T::decode(self)
    }

    /// Decode a whole value from the front of a byte buffer.
    pub fn decode<T: View + Decodable<T>>(buffer: &'a [u8]) -> (r: DecodeResult<T>)
        ensures
            match r {
                Ok(v) => exists|end: int|
                    T::spec_decode(buffer@, 0) == Ok::<_, DecodeError>((v@, end)),
                Err(e) => T::spec_decode(buffer@, 0) == Err::<(<T as View>::V, int), _>(e),
            },
    {
        let mut decoder = Self::new(buffer);
        decoder.read_type()
    }
}

} // verus!
