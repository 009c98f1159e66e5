//! Response to a coil read: the coil values, bit-packed.

use vstd::prelude::*;
use crate::encoding::{
    Decodable, DecodeError, DecodeResult, Decoder, Encodable, EncodeError, EncodeResult, Encoder,
    lemma_bits_round_trip, packed_bytes, packed_len, spec_read_bools, spec_read_u8, unpacked_bits,
};

verus! {

/// A byte count, then that many bytes of LSB-first bit packing. The logical
/// length travels out of band: a decode on its own yields `byte_count * 8`
/// values, trailing padding included.
#[derive(Clone, Debug, PartialEq)]
pub struct ReadCoilsResponse {
    pub values: Vec<bool>,
}

impl View for ReadCoilsResponse {
    type V = Seq<bool>;

    open spec fn view(&self) -> Seq<bool> {
        self.values@
    }
}

impl Encodable for ReadCoilsResponse {
    /// The byte count must fit one byte: at most 2040 values.
    open spec fn wire_ok(&self) -> bool {
        packed_len(self.values@.len()) <= 255
    }

    open spec fn wire(&self) -> Seq<u8> {
        seq![packed_len(self.values@.len()) as u8] + packed_bytes(self.values@)
    }

    fn encode(&self, encoder: &mut Encoder) -> (r: EncodeResult) {
        let byte_length = self.values.len() / 8 + if self.values.len() % 8 == 0 {
            0
        } else {
            1
        };
        if byte_length > 255 {
            return Err(EncodeError::Overflow);
        }
        encoder.write_u8(byte_length as u8);
        encoder.write_bools(self.values.as_slice());
        assert(encoder@ =~= old(encoder)@ + self.wire());
        Ok(())
    }
}

impl Decodable<ReadCoilsResponse> for ReadCoilsResponse {
    open spec fn spec_decode(data: Seq<u8>, pos: int) -> Result<(Seq<bool>, int), DecodeError> {
        match spec_read_u8(data, pos) {
            Err(e) => Err(e),
            Ok((byte_length, p)) => match spec_read_bools(data, p, byte_length * 8) {
                Err(e) => Err(e),
                Ok((values, p)) => Ok((values, p)),
            },
        }
    }

    fn decode(decoder: &mut Decoder) -> (r: DecodeResult<ReadCoilsResponse>) {
        let byte_length = match decoder.read_u8() {
            Ok(v) => v,
            Err(e) => return Err(e),
        };
        let values = match decoder.read_bools(byte_length as usize * 8) {
            Ok(v) => v,
            Err(e) => return Err(e),
        };
        Ok(ReadCoilsResponse { values })
    }
}

/// Decoding an encoded response gives the values back, whatever bytes follow,
/// when the value count is a whole number of bytes (otherwise the decode pads
/// the tail with cleared bits).
pub proof fn lemma_read_coils_response_round_trip(v: &ReadCoilsResponse, rest: Seq<u8>)
    requires
        v.wire_ok(),
        v.values@.len() % 8 == 0,
    ensures
        ReadCoilsResponse::spec_decode(v.wire() + rest, 0) == Ok::<_, DecodeError>(
            (v@, v.wire().len() as int),
        ),
{
    let values = v.values@;
    let data = v.wire() + rest;
    let bl = packed_len(values.len());
    assert(data[0] == bl as u8);
    assert(bl * 8 == values.len()) by (nonlinear_arith)
        requires
            bl == (values.len() + 7) / 8,
            values.len() % 8 == 0,
    ;
    assert(data.subrange(1, 1 + bl as int) =~= packed_bytes(values));
    lemma_bits_round_trip(values);
    assert(unpacked_bits(data.subrange(1, 1 + bl as int), (bl * 8) as nat) =~= values);
}

} // verus!
