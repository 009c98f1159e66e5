//! Request to write a run of coils: start address, coil count, byte count,
//! then the coil values, bit-packed.

use vstd::prelude::*;
use crate::encoding::{
    Decodable, DecodeError, DecodeResult, Decoder, Encodable, EncodeError, EncodeResult, Encoder,
    lemma_bits_round_trip, packed_bytes, packed_len, spec_read_bools, spec_read_u16, spec_read_u8,
    u16_be_bytes, unpacked_bits,
};

verus! {

#[derive(Clone, Debug, PartialEq)]
pub struct WriteMultipleCoilsRequest {
    pub address: u16,
    pub values: Vec<bool>,
}

impl View for WriteMultipleCoilsRequest {
    type V = (u16, Seq<bool>);

    open spec fn view(&self) -> (u16, Seq<bool>) {
        (self.address, self.values@)
    }
}

impl Encodable for WriteMultipleCoilsRequest {
    /// The count field must fit 16 bits and the byte count one byte.
    open spec fn wire_ok(&self) -> bool {
        self.values@.len() <= u16::MAX && packed_len(self.values@.len()) <= 255
    }

    open spec fn wire(&self) -> Seq<u8> {
        u16_be_bytes(self.address) + u16_be_bytes(self.values@.len() as u16) + seq![
            packed_len(self.values@.len()) as u8,
        ] + packed_bytes(self.values@)
    }

    fn encode(&self, encoder: &mut Encoder) -> (r: EncodeResult) {
        if self.values.len() > u16::MAX as usize {
            return Err(EncodeError::Overflow);
        }
        let byte_length = self.values.len() / 8 + if self.values.len() % 8 == 0 {
            0
        } else {
            1
        };
        if byte_length > 255 {
            return Err(EncodeError::Overflow);
        }
        encoder.write_u16(self.address);
        encoder.write_u16(self.values.len() as u16);
        encoder.write_u8(byte_length as u8);
        encoder.write_bools(self.values.as_slice());
        assert(encoder@ =~= old(encoder)@ + self.wire());
        Ok(())
    }
}

impl Decodable<WriteMultipleCoilsRequest> for WriteMultipleCoilsRequest {
    /// A byte count that does not match the coil count is a terminal fault.
    open spec fn spec_decode(data: Seq<u8>, pos: int) -> Result<
        ((u16, Seq<bool>), int),
        DecodeError,
    > {
        match spec_read_u16(data, pos) {
            Err(e) => Err(e),
            Ok((address, p)) => match spec_read_u16(data, p) {
                Err(e) => Err(e),
                Ok((length, p)) => match spec_read_u8(data, p) {
                    Err(e) => Err(e),
                    Ok((byte_length, p)) => if packed_len(length as nat) != byte_length {
                        Err(DecodeError::InvalidData)
                    } else {
                        match spec_read_bools(data, p, length as int) {
                            Err(e) => Err(e),
                            Ok((values, p)) => Ok(((address, values), p)),
                        }
                    },
                },
            },
        }
    }

    fn decode(decoder: &mut Decoder) -> (r: DecodeResult<WriteMultipleCoilsRequest>) {
        let address = match decoder.read_u16() {
            Ok(v) => v,
            Err(e) => return Err(e),
        };
        let length = match decoder.read_u16() {
            Ok(v) => v,
            Err(e) => return Err(e),
        };
        let byte_length = match decoder.read_u8() {
            Ok(v) => v,
            Err(e) => return Err(e),
        };
        let expected = length as usize / 8 + if length as usize % 8 == 0 {
            0
        } else {
            1
        };
        if expected != byte_length as usize {
            return Err(DecodeError::InvalidData);
        }
        let values = match decoder.read_bools(length as usize) {
            Ok(v) => v,
            Err(e) => return Err(e),
        };
        Ok(WriteMultipleCoilsRequest { address, values })
    }
}

/// Decoding an encoded request gives the request back, whatever bytes follow,
/// for any coil count the wire form admits.
pub proof fn lemma_write_multiple_coils_request_round_trip(
    v: &WriteMultipleCoilsRequest,
    rest: Seq<u8>,
)
    requires
        v.wire_ok(),
    ensures
        WriteMultipleCoilsRequest::spec_decode(v.wire() + rest, 0) == Ok::<_, DecodeError>(
            (v@, v.wire().len() as int),
        ),
{
    let values = v.values@;
    let n = values.len() as u16;
    let data = v.wire() + rest;
    let bl = packed_len(values.len());
    assert(data[0] == (v.address / 256) as u8);
    assert(data[1] == (v.address % 256) as u8);
    assert(data[2] == (n / 256) as u8);
    assert(data[3] == (n % 256) as u8);
    assert(data[4] == bl as u8);
    assert(data.subrange(5, 5 + bl as int) =~= packed_bytes(values));
    lemma_bits_round_trip(values);
    assert(unpacked_bits(data.subrange(5, 5 + bl as int), values.len()) =~= values);
}

} // verus!
