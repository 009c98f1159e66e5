//! Request to write one coil.

use vstd::prelude::*;
use crate::encoding::{
    Decodable, DecodeError, DecodeResult, Decoder, Encodable, EncodeResult, Encoder,
    spec_read_u16, u16_be_bytes,
};

verus! {

/// Writes `value` to the coil at `address`.
#[derive(Clone, Copy, Debug, PartialEq, Eq, Structural)]
pub struct WriteSingleCoilRequest {
    pub address: u16,
    pub value: bool,
}

/// A coil value on the wire: `0xFF00` for on, `0x0000` for off.
pub open spec fn coil_word(value: bool) -> u16 {
    if value {
        0xFF00
    } else {
        0
    }
}

impl View for WriteSingleCoilRequest {
    type V = WriteSingleCoilRequest;

    open spec fn view(&self) -> WriteSingleCoilRequest {
        *self
    }
}

impl Encodable for WriteSingleCoilRequest {
    open spec fn wire_ok(&self) -> bool {
        true
    }

    open spec fn wire(&self) -> Seq<u8> {
        u16_be_bytes(self.address) + u16_be_bytes(coil_word(self.value))
    }

    fn encode(&self, encoder: &mut Encoder) -> (r: EncodeResult) {
        encoder.write_u16(self.address);
        encoder.write_u16(if self.value {
            0xFF00
        } else {
            0
        });
        assert(encoder@ =~= old(encoder)@ + self.wire());
        Ok(())
    }
}

impl Decodable<WriteSingleCoilRequest> for WriteSingleCoilRequest {
    /// Any non-zero word decodes as an asserted coil.
    open spec fn spec_decode(data: Seq<u8>, pos: int) -> Result<(WriteSingleCoilRequest, int), DecodeError> {
        match spec_read_u16(data, pos) {
            Err(e) => Err(e),
            Ok((address, p)) => match spec_read_u16(data, p) {
                Err(e) => Err(e),
                Ok((word, p)) => Ok((WriteSingleCoilRequest { address, value: word != 0 }, p)),
            },
        }
    }

    fn decode(decoder: &mut Decoder) -> (r: DecodeResult<WriteSingleCoilRequest>) {
        let address = match decoder.read_u16() {
            Ok(v) => v,
            Err(e) => return Err(e),
        };
        let word = match decoder.read_u16() {
            Ok(v) => v,
            Err(e) => return Err(e),
        };
        Ok(WriteSingleCoilRequest { address, value: word != 0 })
    }
}

/// Decoding an encoded value gives the value back, whatever bytes follow.
pub proof fn lemma_write_single_coil_request_round_trip(v: WriteSingleCoilRequest, rest: Seq<u8>)
    ensures
        WriteSingleCoilRequest::spec_decode(v.wire() + rest, 0) == Ok::<_, DecodeError>(
            (v, v.wire().len() as int),
        ),
{
    let data = v.wire() + rest;
    assert(data[0] == (v.address / 256) as u8);
    assert(data[1] == (v.address % 256) as u8);
    assert(data[2] == (coil_word(v.value) / 256) as u8);
    assert(data[3] == (coil_word(v.value) % 256) as u8);
}

} // verus!
