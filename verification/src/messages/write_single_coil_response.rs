//! Response to a single-coil write: the echoed address and value.

use vstd::prelude::*;
use crate::encoding::{
    Decodable, DecodeError, DecodeResult, Decoder, Encodable, EncodeResult, Encoder,
    spec_read_u16, u16_be_bytes,
};
use crate::messages::write_single_coil_request::coil_word;

verus! {

/// Echoes the written coil back to the client.
#[derive(Clone, Copy, Debug, PartialEq, Eq, Structural)]
pub struct WriteSingleCoilResponse {
    pub address: u16,
    pub value: bool,
}

impl View for WriteSingleCoilResponse {
    type V = WriteSingleCoilResponse;

    open spec fn view(&self) -> WriteSingleCoilResponse {
        *self
    }
}

impl Encodable for WriteSingleCoilResponse {
    open spec fn wire_ok(&self) -> bool {
        true
    }

    open spec fn wire(&self) -> Seq<u8> {
        u16_be_bytes(self.address) + u16_be_bytes(coil_word(self.value))
    }

    fn encode(&self, encoder: &mut Encoder) -> (r: EncodeResult) {
        encoder.write_u16(self.address);
        encoder.write_u16(if self.value {
            0xFF00
        } else {
            0
        });
        assert(encoder@ =~= old(encoder)@ + self.wire());
        Ok(())
    }
}

impl Decodable<WriteSingleCoilResponse> for WriteSingleCoilResponse {
    /// Any non-zero word decodes as an asserted coil.
    open spec fn spec_decode(data: Seq<u8>, pos: int) -> Result<(WriteSingleCoilResponse, int), DecodeError> {
        match spec_read_u16(data, pos) {
            Err(e) => Err(e),
            Ok((address, p)) => match spec_read_u16(data, p) {
                Err(e) => Err(e),
                Ok((word, p)) => Ok((WriteSingleCoilResponse { address, value: word != 0 }, p)),
            },
        }
    }

    fn decode(decoder: &mut Decoder) -> (r: DecodeResult<WriteSingleCoilResponse>) {
        let address = match decoder.read_u16() {
            Ok(v) => v,
            Err(e) => return Err(e),
        };
        let word = match decoder.read_u16() {
            Ok(v) => v,
            Err(e) => return Err(e),
        };
        Ok(WriteSingleCoilResponse { address, value: word != 0 })
    }
}

/// Decoding an encoded value gives the value back, whatever bytes follow.
pub proof fn lemma_write_single_coil_response_round_trip(v: WriteSingleCoilResponse, rest: Seq<u8>)
    ensures
        WriteSingleCoilResponse::spec_decode(v.wire() + rest, 0) == Ok::<_, DecodeError>(
            (v, v.wire().len() as int),
        ),
{
    let data = v.wire() + rest;
    assert(data[0] == (v.address / 256) as u8);
    assert(data[1] == (v.address % 256) as u8);
    assert(data[2] == (coil_word(v.value) / 256) as u8);
    assert(data[3] == (coil_word(v.value) % 256) as u8);
}

} // verus!
