//! Request to write one holding register.

use vstd::prelude::*;
use crate::encoding::{
    Decodable, DecodeError, DecodeResult, Decoder, Encodable, EncodeResult, Encoder,
    spec_read_u16, u16_be_bytes,
};

verus! {

/// Writes `value` to the register at `address`.
#[derive(Clone, Copy, Debug, PartialEq, Eq, Structural)]
pub struct WriteSingleHoldingRegisterRequest {
    pub address: u16,
    pub value: u16,
}

impl View for WriteSingleHoldingRegisterRequest {
    type V = WriteSingleHoldingRegisterRequest;

    open spec fn view(&self) -> WriteSingleHoldingRegisterRequest {
        *self
    }
}

impl Encodable for WriteSingleHoldingRegisterRequest {
    open spec fn wire_ok(&self) -> bool {
        true
    }

    open spec fn wire(&self) -> Seq<u8> {
        u16_be_bytes(self.address) + u16_be_bytes(self.value)
    }

    fn encode(&self, encoder: &mut Encoder) -> (r: EncodeResult) {
        encoder.write_u16(self.address);
        encoder.write_u16(self.value);
        assert(encoder@ =~= old(encoder)@ + self.wire());
        Ok(())
    }
}

impl Decodable<WriteSingleHoldingRegisterRequest> for WriteSingleHoldingRegisterRequest {
    open spec fn spec_decode(data: Seq<u8>, pos: int) -> Result<(WriteSingleHoldingRegisterRequest, int), DecodeError> {
        match spec_read_u16(data, pos) {
            Err(e) => Err(e),
            Ok((address, p)) => match spec_read_u16(data, p) {
                Err(e) => Err(e),
                Ok((value, p)) => Ok((WriteSingleHoldingRegisterRequest { address, value }, p)),
            },
        }
    }

    fn decode(decoder: &mut Decoder) -> (r: DecodeResult<WriteSingleHoldingRegisterRequest>) {
        let address = match decoder.read_u16() {
            Ok(v) => v,
            Err(e) => return Err(e),
        };
        let value = match decoder.read_u16() {
            Ok(v) => v,
            Err(e) => return Err(e),
        };
        Ok(WriteSingleHoldingRegisterRequest { address, value })
    }
}

/// Decoding an encoded value gives the value back, whatever bytes follow.
pub proof fn lemma_write_single_holding_register_request_round_trip(v: WriteSingleHoldingRegisterRequest, rest: Seq<u8>)
    ensures
        WriteSingleHoldingRegisterRequest::spec_decode(v.wire() + rest, 0) == Ok::<_, DecodeError>(
            (v, v.wire().len() as int),
        ),
{
    let data = v.wire() + rest;
    assert(data[0] == (v.address / 256) as u8);
    assert(data[1] == (v.address % 256) as u8);
    assert(data[2] == (v.value / 256) as u8);
    assert(data[3] == (v.value % 256) as u8);
}

} // verus!
