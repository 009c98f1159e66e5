//! Request to read a run of input registers.

use vstd::prelude::*;
use crate::encoding::{
    Decodable, DecodeError, DecodeResult, Decoder, Encodable, EncodeResult, Encoder,
    spec_read_u16, u16_be_bytes,
};

verus! {

/// Asks the server for `length` input registers starting at `address`.
#[derive(Clone, Copy, Debug, PartialEq, Eq, Structural)]
pub struct ReadInputRegistersRequest {
    pub address: u16,
    pub length: u16,
}

impl View for ReadInputRegistersRequest {
    type V = ReadInputRegistersRequest;

    open spec fn view(&self) -> ReadInputRegistersRequest {
        *self
    }
}

impl Encodable for ReadInputRegistersRequest {
    open spec fn wire_ok(&self) -> bool {
        true
    }

    open spec fn wire(&self) -> Seq<u8> {
        u16_be_bytes(self.address) + u16_be_bytes(self.length)
    }

    fn encode(&self, encoder: &mut Encoder) -> (r: EncodeResult) {
        encoder.write_u16(self.address);
        encoder.write_u16(self.length);
        assert(encoder@ =~= old(encoder)@ + self.wire());
        Ok(())
    }
}

impl Decodable<ReadInputRegistersRequest> for ReadInputRegistersRequest {
    open spec fn spec_decode(data: Seq<u8>, pos: int) -> Result<(ReadInputRegistersRequest, int), DecodeError> {
        match spec_read_u16(data, pos) {
            Err(e) => Err(e),
            Ok((address, p)) => match spec_read_u16(data, p) {
                Err(e) => Err(e),
                Ok((length, p)) => Ok((ReadInputRegistersRequest { address, length }, p)),
            },
        }
    }

    fn decode(decoder: &mut Decoder) -> (r: DecodeResult<ReadInputRegistersRequest>) {
        let address = match decoder.read_u16() {
            Ok(v) => v,
            Err(e) => return Err(e),
        };
        let length = match decoder.read_u16() {
            Ok(v) => v,
            Err(e) => return Err(e),
        };
        Ok(ReadInputRegistersRequest { address, length })
    }
}

/// Decoding an encoded value gives the value back, whatever bytes follow.
pub proof fn lemma_read_input_registers_request_round_trip(v: ReadInputRegistersRequest, rest: Seq<u8>)
    ensures
        ReadInputRegistersRequest::spec_decode(v.wire() + rest, 0) == Ok::<_, DecodeError>(
            (v, v.wire().len() as int),
        ),
{
    let data = v.wire() + rest;
    assert(data[0] == (v.address / 256) as u8);
    assert(data[1] == (v.address % 256) as u8);
    assert(data[2] == (v.length / 256) as u8);
    assert(data[3] == (v.length % 256) as u8);
}

} // verus!
