//! Request to read a run of coils.

use vstd::prelude::*;
use crate::encoding::{
    Decodable, DecodeError, DecodeResult, Decoder, Encodable, EncodeResult, Encoder,
    spec_read_u16, u16_be_bytes,
};

verus! {

/// Asks the server for `length` coils starting at `address`.
#[derive(Clone, Copy, Debug, PartialEq, Eq, Structural)]
pub struct ReadCoilsRequest {
    pub address: u16,
    pub length: u16,
}

impl View for ReadCoilsRequest {
    type V = ReadCoilsRequest;

    open spec fn view(&self) -> ReadCoilsRequest {
        *self
    }
}

impl Encodable for ReadCoilsRequest {
    open spec fn wire_ok(&self) -> bool {
        true
    }

    open spec fn wire(&self) -> Seq<u8> {
        u16_be_bytes(self.address) + u16_be_bytes(self.length)
    }

    fn encode(&self, encoder: &mut Encoder) -> (r: EncodeResult) {
        encoder.write_u16(self.address);
        encoder.write_u16(self.length);
        assert(encoder@ =~= old(encoder)@ + self.wire());
        Ok(())
    }
}

impl Decodable<ReadCoilsRequest> for ReadCoilsRequest {
    open spec fn spec_decode(data: Seq<u8>, pos: int) -> Result<(ReadCoilsRequest, int), DecodeError> {
        match spec_read_u16(data, pos) {
            Err(e) => Err(e),
            Ok((address, p)) => match spec_read_u16(data, p) {
                Err(e) => Err(e),
                Ok((length, p)) => Ok((ReadCoilsRequest { address, length }, p)),
            },
        }
    }

    fn decode(decoder: &mut Decoder) -> (r: DecodeResult<ReadCoilsRequest>) {
        let address = match decoder.read_u16() {
            Ok(v) => v,
            Err(e) => return Err(e),
        };
        let length = match decoder.read_u16() {
            Ok(v) => v,
            Err(e) => return Err(e),
        };
        Ok(ReadCoilsRequest { address, length })
    }
}

/// Decoding an encoded value gives the value back, whatever bytes follow.
pub proof fn lemma_read_coils_request_round_trip(v: ReadCoilsRequest, rest: Seq<u8>)
    ensures
        ReadCoilsRequest::spec_decode(v.wire() + rest, 0) == Ok::<_, DecodeError>(
            (v, v.wire().len() as int),
        ),
{
    let data = v.wire() + rest;
    assert(data[0] == (v.address / 256) as u8);
    assert(data[1] == (v.address % 256) as u8);
    assert(data[2] == (v.length / 256) as u8);
    assert(data[3] == (v.length % 256) as u8);
}

} // verus!
