//! Request to read a run of discrete inputs.

use vstd::prelude::*;
use crate::encoding::{
    Decodable, DecodeError, DecodeResult, Decoder, Encodable, EncodeResult, Encoder,
    spec_read_u16, u16_be_bytes,
};

verus! {

/// Asks the server for `length` discrete inputs starting at `address`.
#[derive(Clone, Copy, Debug, PartialEq, Eq, Structural)]
pub struct ReadDiscreteInputsRequest {
    pub address: u16,
    pub length: u16,
}

impl View for ReadDiscreteInputsRequest {
    type V = ReadDiscreteInputsRequest;

    open spec fn view(&self) -> ReadDiscreteInputsRequest {
        *self
    }
}

impl Encodable for ReadDiscreteInputsRequest {
    open spec fn wire_ok(&self) -> bool {
        true
    }

    open spec fn wire(&self) -> Seq<u8> {
        u16_be_bytes(self.address) + u16_be_bytes(self.length)
    }

    fn encode(&self, encoder: &mut Encoder) -> (r: EncodeResult) {
        encoder.write_u16(self.address);
        encoder.write_u16(self.length);
        assert(encoder@ =~= old(encoder)@ + self.wire());
        Ok(())
    }
}

impl Decodable<ReadDiscreteInputsRequest> for ReadDiscreteInputsRequest {
    open spec fn spec_decode(data: Seq<u8>, pos: int) -> Result<(ReadDiscreteInputsRequest, int), DecodeError> {
        match spec_read_u16(data, pos) {
            Err(e) => Err(e),
            Ok((address, p)) => match spec_read_u16(data, p) {
                Err(e) => Err(e),
                Ok((length, p)) => Ok((ReadDiscreteInputsRequest { address, length }, p)),
            },
        }
    }

    fn decode(decoder: &mut Decoder) -> (r: DecodeResult<ReadDiscreteInputsRequest>) {
        let address = match decoder.read_u16() {
            Ok(v) => v,
            Err(e) => return Err(e),
        };
        let length = match decoder.read_u16() {
            Ok(v) => v,
            Err(e) => return Err(e),
        };
        Ok(ReadDiscreteInputsRequest { address, length })
    }
}

/// Decoding an encoded value gives the value back, whatever bytes follow.
pub proof fn lemma_read_discrete_inputs_request_round_trip(v: ReadDiscreteInputsRequest, rest: Seq<u8>)
    ensures
        ReadDiscreteInputsRequest::spec_decode(v.wire() + rest, 0) == Ok::<_, DecodeError>(
            (v, v.wire().len() as int),
        ),
{
    let data = v.wire() + rest;
    assert(data[0] == (v.address / 256) as u8);
    assert(data[1] == (v.address % 256) as u8);
    assert(data[2] == (v.length / 256) as u8);
    assert(data[3] == (v.length % 256) as u8);
}

} // verus!
