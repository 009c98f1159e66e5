//! Request to mask-write one holding register; the response echoes it, so the
//! same record serves both directions.

use vstd::prelude::*;
use crate::encoding::{
    Decodable, DecodeError, DecodeResult, Decoder, Encodable, EncodeResult, Encoder,
    spec_read_u16, u16_be_bytes,
};

verus! {

/// Replaces the register at `address` with
/// `(current & and_mask) | (or_mask & !and_mask)`.
#[derive(Clone, Copy, Debug, PartialEq, Eq, Structural)]
pub struct MaskWriteHoldingRegisterRequest {
    pub address: u16,
    pub and_mask: u16,
    pub or_mask: u16,
}

impl View for MaskWriteHoldingRegisterRequest {
    type V = MaskWriteHoldingRegisterRequest;

    open spec fn view(&self) -> MaskWriteHoldingRegisterRequest {
        *self
    }
}

impl Encodable for MaskWriteHoldingRegisterRequest {
    open spec fn wire_ok(&self) -> bool {
        true
    }

    open spec fn wire(&self) -> Seq<u8> {
        u16_be_bytes(self.address) + u16_be_bytes(self.and_mask) + u16_be_bytes(self.or_mask)
    }

    fn encode(&self, encoder: &mut Encoder) -> (r: EncodeResult) {
        encoder.write_u16(self.address);
        encoder.write_u16(self.and_mask);
        encoder.write_u16(self.or_mask);
        assert(encoder@ =~= old(encoder)@ + self.wire());
        Ok(())
    }
}

impl Decodable<MaskWriteHoldingRegisterRequest> for MaskWriteHoldingRegisterRequest {
    open spec fn spec_decode(data: Seq<u8>, pos: int) -> Result<
        (MaskWriteHoldingRegisterRequest, int),
        DecodeError,
    > {
        match spec_read_u16(data, pos) {
            Err(e) => Err(e),
            Ok((address, p)) => match spec_read_u16(data, p) {
                Err(e) => Err(e),
                Ok((and_mask, p)) => match spec_read_u16(data, p) {
                    Err(e) => Err(e),
                    Ok((or_mask, p)) => Ok(
                        (MaskWriteHoldingRegisterRequest { address, and_mask, or_mask }, p),
                    ),
                },
            },
        }
    }

    fn decode(decoder: &mut Decoder) -> (r: DecodeResult<MaskWriteHoldingRegisterRequest>) {
        let address = match decoder.read_u16() {
            Ok(v) => v,
            Err(e) => return Err(e),
        };
        let and_mask = match decoder.read_u16() {
            Ok(v) => v,
            Err(e) => return Err(e),
        };
        let or_mask = match decoder.read_u16() {
            Ok(v) => v,
            Err(e) => return Err(e),
        };
        Ok(MaskWriteHoldingRegisterRequest { address, and_mask, or_mask })
    }
}

/// Decoding an encoded value gives the value back, whatever bytes follow.
pub proof fn lemma_mask_write_holding_register_request_round_trip(
    v: MaskWriteHoldingRegisterRequest,
    rest: Seq<u8>,
)
    ensures
        MaskWriteHoldingRegisterRequest::spec_decode(v.wire() + rest, 0) == Ok::<_, DecodeError>(
            (v, v.wire().len() as int),
        ),
{
    let data = v.wire() + rest;
    assert(data[0] == (v.address / 256) as u8);
    assert(data[1] == (v.address % 256) as u8);
    assert(data[2] == (v.and_mask / 256) as u8);
    assert(data[3] == (v.and_mask % 256) as u8);
    assert(data[4] == (v.or_mask / 256) as u8);
    assert(data[5] == (v.or_mask % 256) as u8);
}

} // verus!
