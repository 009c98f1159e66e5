//! Response to a register read: an even byte count, then that many bytes of
//! big-endian 16-bit registers.

use vstd::prelude::*;
use crate::encoding::{
    Decodable, DecodeError, DecodeResult, Decoder, Encodable, EncodeError, EncodeResult, Encoder,
    lemma_register_bytes_index, lemma_register_bytes_len, register_bytes, spec_read_registers,
    spec_read_u8, u16_from_be,
};

verus! {

#[derive(Clone, Debug, PartialEq)]
pub struct ReadHoldingRegistersResponse {
    pub values: Vec<u16>,
}

impl View for ReadHoldingRegistersResponse {
    type V = Seq<u16>;

    open spec fn view(&self) -> Seq<u16> {
        self.values@
    }
}

impl Encodable for ReadHoldingRegistersResponse {
    /// The byte count must fit one byte: at most 127 registers.
    open spec fn wire_ok(&self) -> bool {
        2 * self.values@.len() <= 255
    }

    open spec fn wire(&self) -> Seq<u8> {
        seq![(2 * self.values@.len()) as u8] + register_bytes(self.values@)
    }

    fn encode(&self, encoder: &mut Encoder) -> (r: EncodeResult) {
        if self.values.len() > 127 {
            return Err(EncodeError::Overflow);
        }
        encoder.write_u8((2 * self.values.len()) as u8);
        encoder.write_registers(self.values.as_slice());
        assert(encoder@ =~= old(encoder)@ + self.wire());
        Ok(())
    }
}

impl Decodable<ReadHoldingRegistersResponse> for ReadHoldingRegistersResponse {
    /// An odd byte count is a terminal fault.
    open spec fn spec_decode(data: Seq<u8>, pos: int) -> Result<(Seq<u16>, int), DecodeError> {
        match spec_read_u8(data, pos) {
            Err(e) => Err(e),
            Ok((byte_length, p)) => if byte_length % 2 != 0 {
                Err(DecodeError::InvalidData)
            } else {
                match spec_read_registers(data, p, byte_length as int / 2) {
                    Err(e) => Err(e),
                    Ok((values, p)) => Ok((values, p)),
                }
            },
        }
    }

    fn decode(decoder: &mut Decoder) -> (r: DecodeResult<ReadHoldingRegistersResponse>) {
        let byte_length = match decoder.read_u8() {
            Ok(v) => v,
            Err(e) => return Err(e),
        };
        if byte_length % 2 != 0 {
            return Err(DecodeError::InvalidData);
        }
        let values = match decoder.read_registers(byte_length as usize / 2) {
            Ok(v) => v,
            Err(e) => return Err(e),
        };
        Ok(ReadHoldingRegistersResponse { values })
    }
}

/// Decoding an encoded response gives the registers back, whatever bytes
/// follow, for any register count the wire form admits.
pub proof fn lemma_read_holding_registers_response_round_trip(
    v: &ReadHoldingRegistersResponse,
    rest: Seq<u8>,
)
    requires
        v.wire_ok(),
    ensures
        ReadHoldingRegistersResponse::spec_decode(v.wire() + rest, 0) == Ok::<_, DecodeError>(
            (v@, v.wire().len() as int),
        ),
{
    let regs = v.values@;
    let data = v.wire() + rest;
    lemma_register_bytes_len(regs);
    assert(data[0] == (2 * regs.len()) as u8);
    let n = regs.len() as int;
    let decoded = Seq::new(regs.len(), |i: int| u16_from_be(data[1 + 2 * i], data[1 + 2 * i + 1]));
    assert forall|i: int| 0 <= i < n implies decoded[i] == regs[i] by {
        lemma_register_bytes_index(regs, i);
        assert(data[1 + 2 * i] == register_bytes(regs)[2 * i]);
        assert(data[1 + 2 * i + 1] == register_bytes(regs)[2 * i + 1]);
    }
    assert(decoded =~= regs);
}

} // verus!
