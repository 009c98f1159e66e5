//! Request to write a run of holding registers: start address, register
//! count, byte count, then the registers, big-endian.

use vstd::prelude::*;
use crate::encoding::{
    Decodable, DecodeError, DecodeResult, Decoder, Encodable, EncodeError, EncodeResult, Encoder,
    lemma_register_bytes_index, lemma_register_bytes_len, register_bytes, spec_read_registers,
    spec_read_u16, spec_read_u8, u16_be_bytes, u16_from_be,
};

verus! {

#[derive(Clone, Debug, PartialEq)]
pub struct WriteMultipleHoldingRegistersRequest {
    pub address: u16,
    pub values: Vec<u16>,
}

impl View for WriteMultipleHoldingRegistersRequest {
    type V = (u16, Seq<u16>);

    open spec fn view(&self) -> (u16, Seq<u16>) {
        (self.address, self.values@)
    }
}

impl Encodable for WriteMultipleHoldingRegistersRequest {
    /// The count field must fit 16 bits and the byte count one byte.
    open spec fn wire_ok(&self) -> bool {
        self.values@.len() <= u16::MAX && 2 * self.values@.len() <= 255
    }

    open spec fn wire(&self) -> Seq<u8> {
        u16_be_bytes(self.address) + u16_be_bytes(self.values@.len() as u16) + seq![
            (2 * self.values@.len()) as u8,
        ] + register_bytes(self.values@)
    }

    fn encode(&self, encoder: &mut Encoder) -> (r: EncodeResult) {
        if self.values.len() > 127 {
            return Err(EncodeError::Overflow);
        }
        encoder.write_u16(self.address);
        encoder.write_u16(self.values.len() as u16);
        encoder.write_u8((2 * self.values.len()) as u8);
        encoder.write_registers(self.values.as_slice());
        assert(encoder@ =~= old(encoder)@ + self.wire());
        Ok(())
    }
}

impl Decodable<WriteMultipleHoldingRegistersRequest> for WriteMultipleHoldingRegistersRequest {
    /// A byte count other than twice the register count is a terminal fault.
    open spec fn spec_decode(data: Seq<u8>, pos: int) -> Result<
        ((u16, Seq<u16>), int),
        DecodeError,
    > {
        match spec_read_u16(data, pos) {
            Err(e) => Err(e),
            Ok((address, p)) => match spec_read_u16(data, p) {
                Err(e) => Err(e),
                Ok((length, p)) => match spec_read_u8(data, p) {
                    Err(e) => Err(e),
                    Ok((byte_length, p)) => if 2 * length != byte_length {
                        Err(DecodeError::InvalidData)
                    } else {
                        match spec_read_registers(data, p, length as int) {
                            Err(e) => Err(e),
                            Ok((values, p)) => Ok(((address, values), p)),
                        }
                    },
                },
            },
        }
    }

    fn decode(decoder: &mut Decoder) -> (r: DecodeResult<WriteMultipleHoldingRegistersRequest>) {
        let address = match decoder.read_u16() {
            Ok(v) => v,
            Err(e) => return Err(e),
        };
        let length = match decoder.read_u16() {
            Ok(v) => v,
            Err(e) => return Err(e),
        };
        let byte_length = match decoder.read_u8() {
            Ok(v) => v,
            Err(e) => return Err(e),
        };
        if length as usize * 2 != byte_length as usize {
            return Err(DecodeError::InvalidData);
        }
        let values = match decoder.read_registers(length as usize) {
            Ok(v) => v,
            Err(e) => return Err(e),
        };
        Ok(WriteMultipleHoldingRegistersRequest { address, values })
    }
}

/// Decoding an encoded request gives the request back, whatever bytes follow,
/// for any register count the wire form admits.
pub proof fn lemma_write_multiple_holding_registers_request_round_trip(
    v: &WriteMultipleHoldingRegistersRequest,
    rest: Seq<u8>,
)
    requires
        v.wire_ok(),
    ensures
        WriteMultipleHoldingRegistersRequest::spec_decode(v.wire() + rest, 0) == Ok::<
            _,
            DecodeError,
        >((v@, v.wire().len() as int)),
{
    let regs = v.values@;
    let n = regs.len() as u16;
    let data = v.wire() + rest;
    lemma_register_bytes_len(regs);
    assert(data[0] == (v.address / 256) as u8);
    assert(data[1] == (v.address % 256) as u8);
    assert(data[2] == (n / 256) as u8);
    assert(data[3] == (n % 256) as u8);
    assert(data[4] == (2 * regs.len()) as u8);
    let decoded = Seq::new(regs.len(), |i: int| u16_from_be(data[5 + 2 * i], data[5 + 2 * i + 1]));
    assert forall|i: int| 0 <= i < regs.len() implies decoded[i] == regs[i] by {
        lemma_register_bytes_index(regs, i);
        assert(data[5 + 2 * i] == register_bytes(regs)[2 * i]);
        assert(data[5 + 2 * i + 1] == register_bytes(regs)[2 * i + 1]);
    }
    assert(decoded =~= regs);
}

} // verus!
