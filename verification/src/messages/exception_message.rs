//! The body of an exception reply: a single byte holding the exception code.

use vstd::prelude::*;
use crate::encoding::{
    Decodable, DecodeError, DecodeResult, Decoder, Encodable, EncodeResult, Encoder, spec_read_u8,
};
use crate::modbus_exception::ModbusException;

verus! {

#[derive(Clone, Copy, Debug, PartialEq)]
pub struct ExceptionMessage {
    pub code: ModbusException,
}

impl ExceptionMessage {
    pub fn from_exception(code: ModbusException) -> (r: Self)
        ensures
            r.code == code,
    {
        ExceptionMessage { code }
    }
}

impl View for ExceptionMessage {
    type V = ExceptionMessage;

    open spec fn view(&self) -> ExceptionMessage {
        *self
    }
}

impl Encodable for ExceptionMessage {
    open spec fn wire_ok(&self) -> bool {
        true
    }

    open spec fn wire(&self) -> Seq<u8> {
        seq![self.code.spec_as_u8()]
    }

    fn encode(&self, encoder: &mut Encoder) -> (r: EncodeResult) {
        encoder.write_u8(self.code.as_u8());
        assert(encoder@ =~= old(encoder)@ + self.wire());
        Ok(())
    }
}

impl Decodable<ExceptionMessage> for ExceptionMessage {
    open spec fn spec_decode(data: Seq<u8>, pos: int) -> Result<
        (ExceptionMessage, int),
        DecodeError,
    > {
        match spec_read_u8(data, pos) {
            Err(e) => Err(e),
            Ok((code, p)) => Ok(
                (ExceptionMessage { code: ModbusException::spec_from_u8(code) }, p),
            ),
        }
    }

    fn decode(decoder: &mut Decoder) -> (r: DecodeResult<ExceptionMessage>) {
        let code = match decoder.read_u8() {
            Ok(v) => v,
            Err(e) => return Err(e),
        };
        Ok(ExceptionMessage { code: ModbusException::from_u8(code) })
    }
}

/// Decoding an encoded exception body gives the code back, whatever bytes
/// follow, for any canonical code.
pub proof fn lemma_exception_message_round_trip(v: ExceptionMessage, rest: Seq<u8>)
    requires
        v.code.is_canonical(),
    ensures
        ExceptionMessage::spec_decode(v.wire() + rest, 0) == Ok::<_, DecodeError>((v, 1int)),
{
    let data = v.wire() + rest;
    assert(data[0] == v.code.spec_as_u8());
}

} // verus!
