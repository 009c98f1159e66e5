//! The MBAP-framed message: transaction id, protocol id, the on-wire length
//! field (body length plus two, covering unit id and function code), unit id,
//! function code and opaque body.

use vstd::prelude::*;
use crate::encoding::{
    Decodable, DecodeError, DecodeResult, Decoder, Encodable, EncodeError, EncodeResult, Encoder,
    spec_read_bytes, spec_read_u16, spec_read_u8, u16_be_bytes, u16_from_be,
};
use crate::function_code::FunctionCode;

verus! {

/// Total frame length cap in bytes; the length field may be at most 254, so
/// the body may hold at most 252 bytes.
pub const MSG_MAX_LENGTH: usize = 260;

#[derive(Debug, PartialEq)]
pub struct Message {
    pub transaction_id: u16,
    pub protocol_id: u16,
    pub unit_id: u8,
    pub function_code: FunctionCode,
    pub body: Vec<u8>,
}

/// A message's fields with the body as an abstract byte sequence.
pub struct MessageView {
    pub transaction_id: u16,
    pub protocol_id: u16,
    pub unit_id: u8,
    pub function_code: FunctionCode,
    pub body: Seq<u8>,
}

impl View for Message {
    type V = MessageView;

    open spec fn view(&self) -> MessageView {
        MessageView {
            transaction_id: self.transaction_id,
            protocol_id: self.protocol_id,
            unit_id: self.unit_id,
            function_code: self.function_code,
            body: self.body@,
        }
    }
}

impl Encodable for Message {
    /// The length field must fit 16 bits.
    open spec fn wire_ok(&self) -> bool {
        self.body@.len() + 2 <= u16::MAX
    }

    open spec fn wire(&self) -> Seq<u8> {
        u16_be_bytes(self.transaction_id) + u16_be_bytes(self.protocol_id) + u16_be_bytes(
            (self.body@.len() + 2) as u16,
        ) + seq![self.unit_id, self.function_code.spec_as_u8()] + self.body@
    }

    fn encode(&self, encoder: &mut Encoder) -> (r: EncodeResult) {
        if self.body.len() > (u16::MAX - 2) as usize {
            return Err(EncodeError::Overflow);
        }
        encoder.write_u16(self.transaction_id);
        encoder.write_u16(self.protocol_id);
        encoder.write_u16((self.body.len() + 2) as u16);
        encoder.write_u8(self.unit_id);
        encoder.write_u8(self.function_code.as_u8());
        encoder.write_bytes(self.body.as_slice());
        assert(encoder@ =~= old(encoder)@ + self.wire());
        Ok(())
    }
}

impl Decodable<Message> for Message {
    /// The six-byte header, a length field capped at 254 and at least 2, then
    /// exactly `length - 2` body bytes. A missing tail is recoverable; a
    /// length outside its bounds is terminal.
    open spec fn spec_decode(data: Seq<u8>, pos: int) -> Result<(MessageView, int), DecodeError> {
        match spec_read_u16(data, pos) {
            Err(e) => Err(e),
            Ok((transaction_id, p)) => match spec_read_u16(data, p) {
                Err(e) => Err(e),
                Ok((protocol_id, p)) => match spec_read_u16(data, p) {
                    Err(e) => Err(e),
                    Ok((byte_length, p)) => if byte_length > (MSG_MAX_LENGTH - 6) as u16
                        || byte_length < 2 {
                        Err(DecodeError::InvalidData)
                    } else {
                        match spec_read_u8(data, p) {
                            Err(e) => Err(e),
                            Ok((unit_id, p)) => match spec_read_u8(data, p) {
                                Err(e) => Err(e),
                                Ok((function_code, p)) => match spec_read_bytes(
                                    data,
                                    p,
                                    byte_length - 2,
                                ) {
                                    Err(e) => Err(e),
                                    Ok((body, p)) => Ok(
                                        (
                                            MessageView {
                                                transaction_id,
                                                protocol_id,
                                                unit_id,
                                                function_code: FunctionCode::spec_from_u8(
                                                    function_code,
                                                ),
                                                body,
                                            },
                                            p,
                                        ),
                                    ),
                                },
                            },
                        }
                    },
                },
            },
        }
    }

    fn decode(decoder: &mut Decoder) -> (r: DecodeResult<Message>) {
        let transaction_id = match decoder.read_u16() {
            Ok(v) => v,
            Err(e) => return Err(e),
        };
        let protocol_id = match decoder.read_u16() {
            Ok(v) => v,
            Err(e) => return Err(e),
        };
        let byte_length = match decoder.read_u16() {
            Ok(v) => v,
            Err(e) => return Err(e),
        };
        if byte_length > (MSG_MAX_LENGTH - 6) as u16 || byte_length < 2 {
            return Err(DecodeError::InvalidData);
        }
        let unit_id = match decoder.read_u8() {
            Ok(v) => v,
            Err(e) => return Err(e),
        };
        let function_code = match decoder.read_u8() {
            Ok(v) => v,
            Err(e) => return Err(e),
        };
        let body = match decoder.read_bytes((byte_length - 2) as usize) {
            Ok(v) => v,
            Err(e) => return Err(e),
        };
        Ok(
            Message {
                transaction_id,
                protocol_id,
                unit_id,
                function_code: FunctionCode::from_u8(function_code),
                body,
            },
        )
    }
}

/// Frame round trip: decoding an encoded message gives the message back, for
/// any body of at most 252 bytes and a canonical function code, whatever
/// bytes follow the frame.
pub proof fn lemma_message_round_trip(m: &Message, rest: Seq<u8>)
    requires
        m.body@.len() <= 252,
        m.function_code.is_canonical(),
    ensures
        Message::spec_decode(m.wire() + rest, 0) == Ok::<_, DecodeError>(
            (m@, m.wire().len() as int),
        ),
{
    let data = m.wire() + rest;
    let bl = (m.body@.len() + 2) as u16;
    assert(data[0] == (m.transaction_id / 256) as u8);
    assert(data[1] == (m.transaction_id % 256) as u8);
    assert(data[2] == (m.protocol_id / 256) as u8);
    assert(data[3] == (m.protocol_id % 256) as u8);
    assert(data[4] == (bl / 256) as u8);
    assert(data[5] == (bl % 256) as u8);
    assert(data[6] == m.unit_id);
    assert(data[7] == m.function_code.spec_as_u8());
    assert(u16_from_be(data[0], data[1]) == m.transaction_id);
    assert(u16_from_be(data[2], data[3]) == m.protocol_id);
    assert(u16_from_be(data[4], data[5]) == bl);
    assert(data.subrange(8, 8 + m.body@.len() as int) =~= m.body@);
    let r = Message::spec_decode(data, 0);
    assert(r is Ok);
    assert(r->Ok_0.0.body == m.body@);
    assert(r->Ok_0.0.function_code == m.function_code);
}

} // verus!
