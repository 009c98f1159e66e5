//! The connection's framing step. A connection owns an accumulation buffer
//! that transport reads append to; after each read it asks this function for
//! a whole frame, drops the consumed bytes, and on `Ok(None)` waits for more.
//! `Err(_)` is a terminal framing fault that closes the connection.

use vstd::prelude::*;
use crate::encoding::{Decodable, DecodeError, Decoder};
use crate::message::{Message, MessageView};

verus! {

/// Try to decode one whole frame from the front of the buffer: the frame and
/// the count of bytes it used, `Ok(None)` when more bytes may complete one,
/// or the terminal fault.
pub fn extract_message(buffer: &[u8]) -> (r: Result<Option<(Message, usize)>, DecodeError>)
    ensures
        match r {
            Ok(Some((msg, consumed))) => Message::spec_decode(buffer@, 0) == Ok::<_, DecodeError>(
                (msg@, consumed as int),
            ) && consumed <= buffer@.len(),
            Ok(None) => Message::spec_decode(buffer@, 0) == Err::<(MessageView, int), _>(
                DecodeError::MissingData,
            ),
            Err(e) => e == DecodeError::InvalidData && Message::spec_decode(buffer@, 0) == Err::<
                (MessageView, int),
                _,
            >(DecodeError::InvalidData),
        },
{
    let mut decoder = Decoder::new(buffer);
    match decoder.read_type::<Message>() {
        Ok(msg) => {
            let consumed = decoder.position();
            Ok(Some((msg, consumed)))
        },
        Err(DecodeError::MissingData) => Ok(None),
        Err(DecodeError::InvalidData) => Err(DecodeError::InvalidData),
    }
}

} // verus!
