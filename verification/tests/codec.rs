use modbus::encoding::{Decodable, DecodeError, Decoder, Encodable, Encoder};
use modbus::function_code::FunctionCode;
use modbus::message::Message;

#[test]
fn encoding_encode_decode() {
    let mut encoder = Encoder::new();
    encoder.write_u8(0xAA);
    encoder.write_u16(0xBBCC);
    encoder.write_bytes(&[1, 2, 3]);
    encoder.write_registers(&[300, 301, 302]);

    assert_eq!(encoder.position(), 12);

    let bytes = encoder.finish();

    assert_eq!(bytes.len(), 12);

    let mut decoder = Decoder::new(&bytes);

    assert_eq!(decoder.position(), 0);
    assert_eq!(decoder.remaining(), 12);

    assert_eq!(decoder.read_u8(), Ok(0xAA));
    assert_eq!(decoder.read_u16(), Ok(0xBBCC));
    assert_eq!(decoder.read_bytes(3), Ok(vec![1, 2, 3]));
    assert_eq!(decoder.read_registers(3), Ok(vec![300, 301, 302]));

    assert_eq!(decoder.position(), 12);
    assert_eq!(decoder.remaining(), 0);
}

#[test]
fn message_encode_decode() {
    let msg = Message {
        transaction_id: 1,
        protocol_id: 2,
        unit_id: 3,
        function_code: FunctionCode::ReadInputRegisters,
        body: vec![5, 6, 7],
    };

    let bytes = msg.encode_to_bytes().unwrap();

    assert_eq!(bytes.len(), 11);

    let decoded_msg = Message::decode_from_bytes(&bytes).unwrap();

    assert_eq!(msg, decoded_msg);
}

#[test]
fn bools_pack_lsb_first() {
    let mut encoder = Encoder::new();
    encoder.write_bools(&[true, false, true, false, true, false, true, false, true, false]);
    let bytes = encoder.finish();
    assert_eq!(bytes, vec![0b0101_0101, 0b0000_0001]);

    let mut decoder = Decoder::new(&bytes);
    let values = decoder.read_bools(10).unwrap();
    assert_eq!(
        values,
        vec![true, false, true, false, true, false, true, false, true, false]
    );
}

#[test]
fn registers_are_big_endian() {
    let mut encoder = Encoder::new();
    encoder.write_registers(&[0x0102, 0xA0B0]);
    let bytes = encoder.finish();
    assert_eq!(bytes, vec![0x01, 0x02, 0xA0, 0xB0]);
}

#[test]
fn reads_past_the_end_are_missing_data() {
    let bytes = [1u8, 2];
    let mut decoder = Decoder::new(&bytes);
    assert_eq!(decoder.read_registers(2), Err(DecodeError::MissingData));
    assert_eq!(decoder.read_u16(), Ok(0x0102));
    assert_eq!(decoder.read_u8(), Err(DecodeError::MissingData));
}

#[test]
fn message_decode_rejects_oversized_length_field() {
    // Header with a length field of 255: more than the 260-byte frame allows.
    let bytes = [0, 1, 0, 0, 0, 255, 3, 4];
    let r: Result<Message, DecodeError> = Decoder::decode(&bytes);
    assert_eq!(r.unwrap_err(), DecodeError::InvalidData);
}

#[test]
fn message_decode_waits_for_missing_body() {
    // Length field says 5 bytes follow the unit id, but only two arrived.
    let bytes = [0, 1, 0, 0, 0, 5, 3, 4, 9];
    let r: Result<Message, DecodeError> = Decoder::decode(&bytes);
    assert_eq!(r.unwrap_err(), DecodeError::MissingData);
}

#[test]
fn message_encode_rejects_oversized_body() {
    let msg = Message {
        transaction_id: 0,
        protocol_id: 0,
        unit_id: 0,
        function_code: FunctionCode::ReadCoils,
        body: vec![0u8; 65534],
    };
    assert!(Encoder::encode(&msg).is_err());
}

#[test]
fn extract_message_returns_frame_and_consumed_bytes() {
    let msg = Message {
        transaction_id: 7,
        protocol_id: 0,
        unit_id: 1,
        function_code: FunctionCode::ReadCoils,
        body: vec![0, 9, 0, 3],
    };
    let mut bytes = Encoder::encode(&msg).unwrap();
    let frame_len = bytes.len();
    bytes.extend_from_slice(&[0xDE, 0xAD]);
    let (decoded, consumed) = modbus::connection::extract_message(&bytes).unwrap().unwrap();
    assert_eq!(consumed, frame_len);
    assert_eq!(decoded, msg);

    // A truncated buffer asks for more bytes instead.
    assert_eq!(modbus::connection::extract_message(&bytes[..4]).unwrap(), None);
}

#[test]
fn frame_longer_than_the_cap_decodes_as_invalid() {
    // A 253-byte body encodes (the length field holds 255) but such a frame
    // is over the 260-byte cap, so the decoder rejects it outright.
    let msg = Message {
        transaction_id: 0,
        protocol_id: 0,
        unit_id: 0,
        function_code: FunctionCode::ReadCoils,
        body: vec![7u8; 253],
    };
    let bytes = msg.encode_to_bytes().unwrap();
    assert_eq!(
        Message::decode_from_bytes(&bytes).unwrap_err(),
        DecodeError::InvalidData
    );

    // One byte fewer stays within the cap.
    let msg = Message { body: vec![7u8; 252], ..msg };
    let bytes = msg.encode_to_bytes().unwrap();
    assert_eq!(Message::decode_from_bytes(&bytes).unwrap(), msg);
}
