use modbus::encoding::{DecodeError, Decoder, Encoder};
use modbus::messages::{
    ExceptionMessage, MaskWriteHoldingRegisterRequest, ModbusEncapsulatedInterfaceRequest,
    ModbusEncapsulatedInterfaceResponse, ReadCoilsRequest, ReadCoilsResponse,
    ReadDeviceIdentificationRequest, ReadDeviceIdentificationResponse, ReadDiscreteInputsRequest,
    ReadDiscreteInputsResponse, ReadHoldingRegistersResponse, ReadInputRegistersRequest,
    WriteMultipleCoilsRequest, WriteMultipleHoldingRegistersRequest,
    WriteMultipleHoldingRegistersResponse, WriteSingleCoilRequest, WriteSingleCoilResponse,
    WriteSingleHoldingRegisterRequest, WriteSingleHoldingRegisterResponse,
};
use modbus::modbus_encapsulated_interface::{
    ModbusEncapsulatedInterfaceType, ObjectMap, ReadDeviceIdentificationConformityLevel,
    ReadDeviceIdentificationIdCode,
};
use modbus::modbus_exception::ModbusException;

fn round_trip_eq<T>(value: T)
where
    T: modbus::encoding::Encodable + modbus::encoding::Decodable<T> + vstd::view::View
        + PartialEq + std::fmt::Debug,
{
    let bytes = Encoder::encode(&value).unwrap();
    let back: T = Decoder::decode(&bytes).unwrap();
    assert_eq!(back, value);
}

#[test]
fn read_request_round_trips() {
    round_trip_eq(ReadCoilsRequest { address: 0x1234, length: 2000 });
    round_trip_eq(ReadDiscreteInputsRequest { address: 0, length: 1 });
    round_trip_eq(ReadInputRegistersRequest { address: 0xFFFF, length: 1 });
}

#[test]
fn read_coils_response_round_trips() {
    // Sixteen values: a whole number of packed bytes, so identity holds.
    let values: Vec<bool> = (0..16).map(|k| k % 3 == 0).collect();
    round_trip_eq(ReadCoilsResponse { values: values.clone() });
    round_trip_eq(ReadDiscreteInputsResponse { values });

    // Ten values: the decode yields the packed padding too.
    let short = ReadCoilsResponse { values: (0..10).map(|k| k % 2 == 0).collect() };
    let bytes = Encoder::encode(&short).unwrap();
    let back: ReadCoilsResponse = Decoder::decode(&bytes).unwrap();
    assert_eq!(back.values.len(), 16);
    assert_eq!(&back.values[..10], &short.values[..]);
    assert!(back.values[10..].iter().all(|v| !v));
}

#[test]
fn read_registers_response_round_trips() {
    round_trip_eq(ReadHoldingRegistersResponse { values: vec![0, 1, 0xFFFF, 300] });
    let odd_count = [3u8, 0, 1, 2];
    let r: Result<ReadHoldingRegistersResponse, DecodeError> = Decoder::decode(&odd_count);
    assert_eq!(r.unwrap_err(), DecodeError::InvalidData);
}

#[test]
fn write_single_round_trips() {
    round_trip_eq(WriteSingleCoilRequest { address: 7, value: true });
    round_trip_eq(WriteSingleCoilResponse { address: 7, value: false });
    round_trip_eq(WriteSingleHoldingRegisterRequest { address: 100, value: 0xABCD });
    round_trip_eq(WriteSingleHoldingRegisterResponse { address: 100, value: 0 });
}

#[test]
fn coil_value_wire_form() {
    let on = Encoder::encode(&WriteSingleCoilRequest { address: 7, value: true }).unwrap();
    assert_eq!(on, vec![0, 7, 0xFF, 0x00]);
    let off = Encoder::encode(&WriteSingleCoilRequest { address: 7, value: false }).unwrap();
    assert_eq!(off, vec![0, 7, 0x00, 0x00]);
}

#[test]
fn write_multiple_round_trips() {
    round_trip_eq(WriteMultipleCoilsRequest {
        address: 3,
        values: (0..11).map(|k| k % 2 == 1).collect(),
    });
    round_trip_eq(WriteMultipleHoldingRegistersRequest { address: 9, values: vec![1, 2, 3] });
    round_trip_eq(WriteMultipleHoldingRegistersResponse { address: 9, length: 3 });
}

#[test]
fn write_multiple_coils_decode_rejects_byte_count_mismatch() {
    // Ten coils need two packed bytes; the frame claims three.
    let bytes = [0u8, 3, 0, 10, 3, 0x55, 0x01, 0x00];
    let r: Result<WriteMultipleCoilsRequest, DecodeError> = Decoder::decode(&bytes);
    assert_eq!(r.unwrap_err(), DecodeError::InvalidData);
}

#[test]
fn write_multiple_registers_decode_rejects_byte_count_mismatch() {
    let bytes = [0u8, 3, 0, 2, 5, 0, 1, 0, 2];
    let r: Result<WriteMultipleHoldingRegistersRequest, DecodeError> = Decoder::decode(&bytes);
    assert_eq!(r.unwrap_err(), DecodeError::InvalidData);
}

#[test]
fn mask_write_round_trips() {
    round_trip_eq(MaskWriteHoldingRegisterRequest {
        address: 100,
        and_mask: 0xF0F0,
        or_mask: 0x0A0A,
    });
}

#[test]
fn exception_message_round_trips() {
    for code in [1u8, 2, 3, 4, 5, 6, 8, 10, 11, 99] {
        let msg = ExceptionMessage { code: ModbusException::from_u8(code) };
        let bytes = Encoder::encode(&msg).unwrap();
        assert_eq!(bytes, vec![code]);
        let back: ExceptionMessage = Decoder::decode(&bytes).unwrap();
        assert_eq!(back, msg);
    }
}

#[test]
fn unknown_codes_survive_and_compare_by_value() {
    assert_eq!(ModbusException::from_u8(77), ModbusException::Unknown(77));
    assert_eq!(ModbusException::from_u8(77).as_u8(), 77);
    assert_eq!(ModbusException::Unknown(3), ModbusException::IllegalDataValue);
    assert_eq!(
        ModbusEncapsulatedInterfaceType::Unknown(14),
        ModbusEncapsulatedInterfaceType::ReadDeviceIdentification
    );
}

#[test]
fn mei_round_trips() {
    round_trip_eq(ModbusEncapsulatedInterfaceRequest {
        kind: ModbusEncapsulatedInterfaceType::ReadDeviceIdentification,
        data: vec![3, 0],
    });
    round_trip_eq(ModbusEncapsulatedInterfaceResponse {
        kind: ModbusEncapsulatedInterfaceType::Unknown(0x42),
        data: vec![9, 9, 9],
    });
}

#[test]
fn read_device_identification_round_trips() {
    round_trip_eq(ReadDeviceIdentificationRequest {
        device_id_code: ReadDeviceIdentificationIdCode::Extended,
        object_id: 5,
    });

    let mut objects = ObjectMap::new();
    objects.insert(0, b"ACME".to_vec());
    objects.insert(1, b"X1".to_vec());
    objects.insert(0x80, vec![1, 2, 3, 4]);
    let resp = ReadDeviceIdentificationResponse {
        device_id_code: ReadDeviceIdentificationIdCode::Extended,
        conformity_level: ReadDeviceIdentificationConformityLevel::ExtendedStreamAndIndividual,
        more_follows: true,
        next_object_id: 0x81,
        objects,
    };
    let bytes = Encoder::encode(&resp).unwrap();
    let back: ReadDeviceIdentificationResponse = Decoder::decode(&bytes).unwrap();
    assert_eq!(back, resp);
    assert_eq!(back.objects.get(0x80), Some(vec![1, 2, 3, 4]));
    assert_eq!(back.objects.get(0x81), None);
}

#[test]
fn object_map_insert_replaces() {
    let mut objects = ObjectMap::new();
    objects.insert(9, vec![1]);
    objects.insert(9, vec![2, 3]);
    assert_eq!(objects.len(), 1);
    assert_eq!(objects.get(9), Some(vec![2, 3]));
}
