//! The client and the server driven against each other through the library's
//! pure pipeline: build a request, classify it server-side, answer from an
//! in-memory device, frame the reply, and parse it back client-side.

use modbus::client;
use modbus::client::ModbusError;
use modbus::encoding::Encoder;
use modbus::function_code::FunctionCode;
use modbus::message::Message;
use modbus::modbus_encapsulated_interface::DeviceIdentification;
use modbus::modbus_exception::ModbusException;
use modbus::server::{ModbusTCPServer, ServerRequest};

fn frame(function_code: FunctionCode, body: Vec<u8>) -> Message {
    Message {
        transaction_id: 42,
        protocol_id: 0,
        unit_id: 0,
        function_code,
        body,
    }
}

#[test]
fn read_coils_scenario() {
    // The device holds coils where coil k is set exactly when k is even.
    let body = client::read_coils_request(0, 10).unwrap();
    let request = frame(FunctionCode::ReadCoils, body);

    let req = match ModbusTCPServer::decode_request(&request).unwrap() {
        ServerRequest::ReadCoils(q) => q,
        _ => panic!("wrong dispatch"),
    };
    modbus::server::validate_input(req.address, req.length, 2000).unwrap();
    let values: Vec<bool> = (req.address..req.address + req.length).map(|k| k % 2 == 0).collect();
    let reply_body = ModbusTCPServer::read_coils(req.length, values).unwrap();
    let reply = ModbusTCPServer::build_response(&request, Ok(reply_body));

    let body = client::match_response(&request, reply).unwrap();
    let coils = client::parse_read_coils_response(10, &body).unwrap();
    assert_eq!(
        coils,
        vec![true, false, true, false, true, false, true, false, true, false]
    );
}

#[test]
fn read_holding_registers_scenario() {
    // The device holds registers where register k holds k.
    let body = client::read_holding_registers_request(3, 4).unwrap();
    let request = frame(FunctionCode::ReadHoldingRegisters, body);

    let req = match ModbusTCPServer::decode_request(&request).unwrap() {
        ServerRequest::ReadHoldingRegisters(q) => q,
        _ => panic!("wrong dispatch"),
    };
    modbus::server::validate_input(req.address, req.length, 125).unwrap();
    let values: Vec<u16> = (req.address..req.address + req.length).collect();
    let reply_body = ModbusTCPServer::read_holding_registers(req.length, values).unwrap();
    let reply = ModbusTCPServer::build_response(&request, Ok(reply_body));

    let body = client::match_response(&request, reply).unwrap();
    let registers = client::parse_read_holding_registers_response(&body).unwrap();
    assert_eq!(registers, vec![3, 4, 5, 6]);
}

#[test]
fn write_single_coil_scenario() {
    let mut coils = vec![false; 16];

    let body = client::write_single_coil_request(7, true);
    assert_eq!(body, vec![0, 7, 0xFF, 0x00]);
    let request = frame(FunctionCode::WriteSingleCoil, body);

    let req = match ModbusTCPServer::decode_request(&request).unwrap() {
        ServerRequest::WriteSingleCoil(q) => q,
        _ => panic!("wrong dispatch"),
    };
    coils[req.address as usize] = req.value;
    let reply_body = ModbusTCPServer::write_single_coil(&req);
    let reply = ModbusTCPServer::build_response(&request, Ok(reply_body));

    let body = client::match_response(&request, reply).unwrap();
    client::parse_write_single_coil_response(7, true, &body).unwrap();

    // A later one-coil read at address 7 sees the stored value.
    let body = client::read_coils_request(7, 1).unwrap();
    let request = frame(FunctionCode::ReadCoils, body);
    let req = match ModbusTCPServer::decode_request(&request).unwrap() {
        ServerRequest::ReadCoils(q) => q,
        _ => panic!("wrong dispatch"),
    };
    let values = vec![coils[req.address as usize]];
    let reply_body = ModbusTCPServer::read_coils(req.length, values).unwrap();
    let reply = ModbusTCPServer::build_response(&request, Ok(reply_body));
    let body = client::match_response(&request, reply).unwrap();
    assert_eq!(client::parse_read_coils_response(1, &body).unwrap(), vec![true]);
}

#[test]
fn mask_write_scenario() {
    let mut holding = vec![0u16; 128];
    holding[100] = 0b1010_1100;

    let body = client::mask_write_holding_registers_request(100, 0b1111_0000, 0b0000_0011);
    let request = frame(FunctionCode::MaskWriteHoldingRegister, body);

    let req = match ModbusTCPServer::decode_request(&request).unwrap() {
        ServerRequest::MaskWriteHoldingRegister(q) => q,
        _ => panic!("wrong dispatch"),
    };
    let (new_value, reply_body) =
        ModbusTCPServer::mask_write_holding_register(holding[req.address as usize], &req);
    holding[req.address as usize] = new_value;
    assert_eq!(holding[100], 0b1010_0011);

    let reply = ModbusTCPServer::build_response(&request, Ok(reply_body));
    let body = client::match_response(&request, reply).unwrap();
    client::parse_mask_write_response(100, 0b1111_0000, 0b0000_0011, &body).unwrap();
}

#[test]
fn illegal_length_never_builds_a_request() {
    let r = client::read_holding_registers_request(0, 126);
    assert!(matches!(r, Err(ModbusError::ArgumentsOutOfRange(_))));

    assert!(matches!(
        client::read_coils_request(0, 0),
        Err(ModbusError::ArgumentsOutOfRange(_))
    ));
    assert!(matches!(
        client::read_coils_request(0xFFFF, 2),
        Err(ModbusError::ArgumentsOutOfRange(_))
    ));
    assert!(client::read_coils_request(0xFFFF, 1).is_ok());
}

#[test]
fn exception_framing() {
    // For every request function code and a spread of exception codes, the
    // reply's function code is the request's with bit 0x80 set and the body
    // is the single exception-code byte.
    for fc in 0u8..=255 {
        for code in [1u8, 2, 3, 4, 11, 99] {
            let request = frame(FunctionCode::from_u8(fc), vec![]);
            let reply = ModbusTCPServer::build_response(
                &request,
                Err(ModbusException::from_u8(code)),
            );
            assert_eq!(reply.function_code.as_u8(), fc | 0x80);
            assert_eq!(reply.body, vec![code]);
            assert_eq!(reply.transaction_id, request.transaction_id);
            assert_eq!(reply.protocol_id, request.protocol_id);
            assert_eq!(reply.unit_id, request.unit_id);
        }
    }
}

#[test]
fn exception_reply_surfaces_to_the_caller() {
    let body = client::read_coils_request(0, 1).unwrap();
    let request = frame(FunctionCode::ReadCoils, body);
    let reply = ModbusTCPServer::build_response(&request, Err(ModbusException::IllegalDataAddress));
    let r = client::match_response(&request, reply);
    assert!(matches!(
        r,
        Err(ModbusError::ModbusException(ModbusException::IllegalDataAddress))
    ));
}

#[test]
fn mismatched_replies_are_invalid() {
    let request = frame(FunctionCode::ReadCoils, vec![0, 0, 0, 1]);

    let mut wrong_protocol = frame(FunctionCode::ReadCoils, vec![]);
    wrong_protocol.protocol_id = 1;
    assert!(matches!(
        client::match_response(&request, wrong_protocol),
        Err(ModbusError::InvalidResponse(_))
    ));

    let mut wrong_unit = frame(FunctionCode::ReadCoils, vec![]);
    wrong_unit.unit_id = 9;
    assert!(matches!(
        client::match_response(&request, wrong_unit),
        Err(ModbusError::InvalidResponse(_))
    ));

    let wrong_code = frame(FunctionCode::ReadDiscreteInputs, vec![]);
    assert!(matches!(
        client::match_response(&request, wrong_code),
        Err(ModbusError::InvalidResponse(_))
    ));
}

#[test]
fn echoed_write_fields_are_checked() {
    let body = Encoder::encode(&modbus::messages::WriteSingleCoilResponse {
        address: 8,
        value: true,
    })
    .unwrap();
    assert!(matches!(
        client::parse_write_single_coil_response(7, true, &body),
        Err(ModbusError::InvalidResponse(_))
    ));
    assert!(client::parse_write_single_coil_response(8, true, &body).is_ok());

    let body = Encoder::encode(&modbus::messages::WriteMultipleHoldingRegistersResponse {
        address: 3,
        length: 4,
    })
    .unwrap();
    assert!(client::parse_write_multiple_response(3, 4, &body).is_ok());
    assert!(matches!(
        client::parse_write_multiple_response(3, 5, &body),
        Err(ModbusError::InvalidResponse(_))
    ));
}

#[test]
fn unknown_function_code_is_illegal_function() {
    let request = frame(FunctionCode::Unknown(0x2A), vec![]);
    let r = ModbusTCPServer::decode_request(&request);
    assert!(matches!(r, Err(ModbusException::IllegalFunction)));
}

#[test]
fn undecodable_request_is_server_device_failure() {
    let request = frame(FunctionCode::ReadCoils, vec![1, 2, 3]);
    let r = ModbusTCPServer::decode_request(&request);
    assert!(matches!(r, Err(ModbusException::ServerDeviceFailure)));
}

#[test]
fn wrong_handler_count_is_server_device_failure() {
    let r = ModbusTCPServer::read_coils(10, vec![true; 9]);
    assert!(matches!(r, Err(ModbusException::ServerDeviceFailure)));
    let r = ModbusTCPServer::read_holding_registers(3, vec![1, 2]);
    assert!(matches!(r, Err(ModbusException::ServerDeviceFailure)));
}

#[test]
fn device_identification_pagination() {
    // The device advertises the three mandatory strings plus 60 private
    // objects of eight bytes each; one 260-byte frame cannot carry them all.
    let mut device_info = DeviceIdentification::new();
    device_info.vendor_name = b"ACME".to_vec();
    device_info.product_code = b"X1".to_vec();
    device_info.major_minor_revision = b"1.0".to_vec();
    for id in 0x80u8..0xBC {
        device_info.objects.insert(id, vec![id; 8]);
    }

    let mut result = DeviceIdentification::new();
    let mut object_id = 0u8;
    let mut pages = 0usize;
    for _ in 0..255 {
        let req = modbus::messages::ReadDeviceIdentificationRequest {
            device_id_code:
                modbus::modbus_encapsulated_interface::ReadDeviceIdentificationIdCode::Extended,
            object_id,
        };
        let page = ModbusTCPServer::read_device_identification(&device_info, &req).unwrap();
        pages += 1;
        if pages == 1 {
            assert!(page.more_follows);
        }
        let more = page.more_follows;
        object_id = page.next_object_id;
        client::apply_identification_page(&mut result, &page);
        if !more {
            break;
        }
    }

    assert!(pages > 1);
    assert_eq!(result.vendor_name, b"ACME".to_vec());
    assert_eq!(result.product_code, b"X1".to_vec());
    assert_eq!(result.major_minor_revision, b"1.0".to_vec());
    assert_eq!(result.vendor_url, None);
    assert_eq!(result.objects.len(), 60);
    for id in 0x80u8..0xBC {
        assert_eq!(result.objects.get(id), Some(vec![id; 8]));
    }
}

#[test]
fn device_identification_individual_and_errors() {
    let mut device_info = DeviceIdentification::new();
    device_info.vendor_name = b"ACME".to_vec();
    device_info.objects.insert(0x90, vec![5, 6]);

    let individual = modbus::messages::ReadDeviceIdentificationRequest {
        device_id_code:
            modbus::modbus_encapsulated_interface::ReadDeviceIdentificationIdCode::Individual,
        object_id: 0x90,
    };
    let page = ModbusTCPServer::read_device_identification(&device_info, &individual).unwrap();
    assert!(!page.more_follows);
    assert_eq!(page.next_object_id, 0);
    assert_eq!(page.objects.len(), 1);
    assert_eq!(page.objects.get(0x90), Some(vec![5, 6]));

    let missing = modbus::messages::ReadDeviceIdentificationRequest {
        device_id_code:
            modbus::modbus_encapsulated_interface::ReadDeviceIdentificationIdCode::Extended,
        object_id: 0x91,
    };
    assert!(matches!(
        ModbusTCPServer::read_device_identification(&device_info, &missing),
        Err(ModbusException::IllegalDataAddress)
    ));

    let unknown = modbus::messages::ReadDeviceIdentificationRequest {
        device_id_code:
            modbus::modbus_encapsulated_interface::ReadDeviceIdentificationIdCode::Unknown(9),
        object_id: 0,
    };
    assert!(matches!(
        ModbusTCPServer::read_device_identification(&device_info, &unknown),
        Err(ModbusException::IllegalDataValue)
    ));
}

#[test]
fn mei_dispatch_round_trip() {
    let mut device_info = DeviceIdentification::new();
    device_info.vendor_name = b"ACME".to_vec();

    let inner = client::read_device_identification_request_body(0);
    let body = ModbusTCPServer::read_device_identification_mei_response(&device_info, &inner)
        .unwrap();
    assert_eq!(body[0], 14);
    let page_bytes = client::parse_modbus_encapsulated_interface_response(14, &body).unwrap();
    let page = client::parse_read_device_identification_response(&page_bytes).unwrap();
    assert!(!page.more_follows);
    assert_eq!(page.objects.get(0), Some(b"ACME".to_vec()));
}

#[test]
fn server_validation_errors() {
    assert!(matches!(
        modbus::server::validate_input(0, 0, 2000),
        Err(ModbusException::IllegalDataValue)
    ));
    assert!(matches!(
        modbus::server::validate_input(0, 2001, 2000),
        Err(ModbusException::IllegalDataValue)
    ));
    assert!(matches!(
        modbus::server::validate_input(0xFFFF, 2, 2000),
        Err(ModbusException::IllegalDataAddress)
    ));
    assert!(modbus::server::validate_input(0xFFFF, 1, 2000).is_ok());
}

#[test]
fn read_reply_bodies_count_their_bytes() {
    let body = ModbusTCPServer::read_coils(10, (0..10).map(|k| k % 2 == 0).collect()).unwrap();
    assert_eq!(body, vec![2, 0b0101_0101, 0b0000_0001]);

    let body = ModbusTCPServer::read_holding_registers(2, vec![0x0102, 0x0304]).unwrap();
    assert_eq!(body, vec![4, 1, 2, 3, 4]);
}
