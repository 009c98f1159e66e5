//! The client side's decisions: argument validation, request building, the
//! correlated-reply checks, and the per-function response parsing. The
//! transport, the transaction-id counter and the pending-waiter map drive
//! these from outside; every rule they apply is here.

use vstd::prelude::*;
use crate::consts::{
    READ_COILS_MAX_LEN, READ_DISCRETE_INPUTS_MAX_LEN, READ_HOLDING_REGISTERS_MAX_LEN,
    READ_INPUT_REGISTERS_MAX_LEN, WRITE_MULTIPLE_COILS_MAX_LEN,
    WRITE_MULTIPLE_HOLDING_REGISTERS_MAX_LEN,
};
use crate::encoding::{Decodable, Decoder, Encodable, Encoder};
use crate::message::{Message, MessageView};
use crate::messages::{
    MaskWriteHoldingRegisterRequest, MaskWriteHoldingRegisterResponse,
    ModbusEncapsulatedInterfaceRequest, ModbusEncapsulatedInterfaceResponse, ReadCoilsRequest,
    ReadCoilsResponse, ReadDeviceIdentificationRequest, ReadDeviceIdentificationResponse,
    ReadDiscreteInputsRequest, ReadDiscreteInputsResponse, ReadHoldingRegistersRequest,
    ReadHoldingRegistersResponse, ReadInputRegistersRequest, ReadInputRegistersResponse,
    WriteMultipleCoilsRequest, WriteMultipleCoilsResponse, WriteMultipleHoldingRegistersRequest,
    WriteMultipleHoldingRegistersResponse, WriteSingleCoilRequest, WriteSingleCoilResponse,
    WriteSingleHoldingRegisterRequest, WriteSingleHoldingRegisterResponse,
};
use crate::modbus_encapsulated_interface::{
    DeviceIdentification, ModbusEncapsulatedInterfaceType, ReadDeviceIdentificationIdCode,
    seq_get, spec_object_data,
};
use crate::modbus_exception::ModbusException;

verus! {

/// Errors a client operation surfaces to its caller.
#[derive(Debug, Clone, PartialEq)]
pub enum ModbusError {
    /// A transport failure, with the transport's message.
    IO(String),
    /// Arguments failed the length or address policy; the request was never
    /// sent to the server.
    ArgumentsOutOfRange(String),
    /// The reply broke the framing, echoed the wrong fields, or failed to
    /// decode.
    InvalidResponse(String),
    /// An exception code reported by the server.
    ModbusException(ModbusException),
}

/// The length and address policy: a count of one through the per-function
/// maximum whose run stays inside the 16-bit address space.
pub open spec fn spec_valid_range(address: u16, length: int, max_length: u16) -> bool {
    1 <= length <= max_length && address + length - 1 <= 0xFFFF
}

/// Reject a length of zero, one over `max_length`, or a run past the address
/// space, before anything is sent.
pub fn validate_input(address: u16, length: usize, max_length: u16) -> (r: Result<
    (),
    ModbusError,
>)
    ensures
        r is Ok <==> spec_valid_range(address, length as int, max_length),
        r matches Err(e) ==> e is ArgumentsOutOfRange,
{
    if length == 0 || length > max_length as usize {
        return Err(
            ModbusError::ArgumentsOutOfRange(
                String::from_str("Length exceeds maximum allowed length"),
            ),
        );
    }
    if address as u32 + (length as u32 - 1) > 0xFFFF {
        return Err(
            ModbusError::ArgumentsOutOfRange(
                String::from_str("Address + length exceeds device address space"),
            ),
        );
    }
    Ok(())
}

/// Build the body of a read-coils request, or reject the arguments locally.
pub fn read_coils_request(address: u16, length: u16) -> (r: Result<Vec<u8>, ModbusError>)
    ensures
        r is Ok <==> spec_valid_range(address, length as int, READ_COILS_MAX_LEN),
        r matches Ok(body) ==> body@ == (ReadCoilsRequest { address, length }).wire(),
        r matches Err(e) ==> e is ArgumentsOutOfRange,
{
    match validate_input(address, length as usize, READ_COILS_MAX_LEN) {
        Ok(()) => {},
        Err(e) => {
            return Err(e);
        },
    }
    let req = ReadCoilsRequest { address, length };
    match Encoder::encode(&req) {
        Ok(body) => Ok(body),
        Err(_) => Err(ModbusError::ArgumentsOutOfRange(String::from_str("Request does not fit"))),
    }
}

/// Build the body of a read-discrete-inputs request, or reject the arguments
/// locally.
pub fn read_discrete_inputs_request(address: u16, length: u16) -> (r: Result<Vec<u8>, ModbusError>)
    ensures
        r is Ok <==> spec_valid_range(address, length as int, READ_DISCRETE_INPUTS_MAX_LEN),
        r matches Ok(body) ==> body@ == (ReadDiscreteInputsRequest { address, length }).wire(),
        r matches Err(e) ==> e is ArgumentsOutOfRange,
{
    match validate_input(address, length as usize, READ_DISCRETE_INPUTS_MAX_LEN) {
        Ok(()) => {},
        Err(e) => {
            return Err(e);
        },
    }
    let req = ReadDiscreteInputsRequest { address, length };
    match Encoder::encode(&req) {
        Ok(body) => Ok(body),
        Err(_) => Err(ModbusError::ArgumentsOutOfRange(String::from_str("Request does not fit"))),
    }
}

/// Build the body of a read-input-registers request, or reject the arguments
/// locally.
pub fn read_input_registers_request(address: u16, length: u16) -> (r: Result<Vec<u8>, ModbusError>)
    ensures
        r is Ok <==> spec_valid_range(address, length as int, READ_INPUT_REGISTERS_MAX_LEN),
        r matches Ok(body) ==> body@ == (ReadInputRegistersRequest { address, length }).wire(),
        r matches Err(e) ==> e is ArgumentsOutOfRange,
{
    match validate_input(address, length as usize, READ_INPUT_REGISTERS_MAX_LEN) {
        Ok(()) => {},
        Err(e) => {
            return Err(e);
        },
    }
    let req = ReadInputRegistersRequest { address, length };
    match Encoder::encode(&req) {
        Ok(body) => Ok(body),
        Err(_) => Err(ModbusError::ArgumentsOutOfRange(String::from_str("Request does not fit"))),
    }
}

/// Build the body of a read-holding-registers request, or reject the
/// arguments locally.
pub fn read_holding_registers_request(address: u16, length: u16) -> (r: Result<
    Vec<u8>,
    ModbusError,
>)
    ensures
        r is Ok <==> spec_valid_range(address, length as int, READ_HOLDING_REGISTERS_MAX_LEN),
        r matches Ok(body) ==> body@ == (ReadHoldingRegistersRequest { address, length }).wire(),
        r matches Err(e) ==> e is ArgumentsOutOfRange,
{
    match validate_input(address, length as usize, READ_HOLDING_REGISTERS_MAX_LEN) {
        Ok(()) => {},
        Err(e) => {
            return Err(e);
        },
    }
    let req = ReadHoldingRegistersRequest { address, length };
    match Encoder::encode(&req) {
        Ok(body) => Ok(body),
        Err(_) => Err(ModbusError::ArgumentsOutOfRange(String::from_str("Request does not fit"))),
    }
}

/// Build the body of a single-coil write request.
pub fn write_single_coil_request(address: u16, value: bool) -> (r: Vec<u8>)
    ensures
        r@ == (WriteSingleCoilRequest { address, value }).wire(),
{
    let req = WriteSingleCoilRequest { address, value };
    match Encoder::encode(&req) {
        Ok(body) => body,
        Err(_) => Vec::new(),
    }
}

/// Build the body of a single-register write request.
pub fn write_single_holding_register_request(address: u16, value: u16) -> (r: Vec<u8>)
    ensures
        r@ == (WriteSingleHoldingRegisterRequest { address, value }).wire(),
{
    let req = WriteSingleHoldingRegisterRequest { address, value };
    match Encoder::encode(&req) {
        Ok(body) => body,
        Err(_) => Vec::new(),
    }
}

/// Build the body of a multiple-coil write request, or reject the arguments
/// locally.
pub fn write_multiple_coils_request(address: u16, values: &[bool]) -> (r: Result<
    Vec<u8>,
    ModbusError,
>)
    ensures
        r is Ok <==> spec_valid_range(address, values@.len() as int, WRITE_MULTIPLE_COILS_MAX_LEN),
        r matches Ok(body) ==> exists|req: WriteMultipleCoilsRequest|
            req@ == (address, values@) && body@ == req.wire(),
        r matches Err(e) ==> e is ArgumentsOutOfRange,
{
    match validate_input(address, values.len(), WRITE_MULTIPLE_COILS_MAX_LEN) {
        Ok(()) => {},
        Err(e) => {
            return Err(e);
        },
    }
    let mut owned: Vec<bool> = Vec::new();
    let mut i: usize = 0;
    while i < values.len()
        invariant
            i <= values.len(),
            owned@ == values@.subrange(0, i as int),
        decreases values.len() - i,
    {
        owned.push(values[i]);
        assert(owned@ =~= values@.subrange(0, i + 1 as int));
        i = i + 1;
    }
    assert(owned@ =~= values@);
    let req = WriteMultipleCoilsRequest { address, values: owned };
    match Encoder::encode(&req) {
        Ok(body) => Ok(body),
        Err(_) => Err(ModbusError::ArgumentsOutOfRange(String::from_str("Request does not fit"))),
    }
}

/// Build the body of a multiple-register write request, or reject the
/// arguments locally.
pub fn write_multiple_holding_registers_request(address: u16, values: &[u16]) -> (r: Result<
    Vec<u8>,
    ModbusError,
>)
    ensures
        r is Ok <==> spec_valid_range(
            address,
            values@.len() as int,
            WRITE_MULTIPLE_HOLDING_REGISTERS_MAX_LEN,
        ),
        r matches Ok(body) ==> exists|req: WriteMultipleHoldingRegistersRequest|
            req@ == (address, values@) && body@ == req.wire(),
        r matches Err(e) ==> e is ArgumentsOutOfRange,
{
    match validate_input(address, values.len(), WRITE_MULTIPLE_HOLDING_REGISTERS_MAX_LEN) {
        Ok(()) => {},
        Err(e) => {
            return Err(e);
        },
    }
    let mut owned: Vec<u16> = Vec::new();
    let mut i: usize = 0;
    while i < values.len()
        invariant
            i <= values.len(),
            owned@ == values@.subrange(0, i as int),
        decreases values.len() - i,
    {
        owned.push(values[i]);
        assert(owned@ =~= values@.subrange(0, i + 1 as int));
        i = i + 1;
    }
    assert(owned@ =~= values@);
    let req = WriteMultipleHoldingRegistersRequest { address, values: owned };
    match Encoder::encode(&req) {
        Ok(body) => Ok(body),
        Err(_) => Err(ModbusError::ArgumentsOutOfRange(String::from_str("Request does not fit"))),
    }
}

/// Build the body of a mask-write request.
pub fn mask_write_holding_registers_request(address: u16, and_mask: u16, or_mask: u16) -> (r: Vec<
    u8,
>)
    ensures
        r@ == (MaskWriteHoldingRegisterRequest { address, and_mask, or_mask }).wire(),
{
    let req = MaskWriteHoldingRegisterRequest { address, and_mask, or_mask };
    match Encoder::encode(&req) {
        Ok(body) => body,
        Err(_) => Vec::new(),
    }
}

/// Build the body of an encapsulated-interface request around the
/// sub-protocol's raw data.
pub fn modbus_encapsulated_interface_request(interface_type: u8, data: &[u8]) -> (r: Vec<u8>)
    ensures
        r@ == seq![interface_type] + data@,
{
    let mut owned: Vec<u8> = Vec::new();
    let mut i: usize = 0;
    while i < data.len()
        invariant
            i <= data.len(),
            owned@ == data@.subrange(0, i as int),
        decreases data.len() - i,
    {
        owned.push(data[i]);
        assert(owned@ =~= data@.subrange(0, i + 1 as int));
        i = i + 1;
    }
    assert(owned@ =~= data@);
    let req = ModbusEncapsulatedInterfaceRequest {
        kind: ModbusEncapsulatedInterfaceType::from_u8(interface_type),
        data: owned,
    };
    match Encoder::encode(&req) {
        Ok(body) => {
            assert(body@ =~= seq![interface_type] + data@);
            body
        },
        Err(_) => Vec::new(),
    }
}

/// Build the inner body of one Read Device Identification round: the extended
/// stream starting after `object_id`.
pub fn read_device_identification_request_body(object_id: u8) -> (r: Vec<u8>)
    ensures
        r@ == (ReadDeviceIdentificationRequest {
            device_id_code: ReadDeviceIdentificationIdCode::Extended,
            object_id,
        }).wire(),
{
    let req = ReadDeviceIdentificationRequest {
        device_id_code: ReadDeviceIdentificationIdCode::Extended,
        object_id,
    };
    match Encoder::encode(&req) {
        Ok(body) => body,
        Err(_) => Vec::new(),
    }
}

/// Frame a request body: protocol id 0, the caller's transaction and unit
/// ids, and the operation's function code. An over-long body is rejected as
/// an argument fault, before anything is sent.
pub fn encode_request_frame(
    transaction_id: u16,
    unit_id: u8,
    function_code: u8,
    body: Vec<u8>,
) -> (r: Result<(Message, Vec<u8>), ModbusError>)
    ensures
        r is Ok <==> body@.len() + 2 <= u16::MAX,
        r matches Ok((msg, bytes)) ==> msg@ == (MessageView {
            transaction_id,
            protocol_id: 0,
            unit_id,
            function_code: crate::function_code::FunctionCode::spec_from_u8(function_code),
            body: body@,
        }) && bytes@ == msg.wire(),
        r matches Err(e) ==> e is ArgumentsOutOfRange,
{
    let msg = Message {
        transaction_id,
        protocol_id: 0,
        unit_id,
        function_code: crate::function_code::FunctionCode::from_u8(function_code),
        body,
    };
    match Encoder::encode(&msg) {
        Ok(bytes) => Ok((msg, bytes)),
        Err(_) => Err(ModbusError::ArgumentsOutOfRange(String::from_str("Error encoding message"))),
    }
}

/// The checks applied to the correlated reply: the protocol id and unit id
/// must echo the request's; an exception reply surfaces its code; any other
/// function code must equal the request's. What remains is the response body,
/// ready for the per-function decode.
pub fn match_response(request: &Message, response: Message) -> (r: Result<Vec<u8>, ModbusError>)
    ensures
        match r {
            Ok(body) => response@.protocol_id == request@.protocol_id && response@.unit_id
                == request@.unit_id && !(response@.function_code matches
            crate::function_code::FunctionCode::Error(_)) && response@.function_code.spec_as_u8()
                == request@.function_code.spec_as_u8() && body@ == response@.body,
            Err(ModbusError::ModbusException(code)) => response@.protocol_id
                == request@.protocol_id && response@.unit_id == request@.unit_id
                && (response@.function_code matches crate::function_code::FunctionCode::Error(_))
                && response@.body.len() >= 1 && code == ModbusException::spec_from_u8(
                response@.body[0],
            ),
            Err(ModbusError::InvalidResponse(_)) => response@.protocol_id != request@.protocol_id
                || response@.unit_id != request@.unit_id || ((response@.function_code matches
            crate::function_code::FunctionCode::Error(_)) && response@.body.len() == 0) || (!(
            response@.function_code matches crate::function_code::FunctionCode::Error(_))
                && response@.function_code.spec_as_u8() != request@.function_code.spec_as_u8()),
            Err(_) => false,
        },
{
    if response.protocol_id != request.protocol_id {
        return Err(ModbusError::InvalidResponse(String::from_str("Protocol id mismatch")));
    }
    if response.unit_id != request.unit_id {
        return Err(ModbusError::InvalidResponse(String::from_str("Unit id mismatch")));
    }
    if response.function_code.is_error() {
        let ex = match Decoder::decode::<crate::messages::ExceptionMessage>(
            response.body.as_slice(),
        ) {
            Ok(ex) => ex,
            Err(_) => {
                return Err(ModbusError::InvalidResponse(String::from_str("Malformed response")));
            },
        };
        return Err(ModbusError::ModbusException(ex.code));
    }
    if response.function_code.as_u8() != request.function_code.as_u8() {
        return Err(ModbusError::InvalidResponse(String::from_str("Function code mismatch")));
    }
    Ok(response.body)
}

/// Decode a coil-read reply and keep the first `length` values: the bit
/// packing rounds the count up to whole bytes, and the request's length says
/// how many of the decoded bits are real.
pub fn parse_read_coils_response(length: u16, body: &[u8]) -> (r: Result<Vec<bool>, ModbusError>)
    ensures
        match ReadCoilsResponse::spec_decode(body@, 0) {
            Ok((bits, _)) => r matches Ok(v) && v@ == (if bits.len() > length {
                bits.subrange(0, length as int)
            } else {
                bits
            }),
            Err(_) => r matches Err(e) && e is InvalidResponse,
        },
{
    let res: ReadCoilsResponse = match Decoder::decode(body) {
        Ok(v) => v,
        Err(_) => {
            return Err(ModbusError::InvalidResponse(String::from_str("Malformed response")));
        },
    };
    let mut values = res.values;
    values.truncate(length as usize);
    Ok(values)
}

/// Decode a discrete-input reply and keep the first `length` values.
pub fn parse_read_discrete_inputs_response(length: u16, body: &[u8]) -> (r: Result<
    Vec<bool>,
    ModbusError,
>)
    ensures
        match ReadDiscreteInputsResponse::spec_decode(body@, 0) {
            Ok((bits, _)) => r matches Ok(v) && v@ == (if bits.len() > length {
                bits.subrange(0, length as int)
            } else {
                bits
            }),
            Err(_) => r matches Err(e) && e is InvalidResponse,
        },
{
    let res: ReadDiscreteInputsResponse = match Decoder::decode(body) {
        Ok(v) => v,
        Err(_) => {
            return Err(ModbusError::InvalidResponse(String::from_str("Malformed response")));
        },
    };
    let mut values = res.values;
    values.truncate(length as usize);
    Ok(values)
}

/// Decode a register-read reply.
pub fn parse_read_holding_registers_response(body: &[u8]) -> (r: Result<Vec<u16>, ModbusError>)
    ensures
        match ReadHoldingRegistersResponse::spec_decode(body@, 0) {
            Ok((regs, _)) => r matches Ok(v) && v@ == regs,
            Err(_) => r matches Err(e) && e is InvalidResponse,
        },
{
    let res: ReadHoldingRegistersResponse = match Decoder::decode(body) {
        Ok(v) => v,
        Err(_) => {
            return Err(ModbusError::InvalidResponse(String::from_str("Malformed response")));
        },
    };
    Ok(res.values)
}

/// Decode a single-coil write reply and hold it to the echo rule: the reply
/// must carry the written address and value bit-exactly.
pub fn parse_write_single_coil_response(address: u16, value: bool, body: &[u8]) -> (r: Result<
    (),
    ModbusError,
>)
    ensures
        match WriteSingleCoilResponse::spec_decode(body@, 0) {
            Ok((res, _)) => if res.address == address && res.value == value {
                r is Ok
            } else {
                r matches Err(e) && e is InvalidResponse
            },
            Err(_) => r matches Err(e) && e is InvalidResponse,
        },
{
    let res: WriteSingleCoilResponse = match Decoder::decode(body) {
        Ok(v) => v,
        Err(_) => {
            return Err(ModbusError::InvalidResponse(String::from_str("Malformed response")));
        },
    };
    if res.address == address && res.value == value {
        Ok(())
    } else {
        Err(ModbusError::InvalidResponse(String::from_str("Malformed response")))
    }
}

/// Decode a single-register write reply and hold it to the echo rule.
pub fn parse_write_single_holding_register_response(
    address: u16,
    value: u16,
    body: &[u8],
) -> (r: Result<(), ModbusError>)
    ensures
        match WriteSingleHoldingRegisterResponse::spec_decode(body@, 0) {
            Ok((res, _)) => if res.address == address && res.value == value {
                r is Ok
            } else {
                r matches Err(e) && e is InvalidResponse
            },
            Err(_) => r matches Err(e) && e is InvalidResponse,
        },
{
    let res: WriteSingleHoldingRegisterResponse = match Decoder::decode(body) {
        Ok(v) => v,
        Err(_) => {
            return Err(ModbusError::InvalidResponse(String::from_str("Malformed response")));
        },
    };
    if res.address == address && res.value == value {
        Ok(())
    } else {
        Err(ModbusError::InvalidResponse(String::from_str("Malformed response")))
    }
}

/// Decode a multiple-write reply and hold it to the echo rule: the reply must
/// carry the written start address and count bit-exactly.
pub fn parse_write_multiple_response(address: u16, length: u16, body: &[u8]) -> (r: Result<
    (),
    ModbusError,
>)
    ensures
        match WriteMultipleCoilsResponse::spec_decode(body@, 0) {
            Ok((res, _)) => if res.address == address && res.length == length {
                r is Ok
            } else {
                r matches Err(e) && e is InvalidResponse
            },
            Err(_) => r matches Err(e) && e is InvalidResponse,
        },
{
    let res: WriteMultipleCoilsResponse = match Decoder::decode(body) {
        Ok(v) => v,
        Err(_) => {
            return Err(ModbusError::InvalidResponse(String::from_str("Malformed response")));
        },
    };
    if res.address == address && res.length == length {
        Ok(())
    } else {
        Err(ModbusError::InvalidResponse(String::from_str("Malformed response")))
    }
}

/// Decode a mask-write reply and hold it to the echo rule: the reply must
/// carry the address and both masks bit-exactly.
pub fn parse_mask_write_response(
    address: u16,
    and_mask: u16,
    or_mask: u16,
    body: &[u8],
) -> (r: Result<(), ModbusError>)
    ensures
        match MaskWriteHoldingRegisterResponse::spec_decode(body@, 0) {
            Ok((res, _)) => if res.address == address && res.and_mask == and_mask && res.or_mask
                == or_mask {
                r is Ok
            } else {
                r matches Err(e) && e is InvalidResponse
            },
            Err(_) => r matches Err(e) && e is InvalidResponse,
        },
{
    let res: MaskWriteHoldingRegisterResponse = match Decoder::decode(body) {
        Ok(v) => v,
        Err(_) => {
            return Err(ModbusError::InvalidResponse(String::from_str("Malformed response")));
        },
    };
    if res.address == address && res.and_mask == and_mask && res.or_mask == or_mask {
        Ok(())
    } else {
        Err(ModbusError::InvalidResponse(String::from_str("Malformed response")))
    }
}

/// Decode an encapsulated-interface reply and hold it to the type rule: the
/// reply's interface type must equal the request's.
pub fn parse_modbus_encapsulated_interface_response(interface_type: u8, body: &[u8]) -> (r: Result<
    Vec<u8>,
    ModbusError,
>)
    ensures
        match ModbusEncapsulatedInterfaceResponse::spec_decode(body@, 0) {
            Ok((res, _)) => if res.0.spec_as_u8() == interface_type {
                r matches Ok(data) && data@ == res.1
            } else {
                r matches Err(e) && e is InvalidResponse
            },
            Err(_) => r matches Err(e) && e is InvalidResponse,
        },
{
    let res: ModbusEncapsulatedInterfaceResponse = match Decoder::decode(body) {
        Ok(v) => v,
        Err(_) => {
            return Err(ModbusError::InvalidResponse(String::from_str("Malformed response")));
        },
    };
    if res.kind.as_u8() != interface_type {
        return Err(ModbusError::InvalidResponse(String::from_str("Interface type mismatch")));
    }
    Ok(res.data)
}

/// Decode one page of a Read Device Identification reply.
pub fn parse_read_device_identification_response(body: &[u8]) -> (r: Result<
    ReadDeviceIdentificationResponse,
    ModbusError,
>)
    ensures
        match ReadDeviceIdentificationResponse::spec_decode(body@, 0) {
            Ok((page, _)) => r matches Ok(v) && v@ == page && v.objects.wf(),
            Err(_) => r matches Err(e) && e is InvalidResponse,
        },
{
    let mut decoder = Decoder::new(body);
    match decoder.read_type::<ReadDeviceIdentificationResponse>() {
        Ok(v) => {
            proof {
                let count = crate::encoding::spec_read_u8(body@, 4)->Ok_0.0;
                crate::messages::read_device_identification_response::lemma_spec_read_objects_unique(
                    body@,
                    5,
                    count as int,
                    Seq::<(u8, Seq<u8>)>::empty(),
                );
            }
            Ok(v)
        },
        Err(_) => Err(ModbusError::InvalidResponse(String::from_str("Malformed response"))),
    }
}

/// Fold one identification page into the running result: the named ids fill
/// their slots, every other id lands in `objects`, and a later page wins over
/// an earlier one.
pub fn apply_identification_page(
    result: &mut DeviceIdentification,
    page: &ReadDeviceIdentificationResponse,
)
    requires
        old(result).wf(),
        page.objects.wf(),
    ensures
        final(result).wf(),
        forall|id: u8|
            #![trigger spec_object_data(final(result), id)]
            spec_object_data(final(result), id) == (match seq_get(page.objects@, id) {
                Some(d) => Some(d),
                None => spec_object_data(old(result), id),
            }),
{
    let ghost all = page.objects@;
    let count = page.objects.len();
    let mut i: usize = 0;
    while i < count
        invariant
            i <= count,
            all == page.objects@,
            count == all.len(),
            page.objects.wf(),
            result.wf(),
            spec_object_data(result, 0) == page_slot(all.subrange(0, i as int), old(result), 0),
            spec_object_data(result, 1) == page_slot(all.subrange(0, i as int), old(result), 1),
            spec_object_data(result, 2) == page_slot(all.subrange(0, i as int), old(result), 2),
            spec_object_data(result, 3) == page_slot(all.subrange(0, i as int), old(result), 3),
            spec_object_data(result, 4) == page_slot(all.subrange(0, i as int), old(result), 4),
            spec_object_data(result, 5) == page_slot(all.subrange(0, i as int), old(result), 5),
            spec_object_data(result, 6) == page_slot(all.subrange(0, i as int), old(result), 6),
            forall|x: u8|
                7 <= x ==> #[trigger] seq_get(result.objects@, x) == (match seq_get(
                    all.subrange(0, i as int),
                    x,
                ) {
                    Some(d) => Some(d),
                    None => seq_get(old(result).objects@, x),
                }),
        decreases count - i,
    {
        let (id, data) = page.objects.entry_at(i);
        let ghost prefix = all.subrange(0, i as int);
        let ghost entry = all[i as int];
        proof {
            assert forall|j: int| 0 <= j < prefix.len() implies (#[trigger] prefix[j]).0
                != entry.0 by {
                assert(all[j] == prefix[j]);
            }
            crate::modbus_encapsulated_interface::lemma_seq_get_none(prefix, entry.0);
            crate::modbus_encapsulated_interface::lemma_seq_get_found(
                prefix.push(entry),
                entry.0,
                prefix.len() as int,
            );
            assert forall|other: u8| other != entry.0 implies #[trigger] seq_get(
                prefix.push(entry),
                other,
            ) == seq_get(prefix, other) by {
                crate::modbus_encapsulated_interface::lemma_seq_get_push_other(
                    prefix,
                    entry,
                    other,
                );
            }
            assert(prefix.push(entry) =~= all.subrange(0, i + 1 as int));
        }
        if id == 0 {
            result.vendor_name = data;
        } else if id == 1 {
            result.product_code = data;
        } else if id == 2 {
            result.major_minor_revision = data;
        } else if id == 3 {
            result.vendor_url = Some(data);
        } else if id == 4 {
            result.product_name = Some(data);
        } else if id == 5 {
            result.model_name = Some(data);
        } else if id == 6 {
            result.user_application_name = Some(data);
        } else {
            let ghost pre_objects = result.objects@;
            result.objects.insert(id, data);
            proof {
                crate::modbus_encapsulated_interface::lemma_seq_insert(pre_objects, id, entry.1);
            }
        }
        i = i + 1;
    }
    proof {
        assert(all.subrange(0, count as int) =~= all);
        assert forall|id: u8|
            spec_object_data(result, id) == (match seq_get(page.objects@, id) {
                Some(d) => Some(d),
                None => spec_object_data(old(result), id),
            }) by {
            if id >= 7 {
                assert(seq_get(result.objects@, id) == (match seq_get(all, id) {
                    Some(d) => Some(d),
                    None => seq_get(old(result).objects@, id),
                }));
            }
        }
    }
}

/// What one page leaves in a slot: the page's entry where it has one, the
/// prior value where it does not.
pub open spec fn page_slot(
    entries: Seq<(u8, Seq<u8>)>,
    prior: &DeviceIdentification,
    id: u8,
) -> Option<Seq<u8>> {
    match seq_get(entries, id) {
        Some(d) => Some(d),
        None => spec_object_data(prior, id),
    }
}

} // verus!
