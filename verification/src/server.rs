//! The server side's decisions: request classification, the per-function
//! validation and reply building, exception framing, and the Read Device
//! Identification paging walk. The listener, the per-connection pump and the
//! handler hooks drive these from outside; every protocol rule they apply is
//! here.

use vstd::prelude::*;
use crate::encoding::{
    Decodable, DecodeError, Decoder, Encodable, Encoder, packed_bytes, packed_len, register_bytes,
};
use crate::function_code::FunctionCode;
use crate::message::Message;
use crate::messages::{
    ExceptionMessage, MaskWriteHoldingRegisterRequest, ModbusEncapsulatedInterfaceRequest,
    ReadCoilsRequest, ReadDeviceIdentificationRequest, ReadDeviceIdentificationResponse,
    ReadDiscreteInputsRequest, ReadHoldingRegistersRequest, ReadInputRegistersRequest,
    WriteMultipleCoilsRequest, WriteMultipleHoldingRegistersRequest,
    WriteMultipleHoldingRegistersResponse, WriteSingleCoilRequest, WriteSingleCoilResponse,
    WriteSingleHoldingRegisterRequest, WriteSingleHoldingRegisterResponse,
};
use crate::messages::read_device_identification_response::{
    ReadDeviceIdentificationResponseView, object_entries_bytes,
};
use crate::modbus_encapsulated_interface::{
    DeviceIdentification, ModbusEncapsulatedInterfaceType, ObjectMap,
    ReadDeviceIdentificationConformityLevel, ReadDeviceIdentificationIdCode,
    seq_get, spec_object_data, unique_ids,
};
use crate::modbus_exception::ModbusException;

verus! {

/// The server-side length and address policy: a bad length is an illegal
/// data value, a run past the address space an illegal data address.
pub fn validate_input(address: u16, length: u16, max_length: u16) -> (r: Result<
    (),
    ModbusException,
>)
    ensures
        r == (if length == 0 || length > max_length {
            Err::<(), ModbusException>(ModbusException::IllegalDataValue)
        } else if address + length - 1 > 0xFFFF {
            Err::<(), ModbusException>(ModbusException::IllegalDataAddress)
        } else {
            Ok::<(), ModbusException>(())
        }),
{
    if length == 0 || length > max_length {
        return Err(ModbusException::IllegalDataValue);
    }
    if address as u32 + (length as u32 - 1) > 0xFFFF {
        return Err(ModbusException::IllegalDataAddress);
    }
    Ok(())
}

/// A handler that answers a read with the wrong number of values is a server
/// device failure.
pub fn validate_output(length: usize, expected_length: u16) -> (r: Result<(), ModbusException>)
    ensures
        r == (if length == expected_length as usize {
            Ok::<(), ModbusException>(())
        } else {
            Err::<(), ModbusException>(ModbusException::ServerDeviceFailure)
        }),
{
    if length != expected_length as usize {
        return Err(ModbusException::ServerDeviceFailure);
    }
    Ok(())
}

/// A request decoded for dispatch to the matching handler hook.
pub enum ServerRequest {
    ReadCoils(ReadCoilsRequest),
    ReadDiscreteInputs(ReadDiscreteInputsRequest),
    ReadHoldingRegisters(ReadHoldingRegistersRequest),
    ReadInputRegisters(ReadInputRegistersRequest),
    WriteSingleCoil(WriteSingleCoilRequest),
    WriteSingleHoldingRegister(WriteSingleHoldingRegisterRequest),
    WriteMultipleCoils(WriteMultipleCoilsRequest),
    WriteMultipleHoldingRegisters(WriteMultipleHoldingRegistersRequest),
    MaskWriteHoldingRegister(MaskWriteHoldingRegisterRequest),
    ModbusEncapsulatedInterface(ModbusEncapsulatedInterfaceRequest),
}

pub struct ModbusTCPServer;

impl ModbusTCPServer {
    /// Classify a frame by its function code and decode the matching request:
    /// an unknown or exception code is an illegal function, a body that fails
    /// its decode a server device failure.
    pub fn decode_request(msg: &Message) -> (r: Result<ServerRequest, ModbusException>)
        ensures
            match msg@.function_code {
                FunctionCode::ReadCoils => match ReadCoilsRequest::spec_decode(msg@.body, 0) {
                    Ok((q, _)) => r matches Ok(ServerRequest::ReadCoils(v)) && v == q,
                    Err(_) => r == Err::<ServerRequest, _>(ModbusException::ServerDeviceFailure),
                },
                FunctionCode::ReadDiscreteInputs => match ReadDiscreteInputsRequest::spec_decode(
                    msg@.body,
                    0,
                ) {
                    Ok((q, _)) => r matches Ok(ServerRequest::ReadDiscreteInputs(v)) && v == q,
                    Err(_) => r == Err::<ServerRequest, _>(ModbusException::ServerDeviceFailure),
                },
                FunctionCode::ReadHoldingRegisters => match
                ReadHoldingRegistersRequest::spec_decode(msg@.body, 0) {
                    Ok((q, _)) => r matches Ok(ServerRequest::ReadHoldingRegisters(v)) && v == q,
                    Err(_) => r == Err::<ServerRequest, _>(ModbusException::ServerDeviceFailure),
                },
                FunctionCode::ReadInputRegisters => match ReadInputRegistersRequest::spec_decode(
                    msg@.body,
                    0,
                ) {
                    Ok((q, _)) => r matches Ok(ServerRequest::ReadInputRegisters(v)) && v == q,
                    Err(_) => r == Err::<ServerRequest, _>(ModbusException::ServerDeviceFailure),
                },
                FunctionCode::WriteSingleCoil => match WriteSingleCoilRequest::spec_decode(
                    msg@.body,
                    0,
                ) {
                    Ok((q, _)) => r matches Ok(ServerRequest::WriteSingleCoil(v)) && v == q,
                    Err(_) => r == Err::<ServerRequest, _>(ModbusException::ServerDeviceFailure),
                },
                FunctionCode::WriteSingleHoldingRegister => match
                WriteSingleHoldingRegisterRequest::spec_decode(msg@.body, 0) {
                    Ok((q, _)) => r matches Ok(ServerRequest::WriteSingleHoldingRegister(v)) && v
                        == q,
                    Err(_) => r == Err::<ServerRequest, _>(ModbusException::ServerDeviceFailure),
                },
                FunctionCode::WriteMultipleCoils => match WriteMultipleCoilsRequest::spec_decode(
                    msg@.body,
                    0,
                ) {
                    Ok((q, _)) => r matches Ok(ServerRequest::WriteMultipleCoils(v)) && v@ == q,
                    Err(_) => r == Err::<ServerRequest, _>(ModbusException::ServerDeviceFailure),
                },
                FunctionCode::WriteMultipleHoldingRegisters => match
                WriteMultipleHoldingRegistersRequest::spec_decode(msg@.body, 0) {
                    Ok((q, _)) => r matches Ok(ServerRequest::WriteMultipleHoldingRegisters(v))
                        && v@ == q,
                    Err(_) => r == Err::<ServerRequest, _>(ModbusException::ServerDeviceFailure),
                },
                FunctionCode::MaskWriteHoldingRegister => match
                MaskWriteHoldingRegisterRequest::spec_decode(msg@.body, 0) {
                    Ok((q, _)) => r matches Ok(ServerRequest::MaskWriteHoldingRegister(v)) && v
                        == q,
                    Err(_) => r == Err::<ServerRequest, _>(ModbusException::ServerDeviceFailure),
                },
                FunctionCode::ModbusEncapsulatedInterface => match
                ModbusEncapsulatedInterfaceRequest::spec_decode(msg@.body, 0) {
                    Ok((q, _)) => r matches Ok(ServerRequest::ModbusEncapsulatedInterface(v)) && v@
                        == q,
                    Err(_) => r == Err::<ServerRequest, _>(ModbusException::ServerDeviceFailure),
                },
                FunctionCode::Error(_) => r == Err::<ServerRequest, _>(
                    ModbusException::IllegalFunction,
                ),
                FunctionCode::Unknown(_) => r == Err::<ServerRequest, _>(
                    ModbusException::IllegalFunction,
                ),
            },
    {
        let body = msg.body.as_slice();
        match msg.function_code {
            FunctionCode::ReadCoils => match Decoder::decode::<ReadCoilsRequest>(body) {
                Ok(q) => Ok(ServerRequest::ReadCoils(q)),
                Err(_) => Err(ModbusException::ServerDeviceFailure),
            },
            FunctionCode::ReadDiscreteInputs => match Decoder::decode::<ReadDiscreteInputsRequest>(
                body,
            ) {
                Ok(q) => Ok(ServerRequest::ReadDiscreteInputs(q)),
                Err(_) => Err(ModbusException::ServerDeviceFailure),
            },
            FunctionCode::ReadHoldingRegisters => match Decoder::decode::<
                ReadHoldingRegistersRequest,
            >(body) {
                Ok(q) => Ok(ServerRequest::ReadHoldingRegisters(q)),
                Err(_) => Err(ModbusException::ServerDeviceFailure),
            },
            FunctionCode::ReadInputRegisters => match Decoder::decode::<ReadInputRegistersRequest>(
                body,
            ) {
                Ok(q) => Ok(ServerRequest::ReadInputRegisters(q)),
                Err(_) => Err(ModbusException::ServerDeviceFailure),
            },
            FunctionCode::WriteSingleCoil => match Decoder::decode::<WriteSingleCoilRequest>(
                body,
            ) {
                Ok(q) => Ok(ServerRequest::WriteSingleCoil(q)),
                Err(_) => Err(ModbusException::ServerDeviceFailure),
            },
            FunctionCode::WriteSingleHoldingRegister => match Decoder::decode::<
                WriteSingleHoldingRegisterRequest,
            >(body) {
                Ok(q) => Ok(ServerRequest::WriteSingleHoldingRegister(q)),
                Err(_) => Err(ModbusException::ServerDeviceFailure),
            },
            FunctionCode::WriteMultipleCoils => match Decoder::decode::<WriteMultipleCoilsRequest>(
                body,
            ) {
                Ok(q) => Ok(ServerRequest::WriteMultipleCoils(q)),
                Err(_) => Err(ModbusException::ServerDeviceFailure),
            },
            FunctionCode::WriteMultipleHoldingRegisters => match Decoder::decode::<
                WriteMultipleHoldingRegistersRequest,
            >(body) {
                Ok(q) => Ok(ServerRequest::WriteMultipleHoldingRegisters(q)),
                Err(_) => Err(ModbusException::ServerDeviceFailure),
            },
            FunctionCode::MaskWriteHoldingRegister => match Decoder::decode::<
                MaskWriteHoldingRegisterRequest,
            >(body) {
                Ok(q) => Ok(ServerRequest::MaskWriteHoldingRegister(q)),
                Err(_) => Err(ModbusException::ServerDeviceFailure),
            },
            FunctionCode::ModbusEncapsulatedInterface => match Decoder::decode::<
                ModbusEncapsulatedInterfaceRequest,
            >(body) {
                Ok(q) => Ok(ServerRequest::ModbusEncapsulatedInterface(q)),
                Err(_) => Err(ModbusException::ServerDeviceFailure),
            },
            FunctionCode::Error(_) => Err(ModbusException::IllegalFunction),
            FunctionCode::Unknown(_) => Err(ModbusException::IllegalFunction),
        }
    }

    /// Frame the outcome of one request. A normal reply keeps the request's
    /// function code and carries the built body; a failure becomes an
    /// exception reply whose function code is the request's with bit 0x80 set
    /// and whose body is the single exception-code byte. The transaction id,
    /// protocol id and unit id echo the request's unchanged.
    pub fn build_response(request: &Message, result: Result<Vec<u8>, ModbusException>) -> (r:
        Message)
        ensures
            r@.transaction_id == request@.transaction_id,
            r@.protocol_id == request@.protocol_id,
            r@.unit_id == request@.unit_id,
            match result {
                Ok(body) => r@.function_code == request@.function_code && r@.body == body@,
                Err(code) => r@.function_code == FunctionCode::Error(
                    request@.function_code.spec_as_u8() | 128,
                ) && r@.body == seq![code.spec_as_u8()],
            },
    {
        match result {
            Ok(body) => Message {
                transaction_id: request.transaction_id,
                protocol_id: request.protocol_id,
                unit_id: request.unit_id,
                function_code: request.function_code,
                body,
            },
            Err(code) => {
                let ex = ExceptionMessage::from_exception(code);
                let body = match Encoder::encode(&ex) {
                    Ok(b) => b,
                    Err(_) => Vec::new(),
                };
                Message {
                    transaction_id: request.transaction_id,
                    protocol_id: request.protocol_id,
                    unit_id: request.unit_id,
                    function_code: request.function_code.as_err(),
                    body,
                }
            },
        }
    }

    /// Body of a coil-read reply: exactly the requested number of values,
    /// bit-packed behind a byte count; a count mismatch or an over-long pack
    /// is a server device failure.
    pub fn read_coils(length: u16, values: Vec<bool>) -> (r: Result<Vec<u8>, ModbusException>)
        ensures
            values@.len() == length && packed_len(values@.len()) <= 255 ==> (r matches Ok(b) && b@
                == seq![packed_len(values@.len()) as u8] + packed_bytes(values@)),
            values@.len() != length || packed_len(values@.len()) > 255 ==> r == Err::<
                Vec<u8>,
                _,
            >(ModbusException::ServerDeviceFailure),
    {
        match validate_output(values.len(), length) {
            Ok(()) => {},
            Err(e) => {
                return Err(e);
            },
        }
        let resp = crate::messages::ReadCoilsResponse { values };
        match Encoder::encode(&resp) {
            Ok(b) => Ok(b),
            Err(_) => Err(ModbusException::ServerDeviceFailure),
        }
    }

    /// Body of a discrete-input-read reply, under the same rules as coils.
    pub fn read_discrete_inputs(length: u16, values: Vec<bool>) -> (r: Result<
        Vec<u8>,
        ModbusException,
    >)
        ensures
            values@.len() == length && packed_len(values@.len()) <= 255 ==> (r matches Ok(b) && b@
                == seq![packed_len(values@.len()) as u8] + packed_bytes(values@)),
            values@.len() != length || packed_len(values@.len()) > 255 ==> r == Err::<
                Vec<u8>,
                _,
            >(ModbusException::ServerDeviceFailure),
    {
        match validate_output(values.len(), length) {
            Ok(()) => {},
            Err(e) => {
                return Err(e);
            },
        }
        let resp = crate::messages::ReadDiscreteInputsResponse { values };
        match Encoder::encode(&resp) {
            Ok(b) => Ok(b),
            Err(_) => Err(ModbusException::ServerDeviceFailure),
        }
    }

    /// Body of a holding-register-read reply: exactly the requested number of
    /// registers, big-endian behind a byte count.
    pub fn read_holding_registers(length: u16, values: Vec<u16>) -> (r: Result<
        Vec<u8>,
        ModbusException,
    >)
        ensures
            values@.len() == length && 2 * values@.len() <= 255 ==> (r matches Ok(b) && b@ == seq![
                (2 * values@.len()) as u8,
            ] + register_bytes(values@)),
            values@.len() != length || 2 * values@.len() > 255 ==> r == Err::<Vec<u8>, _>(
                ModbusException::ServerDeviceFailure,
            ),
    {
        match validate_output(values.len(), length) {
            Ok(()) => {},
            Err(e) => {
                return Err(e);
            },
        }
        let resp = crate::messages::ReadHoldingRegistersResponse { values };
        match Encoder::encode(&resp) {
            Ok(b) => Ok(b),
            Err(_) => Err(ModbusException::ServerDeviceFailure),
        }
    }

    /// Body of an input-register-read reply, under the same rules as holding
    /// registers.
    pub fn read_input_registers(length: u16, values: Vec<u16>) -> (r: Result<
        Vec<u8>,
        ModbusException,
    >)
        ensures
            values@.len() == length && 2 * values@.len() <= 255 ==> (r matches Ok(b) && b@ == seq![
                (2 * values@.len()) as u8,
            ] + register_bytes(values@)),
            values@.len() != length || 2 * values@.len() > 255 ==> r == Err::<Vec<u8>, _>(
                ModbusException::ServerDeviceFailure,
            ),
    {
        Self::read_holding_registers(length, values)
    }

    /// Body of a single-coil write reply: the written address and value,
    /// echoed bit-exactly.
    pub fn write_single_coil(req: &WriteSingleCoilRequest) -> (r: Vec<u8>)
        ensures
            r@ == (WriteSingleCoilResponse { address: req.address, value: req.value }).wire(),
    {
        let resp = WriteSingleCoilResponse { address: req.address, value: req.value };
        match Encoder::encode(&resp) {
            Ok(b) => b,
            Err(_) => Vec::new(),
        }
    }

    /// Body of a single-register write reply: the written address and value,
    /// echoed bit-exactly.
    pub fn write_single_holding_register(req: &WriteSingleHoldingRegisterRequest) -> (r: Vec<u8>)
        ensures
            r@ == (WriteSingleHoldingRegisterResponse {
                address: req.address,
                value: req.value,
            }).wire(),
    {
        let resp = WriteSingleHoldingRegisterResponse { address: req.address, value: req.value };
        match Encoder::encode(&resp) {
            Ok(b) => b,
            Err(_) => Vec::new(),
        }
    }

    /// Body of a multiple-write reply: the written start address and count,
    /// echoed bit-exactly. Coil and register writes share the shape.
    pub fn write_multiple_response(address: u16, length: u16) -> (r: Vec<u8>)
        ensures
            r@ == (WriteMultipleHoldingRegistersResponse { address, length }).wire(),
    {
        let resp = WriteMultipleHoldingRegistersResponse { address, length };
        match Encoder::encode(&resp) {
            Ok(b) => b,
            Err(_) => Vec::new(),
        }
    }

    /// The mask-write combination and its reply: the register's new value is
    /// `(current & and_mask) | (or_mask & !and_mask)`, and the reply echoes
    /// the request bit-exactly.
    pub fn mask_write_holding_register(current: u16, req: &MaskWriteHoldingRegisterRequest) -> (r:
        (u16, Vec<u8>))
        ensures
            r.0 == (current & req.and_mask) | (req.or_mask & !req.and_mask),
            r.1@ == req.wire(),
    {
        let value = (current & req.and_mask) | (req.or_mask & !req.and_mask);
        let echo = MaskWriteHoldingRegisterRequest {
            address: req.address,
            and_mask: req.and_mask,
            or_mask: req.or_mask,
        };
        let body = match Encoder::encode(&echo) {
            Ok(b) => b,
            Err(_) => Vec::new(),
        };
        (value, body)
    }

    /// Wrap a generic sub-protocol reply behind its encapsulation type byte.
    pub fn modbus_encapsulated_interface(interface_type: u8, data: Vec<u8>) -> (r: Vec<u8>)
        ensures
            r@ == seq![interface_type] + data@,
    {
        let resp = crate::messages::ModbusEncapsulatedInterfaceResponse {
            kind: ModbusEncapsulatedInterfaceType::from_u8(interface_type),
            data,
        };
        match Encoder::encode(&resp) {
            Ok(b) => {
                assert(b@ =~= seq![interface_type] + resp.data@);
                b
            },
            Err(_) => Vec::new(),
        }
    }

    /// One page of the Read Device Identification stream, as the dispatcher
    /// serves it from the device's advertised identification.
    pub fn read_device_identification(
        device_info: &DeviceIdentification,
        req: &ReadDeviceIdentificationRequest,
    ) -> (r: Result<ReadDeviceIdentificationResponse, ModbusException>)
        requires
            device_info.wf(),
        ensures
            match r {
                Ok(resp) => spec_device_identification_response(device_info, *req) == Ok::<
                    _,
                    ModbusException,
                >(resp@) && resp.objects.wf(),
                Err(e) => spec_device_identification_response(device_info, *req) == Err::<
                    ReadDeviceIdentificationResponseView,
                    _,
                >(e),
            },
    {
        let data = match device_info.object_data(req.object_id) {
            Some(d) => d,
            None => {
                return Err(ModbusException::IllegalDataAddress);
            },
        };
        let ghost data_view = data@;
        let max_object_id: u16 = match req.device_id_code {
            ReadDeviceIdentificationIdCode::Unknown(_) => {
                return Err(ModbusException::IllegalDataValue);
            },
            ReadDeviceIdentificationIdCode::Individual => {
                let mut objects = ObjectMap::new();
                objects.insert(req.object_id, data);
                proof {
                    assert(objects@ =~= seq![(req.object_id, data_view)]);
                }
                return Ok(
                    ReadDeviceIdentificationResponse {
                        device_id_code: req.device_id_code,
                        conformity_level:
                            ReadDeviceIdentificationConformityLevel::ExtendedStreamAndIndividual,
                        more_follows: false,
                        next_object_id: 0,
                        objects,
                    },
                );
            },
            ReadDeviceIdentificationIdCode::Basic => 0x02,
            ReadDeviceIdentificationIdCode::Regular => 0x7F,
            ReadDeviceIdentificationIdCode::Extended => 0xFF,
        };
        if data.len() > 244 {
            return Err(ModbusException::IllegalDataValue);
        }
        let msg_length: usize = 16 + data.len();
        let (collected, next_object_id) = collect_objects(
            device_info,
            req.object_id as u16 + 1,
            max_object_id,
            msg_length,
        );
        let ghost walked = spec_walk(
            device_info,
            req.object_id + 1,
            max_object_id as int,
            msg_length as int,
        ).0;
        proof {
            lemma_walk_ids(device_info, req.object_id + 1, max_object_id as int, msg_length as int);
        }
        let mut objects = ObjectMap::new();
        objects.insert(req.object_id, data);
        proof {
            assert(objects@ =~= seq![(req.object_id, data_view)]);
        }
        let ghost first = objects@;
        let n = collected.len();
        let mut k: usize = 0;
        while k < n
            invariant
                k <= n,
                n == collected@.len(),
                collected@.len() == walked.len(),
                forall|j: int|
                    0 <= j < walked.len() ==> ((#[trigger] collected@[j]).0, collected@[j].1@)
                        == walked[j],
                forall|j: int| 0 <= j < walked.len() ==> req.object_id < (#[trigger] walked[j]).0,
                forall|j1: int, j2: int|
                    0 <= j1 < j2 < walked.len() ==> (#[trigger] walked[j1]).0 < (
                    #[trigger] walked[j2]).0,
                first == seq![(req.object_id, data_view)],
                objects.wf(),
                objects@ == first + walked.subrange(0, k as int),
            decreases n - k,
        {
            let (id, d) = {
                let entry = &collected[k];
                (entry.0, entry.1.clone())
            };
            proof {
                assert((id, d@) == walked[k as int]);
                assert forall|j: int| 0 <= j < objects@.len() implies (#[trigger] objects@[j]).0
                    != id by {
                    if j == 0 {
                        assert(objects@[0] == first[0]);
                    } else {
                        assert(objects@[j] == walked[j - 1]);
                    }
                }
                crate::modbus_encapsulated_interface::lemma_seq_get_none(objects@, id);
                crate::modbus_encapsulated_interface::lemma_seq_insert(objects@, id, d@);
            }
            objects.insert(id, d);
            proof {
                assert(objects@ =~= first + walked.subrange(0, k + 1 as int));
            }
            k = k + 1;
        }
        proof {
            assert(walked.subrange(0, n as int) =~= walked);
        }
        Ok(
            ReadDeviceIdentificationResponse {
                device_id_code: req.device_id_code,
                conformity_level:
                    ReadDeviceIdentificationConformityLevel::ExtendedStreamAndIndividual,
                more_follows: next_object_id != 0,
                next_object_id,
                objects,
            },
        )
    }

    /// Serve the Read Device Identification sub-protocol: decode the inner
    /// request, run the paging, and wrap the encoded page behind the
    /// encapsulation type byte.
    pub fn read_device_identification_mei_response(
        device_info: &DeviceIdentification,
        data: &[u8],
    ) -> (r: Result<Vec<u8>, ModbusException>)
        requires
            device_info.wf(),
        ensures
            match ReadDeviceIdentificationRequest::spec_decode(data@, 0) {
                Err(_) => r == Err::<Vec<u8>, _>(ModbusException::ServerDeviceFailure),
                Ok((ireq, _)) => match spec_device_identification_response(device_info, ireq) {
                    Err(e) => r == Err::<Vec<u8>, _>(e),
                    Ok(view) => if rdi_response_wire_ok(view) {
                        r matches Ok(b) && b@ == seq![14u8] + rdi_response_wire(view)
                    } else {
                        r == Err::<Vec<u8>, _>(ModbusException::ServerDeviceFailure)
                    },
                },
            },
    {
        let ireq: ReadDeviceIdentificationRequest = match Decoder::decode(data) {
            Ok(v) => v,
            Err(_) => {
                return Err(ModbusException::ServerDeviceFailure);
            },
        };
        let page = match Self::read_device_identification(device_info, &ireq) {
            Ok(v) => v,
            Err(e) => {
                return Err(e);
            },
        };
        let mut encoder = Encoder::new();
        encoder.write_u8(14);
        match encoder.write_type(&page) {
            Ok(()) => {},
            Err(_) => {
                return Err(ModbusException::ServerDeviceFailure);
            },
        }
        let bytes = encoder.finish();
        proof {
            assert(bytes@ =~= seq![14u8] + rdi_response_wire(page@));
        }
        Ok(bytes)
    }
}

/// What the wire form of a device-identification page looks like, from the
/// page's abstract view.
pub open spec fn rdi_response_wire(v: ReadDeviceIdentificationResponseView) -> Seq<u8> {
    seq![
        v.device_id_code.spec_as_u8(),
        v.conformity_level.spec_as_u8(),
        (if v.more_follows {
            0xFFu8
        } else {
            0u8
        }),
        v.next_object_id,
        v.objects.len() as u8,
    ] + object_entries_bytes(v.objects)
}

/// Whether a page fits the wire form's field widths.
pub open spec fn rdi_response_wire_ok(v: ReadDeviceIdentificationResponseView) -> bool {
    &&& v.objects.len() <= 255
    &&& forall|i: int| 0 <= i < v.objects.len() ==> (#[trigger] v.objects[i]).1.len() <= 255
}

/// What one identification request yields: the requested object's data (or an
/// illegal data address), a rejection of unknown id codes, the single object
/// for the individual code, and otherwise the budgeted walk of the ids above
/// the requested one.
pub open spec fn spec_device_identification_response(
    di: &DeviceIdentification,
    req: ReadDeviceIdentificationRequest,
) -> Result<ReadDeviceIdentificationResponseView, ModbusException> {
    match spec_object_data(di, req.object_id) {
        None => Err(ModbusException::IllegalDataAddress),
        Some(data) => match req.device_id_code {
            ReadDeviceIdentificationIdCode::Unknown(_) => Err(ModbusException::IllegalDataValue),
            ReadDeviceIdentificationIdCode::Individual => Ok(
                ReadDeviceIdentificationResponseView {
                    device_id_code: req.device_id_code,
                    conformity_level:
                        ReadDeviceIdentificationConformityLevel::ExtendedStreamAndIndividual,
                    more_follows: false,
                    next_object_id: 0,
                    objects: seq![(req.object_id, data)],
                },
            ),
            _ => {
                let max_id: int = if req.device_id_code
                    == ReadDeviceIdentificationIdCode::Basic {
                    0x02
                } else if req.device_id_code == ReadDeviceIdentificationIdCode::Regular {
                    0x7F
                } else {
                    0xFF
                };
                if 16 + data.len() > 260 {
                    Err(ModbusException::IllegalDataValue)
                } else {
                    let walk = spec_walk(di, req.object_id + 1, max_id, 16 + data.len() as int);
                    Ok(
                        ReadDeviceIdentificationResponseView {
                            device_id_code: req.device_id_code,
                            conformity_level:
                                ReadDeviceIdentificationConformityLevel::ExtendedStreamAndIndividual,
                            more_follows: walk.1 != 0,
                            next_object_id: walk.1,
                            objects: seq![(req.object_id, data)] + walk.0,
                        },
                    )
                }
            },
        },
    }
}

/// The budgeted walk: visit ids upward from `cur` through `max`, adding each
/// present object's two-byte header and payload to the running frame size;
/// where an object would push the frame past 260 bytes, stop and name its id
/// as the next page's start (0 means the walk ran out of ids instead).
pub open spec fn spec_walk(di: &DeviceIdentification, cur: int, max: int, size: int) -> (
    Seq<(u8, Seq<u8>)>,
    u8,
)
    decreases max + 1 - cur,
{
    if cur > max {
        (Seq::<(u8, Seq<u8>)>::empty(), 0u8)
    } else {
        match spec_object_data(di, cur as u8) {
            None => spec_walk(di, cur + 1, max, size),
            Some(d) => if size + 2 + d.len() > 260 {
                (Seq::<(u8, Seq<u8>)>::empty(), cur as u8)
            } else {
                let rest = spec_walk(di, cur + 1, max, size + 2 + d.len());
                (seq![(cur as u8, d)] + rest.0, rest.1)
            },
        }
    }
}

/// The walk only ever yields ids at or above its start, in strictly ascending
/// order, and a nonzero stop id lies in the walked range with data present.
pub proof fn lemma_walk_ids(di: &DeviceIdentification, cur: int, max: int, size: int)
    requires
        0 <= cur,
        max <= 255,
    ensures
        ({
            let (objs, next) = spec_walk(di, cur, max, size);
            &&& forall|j: int| 0 <= j < objs.len() ==> cur <= (#[trigger] objs[j]).0 <= max
            &&& forall|j1: int, j2: int|
                0 <= j1 < j2 < objs.len() ==> (#[trigger] objs[j1]).0 < (#[trigger] objs[j2]).0
            &&& next != 0 ==> cur <= next <= max && spec_object_data(di, next) is Some
        }),
    decreases max + 1 - cur,
{
    if cur <= max {
        lemma_walk_ids(di, cur + 1, max, size);
        match spec_object_data(di, cur as u8) {
            None => {
                lemma_walk_ids(di, cur + 1, max, size);
            },
            Some(d) => {
                if size + 2 + d.len() <= 260 {
                    lemma_walk_ids(di, cur + 1, max, size + 2 + d.len());
                    let rest = spec_walk(di, cur + 1, max, size + 2 + d.len());
                    let objs = seq![(cur as u8, d)] + rest.0;
                    assert forall|j: int| 0 <= j < objs.len() implies cur <= (
                    #[trigger] objs[j]).0 <= max by {
                        if j > 0 {
                            assert(objs[j] == rest.0[j - 1]);
                        }
                    }
                    assert forall|j1: int, j2: int|
                        0 <= j1 < j2 < objs.len() implies (#[trigger] objs[j1]).0 < (
                    #[trigger] objs[j2]).0 by {
                        assert(objs[j2] == rest.0[j2 - 1]);
                        if j1 > 0 {
                            assert(objs[j1] == rest.0[j1 - 1]);
                        }
                    }
                }
            },
        }
    }
}

/// The objects a device advertises with ids in `lo` through `hi`, in
/// ascending id order.
pub open spec fn spec_present_ids_in(di: &DeviceIdentification, lo: int, hi: int) -> Seq<
    (u8, Seq<u8>),
>
    decreases hi + 1 - lo,
{
    if lo > hi {
        Seq::<(u8, Seq<u8>)>::empty()
    } else {
        match spec_object_data(di, lo as u8) {
            Some(d) => seq![(lo as u8, d)] + spec_present_ids_in(di, lo + 1, hi),
            None => spec_present_ids_in(di, lo + 1, hi),
        }
    }
}

/// Looking an id up in the advertised range finds exactly the device's data
/// for it.
pub proof fn lemma_present_ids_get(di: &DeviceIdentification, lo: int, hi: int, id: u8)
    requires
        0 <= lo,
        hi <= 255,
    ensures
        seq_get(spec_present_ids_in(di, lo, hi), id) == (if lo <= id <= hi {
            spec_object_data(di, id)
        } else {
            None::<Seq<u8>>
        }),
    decreases hi + 1 - lo,
{
    if lo <= hi {
        lemma_present_ids_get(di, lo + 1, hi, id);
        match spec_object_data(di, lo as u8) {
            Some(d) => {
                let s = spec_present_ids_in(di, lo, hi);
                let rest = spec_present_ids_in(di, lo + 1, hi);
                assert(s[0] == (lo as u8, d));
                assert(s.drop_first() =~= rest);
            },
            None => {},
        }
    }
}

/// The advertised range splits at any point into the two half-ranges, one
/// after the other.
pub proof fn lemma_present_ids_split(di: &DeviceIdentification, lo: int, mid: int, hi: int)
    requires
        lo <= mid <= hi + 1,
    ensures
        spec_present_ids_in(di, lo, hi) == spec_present_ids_in(di, lo, mid - 1)
            + spec_present_ids_in(di, mid, hi),
    decreases mid - lo,
{
    if lo == mid {
        assert(spec_present_ids_in(di, lo, mid - 1) =~= Seq::<(u8, Seq<u8>)>::empty());
        assert(spec_present_ids_in(di, lo, hi) =~= spec_present_ids_in(di, lo, mid - 1)
            + spec_present_ids_in(di, mid, hi));
    } else {
        lemma_present_ids_split(di, lo + 1, mid, hi);
        match spec_object_data(di, lo as u8) {
            Some(d) => {
                assert(spec_present_ids_in(di, lo, hi) =~= spec_present_ids_in(di, lo, mid - 1)
                    + spec_present_ids_in(di, mid, hi));
            },
            None => {},
        }
    }
}

/// What the budgeted walk covers: every present id from `cur` up to either
/// the end of the range (stop id 0) or the id it burst the budget on, which
/// then has data present and starts the next page.
pub proof fn lemma_walk_covers(di: &DeviceIdentification, cur: int, max: int, size: int)
    requires
        1 <= cur,
        max <= 255,
    ensures
        ({
            let (objs, next) = spec_walk(di, cur, max, size);
            &&& (next == 0 ==> objs == spec_present_ids_in(di, cur, max))
            &&& (next != 0 ==> cur <= next as int <= max && spec_object_data(di, next) is Some
                && objs == spec_present_ids_in(di, cur, next as int - 1))
        }),
    decreases max + 1 - cur,
{
    if cur > max {
        assert(spec_present_ids_in(di, cur, max) =~= Seq::<(u8, Seq<u8>)>::empty());
    } else {
        match spec_object_data(di, cur as u8) {
            None => {
                lemma_walk_covers(di, cur + 1, max, size);
                let rest = spec_walk(di, cur + 1, max, size);
                if rest.1 == 0 {
                    assert(spec_present_ids_in(di, cur, max) == spec_present_ids_in(
                        di,
                        cur + 1,
                        max,
                    ));
                } else {
                    assert(cur + 1 <= rest.1 as int);
                    assert(spec_present_ids_in(di, cur, rest.1 as int - 1)
                        == spec_present_ids_in(di, cur + 1, rest.1 as int - 1));
                }
            },
            Some(d) => {
                if size + 2 + d.len() > 260 {
                    assert(spec_present_ids_in(di, cur, cur - 1) =~= Seq::<(u8, Seq<u8>)>::empty());
                } else {
                    lemma_walk_covers(di, cur + 1, max, size + 2 + d.len());
                    let rest = spec_walk(di, cur + 1, max, size + 2 + d.len());
                    if rest.1 == 0 {
                        assert(spec_present_ids_in(di, cur, max) == seq![(cur as u8, d)]
                            + spec_present_ids_in(di, cur + 1, max));
                    } else {
                        assert(cur + 1 <= rest.1 as int);
                        assert(spec_present_ids_in(di, cur, rest.1 as int - 1) == seq![
                            (cur as u8, d),
                        ] + spec_present_ids_in(di, cur + 1, rest.1 as int - 1));
                    }
                }
            },
        }
    }
}

/// The pages a compliant client collects: the extended-stream page at `oid`,
/// then, while `more_follows`, the page at the returned `next_object_id`,
/// their object maps one after the other.
pub open spec fn spec_pages_union(di: &DeviceIdentification, oid: int) -> Seq<(u8, Seq<u8>)>
    decreases 256 - oid,
{
    if !(0 <= oid <= 255) {
        Seq::<(u8, Seq<u8>)>::empty()
    } else {
        let req = ReadDeviceIdentificationRequest {
            device_id_code: ReadDeviceIdentificationIdCode::Extended,
            object_id: oid as u8,
        };
        match spec_device_identification_response(di, req) {
            Err(_) => Seq::<(u8, Seq<u8>)>::empty(),
            Ok(page) => if !page.more_follows || page.next_object_id as int <= oid {
                page.objects
            } else {
                page.objects + spec_pages_union(di, page.next_object_id as int)
            },
        }
    }
}

/// Device-identification paging: the pages a client walks by starting at
/// `oid` and following `next_object_id` while `more_follows` hold, taken
/// together, exactly the objects the device advertises from `oid` upward —
/// provided each advertised object fits a frame on its own (244 payload
/// bytes) and the starting object exists.
pub proof fn lemma_identification_paging_union(di: &DeviceIdentification, oid: int)
    requires
        forall|id: u8| (#[trigger] spec_object_data(di, id)) matches Some(d) ==> d.len() <= 244,
        0 <= oid <= 255,
        spec_object_data(di, oid as u8) is Some,
    ensures
        spec_pages_union(di, oid) == spec_present_ids_in(di, oid, 255),
    decreases 256 - oid,
{
    let data = spec_object_data(di, oid as u8)->Some_0;
    assert(data.len() <= 244);
    let starter = 16 + data.len() as int;
    let walk = spec_walk(di, oid + 1, 255, starter);
    lemma_walk_covers(di, oid + 1, 255, starter);
    if walk.1 == 0 {
        assert(spec_pages_union(di, oid) =~= spec_present_ids_in(di, oid, 255));
    } else {
        let next = walk.1 as int;
        assert(oid + 1 <= next <= 255);
        lemma_identification_paging_union(di, next);
        lemma_present_ids_split(di, oid + 1, next, 255);
        assert(spec_pages_union(di, oid) =~= spec_present_ids_in(di, oid, 255));
    }
}

/// Following the paging from object 0, every advertised object — and nothing
/// else — is found in the union of the collected pages.
pub proof fn lemma_identification_pages_complete(di: &DeviceIdentification, id: u8)
    requires
        forall|id2: u8| (#[trigger] spec_object_data(di, id2)) matches Some(d) ==> d.len() <= 244,
    ensures
        seq_get(spec_pages_union(di, 0), id) == spec_object_data(di, id),
{
    assert(spec_object_data(di, 0u8) is Some);
    lemma_identification_paging_union(di, 0);
    lemma_present_ids_get(di, 0, 255, id);
}

/// Walk the present objects upward from `cur`, mirroring `spec_walk`.
fn collect_objects(di: &DeviceIdentification, cur: u16, max: u16, size: usize) -> (r: (
    Vec<(u8, Vec<u8>)>,
    u8,
))
    requires
        max <= 255,
        size <= 260,
    ensures
        ({
            let (objs, next) = spec_walk(di, cur as int, max as int, size as int);
            &&& r.1 == next
            &&& r.0@.len() == objs.len()
            &&& forall|j: int|
                0 <= j < objs.len() ==> ((#[trigger] r.0@[j]).0, r.0@[j].1@) == objs[j]
        }),
    decreases max + 1 - cur,
{
    if cur > max {
        return (Vec::new(), 0);
    }
    match di.object_data(cur as u8) {
        None => collect_objects(di, cur + 1, max, size),
        Some(d) => {
            if d.len() > 260 || size + 2 + d.len() > 260 {
                return (Vec::new(), cur as u8);
            }
            let size2 = size + 2 + d.len();
            let ghost d_view = d@;
            let (rest, next) = collect_objects(di, cur + 1, max, size2);
            let ghost rest0 = rest@;
            let mut objs: Vec<(u8, Vec<u8>)> = Vec::new();
            objs.push((cur as u8, d));
            let mut tail = rest;
            objs.append(&mut tail);
            proof {
                let walk = spec_walk(di, cur as int, max as int, size as int);
                let wrest = spec_walk(di, cur as int + 1, max as int, size2 as int);
                assert(walk.0 == seq![(cur as u8, d_view)] + wrest.0);
                assert(objs@.len() == walk.0.len());
                assert forall|j: int| 0 <= j < walk.0.len() implies ((#[trigger] objs@[j]).0,
                objs@[j].1@) == walk.0[j] by {
                    if j == 0 {
                        assert(objs@[0].0 == cur as u8 && objs@[0].1@ == d_view);
                    } else {
                        assert(objs@[j] == rest0[j - 1]);
                        assert((rest0[j - 1].0, rest0[j - 1].1@) == wrest.0[j - 1]);
                        assert(walk.0[j] == wrest.0[j - 1]);
                    }
                }
            }
            (objs, next)
        },
    }
}

} // verus!
