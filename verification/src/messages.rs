//! The per-function request and response records, each with its wire form.

pub mod exception_message;
pub mod mask_write_holding_register_request;
pub mod modbus_encapsulated_interface_request;
pub mod modbus_encapsulated_interface_response;
pub mod read_coils_request;
pub mod read_coils_response;
pub mod read_device_identification_request;
pub mod read_device_identification_response;
pub mod read_discrete_inputs_request;
pub mod read_discrete_inputs_response;
pub mod read_holding_registers_response;
pub mod read_input_registers_request;
pub mod write_multiple_coils_request;
pub mod write_multiple_holding_registers_request;
pub mod write_multiple_holding_registers_response;
pub mod write_single_coil_request;
pub mod write_single_coil_response;
pub mod write_single_holding_register_request;
pub mod write_single_holding_register_response;

pub use exception_message::ExceptionMessage;
pub use mask_write_holding_register_request::MaskWriteHoldingRegisterRequest;
pub use modbus_encapsulated_interface_request::ModbusEncapsulatedInterfaceRequest;
pub use modbus_encapsulated_interface_response::ModbusEncapsulatedInterfaceResponse;
pub use read_coils_request::ReadCoilsRequest;
pub use read_coils_response::ReadCoilsResponse;
pub use read_device_identification_request::ReadDeviceIdentificationRequest;
pub use read_device_identification_response::ReadDeviceIdentificationResponse;
pub use read_discrete_inputs_request::ReadDiscreteInputsRequest;
pub use read_discrete_inputs_response::ReadDiscreteInputsResponse;
pub use read_holding_registers_response::ReadHoldingRegistersResponse;
pub use read_input_registers_request::ReadInputRegistersRequest;
pub use write_multiple_coils_request::WriteMultipleCoilsRequest;
pub use write_multiple_holding_registers_request::WriteMultipleHoldingRegistersRequest;
pub use write_multiple_holding_registers_response::WriteMultipleHoldingRegistersResponse;
pub use write_single_coil_request::WriteSingleCoilRequest;
pub use write_single_coil_response::WriteSingleCoilResponse;
pub use write_single_holding_register_request::WriteSingleHoldingRegisterRequest;
pub use write_single_holding_register_response::WriteSingleHoldingRegisterResponse;

use vstd::prelude::*;

verus! {

/// A holding-register read request has the same shape as the other read
/// requests: a start address and a count.
pub type ReadHoldingRegistersRequest = ReadInputRegistersRequest;

/// Input registers come back in the same shape as holding registers.
pub type ReadInputRegistersResponse = ReadHoldingRegistersResponse;

/// A multiple-coil write is answered with an echoed address and count.
pub type WriteMultipleCoilsResponse = WriteMultipleHoldingRegistersResponse;

/// A mask write is answered with an echo of the request.
pub type MaskWriteHoldingRegisterResponse = MaskWriteHoldingRegisterRequest;

} // verus!
