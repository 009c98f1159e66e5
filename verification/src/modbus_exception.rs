//! Exception codes as defined by the MODBUS application protocol. Codes the
//! protocol does not name are preserved as `Unknown`; equality compares the
//! numeric value.

use vstd::prelude::*;

verus! {

#[derive(Clone, Copy, Debug)]
pub enum ModbusException {
    /// The function code received in the query is not an allowable action for the server.
    IllegalFunction,
    /// The data address received in the query is not an allowable address for the server.
    IllegalDataAddress,
    /// A value contained in the query data field is not an allowable value for the server.
    IllegalDataValue,
    /// An unrecoverable error occurred while the server was attempting to perform the requested action.
    ServerDeviceFailure,
    /// The server has accepted the request and is processing it, but a long duration of time will be required.
    Acknowledge,
    /// The server is engaged in processing a long-duration program command.
    ServerDeviceBusy,
    /// The server attempted to read a record file, but detected a parity error in the memory.
    MemoryParityError,
    /// The gateway was unable to allocate an internal communication path for the request.
    GatewayPathUnavailable,
    /// No response was obtained from the target device.
    GatewayTargetDeviceFailedToRespond,
    /// Something not in the protocol's list.
    Unknown(u8),
}

impl ModbusException {
    /// The numeric code on the wire.
    pub open spec fn spec_as_u8(self) -> u8 {
        match self {
            ModbusException::IllegalFunction => 1,
            ModbusException::IllegalDataAddress => 2,
            ModbusException::IllegalDataValue => 3,
            ModbusException::ServerDeviceFailure => 4,
            ModbusException::Acknowledge => 5,
            ModbusException::ServerDeviceBusy => 6,
            ModbusException::MemoryParityError => 8,
            ModbusException::GatewayPathUnavailable => 10,
            ModbusException::GatewayTargetDeviceFailedToRespond => 11,
            ModbusException::Unknown(value) => value,
        }
    }

    /// The variant a numeric code decodes to.
    pub open spec fn spec_from_u8(value: u8) -> ModbusException {
        if value == 1 {
            ModbusException::IllegalFunction
        } else if value == 2 {
            ModbusException::IllegalDataAddress
        } else if value == 3 {
            ModbusException::IllegalDataValue
        } else if value == 4 {
            ModbusException::ServerDeviceFailure
        } else if value == 5 {
            ModbusException::Acknowledge
        } else if value == 6 {
            ModbusException::ServerDeviceBusy
        } else if value == 8 {
            ModbusException::MemoryParityError
        } else if value == 10 {
            ModbusException::GatewayPathUnavailable
        } else if value == 11 {
            ModbusException::GatewayTargetDeviceFailedToRespond
        } else {
            ModbusException::Unknown(value)
        }
    }

    /// A code is canonical when it is the variant its own numeric value
    /// decodes to; every decoded code is canonical.
    pub open spec fn is_canonical(self) -> bool {
        self == ModbusException::spec_from_u8(self.spec_as_u8())
    }

    pub fn as_u8(self) -> (r: u8)
        ensures
            r == self.spec_as_u8(),
    {
        match self {
            ModbusException::IllegalFunction => 1,
            ModbusException::IllegalDataAddress => 2,
            ModbusException::IllegalDataValue => 3,
            ModbusException::ServerDeviceFailure => 4,
            ModbusException::Acknowledge => 5,
            ModbusException::ServerDeviceBusy => 6,
            ModbusException::MemoryParityError => 8,
            ModbusException::GatewayPathUnavailable => 10,
            ModbusException::GatewayTargetDeviceFailedToRespond => 11,
            ModbusException::Unknown(value) => value,
        }
    }

    pub fn from_u8(value: u8) -> (r: Self)
        ensures
            r == ModbusException::spec_from_u8(value),
    {
        match value {
            1 => ModbusException::IllegalFunction,
            2 => ModbusException::IllegalDataAddress,
            3 => ModbusException::IllegalDataValue,
            4 => ModbusException::ServerDeviceFailure,
            5 => ModbusException::Acknowledge,
            6 => ModbusException::ServerDeviceBusy,
            8 => ModbusException::MemoryParityError,
            10 => ModbusException::GatewayPathUnavailable,
            11 => ModbusException::GatewayTargetDeviceFailedToRespond,
            _ => ModbusException::Unknown(value),
        }
    }
}

/// Decoding a numeric exception code gives back the same numeric code.
pub proof fn lemma_exception_round_trip(value: u8)
    ensures
        ModbusException::spec_from_u8(value).spec_as_u8() == value,
{
}

impl PartialEq for ModbusException {
    /// Codes are equal when their numeric values are, whatever the variant.
    fn eq(&self, other: &Self) -> bool {
        self.as_u8() == other.as_u8()
    }
}

impl vstd::std_specs::cmp::PartialEqSpecImpl for ModbusException {
    open spec fn obeys_eq_spec() -> bool {
        true
    }

    open spec fn eq_spec(&self, other: &Self) -> bool {
        self.spec_as_u8() == other.spec_as_u8()
    }
}

} // verus!
