//! The 8-bit MODBUS function code: the known operations, exception replies
//! (bit 0x80 set), and pass-through unknown codes. Equality compares the
//! numeric value, so unknown codes survive a round trip unharmed.

use vstd::prelude::*;

verus! {

#[derive(Clone, Copy, Debug)]
pub enum FunctionCode {
    ReadCoils,
    ReadDiscreteInputs,
    ReadHoldingRegisters,
    ReadInputRegisters,
    WriteSingleCoil,
    WriteSingleHoldingRegister,
    WriteMultipleCoils,
    WriteMultipleHoldingRegisters,
    MaskWriteHoldingRegister,
    ModbusEncapsulatedInterface,
    Error(u8),
    Unknown(u8),
}

impl FunctionCode {
    /// The numeric code on the wire.
    pub open spec fn spec_as_u8(self) -> u8 {
        match self {
            FunctionCode::ReadCoils => 1,
            FunctionCode::ReadDiscreteInputs => 2,
            FunctionCode::ReadHoldingRegisters => 3,
            FunctionCode::ReadInputRegisters => 4,
            FunctionCode::WriteSingleCoil => 5,
            FunctionCode::WriteSingleHoldingRegister => 6,
            FunctionCode::WriteMultipleCoils => 15,
            FunctionCode::WriteMultipleHoldingRegisters => 16,
            FunctionCode::MaskWriteHoldingRegister => 22,
            FunctionCode::ModbusEncapsulatedInterface => 43,
            FunctionCode::Error(value) => value,
            FunctionCode::Unknown(value) => value,
        }
    }

    /// The variant a numeric code decodes to: a known operation, an
    /// exception reply when bit 0x80 is set, otherwise an unknown code.
    pub open spec fn spec_from_u8(value: u8) -> FunctionCode {
        if value == 1 {
            FunctionCode::ReadCoils
        } else if value == 2 {
            FunctionCode::ReadDiscreteInputs
        } else if value == 3 {
            FunctionCode::ReadHoldingRegisters
        } else if value == 4 {
            FunctionCode::ReadInputRegisters
        } else if value == 5 {
            FunctionCode::WriteSingleCoil
        } else if value == 6 {
            FunctionCode::WriteSingleHoldingRegister
        } else if value == 15 {
            FunctionCode::WriteMultipleCoils
        } else if value == 16 {
            FunctionCode::WriteMultipleHoldingRegisters
        } else if value == 22 {
            FunctionCode::MaskWriteHoldingRegister
        } else if value == 43 {
            FunctionCode::ModbusEncapsulatedInterface
        } else if value & 128 != 0 {
            FunctionCode::Error(value)
        } else {
            FunctionCode::Unknown(value)
        }
    }

    /// A code is canonical when it is the variant its own numeric value
    /// decodes to; every decoded code is canonical.
    pub open spec fn is_canonical(self) -> bool {
        self == FunctionCode::spec_from_u8(self.spec_as_u8())
    }

    pub fn as_u8(self) -> (r: u8)
        ensures
            r == self.spec_as_u8(),
    {
        match self {
            FunctionCode::ReadCoils => 1,
            FunctionCode::ReadDiscreteInputs => 2,
            FunctionCode::ReadHoldingRegisters => 3,
            FunctionCode::ReadInputRegisters => 4,
            FunctionCode::WriteSingleCoil => 5,
            FunctionCode::WriteSingleHoldingRegister => 6,
            FunctionCode::WriteMultipleCoils => 15,
            FunctionCode::WriteMultipleHoldingRegisters => 16,
            FunctionCode::MaskWriteHoldingRegister => 22,
            FunctionCode::ModbusEncapsulatedInterface => 43,
            FunctionCode::Error(value) => value,
            FunctionCode::Unknown(value) => value,
        }
    }

    pub fn from_u8(value: u8) -> (r: Self)
        ensures
            r == FunctionCode::spec_from_u8(value),
            r.is_canonical(),
    {
        proof {
            lemma_from_u8_canonical(value);
        }
        match value {
            1 => FunctionCode::ReadCoils,
            2 => FunctionCode::ReadDiscreteInputs,
            3 => FunctionCode::ReadHoldingRegisters,
            4 => FunctionCode::ReadInputRegisters,
            5 => FunctionCode::WriteSingleCoil,
            6 => FunctionCode::WriteSingleHoldingRegister,
            15 => FunctionCode::WriteMultipleCoils,
            16 => FunctionCode::WriteMultipleHoldingRegisters,
            22 => FunctionCode::MaskWriteHoldingRegister,
            43 => FunctionCode::ModbusEncapsulatedInterface,
            _ => {
                if value & 128 != 0 {
                    FunctionCode::Error(value)
                } else {
                    FunctionCode::Unknown(value)
                }
            },
        }
    }

    /// The exception-reply code for this request code: the numeric value with
    /// bit 0x80 set.
    pub fn as_err(self) -> (r: Self)
        ensures
            r == FunctionCode::Error(self.spec_as_u8() | 128),
    {
        FunctionCode::Error(self.as_u8() | 128u8)
    }

    /// Whether this code marks an exception reply.
    pub fn is_error(self) -> (r: bool)
        ensures
            r == (self matches FunctionCode::Error(_)),
    {
        match self {
            FunctionCode::Error(_) => true,
            _ => false,
        }
    }
}

/// Decoding a numeric code gives back the same numeric code.
pub proof fn lemma_from_u8_round_trip(value: u8)
    ensures
        FunctionCode::spec_from_u8(value).spec_as_u8() == value,
{
}

/// What `from_u8` yields is canonical.
pub proof fn lemma_from_u8_canonical(value: u8)
    ensures
        FunctionCode::spec_from_u8(value).is_canonical(),
{
    lemma_from_u8_round_trip(value);
}

impl PartialEq for FunctionCode {
    /// Codes are equal when their numeric values are, whatever the variant.
    fn eq(&self, other: &Self) -> bool {
        self.as_u8() == other.as_u8()
    }
}

impl vstd::std_specs::cmp::PartialEqSpecImpl for FunctionCode {
    open spec fn obeys_eq_spec() -> bool {
        true
    }

    open spec fn eq_spec(&self, other: &Self) -> bool {
        self.spec_as_u8() == other.spec_as_u8()
    }
}

} // verus!
