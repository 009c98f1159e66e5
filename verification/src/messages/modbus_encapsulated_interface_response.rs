//! Response carrying a Modbus Encapsulated Interface sub-protocol payload.

use vstd::prelude::*;
use crate::encoding::{
    Decodable, DecodeError, DecodeResult, Decoder, Encodable, EncodeResult, Encoder,
    spec_read_bytes, spec_read_u8,
};
use crate::modbus_encapsulated_interface::ModbusEncapsulatedInterfaceType;

verus! {

/// An encapsulation type byte followed by the sub-protocol's opaque data,
/// which runs to the end of the PDU.
#[derive(Clone, Debug, PartialEq)]
pub struct ModbusEncapsulatedInterfaceResponse {
    pub kind: ModbusEncapsulatedInterfaceType,
    pub data: Vec<u8>,
}

impl View for ModbusEncapsulatedInterfaceResponse {
    type V = (ModbusEncapsulatedInterfaceType, Seq<u8>);

    open spec fn view(&self) -> (ModbusEncapsulatedInterfaceType, Seq<u8>) {
        (self.kind, self.data@)
    }
}

impl Encodable for ModbusEncapsulatedInterfaceResponse {
    open spec fn wire_ok(&self) -> bool {
        true
    }

    open spec fn wire(&self) -> Seq<u8> {
        seq![self.kind.spec_as_u8()] + self.data@
    }

    fn encode(&self, encoder: &mut Encoder) -> (r: EncodeResult) {
        encoder.write_u8(self.kind.as_u8());
        encoder.write_bytes(self.data.as_slice());
        assert(encoder@ =~= old(encoder)@ + self.wire());
        Ok(())
    }
}

impl Decodable<ModbusEncapsulatedInterfaceResponse> for ModbusEncapsulatedInterfaceResponse {
    /// The data is whatever remains of the buffer after the type byte.
    open spec fn spec_decode(data: Seq<u8>, pos: int) -> Result<
        ((ModbusEncapsulatedInterfaceType, Seq<u8>), int),
        DecodeError,
    > {
        match spec_read_u8(data, pos) {
            Err(e) => Err(e),
            Ok((kind, p)) => match spec_read_bytes(data, p, data.len() - p) {
                Err(e) => Err(e),
                Ok((rest, p)) => Ok(
                    ((ModbusEncapsulatedInterfaceType::spec_from_u8(kind), rest), p),
                ),
            },
        }
    }

    fn decode(decoder: &mut Decoder) -> (r: DecodeResult<ModbusEncapsulatedInterfaceResponse>) {
        let kind = match decoder.read_u8() {
            Ok(v) => v,
            Err(e) => return Err(e),
        };
        let remaining = decoder.remaining();
        let data = match decoder.read_bytes(remaining) {
            Ok(v) => v,
            Err(e) => return Err(e),
        };
        Ok(ModbusEncapsulatedInterfaceResponse { kind: ModbusEncapsulatedInterfaceType::from_u8(kind), data })
    }
}

/// Decoding an encoded value gives the value back, for any canonical type
/// byte. The data field runs to the end of the buffer, so nothing may follow.
pub proof fn lemma_modbus_encapsulated_interface_response_round_trip(v: &ModbusEncapsulatedInterfaceResponse)
    requires
        v.kind == ModbusEncapsulatedInterfaceType::spec_from_u8(v.kind.spec_as_u8()),
    ensures
        ModbusEncapsulatedInterfaceResponse::spec_decode(v.wire(), 0) == Ok::<_, DecodeError>(
            (v@, v.wire().len() as int),
        ),
{
    let data = v.wire();
    assert(data[0] == v.kind.spec_as_u8());
    assert(data.subrange(1, data.len() as int) =~= v.data@);
}

} // verus!
