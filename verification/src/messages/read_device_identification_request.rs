//! Request for one round of the Read Device Identification sub-protocol.

use vstd::prelude::*;
use crate::encoding::{
    Decodable, DecodeError, DecodeResult, Decoder, Encodable, EncodeResult, Encoder, spec_read_u8,
};
use crate::modbus_encapsulated_interface::ReadDeviceIdentificationIdCode;

verus! {

/// Asks for the object stream starting after `object_id` (or for that single
/// object, with the individual id code).
#[derive(Clone, Copy, Debug, PartialEq)]
pub struct ReadDeviceIdentificationRequest {
    pub device_id_code: ReadDeviceIdentificationIdCode,
    pub object_id: u8,
}

impl View for ReadDeviceIdentificationRequest {
    type V = ReadDeviceIdentificationRequest;

    open spec fn view(&self) -> ReadDeviceIdentificationRequest {
        *self
    }
}

impl Encodable for ReadDeviceIdentificationRequest {
    open spec fn wire_ok(&self) -> bool {
        true
    }

    open spec fn wire(&self) -> Seq<u8> {
        seq![self.device_id_code.spec_as_u8(), self.object_id]
    }

    fn encode(&self, encoder: &mut Encoder) -> (r: EncodeResult) {
        encoder.write_u8(self.device_id_code.as_u8());
        encoder.write_u8(self.object_id);
        assert(encoder@ =~= old(encoder)@ + self.wire());
        Ok(())
    }
}

impl Decodable<ReadDeviceIdentificationRequest> for ReadDeviceIdentificationRequest {
    open spec fn spec_decode(data: Seq<u8>, pos: int) -> Result<
        (ReadDeviceIdentificationRequest, int),
        DecodeError,
    > {
        match spec_read_u8(data, pos) {
            Err(e) => Err(e),
            Ok((code, p)) => match spec_read_u8(data, p) {
                Err(e) => Err(e),
                Ok((object_id, p)) => Ok(
                    (
                        ReadDeviceIdentificationRequest {
                            device_id_code: ReadDeviceIdentificationIdCode::spec_from_u8(code),
                            object_id,
                        },
                        p,
                    ),
                ),
            },
        }
    }

    fn decode(decoder: &mut Decoder) -> (r: DecodeResult<ReadDeviceIdentificationRequest>) {
        let code = match decoder.read_u8() {
            Ok(v) => v,
            Err(e) => return Err(e),
        };
        let object_id = match decoder.read_u8() {
            Ok(v) => v,
            Err(e) => return Err(e),
        };
        Ok(
            ReadDeviceIdentificationRequest {
                device_id_code: ReadDeviceIdentificationIdCode::from_u8(code),
                object_id,
            },
        )
    }
}

/// Decoding an encoded request gives the request back, whatever bytes follow,
/// for any canonical id code.
pub proof fn lemma_read_device_identification_request_round_trip(
    v: ReadDeviceIdentificationRequest,
    rest: Seq<u8>,
)
    requires
        v.device_id_code == ReadDeviceIdentificationIdCode::spec_from_u8(
            v.device_id_code.spec_as_u8(),
        ),
    ensures
        ReadDeviceIdentificationRequest::spec_decode(v.wire() + rest, 0) == Ok::<_, DecodeError>(
            (v, 2int),
        ),
{
    let data = v.wire() + rest;
    assert(data[0] == v.device_id_code.spec_as_u8());
    assert(data[1] == v.object_id);
}

} // verus!
