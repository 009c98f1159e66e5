//! Response for one round of the Read Device Identification sub-protocol: a
//! fixed header, then a counted list of objects, each an id, a length and a
//! payload.

use vstd::prelude::*;
use crate::encoding::{
    Decodable, DecodeError, DecodeResult, Decoder, Encodable, EncodeError, EncodeResult, Encoder,
    spec_read_bytes, spec_read_u8,
};
use crate::modbus_encapsulated_interface::{
    ObjectMap, ReadDeviceIdentificationConformityLevel, ReadDeviceIdentificationIdCode,
    seq_contains_id, seq_insert, unique_ids,
};

verus! {

/// One page of the paginated object stream. `more_follows` says whether
/// another page exists; `next_object_id` is where it starts.
#[derive(Clone, Debug, PartialEq)]
pub struct ReadDeviceIdentificationResponse {
    pub device_id_code: ReadDeviceIdentificationIdCode,
    pub conformity_level: ReadDeviceIdentificationConformityLevel,
    pub more_follows: bool,
    pub next_object_id: u8,
    pub objects: ObjectMap,
}

/// The response's fields with the objects as an abstract entry list.
pub struct ReadDeviceIdentificationResponseView {
    pub device_id_code: ReadDeviceIdentificationIdCode,
    pub conformity_level: ReadDeviceIdentificationConformityLevel,
    pub more_follows: bool,
    pub next_object_id: u8,
    pub objects: Seq<(u8, Seq<u8>)>,
}

impl View for ReadDeviceIdentificationResponse {
    type V = ReadDeviceIdentificationResponseView;

    open spec fn view(&self) -> ReadDeviceIdentificationResponseView {
        ReadDeviceIdentificationResponseView {
            device_id_code: self.device_id_code,
            conformity_level: self.conformity_level,
            more_follows: self.more_follows,
            next_object_id: self.next_object_id,
            objects: self.objects@,
        }
    }
}

/// Object entries on the wire: each an id byte, a length byte and the
/// payload, one after the other.
pub open spec fn object_entries_bytes(s: Seq<(u8, Seq<u8>)>) -> Seq<u8>
    decreases s.len(),
{
    if s.len() == 0 {
        Seq::empty()
    } else {
        seq![s[0].0, s[0].1.len() as u8] + s[0].1 + object_entries_bytes(s.drop_first())
    }
}

pub proof fn lemma_object_entries_bytes_push(s: Seq<(u8, Seq<u8>)>, id: u8, data: Seq<u8>)
    ensures
        object_entries_bytes(s.push((id, data))) == object_entries_bytes(s) + seq![
            id,
            data.len() as u8,
        ] + data,
    decreases s.len(),
{
    if s.len() == 0 {
        assert(s.push((id, data)).drop_first() =~= Seq::<(u8, Seq<u8>)>::empty());
        assert(s.push((id, data))[0] == (id, data));
        assert(object_entries_bytes(Seq::<(u8, Seq<u8>)>::empty()) == Seq::<u8>::empty());
        assert(object_entries_bytes(s.push((id, data))) =~= object_entries_bytes(s) + seq![
            id,
            data.len() as u8,
        ] + data);
    } else {
        assert(s.push((id, data))[0] == s[0]);
        assert(s.push((id, data)).drop_first() =~= s.drop_first().push((id, data)));
        lemma_object_entries_bytes_push(s.drop_first(), id, data);
        assert(object_entries_bytes(s.push((id, data))) =~= object_entries_bytes(s) + seq![
            id,
            data.len() as u8,
        ] + data);
    }
}

/// What reading `count` objects at `pos` yields, folded into `acc` with the
/// latest store winning.
pub open spec fn spec_read_objects(
    data: Seq<u8>,
    pos: int,
    count: int,
    acc: Seq<(u8, Seq<u8>)>,
) -> Result<(Seq<(u8, Seq<u8>)>, int), DecodeError>
    decreases count,
{
    if count <= 0 {
        Ok((acc, pos))
    } else {
        match spec_read_u8(data, pos) {
            Err(e) => Err(e),
            Ok((id, p)) => match spec_read_u8(data, p) {
                Err(e) => Err(e),
                Ok((len, p)) => match spec_read_bytes(data, p, len as int) {
                    Err(e) => Err(e),
                    Ok((payload, p)) => spec_read_objects(
                        data,
                        p,
                        count - 1,
                        seq_insert(acc, id, payload),
                    ),
                },
            },
        }
    }
}

/// Whatever is read, the resulting entry list keeps its ids unique.
pub proof fn lemma_spec_read_objects_unique(
    data: Seq<u8>,
    pos: int,
    count: int,
    acc: Seq<(u8, Seq<u8>)>,
)
    requires
        unique_ids(acc),
    ensures
        spec_read_objects(data, pos, count, acc) matches Ok((s, _)) ==> unique_ids(s),
    decreases count,
{
    if count > 0 {
        match spec_read_u8(data, pos) {
            Err(_) => {},
            Ok((id, p)) => match spec_read_u8(data, p) {
                Err(_) => {},
                Ok((len, p)) => match spec_read_bytes(data, p, len as int) {
                    Err(_) => {},
                    Ok((payload, p)) => {
                        crate::modbus_encapsulated_interface::lemma_seq_insert(acc, id, payload);
                        lemma_spec_read_objects_unique(
                            data,
                            p,
                            count - 1,
                            seq_insert(acc, id, payload),
                        );
                    },
                },
            },
        }
    }
}

/// Reading back an encoded entry list extends the accumulator by exactly that
/// list, when no id repeats across the two.
pub proof fn lemma_read_objects_entries(
    data: Seq<u8>,
    pos: int,
    s: Seq<(u8, Seq<u8>)>,
    acc: Seq<(u8, Seq<u8>)>,
)
    requires
        0 <= pos,
        pos + object_entries_bytes(s).len() <= data.len(),
        data.subrange(pos, pos + object_entries_bytes(s).len()) == object_entries_bytes(s),
        forall|i: int| 0 <= i < s.len() ==> (#[trigger] s[i]).1.len() <= 255,
        unique_ids(acc + s),
    ensures
        spec_read_objects(data, pos, s.len() as int, acc) == Ok::<_, DecodeError>(
            (acc + s, pos + object_entries_bytes(s).len()),
        ),
    decreases s.len(),
{
    if s.len() == 0 {
        assert(acc + s =~= acc);
    } else {
        let entry = s[0];
        let tail = s.drop_first();
        let eb = object_entries_bytes(s);
        let tail_bytes = object_entries_bytes(tail);
        assert(eb == seq![entry.0, entry.1.len() as u8] + entry.1 + tail_bytes);
        let plen = entry.1.len() as int;
        let n = eb.len() as int;
        assert forall|j: int| pos <= j < pos + n implies #[trigger] data[j] == eb[j - pos] by {
            assert(data.subrange(pos, pos + n)[j - pos] == data[j]);
        }
        assert(data[pos] == entry.0);
        assert(data[pos + 1] == entry.1.len() as u8);
        assert forall|j: int| 0 <= j < plen implies #[trigger] data.subrange(
            pos + 2,
            pos + 2 + plen,
        )[j] == entry.1[j] by {
            assert(data[pos + 2 + j] == eb[2 + j]);
        }
        assert(data.subrange(pos + 2, pos + 2 + plen) =~= entry.1);
        assert forall|j: int| 0 <= j < tail_bytes.len() implies #[trigger] data.subrange(
            pos + 2 + plen,
            pos + 2 + plen + tail_bytes.len() as int,
        )[j] == tail_bytes[j] by {
            assert(data[pos + 2 + plen + j] == eb[2 + plen + j]);
        }
        assert(data.subrange(pos + 2 + plen, pos + 2 + plen + tail_bytes.len() as int)
            =~= tail_bytes);
        assert forall|j: int| 0 <= j < acc.len() implies (#[trigger] (acc + s)[j]).0
            != entry.0 by {
            assert((acc + s)[acc.len() as int] == entry);
        }
        assert forall|j: int| 0 <= j < acc.len() implies (#[trigger] acc[j]).0 != entry.0 by {
            assert((acc + s)[j] == acc[j]);
        }
        if seq_contains_id(acc, entry.0) {
            let w = choose|i: int| 0 <= i < acc.len() && (#[trigger] acc[i]).0 == entry.0;
            assert(false);
        }
        let acc2 = seq_insert(acc, entry.0, entry.1);
        assert(acc2 == acc.push(entry));
        assert(acc2 + tail =~= acc + s);
        assert(unique_ids(acc2 + tail));
        assert forall|i: int| 0 <= i < tail.len() implies (#[trigger] tail[i]).1.len() <= 255 by {
            assert(tail[i] == s[i + 1]);
        }
        lemma_read_objects_entries(data, pos + 2 + plen, tail, acc2);
    }
}

impl Encodable for ReadDeviceIdentificationResponse {
    /// The object count must fit one byte, and so must each payload's length.
    open spec fn wire_ok(&self) -> bool {
        &&& self.objects@.len() <= 255
        &&& forall|i: int| 0 <= i < self.objects@.len() ==> (#[trigger] self.objects@[i]).1.len()
            <= 255
    }

    open spec fn wire(&self) -> Seq<u8> {
        seq![
            self.device_id_code.spec_as_u8(),
            self.conformity_level.spec_as_u8(),
            (if self.more_follows {
                0xFFu8
            } else {
                0u8
            }),
            self.next_object_id,
            self.objects@.len() as u8,
        ] + object_entries_bytes(self.objects@)
    }

    fn encode(&self, encoder: &mut Encoder) -> (r: EncodeResult) {
        if self.objects.len() > 255 {
            return Err(EncodeError::Overflow);
        }
        encoder.write_u8(self.device_id_code.as_u8());
        encoder.write_u8(self.conformity_level.as_u8());
        encoder.write_u8(
            if self.more_follows {
                0xFF
            } else {
                0x00
            },
        );
        encoder.write_u8(self.next_object_id);
        encoder.write_u8(self.objects.len() as u8);
        let ghost header_done = encoder@;
        let count = self.objects.len();
        let mut i: usize = 0;
        while i < count
            invariant
                i <= count,
                count == self.objects@.len(),
                encoder@ == header_done + object_entries_bytes(self.objects@.subrange(0, i as int)),
                forall|j: int| 0 <= j < i ==> (#[trigger] self.objects@[j]).1.len() <= 255,
            decreases count - i,
        {
            let (id, data) = self.objects.entry_at(i);
            if data.len() > 255 {
                return Err(EncodeError::Overflow);
            }
            encoder.write_u8(id);
            encoder.write_u8(data.len() as u8);
            encoder.write_bytes(data.as_slice());
            proof {
                lemma_object_entries_bytes_push(
                    self.objects@.subrange(0, i as int),
                    id,
                    data@,
                );
                assert(self.objects@.subrange(0, i as int).push((id, data@))
                    =~= self.objects@.subrange(0, i + 1 as int));
                assert(encoder@ =~= header_done + object_entries_bytes(
                    self.objects@.subrange(0, i + 1 as int),
                ));
            }
            i = i + 1;
        }
        proof {
            assert(self.objects@.subrange(0, count as int) =~= self.objects@);
            assert(encoder@ =~= old(encoder)@ + self.wire());
        }
        Ok(())
    }
}

/// Read `count` wire entries into a fresh object map, the latest store under
/// a repeated id winning.
fn read_objects(decoder: &mut Decoder, count: u8) -> (r: DecodeResult<ObjectMap>)
    requires
        old(decoder).wf(),
    ensures
        final(decoder).wf(),
        final(decoder).data_spec() == old(decoder).data_spec(),
        match r {
            Ok(m) => m.wf() && spec_read_objects(
                old(decoder).data_spec(),
                old(decoder).pos_spec(),
                count as int,
                Seq::<(u8, Seq<u8>)>::empty(),
            ) == Ok::<_, DecodeError>((m@, final(decoder).pos_spec())),
            Err(e) => spec_read_objects(
                old(decoder).data_spec(),
                old(decoder).pos_spec(),
                count as int,
                Seq::<(u8, Seq<u8>)>::empty(),
            ) == Err::<(Seq<(u8, Seq<u8>)>, int), _>(e),
        },
{
    let ghost data = old(decoder).data_spec();
    let ghost pos0 = old(decoder).pos_spec();
    let mut objects = ObjectMap::new();
    let mut i: usize = 0;
    while i < count as usize
        invariant
            i <= count as usize,
            decoder.wf(),
            decoder.data_spec() == data,
            data == old(decoder).data_spec(),
            pos0 == old(decoder).pos_spec(),
            objects.wf(),
            spec_read_objects(data, pos0, count as int, Seq::<(u8, Seq<u8>)>::empty())
                == spec_read_objects(data, decoder.pos_spec(), count - i, objects@),
        decreases count - i,
    {
        let id = match decoder.read_u8() {
            Ok(v) => v,
            Err(e) => return Err(e),
        };
        let len = match decoder.read_u8() {
            Ok(v) => v,
            Err(e) => return Err(e),
        };
        let payload = match decoder.read_bytes(len as usize) {
            Ok(v) => v,
            Err(e) => return Err(e),
        };
        objects.insert(id, payload);
        i = i + 1;
    }
    Ok(objects)
}

impl Decodable<ReadDeviceIdentificationResponse> for ReadDeviceIdentificationResponse {
    open spec fn spec_decode(data: Seq<u8>, pos: int) -> Result<
        (ReadDeviceIdentificationResponseView, int),
        DecodeError,
    > {
        match spec_read_u8(data, pos) {
            Err(e) => Err(e),
            Ok((code, p)) => match spec_read_u8(data, p) {
                Err(e) => Err(e),
                Ok((conformity, p)) => match spec_read_u8(data, p) {
                    Err(e) => Err(e),
                    Ok((more, p)) => match spec_read_u8(data, p) {
                        Err(e) => Err(e),
                        Ok((next_object_id, p)) => match spec_read_u8(data, p) {
                            Err(e) => Err(e),
                            Ok((count, p)) => match spec_read_objects(
                                data,
                                p,
                                count as int,
                                Seq::<(u8, Seq<u8>)>::empty(),
                            ) {
                                Err(e) => Err(e),
                                Ok((objects, p)) => Ok(
                                    (
                                        ReadDeviceIdentificationResponseView {
                                            device_id_code:
                                                ReadDeviceIdentificationIdCode::spec_from_u8(code),
                                            conformity_level:
                                                ReadDeviceIdentificationConformityLevel::spec_from_u8(
                                                conformity,
                                            ),
                                            more_follows: more != 0,
                                            next_object_id,
                                            objects,
                                        },
                                        p,
                                    ),
                                ),
                            },
                        },
                    },
                },
            },
        }
    }

    fn decode(decoder: &mut Decoder) -> (r: DecodeResult<ReadDeviceIdentificationResponse>) {
        let code = match decoder.read_u8() {
            Ok(v) => v,
            Err(e) => return Err(e),
        };
        let conformity = match decoder.read_u8() {
            Ok(v) => v,
            Err(e) => return Err(e),
        };
        let more = match decoder.read_u8() {
            Ok(v) => v,
            Err(e) => return Err(e),
        };
        let next_object_id = match decoder.read_u8() {
            Ok(v) => v,
            Err(e) => return Err(e),
        };
        let count = match decoder.read_u8() {
            Ok(v) => v,
            Err(e) => return Err(e),
        };
        let objects = match read_objects(decoder, count) {
            Ok(v) => v,
            Err(e) => return Err(e),
        };
        Ok(
            ReadDeviceIdentificationResponse {
                device_id_code: ReadDeviceIdentificationIdCode::from_u8(code),
                conformity_level: ReadDeviceIdentificationConformityLevel::from_u8(conformity),
                more_follows: more != 0,
                next_object_id,
                objects,
            },
        )
    }
}

/// Decoding an encoded response gives the response back, whatever bytes
/// follow, for canonical code bytes and an object list without repeated ids.
pub proof fn lemma_read_device_identification_response_round_trip(
    v: &ReadDeviceIdentificationResponse,
    rest: Seq<u8>,
)
    requires
        v.wire_ok(),
        v.objects.wf(),
        v.device_id_code == ReadDeviceIdentificationIdCode::spec_from_u8(
            v.device_id_code.spec_as_u8(),
        ),
        v.conformity_level == ReadDeviceIdentificationConformityLevel::spec_from_u8(
            v.conformity_level.spec_as_u8(),
        ),
    ensures
        ReadDeviceIdentificationResponse::spec_decode(v.wire() + rest, 0) == Ok::<_, DecodeError>(
            (v@, v.wire().len() as int),
        ),
{
    let data = v.wire() + rest;
    let s = v.objects@;
    let eb = object_entries_bytes(s);
    assert(data[0] == v.device_id_code.spec_as_u8());
    assert(data[1] == v.conformity_level.spec_as_u8());
    assert(data[2] == (if v.more_follows {
        0xFFu8
    } else {
        0u8
    }));
    assert(data[3] == v.next_object_id);
    assert(data[4] == s.len() as u8);
    assert(data.subrange(5, 5 + eb.len() as int) =~= eb);
    assert(Seq::<(u8, Seq<u8>)>::empty() + s =~= s);
    lemma_read_objects_entries(data, 5, s, Seq::<(u8, Seq<u8>)>::empty());
    let r = ReadDeviceIdentificationResponse::spec_decode(data, 0);
    assert(r is Ok);
    assert(r->Ok_0.0.objects == s);
}

} // verus!
