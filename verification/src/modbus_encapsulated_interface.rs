//! The Modbus Encapsulated Interface (function code 43): its type byte, the
//! Read Device Identification sub-protocol's id codes and conformity levels,
//! and the device-identification object set.

use vstd::prelude::*;

verus! {

#[derive(Clone, Copy, Debug)]
pub enum ModbusEncapsulatedInterfaceType {
    ReadDeviceIdentification,
    Unknown(u8),
}

impl ModbusEncapsulatedInterfaceType {
    pub open spec fn spec_as_u8(self) -> u8 {
        match self {
            ModbusEncapsulatedInterfaceType::ReadDeviceIdentification => 14,
            ModbusEncapsulatedInterfaceType::Unknown(value) => value,
        }
    }

    pub open spec fn spec_from_u8(value: u8) -> ModbusEncapsulatedInterfaceType {
        if value == 14 {
            ModbusEncapsulatedInterfaceType::ReadDeviceIdentification
        } else {
            ModbusEncapsulatedInterfaceType::Unknown(value)
        }
    }

    pub fn as_u8(self) -> (r: u8)
        ensures
            r == self.spec_as_u8(),
    {
        match self {
            ModbusEncapsulatedInterfaceType::ReadDeviceIdentification => 14,
            ModbusEncapsulatedInterfaceType::Unknown(value) => value,
        }
    }

    pub fn from_u8(value: u8) -> (r: Self)
        ensures
            r == ModbusEncapsulatedInterfaceType::spec_from_u8(value),
    {
        if value == 14 {
            ModbusEncapsulatedInterfaceType::ReadDeviceIdentification
        } else {
            ModbusEncapsulatedInterfaceType::Unknown(value)
        }
    }
}

impl PartialEq for ModbusEncapsulatedInterfaceType {
    /// Types are equal when their numeric values are, whatever the variant.
    fn eq(&self, other: &Self) -> bool {
        self.as_u8() == other.as_u8()
    }
}

impl vstd::std_specs::cmp::PartialEqSpecImpl for ModbusEncapsulatedInterfaceType {
    open spec fn obeys_eq_spec() -> bool {
        true
    }

    open spec fn eq_spec(&self, other: &Self) -> bool {
        self.spec_as_u8() == other.spec_as_u8()
    }
}

/// Which stratum of identification objects a Read Device Identification
/// request asks for, or a single object.
#[derive(Clone, Copy, Debug)]
pub enum ReadDeviceIdentificationIdCode {
    Basic,
    Regular,
    Extended,
    Individual,
    Unknown(u8),
}

impl ReadDeviceIdentificationIdCode {
    pub open spec fn spec_as_u8(self) -> u8 {
        match self {
            ReadDeviceIdentificationIdCode::Basic => 1,
            ReadDeviceIdentificationIdCode::Regular => 2,
            ReadDeviceIdentificationIdCode::Extended => 3,
            ReadDeviceIdentificationIdCode::Individual => 4,
            ReadDeviceIdentificationIdCode::Unknown(value) => value,
        }
    }

    pub open spec fn spec_from_u8(value: u8) -> ReadDeviceIdentificationIdCode {
        if value == 1 {
            ReadDeviceIdentificationIdCode::Basic
        } else if value == 2 {
            ReadDeviceIdentificationIdCode::Regular
        } else if value == 3 {
            ReadDeviceIdentificationIdCode::Extended
        } else if value == 4 {
            ReadDeviceIdentificationIdCode::Individual
        } else {
            ReadDeviceIdentificationIdCode::Unknown(value)
        }
    }

    pub fn as_u8(self) -> (r: u8)
        ensures
            r == self.spec_as_u8(),
    {
        match self {
            ReadDeviceIdentificationIdCode::Basic => 1,
            ReadDeviceIdentificationIdCode::Regular => 2,
            ReadDeviceIdentificationIdCode::Extended => 3,
            ReadDeviceIdentificationIdCode::Individual => 4,
            ReadDeviceIdentificationIdCode::Unknown(value) => value,
        }
    }

    pub fn from_u8(value: u8) -> (r: Self)
        ensures
            r == ReadDeviceIdentificationIdCode::spec_from_u8(value),
    {
        if value == 1 {
            ReadDeviceIdentificationIdCode::Basic
        } else if value == 2 {
            ReadDeviceIdentificationIdCode::Regular
        } else if value == 3 {
            ReadDeviceIdentificationIdCode::Extended
        } else if value == 4 {
            ReadDeviceIdentificationIdCode::Individual
        } else {
            ReadDeviceIdentificationIdCode::Unknown(value)
        }
    }
}

impl PartialEq for ReadDeviceIdentificationIdCode {
    /// Codes are equal when their numeric values are, whatever the variant.
    fn eq(&self, other: &Self) -> bool {
        self.as_u8() == other.as_u8()
    }
}

impl vstd::std_specs::cmp::PartialEqSpecImpl for ReadDeviceIdentificationIdCode {
    open spec fn obeys_eq_spec() -> bool {
        true
    }

    open spec fn eq_spec(&self, other: &Self) -> bool {
        self.spec_as_u8() == other.spec_as_u8()
    }
}

#[derive(Clone, Copy, Debug)]
pub enum ReadDeviceIdentificationConformityLevel {
    BasicStream,
    RegularStream,
    ExtendedStream,
    BasicStreamAndIndividual,
    RegularStreamAndIndividual,
    ExtendedStreamAndIndividual,
    Unknown(u8),
}

impl ReadDeviceIdentificationConformityLevel {
    pub open spec fn spec_as_u8(self) -> u8 {
        match self {
            ReadDeviceIdentificationConformityLevel::BasicStream => 0x01,
            ReadDeviceIdentificationConformityLevel::RegularStream => 0x02,
            ReadDeviceIdentificationConformityLevel::ExtendedStream => 0x03,
            ReadDeviceIdentificationConformityLevel::BasicStreamAndIndividual => 0x81,
            ReadDeviceIdentificationConformityLevel::RegularStreamAndIndividual => 0x82,
            ReadDeviceIdentificationConformityLevel::ExtendedStreamAndIndividual => 0x83,
            ReadDeviceIdentificationConformityLevel::Unknown(value) => value,
        }
    }

    pub open spec fn spec_from_u8(value: u8) -> ReadDeviceIdentificationConformityLevel {
        if value == 0x01 {
            ReadDeviceIdentificationConformityLevel::BasicStream
        } else if value == 0x02 {
            ReadDeviceIdentificationConformityLevel::RegularStream
        } else if value == 0x03 {
            ReadDeviceIdentificationConformityLevel::ExtendedStream
        } else if value == 0x81 {
            ReadDeviceIdentificationConformityLevel::BasicStreamAndIndividual
        } else if value == 0x82 {
            ReadDeviceIdentificationConformityLevel::RegularStreamAndIndividual
        } else if value == 0x83 {
            ReadDeviceIdentificationConformityLevel::ExtendedStreamAndIndividual
        } else {
            ReadDeviceIdentificationConformityLevel::Unknown(value)
        }
    }

    pub fn as_u8(self) -> (r: u8)
        ensures
            r == self.spec_as_u8(),
    {
        match self {
            ReadDeviceIdentificationConformityLevel::BasicStream => 0x01,
            ReadDeviceIdentificationConformityLevel::RegularStream => 0x02,
            ReadDeviceIdentificationConformityLevel::ExtendedStream => 0x03,
            ReadDeviceIdentificationConformityLevel::BasicStreamAndIndividual => 0x81,
            ReadDeviceIdentificationConformityLevel::RegularStreamAndIndividual => 0x82,
            ReadDeviceIdentificationConformityLevel::ExtendedStreamAndIndividual => 0x83,
            ReadDeviceIdentificationConformityLevel::Unknown(value) => value,
        }
    }

    pub fn from_u8(value: u8) -> (r: Self)
        ensures
            r == ReadDeviceIdentificationConformityLevel::spec_from_u8(value),
    {
        if value == 0x01 {
            ReadDeviceIdentificationConformityLevel::BasicStream
        } else if value == 0x02 {
            ReadDeviceIdentificationConformityLevel::RegularStream
        } else if value == 0x03 {
            ReadDeviceIdentificationConformityLevel::ExtendedStream
        } else if value == 0x81 {
            ReadDeviceIdentificationConformityLevel::BasicStreamAndIndividual
        } else if value == 0x82 {
            ReadDeviceIdentificationConformityLevel::RegularStreamAndIndividual
        } else if value == 0x83 {
            ReadDeviceIdentificationConformityLevel::ExtendedStreamAndIndividual
        } else {
            ReadDeviceIdentificationConformityLevel::Unknown(value)
        }
    }
}

impl PartialEq for ReadDeviceIdentificationConformityLevel {
    /// Levels are equal when their numeric values are, whatever the variant.
    fn eq(&self, other: &Self) -> bool {
        self.as_u8() == other.as_u8()
    }
}

impl vstd::std_specs::cmp::PartialEqSpecImpl for ReadDeviceIdentificationConformityLevel {
    open spec fn obeys_eq_spec() -> bool {
        true
    }

    open spec fn eq_spec(&self, other: &Self) -> bool {
        self.spec_as_u8() == other.spec_as_u8()
    }
}

/// Whether `s` holds an entry keyed `id`.
pub open spec fn seq_contains_id(s: Seq<(u8, Seq<u8>)>, id: u8) -> bool {
    exists|i: int| 0 <= i < s.len() && (#[trigger] s[i]).0 == id
}

/// The data of the first entry keyed `id`, if any.
pub open spec fn seq_get(s: Seq<(u8, Seq<u8>)>, id: u8) -> Option<Seq<u8>>
    decreases s.len(),
{
    if s.len() == 0 {
        None
    } else if s[0].0 == id {
        Some(s[0].1)
    } else {
        seq_get(s.drop_first(), id)
    }
}

/// The position of the first entry keyed `id`.
pub open spec fn seq_index_of_id(s: Seq<(u8, Seq<u8>)>, id: u8) -> int
    decreases s.len(),
{
    if s.len() == 0 {
        0
    } else if s[0].0 == id {
        0
    } else {
        1 + seq_index_of_id(s.drop_first(), id)
    }
}

/// No two entries share a key.
pub open spec fn unique_ids(s: Seq<(u8, Seq<u8>)>) -> bool {
    forall|i: int, j: int| 0 <= i < j < s.len() ==> (#[trigger] s[i]).0 != (#[trigger] s[j]).0
}

/// The entry list after storing `data` under `id`: the first entry keyed `id`
/// is replaced, or a new entry is appended.
pub open spec fn seq_insert(s: Seq<(u8, Seq<u8>)>, id: u8, data: Seq<u8>) -> Seq<(u8, Seq<u8>)> {
    if seq_contains_id(s, id) {
        s.update(seq_index_of_id(s, id), (id, data))
    } else {
        s.push((id, data))
    }
}

pub proof fn lemma_seq_get_found(s: Seq<(u8, Seq<u8>)>, id: u8, i: int)
    requires
        0 <= i < s.len(),
        s[i].0 == id,
        forall|j: int| 0 <= j < i ==> (#[trigger] s[j]).0 != id,
    ensures
        seq_get(s, id) == Some(s[i].1),
        seq_index_of_id(s, id) == i,
    decreases i,
{
    if i > 0 {
        assert(s[0].0 != id);
        lemma_seq_get_found(s.drop_first(), id, i - 1);
    }
}

pub proof fn lemma_seq_get_none(s: Seq<(u8, Seq<u8>)>, id: u8)
    requires
        forall|j: int| 0 <= j < s.len() ==> (#[trigger] s[j]).0 != id,
    ensures
        seq_get(s, id) == None::<Seq<u8>>,
        !seq_contains_id(s, id),
    decreases s.len(),
{
    if s.len() > 0 {
        lemma_seq_get_none(s.drop_first(), id);
    }
}

/// `seq_get` finds an entry exactly when one exists.
pub proof fn lemma_seq_get_contains(s: Seq<(u8, Seq<u8>)>, id: u8)
    ensures
        seq_get(s, id) is Some <==> seq_contains_id(s, id),
        seq_contains_id(s, id) ==> {
            let i = seq_index_of_id(s, id);
            &&& 0 <= i < s.len()
            &&& s[i].0 == id
            &&& seq_get(s, id) == Some(s[i].1)
        },
    decreases s.len(),
{
    if s.len() > 0 && s[0].0 != id {
        lemma_seq_get_contains(s.drop_first(), id);
        if seq_contains_id(s, id) {
            let w = choose|i: int| 0 <= i < s.len() && (#[trigger] s[i]).0 == id;
            assert(s.drop_first()[w - 1].0 == id);
        }
        if seq_contains_id(s.drop_first(), id) {
            let w = choose|i: int|
                0 <= i < s.drop_first().len() && (#[trigger] s.drop_first()[i]).0 == id;
            assert(s[w + 1].0 == id);
        }
    }
}

/// Storing under `id` leaves every other key's lookup unchanged and makes
/// `id` map to `data`; unique keys stay unique.
pub proof fn lemma_seq_insert(s: Seq<(u8, Seq<u8>)>, id: u8, data: Seq<u8>)
    requires
        unique_ids(s),
    ensures
        unique_ids(seq_insert(s, id, data)),
        seq_get(seq_insert(s, id, data), id) == Some(data),
        forall|other: u8|
            other != id ==> #[trigger] seq_get(seq_insert(s, id, data), other) == seq_get(s, other),
        seq_contains_id(s, id) ==> seq_insert(s, id, data).len() == s.len(),
        !seq_contains_id(s, id) ==> seq_insert(s, id, data) == s.push((id, data)),
{
    lemma_seq_get_contains(s, id);
    let t = seq_insert(s, id, data);
    if seq_contains_id(s, id) {
        let i = seq_index_of_id(s, id);
        assert forall|other: u8| other != id implies #[trigger] seq_get(t, other) == seq_get(
            s,
            other,
        ) by {
            lemma_seq_get_update_other(s, i, (id, data), other);
        }
        assert forall|j: int| 0 <= j < i implies (#[trigger] t[j]).0 != id by {
            assert(s[j].0 != s[i].0);
        }
        lemma_seq_get_found(t, id, i);
    } else {
        assert(t == s.push((id, data)));
        assert(t[s.len() as int].0 == id);
        assert forall|j: int| 0 <= j < s.len() implies (#[trigger] t[j]).0 != id by {
            assert(t[j] == s[j]);
            if s[j].0 == id {
                assert(seq_contains_id(s, id));
            }
        }
        lemma_seq_get_found(t, id, s.len() as int);
        assert forall|other: u8| other != id implies #[trigger] seq_get(t, other) == seq_get(
            s,
            other,
        ) by {
            lemma_seq_get_push_other(s, (id, data), other);
        }
    }
}

pub proof fn lemma_seq_get_push_other(s: Seq<(u8, Seq<u8>)>, entry: (u8, Seq<u8>), other: u8)
    requires
        entry.0 != other,
    ensures
        seq_get(s.push(entry), other) == seq_get(s, other),
    decreases s.len(),
{
    if s.len() == 0 {
        assert(s.push(entry)[0] == entry);
        assert(s.push(entry).drop_first() =~= Seq::<(u8, Seq<u8>)>::empty());
        assert(seq_get(Seq::<(u8, Seq<u8>)>::empty(), other) == None::<Seq<u8>>);
    } else {
        assert(s.push(entry)[0] == s[0]);
        assert(s.push(entry).drop_first() =~= s.drop_first().push(entry));
        lemma_seq_get_push_other(s.drop_first(), entry, other);
    }
}

proof fn lemma_seq_get_update_other(
    s: Seq<(u8, Seq<u8>)>,
    i: int,
    entry: (u8, Seq<u8>),
    other: u8,
)
    requires
        0 <= i < s.len(),
        s[i].0 == entry.0,
        entry.0 != other,
    ensures
        seq_get(s.update(i, entry), other) == seq_get(s, other),
    decreases s.len(),
{
    let t = s.update(i, entry);
    if i == 0 {
        assert(t.drop_first() =~= s.drop_first());
    } else {
        assert(t[0] == s[0]);
        assert(t.drop_first() =~= s.drop_first().update(i - 1, entry));
        if s[0].0 != other {
            lemma_seq_get_update_other(s.drop_first(), i - 1, entry, other);
        }
    }
}

/// The set of identification objects a device advertises beyond the named
/// slots, keyed by object id. Keys are unique; lookups see the latest store.
#[derive(Debug, Clone, PartialEq)]
pub struct ObjectMap {
    entries: Vec<(u8, Vec<u8>)>,
}

impl View for ObjectMap {
    type V = Seq<(u8, Seq<u8>)>;

    closed spec fn view(&self) -> Seq<(u8, Seq<u8>)> {
        Seq::new(self.entries@.len(), |i: int| (self.entries@[i].0, self.entries@[i].1@))
    }
}

impl ObjectMap {
    pub open spec fn wf(&self) -> bool {
        unique_ids(self@)
    }

    pub fn new() -> (r: Self)
        ensures
            r@ == Seq::<(u8, Seq<u8>)>::empty(),
            r.wf(),
    {
        let r = ObjectMap { entries: Vec::new() };
        assert(r@ =~= Seq::<(u8, Seq<u8>)>::empty());
        r
    }

    pub fn len(&self) -> (r: usize)
        ensures
            r == self@.len(),
    {
        self.entries.len()
    }

    /// The id and data of the entry at `index`, in storage order.
    pub fn entry_at(&self, index: usize) -> (r: (u8, Vec<u8>))
        requires
            index < self@.len(),
        ensures
            (r.0, r.1@) == self@[index as int],
    {
        let entry = &self.entries[index];
        (entry.0, entry.1.clone())
    }

    /// Look the data stored under `id` up.
    pub fn get(&self, id: u8) -> (r: Option<Vec<u8>>)
        ensures
            match r {
                Some(data) => seq_get(self@, id) == Some(data@),
                None => seq_get(self@, id) == None::<Seq<u8>>,
            },
    {
        let mut i: usize = 0;
        while i < self.entries.len()
            invariant
                i <= self@.len(),
                self@.len() == self.entries@.len(),
                forall|j: int| 0 <= j < i ==> (#[trigger] self@[j]).0 != id,
            decreases self@.len() - i,
        {
            if self.entries[i].0 == id {
                proof {
                    lemma_seq_get_found(self@, id, i as int);
                }
                return Some(self.entries[i].1.clone());
            }
            i = i + 1;
        }
        proof {
            lemma_seq_get_none(self@, id);
        }
        None
    }

    /// Store `data` under `id`, replacing what an earlier store left there.
    pub fn insert(&mut self, id: u8, data: Vec<u8>)
        requires
            old(self).wf(),
        ensures
            final(self).wf(),
            final(self)@ == seq_insert(old(self)@, id, data@),
    {
        proof {
            lemma_seq_insert(old(self)@, id, data@);
        }
        let mut i: usize = 0;
        while i < self.entries.len()
            invariant
                i <= self@.len(),
                self@.len() == self.entries@.len(),
                self@ == old(self)@,
                old(self).wf(),
                forall|j: int| 0 <= j < i ==> (#[trigger] self@[j]).0 != id,
            decreases self@.len() - i,
        {
            if self.entries[i].0 == id {
                proof {
                    assert(self@[i as int].0 == id);
                    lemma_seq_get_found(self@, id, i as int);
                    assert(seq_contains_id(old(self)@, id));
                    lemma_seq_insert(old(self)@, id, data@);
                }
                let _ = self.entries.remove(i);
                self.entries.insert(i, (id, data));
                proof {
                    assert(self@ =~= old(self)@.update(i as int, (id, data@)));
                }
                return ;
            }
            i = i + 1;
        }
        proof {
            lemma_seq_get_none(self@, id);
            lemma_seq_insert(old(self)@, id, data@);
        }
        self.entries.push((id, data));
        proof {
            assert(self@ =~= old(self)@.push((id, data@)));
        }
    }
}

/// Identification data a device advertises: the named objects 0 through 6,
/// of which the first three are mandatory, plus any further objects keyed by
/// id (the range 0x80 through 0xFF is product dependent). Object payloads are
/// raw bytes; the named ones conventionally hold text.
#[derive(Debug, Clone, PartialEq)]
pub struct DeviceIdentification {
    pub vendor_name: Vec<u8>,
    pub product_code: Vec<u8>,
    pub major_minor_revision: Vec<u8>,
    pub vendor_url: Option<Vec<u8>>,
    pub product_name: Option<Vec<u8>>,
    pub model_name: Option<Vec<u8>>,
    pub user_application_name: Option<Vec<u8>>,
    /// Objects outside the named range.
    pub objects: ObjectMap,
}

/// The byte representation a device advertises for object `id`, if any: the
/// named slots for ids 0 through 6, the object map for the rest.
pub open spec fn spec_object_data(di: &DeviceIdentification, id: u8) -> Option<Seq<u8>> {
    if id == 0 {
        Some(di.vendor_name@)
    } else if id == 1 {
        Some(di.product_code@)
    } else if id == 2 {
        Some(di.major_minor_revision@)
    } else if id == 3 {
        match di.vendor_url {
            Some(ref v) => Some(v@),
            None => None,
        }
    } else if id == 4 {
        match di.product_name {
            Some(ref v) => Some(v@),
            None => None,
        }
    } else if id == 5 {
        match di.model_name {
            Some(ref v) => Some(v@),
            None => None,
        }
    } else if id == 6 {
        match di.user_application_name {
            Some(ref v) => Some(v@),
            None => None,
        }
    } else {
        seq_get(di.objects@, id)
    }
}

impl DeviceIdentification {
    pub open spec fn wf(&self) -> bool {
        self.objects.wf()
    }

    /// An identification with empty mandatory fields and nothing else.
    pub fn new() -> (r: Self)
        ensures
            r.wf(),
            r.vendor_name@ == Seq::<u8>::empty(),
            r.product_code@ == Seq::<u8>::empty(),
            r.major_minor_revision@ == Seq::<u8>::empty(),
            r.vendor_url is None,
            r.product_name is None,
            r.model_name is None,
            r.user_application_name is None,
            r.objects@ == Seq::<(u8, Seq<u8>)>::empty(),
    {
        DeviceIdentification {
            vendor_name: Vec::new(),
            product_code: Vec::new(),
            major_minor_revision: Vec::new(),
            vendor_url: None,
            product_name: None,
            model_name: None,
            user_application_name: None,
            objects: ObjectMap::new(),
        }
    }

    /// The byte representation advertised for object `id`, if any.
    pub fn object_data(&self, id: u8) -> (r: Option<Vec<u8>>)
        ensures
            match r {
                Some(data) => spec_object_data(self, id) == Some(data@),
                None => spec_object_data(self, id) == None::<Seq<u8>>,
            },
    {
        if id == 0 {
            Some(self.vendor_name.clone())
        } else if id == 1 {
            Some(self.product_code.clone())
        } else if id == 2 {
            Some(self.major_minor_revision.clone())
        } else if id == 3 {
            match &self.vendor_url {
                Some(v) => Some(v.clone()),
                None => None,
            }
        } else if id == 4 {
            match &self.product_name {
                Some(v) => Some(v.clone()),
                None => None,
            }
        } else if id == 5 {
            match &self.model_name {
                Some(v) => Some(v.clone()),
                None => None,
            }
        } else if id == 6 {
            match &self.user_application_name {
                Some(v) => Some(v.clone()),
                None => None,
            }
        } else {
            self.objects.get(id)
        }
    }
}

} // verus!
