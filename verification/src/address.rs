//! Parsing of the conventional data-point notation: a leading digit that
//! names the address space (0 coils, 1 discrete inputs, 3 input registers,
//! 4 holding registers), then one to five decimal digits, shifted by a
//! caller-chosen offset.

use vstd::prelude::*;

verus! {

#[derive(PartialEq, Eq, Structural, Clone, Copy, Debug)]
pub enum AddressKind {
    Coil,
    DiscreteInput,
    InputRegister,
    HoldingRegister,
}

/// A data point: which address space, and the index within it.
#[derive(PartialEq, Eq, Structural, Clone, Copy, Debug)]
pub struct Address {
    pub kind: AddressKind,
    pub index: u16,
}

/// Why an address string was rejected.
#[derive(PartialEq, Clone, Debug)]
pub struct ParseAddressError(String);

impl ParseAddressError {
    pub fn message(&self) -> &str {
        self.0.as_str()
    }
}

/// The address space a leading character selects, if any.
pub open spec fn spec_kind_of(c: char) -> Option<AddressKind> {
    if c == '0' {
        Some(AddressKind::Coil)
    } else if c == '1' {
        Some(AddressKind::DiscreteInput)
    } else if c == '3' {
        Some(AddressKind::InputRegister)
    } else if c == '4' {
        Some(AddressKind::HoldingRegister)
    } else {
        None
    }
}

pub open spec fn is_digit(c: char) -> bool {
    48 <= c as u32 <= 57
}

pub open spec fn all_digits(s: Seq<char>) -> bool {
    forall|i: int| 0 <= i < s.len() ==> is_digit(#[trigger] s[i])
}

/// The number a string of decimal digits denotes.
pub open spec fn digits_value(s: Seq<char>) -> int
    decreases s.len(),
{
    if s.len() == 0 {
        0
    } else {
        digits_value(s.drop_last()) * 10 + (s.last() as u32 - 48)
    }
}

pub open spec fn ten_to(n: nat) -> int
    decreases n,
{
    if n == 0 {
        1
    } else {
        10 * ten_to((n - 1) as nat)
    }
}

pub proof fn lemma_digits_value_bound(s: Seq<char>)
    requires
        all_digits(s),
    ensures
        0 <= digits_value(s) < ten_to(s.len()),
    decreases s.len(),
{
    if s.len() > 0 {
        assert(all_digits(s.drop_last()));
        lemma_digits_value_bound(s.drop_last());
    }
}

/// When a whole address string parses: the space character, two to six
/// characters in all, digits throughout, and an index that lands in 16 bits
/// after the offset.
pub open spec fn spec_parse_ok(s: Seq<char>, offset: int) -> bool {
    &&& 2 <= s.len() <= 6
    &&& spec_kind_of(s[0]) is Some
    &&& all_digits(s.skip(1))
    &&& 0 <= digits_value(s.skip(1)) + offset <= 0xFFFF
}

impl Address {
    /// Parse an address string, shifting the written index by `offset`.
    /// Exactly the strings `spec_parse_ok` admits parse; the result's space
    /// is the leading character's and its index the written number plus the
    /// offset.
    pub fn parse(value: &str, offset: i32) -> (r: Result<Self, ParseAddressError>)
        ensures
            r is Ok <==> spec_parse_ok(value@, offset as int),
            r matches Ok(a) ==> Some(a.kind) == spec_kind_of(value@[0]) && a.index
                == digits_value(value@.skip(1)) + offset,
    {
        let n = value.unicode_len();
        if n == 0 {
            return Err(ParseAddressError(String::from_str("Empty value")));
        }
        let kind = match value.get_char(0) {
            '0' => AddressKind::Coil,
            '1' => AddressKind::DiscreteInput,
            '3' => AddressKind::InputRegister,
            '4' => AddressKind::HoldingRegister,
            _ => {
                return Err(
                    ParseAddressError(String::from_str("Address must start with 0, 1, 3 or 4.")),
                );
            },
        };
        if n < 2 {
            return Err(ParseAddressError(String::from_str("Address must be at least 2 digits long")));
        }
        if n > 6 {
            return Err(ParseAddressError(String::from_str("Address must be at most 6 digits")));
        }
        let ghost digits = value@.skip(1);
        let mut index: u32 = 0;
        let mut i: usize = 1;
        while i < n
            invariant
                1 <= i <= n,
                n == value@.len(),
                n <= 6,
                digits == value@.skip(1),
                all_digits(digits.subrange(0, i - 1)),
                index == digits_value(digits.subrange(0, i - 1)),
                index < 100000,
            decreases n - i,
        {
            let c = value.get_char(i);
            let d = c as u32;
            if d < 48 || d > 57 {
                proof {
                    assert(digits[i - 1] == value@[i as int]);
                    assert(!is_digit(digits[i - 1]));
                }
                return Err(ParseAddressError(String::from_str("Address out of range")));
            }
            proof {
                let prefix = digits.subrange(0, i - 1);
                let next = digits.subrange(0, i as int);
                assert(next.drop_last() =~= prefix);
                assert(next.last() == value@[i as int]);
                assert(all_digits(next));
                lemma_digits_value_bound(next);
                assert(ten_to(next.len()) <= ten_to(5)) by {
                    lemma_ten_to_le(next.len(), 5);
                }
                assert(ten_to(0) == 1);
                assert(ten_to(1) == 10);
                assert(ten_to(2) == 100);
                assert(ten_to(3) == 1000);
                assert(ten_to(4) == 10000);
                assert(ten_to(5) == 100000);
            }
            index = index * 10 + (d - 48);
            i = i + 1;
        }
        proof {
            assert(digits.subrange(0, n - 1) =~= digits);
        }
        let sum: i64 = index as i64 + offset as i64;
        if sum < 0 || sum > 0xFFFF {
            return Err(ParseAddressError(String::from_str("Address out of range")));
        }
        Ok(Address { kind, index: sum as u16 })
    }
}

proof fn lemma_ten_to_le(a: nat, b: nat)
    requires
        a <= b,
    ensures
        ten_to(a) <= ten_to(b),
    decreases b,
{
    if a < b {
        lemma_ten_to_le(a, (b - 1) as nat);
        lemma_ten_to_pos(a);
    }
}

proof fn lemma_ten_to_pos(n: nat)
    ensures
        ten_to(n) >= 1,
    decreases n,
{
    if n > 0 {
        lemma_ten_to_pos((n - 1) as nat);
    }
}

} // verus!
