use modbus::address::{Address, AddressKind};

#[test]
fn test_parse_address() {
    assert!(Address::parse("", 0).is_err());
    assert!(Address::parse("1", 0).is_err());
    assert_eq!(
        Address::parse("12", 0),
        Ok(Address {
            kind: AddressKind::DiscreteInput,
            index: 2
        })
    );
    assert_eq!(
        Address::parse("123456", 0),
        Ok(Address {
            kind: AddressKind::DiscreteInput,
            index: 23456
        })
    );
    assert!(Address::parse("1234567", 0).is_err());
    assert!(Address::parse("22", 0).is_err());
    assert_eq!(
        Address::parse("11", -1),
        Ok(Address {
            kind: AddressKind::DiscreteInput,
            index: 0
        })
    );
    assert_eq!(
        Address::parse("110", 800),
        Ok(Address {
            kind: AddressKind::DiscreteInput,
            index: 810
        })
    );
    assert!(Address::parse("110", 80000).is_err());
    assert!(Address::parse("110", -11).is_err());
}

#[test]
fn parse_address_kinds() {
    assert_eq!(
        Address::parse("00001", 0),
        Ok(Address { kind: AddressKind::Coil, index: 1 })
    );
    assert_eq!(
        Address::parse("30007", 0),
        Ok(Address { kind: AddressKind::InputRegister, index: 7 })
    );
    assert_eq!(
        Address::parse("465535", 0),
        Ok(Address { kind: AddressKind::HoldingRegister, index: 65535 })
    );
    assert!(Address::parse("465536", 0).is_err());
    assert!(Address::parse("4xy", 0).is_err());
}
