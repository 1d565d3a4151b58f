use hexmeow_motor_iap::{CanopenIdentity, IapIdentity, IdentityError};

#[test]
fn parses_captured_enter_identity_layout() {
    let bytes = hex::decode("0100aaaa2510252008000000").unwrap();
    let identity = IapIdentity::parse(&bytes).unwrap();
    assert_eq!(identity.device_id(), 0xAAAA_0001);
    assert_eq!(identity.firmware_id(), 0x2025_1025);
    assert_eq!(identity.current_version(), 8);
}

#[test]
fn rejects_all_ff_recovery_identity() {
    assert_eq!(
        IapIdentity::parse(&[0xFF; 12]).unwrap_err(),
        IdentityError::IapIdentityUnavailable
    );
}

#[test]
fn rejects_canopen_sentinel() {
    assert_eq!(
        CanopenIdentity::new(1, 1, u32::MAX, 1, 1).unwrap_err(),
        IdentityError::Sentinel("product_code")
    );
}

#[test]
fn an_identity_is_exactly_twelve_bytes() {
    assert_eq!(
        IapIdentity::parse(&[0; 11]).unwrap_err(),
        IdentityError::InvalidIapLength { actual: 11 }
    );
    assert_eq!(
        IapIdentity::parse(&[0xFF; 13]).unwrap_err(),
        IdentityError::InvalidIapLength { actual: 13 }
    );
    let mut nearly = [0xFF; 12];
    nearly[11] = 0xFE;
    assert_eq!(
        IapIdentity::parse(&nearly).unwrap().current_version(),
        0xFEFF_FFFF
    );
}

#[test]
fn canopen_identities_are_complete() {
    let identity = CanopenIdentity::new(127, 1, 2, 3, 4).unwrap();
    assert_eq!(identity.node_id(), 127);
    assert_eq!(identity.vendor_id(), 1);
    assert_eq!(identity.product_code(), 2);
    assert_eq!(identity.revision_number(), 3);
    assert_eq!(identity.serial_number(), 4);
    assert!(identity.same_as(identity));
    assert!(!identity.same_as(CanopenIdentity::new(127, 1, 2, 3, 5).unwrap()));

    for node in [0, 128, 255] {
        assert_eq!(
            CanopenIdentity::new(node, 1, 2, 3, 4).unwrap_err(),
            IdentityError::InvalidNode(node)
        );
    }
    assert_eq!(
        CanopenIdentity::new(1, u32::MAX, 2, 3, 4).unwrap_err(),
        IdentityError::Sentinel("vendor_id")
    );
    assert_eq!(
        CanopenIdentity::new(1, 1, 2, u32::MAX, 4).unwrap_err(),
        IdentityError::Sentinel("revision_number")
    );
    assert_eq!(
        CanopenIdentity::new(1, 1, 2, 3, u32::MAX).unwrap_err(),
        IdentityError::Sentinel("serial_number")
    );
}

#[test]
fn identity_errors_describe_themselves() {
    assert_eq!(
        IdentityError::InvalidNode(200).message(),
        "node ID 200 is outside 1..=127"
    );
    assert_eq!(
        IdentityError::Sentinel("vendor_id").message(),
        "CANopen identity field vendor_id is an unprovisioned sentinel"
    );
    assert_eq!(
        IdentityError::InvalidIapLength { actual: 0 }.message(),
        "Enter-IAP identity is 0 bytes, expected exactly 12"
    );
    assert_eq!(
        IdentityError::IapIdentityUnavailable.message(),
        "Enter-IAP identity is unavailable (all fields are 0xFFFFFFFF)"
    );
}
