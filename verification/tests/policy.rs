use hexmeow_motor_iap::{
    CanopenIdentity, Duration, IapPolicy, ImgArtifact, ImgLimits, PolicyError, PreparedUpgrade,
    RegisteredTarget, SupportPolicy, TargetClassification, TargetRegistry, IMG_TAG_SIZE,
};
use sha2::{Digest, Sha256};

/// A well-formed image file.
fn make_image(
    device_id: u32,
    firmware_id: u32,
    start: u32,
    bin_len: usize,
    encrypted: bool,
) -> Vec<u8> {
    let mut bytes = vec![0u8; IMG_TAG_SIZE + bin_len];
    bytes[0..4].copy_from_slice(&device_id.to_le_bytes());
    bytes[4..8].copy_from_slice(&firmware_id.to_le_bytes());
    bytes[8..12].copy_from_slice(&8u32.to_le_bytes());
    bytes[12..16].copy_from_slice(&(encrypted as u32).to_le_bytes());
    if encrypted {
        bytes[48..112].fill(0x5A);
        bytes[112..128].fill(0xA5);
    }
    bytes[128..132].copy_from_slice(&start.to_le_bytes());
    let end = start + bin_len as u32 - 1;
    bytes[132..136].copy_from_slice(&end.to_le_bytes());
    bytes[136..140].copy_from_slice(&(bin_len as u32).to_le_bytes());
    for (index, byte) in bytes[IMG_TAG_SIZE..].iter_mut().enumerate() {
        *byte = index.wrapping_mul(17) as u8;
    }
    rehash(&mut bytes);
    bytes
}

/// Write the hash that the file's content calls for.
fn rehash(bytes: &mut [u8]) {
    let mut hasher = Sha256::new();
    hasher.update(&bytes[0..16]);
    hasher.update(&bytes[112..128]);
    hasher.update(&bytes[128..IMG_TAG_SIZE]);
    hasher.update(&bytes[IMG_TAG_SIZE..]);
    let hash = hasher.finalize();
    bytes[16..48].copy_from_slice(&hash);
}

fn identity(product: u32) -> CanopenIdentity {
    CanopenIdentity::new(1, 0x4859_444C, product, 7, 123).unwrap()
}

fn policy() -> IapPolicy {
    IapPolicy::new(0xAAAA_0001, vec![0x2025_1025], 0x1000_C000, true).unwrap()
}

fn enabled() -> RegisteredTarget {
    RegisteredTarget::enabled(
        "compatible-motor-4310-v1",
        0x4859_444C,
        0xAAAA_0001,
        IapPolicy::new(0xAAAA_0001, vec![0x2025_1025], 0x1000_C000, true).unwrap(),
    )
    .unwrap()
}

fn image(device_id: u32, firmware_id: u32, start: u32, encrypted: bool) -> ImgArtifact {
    let bytes = make_image(device_id, firmware_id, start, 1024, encrypted);
    ImgArtifact::parse(&bytes, ImgLimits::default()).unwrap()
}

fn prepared(registry: &TargetRegistry) -> PreparedUpgrade {
    let target = registry.authorize(identity(0xAAAA_0001)).unwrap();
    PreparedUpgrade::bind(target, image(0xAAAA_0001, 0x2025_1025, 0x1000_C000, true)).unwrap()
}

#[test]
fn registry_is_exact_and_deny_by_default() {
    let registry = TargetRegistry::new(vec![enabled()]).unwrap();
    assert!(registry.authorize(identity(0xAAAA_0001)).is_ok());
    assert_eq!(
        registry.authorize(identity(0xAAAA_0002)).unwrap_err(),
        PolicyError::UnknownTarget
    );
}

#[test]
fn disabled_target_cannot_authorize() {
    let disabled = RegisteredTarget::disabled(
        "compatible-motor-4342-v1",
        0x4859_444C,
        0xAAAA_0002,
        "IAP identity and memory policy are not qualified",
    )
    .unwrap();
    let registry = TargetRegistry::new(vec![disabled]).unwrap();
    assert!(matches!(
        registry.authorize(identity(0xAAAA_0002)),
        Err(PolicyError::DisabledTarget { .. })
    ));
    assert_eq!(
        registry.authorize(identity(0xAAAA_0002)).unwrap_err(),
        PolicyError::DisabledTarget {
            profile_id: "compatible-motor-4342-v1".to_string(),
            reason: "IAP identity and memory policy are not qualified".to_string(),
        }
    );
}

#[test]
fn binding_checks_device_firmware_address_and_encryption() {
    let registry = TargetRegistry::new(vec![enabled()]).unwrap();
    let target = registry.authorize(identity(0xAAAA_0001)).unwrap();
    let bytes = make_image(0xAAAA_0001, 0x2025_1025, 0x1000_C000, 1024, true);
    let artifact = ImgArtifact::parse(&bytes, ImgLimits::default()).unwrap();
    assert!(PreparedUpgrade::bind(target, artifact).is_ok());
}

#[test]
fn binding_does_not_guess_a_device_specific_bin_capacity() {
    let registry = TargetRegistry::new(vec![enabled()]).unwrap();
    let target = registry.authorize(identity(0xAAAA_0001)).unwrap();
    let bytes = make_image(0xAAAA_0001, 0x2025_1025, 0x1000_C000, 176_441, true);
    let artifact = ImgArtifact::parse(&bytes, ImgLimits::default()).unwrap();
    assert!(PreparedUpgrade::bind(target, artifact).is_ok());
}

#[test]
fn changed_serial_cannot_revalidate() {
    let registry = TargetRegistry::new(vec![enabled()]).unwrap();
    let target = registry.authorize(identity(0xAAAA_0001)).unwrap();
    let bytes = make_image(0xAAAA_0001, 0x2025_1025, 0x1000_C000, 1024, true);
    let artifact = ImgArtifact::parse(&bytes, ImgLimits::default()).unwrap();
    let prepared = PreparedUpgrade::bind(target, artifact).unwrap();
    let changed = CanopenIdentity::new(1, 0x4859_444C, 0xAAAA_0001, 7, 124).unwrap();
    assert_eq!(
        prepared.revalidate(changed, &registry).unwrap_err(),
        PolicyError::IdentityChanged
    );
}

#[test]
fn an_artifact_breaks_a_policy_in_one_of_four_ways() {
    let policy = policy();
    assert_eq!(
        policy.validate_artifact(&image(1, 0x2025_1025, 0x1000_C000, true)),
        Err(PolicyError::DeviceMismatch {
            expected: 0xAAAA_0001,
            actual: 1
        })
    );
    assert_eq!(
        policy.validate_artifact(&image(0xAAAA_0001, 5, 0x1000_C000, true)),
        Err(PolicyError::FirmwareMismatch(5))
    );
    assert_eq!(
        policy.validate_artifact(&image(0xAAAA_0001, 0x2025_1025, 0x2000, true)),
        Err(PolicyError::StartAddressMismatch {
            expected: 0x1000_C000,
            actual: 0x2000
        })
    );
    assert_eq!(
        policy.validate_artifact(&image(0xAAAA_0001, 0x2025_1025, 0x1000_C000, false)),
        Err(PolicyError::EncryptionRequired)
    );
    let lenient = IapPolicy::new(0xAAAA_0001, vec![3, 0x2025_1025], 0x1000_C000, false).unwrap();
    assert_eq!(
        lenient.validate_artifact(&image(0xAAAA_0001, 0x2025_1025, 0x1000_C000, false)),
        Ok(())
    );
}

#[test]
fn binding_reports_what_the_policy_finds() {
    let registry = TargetRegistry::new(vec![enabled()]).unwrap();
    let target = registry.authorize(identity(0xAAAA_0001)).unwrap();
    assert_eq!(
        PreparedUpgrade::bind(target, image(0xAAAA_0001, 5, 0x1000_C000, true)).unwrap_err(),
        PolicyError::FirmwareMismatch(5)
    );
}

#[test]
fn a_policy_names_each_firmware_once() {
    assert_eq!(
        IapPolicy::new(1, vec![], 0, true).unwrap_err(),
        PolicyError::EmptyFirmwareIds("<unbound>".to_string())
    );
    assert_eq!(
        IapPolicy::new(1, vec![4, 5, 4], 0, true).unwrap_err(),
        PolicyError::DuplicateFirmwareId("<unbound>".to_string())
    );
    let policy = IapPolicy::new(1, vec![4, 5], 6, false).unwrap();
    assert_eq!(policy.device_id(), 1);
    assert_eq!(policy.firmware_ids(), [4, 5]);
    assert_eq!(policy.start_address(), 6);
    assert!(!policy.require_encrypted());
    assert_eq!(policy.clone(), policy);
}

#[test]
fn a_profile_needs_a_name() {
    for blank in ["", " ", "\t\n", "\u{3000}\u{a0}"] {
        assert_eq!(
            RegisteredTarget::disabled(blank, 1, 2, "off").unwrap_err(),
            PolicyError::EmptyProfileId
        );
    }
    assert!(RegisteredTarget::disabled(" a ", 1, 2, "off").is_ok());
    assert!(RegisteredTarget::disabled("\u{200b}", 1, 2, "off").is_ok());
}

#[test]
fn every_character_is_blank_exactly_where_trimming_says_so() {
    for code in 0..=0x10FFFFu32 {
        if let Some(character) = char::from_u32(code) {
            let name = character.to_string();
            assert_eq!(
                RegisteredTarget::disabled(&name, 1, 2, "off").is_err(),
                name.trim().is_empty()
            );
        }
    }
}

#[test]
fn reserved_values_are_refused() {
    for value in [0, u32::MAX] {
        assert_eq!(
            RegisteredTarget::enabled("a", value, value, policy()).unwrap_err(),
            PolicyError::InvalidProfileIdentity {
                profile_id: "a".to_string(),
                field: "vendor_id",
                value
            }
        );
        assert_eq!(
            RegisteredTarget::enabled("a", 1, value, policy()).unwrap_err(),
            PolicyError::InvalidProfileIdentity {
                profile_id: "a".to_string(),
                field: "product_code",
                value
            }
        );
        let device = IapPolicy::new(value, vec![1], 0, true).unwrap();
        assert_eq!(
            RegisteredTarget::enabled("a", 1, 2, device).unwrap_err(),
            PolicyError::InvalidProfileIdentity {
                profile_id: "a".to_string(),
                field: "device_id",
                value
            }
        );
        let firmware = IapPolicy::new(1, vec![7, value, value ^ u32::MAX], 0, true).unwrap();
        assert_eq!(
            RegisteredTarget::enabled("a", 1, 2, firmware).unwrap_err(),
            PolicyError::InvalidProfileIdentity {
                profile_id: "a".to_string(),
                field: "firmware_id",
                value
            }
        );
    }
}

#[test]
fn targets_give_back_what_they_were_made_of() {
    let target = enabled();
    assert_eq!(target.profile_id(), "compatible-motor-4310-v1");
    assert_eq!(target.vendor_id(), 0x4859_444C);
    assert_eq!(target.product_code(), 0xAAAA_0001);
    assert_eq!(target.support(), &SupportPolicy::Enabled(policy()));
    assert_eq!(target.clone(), target);
    let disabled = RegisteredTarget::disabled("b", 1, 2, "why").unwrap();
    assert_eq!(
        disabled.support(),
        &SupportPolicy::Disabled {
            reason: "why".to_string()
        }
    );
}

#[test]
fn a_registry_repeats_neither_names_nor_products() {
    let other = RegisteredTarget::disabled("other", 0x4859_444C, 0xAAAA_0001, "off").unwrap();
    assert_eq!(
        TargetRegistry::new(vec![enabled(), other]).unwrap_err(),
        PolicyError::DuplicateCanopenIdentity {
            first: "compatible-motor-4310-v1".to_string(),
            second: "other".to_string(),
        }
    );
    let same_name =
        RegisteredTarget::disabled("compatible-motor-4310-v1", 1, 2, "off").unwrap();
    assert_eq!(
        TargetRegistry::new(vec![enabled(), same_name]).unwrap_err(),
        PolicyError::DuplicateProfileId("compatible-motor-4310-v1".to_string())
    );
    assert_eq!(
        TargetRegistry::new(vec![enabled(), enabled()]).unwrap_err(),
        PolicyError::DuplicateProfileId("compatible-motor-4310-v1".to_string())
    );
    let registry = TargetRegistry::new(vec![
        enabled(),
        RegisteredTarget::disabled("other", 0x4859_444C, 0xAAAA_0002, "off").unwrap(),
    ])
    .unwrap();
    assert_eq!(registry.targets().len(), 2);
    assert_eq!(registry.targets()[0], enabled());
    assert_eq!(registry.clone().targets().len(), 2);
}

#[test]
fn the_covering_entry_decides_the_class() {
    let registry = TargetRegistry::new(vec![
        RegisteredTarget::disabled("off", 0x4859_444C, 0xAAAA_0002, "off").unwrap(),
        enabled(),
    ])
    .unwrap();
    match registry.classify(identity(0xAAAA_0001)) {
        TargetClassification::Enabled(target) => assert_eq!(target, enabled()),
        other => panic!("unexpected {:?}", other),
    }
    match registry.classify(identity(0xAAAA_0002)) {
        TargetClassification::Disabled(target) => assert_eq!(target.profile_id(), "off"),
        other => panic!("unexpected {:?}", other),
    }
    assert!(matches!(
        registry.classify(identity(3)),
        TargetClassification::Unknown
    ));
    let authorized = registry.authorize(identity(0xAAAA_0001)).unwrap();
    assert_eq!(authorized.target(), &enabled());
    assert_eq!(authorized.identity(), identity(0xAAAA_0001));
}

#[test]
fn an_empty_registry_denies_everything() {
    let registry = TargetRegistry::new(vec![]).unwrap();
    assert_eq!(
        registry.authorize(identity(0xAAAA_0001)).unwrap_err(),
        PolicyError::UnknownTarget
    );
}

#[test]
fn revalidation_rereads_the_registry() {
    let registry = TargetRegistry::new(vec![enabled()]).unwrap();
    let prepared = prepared(&registry);
    assert_eq!(prepared.artifact().bin_size(), 1024);
    assert_eq!(prepared.target().identity(), identity(0xAAAA_0001));
    assert!(prepared
        .revalidate(identity(0xAAAA_0001), &registry)
        .is_ok());

    let empty = TargetRegistry::new(vec![]).unwrap();
    assert_eq!(
        prepared
            .revalidate(identity(0xAAAA_0001), &empty)
            .unwrap_err(),
        PolicyError::UnknownTarget
    );
    let looser = RegisteredTarget::enabled(
        "compatible-motor-4310-v1",
        0x4859_444C,
        0xAAAA_0001,
        IapPolicy::new(0xAAAA_0001, vec![0x2025_1025], 0x1000_C000, false).unwrap(),
    )
    .unwrap();
    let changed = TargetRegistry::new(vec![looser]).unwrap();
    assert_eq!(
        prepared
            .revalidate(identity(0xAAAA_0001), &changed)
            .unwrap_err(),
        PolicyError::ProfileChanged
    );
}

#[test]
fn a_capability_is_good_for_two_seconds() {
    let registry = TargetRegistry::new(vec![enabled()]).unwrap();
    let issue = || {
        prepared(&registry)
            .revalidate(identity(0xAAAA_0001), &registry)
            .unwrap()
    };
    let ready = issue();
    assert_eq!(ready.node_id(), 1);
    let first = ready.age();
    while ready.age() == first {}
    assert!(ready.age().nanos > first.nanos);
    assert_eq!(ready.into_prepared().unwrap().artifact().bin_size(), 1024);

    assert!(issue().redeemed_at(Duration::from_secs(2)).is_ok());
    assert_eq!(
        issue()
            .redeemed_at(Duration::from_nanos(2_000_000_001))
            .unwrap_err(),
        PolicyError::ReadyExpired
    );
}
