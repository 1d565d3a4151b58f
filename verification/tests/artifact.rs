use hexmeow_motor_iap::artifact::{check_file_size, check_image};
use hexmeow_motor_iap::{ArtifactError, EncryptionMode, ImgArtifact, ImgLimits, IMG_TAG_SIZE};
use sha2::{Digest, Sha256};

/// A well-formed image file.
fn make_image(
    device_id: u32,
    firmware_id: u32,
    start: u32,
    bin_len: usize,
    encrypted: bool,
) -> Vec<u8> {
    let mut bytes = vec![0u8; IMG_TAG_SIZE + bin_len];
    bytes[0..4].copy_from_slice(&device_id.to_le_bytes());
    bytes[4..8].copy_from_slice(&firmware_id.to_le_bytes());
    bytes[8..12].copy_from_slice(&8u32.to_le_bytes());
    bytes[12..16].copy_from_slice(&(encrypted as u32).to_le_bytes());
    if encrypted {
        bytes[48..112].fill(0x5A);
        bytes[112..128].fill(0xA5);
    }
    bytes[128..132].copy_from_slice(&start.to_le_bytes());
    let end = start + bin_len as u32 - 1;
    bytes[132..136].copy_from_slice(&end.to_le_bytes());
    bytes[136..140].copy_from_slice(&(bin_len as u32).to_le_bytes());
    for (index, byte) in bytes[IMG_TAG_SIZE..].iter_mut().enumerate() {
        *byte = index.wrapping_mul(17) as u8;
    }
    rehash(&mut bytes);
    bytes
}

/// Write the hash that the file's content calls for.
fn rehash(bytes: &mut [u8]) {
    let mut hasher = Sha256::new();
    hasher.update(&bytes[0..16]);
    hasher.update(&bytes[112..128]);
    hasher.update(&bytes[128..IMG_TAG_SIZE]);
    hasher.update(&bytes[IMG_TAG_SIZE..]);
    let hash = hasher.finalize();
    bytes[16..48].copy_from_slice(&hash);
}

fn error_of(bytes: &[u8]) -> ArtifactError {
    ImgArtifact::parse(bytes, ImgLimits::default()).unwrap_err()
}

#[test]
fn parses_strict_encrypted_image() {
    let bytes = make_image(0xAAAA_0001, 0x2025_1025, 0x1000_C000, 260, true);
    let image = ImgArtifact::parse(&bytes, ImgLimits::default()).unwrap();
    assert_eq!(image.device_id(), 0xAAAA_0001);
    assert_eq!(image.firmware_id(), 0x2025_1025);
    assert_eq!(image.end_address(), 0x1000_C103);
    assert_eq!(image.encryption(), EncryptionMode::Encrypted);
}

#[test]
fn rejects_hash_change() {
    let mut bytes = make_image(1, 2, 0x1000, 16, true);
    *bytes.last_mut().unwrap() ^= 1;
    assert_eq!(
        ImgArtifact::parse(&bytes, ImgLimits::default()).unwrap_err(),
        ArtifactError::HashMismatch
    );
}

#[test]
fn rejects_inconsistent_inclusive_end() {
    let mut bytes = make_image(1, 2, 0x1000, 16, true);
    bytes[132..136].copy_from_slice(&0x1010u32.to_le_bytes());
    assert!(matches!(
        ImgArtifact::parse(&bytes, ImgLimits::default()),
        Err(ArtifactError::AddressSizeMismatch { .. })
    ));
    assert_eq!(
        error_of(&bytes),
        ArtifactError::AddressSizeMismatch {
            expected: 0x100F,
            actual: 0x1010
        }
    );
}

#[test]
fn rejects_unknown_encryption_flag() {
    let mut bytes = make_image(1, 2, 0x1000, 16, true);
    bytes[12..16].copy_from_slice(&2u32.to_le_bytes());
    assert_eq!(
        ImgArtifact::parse(&bytes, ImgLimits::default()).unwrap_err(),
        ArtifactError::InvalidEncryptionFlag(2)
    );
}

#[test]
fn every_field_is_read_from_its_place() {
    let bytes = make_image(1, 2, 0x1000, 16, true);
    let image = ImgArtifact::parse(&bytes, ImgLimits::default()).unwrap();
    assert_eq!(image.raw(), &bytes[..]);
    assert_eq!(image.tag(), &bytes[..140]);
    assert_eq!(image.bin(), &bytes[140..]);
    assert_eq!(image.firmware_version(), 8);
    assert_eq!(image.hash()[..], bytes[16..48]);
    assert_eq!(image.signature(), &[0x5A; 64]);
    assert_eq!(image.iv(), &[0xA5; 16]);
    assert_eq!(image.start_address(), 0x1000);
    assert_eq!(image.end_address(), 0x100F);
    assert_eq!(image.bin_size(), 16);
    let copy = image.clone();
    assert_eq!(copy.raw(), image.raw());
    assert_eq!(copy.start_address(), image.start_address());
}

#[test]
fn default_limits_are_two_and_one_mebibytes() {
    let limits = ImgLimits::default();
    assert_eq!(limits.max_file_bytes, 2_097_152);
    assert_eq!(limits.max_bin_bytes, 1_048_576);
}

#[test]
fn sizes_are_checked_first() {
    assert_eq!(
        error_of(&[0; 143]),
        ArtifactError::TooSmall {
            actual: 143,
            minimum: 144
        }
    );
    let bytes = make_image(1, 2, 0x1000, 16, true);
    let tight = ImgLimits {
        max_file_bytes: 155,
        max_bin_bytes: 1024,
    };
    assert_eq!(
        ImgArtifact::parse(&bytes, tight).unwrap_err(),
        ArtifactError::FileTooLarge {
            actual: 156,
            maximum: 155
        }
    );
    let small = ImgLimits {
        max_file_bytes: 156,
        max_bin_bytes: 15,
    };
    assert_eq!(
        ImgArtifact::parse(&bytes, small).unwrap_err(),
        ArtifactError::BinTooLarge {
            actual: 16,
            maximum: 15
        }
    );
    let exact = ImgLimits {
        max_file_bytes: 156,
        max_bin_bytes: 16,
    };
    assert!(ImgArtifact::parse(&bytes, exact).is_ok());
}

#[test]
fn the_declared_size_is_the_actual_size() {
    let mut bytes = make_image(1, 2, 0x1000, 16, true);
    bytes[136..140].copy_from_slice(&15u32.to_le_bytes());
    assert_eq!(
        error_of(&bytes),
        ArtifactError::SizeMismatch {
            declared: 15,
            actual: 16
        }
    );
    bytes[136..140].copy_from_slice(&3u32.to_le_bytes());
    assert_eq!(error_of(&bytes), ArtifactError::BinTooSmall(3));
}

#[test]
fn metadata_agrees_with_the_encryption_mode() {
    let mut plain = make_image(1, 2, 0x1000, 16, false);
    assert_eq!(
        ImgArtifact::parse(&plain, ImgLimits::default())
            .unwrap()
            .encryption(),
        EncryptionMode::Plaintext
    );
    plain[111] = 1;
    assert_eq!(error_of(&plain), ArtifactError::PlaintextMetadataMismatch);
    plain[111] = 0;
    plain[112] = 1;
    assert_eq!(error_of(&plain), ArtifactError::PlaintextMetadataMismatch);

    let mut encrypted = make_image(1, 2, 0x1000, 16, true);
    encrypted[48..112].fill(0);
    assert_eq!(error_of(&encrypted), ArtifactError::EncryptedMetadataMissing);
    encrypted[48..112].fill(1);
    encrypted[112..128].fill(0);
    assert_eq!(error_of(&encrypted), ArtifactError::EncryptedMetadataMissing);
}

#[test]
fn the_last_address_stays_in_range() {
    let mut bytes = make_image(1, 2, 0x1000, 16, true);
    bytes[128..132].copy_from_slice(&0xFFFF_FFF1u32.to_le_bytes());
    assert_eq!(error_of(&bytes), ArtifactError::AddressOverflow);

    bytes[128..132].copy_from_slice(&0xFFFF_FFF0u32.to_le_bytes());
    bytes[132..136].copy_from_slice(&0xFFFF_FFFFu32.to_le_bytes());
    rehash(&mut bytes);
    assert_eq!(
        ImgArtifact::parse(&bytes, ImgLimits::default())
            .unwrap()
            .end_address(),
        u32::MAX
    );
}

#[test]
fn the_signature_is_not_covered_by_the_hash() {
    let mut bytes = make_image(1, 2, 0x1000, 16, true);
    bytes[48] ^= 1;
    assert!(ImgArtifact::parse(&bytes, ImgLimits::default()).is_ok());
    bytes[112] ^= 1;
    assert_eq!(error_of(&bytes), ArtifactError::HashMismatch);
}

#[test]
fn the_hash_is_compared_with_the_digest() {
    let mut bytes = make_image(1, 2, 0x1000, 16, true);
    let limits = ImgLimits::default();
    bytes[16..48].fill(7);
    assert_eq!(check_image(&bytes, limits, &[7; 32]), Ok(()));
    assert_eq!(
        check_image(&bytes, limits, &[8; 32]),
        Err(ArtifactError::HashMismatch)
    );
    bytes[12] = 3;
    assert_eq!(
        check_image(&bytes, limits, &[7; 32]),
        Err(ArtifactError::InvalidEncryptionFlag(3))
    );
    assert_eq!(check_file_size(144, limits), Ok(()));
    assert_eq!(
        check_file_size(2_097_153, limits),
        Err(ArtifactError::FileTooLarge {
            actual: 2_097_153,
            maximum: 2_097_152
        })
    );
}

#[test]
fn a_description_names_what_an_image_is_for() {
    let bytes = make_image(0xAAAA_0001, 0x2025_1025, 0x1000_C000, 260, true);
    let image = ImgArtifact::parse(&bytes, ImgLimits::default()).unwrap();
    assert_eq!(
        format!("{:?}", image),
        "ImgArtifact { device_id: 0xaaaa0001, firmware_id: 0x20251025, \
         firmware_version: 0x00000008, encryption: Encrypted, start_address: 0x1000c000, \
         end_address: 0x1000c103, bin_size: 260, .. }"
    );
    let plain = make_image(1, 2, 0x1000, 16, false);
    assert_eq!(
        format!("{:#?}", ImgArtifact::parse(&plain, ImgLimits::default()).unwrap()),
        "ImgArtifact {\n    device_id: 0x00000001,\n    firmware_id: 0x00000002,\n    \
         firmware_version: 0x00000008,\n    encryption: Plaintext,\n    \
         start_address: 0x00001000,\n    end_address: 0x0000100f,\n    bin_size: 16,\n    ..\n}"
    );
}
