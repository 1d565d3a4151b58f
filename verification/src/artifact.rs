//! Firmware images: a 140-byte tag, then the binary it describes.

use std::fmt::{DebugStruct, Formatter};

use vstd::prelude::*;

use crate::bytes;

verus! {

/// Bytes of an image before its binary.
pub const IMG_TAG_SIZE: usize = 140;

/// Fewest bytes a binary has.
pub const MIN_BIN_SIZE: usize = 4;

#[derive(Debug, Clone, Copy, PartialEq, Eq, Structural)]
pub enum EncryptionMode {
    Plaintext,
    Encrypted,
}

/// The largest file and the largest binary to accept.
#[derive(Debug, Clone, Copy, PartialEq, Eq, Structural)]
pub struct ImgLimits {
    pub max_file_bytes: usize,
    pub max_bin_bytes: usize,
}

impl Default for ImgLimits {
    fn default() -> (limits: ImgLimits)
        ensures
            limits.max_file_bytes == 2 * 1024 * 1024,
            limits.max_bin_bytes == 1024 * 1024,
    {
        ImgLimits { max_file_bytes: 2 * 1024 * 1024, max_bin_bytes: 1024 * 1024 }
    }
}

#[allow(inconsistent_fields)]
#[derive(Debug, PartialEq, Eq)]
pub enum ArtifactError {
    /// The file is shorter than a tag and the shortest binary.
    TooSmall { actual: usize, minimum: usize },
    /// The file is above the limit.
    FileTooLarge { actual: usize, maximum: usize },
    /// The binary is above the limit.
    BinTooLarge { actual: usize, maximum: usize },
    /// The declared size does not fit the address space.
    SizeOverflow,
    /// The declared binary size is not what the file size implies.
    SizeMismatch { declared: usize, actual: usize },
    /// The encryption flag is not 0 or 1.
    InvalidEncryptionFlag(u32),
    /// Plaintext mode requires an all-zero signature and IV.
    PlaintextMetadataMismatch,
    /// Encrypted mode requires non-zero signature and IV fields.
    EncryptedMetadataMissing,
    /// The SHA-256 does not match the protected fields and the binary.
    HashMismatch,
    /// The binary is shorter than four bytes.
    BinTooSmall(usize),
    /// The end address is beyond the 32-bit range.
    AddressOverflow,
    /// The inclusive end address is not start + size - 1.
    AddressSizeMismatch { expected: u32, actual: u32 },
}

/// The content of an image file; its fields are at fixed offsets.
pub struct ImageView {
    pub raw: Seq<u8>,
}

impl ImageView {
    pub open spec fn device_id(self) -> u32 {
        bytes::le_u32(self.raw, 0)
    }

    pub open spec fn firmware_id(self) -> u32 {
        bytes::le_u32(self.raw, 4)
    }

    pub open spec fn firmware_version(self) -> u32 {
        bytes::le_u32(self.raw, 8)
    }

    pub open spec fn encryption_flag(self) -> u32 {
        bytes::le_u32(self.raw, 12)
    }

    pub open spec fn encryption(self) -> EncryptionMode {
        if self.encryption_flag() == 0 {
            EncryptionMode::Plaintext
        } else {
            EncryptionMode::Encrypted
        }
    }

    pub open spec fn hash(self) -> Seq<u8> {
        self.raw.subrange(16, 48)
    }

    pub open spec fn signature(self) -> Seq<u8> {
        self.raw.subrange(48, 112)
    }

    pub open spec fn iv(self) -> Seq<u8> {
        self.raw.subrange(112, 128)
    }

    pub open spec fn start_address(self) -> u32 {
        bytes::le_u32(self.raw, 128)
    }

    pub open spec fn end_address(self) -> u32 {
        bytes::le_u32(self.raw, 132)
    }

    pub open spec fn bin_size(self) -> u32 {
        bytes::le_u32(self.raw, 136)
    }

    pub open spec fn tag(self) -> Seq<u8> {
        self.raw.take(IMG_TAG_SIZE as int)
    }

    pub open spec fn bin(self) -> Seq<u8> {
        self.raw.skip(IMG_TAG_SIZE as int)
    }

    /// What the hash protects: everything but the hash and the signature.
    pub open spec fn protected(self) -> Seq<u8> {
        self.raw.take(16) + self.raw.skip(112)
    }

    /// The first rule that the image breaks, or `None` for one to accept, where
    /// `digest` is that of what the hash protects.
    pub open spec fn fault_with(self, limits: ImgLimits, digest: Seq<u8>) -> Option<ArtifactError> {
        let expected_end = self.start_address() + self.bin_size() - 1;
        if file_size_fault(self.raw.len() as usize, limits) is Some {
            file_size_fault(self.raw.len() as usize, limits)
        } else if self.encryption_flag() > 1 {
            Some(ArtifactError::InvalidEncryptionFlag(self.encryption_flag()))
        } else if self.bin_size() < MIN_BIN_SIZE {
            Some(ArtifactError::BinTooSmall(self.bin_size() as usize))
        } else if self.bin_size() > limits.max_bin_bytes {
            Some(
                ArtifactError::BinTooLarge {
                    actual: self.bin_size() as usize,
                    maximum: limits.max_bin_bytes,
                },
            )
        } else if IMG_TAG_SIZE + self.bin_size() > usize::MAX {
            Some(ArtifactError::SizeOverflow)
        } else if self.raw.len() != IMG_TAG_SIZE + self.bin_size() {
            Some(
                ArtifactError::SizeMismatch {
                    declared: self.bin_size() as usize,
                    actual: (self.raw.len() - IMG_TAG_SIZE) as usize,
                },
            )
        } else if self.encryption() is Plaintext && !(bytes::zeros(self.signature())
            && bytes::zeros(self.iv())) {
            Some(ArtifactError::PlaintextMetadataMismatch)
        } else if self.encryption() is Encrypted && (bytes::zeros(self.signature())
            || bytes::zeros(self.iv())) {
            Some(ArtifactError::EncryptedMetadataMissing)
        } else if expected_end > u32::MAX {
            Some(ArtifactError::AddressOverflow)
        } else if self.end_address() != expected_end {
            Some(
                ArtifactError::AddressSizeMismatch {
                    expected: expected_end as u32,
                    actual: self.end_address(),
                },
            )
        } else if self.hash() != digest {
            Some(ArtifactError::HashMismatch)
        } else {
            None
        }
    }

    /// The first rule that the image breaks, or `None` for one to accept.
    pub open spec fn fault(self, limits: ImgLimits) -> Option<ArtifactError> {
        self.fault_with(limits, sha256(self.protected()))
    }

    /// Breaks no rule but, perhaps, a limit.
    pub open spec fn sound(self) -> bool {
        self.fault(ImgLimits { max_file_bytes: usize::MAX, max_bin_bytes: usize::MAX }) is None
    }
}

/// The SHA-256 digest of `message`.
pub uninterp spec fn sha256(message: Seq<u8>) -> Seq<u8>;

/// `sha2::Sha256` over two pieces of one message: `update` for each, in order,
/// then `finalize`. The digest depends on the joined bytes alone, and `sha256`
/// names it.
#[verifier::external_body]
fn sha256_of(first: &[u8], second: &[u8]) -> (digest: [u8; 32])
    ensures
        digest@ == sha256(first@ + second@),
{
    let mut hasher = <sha2::Sha256 as sha2::Digest>::new();
    sha2::Digest::update(&mut hasher, first);
    sha2::Digest::update(&mut hasher, second);
    sha2::Digest::finalize(hasher).into()
}

/// What is wrong with the size of a file.
pub open spec fn file_size_fault(size: usize, limits: ImgLimits) -> Option<ArtifactError> {
    if size < IMG_TAG_SIZE + MIN_BIN_SIZE {
        Some(
            ArtifactError::TooSmall {
                actual: size,
                minimum: (IMG_TAG_SIZE + MIN_BIN_SIZE) as usize,
            },
        )
    } else if size > limits.max_file_bytes {
        Some(ArtifactError::FileTooLarge { actual: size, maximum: limits.max_file_bytes })
    } else {
        None
    }
}

/// Check the size of a file, before anything in it is looked at.
pub fn check_file_size(size: usize, limits: ImgLimits) -> (result: Result<(), ArtifactError>)
    ensures
        match result {
            Ok(_) => file_size_fault(size, limits) is None,
            Err(error) => file_size_fault(size, limits) == Some(error),
        },
{
    let minimum: usize = IMG_TAG_SIZE + MIN_BIN_SIZE;
    if size < minimum {
        return Err(ArtifactError::TooSmall { actual: size, minimum });
    }
    if size > limits.max_file_bytes {
        return Err(
            ArtifactError::FileTooLarge { actual: size, maximum: limits.max_file_bytes },
        );
    }
    Ok(())
}

/// Check an image file against every rule, where `digest` is that of what the
/// hash protects.
pub fn check_image(bytes: &[u8], limits: ImgLimits, digest: &[u8; 32]) -> (result: Result<
    (),
    ArtifactError,
>)
    ensures
        match result {
            Ok(_) => (ImageView { raw: bytes@ }).fault_with(limits, digest@) is None,
            Err(error) => (ImageView { raw: bytes@ }).fault_with(limits, digest@) == Some(error),
        },
{
    match check_file_size(bytes.len(), limits) {
        Ok(_) => {},
        Err(error) => {
            return Err(error);
        },
    }
    let flag = bytes::read_u32(bytes, 12);
    if flag > 1 {
        return Err(ArtifactError::InvalidEncryptionFlag(flag));
    }
    let hash: [u8; 32] = bytes::read_array(bytes, 16);
    let signature: [u8; 64] = bytes::read_array(bytes, 48);
    let iv: [u8; 16] = bytes::read_array(bytes, 112);
    let start_address = bytes::read_u32(bytes, 128);
    let end_address = bytes::read_u32(bytes, 132);
    let declared = bytes::read_u32(bytes, 136);
    let bin_size: usize = declared as usize;

    if bin_size < MIN_BIN_SIZE {
        return Err(ArtifactError::BinTooSmall(bin_size));
    }
    if bin_size > limits.max_bin_bytes {
        return Err(
            ArtifactError::BinTooLarge { actual: bin_size, maximum: limits.max_bin_bytes },
        );
    }
    let expected_size: usize = match IMG_TAG_SIZE.checked_add(bin_size) {
        Some(size) => size,
        None => {
            return Err(ArtifactError::SizeOverflow);
        },
    };
    if bytes.len() != expected_size {
        return Err(
            ArtifactError::SizeMismatch {
                declared: bin_size,
                actual: bytes.len() - IMG_TAG_SIZE,
            },
        );
    }
    let unsigned = bytes::all_zero(&signature);
    let unkeyed = bytes::all_zero(&iv);
    if flag == 0 && !(unsigned && unkeyed) {
        return Err(ArtifactError::PlaintextMetadataMismatch);
    }
    if flag == 1 && (unsigned || unkeyed) {
        return Err(ArtifactError::EncryptedMetadataMissing);
    }
    let expected_end: u32 = match start_address.checked_add(declared - 1) {
        Some(address) => address,
        None => {
            return Err(ArtifactError::AddressOverflow);
        },
    };
    if end_address != expected_end {
        return Err(
            ArtifactError::AddressSizeMismatch { expected: expected_end, actual: end_address },
        );
    }
    if !bytes::same_bytes(digest, &hash) {
        return Err(ArtifactError::HashMismatch);
    }
    Ok(())
}

/// An image that was checked: sizes, addresses, metadata and hash agree.
pub struct ImgArtifact {
    raw: Vec<u8>,
    device_id: u32,
    firmware_id: u32,
    firmware_version: u32,
    encryption: EncryptionMode,
    hash: [u8; 32],
    signature: [u8; 64],
    iv: [u8; 16],
    start_address: u32,
    end_address: u32,
    bin_size: usize,
}

/// `std::fmt::Formatter`, where a value is described.
#[verifier::external_type_specification]
#[verifier::external_body]
pub struct ExFormatter<'a>(Formatter<'a>);

/// `std::fmt::DebugStruct`, a description that is being written.
#[verifier::external_type_specification]
#[verifier::external_body]
pub struct ExDebugStruct<'a, 'b: 'a>(DebugStruct<'a, 'b>);

/// `std::fmt::Error`, which says that a description could not be written.
#[verifier::external_type_specification]
#[verifier::external_body]
pub struct ExFmtError(std::fmt::Error);

/// `std::fmt::Formatter::debug_struct`: nothing is said of the builder.
pub assume_specification<'a, 'b>[ Formatter::<'a>::debug_struct ](
    formatter: &'b mut Formatter<'a>,
    name: &str,
) -> DebugStruct<'b, 'a>
;

/// `std::fmt::DebugStruct::field`: nothing is said of the builder.
pub assume_specification<'a, 'b: 'a, 'c>[ DebugStruct::<'a, 'b>::field ](
    shown: &'c mut DebugStruct<'a, 'b>,
    name: &str,
    value: &dyn std::fmt::Debug,
) -> &'c mut DebugStruct<'a, 'b>
;

/// `std::fmt::DebugStruct::finish_non_exhaustive`: nothing is said of the result,
/// which the place that the text goes to decides.
pub assume_specification<'a, 'b: 'a>[ DebugStruct::<'a, 'b>::finish_non_exhaustive ](
    shown: &mut DebugStruct<'a, 'b>,
) -> std::fmt::Result
;

/// A value that is described in eight hexadecimal digits.
struct Hex(u32);

impl std::fmt::Debug for Hex {
    /// `write!`, with `0x` and eight digits: nothing is said of the result, which
    /// the place that the text goes to decides.
    #[verifier::external_body]
    fn fmt(&self, formatter: &mut Formatter<'_>) -> std::fmt::Result {
        write!(formatter, "{:#010x}", self.0)
    }
}

/// The description of a value with this name was begun.
spec fn begun(formatter: Formatter, name: &str, shown: DebugStruct) -> bool {
    exists|place: &mut Formatter|
        *place == formatter && #[trigger] call_ensures(
            Formatter::debug_struct,
            (place, name),
            shown,
        )
}

/// A field was added to a description.
spec fn added<V: std::fmt::Debug>(
    before: DebugStruct,
    name: &str,
    value: V,
    after: DebugStruct,
) -> bool {
    exists|shown: &mut DebugStruct, again: &mut DebugStruct|
        *shown == before && *again == after && #[trigger] call_ensures(
            DebugStruct::field,
            (shown, name, &value),
            again,
        )
}

/// A description was ended, with a note that it is not complete.
spec fn cut_short(before: DebugStruct, result: std::fmt::Result) -> bool {
    exists|shown: &mut DebugStruct|
        *shown == before && #[trigger] call_ensures(
            DebugStruct::finish_non_exhaustive,
            (shown,),
            result,
        )
}

impl ImgArtifact {
    /// The description names what the image is for, and leaves out its bytes.
    pub closed spec fn described(&self, formatter: Formatter, result: std::fmt::Result) -> bool {
        exists|steps: Seq<DebugStruct>|
            {
                &&& #[trigger] steps.len() == 8
                &&& begun(formatter, "ImgArtifact", steps[0])
                &&& added(steps[0], "device_id", Hex(self.device_id), steps[1])
                &&& added(steps[1], "firmware_id", Hex(self.firmware_id), steps[2])
                &&& added(steps[2], "firmware_version", Hex(self.firmware_version), steps[3])
                &&& added(steps[3], "encryption", self.encryption, steps[4])
                &&& added(steps[4], "start_address", Hex(self.start_address), steps[5])
                &&& added(steps[5], "end_address", Hex(self.end_address), steps[6])
                &&& added(steps[6], "bin_size", self.bin_size, steps[7])
                &&& cut_short(steps[7], result)
            }
    }
}

/// Add a field to a description.
fn add_field<'a, 'b, 'c, V: std::fmt::Debug>(
    shown: &'c mut DebugStruct<'a, 'b>,
    name: &str,
    value: V,
) -> (again: &'c mut DebugStruct<'a, 'b>)
    ensures
        added(*old(shown), name, value, *again),
{
    shown.field(name, &value)
}

impl std::fmt::Debug for ImgArtifact {
    fn fmt(&self, formatter: &mut Formatter<'_>) -> (result: std::fmt::Result)
        ensures
            self.described(*old(formatter), result),
    {
        let mut opened = formatter.debug_struct("ImgArtifact");
        let ghost step0 = opened;
        let shown = add_field(&mut opened, "device_id", Hex(self.device_id));
        let ghost step1 = *shown;
        let shown = add_field(shown, "firmware_id", Hex(self.firmware_id));
        let ghost step2 = *shown;
        let shown = add_field(shown, "firmware_version", Hex(self.firmware_version));
        let ghost step3 = *shown;
        let shown = add_field(shown, "encryption", self.encryption);
        let ghost step4 = *shown;
        let shown = add_field(shown, "start_address", Hex(self.start_address));
        let ghost step5 = *shown;
        let shown = add_field(shown, "end_address", Hex(self.end_address));
        let ghost step6 = *shown;
        let shown = add_field(shown, "bin_size", self.bin_size);
        let ghost step7 = *shown;
        let result = shown.finish_non_exhaustive();
        proof {
            let steps = seq![step0, step1, step2, step3, step4, step5, step6, step7];
            assert(steps.len() == 8);
        }
        result
    }
}

impl View for ImgArtifact {
    type V = ImageView;

    closed spec fn view(&self) -> ImageView {
        ImageView { raw: self.raw@ }
    }
}

impl Clone for ImgArtifact {
    fn clone(&self) -> (copy: ImgArtifact)
        ensures
            copy@ == self@,
    {
        proof {
            use_type_invariant(self);
        }
        let raw = self.raw.clone();
        assert(raw@ =~= self.raw@);
        ImgArtifact {
            raw,
            device_id: self.device_id,
            firmware_id: self.firmware_id,
            firmware_version: self.firmware_version,
            encryption: self.encryption,
            hash: self.hash,
            signature: self.signature,
            iv: self.iv,
            start_address: self.start_address,
            end_address: self.end_address,
            bin_size: self.bin_size,
        }
    }
}

impl ImgArtifact {
    /// The file breaks no rule, and every field is the one in the file.
    #[verifier::type_invariant]
    pub open spec fn well_formed(self) -> bool {
        self@.sound() && self.mirrors_file()
    }

    /// Every field is the one in the file.
    pub closed spec fn mirrors_file(self) -> bool {
        &&& self.device_id == self@.device_id()
        &&& self.firmware_id == self@.firmware_id()
        &&& self.firmware_version == self@.firmware_version()
        &&& self.encryption == self@.encryption()
        &&& self.hash@ == self@.hash()
        &&& self.signature@ == self@.signature()
        &&& self.iv@ == self@.iv()
        &&& self.start_address == self@.start_address()
        &&& self.end_address == self@.end_address()
        &&& self.bin_size == self@.bin_size()
    }

    /// Check an image file against every rule, and read it.
    pub fn parse(bytes: &[u8], limits: ImgLimits) -> (result: Result<ImgArtifact, ArtifactError>)
        ensures
            match result {
                Ok(artifact) => artifact@.raw == bytes@ && artifact@.fault(limits) is None,
                Err(error) => (ImageView { raw: bytes@ }).fault(limits) == Some(error),
            },
    {
        let ghost image = ImageView { raw: bytes@ };
        match check_file_size(bytes.len(), limits) {
            Ok(_) => {},
            Err(error) => {
                return Err(error);
            },
        }
        let head = vstd::slice::slice_subrange(bytes, 0, 16);
        let tail = vstd::slice::slice_subrange(bytes, 112, bytes.len());
        let digest = sha256_of(head, tail);
        assert(head@ + tail@ =~= image.protected());
        match check_image(bytes, limits, &digest) {
            Ok(_) => {},
            Err(error) => {
                return Err(error);
            },
        }
        let encryption = if bytes::read_u32(bytes, 12) == 0 {
            EncryptionMode::Plaintext
        } else {
            EncryptionMode::Encrypted
        };
        Ok(
            ImgArtifact {
                raw: vstd::slice::slice_to_vec(bytes),
                device_id: bytes::read_u32(bytes, 0),
                firmware_id: bytes::read_u32(bytes, 4),
                firmware_version: bytes::read_u32(bytes, 8),
                encryption,
                hash: bytes::read_array(bytes, 16),
                signature: bytes::read_array(bytes, 48),
                iv: bytes::read_array(bytes, 112),
                start_address: bytes::read_u32(bytes, 128),
                end_address: bytes::read_u32(bytes, 132),
                bin_size: bytes::read_u32(bytes, 136) as usize,
            },
        )
    }

    /// The whole file.
    pub fn raw(&self) -> (raw: &[u8])
        ensures
            raw@ == self@.raw,
            self@.sound(),
    {
        proof {
            use_type_invariant(self);
        }
        self.raw.as_slice()
    }

    /// The 140 bytes before the binary.
    pub fn tag(&self) -> (tag: &[u8])
        ensures
            tag@ == self@.tag(),
            tag@.len() == IMG_TAG_SIZE,
    {
        proof {
            use_type_invariant(self);
        }
        let tag = vstd::slice::slice_subrange(self.raw.as_slice(), 0, IMG_TAG_SIZE);
        assert(tag@ =~= self@.tag());
        tag
    }

    /// The binary.
    pub fn bin(&self) -> (bin: &[u8])
        ensures
            bin@ == self@.bin(),
            bin@.len() == self@.bin_size(),
    {
        proof {
            use_type_invariant(self);
        }
        let bin = vstd::slice::slice_subrange(self.raw.as_slice(), IMG_TAG_SIZE, self.raw.len());
        assert(bin@ =~= self@.bin());
        bin
    }

    pub fn device_id(&self) -> (device_id: u32)
        ensures
            device_id == self@.device_id(),
    {
        proof {
            use_type_invariant(self);
        }
        self.device_id
    }

    pub fn firmware_id(&self) -> (firmware_id: u32)
        ensures
            firmware_id == self@.firmware_id(),
    {
        proof {
            use_type_invariant(self);
        }
        self.firmware_id
    }

    pub fn firmware_version(&self) -> (firmware_version: u32)
        ensures
            firmware_version == self@.firmware_version(),
    {
        proof {
            use_type_invariant(self);
        }
        self.firmware_version
    }

    pub fn encryption(&self) -> (encryption: EncryptionMode)
        ensures
            encryption == self@.encryption(),
    {
        proof {
            use_type_invariant(self);
        }
        self.encryption
    }

    pub fn hash(&self) -> (hash: &[u8; 32])
        ensures
            hash@ == self@.hash(),
    {
        proof {
            use_type_invariant(self);
        }
        &self.hash
    }

    pub fn signature(&self) -> (signature: &[u8; 64])
        ensures
            signature@ == self@.signature(),
    {
        proof {
            use_type_invariant(self);
        }
        &self.signature
    }

    pub fn iv(&self) -> (iv: &[u8; 16])
        ensures
            iv@ == self@.iv(),
    {
        proof {
            use_type_invariant(self);
        }
        &self.iv
    }

    pub fn start_address(&self) -> (start_address: u32)
        ensures
            start_address == self@.start_address(),
    {
        proof {
            use_type_invariant(self);
        }
        self.start_address
    }

    pub fn end_address(&self) -> (end_address: u32)
        ensures
            end_address == self@.end_address(),
    {
        proof {
            use_type_invariant(self);
        }
        self.end_address
    }

    pub fn bin_size(&self) -> (bin_size: usize)
        ensures
            bin_size == self@.bin_size(),
    {
        proof {
            use_type_invariant(self);
        }
        self.bin_size
    }
}

/// An accepted image is exactly its tag and its binary, the binary fills the
/// declared addresses, the hash is that of all it protects, and there is a
/// signature and an IV if and only if the binary is encrypted.
pub proof fn accepted_images_are_consistent(image: ImageView, limits: ImgLimits)
    requires
        image.fault(limits) is None,
    ensures
        image.sound(),
        image.tag() + image.bin() == image.raw,
        image.tag().len() == IMG_TAG_SIZE,
        image.bin().len() == image.bin_size(),
        image.end_address() - image.start_address() + 1 == image.bin().len(),
        image.hash() == sha256(image.protected()),
        image.encryption() is Encrypted <==> !bytes::zeros(image.signature()),
        image.encryption() is Encrypted <==> !bytes::zeros(image.iv()),
        MIN_BIN_SIZE <= image.bin().len() <= limits.max_bin_bytes,
        image.raw.len() <= limits.max_file_bytes,
{
    assert(image.tag() + image.bin() =~= image.raw);
}

/// Wider limits accept whatever narrower ones do.
pub proof fn limits_only_bound_sizes(image: ImageView, narrow: ImgLimits, wide: ImgLimits)
    requires
        image.fault(narrow) is None,
        narrow.max_file_bytes <= wide.max_file_bytes,
        narrow.max_bin_bytes <= wide.max_bin_bytes,
    ensures
        image.fault(wide) is None,
{
}

/// The little-endian integer of four bytes from `at` on.
pub open spec fn word(raw: Seq<u8>, at: int) -> int {
    raw[at] + 0x100 * raw[at + 1] + 0x1_0000 * raw[at + 2] + 0x100_0000 * raw[at + 3]
}

/// Whether some byte from `from` up to `to` is not zero.
pub open spec fn marked(raw: Seq<u8>, from: int, to: int) -> bool {
    exists|i: int| from <= i < to && #[trigger] raw[i] != 0
}

/// Every field is read from its place in the file.
pub proof fn fields_stand_at_their_offsets(image: ImageView)
    requires
        image.raw.len() >= 144,
    ensures
        image.device_id() == word(image.raw, 0),
        image.firmware_id() == word(image.raw, 4),
        image.firmware_version() == word(image.raw, 8),
        image.encryption_flag() == word(image.raw, 12),
        image.start_address() == word(image.raw, 128),
        image.end_address() == word(image.raw, 132),
        image.bin_size() == word(image.raw, 136),
        image.hash() == image.raw.subrange(16, 48),
        image.signature() == image.raw.subrange(48, 112),
        image.iv() == image.raw.subrange(112, 128),
        image.tag() == image.raw.subrange(0, 140),
        image.bin() == image.raw.subrange(140, image.raw.len() as int),
        image.protected() == image.raw.subrange(0, 16) + image.raw.subrange(112, 128)
            + image.raw.subrange(128, 140) + image.raw.subrange(140, image.raw.len() as int),
        image.encryption() is Encrypted <==> word(image.raw, 12) != 0,
{
    assert(image.tag() =~= image.raw.subrange(0, 140));
    assert(image.bin() =~= image.raw.subrange(140, image.raw.len() as int));
    assert(image.protected() =~= image.raw.subrange(0, 16) + image.raw.subrange(112, 128)
        + image.raw.subrange(128, 140) + image.raw.subrange(140, image.raw.len() as int));
}

/// An image is accepted if and only if the file is within the limits and exactly
/// as long as it declares, its last address follows from the first and the size,
/// its hash is that of everything but hash and signature, and either it is
/// encrypted and both signature and IV hold some byte that is not zero, or it is
/// not and neither does.
pub proof fn exactly_consistent_images_are_accepted(raw: Seq<u8>, limits: ImgLimits)
    requires
        raw.len() <= usize::MAX,
    ensures
        (ImageView { raw }).fault(limits) is None <==> {
            &&& 144 <= raw.len() <= limits.max_file_bytes
            &&& 4 <= word(raw, 136) <= limits.max_bin_bytes
            &&& raw.len() == 140 + word(raw, 136)
            &&& word(raw, 132) == word(raw, 128) + word(raw, 136) - 1
            &&& (word(raw, 12) == 1 && marked(raw, 48, 112) && marked(raw, 112, 128)) || (word(
                raw,
                12,
            ) == 0 && !marked(raw, 48, 112) && !marked(raw, 112, 128))
            &&& raw.subrange(16, 48) == sha256(
                raw.subrange(0, 16) + raw.subrange(112, raw.len() as int),
            )
        },
{
    let image = ImageView { raw };
    if raw.len() >= 144 {
        fields_stand_at_their_offsets(image);
        lemma_marked(raw, 48, 112);
        lemma_marked(raw, 112, 128);
        assert(image.protected() =~= raw.subrange(0, 16) + raw.subrange(
            112,
            raw.len() as int,
        ));
    }
}

proof fn lemma_marked(raw: Seq<u8>, from: int, to: int)
    requires
        0 <= from <= to <= raw.len(),
    ensures
        bytes::zeros(raw.subrange(from, to)) <==> !marked(raw, from, to),
{
    let part = raw.subrange(from, to);
    if marked(raw, from, to) {
        let i = choose|i: int| from <= i < to && #[trigger] raw[i] != 0;
        assert(part[i - from] != 0);
    } else {
        assert forall|i: int| 0 <= i < part.len() implies part[i] == 0 by {
            assert(raw[from + i] == part[i]);
        }
    }
}

/// Each error names a rule that the file does break, with the numbers that show
/// it.
pub proof fn errors_name_a_broken_rule(raw: Seq<u8>, limits: ImgLimits)
    requires
        raw.len() <= usize::MAX,
        (ImageView { raw }).fault(limits) is Some,
    ensures
        match (ImageView { raw }).fault(limits)->0 {
            ArtifactError::TooSmall { actual, minimum } => actual == raw.len() && minimum == 144
                && actual < 144,
            ArtifactError::FileTooLarge { actual, maximum } => actual == raw.len() && maximum
                == limits.max_file_bytes && actual > maximum,
            ArtifactError::InvalidEncryptionFlag(flag) => flag == word(raw, 12) && flag > 1,
            ArtifactError::BinTooSmall(size) => size == word(raw, 136) && size < 4,
            ArtifactError::BinTooLarge { actual, maximum } => actual == word(raw, 136) && maximum
                == limits.max_bin_bytes && actual > maximum,
            ArtifactError::SizeOverflow => 140 + word(raw, 136) > usize::MAX,
            ArtifactError::SizeMismatch { declared, actual } => declared == word(raw, 136) && actual
                == raw.len() - 140 && declared != actual,
            ArtifactError::PlaintextMetadataMismatch => word(raw, 12) == 0 && (marked(raw, 48, 112)
                || marked(raw, 112, 128)),
            ArtifactError::EncryptedMetadataMissing => word(raw, 12) == 1 && !(marked(raw, 48, 112)
                && marked(raw, 112, 128)),
            ArtifactError::AddressOverflow => word(raw, 128) + word(raw, 136) - 1 > u32::MAX,
            ArtifactError::AddressSizeMismatch { expected, actual } => expected == word(raw, 128)
                + word(raw, 136) - 1 && actual == word(raw, 132) && expected != actual,
            ArtifactError::HashMismatch => raw.subrange(16, 48) != sha256(
                raw.subrange(0, 16) + raw.subrange(112, raw.len() as int),
            ),
        },
{
    let image = ImageView { raw };
    if raw.len() >= 144 {
        fields_stand_at_their_offsets(image);
        lemma_marked(raw, 48, 112);
        lemma_marked(raw, 112, 128);
        assert(image.protected() =~= raw.subrange(0, 16) + raw.subrange(
            112,
            raw.len() as int,
        ));
    }
}

/// The rule that an error names is the first that is broken, in the order: file
/// size, encryption flag, declared size, agreement of the sizes, metadata,
/// addresses, hash.
pub proof fn the_first_broken_rule_is_named(raw: Seq<u8>, limits: ImgLimits)
    requires
        raw.len() <= usize::MAX,
    ensures
        ({
            let fault = (ImageView { raw }).fault(limits);
            let sized = 144 <= raw.len() <= limits.max_file_bytes;
            let flagged = sized && word(raw, 12) <= 1;
            let bounded = flagged && 4 <= word(raw, 136) <= limits.max_bin_bytes;
            let agreed = bounded && raw.len() == 140 + word(raw, 136);
            let sealed = agreed && (word(raw, 12) == 1) == marked(raw, 48, 112) && (word(raw, 12)
                == 1) == marked(raw, 112, 128);
            let placed = sealed && word(raw, 132) == word(raw, 128) + word(raw, 136) - 1;
            &&& raw.len() < 144 ==> fault is Some && fault->0 is TooSmall
            &&& raw.len() >= 144 && !sized ==> fault is Some && fault->0 is FileTooLarge
            &&& sized && !flagged ==> fault is Some && fault->0 is InvalidEncryptionFlag
            &&& flagged && !bounded ==> fault is Some && (fault->0 is BinTooSmall
                || fault->0 is BinTooLarge)
            &&& bounded && !agreed ==> fault is Some && (fault->0 is SizeMismatch
                || fault->0 is SizeOverflow)
            &&& agreed && !sealed ==> fault is Some && (fault->0 is PlaintextMetadataMismatch
                || fault->0 is EncryptedMetadataMissing)
            &&& sealed && !placed ==> fault is Some && (fault->0 is AddressOverflow
                || fault->0 is AddressSizeMismatch)
            &&& placed && fault is Some ==> fault->0 is HashMismatch
        }),
{
    let image = ImageView { raw };
    if raw.len() >= 144 {
        fields_stand_at_their_offsets(image);
        lemma_marked(raw, 48, 112);
        lemma_marked(raw, 112, 128);
    }
}

} // verus!
