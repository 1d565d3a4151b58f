//! Which devices may be updated, and with what.

use std::collections::HashSet;
use std::time::Instant;

use vstd::prelude::*;

use crate::artifact::{EncryptionMode, ImageView, ImgArtifact};
use crate::clock::Duration;
use crate::identity::{CanopenIdentity, CanopenView};

verus! {

/// How long a revalidation stays good, in nanoseconds: two seconds.
pub const READY_TTL_NANOS: u128 = 2_000_000_000;

#[derive(Debug, Clone, PartialEq, Eq)]
pub enum PolicyError {
    /// A profile ID must not be empty.
    EmptyProfileId,
    /// A profile uses a reserved value in the named field.
    InvalidProfileIdentity { profile_id: String, field: &'static str, value: u32 },
    /// A profile must allow at least one firmware ID.
    EmptyFirmwareIds(String),
    /// A profile repeats a firmware ID.
    DuplicateFirmwareId(String),
    /// Two profiles share a profile ID.
    DuplicateProfileId(String),
    /// Two profiles share a CANopen vendor and product.
    DuplicateCanopenIdentity { first: String, second: String },
    /// The CANopen identity is not in the registry.
    UnknownTarget,
    /// The profile is known but disabled.
    DisabledTarget { profile_id: String, reason: String },
    /// The image is for another device.
    DeviceMismatch { expected: u32, actual: u32 },
    /// The profile does not allow the image's firmware ID.
    FirmwareMismatch(u32),
    /// The image starts at another address.
    StartAddressMismatch { expected: u32, actual: u32 },
    /// The profile requires an encrypted image.
    EncryptionRequired,
    /// The CANopen identity changed after the artifact was validated.
    IdentityChanged,
    /// The local profile changed after the artifact was validated.
    ProfileChanged,
    /// The revalidation expired before Reset.
    ReadyExpired,
}

/// What a policy error says.
pub enum PolicyFault {
    EmptyProfileId,
    InvalidProfileIdentity { profile_id: Seq<char>, field: Seq<char>, value: u32 },
    EmptyFirmwareIds(Seq<char>),
    DuplicateFirmwareId(Seq<char>),
    DuplicateProfileId(Seq<char>),
    DuplicateCanopenIdentity { first: Seq<char>, second: Seq<char> },
    UnknownTarget,
    DisabledTarget { profile_id: Seq<char>, reason: Seq<char> },
    DeviceMismatch { expected: u32, actual: u32 },
    FirmwareMismatch(u32),
    StartAddressMismatch { expected: u32, actual: u32 },
    EncryptionRequired,
    IdentityChanged,
    ProfileChanged,
    ReadyExpired,
}

impl View for PolicyError {
    type V = PolicyFault;

    open spec fn view(&self) -> PolicyFault {
        match *self {
            PolicyError::EmptyProfileId => PolicyFault::EmptyProfileId,
            PolicyError::InvalidProfileIdentity { profile_id, field, value } =>
            PolicyFault::InvalidProfileIdentity { profile_id: profile_id@, field: field@, value },
            PolicyError::EmptyFirmwareIds(profile_id) => PolicyFault::EmptyFirmwareIds(profile_id@),
            PolicyError::DuplicateFirmwareId(profile_id) => PolicyFault::DuplicateFirmwareId(
                profile_id@,
            ),
            PolicyError::DuplicateProfileId(profile_id) => PolicyFault::DuplicateProfileId(
                profile_id@,
            ),
            PolicyError::DuplicateCanopenIdentity { first, second } =>
            PolicyFault::DuplicateCanopenIdentity { first: first@, second: second@ },
            PolicyError::UnknownTarget => PolicyFault::UnknownTarget,
            PolicyError::DisabledTarget { profile_id, reason } => PolicyFault::DisabledTarget {
                profile_id: profile_id@,
                reason: reason@,
            },
            PolicyError::DeviceMismatch { expected, actual } => PolicyFault::DeviceMismatch {
                expected,
                actual,
            },
            PolicyError::FirmwareMismatch(firmware_id) => PolicyFault::FirmwareMismatch(
                firmware_id,
            ),
            PolicyError::StartAddressMismatch { expected, actual } =>
            PolicyFault::StartAddressMismatch { expected, actual },
            PolicyError::EncryptionRequired => PolicyFault::EncryptionRequired,
            PolicyError::IdentityChanged => PolicyFault::IdentityChanged,
            PolicyError::ProfileChanged => PolicyFault::ProfileChanged,
            PolicyError::ReadyExpired => PolicyFault::ReadyExpired,
        }
    }
}

// ---------------------------------------------------------------------------
// Policies
// ---------------------------------------------------------------------------

/// What a policy allows.
pub struct PolicyView {
    pub device_id: u32,
    pub firmware_ids: Seq<u32>,
    pub start_address: u32,
    pub require_encrypted: bool,
}

impl PolicyView {
    /// Allows some firmware, and lists none twice.
    pub open spec fn sound(self) -> bool {
        self.firmware_ids.len() > 0 && self.firmware_ids.no_duplicates()
    }

    /// The first rule that `image` breaks, or `None` for one that may be written.
    pub open spec fn fault(self, image: ImageView) -> Option<PolicyFault> {
        if image.device_id() != self.device_id {
            Some(
                PolicyFault::DeviceMismatch {
                    expected: self.device_id,
                    actual: image.device_id(),
                },
            )
        } else if !self.firmware_ids.contains(image.firmware_id()) {
            Some(PolicyFault::FirmwareMismatch(image.firmware_id()))
        } else if image.start_address() != self.start_address {
            Some(
                PolicyFault::StartAddressMismatch {
                    expected: self.start_address,
                    actual: image.start_address(),
                },
            )
        } else if self.require_encrypted && !(image.encryption() is Encrypted) {
            Some(PolicyFault::EncryptionRequired)
        } else {
            None
        }
    }
}

/// What one product's bootloader accepts.
#[derive(Debug, PartialEq, Eq)]
pub struct IapPolicy {
    device_id: u32,
    firmware_ids: Vec<u32>,
    start_address: u32,
    require_encrypted: bool,
}

impl View for IapPolicy {
    type V = PolicyView;

    closed spec fn view(&self) -> PolicyView {
        PolicyView {
            device_id: self.device_id,
            firmware_ids: self.firmware_ids@,
            start_address: self.start_address,
            require_encrypted: self.require_encrypted,
        }
    }
}

impl Clone for IapPolicy {
    fn clone(&self) -> (copy: IapPolicy)
        ensures
            copy@ == self@,
    {
        proof {
            use_type_invariant(self);
        }
        let firmware_ids = self.firmware_ids.clone();
        assert(firmware_ids@ =~= self.firmware_ids@);
        IapPolicy {
            device_id: self.device_id,
            firmware_ids,
            start_address: self.start_address,
            require_encrypted: self.require_encrypted,
        }
    }
}

impl IapPolicy {
    /// Every policy allows some firmware, and lists none twice.
    #[verifier::type_invariant]
    pub open spec fn well_formed(self) -> bool {
        self@.sound()
    }

    pub fn new(
        device_id: u32,
        firmware_ids: Vec<u32>,
        start_address: u32,
        require_encrypted: bool,
    ) -> (result: Result<IapPolicy, PolicyError>)
        ensures
            match result {
                Ok(policy) => policy@ == (PolicyView {
                    device_id,
                    firmware_ids: firmware_ids@,
                    start_address,
                    require_encrypted,
                }) && policy@.sound(),
                Err(error) => if firmware_ids@.len() == 0 {
                    error@ == PolicyFault::EmptyFirmwareIds("<unbound>"@)
                } else {
                    !firmware_ids@.no_duplicates() && error@ == PolicyFault::DuplicateFirmwareId(
                        "<unbound>"@,
                    )
                },
            },
    {
        broadcast use vstd::std_specs::hash::group_hash_axioms;

        if firmware_ids.len() == 0 {
            return Err(PolicyError::EmptyFirmwareIds("<unbound>".to_owned()));
        }
        let mut seen: HashSet<u32> = HashSet::new();
        for next in 0..firmware_ids.len()
            invariant
                forall|id: u32|
                    seen@.contains(id) <==> exists|i: int|
                        0 <= i < next && #[trigger] firmware_ids@[i] == id,
                forall|i: int, j: int|
                    0 <= i < j < next ==> firmware_ids@[i] != firmware_ids@[j],
        {
            let id = firmware_ids[next];
            let ghost before = seen@;
            let fresh = seen.insert(id);
            if !fresh {
                proof {
                    let i = choose|i: int| 0 <= i < next && #[trigger] firmware_ids@[i] == id;
                    assert(firmware_ids@[i] == firmware_ids@[next as int]);
                }
                return Err(PolicyError::DuplicateFirmwareId("<unbound>".to_owned()));
            }
            assert forall|other: u32|
                seen@.contains(other) <==> exists|i: int|
                    0 <= i < next + 1 && #[trigger] firmware_ids@[i] == other by {
                if other == id {
                    assert(firmware_ids@[next as int] == other);
                }
                if before.contains(other) {
                    let i = choose|i: int| 0 <= i < next && #[trigger] firmware_ids@[i] == other;
                    assert(0 <= i < next + 1 && firmware_ids@[i] == other);
                }
            }
        }
        Ok(IapPolicy { device_id, firmware_ids, start_address, require_encrypted })
    }

    pub fn device_id(&self) -> (device_id: u32)
        ensures
            device_id == self@.device_id,
    {
        self.device_id
    }

    pub fn firmware_ids(&self) -> (firmware_ids: &[u32])
        ensures
            firmware_ids@ == self@.firmware_ids,
            self@.sound(),
    {
        proof {
            use_type_invariant(self);
        }
        self.firmware_ids.as_slice()
    }

    pub fn start_address(&self) -> (start_address: u32)
        ensures
            start_address == self@.start_address,
    {
        self.start_address
    }

    pub fn require_encrypted(&self) -> (require_encrypted: bool)
        ensures
            require_encrypted == self@.require_encrypted,
    {
        self.require_encrypted
    }

    /// Whether this policy lets `artifact` be written.
    pub fn validate_artifact(&self, artifact: &ImgArtifact) -> (result: Result<(), PolicyError>)
        ensures
            match result {
                Ok(_) => self@.fault(artifact@) is None,
                Err(error) => self@.fault(artifact@) == Some(error@),
            },
    {
        if artifact.device_id() != self.device_id {
            return Err(
                PolicyError::DeviceMismatch {
                    expected: self.device_id,
                    actual: artifact.device_id(),
                },
            );
        }
        if !contains(self.firmware_ids.as_slice(), artifact.firmware_id()) {
            return Err(PolicyError::FirmwareMismatch(artifact.firmware_id()));
        }
        if artifact.start_address() != self.start_address {
            return Err(
                PolicyError::StartAddressMismatch {
                    expected: self.start_address,
                    actual: artifact.start_address(),
                },
            );
        }
        if self.require_encrypted && artifact.encryption() != EncryptionMode::Encrypted {
            return Err(PolicyError::EncryptionRequired);
        }
        Ok(())
    }

    /// Whether two policies allow the same, listed in the same order.
    fn same_as(&self, other: &IapPolicy) -> (same: bool)
        ensures
            same == (self@ == other@),
    {
        if self.device_id != other.device_id || self.start_address != other.start_address
            || self.require_encrypted != other.require_encrypted || self.firmware_ids.len()
            != other.firmware_ids.len() {
            return false;
        }
        for next in 0..self.firmware_ids.len()
            invariant
                self.firmware_ids@.len() == other.firmware_ids@.len(),
                forall|i: int| 0 <= i < next ==> self.firmware_ids@[i] == other.firmware_ids@[i],
        {
            if self.firmware_ids[next] != other.firmware_ids[next] {
                return false;
            }
        }
        assert(self.firmware_ids@ =~= other.firmware_ids@);
        true
    }
}

fn contains(values: &[u32], wanted: u32) -> (found: bool)
    ensures
        found == values@.contains(wanted),
{
    for next in 0..values.len()
        invariant
            forall|i: int| 0 <= i < next ==> values@[i] != wanted,
    {
        if values[next] == wanted {
            return true;
        }
    }
    false
}

/// What a registry says of one product.
pub enum SupportView {
    Enabled(PolicyView),
    Disabled { reason: Seq<char> },
}

#[derive(Debug, PartialEq, Eq)]
pub enum SupportPolicy {
    Enabled(IapPolicy),
    Disabled { reason: String },
}

impl View for SupportPolicy {
    type V = SupportView;

    open spec fn view(&self) -> SupportView {
        match *self {
            SupportPolicy::Enabled(policy) => SupportView::Enabled(policy@),
            SupportPolicy::Disabled { reason } => SupportView::Disabled { reason: reason@ },
        }
    }
}

impl Clone for SupportPolicy {
    fn clone(&self) -> (copy: SupportPolicy)
        ensures
            copy@ == self@,
    {
        match self {
            SupportPolicy::Enabled(policy) => SupportPolicy::Enabled(policy.clone()),
            SupportPolicy::Disabled { reason } => SupportPolicy::Disabled {
                reason: reason.clone(),
            },
        }
    }
}

// ---------------------------------------------------------------------------
// Targets
// ---------------------------------------------------------------------------

/// The code points with the Unicode property `White_Space`.
pub open spec fn white_space(c: char) -> bool {
    ||| 0x09 <= c as int <= 0x0D
    ||| c as int == 0x20
    ||| c as int == 0x85
    ||| c as int == 0xA0
    ||| c as int == 0x1680
    ||| 0x2000 <= c as int <= 0x200A
    ||| 0x2028 <= c as int <= 0x2029
    ||| c as int == 0x202F
    ||| c as int == 0x205F
    ||| c as int == 0x3000
}

/// `char::is_whitespace`: true for the characters with the Unicode property
/// `White_Space`, and for no others.
pub assume_specification[ char::is_whitespace ](c: char) -> (result: bool)
    ensures
        result == white_space(c),
;

/// Text without any visible character.
pub open spec fn blank(text: Seq<char>) -> bool {
    forall|i: int| 0 <= i < text.len() ==> white_space(#[trigger] text[i])
}

fn is_blank(text: &str) -> (result: bool)
    ensures
        result == blank(text@),
{
    let length: usize = text.unicode_len();
    for next in 0..length
        invariant
            length == text@.len(),
            forall|i: int| 0 <= i < next ==> white_space(#[trigger] text@[i]),
    {
        if !text.get_char(next).is_whitespace() {
            return false;
        }
    }
    true
}

/// The values that no product, device or firmware has.
pub open spec fn reserved(value: u32) -> bool {
    value == 0 || value == u32::MAX
}

/// The first reserved value of a list.
pub open spec fn first_reserved(values: Seq<u32>) -> Option<u32>
    decreases values.len(),
{
    if values.len() == 0 {
        None
    } else if reserved(values[0]) {
        Some(values[0])
    } else {
        first_reserved(values.skip(1))
    }
}

/// One entry of a registry.
pub struct TargetView {
    pub profile_id: Seq<char>,
    pub vendor_id: u32,
    pub product_code: u32,
    pub support: SupportView,
}

impl TargetView {
    pub open spec fn misuse(self, field: Seq<char>, value: u32) -> Option<PolicyFault> {
        Some(
            PolicyFault::InvalidProfileIdentity { profile_id: self.profile_id, field, value },
        )
    }

    /// The first rule that this entry breaks, or `None` for a usable one.
    pub open spec fn fault(self) -> Option<PolicyFault> {
        if blank(self.profile_id) {
            Some(PolicyFault::EmptyProfileId)
        } else if reserved(self.vendor_id) {
            self.misuse("vendor_id"@, self.vendor_id)
        } else if reserved(self.product_code) {
            self.misuse("product_code"@, self.product_code)
        } else {
            match self.support {
                SupportView::Enabled(policy) => if reserved(policy.device_id) {
                    self.misuse("device_id"@, policy.device_id)
                } else {
                    match first_reserved(policy.firmware_ids) {
                        Some(value) => self.misuse("firmware_id"@, value),
                        None => None,
                    }
                },
                SupportView::Disabled { .. } => None,
            }
        }
    }

    /// Whether this entry is for the product that `identity` names.
    pub open spec fn covers(self, identity: CanopenView) -> bool {
        self.vendor_id == identity.vendor_id && self.product_code == identity.product_code
    }
}

#[derive(Debug, PartialEq, Eq)]
pub struct RegisteredTarget {
    profile_id: String,
    vendor_id: u32,
    product_code: u32,
    support: SupportPolicy,
}

impl View for RegisteredTarget {
    type V = TargetView;

    closed spec fn view(&self) -> TargetView {
        TargetView {
            profile_id: self.profile_id@,
            vendor_id: self.vendor_id,
            product_code: self.product_code,
            support: self.support@,
        }
    }
}

impl Clone for RegisteredTarget {
    fn clone(&self) -> (copy: RegisteredTarget)
        ensures
            copy@ == self@,
    {
        proof {
            use_type_invariant(self);
        }
        RegisteredTarget {
            profile_id: self.profile_id.clone(),
            vendor_id: self.vendor_id,
            product_code: self.product_code,
            support: self.support.clone(),
        }
    }
}

impl RegisteredTarget {
    /// Every entry is usable.
    #[verifier::type_invariant]
    pub open spec fn well_formed(self) -> bool {
        self@.fault() is None
    }

    /// A product that may be updated under `policy`.
    pub fn enabled(
        profile_id: &str,
        vendor_id: u32,
        product_code: u32,
        policy: IapPolicy,
    ) -> (result: Result<RegisteredTarget, PolicyError>)
        ensures
            ({
                let target = TargetView {
                    profile_id: profile_id@,
                    vendor_id,
                    product_code,
                    support: SupportView::Enabled(policy@),
                };
                match result {
                    Ok(entry) => entry@ == target && target.fault() is None,
                    Err(error) => target.fault() == Some(error@),
                }
            }),
    {
        RegisteredTarget::new(
            profile_id.to_owned(),
            vendor_id,
            product_code,
            SupportPolicy::Enabled(policy),
        )
    }

    /// A product that is known and must not be updated, for `reason`.
    pub fn disabled(
        profile_id: &str,
        vendor_id: u32,
        product_code: u32,
        reason: &str,
    ) -> (result: Result<RegisteredTarget, PolicyError>)
        ensures
            ({
                let target = TargetView {
                    profile_id: profile_id@,
                    vendor_id,
                    product_code,
                    support: SupportView::Disabled { reason: reason@ },
                };
                match result {
                    Ok(entry) => entry@ == target && target.fault() is None,
                    Err(error) => target.fault() == Some(error@),
                }
            }),
    {
        RegisteredTarget::new(
            profile_id.to_owned(),
            vendor_id,
            product_code,
            SupportPolicy::Disabled { reason: reason.to_owned() },
        )
    }

    fn new(
        profile_id: String,
        vendor_id: u32,
        product_code: u32,
        support: SupportPolicy,
    ) -> (result: Result<RegisteredTarget, PolicyError>)
        ensures
            ({
                let target = TargetView {
                    profile_id: profile_id@,
                    vendor_id,
                    product_code,
                    support: support@,
                };
                match result {
                    Ok(entry) => entry@ == target && target.fault() is None,
                    Err(error) => target.fault() == Some(error@),
                }
            }),
    {
        if is_blank(profile_id.as_str()) {
            return Err(PolicyError::EmptyProfileId);
        }
        if vendor_id == 0 || vendor_id == u32::MAX {
            return Err(
                PolicyError::InvalidProfileIdentity {
                    profile_id,
                    field: "vendor_id",
                    value: vendor_id,
                },
            );
        }
        if product_code == 0 || product_code == u32::MAX {
            return Err(
                PolicyError::InvalidProfileIdentity {
                    profile_id,
                    field: "product_code",
                    value: product_code,
                },
            );
        }
        if let SupportPolicy::Enabled(policy) = &support {
            if policy.device_id == 0 || policy.device_id == u32::MAX {
                return Err(
                    PolicyError::InvalidProfileIdentity {
                        profile_id,
                        field: "device_id",
                        value: policy.device_id,
                    },
                );
            }
            if let Some(value) = find_reserved(policy.firmware_ids.as_slice()) {
                return Err(
                    PolicyError::InvalidProfileIdentity {
                        profile_id,
                        field: "firmware_id",
                        value,
                    },
                );
            }
        }
        Ok(RegisteredTarget { profile_id, vendor_id, product_code, support })
    }

    pub fn profile_id(&self) -> (profile_id: &str)
        ensures
            profile_id@ == self@.profile_id,
    {
        self.profile_id.as_str()
    }

    pub fn vendor_id(&self) -> (vendor_id: u32)
        ensures
            vendor_id == self@.vendor_id,
    {
        self.vendor_id
    }

    pub fn product_code(&self) -> (product_code: u32)
        ensures
            product_code == self@.product_code,
    {
        self.product_code
    }

    pub fn support(&self) -> (support: &SupportPolicy)
        ensures
            support@ == self@.support,
            self@.fault() is None,
    {
        proof {
            use_type_invariant(self);
        }
        &self.support
    }

    /// Whether two entries say the same.
    fn same_as(&self, other: &RegisteredTarget) -> (same: bool)
        ensures
            same == (self@ == other@),
    {
        if self.vendor_id != other.vendor_id || self.product_code != other.product_code {
            return false;
        }
        if self.profile_id != other.profile_id {
            return false;
        }
        match (&self.support, &other.support) {
            (SupportPolicy::Enabled(left), SupportPolicy::Enabled(right)) => left.same_as(right),
            (
                SupportPolicy::Disabled { reason: left },
                SupportPolicy::Disabled { reason: right },
            ) => *left == *right,
            _ => false,
        }
    }
}

fn find_reserved(values: &[u32]) -> (found: Option<u32>)
    ensures
        found == first_reserved(values@),
{
    assert(values@.skip(0) =~= values@);
    for next in 0..values.len()
        invariant
            first_reserved(values@) == first_reserved(values@.skip(next as int)),
    {
        let value = values[next];
        assert(values@.skip(next as int).skip(1) =~= values@.skip(next + 1));
        if value == 0 || value == u32::MAX {
            return Some(value);
        }
    }
    None
}

// ---------------------------------------------------------------------------
// Registry
// ---------------------------------------------------------------------------

/// Whether an entry of `targets` has this profile ID.
pub open spec fn names(targets: Seq<TargetView>, profile_id: Seq<char>) -> bool {
    exists|i: int| 0 <= i < targets.len() && #[trigger] targets[i].profile_id == profile_id
}

/// Whether entry `i` is for this vendor and product.
pub open spec fn sells(targets: Seq<TargetView>, i: int, vendor_id: u32, product_code: u32) -> bool {
    0 <= i < targets.len() && targets[i].vendor_id == vendor_id && targets[i].product_code
        == product_code
}

/// How an entry conflicts with the entries before it.
pub open spec fn clash(earlier: Seq<TargetView>, target: TargetView) -> Option<PolicyFault> {
    if names(earlier, target.profile_id) {
        Some(PolicyFault::DuplicateProfileId(target.profile_id))
    } else if exists|i: int| sells(earlier, i, target.vendor_id, target.product_code) {
        let i = choose|i: int| sells(earlier, i, target.vendor_id, target.product_code);
        Some(
            PolicyFault::DuplicateCanopenIdentity {
                first: earlier[i].profile_id,
                second: target.profile_id,
            },
        )
    } else {
        None
    }
}

/// The first conflict in a list of entries, or `None` for a usable registry.
pub open spec fn registry_fault(targets: Seq<TargetView>) -> Option<PolicyFault>
    decreases targets.len(),
{
    if targets.len() == 0 {
        None
    } else {
        match registry_fault(targets.drop_last()) {
            Some(fault) => Some(fault),
            None => clash(targets.drop_last(), targets.last()),
        }
    }
}

/// The entry for the product that `identity` names.
pub open spec fn entry_for(targets: Seq<TargetView>, identity: CanopenView) -> Option<TargetView> {
    if exists|i: int| sells(targets, i, identity.vendor_id, identity.product_code) {
        let i = choose|i: int| sells(targets, i, identity.vendor_id, identity.product_code);
        Some(targets[i])
    } else {
        None
    }
}

/// What a registry answers to a request to update the device with `identity`.
pub open spec fn authorized(targets: Seq<TargetView>, identity: CanopenView) -> Result<
    AuthorizedView,
    PolicyFault,
> {
    match entry_for(targets, identity) {
        Some(target) => match target.support {
            SupportView::Enabled(_) => Ok(AuthorizedView { target, identity }),
            SupportView::Disabled { reason } => Err(
                PolicyFault::DisabledTarget { profile_id: target.profile_id, reason },
            ),
        },
        None => Err(PolicyFault::UnknownTarget),
    }
}

/// In a usable registry no two entries share a profile ID, or a vendor and a
/// product: at most one entry can answer for a device.
pub proof fn registry_entries_are_distinct(targets: Seq<TargetView>, i: int, j: int)
    requires
        registry_fault(targets) is None,
        0 <= i < j < targets.len(),
    ensures
        targets[i].profile_id != targets[j].profile_id,
        !(targets[i].vendor_id == targets[j].vendor_id && targets[i].product_code
            == targets[j].product_code),
    decreases targets.len(),
{
    let earlier = targets.drop_last();
    if j < earlier.len() {
        registry_entries_are_distinct(earlier, i, j);
    } else {
        assert(earlier[i] == targets[i]);
        assert(!sells(earlier, i, targets[j].vendor_id, targets[j].product_code));
    }
}

/// Every conflict is found: entries that share neither make a usable registry.
pub proof fn distinct_entries_make_a_registry(targets: Seq<TargetView>)
    requires
        forall|i: int, j: int|
            0 <= i < j < targets.len() ==> (#[trigger] targets[i]).profile_id != (
            #[trigger] targets[j]).profile_id,
        forall|i: int, j: int|
            0 <= i < j < targets.len() ==> !((#[trigger] targets[i]).vendor_id == (
            #[trigger] targets[j]).vendor_id && targets[i].product_code
                == targets[j].product_code),
    ensures
        registry_fault(targets) is None,
    decreases targets.len(),
{
    if targets.len() > 0 {
        let earlier = targets.drop_last();
        let last = targets.last();
        assert forall|i: int, j: int| 0 <= i < j < earlier.len() implies (
        #[trigger] earlier[i]).profile_id != (#[trigger] earlier[j]).profile_id by {
            assert(earlier[i] == targets[i] && earlier[j] == targets[j]);
        }
        assert forall|i: int, j: int| 0 <= i < j < earlier.len() implies !((
        #[trigger] earlier[i]).vendor_id == (#[trigger] earlier[j]).vendor_id
            && earlier[i].product_code == earlier[j].product_code) by {
            assert(earlier[i] == targets[i] && earlier[j] == targets[j]);
        }
        distinct_entries_make_a_registry(earlier);
        assert forall|i: int| 0 <= i < earlier.len() implies #[trigger] earlier[i].profile_id
            != last.profile_id by {
            assert(earlier[i] == targets[i] && last == targets[earlier.len() as int]);
        }
        assert forall|i: int| !sells(earlier, i, last.vendor_id, last.product_code) by {
            if 0 <= i < earlier.len() {
                assert(earlier[i] == targets[i] && last == targets[earlier.len() as int]);
            }
        }
    }
}

/// The entry that covers a device is the one that is found.
proof fn lemma_entry_for(targets: Seq<TargetView>, identity: CanopenView, i: int)
    requires
        registry_fault(targets) is None,
        0 <= i < targets.len(),
        targets[i].covers(identity),
    ensures
        entry_for(targets, identity) == Some(targets[i]),
{
    assert(sells(targets, i, identity.vendor_id, identity.product_code));
    let found = choose|k: int| sells(targets, k, identity.vendor_id, identity.product_code);
    if found < i {
        registry_entries_are_distinct(targets, found, i);
    } else if i < found {
        registry_entries_are_distinct(targets, i, found);
    }
}

/// Views of a list of entries.
pub open spec fn views(targets: Seq<RegisteredTarget>) -> Seq<TargetView> {
    Seq::new(targets.len(), |i: int| targets[i]@)
}

#[derive(Debug)]
pub struct TargetRegistry {
    targets: Vec<RegisteredTarget>,
}

impl View for TargetRegistry {
    type V = Seq<TargetView>;

    closed spec fn view(&self) -> Seq<TargetView> {
        views(self.targets@)
    }
}

impl Clone for TargetRegistry {
    fn clone(&self) -> (copy: TargetRegistry)
        ensures
            copy@ == self@,
    {
        proof {
            use_type_invariant(self);
        }
        let mut targets: Vec<RegisteredTarget> = Vec::with_capacity(self.targets.len());
        for next in 0..self.targets.len()
            invariant
                targets@.len() == next,
                forall|i: int| 0 <= i < next ==> (#[trigger] targets@[i])@ == self.targets@[i]@,
        {
            targets.push(self.targets[next].clone());
        }
        assert(views(targets@) =~= views(self.targets@));
        TargetRegistry { targets }
    }
}

impl TargetRegistry {
    /// No two entries of a registry conflict.
    #[verifier::type_invariant]
    pub open spec fn well_formed(self) -> bool {
        registry_fault(self@) is None
    }

    pub fn new(targets: Vec<RegisteredTarget>) -> (result: Result<TargetRegistry, PolicyError>)
        ensures
            match result {
                Ok(registry) => registry@ == views(targets@) && registry_fault(registry@) is None,
                Err(error) => registry_fault(views(targets@)) == Some(error@),
            },
    {
        let ghost all = views(targets@);
        assert(all.take(0) =~= Seq::empty());
        for next in 0..targets.len()
            invariant
                all == views(targets@),
                registry_fault(all.take(next as int)) is None,
        {
            let target = &targets[next];
            let ghost earlier = all.take(next as int);
            assert(all.take(next + 1).drop_last() =~= earlier);
            let mut repeats: bool = false;
            let mut owner: Option<usize> = None;
            for other in 0..next
                invariant
                    next < targets@.len(),
                    *target == targets@[next as int],
                    all == views(targets@),
                    earlier == all.take(next as int),
                    repeats == exists|i: int|
                        0 <= i < other && #[trigger] earlier[i].profile_id == target@.profile_id,
                    match owner {
                        Some(index) => index < other && sells(
                            earlier,
                            index as int,
                            target@.vendor_id,
                            target@.product_code,
                        ),
                        None => forall|i: int|
                            0 <= i < other ==> !sells(
                                earlier,
                                i,
                                target@.vendor_id,
                                target@.product_code,
                            ),
                    },
            {
                assert(earlier[other as int] == targets@[other as int]@);
                if targets[other].profile_id == target.profile_id {
                    assert(earlier[other as int].profile_id == target@.profile_id);
                    repeats = true;
                }
                if owner.is_none() && targets[other].vendor_id == target.vendor_id
                    && targets[other].product_code == target.product_code {
                    owner = Some(other);
                }
            }
            if repeats {
                proof {
                    lemma_first_fault(all, next as int);
                }
                return Err(PolicyError::DuplicateProfileId(target.profile_id.clone()));
            }
            if let Some(index) = owner {
                proof {
                    let found = choose|i: int|
                        sells(earlier, i, target@.vendor_id, target@.product_code);
                    if found < index {
                        registry_entries_are_distinct(earlier, found, index as int);
                    } else if index < found {
                        registry_entries_are_distinct(earlier, index as int, found);
                    }
                    lemma_first_fault(all, next as int);
                }
                return Err(
                    PolicyError::DuplicateCanopenIdentity {
                        first: targets[index].profile_id.clone(),
                        second: target.profile_id.clone(),
                    },
                );
            }
            assert forall|i: int| !sells(earlier, i, target@.vendor_id, target@.product_code) by {}
        }
        assert(all.take(targets@.len() as int) =~= all);
        Ok(TargetRegistry { targets })
    }

    pub fn targets(&self) -> (targets: &[RegisteredTarget])
        ensures
            views(targets@) == self@,
            registry_fault(self@) is None,
    {
        proof {
            use_type_invariant(self);
        }
        self.targets.as_slice()
    }

    /// What the registry knows of a device.
    pub fn classify(&self, identity: CanopenIdentity) -> (classification: TargetClassification)
        ensures
            match classification {
                TargetClassification::Enabled(target) => entry_for(self@, identity@) == Some(
                    target@,
                ) && target@.support is Enabled,
                TargetClassification::Disabled(target) => entry_for(self@, identity@) == Some(
                    target@,
                ) && target@.support is Disabled,
                TargetClassification::Unknown => entry_for(self@, identity@) is None,
            },
    {
        proof {
            use_type_invariant(self);
        }
        for next in 0..self.targets.len()
            invariant
                registry_fault(self@) is None,
                forall|i: int|
                    0 <= i < next ==> !sells(
                        self@,
                        i,
                        identity@.vendor_id,
                        identity@.product_code,
                    ),
        {
            let target = &self.targets[next];
            assert(self@[next as int] == target@);
            if target.vendor_id == identity.vendor_id() && target.product_code
                == identity.product_code() {
                proof {
                    lemma_entry_for(self@, identity@, next as int);
                }
                return match target.support {
                    SupportPolicy::Enabled(_) => TargetClassification::Enabled(target.clone()),
                    SupportPolicy::Disabled { .. } => TargetClassification::Disabled(
                        target.clone(),
                    ),
                };
            }
        }
        TargetClassification::Unknown
    }

    /// Permission to prepare an update of a device, if its product is enabled.
    pub fn authorize(&self, identity: CanopenIdentity) -> (result: Result<
        AuthorizedTarget,
        PolicyError,
    >)
        ensures
            match result {
                Ok(target) => authorized(self@, identity@) == Ok::<AuthorizedView, PolicyFault>(
                    target@,
                ),
                Err(error) => authorized(self@, identity@) == Err::<AuthorizedView, PolicyFault>(
                    error@,
                ),
            },
    {
        match self.classify(identity) {
            TargetClassification::Enabled(target) => {
                proof {
                    lemma_entry_covers(self@, identity@);
                }
                Ok(AuthorizedTarget { target, identity })
            },
            TargetClassification::Disabled(target) => match &target.support {
                SupportPolicy::Disabled { reason } => Err(
                    PolicyError::DisabledTarget {
                        profile_id: target.profile_id.clone(),
                        reason: reason.clone(),
                    },
                ),
                SupportPolicy::Enabled(_) => Err(PolicyError::UnknownTarget),
            },
            TargetClassification::Unknown => Err(PolicyError::UnknownTarget),
        }
    }
}

/// The entry that is found covers the device.
proof fn lemma_entry_covers(targets: Seq<TargetView>, identity: CanopenView)
    ensures
        entry_for(targets, identity) matches Some(target) ==> target.covers(identity),
{
}

/// A conflict at one entry is the conflict of the whole list.
proof fn lemma_first_fault(targets: Seq<TargetView>, index: int)
    requires
        0 <= index < targets.len(),
        registry_fault(targets.take(index)) is None,
        clash(targets.take(index), targets[index]) is Some,
    ensures
        registry_fault(targets) == clash(targets.take(index), targets[index]),
    decreases targets.len(),
{
    if index == targets.len() - 1 {
        assert(targets.drop_last() =~= targets.take(index));
    } else {
        let fewer = targets.drop_last();
        assert(fewer.take(index) =~= targets.take(index));
        lemma_first_fault(fewer, index);
    }
}

#[derive(Debug, Clone)]
pub enum TargetClassification {
    Enabled(RegisteredTarget),
    Disabled(RegisteredTarget),
    Unknown,
}

// ---------------------------------------------------------------------------
// Capabilities
// ---------------------------------------------------------------------------

/// A device and the entry that lets it be updated.
pub struct AuthorizedView {
    pub target: TargetView,
    pub identity: CanopenView,
}

impl AuthorizedView {
    /// The entry is enabled, usable and for this device.
    pub open spec fn sound(self) -> bool {
        self.target.support is Enabled && self.target.fault() is None && self.target.covers(
            self.identity,
        ) && self.identity.sound()
    }
}

#[derive(Debug)]
pub struct AuthorizedTarget {
    target: RegisteredTarget,
    identity: CanopenIdentity,
}

impl View for AuthorizedTarget {
    type V = AuthorizedView;

    closed spec fn view(&self) -> AuthorizedView {
        AuthorizedView { target: self.target@, identity: self.identity@ }
    }
}

impl Clone for AuthorizedTarget {
    fn clone(&self) -> (copy: AuthorizedTarget)
        ensures
            copy@ == self@,
    {
        proof {
            use_type_invariant(self);
        }
        AuthorizedTarget { target: self.target.clone(), identity: self.identity }
    }
}

impl AuthorizedTarget {
    /// The entry is enabled and for this device.
    #[verifier::type_invariant]
    pub open spec fn well_formed(self) -> bool {
        self@.target.support is Enabled && self@.target.covers(self@.identity)
    }

    pub fn target(&self) -> (target: &RegisteredTarget)
        ensures
            target@ == self@.target,
            self@.sound(),
    {
        proof {
            use_type_invariant(self);
            use_type_invariant(&self.target);
            use_type_invariant(&self.identity);
        }
        &self.target
    }

    pub fn identity(&self) -> (identity: CanopenIdentity)
        ensures
            identity@ == self@.identity,
    {
        self.identity
    }
}

/// A device, the entry that lets it be updated, and the image to write.
pub struct PreparedView {
    pub target: AuthorizedView,
    pub image: ImageView,
}

impl PreparedView {
    /// The entry is for this device and its policy lets the image be written.
    pub open spec fn sound(self) -> bool {
        &&& self.target.sound()
        &&& self.image.sound()
        &&& self.target.target.support matches SupportView::Enabled(policy) && policy.fault(
            self.image,
        ) is None
    }
}

/// What a fresh reading of the identity makes of a prepared update.
pub open spec fn revalidated(
    prepared: PreparedView,
    actual: CanopenView,
    targets: Seq<TargetView>,
) -> Result<PreparedView, PolicyFault> {
    if actual != prepared.target.identity {
        Err(PolicyFault::IdentityChanged)
    } else {
        match authorized(targets, actual) {
            Err(fault) => Err(fault),
            Ok(target) => if target.target != prepared.target.target {
                Err(PolicyFault::ProfileChanged)
            } else {
                Ok(prepared)
            },
        }
    }
}

#[derive(Debug)]
pub struct PreparedUpgrade {
    target: AuthorizedTarget,
    artifact: ImgArtifact,
}

impl View for PreparedUpgrade {
    type V = PreparedView;

    closed spec fn view(&self) -> PreparedView {
        PreparedView { target: self.target@, image: self.artifact@ }
    }
}

impl Clone for PreparedUpgrade {
    fn clone(&self) -> (copy: PreparedUpgrade)
        ensures
            copy@ == self@,
    {
        proof {
            use_type_invariant(self);
        }
        PreparedUpgrade { target: self.target.clone(), artifact: self.artifact.clone() }
    }
}

impl PreparedUpgrade {
    /// The device's policy lets the image be written.
    #[verifier::type_invariant]
    pub open spec fn well_formed(self) -> bool {
        self@.target.target.support matches SupportView::Enabled(policy) && policy.fault(
            self@.image,
        ) is None
    }

    pub fn bind(target: AuthorizedTarget, artifact: ImgArtifact) -> (result: Result<
        PreparedUpgrade,
        PolicyError,
    >)
        ensures
            match target@.target.support {
                SupportView::Enabled(policy) => match result {
                    Ok(prepared) => policy.fault(artifact@) is None && prepared@ == (PreparedView {
                        target: target@,
                        image: artifact@,
                    }),
                    Err(error) => policy.fault(artifact@) == Some(error@),
                },
                SupportView::Disabled { .. } => result matches Err(error) && error@
                    == PolicyFault::ProfileChanged,
            },
    {
        let checked = match target.target.support() {
            SupportPolicy::Enabled(policy) => policy.validate_artifact(&artifact),
            SupportPolicy::Disabled { .. } => Err(PolicyError::ProfileChanged),
        };
        match checked {
            Ok(_) => Ok(PreparedUpgrade { target, artifact }),
            Err(error) => Err(error),
        }
    }

    pub fn target(&self) -> (target: &AuthorizedTarget)
        ensures
            target@ == self@.target,
            self@.sound(),
    {
        proof {
            use_type_invariant(self);
            use_type_invariant(&self.target);
            use_type_invariant(&self.target.target);
            use_type_invariant(&self.target.identity);
            use_type_invariant(&self.artifact);
        }
        &self.target
    }

    pub fn artifact(&self) -> (artifact: &ImgArtifact)
        ensures
            artifact@ == self@.image,
    {
        &self.artifact
    }

    /// Bind this prepared artifact to a fresh complete identity read from the
    /// exact bus that the update will immediately run on.
    pub fn revalidate(&self, actual: CanopenIdentity, registry: &TargetRegistry) -> (result: Result<
        ReadyToFlash,
        PolicyError,
    >)
        ensures
            match result {
                Ok(ready) => revalidated(self@, actual@, registry@) == Ok::<
                    PreparedView,
                    PolicyFault,
                >(ready@) && ready.stamped(),
                Err(error) => revalidated(self@, actual@, registry@) == Err::<
                    PreparedView,
                    PolicyFault,
                >(error@),
            },
    {
        if !actual.same_as(self.target.identity) {
            return Err(PolicyError::IdentityChanged);
        }
        let authorized = match registry.authorize(actual) {
            Ok(target) => target,
            Err(error) => {
                return Err(error);
            },
        };
        if !authorized.target.same_as(&self.target.target) {
            return Err(PolicyError::ProfileChanged);
        }
        Ok(ReadyToFlash { prepared: self.clone(), issued_at: instant_now() })
    }
}

/// A reading of the system's monotonic clock.
#[verifier::external_type_specification]
#[verifier::external_body]
pub struct ExInstant(Instant);

/// `std::time::Instant::now`: the reading depends on when it is made.
#[verifier::external_body]
fn instant_now() -> Instant {
    Instant::now()
}

/// `std::time::Instant::elapsed`: the time since `start`, which depends on when
/// it is asked, so nothing is said of it. The result is taken in nanoseconds.
#[verifier::external_body]
fn elapsed_since(start: &Instant) -> Duration {
    Duration { nanos: start.elapsed().as_nanos() }
}

/// Short-lived proof that the selected device and local policy were reread on
/// the actual update bus. Its fields and constructor are intentionally private.
#[derive(Debug)]
pub struct ReadyToFlash {
    prepared: PreparedUpgrade,
    issued_at: Instant,
}

impl View for ReadyToFlash {
    type V = PreparedView;

    closed spec fn view(&self) -> PreparedView {
        self.prepared@
    }
}

impl ReadyToFlash {
    /// The capability is stamped with a reading of the clock.
    pub closed spec fn stamped(&self) -> bool {
        call_ensures(instant_now, (), self.issued_at)
    }

    /// The clock gave `age` as the time since the capability was issued.
    pub closed spec fn aged(&self, age: Duration) -> bool {
        call_ensures(elapsed_since, (&self.issued_at,), age)
    }

    pub fn node_id(&self) -> (node_id: u8)
        ensures
            node_id == self@.target.identity.node_id,
            self@.sound(),
    {
        self.prepared.target().identity.node_id()
    }

    /// How long ago the identity was reread. It depends on when it is asked;
    /// `redeemed_at` says what comes of every age.
    pub fn age(&self) -> (age: Duration)
        ensures
            self.aged(age),
    {
        elapsed_since(&self.issued_at)
    }

    /// Give up the capability, unless it is more than two seconds old by now.
    pub fn into_prepared(self) -> (result: Result<PreparedUpgrade, PolicyError>)
        ensures
            match result {
                Ok(prepared) => prepared@ == self@,
                Err(error) => error@ == PolicyFault::ReadyExpired,
            },
            exists|age: Duration| #[trigger]
                self.aged(age) && (result is Ok <==> age.nanos <= READY_TTL_NANOS),
    {
        let age = self.age();
        self.redeemed_at(age)
    }

    /// Give up the capability at the given age, unless that is above two seconds.
    pub fn redeemed_at(self, age: Duration) -> (result: Result<PreparedUpgrade, PolicyError>)
        ensures
            match result {
                Ok(prepared) => age.nanos <= READY_TTL_NANOS && prepared@ == self@,
                Err(error) => age.nanos > READY_TTL_NANOS && error@ == PolicyFault::ReadyExpired,
            },
    {
        if age.nanos > READY_TTL_NANOS {
            return Err(PolicyError::ReadyExpired);
        }
        Ok(self.prepared)
    }
}

/// A capability to update exists only for a complete identity whose product
/// the registry enables, with an image that its policy allows.
pub proof fn capabilities_are_earned(
    prepared: PreparedView,
    actual: CanopenView,
    targets: Seq<TargetView>,
)
    requires
        prepared.sound(),
        revalidated(prepared, actual, targets) is Ok,
    ensures
        revalidated(prepared, actual, targets)->Ok_0 == prepared,
        actual == prepared.target.identity,
        exists|i: int|
            0 <= i < targets.len() && #[trigger] targets[i] == prepared.target.target
                && targets[i].covers(actual) && (targets[i].support matches SupportView::Enabled(
                policy,
            ) && policy.fault(prepared.image) is None),
{
    let i = choose|i: int| sells(targets, i, actual.vendor_id, actual.product_code);
    assert(targets[i] == prepared.target.target);
}

/// A device that no entry covers is never authorized: an update is denied
/// unless the registry says otherwise.
pub proof fn unknown_devices_are_denied(targets: Seq<TargetView>, identity: CanopenView)
    requires
        forall|i: int| 0 <= i < targets.len() ==> !(#[trigger] targets[i]).covers(identity),
    ensures
        authorized(targets, identity) == Err::<AuthorizedView, PolicyFault>(
            PolicyFault::UnknownTarget,
        ),
{
    assert forall|i: int| !sells(targets, i, identity.vendor_id, identity.product_code) by {
        if 0 <= i < targets.len() {
            assert(!targets[i].covers(identity));
        }
    }
}

/// In a usable registry the entry that covers a device decides: an enabled one
/// authorizes it, a disabled one denies it with its reason.
pub proof fn the_covering_entry_decides(
    targets: Seq<TargetView>,
    identity: CanopenView,
    index: int,
)
    requires
        registry_fault(targets) is None,
        0 <= index < targets.len(),
        targets[index].covers(identity),
    ensures
        authorized(targets, identity) == match targets[index].support {
            SupportView::Enabled(_) => Ok(AuthorizedView { target: targets[index], identity }),
            SupportView::Disabled { reason } => Err(
                PolicyFault::DisabledTarget { profile_id: targets[index].profile_id, reason },
            ),
        },
{
    lemma_entry_for(targets, identity, index);
}

/// A policy lets an image be written if and only if the image is for exactly its
/// device, has one of its firmware IDs, starts at its address, and is encrypted
/// where that is required.
pub proof fn policies_allow_exact_matches(policy: PolicyView, image: ImageView)
    ensures
        policy.fault(image) is None <==> {
            &&& image.device_id() == policy.device_id
            &&& exists|i: int|
                0 <= i < policy.firmware_ids.len() && #[trigger] policy.firmware_ids[i]
                    == image.firmware_id()
            &&& image.start_address() == policy.start_address
            &&& policy.require_encrypted ==> image.encryption() is Encrypted
        },
        image.device_id() != policy.device_id ==> policy.fault(image) == Some(
            PolicyFault::DeviceMismatch { expected: policy.device_id, actual: image.device_id() },
        ),
        policy.fault(image) is Some && !(policy.fault(image)->0 is DeviceMismatch) ==> {
            &&& image.device_id() == policy.device_id
            &&& match policy.fault(image)->0 {
                PolicyFault::FirmwareMismatch(firmware_id) => firmware_id == image.firmware_id()
                    && forall|i: int|
                    0 <= i < policy.firmware_ids.len() ==> #[trigger] policy.firmware_ids[i]
                        != image.firmware_id(),
                PolicyFault::StartAddressMismatch { expected, actual } => expected
                    == policy.start_address && actual == image.start_address() && expected
                    != actual && policy.firmware_ids.contains(image.firmware_id()),
                PolicyFault::EncryptionRequired => policy.require_encrypted
                    && image.encryption() is Plaintext && image.start_address()
                    == policy.start_address && policy.firmware_ids.contains(image.firmware_id()),
                _ => false,
            }
        },
{
}

/// A registry entry is usable if and only if its profile ID holds a character
/// that is not white space, no ID of it is 0 or 0xFFFFFFFF, and, where it is
/// enabled, none of its policy is either.
pub proof fn usable_entries_have_real_values(target: TargetView)
    ensures
        target.fault() is None <==> {
            &&& exists|i: int|
                0 <= i < target.profile_id.len() && !white_space(#[trigger] target.profile_id[i])
            &&& target.vendor_id != 0 && target.vendor_id != 0xFFFF_FFFF
            &&& target.product_code != 0 && target.product_code != 0xFFFF_FFFF
            &&& target.support matches SupportView::Enabled(policy) ==> {
                &&& policy.device_id != 0 && policy.device_id != 0xFFFF_FFFF
                &&& forall|i: int|
                    0 <= i < policy.firmware_ids.len() ==> #[trigger] policy.firmware_ids[i] != 0
                        && policy.firmware_ids[i] != 0xFFFF_FFFF
            }
        },
        target.fault() matches Some(PolicyFault::InvalidProfileIdentity {
            profile_id,
            field,
            value,
        }) ==> {
            &&& profile_id == target.profile_id
            &&& value == 0 || value == 0xFFFF_FFFF
            &&& (field == "vendor_id"@ && value == target.vendor_id) || (field == "product_code"@
                && value == target.product_code) || (target.support matches SupportView::Enabled(
                policy,
            ) && ((field == "device_id"@ && value == policy.device_id) || (field
                == "firmware_id"@ && policy.firmware_ids.contains(value))))
        },
        target.fault() matches Some(PolicyFault::InvalidProfileIdentity { field, .. }) ==> {
            &&& target.vendor_id == 0 || target.vendor_id == 0xFFFF_FFFF <==> field
                == "vendor_id"@
            &&& !(field == "vendor_id"@) ==> (target.product_code == 0 || target.product_code
                == 0xFFFF_FFFF <==> field == "product_code"@)
            &&& !(field == "vendor_id"@) && !(field == "product_code"@) ==> (
            target.support matches SupportView::Enabled(policy) && (policy.device_id == 0
                || policy.device_id == 0xFFFF_FFFF <==> field == "device_id"@))
        },
        target.fault() matches Some(PolicyFault::InvalidProfileIdentity { field, value, .. }) ==> (
        field == "firmware_id"@ ==> (target.support matches SupportView::Enabled(policy)
            && exists|at: int|
            0 <= at < policy.firmware_ids.len() && #[trigger] policy.firmware_ids[at] == value
                && forall|i: int|
                0 <= i < at ==> #[trigger] policy.firmware_ids[i] != 0 && policy.firmware_ids[i]
                    != 0xFFFF_FFFF)),
        target.fault() matches Some(fault) ==> fault is EmptyProfileId
            || fault is InvalidProfileIdentity,
        target.fault() is Some && target.fault()->0 is EmptyProfileId <==> forall|i: int|
            0 <= i < target.profile_id.len() ==> white_space(#[trigger] target.profile_id[i]),
{
    reveal_strlit("vendor_id");
    reveal_strlit("product_code");
    reveal_strlit("device_id");
    reveal_strlit("firmware_id");
    assert("vendor_id"@[0] == 'v' && "product_code"@[0] == 'p' && "device_id"@[0] == 'd'
        && "firmware_id"@[0] == 'f');
    if let SupportView::Enabled(policy) = target.support {
        lemma_first_reserved(policy.firmware_ids);
    }
}

proof fn lemma_first_reserved(values: Seq<u32>)
    ensures
        first_reserved(values) is None <==> forall|i: int|
            0 <= i < values.len() ==> #[trigger] values[i] != 0 && values[i] != 0xFFFF_FFFF,
        first_reserved(values) matches Some(value) ==> values.contains(value) && (value == 0
            || value == 0xFFFF_FFFF),
        first_reserved(values) matches Some(value) ==> exists|at: int|
            0 <= at < values.len() && #[trigger] values[at] == value && forall|i: int|
                0 <= i < at ==> #[trigger] values[i] != 0 && values[i] != 0xFFFF_FFFF,
    decreases values.len(),
{
    if values.len() > 0 {
        let rest = values.skip(1);
        lemma_first_reserved(rest);
        assert forall|i: int| 1 <= i < values.len() implies #[trigger] values[i] == rest[i - 1] by {}
        if let Some(value) = first_reserved(values) {
            if first_reserved(rest) == Some(value) && !(values[0] == 0 || values[0]
                == 0xFFFF_FFFF) {
                let at = choose|at: int|
                    0 <= at < rest.len() && #[trigger] rest[at] == value && forall|i: int|
                        0 <= i < at ==> #[trigger] rest[i] != 0 && rest[i] != 0xFFFF_FFFF;
                assert(values[at + 1] == value);
                assert forall|i: int| 0 <= i < at + 1 implies #[trigger] values[i] != 0
                    && values[i] != 0xFFFF_FFFF by {
                    if i > 0 {
                        assert(values[i] == rest[i - 1]);
                    }
                }
            } else {
                assert(values[0] == value);
            }
        }
        if first_reserved(values) is None {
            assert forall|i: int| 0 <= i < values.len() implies #[trigger] values[i] != 0
                && values[i] != 0xFFFF_FFFF by {
                if i > 0 {
                    assert(values[i] == rest[i - 1]);
                }
            }
        } else if forall|i: int|
            0 <= i < values.len() ==> #[trigger] values[i] != 0 && values[i] != 0xFFFF_FFFF {
            assert forall|i: int| 0 <= i < rest.len() implies #[trigger] rest[i] != 0 && rest[i]
                != 0xFFFF_FFFF by {
                assert(rest[i] == values[i + 1]);
            }
            assert(values[0] != 0);
        }
    }
}

/// A registry authorizes a device under an entry of its own, with exactly the
/// device's vendor and product, and never under another.
pub proof fn authorization_is_by_exact_product(targets: Seq<TargetView>, identity: CanopenView)
    ensures
        authorized(targets, identity) matches Ok(permission) ==> {
            &&& permission.identity == identity
            &&& targets.contains(permission.target)
            &&& permission.target.vendor_id == identity.vendor_id
            &&& permission.target.product_code == identity.product_code
            &&& permission.target.support is Enabled
        },
        authorized(targets, identity) == Err::<AuthorizedView, PolicyFault>(
            PolicyFault::UnknownTarget,
        ) <==> forall|i: int|
            0 <= i < targets.len() ==> !((#[trigger] targets[i]).vendor_id == identity.vendor_id
                && targets[i].product_code == identity.product_code),
        authorized(targets, identity) matches Err(fault) ==> fault is UnknownTarget || exists|
            i: int,
        |
            0 <= i < targets.len() && (#[trigger] targets[i]).vendor_id == identity.vendor_id
                && targets[i].product_code == identity.product_code && (
            targets[i].support matches SupportView::Disabled { reason } && fault == (
            PolicyFault::DisabledTarget { profile_id: targets[i].profile_id, reason })),
{
    if exists|i: int| sells(targets, i, identity.vendor_id, identity.product_code) {
        let i = choose|i: int| sells(targets, i, identity.vendor_id, identity.product_code);
        assert(targets[i].vendor_id == identity.vendor_id);
    } else {
        assert forall|i: int| 0 <= i < targets.len() implies !((
        #[trigger] targets[i]).vendor_id == identity.vendor_id && targets[i].product_code
            == identity.product_code) by {
            assert(!sells(targets, i, identity.vendor_id, identity.product_code));
        }
    }
}

/// A reread identity renews a prepared update if and only if every field of it is
/// the same and the registry still holds the same entry for it.
pub proof fn revalidation_wants_no_change(
    prepared: PreparedView,
    actual: CanopenView,
    targets: Seq<TargetView>,
)
    requires
        prepared.sound(),
        registry_fault(targets) is None,
    ensures
        revalidated(prepared, actual, targets) is Ok <==> {
            &&& actual.node_id == prepared.target.identity.node_id
            &&& actual.vendor_id == prepared.target.identity.vendor_id
            &&& actual.product_code == prepared.target.identity.product_code
            &&& actual.revision_number == prepared.target.identity.revision_number
            &&& actual.serial_number == prepared.target.identity.serial_number
            &&& targets.contains(prepared.target.target)
        },
        actual != prepared.target.identity ==> revalidated(prepared, actual, targets) == Err::<
            PreparedView,
            PolicyFault,
        >(PolicyFault::IdentityChanged),
        revalidated(prepared, actual, targets) matches Ok(renewed) ==> renewed == prepared,
        actual == prepared.target.identity ==> match authorized(targets, actual) {
            Err(fault) => revalidated(prepared, actual, targets) == Err::<
                PreparedView,
                PolicyFault,
            >(fault),
            Ok(found) => found.target != prepared.target.target ==> revalidated(
                prepared,
                actual,
                targets,
            ) == Err::<PreparedView, PolicyFault>(PolicyFault::ProfileChanged),
        },
{
    authorization_is_by_exact_product(targets, actual);
    if targets.contains(prepared.target.target) && actual == prepared.target.identity {
        let i = choose|i: int| 0 <= i < targets.len() && targets[i] == prepared.target.target;
        the_covering_entry_decides(targets, actual, i);
    }
}

/// A conflict that is reported is one between two entries: they have the same
/// profile ID, or the same vendor and product under two profile IDs.
pub proof fn conflicts_are_between_two_entries(targets: Seq<TargetView>)
    requires
        registry_fault(targets) is Some,
    ensures
        exists|i: int, j: int|
            0 <= i < j < targets.len() && match registry_fault(targets)->0 {
                PolicyFault::DuplicateProfileId(profile_id) => (
                #[trigger] targets[i]).profile_id == profile_id && (
                #[trigger] targets[j]).profile_id == profile_id,
                PolicyFault::DuplicateCanopenIdentity { first, second } => targets[i].profile_id
                    == first && targets[j].profile_id == second && targets[i].vendor_id
                    == targets[j].vendor_id && targets[i].product_code == targets[j].product_code
                    && first != second,
                _ => false,
            },
    decreases targets.len(),
{
    let earlier = targets.drop_last();
    let last = targets.last();
    let j = targets.len() - 1;
    if registry_fault(earlier) is Some {
        conflicts_are_between_two_entries(earlier);
        let (i, k) = choose|i: int, k: int|
            0 <= i < k < earlier.len() && match registry_fault(earlier)->0 {
                PolicyFault::DuplicateProfileId(profile_id) => (
                #[trigger] earlier[i]).profile_id == profile_id && (
                #[trigger] earlier[k]).profile_id == profile_id,
                PolicyFault::DuplicateCanopenIdentity { first, second } => earlier[i].profile_id
                    == first && earlier[k].profile_id == second && earlier[i].vendor_id
                    == earlier[k].vendor_id && earlier[i].product_code == earlier[k].product_code
                    && first != second,
                _ => false,
            };
        assert(targets[i] == earlier[i] && targets[k] == earlier[k]);
    } else if names(earlier, last.profile_id) {
        let i = choose|i: int|
            0 <= i < earlier.len() && #[trigger] earlier[i].profile_id == last.profile_id;
        assert(targets[i] == earlier[i] && targets[j] == last);
    } else {
        let i = choose|i: int| sells(earlier, i, last.vendor_id, last.product_code);
        assert(earlier[i].profile_id != last.profile_id);
        assert(targets[i] == earlier[i] && targets[j] == last);
    }
}

/// The conflict that is reported is that of the first entry that conflicts with an
/// earlier one: that they share the profile ID, and only otherwise that they share
/// the vendor and the product.
pub proof fn the_first_conflict_is_named(targets: Seq<TargetView>, i: int, j: int)
    requires
        0 <= i < j < targets.len(),
        registry_fault(targets.take(j)) is None,
    ensures
        targets[i].profile_id == targets[j].profile_id ==> registry_fault(targets) == Some(
            PolicyFault::DuplicateProfileId(targets[j].profile_id),
        ),
        targets[i].vendor_id == targets[j].vendor_id && targets[i].product_code
            == targets[j].product_code && (forall|k: int|
            0 <= k < j ==> (#[trigger] targets[k]).profile_id != targets[j].profile_id)
            ==> registry_fault(targets) == Some(
            PolicyFault::DuplicateCanopenIdentity {
                first: targets[i].profile_id,
                second: targets[j].profile_id,
            },
        ),
    decreases targets.len(),
{
    let earlier = targets.drop_last();
    if j < targets.len() - 1 {
        assert(earlier.take(j) =~= targets.take(j));
        the_first_conflict_is_named(earlier, i, j);
    } else {
        assert(targets.take(j) =~= earlier);
        assert(earlier[i] == targets[i]);
        let last = targets[j];
        if targets[i].vendor_id == last.vendor_id && targets[i].product_code
            == last.product_code {
            assert(sells(earlier, i, last.vendor_id, last.product_code));
            let k = choose|k: int| sells(earlier, k, last.vendor_id, last.product_code);
            if k != i {
                if k < i {
                    registry_entries_are_distinct(earlier, k, i);
                } else {
                    registry_entries_are_distinct(earlier, i, k);
                }
            }
        }
    }
}

/// Policy errors are seen as what they are, field by field.
pub proof fn policy_errors_are_seen_as_they_are(error: PolicyError)
    ensures
        match error {
            PolicyError::EmptyProfileId => error@ is EmptyProfileId,
            PolicyError::InvalidProfileIdentity { profile_id, field, value } =>
            error@ is InvalidProfileIdentity && error@->InvalidProfileIdentity_profile_id
                == profile_id@ && error@->field == field@ && error@->value == value,
            PolicyError::EmptyFirmwareIds(profile_id) => error@ is EmptyFirmwareIds
                && error@->EmptyFirmwareIds_0 == profile_id@,
            PolicyError::DuplicateFirmwareId(profile_id) => error@ is DuplicateFirmwareId
                && error@->DuplicateFirmwareId_0 == profile_id@,
            PolicyError::DuplicateProfileId(profile_id) => error@ is DuplicateProfileId
                && error@->DuplicateProfileId_0 == profile_id@,
            PolicyError::DuplicateCanopenIdentity { first, second } =>
            error@ is DuplicateCanopenIdentity && error@->first == first@ && error@->second
                == second@,
            PolicyError::UnknownTarget => error@ is UnknownTarget,
            PolicyError::DisabledTarget { profile_id, reason } => error@ is DisabledTarget
                && error@->DisabledTarget_profile_id == profile_id@ && error@->reason == reason@,
            PolicyError::DeviceMismatch { expected, actual } => error@ is DeviceMismatch
                && error@->DeviceMismatch_expected == expected && error@->DeviceMismatch_actual
                == actual,
            PolicyError::FirmwareMismatch(firmware_id) => error@ is FirmwareMismatch
                && error@->FirmwareMismatch_0 == firmware_id,
            PolicyError::StartAddressMismatch { expected, actual } => error@ is StartAddressMismatch
                && error@->StartAddressMismatch_expected == expected
                && error@->StartAddressMismatch_actual == actual,
            PolicyError::EncryptionRequired => error@ is EncryptionRequired,
            PolicyError::IdentityChanged => error@ is IdentityChanged,
            PolicyError::ProfileChanged => error@ is ProfileChanged,
            PolicyError::ReadyExpired => error@ is ReadyExpired,
        },
{
}

} // verus!
