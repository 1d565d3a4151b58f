//! What an update reports, needs and can fail with.

use std::sync::atomic::{AtomicBool, Ordering};
use std::sync::Arc;

use vstd::prelude::*;

use crate::artifact::{ImageView, ImgArtifact};
use crate::clock::Duration;
use crate::identity::{IapIdentity, IapView};
use crate::policy::{
    IapPolicy, PolicyError, PolicyFault, PolicyView, RegisteredTarget, SupportPolicy, SupportView,
    TargetView,
};
use crate::wire::Frame;

verus! {

/// CAN IDs of requests start here; the node ID is added.
pub const TX_BASE: u16 = 0x780;

/// CAN IDs of answers start here; the node ID is added.
pub const RX_BASE: u16 = 0x680;

/// A flag that any holder can raise and none can lower.
///
/// Its holders may be on different threads, so what it holds is no part of a
/// token's value in proofs. Contracts say which call was made on it.
#[derive(Debug)]
pub struct CancellationToken {
    cancelled: Arc<AtomicBool>,
}

impl CancellationToken {
    /// The flag is one that was made as `flag`.
    pub closed spec fn made_with(&self, flag: bool) -> bool {
        call_ensures(AtomicBool::new, (flag,), *self.cancelled)
    }

    /// The flag was set to `flag`.
    pub closed spec fn set_to(&self, flag: bool) -> bool {
        call_ensures(AtomicBool::store, (&*self.cancelled, flag, Ordering::SeqCst), ())
    }

    /// The flag was read as `flag`.
    pub closed spec fn reads(&self, flag: bool) -> bool {
        call_ensures(AtomicBool::load, (&*self.cancelled, Ordering::SeqCst), flag)
    }

    /// A flag of its own, lowered.
    pub fn new() -> (token: CancellationToken)
        ensures
            token.made_with(false),
    {
        CancellationToken { cancelled: Arc::new(AtomicBool::new(false)) }
    }

    /// Raise the flag, for every clone of this token.
    pub fn cancel(&self)
        ensures
            self.set_to(true),
    {
        self.cancelled.store(true, Ordering::SeqCst);
    }

    /// Whether the flag is raised at this moment, which another thread may have
    /// done.
    pub fn is_cancelled(&self) -> (raised: bool)
        ensures
            self.reads(raised),
    {
        self.cancelled.load(Ordering::SeqCst)
    }
}

impl Clone for CancellationToken {
    /// Another holder of the same flag.
    fn clone(&self) -> (copy: CancellationToken)
        ensures
            copy == *self,
    {
        CancellationToken { cancelled: self.cancelled.clone() }
    }
}

impl Default for CancellationToken {
    fn default() -> (token: CancellationToken)
        ensures
            token.made_with(false),
    {
        CancellationToken::new()
    }
}

#[derive(Debug, Clone, Copy, PartialEq, Eq, Structural)]
pub enum FlashStage {
    Resetting,
    EnteringBootloader,
    IdentityVerified,
    StartingDownload,
    Transferring,
    Finalizing,
    Verifying,
}

#[derive(Debug, Clone, Copy, PartialEq, Eq)]
pub enum FlashEvent {
    Stage(FlashStage),
    IapIdentity(IapIdentity),
    Progress { written: usize, total: usize },
}

/// What an event says.
pub enum EventView {
    Stage(FlashStage),
    IapIdentity(IapView),
    Progress { written: nat, total: nat },
}

impl View for FlashEvent {
    type V = EventView;

    open spec fn view(&self) -> EventView {
        match *self {
            FlashEvent::Stage(stage) => EventView::Stage(stage),
            FlashEvent::IapIdentity(identity) => EventView::IapIdentity(identity@),
            FlashEvent::Progress { written, total } => EventView::Progress {
                written: written as nat,
                total: total as nat,
            },
        }
    }
}

#[derive(Debug, Clone, Copy)]
pub struct FlashOptions {
    /// Quiet time after `Reset_Ack` before the first Enter-IAP knock. Purely an
    /// optimization: knocking during the reboot is harmless but wasted.
    pub knock_start_delay: Duration,
    /// Gap between Enter-IAP knocks, which is also how long each knock listens
    /// for its answer.
    pub knock_interval: Duration,
    /// How long to keep knocking, measured from the first knock. Must outlast
    /// the bootloader's own timeout so a missed window is reported as such
    /// rather than mistaken for a dead device.
    pub knock_window: Duration,
    pub reset_timeout: Duration,
    pub start_timeout: Duration,
    pub segment_timeout: Duration,
    pub final_timeout: Duration,
    pub verify_timeout: Duration,
    pub reset_attempts: u8,
    /// CAN frames to hand the transport before pausing for `tx_burst_pause`.
    pub tx_burst_frames: usize,
    pub tx_burst_pause: Duration,
}

impl Default for FlashOptions {
    /// Timing measured on hardware. The bootloader starts answering about
    /// 1184 ms after a reset and jumps to the application at about 2397 ms, so
    /// knocking from 400 ms to 3500 ms covers its window with wide margin at
    /// both ends. Four frames per millisecond stays well under the line rate of
    /// a 1 Mbit/s link and does not lean on a transmit queue.
    fn default() -> (options: FlashOptions)
        ensures
            options.knock_start_delay.nanos == 400_000_000,
            options.knock_interval.nanos == 25_000_000,
            options.knock_window.nanos == 3_500_000_000,
            options.reset_timeout.nanos == 3_000_000_000,
            options.start_timeout.nanos == 20_000_000_000,
            options.segment_timeout.nanos == 3_000_000_000,
            options.final_timeout.nanos == 20_000_000_000,
            options.verify_timeout.nanos == 20_000_000_000,
            options.reset_attempts == 2,
            options.tx_burst_frames == 4,
            options.tx_burst_pause.nanos == 1_000_000,
            options_fault(options) is None,
    {
        FlashOptions {
            knock_start_delay: Duration::from_millis(400),
            knock_interval: Duration::from_millis(25),
            knock_window: Duration::from_millis(3500),
            reset_timeout: Duration::from_secs(3),
            start_timeout: Duration::from_secs(20),
            segment_timeout: Duration::from_secs(3),
            final_timeout: Duration::from_secs(20),
            verify_timeout: Duration::from_secs(20),
            reset_attempts: 2,
            tx_burst_frames: 4,
            tx_burst_pause: Duration::from_millis(1),
        }
    }
}

#[derive(Debug, Clone, Copy, PartialEq, Eq)]
pub struct FlashOutcome {
    iap_identity: IapIdentity,
}

impl View for FlashOutcome {
    type V = IapView;

    closed spec fn view(&self) -> IapView {
        self.iap_identity@
    }
}

impl FlashOutcome {
    /// The outcome of an update of the bootloader that gave `iap_identity`.
    pub(crate) fn of(iap_identity: IapIdentity) -> (outcome: FlashOutcome)
        ensures
            outcome@ == iap_identity@,
    {
        FlashOutcome { iap_identity }
    }

    pub fn iap_identity(self) -> (iap_identity: IapIdentity)
        ensures
            iap_identity@ == self@,
    {
        self.iap_identity
    }
}

#[allow(inconsistent_fields)]
#[derive(Debug)]
pub enum FlashError {
    Policy(PolicyError),
    Cancelled { stage: FlashStage, recovery_required: bool },
    /// The CAN transport failed.
    Transport { stage: FlashStage, detail: String, recovery_required: bool },
    /// No unambiguous acknowledgement came in time.
    AckTimeout { stage: FlashStage, recovery_required: bool },
    /// The device answered with something else than success.
    Rejected { stage: FlashStage, payload: Vec<u8>, recovery_required: bool },
    InvalidIapIdentity { detail: String },
    /// The bootloader's device ID is not the authorized one.
    IapDeviceMismatch { expected: u32, actual: u32 },
    /// The bootloader's firmware ID is not that of the artifact.
    IapFirmwareMismatch { expected: u32, actual: u32 },
    InvalidOptions(&'static str),
    /// The node ID is outside 1..=127.
    InvalidNode(u8),
}

/// What a failed update says.
#[allow(inconsistent_fields)]
pub enum FlashFault {
    Policy(PolicyFault),
    Cancelled { stage: FlashStage, recovery_required: bool },
    Transport { stage: FlashStage, detail: Seq<char>, recovery_required: bool },
    AckTimeout { stage: FlashStage, recovery_required: bool },
    Rejected { stage: FlashStage, payload: Seq<u8>, recovery_required: bool },
    InvalidIapIdentity { detail: Seq<char> },
    IapDeviceMismatch { expected: u32, actual: u32 },
    IapFirmwareMismatch { expected: u32, actual: u32 },
    InvalidOptions(Seq<char>),
    InvalidNode(u8),
}

impl View for FlashError {
    type V = FlashFault;

    open spec fn view(&self) -> FlashFault {
        match *self {
            FlashError::Policy(error) => FlashFault::Policy(error@),
            FlashError::Cancelled { stage, recovery_required } => FlashFault::Cancelled {
                stage,
                recovery_required,
            },
            FlashError::Transport { stage, detail, recovery_required } => FlashFault::Transport {
                stage,
                detail: detail@,
                recovery_required,
            },
            FlashError::AckTimeout { stage, recovery_required } => FlashFault::AckTimeout {
                stage,
                recovery_required,
            },
            FlashError::Rejected { stage, payload, recovery_required } => FlashFault::Rejected {
                stage,
                payload: payload@,
                recovery_required,
            },
            FlashError::InvalidIapIdentity { detail } => FlashFault::InvalidIapIdentity {
                detail: detail@,
            },
            FlashError::IapDeviceMismatch { expected, actual } => FlashFault::IapDeviceMismatch {
                expected,
                actual,
            },
            FlashError::IapFirmwareMismatch { expected, actual } =>
            FlashFault::IapFirmwareMismatch { expected, actual },
            FlashError::InvalidOptions(reason) => FlashFault::InvalidOptions(reason@),
            FlashError::InvalidNode(node_id) => FlashFault::InvalidNode(node_id),
        }
    }
}

impl FlashFault {
    /// Whether the device may be left without a working application.
    pub open spec fn needs_recovery(self) -> bool {
        match self {
            FlashFault::Cancelled { recovery_required, .. } => recovery_required,
            FlashFault::Transport { recovery_required, .. } => recovery_required,
            FlashFault::AckTimeout { recovery_required, .. } => recovery_required,
            FlashFault::Rejected { recovery_required, .. } => recovery_required,
            _ => false,
        }
    }
}

impl FlashError {
    /// Whether the device may be left without a working application.
    pub fn recovery_required(&self) -> (required: bool)
        ensures
            required == self@.needs_recovery(),
    {
        match self {
            FlashError::Cancelled { recovery_required, .. } => *recovery_required,
            FlashError::Transport { recovery_required, .. } => *recovery_required,
            FlashError::AckTimeout { recovery_required, .. } => *recovery_required,
            FlashError::Rejected { recovery_required, .. } => *recovery_required,
            _ => false,
        }
    }
}

impl From<PolicyError> for FlashError {
    fn from(error: PolicyError) -> (converted: FlashError) {
        FlashError::Policy(error)
    }
}

impl vstd::std_specs::convert::FromSpecImpl<PolicyError> for FlashError {
    open spec fn obeys_from_spec() -> bool {
        true
    }

    open spec fn from_spec(error: PolicyError) -> FlashError {
        FlashError::Policy(error)
    }
}

/// The first option that cannot be used.
pub open spec fn options_fault(options: FlashOptions) -> Option<FlashFault> {
    if options.reset_attempts == 0 {
        Some(FlashFault::InvalidOptions("attempt counts must be non-zero"@))
    } else if options.tx_burst_frames == 0 {
        Some(FlashFault::InvalidOptions("tx_burst_frames must be non-zero"@))
    } else if options.knock_interval.nanos == 0 {
        Some(FlashFault::InvalidOptions("knock_interval must be non-zero"@))
    } else {
        None
    }
}

/// Refuse options that no session can run with.
pub fn validate_options(options: &FlashOptions) -> (result: Result<(), FlashError>)
    ensures
        match result {
            Ok(_) => options_fault(*options) is None,
            Err(error) => options_fault(*options) == Some(error@),
        },
{
    if options.reset_attempts == 0 {
        return Err(FlashError::InvalidOptions("attempt counts must be non-zero"));
    }
    if options.tx_burst_frames == 0 {
        return Err(FlashError::InvalidOptions("tx_burst_frames must be non-zero"));
    }
    if options.knock_interval.is_zero() {
        return Err(FlashError::InvalidOptions("knock_interval must be non-zero"));
    }
    Ok(())
}

/// End the session where cancellation was asked for.
pub fn check_cancel(cancelled: bool, stage: FlashStage, recovery_required: bool) -> (result: Result<
    (),
    FlashError,
>)
    ensures
        match result {
            Ok(_) => !cancelled,
            Err(error) => cancelled && error@ == (FlashFault::Cancelled {
                stage,
                recovery_required,
            }),
        },
{
    if cancelled {
        return Err(FlashError::Cancelled { stage, recovery_required });
    }
    Ok(())
}

/// The payload of an acknowledgement that reports success.
pub open spec fn success() -> Seq<u8> {
    seq![1u8]
}

/// End the session where the device did not report success.
pub fn require_success(ack: &Frame, stage: FlashStage, recovery_required: bool) -> (result: Result<
    (),
    FlashError,
>)
    ensures
        match result {
            Ok(_) => ack@.data == success(),
            Err(error) => ack@.data != success() && error@ == (FlashFault::Rejected {
                stage,
                payload: ack@.data,
                recovery_required,
            }),
        },
{
    let data = ack.data();
    if data.len() == 1 && data[0] == 1 {
        assert(data@ =~= success());
        return Ok(());
    }
    Err(
        FlashError::Rejected {
            stage,
            payload: vstd::slice::slice_to_vec(data),
            recovery_required,
        },
    )
}

/// A fault with the recovery flag of an ambiguous exchange.
pub open spec fn flagged(fault: FlashFault, recovery_required: bool) -> FlashFault {
    match fault {
        FlashFault::Transport { stage, detail, .. } => FlashFault::Transport {
            stage,
            detail,
            recovery_required,
        },
        FlashFault::AckTimeout { stage, .. } => FlashFault::AckTimeout { stage, recovery_required },
        other => other,
    }
}

/// Set the recovery flag of an error that leaves an exchange ambiguous.
pub fn with_recovery(error: FlashError, recovery_required: bool) -> (flagged_error: FlashError)
    ensures
        flagged_error@ == flagged(error@, recovery_required),
{
    match error {
        FlashError::Transport { stage, detail, .. } => FlashError::Transport {
            stage,
            detail,
            recovery_required,
        },
        FlashError::AckTimeout { stage, .. } => FlashError::AckTimeout { stage, recovery_required },
        other => other,
    }
}

/// A profile that the caller names, and an image that its policy allows.
pub struct AssertedView {
    pub profile_id: Seq<char>,
    pub policy: PolicyView,
    pub image: ImageView,
}

impl AssertedView {
    /// The profile's policy lets the image be written.
    pub open spec fn sound(self) -> bool {
        self.policy.fault(self.image) is None && self.image.sound()
    }
}

/// What comes of naming `target` for `image`.
pub open spec fn asserted(target: TargetView, image: ImageView) -> Result<
    AssertedView,
    PolicyFault,
> {
    match target.support {
        SupportView::Enabled(policy) => match policy.fault(image) {
            Some(fault) => Err(fault),
            None => Ok(AssertedView { profile_id: target.profile_id, policy, image }),
        },
        SupportView::Disabled { .. } => Err(PolicyFault::ProfileChanged),
    }
}

/// Permission to write a device that cannot prove which device it is.
///
/// A capability of type `ReadyToFlash` binds an update to one exact unit by
/// requiring a complete CANopen identity read from the very bus it is about to
/// write. A bootloader implements no CANopen at all, so a device whose
/// application is gone cannot answer that read and would otherwise be beyond
/// repair.
///
/// This substitutes the caller's assertion of which profile the device follows,
/// and substitutes nothing else. The artifact must still satisfy that profile's
/// policy, and a session still refuses to write unless the identity the
/// bootloader reports on entering IAP agrees with both the policy and the
/// artifact. What is given up is the binding to one specific serial number: the
/// caller is stating it has identified the device some other way, and is
/// answerable for that.
#[derive(Debug)]
pub struct AssertedTarget {
    profile_id: String,
    policy: IapPolicy,
    artifact: ImgArtifact,
}

impl View for AssertedTarget {
    type V = AssertedView;

    closed spec fn view(&self) -> AssertedView {
        AssertedView {
            profile_id: self.profile_id@,
            policy: self.policy@,
            image: self.artifact@,
        }
    }
}

impl Clone for AssertedTarget {
    fn clone(&self) -> (copy: AssertedTarget)
        ensures
            copy@ == self@,
    {
        proof {
            use_type_invariant(self);
        }
        AssertedTarget {
            profile_id: self.profile_id.clone(),
            policy: self.policy.clone(),
            artifact: self.artifact.clone(),
        }
    }
}

impl AssertedTarget {
    /// The profile's policy lets the image be written.
    #[verifier::type_invariant]
    pub open spec fn well_formed(self) -> bool {
        self@.sound()
    }

    /// `target` must come from the caller's own registry, so that asserting a
    /// profile still cannot invent one.
    pub fn assert_profile(target: &RegisteredTarget, artifact: ImgArtifact) -> (result: Result<
        AssertedTarget,
        PolicyError,
    >)
        ensures
            match result {
                Ok(permission) => asserted(target@, artifact@) == Ok::<AssertedView, PolicyFault>(
                    permission@,
                ),
                Err(error) => asserted(target@, artifact@) == Err::<AssertedView, PolicyFault>(
                    error@,
                ),
            },
    {
        proof {
            use_type_invariant(&artifact);
        }
        match target.support() {
            SupportPolicy::Enabled(policy) => match policy.validate_artifact(&artifact) {
                Ok(_) => Ok(
                    AssertedTarget {
                        profile_id: target.profile_id().to_owned(),
                        policy: policy.clone(),
                        artifact,
                    },
                ),
                Err(error) => Err(error),
            },
            SupportPolicy::Disabled { .. } => Err(PolicyError::ProfileChanged),
        }
    }

    pub fn profile_id(&self) -> (profile_id: &str)
        ensures
            profile_id@ == self@.profile_id,
    {
        self.profile_id.as_str()
    }

    pub fn policy(&self) -> (policy: &IapPolicy)
        ensures
            policy@ == self@.policy,
            self@.sound(),
    {
        proof {
            use_type_invariant(self);
        }
        &self.policy
    }

    pub fn artifact(&self) -> (artifact: &ImgArtifact)
        ensures
            artifact@ == self@.image,
    {
        &self.artifact
    }
}

/// Options can be used if and only if a Reset is sent at least once, a burst is
/// not empty and knocks are some time apart.
pub proof fn usable_options_are_not_empty(options: FlashOptions)
    ensures
        options_fault(options) is None <==> options.reset_attempts >= 1 && options.tx_burst_frames
            >= 1 && options.knock_interval.nanos >= 1,
        options_fault(options) matches Some(fault) ==> fault is InvalidOptions,
{
}

/// A profile can be asserted for an image if and only if it is enabled and the
/// image is for exactly its device, one of its firmwares and its address, and is
/// encrypted where that is required. Nothing but profile and image goes into it.
pub proof fn assertions_excuse_nothing(target: TargetView, image: ImageView)
    ensures
        asserted(target, image) is Ok <==> (target.support matches SupportView::Enabled(policy)
            && image.device_id() == policy.device_id && policy.firmware_ids.contains(
            image.firmware_id(),
        ) && image.start_address() == policy.start_address && (policy.require_encrypted
            ==> image.encryption() is Encrypted)),
        asserted(target, image) matches Ok(permission) ==> permission.profile_id
            == target.profile_id && permission.image == image && target.support
            == SupportView::Enabled(permission.policy),
        target.support is Disabled ==> asserted(target, image) == Err::<AssertedView, PolicyFault>(
            PolicyFault::ProfileChanged,
        ),
{
}

/// Flagging changes the flag of an ambiguous failure and nothing else: the stage
/// and the detail stay, and failures of any other sort stay as they are.
pub proof fn flagging_changes_the_flag_alone(fault: FlashFault, flag: bool)
    ensures
        match fault {
            FlashFault::Transport { stage, detail, recovery_required } => flagged(fault, flag) == (
            FlashFault::Transport { stage, detail, recovery_required: flag }),
            FlashFault::AckTimeout { stage, recovery_required } => flagged(fault, flag) == (
            FlashFault::AckTimeout { stage, recovery_required: flag }),
            _ => flagged(fault, flag) == fault,
        },
        (fault is Transport || fault is AckTimeout) ==> (flagged(fault, flag).needs_recovery()
            == flag),
{
}

/// Whether recovery is required is what a failure's own flag says; a failure that
/// has none comes before anything destructive.
pub proof fn recovery_is_the_flag(fault: FlashFault)
    ensures
        fault matches FlashFault::Cancelled { recovery_required, .. } ==> fault.needs_recovery()
            == recovery_required,
        fault matches FlashFault::Transport { recovery_required, .. } ==> fault.needs_recovery()
            == recovery_required,
        fault matches FlashFault::AckTimeout { recovery_required, .. } ==> fault.needs_recovery()
            == recovery_required,
        fault matches FlashFault::Rejected { recovery_required, .. } ==> fault.needs_recovery()
            == recovery_required,
        fault.needs_recovery() ==> fault is Cancelled || fault is Transport || fault is AckTimeout
            || fault is Rejected,
{
}

/// Events and errors are seen as what they are, field by field.
pub proof fn events_and_errors_are_seen_as_they_are(event: FlashEvent, error: FlashError)
    ensures
        match event {
            FlashEvent::Stage(stage) => event@ is Stage && event@->Stage_0 == stage,
            FlashEvent::IapIdentity(identity) => event@ is IapIdentity && event@->IapIdentity_0
                == identity@,
            FlashEvent::Progress { written, total } => event@ is Progress && event@->written
                == written && event@->total == total,
        },
        match error {
            FlashError::Policy(cause) => error@ is Policy && error@->Policy_0 == cause@,
            FlashError::Cancelled { stage, recovery_required } => error@ is Cancelled
                && error@->Cancelled_stage == stage && error@->Cancelled_recovery_required
                == recovery_required,
            FlashError::Transport { stage, detail, recovery_required } => error@ is Transport
                && error@->Transport_stage == stage && error@->Transport_detail == detail@
                && error@->Transport_recovery_required == recovery_required,
            FlashError::AckTimeout { stage, recovery_required } => error@ is AckTimeout
                && error@->AckTimeout_stage == stage && error@->AckTimeout_recovery_required
                == recovery_required,
            FlashError::Rejected { stage, payload, recovery_required } => error@ is Rejected
                && error@->Rejected_stage == stage && error@->payload == payload@
                && error@->Rejected_recovery_required == recovery_required,
            FlashError::InvalidIapIdentity { detail } => error@ is InvalidIapIdentity
                && error@->InvalidIapIdentity_detail == detail@,
            FlashError::IapDeviceMismatch { expected, actual } => error@ is IapDeviceMismatch
                && error@->IapDeviceMismatch_expected == expected
                && error@->IapDeviceMismatch_actual == actual,
            FlashError::IapFirmwareMismatch { expected, actual } => error@ is IapFirmwareMismatch
                && error@->IapFirmwareMismatch_expected == expected
                && error@->IapFirmwareMismatch_actual == actual,
            FlashError::InvalidOptions(reason) => error@ is InvalidOptions
                && error@->InvalidOptions_0 == reason@,
            FlashError::InvalidNode(node_id) => error@ is InvalidNode && error@->InvalidNode_0
                == node_id,
        },
{
}

/// Which option cannot be used is told by name, the attempts first, then the
/// burst, then the interval.
pub proof fn unusable_options_are_named(options: FlashOptions)
    ensures
        options.reset_attempts == 0 ==> options_fault(options) == Some(
            FlashFault::InvalidOptions("attempt counts must be non-zero"@),
        ),
        options.reset_attempts > 0 && options.tx_burst_frames == 0 ==> options_fault(options)
            == Some(FlashFault::InvalidOptions("tx_burst_frames must be non-zero"@)),
        options.reset_attempts > 0 && options.tx_burst_frames > 0 && options.knock_interval.nanos
            == 0 ==> options_fault(options) == Some(
            FlashFault::InvalidOptions("knock_interval must be non-zero"@),
        ),
{
}

} // verus!
