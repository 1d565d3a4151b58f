//! What the public functions answer, said of their arguments and results.

use vstd::prelude::*;

use crate::artifact::{ArtifactError, EncryptionMode, ImageView, ImgArtifact, ImgLimits};
use crate::clock::Duration;
use crate::engine;
use crate::engine::{FlashError, FlashOptions, FlashStage};
use crate::policy;
use crate::policy::{
    AuthorizedTarget, IapPolicy, PolicyError, PreparedUpgrade, ReadyToFlash, TargetClassification,
    TargetRegistry,
};
use crate::identity::CanopenIdentity;
use crate::scan;
use crate::scan::{ScanError, ScanSession};
use crate::session::FlashSession;
use crate::wire;
use crate::wire::{Frame, FrameError, FunctionCode};

verus! {

/// A capability can be redeemed until it is two seconds old, and gives what it was
/// issued for.
pub proof fn capabilities_last_two_seconds(
    ready: ReadyToFlash,
    age: Duration,
    result: Result<PreparedUpgrade, PolicyError>,
)
    requires
        call_ensures(ReadyToFlash::redeemed_at, (ready, age), result),
    ensures
        result is Ok <==> age.nanos <= 2_000_000_000,
        result matches Ok(prepared) ==> prepared@ == ready@,
        result matches Err(error) ==> error is ReadyExpired,
{
}

/// A policy can be made if and only if it lists some firmware, and none twice. It
/// then says what it was made with.
pub proof fn policies_list_firmwares_once(
    device_id: u32,
    firmware_ids: Vec<u32>,
    start_address: u32,
    require_encrypted: bool,
    result: Result<IapPolicy, PolicyError>,
)
    requires
        call_ensures(
            IapPolicy::new,
            (device_id, firmware_ids, start_address, require_encrypted),
            result,
        ),
    ensures
        result is Ok <==> firmware_ids@.len() > 0 && forall|i: int, j: int|
            0 <= i < j < firmware_ids@.len() ==> #[trigger] firmware_ids@[i]
                != #[trigger] firmware_ids@[j],
        result matches Ok(made) ==> made@.device_id == device_id && made@.firmware_ids
            == firmware_ids@ && made@.start_address == start_address && made@.require_encrypted
            == require_encrypted,
        result matches Err(error) ==> (error is EmptyFirmwareIds <==> firmware_ids@.len() == 0)
            && (error is EmptyFirmwareIds || error is DuplicateFirmwareId),
{
}

/// A policy accepts an artifact if and only if it is for exactly the device, one of
/// the firmwares and the address, and encrypted where that is required.
pub proof fn artifacts_are_validated_exactly(
    made: IapPolicy,
    artifact: ImgArtifact,
    result: Result<(), PolicyError>,
)
    requires
        call_ensures(IapPolicy::validate_artifact, (&made, &artifact), result),
    ensures
        result is Ok <==> {
            &&& artifact@.device_id() == made@.device_id
            &&& exists|i: int|
                0 <= i < made@.firmware_ids.len() && #[trigger] made@.firmware_ids[i]
                    == artifact@.firmware_id()
            &&& artifact@.start_address() == made@.start_address
            &&& made@.require_encrypted ==> artifact@.encryption() == EncryptionMode::Encrypted
        },
{
    policy::policies_allow_exact_matches(made@, artifact@);
}

/// What a registry knows of a device is what its entry for exactly the device's
/// vendor and product says; without one it knows nothing.
pub proof fn devices_are_classified_by_exact_product(
    registry: TargetRegistry,
    identity: CanopenIdentity,
    classification: TargetClassification,
)
    requires
        call_ensures(TargetRegistry::classify, (&registry, identity), classification),
    ensures
        classification is Unknown <==> forall|i: int|
            0 <= i < registry@.len() ==> !((#[trigger] registry@[i]).vendor_id
                == identity@.vendor_id && registry@[i].product_code == identity@.product_code),
        match classification {
            TargetClassification::Enabled(target) => registry@.contains(target@)
                && target@.vendor_id == identity@.vendor_id && target@.product_code
                == identity@.product_code && target@.support is Enabled,
            TargetClassification::Disabled(target) => registry@.contains(target@)
                && target@.vendor_id == identity@.vendor_id && target@.product_code
                == identity@.product_code && target@.support is Disabled,
            TargetClassification::Unknown => true,
        },
{
    policy::authorization_is_by_exact_product(registry@, identity@);
    if exists|i: int|
        policy::sells(registry@, i, identity@.vendor_id, identity@.product_code) {
        let i = choose|i: int|
            policy::sells(registry@, i, identity@.vendor_id, identity@.product_code);
        assert(registry@[i].vendor_id == identity@.vendor_id);
    }
}

/// An artifact is bound to a device if and only if the policy of the device's entry
/// accepts it, and then both are what was handed in.
pub proof fn artifacts_are_bound_by_policy(
    target: AuthorizedTarget,
    artifact: ImgArtifact,
    result: Result<PreparedUpgrade, PolicyError>,
)
    requires
        call_ensures(PreparedUpgrade::bind, (target, artifact), result),
    ensures
        result is Ok <==> (target@.target.support matches policy::SupportView::Enabled(allowed)
            && artifact@.device_id() == allowed.device_id && allowed.firmware_ids.contains(
            artifact@.firmware_id(),
        ) && artifact@.start_address() == allowed.start_address && (allowed.require_encrypted
            ==> artifact@.encryption() == EncryptionMode::Encrypted)),
        result matches Ok(prepared) ==> prepared@.target == target@ && prepared@.image
            == artifact@,
{
}

/// Cancellation is an error if and only if it was asked for, with the stage and the
/// flag that were handed in.
pub proof fn cancellation_is_an_error(
    cancelled: bool,
    stage: FlashStage,
    recovery_required: bool,
    result: Result<(), FlashError>,
)
    requires
        call_ensures(engine::check_cancel, (cancelled, stage, recovery_required), result),
    ensures
        result is Err <==> cancelled,
        result matches Err(error) ==> (error matches FlashError::Cancelled {
            stage: at,
            recovery_required: flag,
        } && at == stage && flag == recovery_required),
{
}

/// An acknowledgement reports success if and only if it carries the one byte 1.
pub proof fn success_is_the_one_byte_one(
    ack: Frame,
    stage: FlashStage,
    recovery_required: bool,
    result: Result<(), FlashError>,
)
    requires
        call_ensures(engine::require_success, (&ack, stage, recovery_required), result),
    ensures
        result is Ok <==> ack@.data.len() == 1 && ack@.data[0] == 1,
        result matches Err(error) ==> (error matches FlashError::Rejected {
            stage: at,
            payload,
            recovery_required: flag,
        } && at == stage && payload@ == ack@.data && flag == recovery_required),
{
    if ack@.data.len() == 1 && ack@.data[0] == 1 {
        assert(ack@.data =~= seq![1u8]);
    }
}

/// An update can start if and only if the options can be used, and a recovery if,
/// besides, the node is one of 1 to 127.
pub proof fn updates_start_with_usable_options(
    ready: ReadyToFlash,
    node_id: u8,
    target: engine::AssertedTarget,
    options: FlashOptions,
    started: Result<FlashSession, FlashError>,
    recovered: Result<FlashSession, FlashError>,
)
    requires
        call_ensures(FlashSession::flash, (ready, options), started),
        call_ensures(FlashSession::recover, (node_id, &target, options), recovered),
    ensures
        started is Ok <==> options.reset_attempts >= 1 && options.tx_burst_frames >= 1
            && options.knock_interval.nanos >= 1,
        started matches Ok(update) ==> update@.node_id == ready@.target.identity.node_id
            && update@.ready == Some(ready@) && update@.options == options && update@.phase is Idle,
        recovered is Ok <==> started is Ok && 1 <= node_id <= 127,
        recovered matches Ok(update) ==> update@.node_id == node_id && update@.ready is None
            && update@.options == options && update@.phase is Idle && (update@.job matches Some(job)
            && job.image == target@.image && job.device_id == target@.policy.device_id),
        started is Ok && recovered is Err ==> (recovered matches Err(FlashError::InvalidNode(named))
            && named == node_id),
        started is Err ==> (started matches Err(FlashError::InvalidOptions(_))) && (
        recovered matches Err(FlashError::InvalidOptions(_))),
{
    engine::usable_options_are_not_empty(options);
}

/// A scan can start if and only if each of its nodes is one of 1 to 127; otherwise
/// the first that is not is named. It probes exactly the nodes that were asked for,
/// and a full scan probes every node.
pub proof fn scans_start_with_usable_nodes(
    nodes: Vec<u8>,
    span: Duration,
    result: Result<ScanSession, ScanError>,
    full: ScanSession,
)
    requires
        call_ensures(ScanSession::scan_for_bootloaders, (nodes, span), result),
        call_ensures(ScanSession::scan_all, (span,), full),
    ensures
        result is Ok <==> forall|index: int|
            0 <= index < nodes@.len() ==> 1 <= #[trigger] nodes@[index] <= 127,
        result matches Ok(started) ==> started@.nodes == nodes@ && started@.span == span
            && started@.phase is Idle && started@.unsent == 0,
        result matches Err(error) ==> (error matches ScanError::InvalidNode(node_id) && exists|
            at: int,
        |
            0 <= at < nodes@.len() && #[trigger] nodes@[at] == node_id && !(1 <= node_id <= 127)
                && forall|index: int| 0 <= index < at ==> 1 <= #[trigger] nodes@[index] <= 127),
        full@.nodes.len() == 127,
        forall|index: int| 0 <= index < 127 ==> #[trigger] full@.nodes[index] == index + 1,
        full@.span == span && full@.phase is Idle && full@.unsent == 0,
{
    scan::the_first_unusable_node_is_named(nodes@);
    scan::full_scans_cover_every_node();
}

/// A request can be made if and only if the function is one that is acknowledged,
/// the node is one of 1 to 127 and there are at most 256 bytes; any frame, if the
/// last two hold.
pub proof fn frames_are_made_within_bounds(
    node_id: u8,
    function: FunctionCode,
    data: Vec<u8>,
    made: Result<Frame, FrameError>,
    asked: Result<Frame, FrameError>,
)
    requires
        call_ensures(Frame::new, (node_id, function, data), made),
        call_ensures(Frame::request, (node_id, function, data), asked),
    ensures
        made is Ok <==> 1 <= node_id <= 127 && data@.len() <= 256,
        made matches Ok(frame) ==> frame@.node_id == node_id && frame@.function == function
            && frame@.data == data@,
        asked is Ok <==> made is Ok && (function is ResetRequest || function is EnterIapRequest
            || function is StartDownloadRequest || function is SegmentARequest
            || function is SegmentBRequest || function is FinalDownloadRequest
            || function is VerifyRequest),
        asked matches Ok(frame) ==> frame@.node_id == node_id && frame@.function == function
            && frame@.data == data@,
{
    assert(data@.len() == data.len());
    wire::frames_are_built_within_bounds(node_id, function, data@);
    wire::functions_are_numbered_in_order(function);
}

/// The default options give every stage the time that it takes on hardware, and
/// knock from 400 ms after the reset, every 25 ms, for 3500 ms; the default limits
/// are two mebibytes for a file and one for a binary.
pub proof fn defaults_are_those_measured(options: FlashOptions, limits: ImgLimits)
    requires
        call_ensures(<FlashOptions as Default>::default, (), options),
        call_ensures(<ImgLimits as Default>::default, (), limits),
    ensures
        options.knock_start_delay.nanos == 400 * 1_000_000,
        options.knock_interval.nanos == 25 * 1_000_000,
        options.knock_window.nanos == 3500 * 1_000_000,
        options.reset_timeout.nanos == 3 * 1_000_000_000,
        options.start_timeout.nanos == 20 * 1_000_000_000,
        options.segment_timeout.nanos == 3 * 1_000_000_000,
        options.final_timeout.nanos == 20 * 1_000_000_000,
        options.verify_timeout.nanos == 20 * 1_000_000_000,
        options.reset_attempts == 2,
        options.tx_burst_frames == 4,
        options.tx_burst_pause.nanos == 1_000_000,
        engine::options_fault(options) is None,
        limits.max_file_bytes == 0x20_0000,
        limits.max_bin_bytes == 0x10_0000,
{
}

/// A file is accepted if and only if it breaks no rule, and what is then read is the
/// file itself; otherwise the rule is named.
pub proof fn files_are_read_as_they_are(
    bytes: &[u8],
    limits: ImgLimits,
    result: Result<ImgArtifact, ArtifactError>,
)
    requires
        call_ensures(ImgArtifact::parse, (bytes, limits), result),
    ensures
        result is Ok <==> (ImageView { raw: bytes@ }).fault(limits) is None,
        result matches Ok(artifact) ==> artifact@.raw == bytes@,
        result matches Err(error) ==> (ImageView { raw: bytes@ }).fault(limits) == Some(error),
{
}

} // verus!
