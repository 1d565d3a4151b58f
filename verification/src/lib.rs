//! Strict, product-gated COBS firmware updates over Classic CAN.

pub mod artifact;
pub mod assembler;
pub mod bytes;
pub mod can;
pub mod clock;
pub mod cobs;
pub mod conduct;
pub mod engine;
pub mod guarantees;
pub mod identity;
pub mod policy;
pub mod scan;
pub mod session;
pub mod success;
pub mod surface;
pub mod text;
pub mod wire;

pub use artifact::{ArtifactError, EncryptionMode, ImgArtifact, ImgLimits, IMG_TAG_SIZE};
pub use assembler::FrameAssembler;
pub use can::{CanMessage, MessageId};
pub use clock::Duration;
pub use engine::{
    AssertedTarget, CancellationToken, FlashError, FlashEvent, FlashOptions, FlashOutcome,
    FlashStage,
};
pub use identity::{CanopenIdentity, IapIdentity, IdentityError};
pub use policy::{
    AuthorizedTarget, IapPolicy, PolicyError, PreparedUpgrade, ReadyToFlash, RegisteredTarget,
    SupportPolicy, TargetClassification, TargetRegistry,
};
pub use scan::{BootloaderHit, ScanAction, ScanError, ScanReport, ScanSession};
pub use session::{Action, FlashSession, Reading, Reply};
pub use wire::{Frame, FrameError, FunctionCode, MAX_DATA_LEN};
