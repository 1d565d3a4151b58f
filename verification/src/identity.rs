//! Device identities, from CANopen and from the bootloader.

use vstd::prelude::*;

use crate::bytes;
use crate::text;
use crate::wire;

verus! {

#[derive(Debug, Clone, PartialEq, Eq)]
pub enum IdentityError {
    /// The node ID is outside 1..=127.
    InvalidNode(u8),
    /// The named CANopen identity field is an unprovisioned sentinel.
    Sentinel(&'static str),
    /// The Enter-IAP identity is not exactly 12 bytes long.
    InvalidIapLength { actual: usize },
    /// All fields of the Enter-IAP identity are 0xFFFFFFFF.
    IapIdentityUnavailable,
}

/// The text that describes an identity error.
pub open spec fn described(error: IdentityError) -> Seq<char> {
    match error {
        IdentityError::InvalidNode(node_id) => "node ID "@ + text::decimal(node_id as nat)
            + " is outside 1..=127"@,
        IdentityError::Sentinel(field) => "CANopen identity field "@ + field@
            + " is an unprovisioned sentinel"@,
        IdentityError::InvalidIapLength { actual } => "Enter-IAP identity is "@ + text::decimal(
            actual as nat,
        ) + " bytes, expected exactly 12"@,
        IdentityError::IapIdentityUnavailable =>
        "Enter-IAP identity is unavailable (all fields are 0xFFFFFFFF)"@,
    }
}

impl IdentityError {
    /// The text that describes this error.
    pub fn message(&self) -> (message: String)
        ensures
            message@ == described(*self),
    {
        let mut message = String::new();
        match self {
            IdentityError::InvalidNode(node_id) => {
                message.append("node ID ");
                text::push_decimal(&mut message, *node_id as usize);
                message.append(" is outside 1..=127");
            },
            IdentityError::Sentinel(field) => {
                message.append("CANopen identity field ");
                message.append(field);
                message.append(" is an unprovisioned sentinel");
            },
            IdentityError::InvalidIapLength { actual } => {
                message.append("Enter-IAP identity is ");
                text::push_decimal(&mut message, *actual);
                message.append(" bytes, expected exactly 12");
            },
            IdentityError::IapIdentityUnavailable => {
                message.append("Enter-IAP identity is unavailable (all fields are 0xFFFFFFFF)");
            },
        }
        assert(message@ =~= described(*self));
        message
    }
}

/// The fields of a CANopen identity.
pub struct CanopenView {
    pub node_id: u8,
    pub vendor_id: u32,
    pub product_code: u32,
    pub revision_number: u32,
    pub serial_number: u32,
}

impl CanopenView {
    /// An addressable node with no field left at the sentinel.
    pub open spec fn sound(self) -> bool {
        wire::addressable(self.node_id) && self.vendor_id != u32::MAX && self.product_code
            != u32::MAX && self.revision_number != u32::MAX && self.serial_number != u32::MAX
    }

    /// Why these fields are no identity: the first of them that is at fault.
    pub open spec fn fault(self) -> IdentityError {
        if !wire::addressable(self.node_id) {
            IdentityError::InvalidNode(self.node_id)
        } else if self.vendor_id == u32::MAX {
            IdentityError::Sentinel("vendor_id")
        } else if self.product_code == u32::MAX {
            IdentityError::Sentinel("product_code")
        } else if self.revision_number == u32::MAX {
            IdentityError::Sentinel("revision_number")
        } else {
            IdentityError::Sentinel("serial_number")
        }
    }
}

/// A complete, strictly decoded CANopen 0x1018 snapshot.
#[derive(Debug, Clone, Copy, PartialEq, Eq, Hash, Structural)]
pub struct CanopenIdentity {
    node_id: u8,
    vendor_id: u32,
    product_code: u32,
    revision_number: u32,
    serial_number: u32,
}

impl View for CanopenIdentity {
    type V = CanopenView;

    closed spec fn view(&self) -> CanopenView {
        CanopenView {
            node_id: self.node_id,
            vendor_id: self.vendor_id,
            product_code: self.product_code,
            revision_number: self.revision_number,
            serial_number: self.serial_number,
        }
    }
}

impl CanopenIdentity {
    /// Every identity is complete.
    #[verifier::type_invariant]
    pub open spec fn well_formed(self) -> bool {
        self@.sound()
    }

    pub fn new(
        node_id: u8,
        vendor_id: u32,
        product_code: u32,
        revision_number: u32,
        serial_number: u32,
    ) -> (result: Result<CanopenIdentity, IdentityError>)
        ensures
            ({
                let fields = CanopenView {
                    node_id,
                    vendor_id,
                    product_code,
                    revision_number,
                    serial_number,
                };
                match result {
                    Ok(identity) => fields.sound() && identity@ == fields,
                    Err(error) => !fields.sound() && error == fields.fault(),
                }
            }),
    {
        if !(1 <= node_id && node_id <= 127) {
            return Err(IdentityError::InvalidNode(node_id));
        }
        if vendor_id == u32::MAX {
            return Err(IdentityError::Sentinel("vendor_id"));
        }
        if product_code == u32::MAX {
            return Err(IdentityError::Sentinel("product_code"));
        }
        if revision_number == u32::MAX {
            return Err(IdentityError::Sentinel("revision_number"));
        }
        if serial_number == u32::MAX {
            return Err(IdentityError::Sentinel("serial_number"));
        }
        Ok(CanopenIdentity { node_id, vendor_id, product_code, revision_number, serial_number })
    }

    pub fn node_id(self) -> (node_id: u8)
        ensures
            node_id == self@.node_id,
            self@.sound(),
    {
        proof {
            use_type_invariant(&self);
        }
        self.node_id
    }

    pub fn vendor_id(self) -> (vendor_id: u32)
        ensures
            vendor_id == self@.vendor_id,
    {
        self.vendor_id
    }

    pub fn product_code(self) -> (product_code: u32)
        ensures
            product_code == self@.product_code,
    {
        self.product_code
    }

    pub fn revision_number(self) -> (revision_number: u32)
        ensures
            revision_number == self@.revision_number,
    {
        self.revision_number
    }

    pub fn serial_number(self) -> (serial_number: u32)
        ensures
            serial_number == self@.serial_number,
    {
        self.serial_number
    }

    /// Whether two identities agree in every field.
    pub fn same_as(self, other: CanopenIdentity) -> (same: bool)
        ensures
            same == (self@ == other@),
    {
        self.node_id == other.node_id && self.vendor_id == other.vendor_id && self.product_code
            == other.product_code && self.revision_number == other.revision_number
            && self.serial_number == other.serial_number
    }
}

/// The fields of an Enter-IAP identity.
pub struct IapView {
    pub device_id: u32,
    pub firmware_id: u32,
    pub current_version: u32,
}

impl IapView {
    /// The answer of a bootloader that holds no application.
    pub open spec fn unavailable(self) -> bool {
        self.device_id == u32::MAX && self.firmware_id == u32::MAX && self.current_version
            == u32::MAX
    }
}

/// The identity that an Enter-IAP payload spells out.
pub open spec fn iap_identity(bytes: Seq<u8>) -> Result<IapView, IdentityError> {
    let fields = IapView {
        device_id: bytes::le_u32(bytes, 0),
        firmware_id: bytes::le_u32(bytes, 4),
        current_version: bytes::le_u32(bytes, 8),
    };
    if bytes.len() != 12 {
        Err(IdentityError::InvalidIapLength { actual: bytes.len() as usize })
    } else if fields.unavailable() {
        Err(IdentityError::IapIdentityUnavailable)
    } else {
        Ok(fields)
    }
}

/// The three little-endian U32 values returned by Enter-IAP.
#[derive(Debug, Clone, Copy, PartialEq, Eq, Structural)]
pub struct IapIdentity {
    device_id: u32,
    firmware_id: u32,
    current_version: u32,
}

impl View for IapIdentity {
    type V = IapView;

    closed spec fn view(&self) -> IapView {
        IapView {
            device_id: self.device_id,
            firmware_id: self.firmware_id,
            current_version: self.current_version,
        }
    }
}

impl IapIdentity {
    pub fn parse(bytes: &[u8]) -> (result: Result<IapIdentity, IdentityError>)
        ensures
            match result {
                Ok(identity) => iap_identity(bytes@) == Ok::<IapView, IdentityError>(identity@),
                Err(error) => iap_identity(bytes@) == Err::<IapView, IdentityError>(error),
            },
    {
        if bytes.len() != 12 {
            return Err(IdentityError::InvalidIapLength { actual: bytes.len() });
        }
        let identity = IapIdentity {
            device_id: bytes::read_u32(bytes, 0),
            firmware_id: bytes::read_u32(bytes, 4),
            current_version: bytes::read_u32(bytes, 8),
        };
        if identity.device_id == u32::MAX && identity.firmware_id == u32::MAX
            && identity.current_version == u32::MAX {
            return Err(IdentityError::IapIdentityUnavailable);
        }
        Ok(identity)
    }

    pub fn device_id(self) -> (device_id: u32)
        ensures
            device_id == self@.device_id,
    {
        self.device_id
    }

    pub fn firmware_id(self) -> (firmware_id: u32)
        ensures
            firmware_id == self@.firmware_id,
    {
        self.firmware_id
    }

    pub fn current_version(self) -> (current_version: u32)
        ensures
            current_version == self@.current_version,
    {
        self.current_version
    }
}

/// A CANopen identity is complete where its node is one of 1 to 127 and no field
/// is 0xFFFFFFFF; otherwise the first field at fault is named, the node first.
pub proof fn identities_are_complete_or_named(fields: CanopenView)
    ensures
        fields.sound() <==> (1 <= fields.node_id <= 127 && fields.vendor_id != 0xFFFF_FFFF
            && fields.product_code != 0xFFFF_FFFF && fields.revision_number != 0xFFFF_FFFF
            && fields.serial_number != 0xFFFF_FFFF),
        !(1 <= fields.node_id <= 127) ==> fields.fault() == IdentityError::InvalidNode(
            fields.node_id,
        ),
        1 <= fields.node_id <= 127 && fields.vendor_id == 0xFFFF_FFFF ==> fields.fault()
            == IdentityError::Sentinel("vendor_id"),
        1 <= fields.node_id <= 127 && fields.vendor_id != 0xFFFF_FFFF && fields.product_code
            == 0xFFFF_FFFF ==> fields.fault() == IdentityError::Sentinel("product_code"),
        1 <= fields.node_id <= 127 && fields.vendor_id != 0xFFFF_FFFF && fields.product_code
            != 0xFFFF_FFFF && fields.revision_number == 0xFFFF_FFFF ==> fields.fault()
            == IdentityError::Sentinel("revision_number"),
        1 <= fields.node_id <= 127 && fields.vendor_id != 0xFFFF_FFFF && fields.product_code
            != 0xFFFF_FFFF && fields.revision_number != 0xFFFF_FFFF && fields.serial_number
            == 0xFFFF_FFFF ==> fields.fault() == IdentityError::Sentinel("serial_number"),
{
}

/// An Enter-IAP payload is an identity where it has twelve bytes that are not all
/// 0xFF. It is then three integers, in the order device, firmware, version, with
/// the lightest byte first.
pub proof fn twelve_bytes_are_an_identity(payload: Seq<u8>)
    ensures
        iap_identity(payload) is Ok <==> payload.len() == 12 && exists|i: int|
            0 <= i < 12 && #[trigger] payload[i] != 0xFF,
        payload.len() != 12 && payload.len() <= usize::MAX ==> iap_identity(payload) == Err::<
            IapView,
            IdentityError,
        >(IdentityError::InvalidIapLength { actual: payload.len() as usize }),
        payload.len() == 12 && iap_identity(payload) is Err ==> iap_identity(payload) == Err::<
            IapView,
            IdentityError,
        >(IdentityError::IapIdentityUnavailable),
        iap_identity(payload) matches Ok(found) ==> {
            &&& found.device_id == payload[0] + 0x100 * payload[1] + 0x1_0000 * payload[2]
                + 0x100_0000 * payload[3]
            &&& found.firmware_id == payload[4] + 0x100 * payload[5] + 0x1_0000 * payload[6]
                + 0x100_0000 * payload[7]
            &&& found.current_version == payload[8] + 0x100 * payload[9] + 0x1_0000 * payload[10]
                + 0x100_0000 * payload[11]
        },
{
    if payload.len() == 12 {
        if forall|i: int| 0 <= i < 12 ==> #[trigger] payload[i] == 0xFF {
            assert(payload[0] == 0xFF && payload[1] == 0xFF && payload[2] == 0xFF && payload[3]
                == 0xFF && payload[4] == 0xFF && payload[5] == 0xFF && payload[6] == 0xFF
                && payload[7] == 0xFF && payload[8] == 0xFF && payload[9] == 0xFF && payload[10]
                == 0xFF && payload[11] == 0xFF);
        }
    }
}

/// What an error is about.
pub open spec fn subject(error: IdentityError) -> Seq<char> {
    match error {
        IdentityError::InvalidNode(node_id) => text::decimal(node_id as nat),
        IdentityError::Sentinel(field) => field@,
        IdentityError::InvalidIapLength { actual } => text::decimal(actual as nat),
        IdentityError::IapIdentityUnavailable => "unavailable"@,
    }
}

/// The description of an error holds what is wrong: the node, the field or the
/// number of bytes.
pub proof fn descriptions_hold_what_is_wrong(error: IdentityError)
    ensures
        exists|head: Seq<char>, tail: Seq<char>|
            described(error) == #[trigger] (head + subject(error) + tail),
{
    match error {
        IdentityError::InvalidNode(_) => {
            assert(described(error) == "node ID "@ + subject(error) + " is outside 1..=127"@);
        },
        IdentityError::Sentinel(_) => {
            assert(described(error) == "CANopen identity field "@ + subject(error)
                + " is an unprovisioned sentinel"@);
        },
        IdentityError::InvalidIapLength { .. } => {
            assert(described(error) == "Enter-IAP identity is "@ + subject(error)
                + " bytes, expected exactly 12"@);
        },
        IdentityError::IapIdentityUnavailable => {
            reveal_strlit("Enter-IAP identity is unavailable (all fields are 0xFFFFFFFF)");
            reveal_strlit("unavailable");
            let whole = described(error);
            assert(whole =~= whole.take(22) + subject(error) + whole.skip(33));
        },
    }
}

} // verus!
