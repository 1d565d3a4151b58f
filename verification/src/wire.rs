//! Protocol frames: node, function, payload and CRC in one COBS block.

use vstd::prelude::*;

use crate::bytes;
use crate::cobs;

verus! {

/// Most payload bytes one frame carries.
pub const MAX_DATA_LEN: usize = 256;

/// Node, function, two length bytes and two CRC bytes.
pub const FRAME_OVERHEAD: usize = 6;

/// Longest raw frame.
pub const MAX_RAW_LEN: usize = FRAME_OVERHEAD + MAX_DATA_LEN;

/// Longest COBS encoding of a raw frame, without the delimiter.
pub const MAX_ENCODED_LEN: usize = MAX_RAW_LEN + (MAX_RAW_LEN / 254) + 1;

/// What a frame asks for or answers. [`FunctionCode::code`] gives the byte that
/// stands for it on the wire; a cast to an integer does not.
#[derive(Debug, Clone, Copy, PartialEq, Eq, Structural)]
pub enum FunctionCode {
    ResetRequest,
    EnterIapRequest,
    StartDownloadRequest,
    SegmentARequest,
    SegmentBRequest,
    FinalDownloadRequest,
    VerifyRequest,
    ResetAck,
    EnterIapAck,
    StartDownloadAck,
    SegmentAAck,
    SegmentBAck,
    FinalDownloadAck,
    VerifyAck,
}

/// The byte that stands for `function` on the wire.
pub open spec fn code_of(function: FunctionCode) -> u8 {
    match function {
        FunctionCode::ResetRequest => 0x80,
        FunctionCode::EnterIapRequest => 0x81,
        FunctionCode::StartDownloadRequest => 0x82,
        FunctionCode::SegmentARequest => 0x83,
        FunctionCode::SegmentBRequest => 0x84,
        FunctionCode::FinalDownloadRequest => 0x85,
        FunctionCode::VerifyRequest => 0x86,
        FunctionCode::ResetAck => 0x90,
        FunctionCode::EnterIapAck => 0x91,
        FunctionCode::StartDownloadAck => 0x92,
        FunctionCode::SegmentAAck => 0x93,
        FunctionCode::SegmentBAck => 0x94,
        FunctionCode::FinalDownloadAck => 0x95,
        FunctionCode::VerifyAck => 0x96,
    }
}

/// The function that `code` stands for, or the unknown code itself.
pub open spec fn function_of(code: u8) -> Result<FunctionCode, u8> {
    if exists|function: FunctionCode| code_of(function) == code {
        Ok(choose|function: FunctionCode| code_of(function) == code)
    } else {
        Err(code)
    }
}

/// The acknowledgement of each request; acknowledgements have none.
pub open spec fn ack_of(function: FunctionCode) -> Option<FunctionCode> {
    match function {
        FunctionCode::ResetRequest => Some(FunctionCode::ResetAck),
        FunctionCode::EnterIapRequest => Some(FunctionCode::EnterIapAck),
        FunctionCode::StartDownloadRequest => Some(FunctionCode::StartDownloadAck),
        FunctionCode::SegmentARequest => Some(FunctionCode::SegmentAAck),
        FunctionCode::SegmentBRequest => Some(FunctionCode::SegmentBAck),
        FunctionCode::FinalDownloadRequest => Some(FunctionCode::FinalDownloadAck),
        FunctionCode::VerifyRequest => Some(FunctionCode::VerifyAck),
        _ => None,
    }
}

impl FunctionCode {
    /// The byte that stands for this function on the wire.
    pub fn code(self) -> (code: u8)
        ensures
            code == code_of(self),
    {
        match self {
            FunctionCode::ResetRequest => 0x80,
            FunctionCode::EnterIapRequest => 0x81,
            FunctionCode::StartDownloadRequest => 0x82,
            FunctionCode::SegmentARequest => 0x83,
            FunctionCode::SegmentBRequest => 0x84,
            FunctionCode::FinalDownloadRequest => 0x85,
            FunctionCode::VerifyRequest => 0x86,
            FunctionCode::ResetAck => 0x90,
            FunctionCode::EnterIapAck => 0x91,
            FunctionCode::StartDownloadAck => 0x92,
            FunctionCode::SegmentAAck => 0x93,
            FunctionCode::SegmentBAck => 0x94,
            FunctionCode::FinalDownloadAck => 0x95,
            FunctionCode::VerifyAck => 0x96,
        }
    }

    /// The acknowledgement that answers this request, or `None` for an
    /// acknowledgement.
    pub fn expected_ack(self) -> (ack: Option<FunctionCode>)
        ensures
            ack == ack_of(self),
    {
        match self {
            FunctionCode::ResetRequest => Some(FunctionCode::ResetAck),
            FunctionCode::EnterIapRequest => Some(FunctionCode::EnterIapAck),
            FunctionCode::StartDownloadRequest => Some(FunctionCode::StartDownloadAck),
            FunctionCode::SegmentARequest => Some(FunctionCode::SegmentAAck),
            FunctionCode::SegmentBRequest => Some(FunctionCode::SegmentBAck),
            FunctionCode::FinalDownloadRequest => Some(FunctionCode::FinalDownloadAck),
            FunctionCode::VerifyRequest => Some(FunctionCode::VerifyAck),
            _ => None,
        }
    }
}

/// Codes identify functions.
pub proof fn codes_are_unique(left: FunctionCode, right: FunctionCode)
    ensures
        code_of(left) == code_of(right) ==> left == right,
        function_of(code_of(left)) == Ok::<FunctionCode, u8>(left),
{
    let found = choose|function: FunctionCode| code_of(function) == code_of(left);
    assert(code_of(left) == code_of(left));
    assert(code_of(found) == code_of(left));
}

impl TryFrom<u8> for FunctionCode {
    type Error = u8;

    fn try_from(value: u8) -> (result: Result<FunctionCode, u8>) {
        let function = match value {
            0x80 => FunctionCode::ResetRequest,
            0x81 => FunctionCode::EnterIapRequest,
            0x82 => FunctionCode::StartDownloadRequest,
            0x83 => FunctionCode::SegmentARequest,
            0x84 => FunctionCode::SegmentBRequest,
            0x85 => FunctionCode::FinalDownloadRequest,
            0x86 => FunctionCode::VerifyRequest,
            0x90 => FunctionCode::ResetAck,
            0x91 => FunctionCode::EnterIapAck,
            0x92 => FunctionCode::StartDownloadAck,
            0x93 => FunctionCode::SegmentAAck,
            0x94 => FunctionCode::SegmentBAck,
            0x95 => FunctionCode::FinalDownloadAck,
            0x96 => FunctionCode::VerifyAck,
            other => {
                assert(forall|function: FunctionCode| code_of(function) != value);
                return Err(other);
            },
        };
        proof {
            codes_are_unique(function, function);
        }
        Ok(function)
    }
}

impl vstd::std_specs::convert::TryFromSpecImpl<u8> for FunctionCode {
    open spec fn obeys_try_from_spec() -> bool {
        true
    }

    open spec fn try_from_spec(value: u8) -> Result<FunctionCode, u8> {
        function_of(value)
    }
}

#[derive(Debug, Clone, PartialEq, Eq)]
pub enum FrameError {
    /// The node ID is outside 1..=127.
    InvalidNode(u8),
    /// The function is not a request.
    NotARequest(FunctionCode),
    /// The payload is longer than a frame can carry.
    DataTooLarge { actual: usize, maximum: usize },
    /// The decoded frame is shorter than its fixed fields.
    TooShort(usize),
    /// The function byte stands for no known function.
    UnknownFunction(u8),
    /// The length field does not match the payload.
    LengthMismatch { declared: usize, actual: usize },
    /// The received CRC-16 is not that of the frame's content.
    CrcMismatch { received: u16, computed: u16 },
    /// The bytes are no COBS encoding.
    InvalidCobs,
    /// No delimiter came within the longest possible frame.
    EncodedTooLong { maximum: usize },
}

/// What a frame says.
pub struct FrameView {
    pub node_id: u8,
    pub function: FunctionCode,
    pub data: Seq<u8>,
}

/// A node ID that can be addressed; 0 is the reserved broadcast address.
pub open spec fn addressable(node_id: u8) -> bool {
    1 <= node_id <= 127
}

impl FrameView {
    /// An addressable node and a payload that fits.
    pub open spec fn sound(self) -> bool {
        addressable(self.node_id) && self.data.len() <= MAX_DATA_LEN
    }

    /// The bytes that the CRC covers.
    pub open spec fn covered(self) -> Seq<u8> {
        seq![self.node_id, code_of(self.function)] + bytes::le_bytes_u16(self.data.len() as u16)
            + self.data
    }

    /// The frame before COBS encoding, with the given CRC.
    pub open spec fn raw_with(self, crc: u16) -> Seq<u8> {
        self.covered() + bytes::le_bytes_u16(crc)
    }

    /// The frame on the wire, with the given CRC and a delimiter.
    pub open spec fn encoded_with(self, crc: u16) -> Seq<u8> {
        cobs::stuffed(self.raw_with(crc)).push(0)
    }

    /// The frame as it is before COBS encoding.
    pub open spec fn raw(self) -> Seq<u8> {
        self.raw_with(crc16_xmodem(self.covered()))
    }

    /// The frame as it stands on the wire, with its delimiter.
    pub open spec fn encoded(self) -> Seq<u8> {
        self.encoded_with(crc16_xmodem(self.covered()))
    }
}

/// The remainder after `count` more zero bits, by the polynomial 0x1021.
pub open spec fn crc_shifted(crc: u16, count: nat) -> u16
    decreases count,
{
    if count == 0 {
        crc
    } else if crc & 0x8000 != 0 {
        crc_shifted((crc << 1) ^ 0x1021, (count - 1) as nat)
    } else {
        crc_shifted(crc << 1, (count - 1) as nat)
    }
}

/// CRC-16/XMODEM of `data`: the remainder starts at zero, takes each byte from
/// its high bit on, and is neither reflected nor inverted.
pub open spec fn crc16_xmodem(data: Seq<u8>) -> u16
    decreases data.len(),
{
    if data.len() == 0 {
        0
    } else {
        crc_shifted(crc16_xmodem(data.drop_last()) ^ ((data.last() as u16) << 8), 8)
    }
}

/// `crc::Crc::<u16>::checksum` with the catalogue entry `CRC_16_XMODEM`: the CRC
/// with the parameters that the entry gives, of width 16, polynomial 0x1021,
/// initial value 0, no reflection and no final inversion.
#[verifier::external_body]
fn checksum(data: &[u8]) -> (crc: u16)
    ensures
        crc == crc16_xmodem(data@),
{
    crc::Crc::<u16>::new(&crc::CRC_16_XMODEM).checksum(data)
}

/// The outcome of building a frame.
pub open spec fn built(node_id: u8, function: FunctionCode, data: Seq<u8>) -> Result<
    FrameView,
    FrameError,
> {
    if !addressable(node_id) {
        Err(FrameError::InvalidNode(node_id))
    } else if data.len() > MAX_DATA_LEN {
        Err(FrameError::DataTooLarge { actual: data.len() as usize, maximum: MAX_DATA_LEN })
    } else {
        Ok(FrameView { node_id, function, data })
    }
}

/// The outcome of reading a raw frame whose content has the CRC `computed`.
pub open spec fn checked_raw(raw: Seq<u8>, computed: u16) -> Result<FrameView, FrameError> {
    let declared = bytes::le_u16(raw[2], raw[3]) as int;
    let received = bytes::le_u16(raw[raw.len() - 2], raw[raw.len() - 1]);
    if raw.len() < FRAME_OVERHEAD {
        Err(FrameError::TooShort(raw.len() as usize))
    } else if !addressable(raw[0]) {
        Err(FrameError::InvalidNode(raw[0]))
    } else if function_of(raw[1]) is Err {
        Err(FrameError::UnknownFunction(raw[1]))
    } else if declared > MAX_DATA_LEN {
        Err(FrameError::DataTooLarge { actual: declared as usize, maximum: MAX_DATA_LEN })
    } else if raw.len() != FRAME_OVERHEAD + declared {
        Err(
            FrameError::LengthMismatch {
                declared: declared as usize,
                actual: (raw.len() - FRAME_OVERHEAD) as usize,
            },
        )
    } else if received != computed {
        Err(FrameError::CrcMismatch { received, computed })
    } else {
        Ok(
            FrameView {
                node_id: raw[0],
                function: function_of(raw[1])->Ok_0,
                data: raw.subrange(4, raw.len() - 2),
            },
        )
    }
}

/// The outcome of reading a raw frame.
pub open spec fn decoded_raw(raw: Seq<u8>) -> Result<FrameView, FrameError> {
    checked_raw(raw, crc16_xmodem(raw.take(raw.len() - 2)))
}

/// `encoded` without its delimiter, if it ends in one.
pub open spec fn undelimited(encoded: Seq<u8>) -> Seq<u8> {
    if encoded.len() > 0 && encoded.last() == 0 {
        encoded.drop_last()
    } else {
        encoded
    }
}

/// The outcome of decoding one frame.
pub open spec fn decoded(encoded: Seq<u8>) -> Result<FrameView, FrameError> {
    match cobs::unstuffed(undelimited(encoded)) {
        Some(raw) => decoded_raw(raw),
        None => Err(FrameError::InvalidCobs),
    }
}

/// A result with the frame taken by its view.
pub open spec fn outcome(result: Result<Frame, FrameError>) -> Result<FrameView, FrameError> {
    match result {
        Ok(frame) => Ok(frame@),
        Err(error) => Err(error),
    }
}

#[derive(Debug, PartialEq, Eq)]
pub struct Frame {
    node_id: u8,
    function: FunctionCode,
    data: Vec<u8>,
}

impl View for Frame {
    type V = FrameView;

    closed spec fn view(&self) -> FrameView {
        FrameView { node_id: self.node_id, function: self.function, data: self.data@ }
    }
}

impl Clone for Frame {
    fn clone(&self) -> (copy: Frame)
        ensures
            copy@ == self@,
    {
        proof {
            use_type_invariant(self);
        }
        let data = self.data.clone();
        assert(data@ =~= self.data@);
        Frame { node_id: self.node_id, function: self.function, data }
    }
}

impl Frame {
    /// Every frame addresses a node and carries a payload that fits.
    #[verifier::type_invariant]
    pub open spec fn well_formed(self) -> bool {
        self@.sound()
    }

    /// A frame to or from `node_id`.
    pub fn new(node_id: u8, function: FunctionCode, data: Vec<u8>) -> (result: Result<
        Frame,
        FrameError,
    >)
        ensures
            outcome(result) == built(node_id, function, data@),
    {
        if !(1 <= node_id && node_id <= 127) {
            return Err(FrameError::InvalidNode(node_id));
        }
        if data.len() > MAX_DATA_LEN {
            return Err(FrameError::DataTooLarge { actual: data.len(), maximum: MAX_DATA_LEN });
        }
        Ok(Frame { node_id, function, data })
    }

    /// A frame that asks `node_id` for something.
    pub fn request(node_id: u8, function: FunctionCode, data: Vec<u8>) -> (result: Result<
        Frame,
        FrameError,
    >)
        ensures
            outcome(result) == if ack_of(function) is None {
                Err(FrameError::NotARequest(function))
            } else {
                built(node_id, function, data@)
            },
    {
        if function.expected_ack().is_none() {
            return Err(FrameError::NotARequest(function));
        }
        Frame::new(node_id, function, data)
    }

    pub fn node_id(&self) -> (node_id: u8)
        ensures
            node_id == self@.node_id,
            self@.sound(),
    {
        proof {
            use_type_invariant(self);
        }
        self.node_id
    }

    pub fn function(&self) -> (function: FunctionCode)
        ensures
            function == self@.function,
    {
        self.function
    }

    pub fn data(&self) -> (data: &[u8])
        ensures
            data@ == self@.data,
            self@.sound(),
    {
        proof {
            use_type_invariant(self);
        }
        self.data.as_slice()
    }

    /// The bytes that the CRC covers.
    pub fn covered(&self) -> (covered: Vec<u8>)
        ensures
            covered@ == self@.covered(),
    {
        proof {
            use_type_invariant(self);
        }
        let length = self.data.len() as u16;
        let mut covered: Vec<u8> = Vec::with_capacity(FRAME_OVERHEAD + self.data.len());
        covered.push(self.node_id);
        covered.push(self.function.code());
        covered.push((length % 0x100) as u8);
        covered.push((length / 0x100) as u8);
        covered.extend_from_slice(self.data.as_slice());
        assert(covered@ =~= self@.covered());
        covered
    }

    /// The frame on the wire, with the given CRC and a delimiter.
    pub fn encode_with(&self, crc: u16) -> (encoded: Vec<u8>)
        ensures
            encoded@ == self@.encoded_with(crc),
    {
        proof {
            use_type_invariant(self);
        }
        let mut raw = self.covered();
        raw.push((crc % 0x100) as u8);
        raw.push((crc / 0x100) as u8);
        assert(raw@ =~= self@.raw_with(crc));
        let mut encoded = cobs::cobs_encode(raw.as_slice());
        encoded.push(0);
        encoded
    }

    /// The frame as it stands on the wire, with its delimiter.
    pub fn encode(&self) -> (encoded: Vec<u8>)
        ensures
            encoded@ == self@.encoded(),
    {
        let covered = self.covered();
        self.encode_with(checksum(covered.as_slice()))
    }

    /// Decode one frame, with or without its delimiter.
    pub fn decode(encoded: &[u8]) -> (result: Result<Frame, FrameError>)
        ensures
            outcome(result) == decoded(encoded@),
    {
        let mut end: usize = encoded.len();
        if end > 0 && encoded[end - 1] == 0 {
            end -= 1;
        }
        let body = vstd::slice::slice_subrange(encoded, 0, end);
        assert(body@ =~= undelimited(encoded@));
        match cobs::cobs_decode(body) {
            Some(raw) => Frame::decode_raw(raw.as_slice()),
            None => Err(FrameError::InvalidCobs),
        }
    }

    /// Read a raw frame.
    fn decode_raw(raw: &[u8]) -> (result: Result<Frame, FrameError>)
        ensures
            outcome(result) == decoded_raw(raw@),
    {
        if raw.len() < FRAME_OVERHEAD {
            return Err(FrameError::TooShort(raw.len()));
        }
        let covered = vstd::slice::slice_subrange(raw, 0, raw.len() - 2);
        assert(covered@ =~= raw@.take(raw@.len() - 2));
        Frame::check_raw(raw, checksum(covered))
    }

    /// Read a raw frame whose content has the CRC `computed`.
    pub fn check_raw(raw: &[u8], computed: u16) -> (result: Result<Frame, FrameError>)
        ensures
            outcome(result) == checked_raw(raw@, computed),
    {
        if raw.len() < FRAME_OVERHEAD {
            return Err(FrameError::TooShort(raw.len()));
        }
        let node_id = raw[0];
        if !(1 <= node_id && node_id <= 127) {
            return Err(FrameError::InvalidNode(node_id));
        }
        let function = match FunctionCode::try_from(raw[1]) {
            Ok(function) => function,
            Err(code) => {
                return Err(FrameError::UnknownFunction(code));
            },
        };
        let declared: usize = raw[2] as usize + 0x100 * (raw[3] as usize);
        if declared > MAX_DATA_LEN {
            return Err(FrameError::DataTooLarge { actual: declared, maximum: MAX_DATA_LEN });
        }
        if raw.len() != FRAME_OVERHEAD + declared {
            return Err(
                FrameError::LengthMismatch { declared, actual: raw.len() - FRAME_OVERHEAD },
            );
        }
        let crc_offset: usize = 4 + declared;
        let received: u16 = raw[crc_offset] as u16 + 0x100 * (raw[crc_offset + 1] as u16);
        if received != computed {
            return Err(FrameError::CrcMismatch { received, computed });
        }
        let data = vstd::slice::slice_to_vec(vstd::slice::slice_subrange(raw, 4, crc_offset));
        Ok(Frame { node_id, function, data })
    }
}

/// Decoding gives back every frame that was encoded, with or without the
/// delimiter.
pub proof fn frame_round_trip(frame: FrameView)
    requires
        frame.sound(),
    ensures
        decoded(frame.encoded()) == Ok::<FrameView, FrameError>(frame),
        decoded(frame.encoded().drop_last()) == Ok::<FrameView, FrameError>(frame),
{
    let raw = frame.raw();
    let size = frame.data.len();
    cobs::cobs_round_trip(raw);
    cobs::cobs_is_zero_free(raw);
    cobs::cobs_length(raw);
    codes_are_unique(frame.function, frame.function);
    assert(frame.encoded().drop_last() =~= cobs::stuffed(raw));
    assert(raw.take(4 + size as int) =~= frame.covered());
    assert(raw.subrange(4, 4 + size as int) =~= frame.data);
    bytes::lemma_le_u16(size as u16);
    bytes::lemma_le_u16(crc16_xmodem(frame.covered()));
}

/// A frame is accepted only where its raw bytes are those of the frame that is
/// returned: node, function, length and CRC included.
pub proof fn accepted_frames_are_exact(encoded: Seq<u8>)
    requires
        decoded(encoded) is Ok,
    ensures
        decoded(encoded)->Ok_0.sound(),
        cobs::unstuffed(undelimited(encoded)) == Some(decoded(encoded)->Ok_0.raw()),
{
    let raw = cobs::unstuffed(undelimited(encoded))->0;
    let frame = decoded(encoded)->Ok_0;
    let size = frame.data.len() as int;
    let found = choose|function: FunctionCode| code_of(function) == raw[1];
    assert(code_of(found) == raw[1]);
    assert(bytes::le_bytes_u16(size as u16) =~= seq![raw[2], raw[3]]);
    assert(frame.covered() =~= raw.take(4 + size));
    assert(bytes::le_bytes_u16(crc16_xmodem(frame.covered())) =~= seq![
        raw[4 + size],
        raw[5 + size],
    ]);
    assert(frame.raw() =~= raw);
}

/// The encoding of a frame is bounded, ends in its only zero byte and is at
/// least two bytes longer than the raw frame.
pub proof fn encoded_frames_are_delimited(frame: FrameView)
    requires
        frame.sound(),
    ensures
        FRAME_OVERHEAD + frame.data.len() + 2 <= frame.encoded().len() <= MAX_ENCODED_LEN + 1,
        frame.encoded().last() == 0,
        cobs::zero_free(frame.encoded().drop_last()),
        frame.data.len() + FRAME_OVERHEAD < cobs::FULL_RUN ==> frame.encoded().len()
            == FRAME_OVERHEAD + frame.data.len() + 2,
{
    let raw = frame.raw();
    cobs::cobs_is_zero_free(raw);
    cobs::cobs_length(raw);
    assert(frame.encoded().drop_last() =~= cobs::stuffed(raw));
}

/// The place of a request among those of an update, counted from zero.
pub open spec fn place_of(function: FunctionCode) -> int {
    match function {
        FunctionCode::ResetRequest | FunctionCode::ResetAck => 0,
        FunctionCode::EnterIapRequest | FunctionCode::EnterIapAck => 1,
        FunctionCode::StartDownloadRequest | FunctionCode::StartDownloadAck => 2,
        FunctionCode::SegmentARequest | FunctionCode::SegmentAAck => 3,
        FunctionCode::SegmentBRequest | FunctionCode::SegmentBAck => 4,
        FunctionCode::FinalDownloadRequest | FunctionCode::FinalDownloadAck => 5,
        FunctionCode::VerifyRequest | FunctionCode::VerifyAck => 6,
    }
}

/// Requests are numbered from 0x80 on in the order of an update, and their
/// acknowledgements from 0x90 on in the same order. A request is answered by the
/// acknowledgement of the same place, and nothing answers an acknowledgement.
pub proof fn functions_are_numbered_in_order(function: FunctionCode)
    ensures
        ack_of(function) is Some ==> code_of(function) == 0x80 + place_of(function),
        ack_of(function) is None ==> code_of(function) == 0x90 + place_of(function),
        ack_of(function) is Some <==> (function is ResetRequest || function is EnterIapRequest
            || function is StartDownloadRequest || function is SegmentARequest
            || function is SegmentBRequest || function is FinalDownloadRequest
            || function is VerifyRequest),
        ack_of(function) matches Some(ack) ==> ack_of(ack) is None && code_of(ack) == code_of(
            function,
        ) + 0x10,
{
}

/// A byte stands for a function if and only if it is one of 0x80 to 0x86 and 0x90
/// to 0x96.
pub proof fn fourteen_bytes_stand_for_functions(code: u8)
    ensures
        function_of(code) is Ok <==> (0x80 <= code <= 0x86 || 0x90 <= code <= 0x96),
        function_of(code) matches Ok(function) ==> code_of(function) == code,
        function_of(code) is Err ==> function_of(code) == Err::<FunctionCode, u8>(code),
{
    if 0x80 <= code <= 0x86 || 0x90 <= code <= 0x96 {
        let function = if code == 0x80 {
            FunctionCode::ResetRequest
        } else if code == 0x81 {
            FunctionCode::EnterIapRequest
        } else if code == 0x82 {
            FunctionCode::StartDownloadRequest
        } else if code == 0x83 {
            FunctionCode::SegmentARequest
        } else if code == 0x84 {
            FunctionCode::SegmentBRequest
        } else if code == 0x85 {
            FunctionCode::FinalDownloadRequest
        } else if code == 0x86 {
            FunctionCode::VerifyRequest
        } else if code == 0x90 {
            FunctionCode::ResetAck
        } else if code == 0x91 {
            FunctionCode::EnterIapAck
        } else if code == 0x92 {
            FunctionCode::StartDownloadAck
        } else if code == 0x93 {
            FunctionCode::SegmentAAck
        } else if code == 0x94 {
            FunctionCode::SegmentBAck
        } else if code == 0x95 {
            FunctionCode::FinalDownloadAck
        } else {
            FunctionCode::VerifyAck
        };
        assert(code_of(function) == code);
    }
}

/// A frame can be built if and only if its node is one of 1 to 127 and its payload
/// has at most 256 bytes; it is then made of just these.
pub proof fn frames_are_built_within_bounds(node_id: u8, function: FunctionCode, data: Seq<u8>)
    requires
        data.len() <= usize::MAX,
    ensures
        built(node_id, function, data) is Ok <==> 1 <= node_id <= 127 && data.len() <= 256,
        built(node_id, function, data) matches Ok(frame) ==> frame.node_id == node_id
            && frame.function == function && frame.data == data,
        !(1 <= node_id <= 127) ==> built(node_id, function, data) == Err::<FrameView, FrameError>(
            FrameError::InvalidNode(node_id),
        ),
        1 <= node_id <= 127 && data.len() > 256 ==> built(node_id, function, data) == Err::<
            FrameView,
            FrameError,
        >(FrameError::DataTooLarge { actual: data.len() as usize, maximum: 256 }),
{
}

/// Before it is stuffed a frame is its node, its function's byte, the number of
/// payload bytes in two bytes, the payload, and the CRC of all that in two bytes,
/// the lighter byte first in both numbers.
pub proof fn frames_are_laid_out_in_order(frame: FrameView)
    requires
        frame.sound(),
    ensures
        frame.raw().len() == frame.data.len() + 6,
        frame.raw()[0] == frame.node_id,
        frame.raw()[1] == code_of(frame.function),
        frame.raw()[2] + 0x100 * frame.raw()[3] == frame.data.len(),
        frame.raw().subrange(4, frame.raw().len() - 2) == frame.data,
        frame.raw()[frame.raw().len() - 2] + 0x100 * frame.raw()[frame.raw().len() - 1]
            == crc16_xmodem(frame.raw().take(frame.raw().len() - 2)),
        frame.encoded() == cobs::stuffed(frame.raw()).push(0),
{
    let raw = frame.raw();
    let size = frame.data.len() as int;
    assert(raw.subrange(4, 4 + size) =~= frame.data);
    assert(raw.take(4 + size) =~= frame.covered());
}

/// A raw frame is accepted if and only if it has at least six bytes, a node from 1
/// to 127, a known function, at most 256 payload bytes, exactly the length that it
/// declares, and the CRC of its content at its end. The frame is then made of
/// these bytes.
pub proof fn exactly_intact_frames_are_accepted(raw: Seq<u8>)
    requires
        raw.len() <= usize::MAX,
    ensures
        decoded_raw(raw) is Ok <==> {
            &&& raw.len() >= 6
            &&& 1 <= raw[0] <= 127
            &&& 0x80 <= raw[1] <= 0x86 || 0x90 <= raw[1] <= 0x96
            &&& raw[2] + 0x100 * raw[3] <= 256
            &&& raw.len() == 6 + raw[2] + 0x100 * raw[3]
            &&& raw[raw.len() - 2] + 0x100 * raw[raw.len() - 1] == crc16_xmodem(
                raw.take(raw.len() - 2),
            )
        },
        decoded_raw(raw) matches Ok(frame) ==> frame.node_id == raw[0] && code_of(frame.function)
            == raw[1] && frame.data == raw.subrange(4, raw.len() - 2),
{
    if raw.len() >= 6 {
        fourteen_bytes_stand_for_functions(raw[1]);
    }
}

/// A raw frame that is refused is refused for the first thing that is wrong: too
/// short, then the node, the function, the declared length, the actual length, and
/// the CRC last.
pub proof fn the_first_damage_is_named(raw: Seq<u8>)
    requires
        raw.len() <= usize::MAX,
    ensures
        ({
            let declared = raw[2] + 0x100 * raw[3];
            let long = raw.len() >= 6;
            let addressed = long && 1 <= raw[0] <= 127;
            let known = addressed && (0x80 <= raw[1] <= 0x86 || 0x90 <= raw[1] <= 0x96);
            let fitting = known && declared <= 256;
            let exact = fitting && raw.len() == 6 + declared;
            &&& !long ==> decoded_raw(raw) == Err::<FrameView, FrameError>(
                FrameError::TooShort(raw.len() as usize),
            )
            &&& long && !addressed ==> decoded_raw(raw) == Err::<FrameView, FrameError>(
                FrameError::InvalidNode(raw[0]),
            )
            &&& addressed && !known ==> decoded_raw(raw) == Err::<FrameView, FrameError>(
                FrameError::UnknownFunction(raw[1]),
            )
            &&& known && !fitting ==> decoded_raw(raw) == Err::<FrameView, FrameError>(
                FrameError::DataTooLarge { actual: declared as usize, maximum: 256 },
            )
            &&& fitting && !exact ==> decoded_raw(raw) == Err::<FrameView, FrameError>(
                FrameError::LengthMismatch {
                    declared: declared as usize,
                    actual: (raw.len() - 6) as usize,
                },
            )
            &&& exact && decoded_raw(raw) is Err ==> decoded_raw(raw) == Err::<
                FrameView,
                FrameError,
            >(
                FrameError::CrcMismatch {
                    received: (raw[raw.len() - 2] + 0x100 * raw[raw.len() - 1]) as u16,
                    computed: crc16_xmodem(raw.take(raw.len() - 2)),
                },
            )
        }),
{
    if raw.len() >= 6 {
        fourteen_bytes_stand_for_functions(raw[1]);
    }
}

/// One delimiter at the end is of no account when a frame is decoded; what is left
/// is unstuffed and read.
pub proof fn a_delimiter_is_of_no_account(encoded: Seq<u8>)
    ensures
        encoded.len() > 0 && encoded.last() != 0 ==> decoded(encoded.push(0)) == decoded(encoded),
        cobs::zero_free(encoded) ==> match cobs::unstuffed(encoded) {
            Some(raw) => decoded(encoded) == decoded_raw(raw),
            None => decoded(encoded) == Err::<FrameView, FrameError>(FrameError::InvalidCobs),
        },
{
    assert(encoded.push(0).drop_last() =~= encoded);
}

/// Results are seen as what they are.
pub proof fn results_are_seen_as_they_are(result: Result<Frame, FrameError>)
    ensures
        match result {
            Ok(frame) => outcome(result) is Ok && outcome(result)->Ok_0 == frame@,
            Err(error) => outcome(result) is Err && outcome(result)->Err_0 == error,
        },
{
}

} // verus!
