//! Classic CAN messages, and how protocol bytes are cut into them.

use vstd::prelude::*;

verus! {

/// Data bytes of one Classic CAN message.
pub const CAN_DATA_LEN: usize = 8;

/// The identifier of a message.
#[derive(Debug, Clone, Copy, PartialEq, Eq, Structural)]
pub enum MessageId {
    Standard(u16),
    Extended(u32),
}

/// A message that was received.
#[derive(Debug)]
pub struct CanMessage {
    pub id: MessageId,
    /// Whether it came in the CAN FD format.
    pub fd: bool,
    /// Whether it asks for data instead of carrying any.
    pub remote: bool,
    pub data: Vec<u8>,
}

/// What a message says.
pub struct MessageView {
    pub id: MessageId,
    pub fd: bool,
    pub remote: bool,
    pub data: Seq<u8>,
}

impl View for CanMessage {
    type V = MessageView;

    open spec fn view(&self) -> MessageView {
        MessageView { id: self.id, fd: self.fd, remote: self.remote, data: self.data@ }
    }
}

impl MessageView {
    /// The standard identifier of a Classic data message.
    pub open spec fn classic_id(self) -> Option<u16> {
        if self.fd || self.remote {
            None
        } else {
            match self.id {
                MessageId::Standard(id) => Some(id),
                MessageId::Extended(_) => None,
            }
        }
    }
}

impl CanMessage {
    /// The standard identifier of a Classic data message.
    pub fn classic_id(&self) -> (id: Option<u16>)
        ensures
            id == self@.classic_id(),
    {
        if self.fd || self.remote {
            return None;
        }
        match self.id {
            MessageId::Standard(id) => Some(id),
            MessageId::Extended(_) => None,
        }
    }
}

/// How many messages carry `count` bytes.
pub open spec fn pieces(count: nat) -> nat {
    (count + 7) / 8
}

/// Where message `index` ends in `count` bytes.
pub open spec fn piece_end(count: nat, index: nat) -> nat {
    if 8 * index + 8 <= count {
        8 * index + 8
    } else {
        count
    }
}

/// The data of message `index`: eight bytes, or what is left at the end.
pub open spec fn piece(bytes: Seq<u8>, index: nat) -> Seq<u8> {
    bytes.subrange(8 * index as int, piece_end(bytes.len(), index) as int)
}

/// The data of message `index` of those that carry `bytes`.
pub fn cut_piece(bytes: &[u8], index: usize) -> (data: Vec<u8>)
    requires
        index < pieces(bytes@.len()),
    ensures
        data@ == piece(bytes@, index as nat),
{
    let length: usize = bytes.len();
    let start: usize = CAN_DATA_LEN * index;
    let end: usize = if length - start >= CAN_DATA_LEN {
        start + CAN_DATA_LEN
    } else {
        length
    };
    vstd::slice::slice_to_vec(vstd::slice::slice_subrange(bytes, start, end))
}

/// Every message carries something and fits, and together they carry all.
pub proof fn pieces_cover(bytes: Seq<u8>, index: nat)
    requires
        index < pieces(bytes.len()),
    ensures
        1 <= piece(bytes, index).len() <= CAN_DATA_LEN,
        bytes.take(8 * index as int) + piece(bytes, index) == bytes.take(
            piece_end(bytes.len(), index) as int,
        ),
        index + 1 < pieces(bytes.len()) ==> piece_end(bytes.len(), index) == 8 * (index + 1),
        index + 1 == pieces(bytes.len()) ==> piece_end(bytes.len(), index) == bytes.len(),
{
    assert(bytes.take(8 * index as int) + piece(bytes, index) =~= bytes.take(
        piece_end(bytes.len(), index) as int,
    ));
}

/// A message counts by its identifier where it is a Classic data message with a
/// standard identifier, and only there.
pub proof fn only_classic_data_counts(message: MessageView, id: u16)
    ensures
        message.classic_id() == Some(id) <==> (!message.fd && !message.remote && message.id
            == MessageId::Standard(id)),
{
}

/// A message carries the bytes from eight times its number on, eight of them or
/// what is left.
pub proof fn pieces_stand_in_place(bytes: Seq<u8>, index: nat, at: int)
    requires
        8 * index <= at < 8 * index + 8,
        at < bytes.len(),
    ensures
        index < pieces(bytes.len()),
        at - 8 * index < piece(bytes, index).len() <= 8,
        piece(bytes, index)[at - 8 * index] == bytes[at],
        piece(bytes, index).len() == 8 || 8 * index + piece(bytes, index).len() == bytes.len(),
{
}

} // verus!
