//! The first byte of a message: four flags and, in its low four bits, the
//! number of the message's kind within its family.

use vstd::prelude::*;

verus! {

/// What a message is, or why one was turned down.
///
/// The codec names a kind with `Login`, `EnterRoom`, `Ping` and `Info` (the
/// control family) or `UpdateCell`, `Move`, `Status` and `Replay` (the game
/// family), and reports every failure of its own as `MalformedMessage`. The
/// other codes are for the layer that runs the sessions.
#[derive(Clone, Copy, Debug, PartialEq, Eq, Structural)]
pub enum MessageType {
    Login,
    EnterRoom,
    Ping,
    Info,
    MalformedMessage,
    FailedLogin,
    BadConnection,
    UpdateCell,
    Move,
    Status,
    Replay,
    GameMap,
    MissingData,
    Cheating,
    Internal,
}

/// The four flags of a first byte.
#[derive(Clone, Copy, Debug, PartialEq, Eq, Structural)]
pub struct MetaData {
    pub info: bool,
    pub error: bool,
    pub meta: bool,
    pub from_server: bool,
}

/// Set on what the server sends; never on what it receives.
pub const FROM_SERVER: u8 = 0x80;

/// Set on a control message, clear on a game message.
pub const META: u8 = 0x40;

/// Set on a notice.
pub const INFO: u8 = 0x20;

/// Set on a report of failure.
pub const ERROR: u8 = 0x10;

/// The bits that number the kind of the message.
pub const KIND: u8 = 0x0F;

/// The flags that `first` carries: a flag is set where its bit is. As a number,
/// `first` is `128 * from_server + 64 * meta + 32 * info + 16 * error` plus the
/// number of the kind.
pub open spec fn flags_of(first: u8) -> MetaData {
    MetaData {
        from_server: first >= 128,
        meta: (first / 64) % 2 == 1,
        info: (first / 32) % 2 == 1,
        error: (first / 16) % 2 == 1,
    }
}

/// The number of the kind that `first` carries in its low four bits.
pub open spec fn kind_of(first: u8) -> u8 {
    first % 16
}

/// A flag is set exactly where the byte and the flag's mask have a bit in
/// common, and the number of the kind is what the mask `KIND` lets through.
pub proof fn lemma_flags_by_mask(first: u8)
    ensures
        flags_of(first).from_server <==> first & FROM_SERVER != 0,
        flags_of(first).meta <==> first & META != 0,
        flags_of(first).info <==> first & INFO != 0,
        flags_of(first).error <==> first & ERROR != 0,
        kind_of(first) == first & KIND,
{
    assert(first >= 128 <==> first & 0x80 != 0) by (bit_vector);
    assert((first / 64) % 2 == 1 <==> first & 0x40 != 0) by (bit_vector);
    assert((first / 32) % 2 == 1 <==> first & 0x20 != 0) by (bit_vector);
    assert((first / 16) % 2 == 1 <==> first & 0x10 != 0) by (bit_vector);
    assert(first % 16 == first & 0x0F) by (bit_vector);
}

/// The kind that `id` numbers, in the control family where `meta` is set and
/// in the game family where it is not.
pub open spec fn message_type_of(meta: bool, id: u8) -> Option<MessageType> {
    if meta {
        if id == 1 {
            Some(MessageType::Login)
        } else if id == 2 {
            Some(MessageType::EnterRoom)
        } else if id == 3 {
            Some(MessageType::Ping)
        } else if id == 4 {
            Some(MessageType::Info)
        } else {
            None
        }
    } else {
        if id == 1 {
            Some(MessageType::UpdateCell)
        } else if id == 2 {
            Some(MessageType::Move)
        } else if id == 3 {
            Some(MessageType::Status)
        } else if id == 4 {
            Some(MessageType::Replay)
        } else {
            None
        }
    }
}

/// Tells the kind of a message from its flags and the number in its first byte.
pub fn parse_message_type(meta: MetaData, id: u8) -> (r: Option<MessageType>)
    ensures
        r == message_type_of(meta.meta, id),
{
    if meta.meta {
        Some(
            match id {
                1 => MessageType::Login,
                2 => MessageType::EnterRoom,
                3 => MessageType::Ping,
                4 => MessageType::Info,
                _ => {
                    return None;
                },
            },
        )
    } else {
        Some(
            match id {
                1 => MessageType::UpdateCell,
                2 => MessageType::Move,
                3 => MessageType::Status,
                4 => MessageType::Replay,
                _ => {
                    return None;
                },
            },
        )
    }
}

/// Takes the flags out of a first byte, each by its mask.
pub fn meta_from_byte(first: u8) -> (r: MetaData)
    ensures
        r == flags_of(first),
        r.from_server <==> first & FROM_SERVER != 0,
        r.meta <==> first & META != 0,
        r.info <==> first & INFO != 0,
        r.error <==> first & ERROR != 0,
{
    proof {
        lemma_flags_by_mask(first);
    }
    MetaData {
        from_server: first & FROM_SERVER != 0,
        meta: first & META != 0,
        info: first & INFO != 0,
        error: first & ERROR != 0,
    }
}

} // verus!
