//! Whole messages: the first byte says which family and kind the body is of.

use crate::envelope::{
    flags_of, kind_of, lemma_flags_by_mask, message_type_of, meta_from_byte, parse_message_type,
    FROM_SERVER, KIND,
};
use crate::game::{cells_read, game_read, parse_game_message, GameMessageView};
use crate::meta::{meta_read, parse_meta_message, MetaMessageView};
use crate::point::{lemma_point_round_trip_prefix, point_encoding, point_index};
use crate::text::{lemma_string_round_trip, string_encoding};
use crate::varint::{lemma_unbounded_read_of_encoding, unbounded_encoding, unbounded_read};
use vstd::prelude::*;
use vstd::slice::slice_subrange;
use vstd::utf8::encode_utf8;

pub use crate::envelope::MessageType;
pub use crate::game::GameMessage;
pub use crate::meta::MetaMessage;
pub use crate::point::{Move, Point};

verus! {

/// A message as a client sends it.
#[derive(Debug, PartialEq, Eq)]
pub enum Message {
    Game(GameMessage),
    Meta(MetaMessage),
}

/// The model of a message that the contracts speak of.
pub enum MessageView {
    Game(GameMessageView),
    Meta(MetaMessageView),
}

impl View for Message {
    type V = MessageView;

    open spec fn view(&self) -> MessageView {
        match *self {
            Message::Game(message) => MessageView::Game(message@),
            Message::Meta(message) => MessageView::Meta(message@),
        }
    }
}

/// Why a message was turned down: a description for people, and a code.
#[derive(Clone, Copy, Debug, PartialEq, Eq)]
pub struct Error {
    pub text: &'static str,
    pub code: MessageType,
}

/// The model of an error that the contracts speak of: its text as a sequence
/// of characters.
pub struct ErrorView {
    pub text: Seq<char>,
    pub code: MessageType,
}

impl View for Error {
    type V = ErrorView;

    open spec fn view(&self) -> ErrorView {
        ErrorView { text: self.text@, code: self.code }
    }
}

/// The description of a message that claims to come from the server.
pub const FROM_SERVER_SET: &'static str = "fromServer bit set on a client-originated message";

/// The description of a message whose kind has no meaning in its family.
pub const UNKNOWN_TYPE: &'static str = "Malformed first byte: MessageType unknown";

/// The description of a control message whose body cannot be read.
pub const MALFORMED_META: &'static str = "malformed control-message body";

/// The description of a game message whose body cannot be read.
pub const MALFORMED_GAME: &'static str = "malformed game-message body";

/// The error that a malformed message is turned down with.
pub open spec fn malformed(text: &'static str) -> ErrorView {
    ErrorView { text: text@, code: MessageType::MalformedMessage }
}

/// What a message is read as: the flags and the kind in its first byte decide
/// how the bytes behind it are read. An empty message is read as one whose
/// first byte is zero, which names no kind.
pub open spec fn message_read(data: Seq<u8>) -> Result<MessageView, ErrorView> {
    let first = if data.len() > 0 {
        data[0]
    } else {
        0u8
    };
    let body = if data.len() > 0 {
        data.skip(1)
    } else {
        data
    };
    let flags = flags_of(first);
    if flags.from_server {
        Err(malformed(FROM_SERVER_SET))
    } else {
        match message_type_of(flags.meta, kind_of(first)) {
            None => Err(malformed(UNKNOWN_TYPE)),
            Some(typ) => if flags.meta {
                match meta_read(typ, body) {
                    Some(message) => Ok(MessageView::Meta(message)),
                    None => Err(malformed(MALFORMED_META)),
                }
            } else {
                match game_read(typ, body) {
                    Some(message) => Ok(MessageView::Game(message)),
                    None => Err(malformed(MALFORMED_GAME)),
                }
            },
        }
    }
}

/// The model of what `parse_message` hands back.
pub open spec fn outcome(r: Result<Message, Error>) -> Result<MessageView, ErrorView> {
    match r {
        Ok(message) => Ok(message@),
        Err(error) => Err(error@),
    }
}

/// Reads one message, which `data` holds from its first byte to its last.
///
/// A message is turned down as malformed, with one of the four descriptions
/// above, where its first byte has the server's flag set, where the kind in
/// its first byte has no meaning in its family, and where its body cannot be
/// read as a body of that kind. Nothing is handed back of a message that is
/// turned down.
pub fn parse_message(data: Vec<u8>) -> (r: Result<Message, Error>)
    ensures
        outcome(r) == message_read(data@),
        r matches Err(error) ==> error.code == MessageType::MalformedMessage,
        data@.len() > 0 && data@[0] & FROM_SERVER != 0 ==> outcome(r) == Err::<
            MessageView,
            ErrorView,
        >(malformed(FROM_SERVER_SET)),
{
    let input = data.as_slice();
    let first = if input.len() > 0 {
        input[0]
    } else {
        0
    };
    let body = if input.len() > 0 {
        slice_subrange(input, 1, input.len())
    } else {
        input
    };
    let meta = meta_from_byte(first);
    proof {
        lemma_flags_by_mask(first);
    }
    if meta.from_server {
        return Err(Error { text: FROM_SERVER_SET, code: MessageType::MalformedMessage });
    }
    let msg_type = match parse_message_type(meta, first & KIND) {
        Some(typ) => typ,
        None => {
            return Err(Error { text: UNKNOWN_TYPE, code: MessageType::MalformedMessage });
        },
    };
    if meta.meta {
        match parse_meta_message(msg_type, body) {
            Some(message) => Ok(Message::Meta(message)),
            None => Err(Error { text: MALFORMED_META, code: MessageType::MalformedMessage }),
        }
    } else {
        match parse_game_message(msg_type, body) {
            Some(message) => Ok(Message::Game(message)),
            None => Err(Error { text: MALFORMED_GAME, code: MessageType::MalformedMessage }),
        }
    }
}

/// A message whose first byte has the server's flag set is turned down for
/// that, whatever its other bytes are.
pub proof fn lemma_from_server_rejected(data: Seq<u8>)
    requires
        data.len() > 0,
        data[0] & FROM_SERVER != 0,
    ensures
        message_read(data) == Err::<MessageView, ErrorView>(malformed(FROM_SERVER_SET)),
{
    lemma_flags_by_mask(data[0]);
}

/// A move message that ends before the position of the move, inside it or
/// with it is malformed: the direction and the units are missing.
pub proof fn lemma_truncated_move_rejected(data: Seq<u8>)
    requires
        data.len() >= 1,
        !flags_of(data[0]).from_server,
        message_type_of(flags_of(data[0]).meta, kind_of(data[0])) == Some(MessageType::Move),
        data.len() >= 2 ==> match unbounded_read(data.skip(2)) {
            Some((_, n)) => n == data.len() - 2,
            None => true,
        },
    ensures
        message_read(data) == Err::<MessageView, ErrorView>(malformed(MALFORMED_GAME)),
{
    if data.len() >= 2 {
        assert(data.skip(1).skip(1) =~= data.skip(2));
    }
}

/// A login whose name is announced longer than what is left of the message is
/// malformed.
pub proof fn lemma_short_login_rejected(data: Seq<u8>)
    requires
        data.len() >= 1,
        !flags_of(data[0]).from_server,
        message_type_of(flags_of(data[0]).meta, kind_of(data[0])) == Some(MessageType::Login),
        unbounded_read(data.skip(1)) matches Some((len, n)) && n + len > data.len() - 1,
    ensures
        message_read(data) == Err::<MessageView, ErrorView>(malformed(MALFORMED_META)),
{
}

/// A login whose body is exactly a name as the string codec writes it is read
/// as the login of that name.
pub proof fn lemma_exact_login_accepted(first: u8, name: Seq<char>)
    requires
        !flags_of(first).from_server,
        message_type_of(flags_of(first).meta, kind_of(first)) == Some(MessageType::Login),
        encode_utf8(name).len() <= u32::MAX,
    ensures
        message_read(seq![first] + string_encoding(name)) == Ok::<MessageView, ErrorView>(
            MessageView::Meta(MetaMessageView::Login(name)),
        ),
{
    let data = seq![first] + string_encoding(name);
    assert(data.skip(1) =~= string_encoding(name) + Seq::<u8>::empty());
    lemma_string_round_trip(name, Seq::empty());
}

/// An update that lists one cell, written by the position and integer codecs,
/// is read as the update of that cell.
pub proof fn lemma_update_of_one_cell(first: u8, player: u8, width: u8, point: Point, value: u32)
    requires
        !flags_of(first).from_server,
        message_type_of(flags_of(first).meta, kind_of(first)) == Some(MessageType::UpdateCell),
        width > 0,
        point.x < width,
        point_index(point, width as u32) <= u32::MAX,
    ensures
        message_read(
            seq![first, player, width] + point_encoding(point, width as u32) + unbounded_encoding(
                value as nat,
            ),
        ) == Ok::<MessageView, ErrorView>(
            MessageView::Game(
                GameMessageView::Update { player, width, cells: seq![(point, value)] },
            ),
        ),
{
    let place = point_encoding(point, width as u32);
    let number = unbounded_encoding(value as nat);
    let data = seq![first, player, width] + place + number;
    let cells = data.skip(1).skip(2);
    assert(cells =~= place + number);
    lemma_point_round_trip_prefix(point, width as u32, number);
    assert(cells.skip(place.len() as int) =~= number + Seq::<u8>::empty());
    lemma_unbounded_read_of_encoding(value, Seq::empty());
    assert(cells_read(cells, width as u32) == Some(seq![(point, value)])) by {
        reveal_with_fuel(cells_read, 2);
    }
}

} // verus!
