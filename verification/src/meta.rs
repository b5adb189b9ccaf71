//! The control messages, which run a session: login, entering a room,
//! keep-alive and notices.

use crate::envelope::MessageType;
use crate::reading::viewed;
use crate::text::{parse_string, string_read};
use vstd::prelude::*;

verus! {

/// A control message.
///
/// A client sends `Login`, `EnterRoom`, `Ping` and `Info`; `Error` and `Chat`
/// are the server's to send and are never the result of reading a message.
#[derive(Debug, PartialEq, Eq)]
pub enum MetaMessage {
    Error(String, MessageType),
    Chat(String),
    EnterRoom(String),
    Login(String),
    Info(String),
    Ping,
}

/// The model of a control message that the contracts speak of: its strings
/// are sequences of characters.
pub enum MetaMessageView {
    Error(Seq<char>, MessageType),
    Chat(Seq<char>),
    EnterRoom(Seq<char>),
    Login(Seq<char>),
    Info(Seq<char>),
    Ping,
}

impl View for MetaMessage {
    type V = MetaMessageView;

    open spec fn view(&self) -> MetaMessageView {
        match *self {
            MetaMessage::Error(text, code) => MetaMessageView::Error(text@, code),
            MetaMessage::Chat(text) => MetaMessageView::Chat(text@),
            MetaMessage::EnterRoom(room) => MetaMessageView::EnterRoom(room@),
            MetaMessage::Login(name) => MetaMessageView::Login(name@),
            MetaMessage::Info(text) => MetaMessageView::Info(text@),
            MetaMessage::Ping => MetaMessageView::Ping,
        }
    }
}

/// The control message of kind `typ` that `s` begins with. A login, a room
/// and a notice are one string each, and what follows the string is not
/// looked at; a ping has no body, and what is sent with it is not looked at.
pub open spec fn meta_read(typ: MessageType, s: Seq<u8>) -> Option<MetaMessageView> {
    match typ {
        MessageType::Login => match string_read(s) {
            Some((name, _)) => Some(MetaMessageView::Login(name)),
            None => None,
        },
        MessageType::EnterRoom => match string_read(s) {
            Some((room, _)) => Some(MetaMessageView::EnterRoom(room)),
            None => None,
        },
        MessageType::Ping => Some(MetaMessageView::Ping),
        MessageType::Info => match string_read(s) {
            Some((text, _)) => Some(MetaMessageView::Info(text)),
            None => None,
        },
        _ => None,
    }
}

/// Reads the body of a control message of kind `typ`.
pub fn parse_meta_message(typ: MessageType, input: &[u8]) -> (r: Option<MetaMessage>)
    ensures
        viewed(r) == meta_read(typ, input@),
{
    match typ {
        MessageType::Login => match parse_string(input) {
            Some((name, _)) => Some(MetaMessage::Login(name)),
            None => None,
        },
        MessageType::EnterRoom => match parse_string(input) {
            Some((room, _)) => Some(MetaMessage::EnterRoom(room)),
            None => None,
        },
        MessageType::Ping => Some(MetaMessage::Ping),
        MessageType::Info => match parse_string(input) {
            Some((text, _)) => Some(MetaMessage::Info(text)),
            None => None,
        },
        _ => None,
    }
}

} // verus!
