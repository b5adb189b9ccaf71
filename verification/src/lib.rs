//! The wire format of a grid-based multiplayer game: reading the messages that
//! a client sends, and writing the integers, positions and strings they are
//! made of.
//!
//! A message is one byte of flags and kind ([`envelope`]) and a body, which is
//! a game message ([`game`]) or a control message ([`meta`]). Bodies are built
//! from variable-length integers ([`varint`]), positions and moves
//! ([`point`]), and strings ([`text`]). [`messages::parse_message`] reads a
//! whole message.
//!
//! Every function here works on bytes that are in memory already and keeps
//! nothing between calls.

pub mod envelope;
pub mod game;
pub mod messages;
pub mod meta;
pub mod point;
pub mod reading;
pub mod text;
pub mod varint;
