//! Reads many generated messages twice: with the library, and with a reader
//! written here in the plainest way, one byte at a time.

use grid_messages::envelope::MessageType;
use grid_messages::game::GameMessage;
use grid_messages::messages::{parse_message, Message};
use grid_messages::meta::MetaMessage;
use grid_messages::point::{Move, Point};

struct Bytes<'a> {
    data: &'a [u8],
    at: usize,
}

impl<'a> Bytes<'a> {
    fn next(&mut self) -> Option<u8> {
        let byte = *self.data.get(self.at)?;
        self.at += 1;
        Some(byte)
    }

    fn is_empty(&self) -> bool {
        self.at >= self.data.len()
    }
}

/// The integer at the read position; values above 32 bits are kept as
/// `u64::MAX` until the integer has been read to its end.
fn plain_wide(bytes: &mut Bytes) -> Option<u64> {
    let first = bytes.next()?;
    if first != 0xFF {
        return Some(first as u64);
    }
    let digit = bytes.next()?;
    let high = plain_wide(bytes)?;
    Some(high.checked_mul(256).and_then(|v| v.checked_add(digit as u64)).unwrap_or(u64::MAX))
}

fn plain_unbounded(bytes: &mut Bytes) -> Option<u32> {
    let wide = plain_wide(bytes)?;
    u32::try_from(wide).ok()
}

fn plain_point(bytes: &mut Bytes, width: u32) -> Option<Point> {
    let index = plain_unbounded(bytes)?;
    if width == 0 {
        return None;
    }
    Some(Point { x: index % width, y: index / width })
}

fn plain_move(bytes: &mut Bytes, width: u32) -> Option<Move> {
    let point = plain_point(bytes, width)?;
    let direction = bytes.next()?;
    let units = plain_unbounded(bytes)?;
    Some(Move { point, direction, units })
}

fn plain_string(bytes: &mut Bytes) -> Option<String> {
    let len = plain_unbounded(bytes)? as usize;
    let mut text = Vec::new();
    for _ in 0..len {
        text.push(bytes.next()?);
    }
    String::from_utf8(text).ok()
}

fn plain_game(kind: u8, bytes: &mut Bytes) -> Option<GameMessage> {
    match kind {
        1 => {
            let player = bytes.next()?;
            let width = bytes.next()?;
            let mut cells = Vec::new();
            while !bytes.is_empty() {
                let point = plain_point(bytes, width as u32)?;
                let value = plain_unbounded(bytes)?;
                cells.push((point, value));
            }
            Some(GameMessage::Update { player, width, cells })
        }
        2 => {
            let width = bytes.next()? as u32;
            let mov = plain_move(bytes, width)?;
            Some(GameMessage::MoveMessage { width, mov })
        }
        4 => {
            let player = bytes.next()?;
            let width = bytes.next()? as u32;
            let mut entries = Vec::new();
            while !bytes.is_empty() {
                let skip = plain_unbounded(bytes)?;
                let mov = plain_move(bytes, width)?;
                entries.push((skip, mov));
            }
            Some(GameMessage::Replay { player, width, entries })
        }
        _ => None,
    }
}

fn plain_meta(kind: u8, bytes: &mut Bytes) -> Option<MetaMessage> {
    match kind {
        1 => Some(MetaMessage::Login(plain_string(bytes)?)),
        2 => Some(MetaMessage::EnterRoom(plain_string(bytes)?)),
        3 => Some(MetaMessage::Ping),
        4 => Some(MetaMessage::Info(plain_string(bytes)?)),
        _ => None,
    }
}

/// The message, or `None` where the library is to answer `MalformedMessage`.
fn plain_message(data: &[u8]) -> Option<Message> {
    let first = data.first().copied().unwrap_or(0);
    if first >= 128 {
        return None;
    }
    let kind = first % 16;
    if kind == 0 || kind > 4 {
        return None;
    }
    let mut bytes = Bytes { data, at: if data.is_empty() { 0 } else { 1 } };
    if (first / 64) % 2 == 1 {
        plain_meta(kind, &mut bytes).map(Message::Meta)
    } else {
        plain_game(kind, &mut bytes).map(Message::Game)
    }
}

struct Dice(u64);

impl Dice {
    fn roll(&mut self) -> u64 {
        self.0 = self.0.wrapping_mul(6364136223846793005).wrapping_add(1442695040888963407);
        self.0 >> 33
    }

    fn byte(&mut self) -> u8 {
        match self.roll() % 8 {
            0 | 1 => 0xFF,
            2 => 0,
            3 | 4 => (self.roll() % 8) as u8,
            5 => b'a' + (self.roll() % 26) as u8,
            _ => self.roll() as u8,
        }
    }

    fn message(&mut self) -> Vec<u8> {
        let firsts = [0x01u8, 0x02, 0x03, 0x04, 0x41, 0x42, 0x43, 0x44, 0x21, 0x52, 0x00, 0x45];
        let mut data = Vec::new();
        let len = self.roll() % 24;
        if len > 0 {
            let first = if self.roll() % 8 == 0 {
                self.roll() as u8
            } else {
                firsts[(self.roll() % firsts.len() as u64) as usize]
            };
            data.push(first);
        }
        for _ in 1..len {
            let byte = self.byte();
            data.push(byte);
        }
        data
    }
}

fn cross_check(data: Vec<u8>) {
    let plain = plain_message(&data);
    match parse_message(data.clone()) {
        Ok(message) => assert_eq!(Some(message), plain, "reading {:?}", data),
        Err(error) => {
            assert_eq!(error.code, MessageType::MalformedMessage);
            assert_eq!(None, plain, "reading {:?}", data);
        }
    }
}

#[test]
fn generated_messages_are_read_as_by_the_plain_reader() {
    let mut dice = Dice(0x2545_F491_4F6C_DD1D);
    let mut read = 0;
    for _ in 0..200_000 {
        let data = dice.message();
        if plain_message(&data).is_some() {
            read += 1;
        }
        cross_check(data);
    }
    // the generator is of use only if it makes messages of both sorts
    assert!(read > 20_000, "{} well-formed messages", read);
    assert!(read < 180_000, "{} well-formed messages", read);
}

#[test]
fn every_short_message_is_read_as_by_the_plain_reader() {
    for first in 0..=255u8 {
        cross_check(vec![first]);
        for second in 0..=255u8 {
            cross_check(vec![first, second]);
        }
    }
    for first in [0x01u8, 0x02, 0x04, 0x41, 0x43] {
        for second in [0u8, 1, 5, 255] {
            for third in 0..=255u8 {
                cross_check(vec![first, second, third]);
                for fourth in [0u8, 1, 7, 0x80, 0xFE, 0xFF] {
                    cross_check(vec![first, second, third, fourth]);
                    cross_check(vec![first, second, third, fourth, 0]);
                    cross_check(vec![first, second, third, fourth, 0xFF, 3]);
                }
            }
        }
    }
}
