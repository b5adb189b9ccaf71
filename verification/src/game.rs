//! The messages of the game itself: changed cells, one move, and the replay
//! of a player's moves.
//!
//! The lists in an update and in a replay have no count before them: they run
//! to the end of the message.

use crate::envelope::MessageType;
use crate::point::{
    lemma_move_read_count, move_read, parse_move_private, parse_point_private, point_read, Move,
    Point,
};
use crate::reading::viewed;
use crate::varint::{
    lemma_unbounded_read_after, lemma_unbounded_read_count, parse_unbounded,
    parse_unbounded_private, unbounded_read,
};
use vstd::prelude::*;
use vstd::slice::slice_subrange;

verus! {

/// A message of the game family.
#[derive(Debug, PartialEq, Eq)]
#[allow(inconsistent_fields)]
pub enum GameMessage {
    /// Cells of `player` on a board `width` cells wide, each with its new value,
    /// in the order of the message.
    Update { player: u8, width: u8, cells: Vec<(Point, u32)> },
    /// One move on a board `width` cells wide.
    MoveMessage { width: u32, mov: Move },
    /// The moves of `player` in the order in which they were made, each with
    /// the number of idle turns that went before it.
    Replay { player: u8, width: u32, entries: Vec<(u32, Move)> },
}

/// The model of a game message that the contracts speak of: its lists are
/// sequences.
#[allow(inconsistent_fields)]
pub enum GameMessageView {
    Update { player: u8, width: u8, cells: Seq<(Point, u32)> },
    MoveMessage { width: u32, mov: Move },
    Replay { player: u8, width: u32, entries: Seq<(u32, Move)> },
}

impl View for GameMessage {
    type V = GameMessageView;

    open spec fn view(&self) -> GameMessageView {
        match *self {
            GameMessage::Update { player, width, cells } => GameMessageView::Update {
                player,
                width,
                cells: cells@,
            },
            GameMessage::MoveMessage { width, mov } => GameMessageView::MoveMessage { width, mov },
            GameMessage::Replay { player, width, entries } => GameMessageView::Replay {
                player,
                width,
                entries: entries@,
            },
        }
    }
}

/// The cells that `s` lists from its first byte to its last: each a position
/// and then a value. `None` where a cell is cut short, where a number does not
/// fit in 32 bits, and where there is a cell to read on a board of no width.
pub open spec fn cells_read(s: Seq<u8>, width: u32) -> Option<Seq<(Point, u32)>>
    decreases s.len(),
    via cells_read_ends
{
    if s.len() == 0 {
        Some(Seq::empty())
    } else if width == 0 {
        None
    } else {
        match point_read(s, width) {
            Some((point, n)) => match unbounded_read(s.skip(n as int)) {
                Some((value, m)) => match cells_read(s.skip((n + m) as int), width) {
                    Some(more) => Some(seq![(point, value)] + more),
                    None => None,
                },
                None => None,
            },
            None => None,
        }
    }
}

/// What is left behind a cell is shorter than what the cell was read from.
#[via_fn]
proof fn cells_read_ends(s: Seq<u8>, width: u32) {
    lemma_unbounded_read_count(s);
    if let Some((_, n)) = point_read(s, width) {
        lemma_unbounded_read_count(s.skip(n as int));
    }
}

/// The entries that `s` lists from its first byte to its last: each a number
/// of idle turns and then a move. `None` where an entry is cut short, where a
/// number does not fit in 32 bits, and where there is an entry to read on a
/// board of no width.
pub open spec fn entries_read(s: Seq<u8>, width: u32) -> Option<Seq<(u32, Move)>>
    decreases s.len(),
    via entries_read_ends
{
    if s.len() == 0 {
        Some(Seq::empty())
    } else if width == 0 {
        None
    } else {
        match unbounded_read(s) {
            Some((skip, n)) => match move_read(s.skip(n as int), width) {
                Some((mov, m)) => match entries_read(s.skip((n + m) as int), width) {
                    Some(more) => Some(seq![(skip, mov)] + more),
                    None => None,
                },
                None => None,
            },
            None => None,
        }
    }
}

/// What is left behind an entry is shorter than what the entry was read from.
#[via_fn]
proof fn entries_read_ends(s: Seq<u8>, width: u32) {
    lemma_unbounded_read_count(s);
    if let Some((_, n)) = unbounded_read(s) {
        lemma_move_read_count(s.skip(n as int), width);
    }
}

/// The update that `s` is the body of: the player, the width of the board,
/// then the cells.
pub open spec fn update_read(s: Seq<u8>) -> Option<GameMessageView> {
    if s.len() < 2 {
        None
    } else {
        match cells_read(s.skip(2), s[1] as u32) {
            Some(cells) => Some(GameMessageView::Update { player: s[0], width: s[1], cells }),
            None => None,
        }
    }
}

/// The move message that `s` begins with: the width of the board, then the
/// move. What follows the move is not looked at. `None` where the move is cut
/// short, where a number does not fit in 32 bits, and on a board of no width.
pub open spec fn move_message_read(s: Seq<u8>) -> Option<GameMessageView> {
    if s.len() == 0 || s[0] == 0 {
        None
    } else {
        match move_read(s.skip(1), s[0] as u32) {
            Some((mov, _)) => Some(GameMessageView::MoveMessage { width: s[0] as u32, mov }),
            None => None,
        }
    }
}

/// The replay that `s` is the body of: the player, the width of the board,
/// then the entries.
pub open spec fn replay_read(s: Seq<u8>) -> Option<GameMessageView> {
    if s.len() < 2 {
        None
    } else {
        match entries_read(s.skip(2), s[1] as u32) {
            Some(entries) => Some(
                GameMessageView::Replay { player: s[0], width: s[1] as u32, entries },
            ),
            None => None,
        }
    }
}

/// The game message of kind `typ` that `s` is the body of. Only updates, moves
/// and replays have a body that can be read.
pub open spec fn game_read(typ: MessageType, s: Seq<u8>) -> Option<GameMessageView> {
    match typ {
        MessageType::UpdateCell => update_read(s),
        MessageType::Move => move_message_read(s),
        MessageType::Replay => replay_read(s),
        _ => None,
    }
}

/// The cells that `s` lists, behind the cells `before`.
#[verifier::opaque]
spec fn cells_behind(before: Seq<(Point, u32)>, s: Seq<u8>, width: u32) -> Option<
    Seq<(Point, u32)>,
> {
    match cells_read(s, width) {
        Some(more) => Some(before + more),
        None => None,
    }
}

/// Behind no cells, the cells are those that are listed; and where nothing is
/// listed, they are those read before.
proof fn lemma_cells_behind(before: Seq<(Point, u32)>, s: Seq<u8>, width: u32)
    ensures
        cells_behind(Seq::empty(), s, width) == cells_read(s, width),
        cells_behind(before, Seq::empty(), width) == Some(before),
{
    reveal(cells_behind);
    if let Some(all) = cells_read(s, width) {
        assert(Seq::<(Point, u32)>::empty() + all =~= all);
    }
    assert(before + Seq::<(Point, u32)>::empty() =~= before);
}

/// Reading one cell off `s` moves it behind the cells read before.
proof fn lemma_cell_read(
    before: Seq<(Point, u32)>,
    s: Seq<u8>,
    width: u32,
    point: Point,
    n: nat,
    value: u32,
    m: nat,
)
    requires
        s.len() > 0,
        width > 0,
        point_read(s, width) == Some((point, n)),
        unbounded_read(s.skip(n as int)) == Some((value, m)),
    ensures
        cells_behind(before, s, width) == cells_behind(
            before.push((point, value)),
            s.skip((n + m) as int),
            width,
        ),
{
    reveal(cells_behind);
    if let Some(more) = cells_read(s.skip((n + m) as int), width) {
        assert(before.push((point, value)) + more =~= before + (seq![(point, value)] + more));
    }
}

/// Where the cell at the front of `s` cannot be read, no cells are read.
proof fn lemma_cell_unread(before: Seq<(Point, u32)>, s: Seq<u8>, width: u32)
    requires
        s.len() > 0,
        width == 0 || match point_read(s, width) {
            Some((_, n)) => unbounded_read(s.skip(n as int)) is None,
            None => true,
        },
    ensures
        cells_behind(before, s, width) is None,
{
    reveal(cells_behind);
}

/// Reads the body of an update.
pub fn parse_update(input: &[u8]) -> (r: Option<GameMessage>)
    ensures
        viewed(r) == update_read(input@),
{
    if input.len() < 2 {
        return None;
    }
    let player = input[0];
    let width = input[1];
    let mut cells: Vec<(Point, u32)> = Vec::new();
    let mut at: usize = 2;
    proof {
        lemma_cells_behind(cells@, input@.skip(2), width as u32);
    }
    while at < input.len()
        invariant
            2 <= at <= input.len(),
            player == input@[0],
            width == input@[1],
            cells_read(input@.skip(2), width as u32) == cells_behind(
                cells@,
                input@.skip(at as int),
                width as u32,
            ),
        decreases input.len() - at,
    {
        let ghost s = input@.skip(at as int);
        if width == 0 {
            proof {
                lemma_cell_unread(cells@, s, width as u32);
            }
            return None;
        }
        let first = input[at];
        let rest = slice_subrange(input, at + 1, input.len());
        proof {
            assert(seq![first] + rest@ =~= s);
            lemma_unbounded_read_after(first, rest@);
        }
        let (point, n) = match parse_point_private(first, rest, width as u32) {
            Some(read) => read,
            None => {
                proof {
                    lemma_cell_unread(cells@, s, width as u32);
                }
                return None;
            },
        };
        let rest = slice_subrange(input, at + 1 + n, input.len());
        assert(rest@ =~= s.skip(n + 1));
        let (value, m) = match parse_unbounded(rest) {
            Some(read) => read,
            None => {
                proof {
                    lemma_cell_unread(cells@, s, width as u32);
                }
                return None;
            },
        };
        proof {
            lemma_cell_read(cells@, s, width as u32, point, (n + 1) as nat, value, m as nat);
            assert(s.skip(n + 1 + m) =~= input@.skip(at + 1 + n + m));
        }
        cells.push((point, value));
        at = at + 1 + n + m;
    }
    proof {
        assert(input@.skip(at as int) =~= Seq::<u8>::empty());
        lemma_cells_behind(cells@, input@.skip(2), width as u32);
    }
    Some(GameMessage::Update { player, width, cells })
}

/// Reads a move message.
pub fn parse_move(input: &[u8]) -> (r: Option<GameMessage>)
    ensures
        viewed(r) == move_message_read(input@),
{
    if input.len() == 0 {
        return None;
    }
    let width = input[0] as u32;
    if width == 0 {
        return None;
    }
    let rest = slice_subrange(input, 1, input.len());
    match parse_move_private(rest, width) {
        Some((mov, _)) => Some(GameMessage::MoveMessage { width, mov }),
        None => None,
    }
}

/// The entries that `s` lists, behind the entries `before`.
#[verifier::opaque]
spec fn entries_behind(before: Seq<(u32, Move)>, s: Seq<u8>, width: u32) -> Option<
    Seq<(u32, Move)>,
> {
    match entries_read(s, width) {
        Some(more) => Some(before + more),
        None => None,
    }
}

/// Behind no entries, the entries are those that are listed; and where nothing
/// is listed, they are those read before.
proof fn lemma_entries_behind(before: Seq<(u32, Move)>, s: Seq<u8>, width: u32)
    ensures
        entries_behind(Seq::empty(), s, width) == entries_read(s, width),
        entries_behind(before, Seq::empty(), width) == Some(before),
{
    reveal(entries_behind);
    if let Some(all) = entries_read(s, width) {
        assert(Seq::<(u32, Move)>::empty() + all =~= all);
    }
    assert(before + Seq::<(u32, Move)>::empty() =~= before);
}

/// Reading one entry off `s` moves it behind the entries read before.
proof fn lemma_entry_read(
    before: Seq<(u32, Move)>,
    s: Seq<u8>,
    width: u32,
    skip: u32,
    n: nat,
    mov: Move,
    m: nat,
)
    requires
        s.len() > 0,
        width > 0,
        unbounded_read(s) == Some((skip, n)),
        move_read(s.skip(n as int), width) == Some((mov, m)),
    ensures
        entries_behind(before, s, width) == entries_behind(
            before.push((skip, mov)),
            s.skip((n + m) as int),
            width,
        ),
{
    reveal(entries_behind);
    if let Some(more) = entries_read(s.skip((n + m) as int), width) {
        assert(before.push((skip, mov)) + more =~= before + (seq![(skip, mov)] + more));
    }
}

/// Where the entry at the front of `s` cannot be read, no entries are read.
proof fn lemma_entry_unread(before: Seq<(u32, Move)>, s: Seq<u8>, width: u32)
    requires
        s.len() > 0,
        width == 0 || match unbounded_read(s) {
            Some((_, n)) => move_read(s.skip(n as int), width) is None,
            None => true,
        },
    ensures
        entries_behind(before, s, width) is None,
{
    reveal(entries_behind);
}

/// Reads the body of a replay.
pub fn parse_replay(input: &[u8]) -> (r: Option<GameMessage>)
    ensures
        viewed(r) == replay_read(input@),
{
    if input.len() < 2 {
        return None;
    }
    let player = input[0];
    let width = input[1] as u32;
    let mut entries: Vec<(u32, Move)> = Vec::new();
    let mut at: usize = 2;
    proof {
        lemma_entries_behind(entries@, input@.skip(2), width);
    }
    while at < input.len()
        invariant
            2 <= at <= input.len(),
            player == input@[0],
            width == input@[1],
            entries_read(input@.skip(2), width) == entries_behind(
                entries@,
                input@.skip(at as int),
                width,
            ),
        decreases input.len() - at,
    {
        let ghost s = input@.skip(at as int);
        if width == 0 {
            proof {
                lemma_entry_unread(entries@, s, width);
            }
            return None;
        }
        let first = input[at];
        let rest = slice_subrange(input, at + 1, input.len());
        proof {
            assert(seq![first] + rest@ =~= s);
            lemma_unbounded_read_after(first, rest@);
        }
        let (skip, n) = match parse_unbounded_private(first, rest) {
            Some(read) => read,
            None => {
                proof {
                    lemma_entry_unread(entries@, s, width);
                }
                return None;
            },
        };
        let rest = slice_subrange(input, at + 1 + n, input.len());
        assert(rest@ =~= s.skip(n + 1));
        let (mov, m) = match parse_move_private(rest, width) {
            Some(read) => read,
            None => {
                proof {
                    lemma_entry_unread(entries@, s, width);
                }
                return None;
            },
        };
        proof {
            lemma_entry_read(entries@, s, width, skip, (n + 1) as nat, mov, m as nat);
            assert(s.skip(n + 1 + m) =~= input@.skip(at + 1 + n + m));
        }
        entries.push((skip, mov));
        at = at + 1 + n + m;
    }
    proof {
        assert(input@.skip(at as int) =~= Seq::<u8>::empty());
        lemma_entries_behind(entries@, input@.skip(2), width);
    }
    Some(GameMessage::Replay { player, width, entries })
}

/// Reads the body of a game message of kind `typ`.
pub fn parse_game_message(typ: MessageType, input: &[u8]) -> (r: Option<GameMessage>)
    ensures
        viewed(r) == game_read(typ, input@),
{
    match typ {
        MessageType::UpdateCell => parse_update(input),
        MessageType::Move => parse_move(input),
        MessageType::Replay => parse_replay(input),
        _ => None,
    }
}

} // verus!
