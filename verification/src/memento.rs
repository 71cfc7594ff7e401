//! Reading a reported state of the game out of a tree of elements.
use crate::board::Board;
use crate::placement::{holds_pieces, Placement};
use crate::gamestate::Gamestate;
use crate::nibble::Nibble;
use crate::piece::PieceType;
use crate::team::Team;
use crate::xml_node::XmlNode;
use vstd::prelude::*;
use vstd::string::StrSliceExecFns;
use vstd::utf8::is_ascii_chars;

verus! {

/// Whether the character is one of the ten digits.
pub open spec fn is_digit(c: char) -> bool {
    '0' <= c <= '9'
}

/// The number that the first `n` characters spell in base ten, if they are
/// digits.
pub open spec fn digits_value(s: Seq<char>, n: int) -> int
    decreases n,
{
    if n <= 0 {
        0
    } else {
        digits_value(s, n - 1) * 10 + (s[n - 1] as int - '0' as int)
    }
}

/// Whether every character is a digit.
pub open spec fn all_digits(s: Seq<char>) -> bool {
    forall|i: int| 0 <= i < s.len() ==> is_digit(#[trigger] s[i])
}

/// The number below 256 that a text spells: one or more digits, with or
/// without a plus sign in front, and nothing else.
pub open spec fn decimal_u8(s: Seq<char>) -> Option<u8> {
    let digits = if s.len() > 0 && s[0] == '+' {
        s.skip(1)
    } else {
        s
    };
    if digits.len() > 0 && all_digits(digits) && digits_value(digits, digits.len() as int) <= 255 {
        Some(digits_value(digits, digits.len() as int) as u8)
    } else {
        None
    }
}

/// More digits never spell a smaller number.
proof fn lemma_digits_grow(s: Seq<char>, n: int, m: int)
    requires
        0 <= n <= m <= s.len(),
        all_digits(s),
    ensures
        0 <= digits_value(s, n) <= digits_value(s, m),
    decreases m,
{
    if n < m {
        lemma_digits_grow(s, n, m - 1);
        assert(is_digit(s[m - 1]));
    } else if n > 0 {
        lemma_digits_grow(s, n - 1, n - 1);
        assert(is_digit(s[n - 1]));
    }
}

/// The number below 256 that `text` spells.
pub fn parse_u8(text: &str) -> (r: Option<u8>)
    ensures
        r == decimal_u8(text@),
{
    if !text.is_ascii() {
        proof {
            lemma_not_ascii(text@);
        }
        return None;
    }
    let n = text.unicode_len();
    let start: usize = if n > 0 && text.get_ascii(0) == 43 {
        1
    } else {
        0
    };
    proof {
        if n > 0 {
            assert('\0' <= text@[0] <= '\u{7f}');
            assert((text@[0] == '+') == (start == 1));
        }
    }
    let ghost digits = if text@.len() > 0 && text@[0] == '+' {
        text@.skip(1)
    } else {
        text@
    };
    assert(digits =~= text@.skip(start as int));
    if start == n {
        return None;
    }
    let mut value: u16 = 0;
    let mut i: usize = start;
    while i < n
        invariant
            start <= i <= n,
            n == text@.len(),
            text.is_ascii(),
            digits == text@.skip(start as int),
            digits == if text@.len() > 0 && text@[0] == '+' {
                text@.skip(1)
            } else {
                text@
            },
            value <= 255,
            value == digits_value(digits, i - start),
            forall|k: int| 0 <= k < i - start ==> is_digit(#[trigger] digits[k]),
        decreases n - i,
    {
        let c = text.get_ascii(i);
        proof {
            assert('\0' <= text@[i as int] <= '\u{7f}');
            assert(is_digit(text@[i as int]) == (48 <= c <= 57));
            assert(text@[i as int] as int - '0' as int == c - 48);
        }
        if c < 48 || c > 57 {
            proof {
                assert(digits[i - start] == text@[i as int]);
                assert(!is_digit(digits[i - start]));
            }
            return None;
        }
        let next: u16 = value * 10 + (c - 48) as u16;
        proof {
            assert(digits[i - start] == text@[i as int]);
            assert(is_digit(digits[i - start]));
            assert(next == digits_value(digits, i - start + 1));
        }
        if next > 255 {
            proof {
                if all_digits(digits) {
                    lemma_digits_grow(digits, i - start + 1, digits.len() as int);
                }
            }
            return None;
        }
        value = next;
        i += 1;
    }
    proof {
        assert(all_digits(digits));
    }
    Some(value as u8)
}

/// A text with a character beyond the ASCII range spells no number.
proof fn lemma_not_ascii(s: Seq<char>)
    requires
        !is_ascii_chars(s),
    ensures
        decimal_u8(s) is None,
{
    let i = choose|i: int| 0 <= i < s.len() && !('\0' <= #[trigger] s[i] <= '\u{7f}');
    let digits = if s.len() > 0 && s[0] == '+' {
        s.skip(1)
    } else {
        s
    };
    if digits.len() > 0 && all_digits(digits) {
        if s[0] == '+' {
            assert(i != 0);
            assert(is_digit(digits[i - 1]));
        } else {
            assert(is_digit(digits[i]));
        }
    }
}

/// The piece that one entry of a reported board describes: a child
/// `coordinates` with the attributes `x` and `y`, both below 8, and a child
/// `piece` with the attributes `type`, `team` and `count`. A count of 2 makes
/// the piece a stack; any other count, or one that spells no number, does
/// not.
pub open spec fn placement_of(entry: XmlNode) -> Option<Placement> {
    match (entry.child_named("coordinates"@), entry.child_named("piece"@)) {
        (Some(coordinates), Some(piece)) => match (
            coordinates.first_value_of("x"@),
            coordinates.first_value_of("y"@),
            piece.first_value_of("type"@),
            piece.first_value_of("team"@),
            piece.first_value_of("count"@),
        ) {
            (Some(x), Some(y), Some(kind), Some(team), Some(count)) => match (
                decimal_u8(x),
                decimal_u8(y),
                PieceType::named(kind),
                Team::named(team),
            ) {
                (Some(x), Some(y), Some(kind), Some(team)) => if x < 8 && y < 8 {
                    Some(
                        Placement {
                            x,
                            y,
                            team,
                            piece: kind,
                            stacked: decimal_u8(count) == Some(2u8),
                        },
                    )
                } else {
                    None
                },
                _ => None,
            },
            _ => None,
        },
        _ => None,
    }
}

/// The pieces that the first `n` entries describe, if every one of them
/// describes a piece.
pub open spec fn placements_of(entries: Seq<XmlNode>, n: int) -> Option<Seq<Placement>>
    decreases n,
{
    if n <= 0 {
        Some(Seq::empty())
    } else {
        match (placements_of(entries, n - 1), placement_of(entries[n - 1])) {
            (Some(before), Some(p)) => Some(before.push(p)),
            _ => None,
        }
    }
}

/// The pieces that a reported board describes: those of the entries of its
/// child `pieces`.
pub open spec fn board_placements(node: XmlNode) -> Option<Seq<Placement>> {
    match node.child_named("pieces"@) {
        Some(pieces) => placements_of(pieces.children@, pieces.children@.len() as int),
        None => None,
    }
}

/// The number of the turn that a reported state carries in its attribute
/// `turn`.
pub open spec fn reported_turn(node: XmlNode) -> Option<u8> {
    match node.first_value_of("turn"@) {
        Some(text) => decimal_u8(text),
        None => None,
    }
}

/// Whether a reported state is of the expected form: it carries a turn
/// number and a child `board` that describes pieces.
pub open spec fn well_reported(node: XmlNode) -> bool {
    &&& reported_turn(node) is Some
    &&& node.child_named("board"@) is Some
    &&& board_placements(node.child_named("board"@).unwrap()) is Some
}

/// The pieces of a reported state of the expected form.
pub open spec fn reported_pieces(node: XmlNode) -> Seq<Placement> {
    board_placements(node.child_named("board"@).unwrap()).unwrap()
}

/// The piece that one entry of a reported board describes.
pub fn read_placement(entry: &XmlNode) -> (r: Option<Placement>)
    ensures
        r == placement_of(*entry),
{
    let coordinates = match entry.child("coordinates") {
        Some(node) => node,
        None => { return None; },
    };
    let piece = match entry.child("piece") {
        Some(node) => node,
        None => { return None; },
    };
    let x = match coordinates.first_value("x") {
        Some(text) => text,
        None => { return None; },
    };
    let y = match coordinates.first_value("y") {
        Some(text) => text,
        None => { return None; },
    };
    let kind = match piece.first_value("type") {
        Some(text) => text,
        None => { return None; },
    };
    let team = match piece.first_value("team") {
        Some(text) => text,
        None => { return None; },
    };
    let count = match piece.first_value("count") {
        Some(text) => text,
        None => { return None; },
    };
    let x = match parse_u8(x.as_str()) {
        Some(v) => v,
        None => { return None; },
    };
    let y = match parse_u8(y.as_str()) {
        Some(v) => v,
        None => { return None; },
    };
    let kind = match PieceType::piece_type_from_name(kind) {
        Some(v) => v,
        None => { return None; },
    };
    let team = match Team::from_name(team) {
        Some(v) => v,
        None => { return None; },
    };
    if x >= 8 || y >= 8 {
        return None;
    }
    let stacked = match parse_u8(count.as_str()) {
        Some(2) => true,
        _ => false,
    };
    Some(Placement { x, y, team, piece: kind, stacked })
}

/// The pieces that a reported board describes.
pub fn read_placements(node: &XmlNode) -> (r: Option<Vec<Placement>>)
    ensures
        match r {
            Some(list) => board_placements(*node) == Some(list@),
            None => board_placements(*node) is None,
        },
        r matches Some(list) ==> forall|i: int|
            0 <= i < list.len() ==> (#[trigger] list[i]).x < 8 && list[i].y < 8,
{
    let pieces = match node.child("pieces") {
        Some(node) => node,
        None => { return None; },
    };
    let mut list: Vec<Placement> = Vec::new();
    let mut i: usize = 0;
    while i < pieces.children.len()
        invariant
            i <= pieces.children.len(),
            node.child_named("pieces"@) == Some(*pieces),
            placements_of(pieces.children@, i as int) == Some(list@),
            forall|k: int| 0 <= k < list.len() ==> (#[trigger] list[k]).x < 8 && list[k].y < 8,
        decreases pieces.children.len() - i,
    {
        match read_placement(&pieces.children[i]) {
            Some(p) => {
                list.push(p);
            },
            None => {
                proof {
                    assert(placements_of(pieces.children@, i as int + 1) is None);
                    lemma_placements_fail(
                        pieces.children@,
                        i as int + 1,
                        pieces.children@.len() as int,
                    );
                }
                return None;
            },
        }
        i += 1;
    }
    Some(list)
}

/// Once an entry describes no piece, no longer list of entries does.
proof fn lemma_placements_fail(entries: Seq<XmlNode>, n: int, m: int)
    requires
        0 <= n <= m,
        placements_of(entries, n) is None,
    ensures
        placements_of(entries, m) is None,
    decreases m - n,
{
    if n < m {
        lemma_placements_fail(entries, n, m - 1);
    }
}

impl Board {
    /// The position that a reported board describes, side ONE being the side
    /// to move: none where the report is not of the expected form, else the
    /// position that holds the reported pieces.
    pub fn from_node(node: &XmlNode) -> (r: Option<Board>)
        ensures
            r is Some <==> board_placements(*node) is Some,
            r matches Some(board) ==> holds_pieces(
                board,
                board_placements(*node).unwrap(),
                board_placements(*node).unwrap().len() as int,
            ),
    {
        match read_placements(node) {
            Some(list) => Some(Board::from_pieces(&list)),
            None => None,
        }
    }
}

impl Gamestate {
    /// The state that a report describes: its turn number, the position of
    /// its child `board`, the maximizing player to move and no points yet.
    /// None where the report is not of the expected form.
    pub fn from_node(node: &XmlNode) -> (r: Option<Gamestate>)
        ensures
            r is Some <==> well_reported(*node),
            r matches Some(state) ==> {
                let pieces = reported_pieces(*node);
                &&& state.turn == reported_turn(*node).unwrap()
                &&& state.maximizing_player
                &&& state.points.left() == 0
                &&& state.points.right() == 0
                &&& holds_pieces(state.board, pieces, pieces.len() as int)
            },
    {
        let turn = match node.first_value("turn") {
            Some(text) => match parse_u8(text.as_str()) {
                Some(turn) => turn,
                None => { return None; },
            },
            None => { return None; },
        };
        let board_node = match node.child("board") {
            Some(node) => node,
            None => { return None; },
        };
        let board = match Board::from_node(board_node) {
            Some(board) => board,
            None => { return None; },
        };
        Some(Gamestate { points: Nibble::new(), board, turn, maximizing_player: true })
    }
}

} // verus!
