//! What a client of the game server does with the messages it receives.
use crate::gamestate::Gamestate;
use crate::board::Board;
use crate::placement::holds_pieces;
use crate::game_move::Move;
use crate::memento::{reported_pieces, reported_turn, well_reported};
use crate::team::Team;
use crate::xml_node::XmlNode;
use vstd::prelude::*;
use vstd::string::StringExecFns;

verus! {

/// How to join a game: any open game, the game in a room, or a game for
/// which a place was reserved.
pub enum Join<'a> {
    ANY,
    ROOM(&'a str),
    PREPARED(&'a str),
}

impl<'a> Join<'a> {
    /// The text of the request to join.
    pub open spec fn request_text(self) -> Seq<char> {
        match self {
            Join::ANY => "<protocol><join/>"@,
            Join::ROOM(room_id) => "<protocol><joinRoom roomId=\""@ + room_id@ + "\"/>"@,
            Join::PREPARED(reservation) => "<protocol><joinPrepared reservationCode=\""@
                + reservation@ + "\"/>"@,
        }
    }

    /// The request that opens the protocol and asks to join.
    pub fn request(&self) -> (r: String)
        ensures
            r@ == self.request_text(),
    {
        match self {
            Join::ANY => "<protocol><join/>".to_owned(),
            Join::ROOM(room_id) => {
                let mut text = "<protocol><joinRoom roomId=\"".to_owned();
                text.append(room_id);
                text.append("\"/>");
                text
            },
            Join::PREPARED(reservation) => {
                let mut text = "<protocol><joinPrepared reservationCode=\"".to_owned();
                text.append(reservation);
                text.append("\"/>");
                text
            },
        }
    }
}

/// The digit that stands for a column or a row.
pub open spec fn digit_text(v: int) -> Seq<char> {
    if v == 0 {
        "0"@
    } else if v == 1 {
        "1"@
    } else if v == 2 {
        "2"@
    } else if v == 3 {
        "3"@
    } else if v == 4 {
        "4"@
    } else if v == 5 {
        "5"@
    } else if v == 6 {
        "6"@
    } else {
        "7"@
    }
}

/// The digit that stands for a column or a row.
fn digit(v: i32) -> (r: &'static str)
    requires
        0 <= v < 8,
    ensures
        r@ == digit_text(v as int),
{
    if v == 0 {
        "0"
    } else if v == 1 {
        "1"
    } else if v == 2 {
        "2"
    } else if v == 3 {
        "3"
    } else if v == 4 {
        "4"
    } else if v == 5 {
        "5"
    } else if v == 6 {
        "6"
    } else {
        "7"
    }
}

/// The text of the message that tells the room `room_id` of a move.
pub open spec fn move_text(room_id: Seq<char>, mv: Move) -> Seq<char> {
    "<room roomId=\""@ + room_id + "\"><data class=\"move\"><from x=\""@ + digit_text(
        mv.origin.x as int,
    ) + "\" y=\""@ + digit_text(mv.origin.y as int) + "\"/><to x=\""@ + digit_text(
        mv.result.x as int,
    ) + "\" y=\""@ + digit_text(mv.result.y as int) + "\"/></data></room>"@
}

/// The message that tells the room `room_id` of a move.
pub fn move_message(room_id: &str, mv: &Move) -> (r: String)
    requires
        mv.origin.on_grid(),
        mv.result.on_grid(),
    ensures
        r@ == move_text(room_id@, *mv),
{
    let mut text = "<room roomId=\"".to_owned();
    text.append(room_id);
    text.append("\"><data class=\"move\"><from x=\"");
    text.append(digit(mv.origin.x));
    text.append("\" y=\"");
    text.append(digit(mv.origin.y));
    text.append("\"/><to x=\"");
    text.append(digit(mv.result.x));
    text.append("\" y=\"");
    text.append(digit(mv.result.y));
    text.append("\"/></data></room>");
    text
}

/// What a received message asks of the client.
#[derive(Clone, Copy, Debug, PartialEq, Eq, Structural)]
pub enum Event {
    /// The protocol has ended.
    End,
    /// A new state of the game is reported.
    Memento,
    /// The client is asked for its move.
    MoveRequest,
    /// The server welcomes the client.
    Welcome,
    /// The result of the game is reported.
    Result,
    /// A data message of a class that the client does not know, or without
    /// a class.
    UnknownClass,
    /// A message that is neither the end of the protocol nor data.
    UnknownMessage,
}

/// What a message with the given name and the given class asks of the
/// client.
pub open spec fn event_of(name: Seq<char>, class: Option<Seq<char>>) -> Event {
    if name == "protocol"@ {
        Event::End
    } else if name == "data"@ {
        match class {
            Some(class) => if class == "memento"@ {
                Event::Memento
            } else if class == "moveRequest"@ {
                Event::MoveRequest
            } else if class == "welcomeMessage"@ {
                Event::Welcome
            } else if class == "result"@ {
                Event::Result
            } else {
                Event::UnknownClass
            },
            None => Event::UnknownClass,
        }
    } else {
        Event::UnknownMessage
    }
}

/// What a received message asks of the client, by its name and by the first
/// value of its attribute `class`.
pub fn classify(node: &XmlNode) -> (r: Event)
    ensures
        r == event_of(node.name@, node.first_value_of("class"@)),
{
    if node.name == "protocol".to_owned() {
        Event::End
    } else if node.name == "data".to_owned() {
        match node.first_value("class") {
            Some(class) => {
                if *class == "memento".to_owned() {
                    Event::Memento
                } else if *class == "moveRequest".to_owned() {
                    Event::MoveRequest
                } else if *class == "welcomeMessage".to_owned() {
                    Event::Welcome
                } else if *class == "result".to_owned() {
                    Event::Result
                } else {
                    Event::UnknownClass
                }
            },
            None => Event::UnknownClass,
        }
    } else {
        Event::UnknownMessage
    }
}

/// The state that a memento reports, in the frame in which `team` plays:
/// the state of its child `state`, the position turned towards the side and
/// mirrored. None where the memento is not of the expected form.
pub fn received_state(data_node: &XmlNode, team: &Team) -> (r: Option<Gamestate>)
    ensures
        r is Some <==> (data_node.child_named("state"@) is Some && well_reported(
            data_node.child_named("state"@).unwrap(),
        )),
        r matches Some(state) ==> {
            let node = data_node.child_named("state"@).unwrap();
            &&& state.turn == reported_turn(node).unwrap()
            &&& state.maximizing_player
            &&& state.points.left() == 0
            &&& state.points.right() == 0
            &&& exists|reported: Board|
                holds_pieces(reported, reported_pieces(node), reported_pieces(node).len() as int)
                    && state.board == reported.turned_for(*team).mirrored()
        },
{
    let state = match data_node.child("state") {
        Some(node) => node,
        None => { return None; },
    };
    let mut gamestate = match Gamestate::from_node(state) {
        Some(gamestate) => gamestate,
        None => { return None; },
    };
    let ghost reported = gamestate.board;
    gamestate.board.reorient(team);
    proof {
        assert(gamestate.board == reported.turned_for(*team).mirrored());
    }
    Some(gamestate)
}

} // verus!
