use softwarechallenge_2022::board::Board;
use softwarechallenge_2022::placement::Placement;
use softwarechallenge_2022::game::{classify, move_message, received_state, Event, Join};
use softwarechallenge_2022::game_move::Move;
use softwarechallenge_2022::vec2::Vec2;
use softwarechallenge_2022::gamestate::Gamestate;
use softwarechallenge_2022::memento::{parse_u8, read_placement, read_placements};
use softwarechallenge_2022::piece::PieceType;
use softwarechallenge_2022::team::Team;
use softwarechallenge_2022::xml_node::{NodeStack, XmlNode};

fn element(name: &str, attributes: &[(&str, &str)], children: Vec<XmlNode>) -> XmlNode {
    let mut node = XmlNode::new();
    node.name = String::from(name);
    for &(key, value) in attributes {
        node.add_attribute(String::from(key), String::from(value));
    }
    node.children = children;
    node
}

fn entry(x: &str, y: &str, kind: &str, team: &str, count: &str) -> XmlNode {
    element(
        "entry",
        &[],
        vec![
            element("coordinates", &[("x", x), ("y", y)], vec![]),
            element("piece", &[("type", kind), ("team", team), ("count", count)], vec![]),
        ],
    )
}

fn board(entries: Vec<XmlNode>) -> XmlNode {
    element("board", &[], vec![element("pieces", &[], entries)])
}

fn cell(x: u8, y: u8) -> u64 {
    1u64 << (8 * y + 7 - x)
}

fn pairs(list: &[(&str, &str)]) -> Vec<(String, String)> {
    list.iter().map(|&(k, v)| (String::from(k), String::from(v))).collect()
}

#[test]
fn new_node_is_empty() {
    let n = XmlNode::new();
    assert_eq!(n.name, "");
    assert_eq!(n.data, "");
    assert!(n.attributes.is_empty());
    assert!(n.children.is_empty());
}

#[test]
fn child_is_the_first_of_that_name() {
    let mut first = element("piece", &[], vec![]);
    first.data = String::from("first");
    let mut second = element("piece", &[], vec![]);
    second.data = String::from("second");
    let node = element("entry", &[], vec![element("coordinates", &[], vec![]), first, second]);
    assert_eq!(node.child("piece").unwrap().data, "first");
    assert_eq!(node.child("coordinates").unwrap().name, "coordinates");
    assert!(node.child("pieces").is_none());
    assert!(node.child("").is_none());
    assert!(XmlNode::new().child("piece").is_none());
}

#[test]
fn attribute_values_are_kept_in_order() {
    let node = element("a", &[("x", "1"), ("y", "2"), ("x", "3")], vec![]);
    assert_eq!(node.attributes.len(), 2);
    assert_eq!(node.attribute("x").unwrap(), &vec![String::from("1"), String::from("3")]);
    assert_eq!(node.attribute("y").unwrap(), &vec![String::from("2")]);
    assert!(node.attribute("z").is_none());
    assert_eq!(node.first_value("x").unwrap(), "1");
    assert_eq!(node.first_value("y").unwrap(), "2");
    assert!(node.first_value("z").is_none());
}

#[test]
fn first_value_of_an_attribute_without_values_is_none() {
    let mut node = element("a", &[("x", "1")], vec![]);
    node.attributes[0].values.clear();
    assert!(node.attribute("x").unwrap().is_empty());
    assert!(node.first_value("x").is_none());
}

#[test]
fn reading_a_message_builds_the_tree() {
    let mut stack = NodeStack::new();
    assert!(stack.end_element().is_none());
    stack.start_element(String::from("protocol"), &pairs(&[]));
    stack.start_element(String::from("room"), &pairs(&[("roomId", "abc")]));
    stack.start_element(String::from("data"), &pairs(&[("class", "memento")]));
    stack.start_element(String::from("state"), &pairs(&[("turn", "3"), ("turn", "4")]));
    stack.characters("some ");
    stack.characters("text");
    assert!(stack.end_element().is_none());
    assert_eq!(stack.nodes.len(), 3);
    stack.start_element(String::from("extra"), &pairs(&[]));
    assert!(stack.end_element().is_none());
    assert!(stack.end_element().is_none());
    assert_eq!(stack.nodes.len(), 2);
    let room = stack.end_element().unwrap();
    assert_eq!(room.name, "room");
    assert_eq!(room.first_value("roomId").unwrap(), "abc");
    assert_eq!(room.children.len(), 1);
    let data = &room.children[0];
    assert_eq!(data.name, "data");
    assert_eq!(data.children.len(), 2);
    assert_eq!(data.children[0].name, "state");
    assert_eq!(data.children[0].data, "some text");
    assert_eq!(
        data.children[0].attribute("turn").unwrap(),
        &vec![String::from("3"), String::from("4")]
    );
    assert_eq!(data.children[1].name, "extra");
    assert_eq!(stack.nodes.len(), 1);
    let protocol = stack.end_element().unwrap();
    assert_eq!(protocol.name, "protocol");
    assert!(stack.nodes.is_empty());
    assert!(stack.has_received_first);
}

#[test]
fn parse_u8_agrees_with_the_standard_parser() {
    let texts = [
        "", "0", "7", "42", "255", "256", "999", "007", "0255", "0256", "+", "+0", "+12", "++1",
        "-1", "-0", "1 ", " 1", "1a", "a", "12345678901234567890", "0000000000000000000000012",
        "2.0", "\u{663}", "1\u{e9}", "+255", "+256", "00000000000000000000000000000000000000256",
    ];
    for text in texts.iter() {
        assert_eq!(parse_u8(text), text.parse::<u8>().ok());
    }
    for n in 0..=300u32 {
        let text = n.to_string();
        assert_eq!(parse_u8(&text), text.parse::<u8>().ok());
    }
}

#[test]
fn parse_u8_of_known_texts() {
    assert_eq!(parse_u8("0"), Some(0));
    assert_eq!(parse_u8("255"), Some(255));
    assert_eq!(parse_u8("+7"), Some(7));
    assert_eq!(parse_u8("256"), None);
    assert_eq!(parse_u8(""), None);
    assert_eq!(parse_u8("x"), None);
}

#[test]
fn read_placement_of_an_entry() {
    let p = read_placement(&entry("3", "4", "Seestern", "TWO", "2"));
    assert_eq!(
        p,
        Some(Placement { x: 3, y: 4, team: Team::TWO, piece: PieceType::SEESTERN, stacked: true })
    );
    let q = read_placement(&entry("0", "7", "Moewe", "ONE", "1"));
    assert_eq!(
        q,
        Some(Placement { x: 0, y: 7, team: Team::ONE, piece: PieceType::MOEWE, stacked: false })
    );
    let r = read_placement(&entry("0", "7", "Robbe", "ONE", "two"));
    assert_eq!(r.unwrap().stacked, false);
}

#[test]
fn read_placement_rejects_what_is_not_a_piece() {
    assert_eq!(read_placement(&entry("8", "0", "Robbe", "ONE", "1")), None);
    assert_eq!(read_placement(&entry("0", "8", "Robbe", "ONE", "1")), None);
    assert_eq!(read_placement(&entry("x", "0", "Robbe", "ONE", "1")), None);
    assert_eq!(read_placement(&entry("0", "", "Robbe", "ONE", "1")), None);
    assert_eq!(read_placement(&entry("0", "0", "Pferd", "ONE", "1")), None);
    assert_eq!(read_placement(&entry("0", "0", "Robbe", "THREE", "1")), None);
    assert_eq!(read_placement(&element("entry", &[], vec![])), None);
    let no_count = element(
        "entry",
        &[],
        vec![
            element("coordinates", &[("x", "1"), ("y", "1")], vec![]),
            element("piece", &[("type", "Robbe"), ("team", "ONE")], vec![]),
        ],
    );
    assert_eq!(read_placement(&no_count), None);
}

#[test]
fn read_placements_needs_every_entry() {
    let good = board(vec![
        entry("0", "0", "Robbe", "ONE", "1"),
        entry("1", "0", "Moewe", "TWO", "2"),
    ]);
    assert_eq!(read_placements(&good).unwrap().len(), 2);
    let bad = board(vec![
        entry("0", "0", "Robbe", "ONE", "1"),
        entry("9", "0", "Moewe", "TWO", "2"),
        entry("2", "0", "Moewe", "TWO", "2"),
    ]);
    assert!(read_placements(&bad).is_none());
    assert!(read_placements(&element("board", &[], vec![])).is_none());
    assert_eq!(read_placements(&board(vec![])).unwrap().len(), 0);
}

#[test]
fn board_from_node_places_the_pieces() {
    let node = board(vec![
        entry("3", "3", "Moewe", "ONE", "1"),
        entry("3", "4", "Seestern", "TWO", "2"),
        entry("0", "7", "Robbe", "TWO", "1"),
        entry("7", "0", "Herzmuschel", "ONE", "2"),
    ]);
    let b = Board::from_node(&node).unwrap();
    assert_eq!(b.friendly.bits, cell(3, 3) | cell(7, 0));
    assert_eq!(b.enemy.bits, cell(3, 4) | cell(0, 7));
    assert_eq!(b.moewen.bits, cell(3, 3));
    assert_eq!(b.seesterne.bits, cell(3, 4));
    assert_eq!(b.robben.bits, cell(0, 7));
    assert_eq!(b.muscheln.bits, cell(7, 0));
    assert_eq!(b.double.bits, cell(3, 4) | cell(7, 0));
    assert!(Board::from_node(&element("board", &[], vec![])).is_none());
}

#[test]
fn gamestate_from_node_reads_turn_and_board() {
    let mut state = element("state", &[("turn", "12")], vec![]);
    state.children.push(board(vec![entry("3", "3", "Moewe", "ONE", "1")]));
    let g: Gamestate = Gamestate::from_node(&state).unwrap();
    assert_eq!(g.turn, 12);
    assert!(g.maximizing_player);
    assert_eq!(g.scores(), (0, 0));
    assert_eq!(g.board.friendly.bits, cell(3, 3));
    let no_turn = element("state", &[], vec![board(vec![])]);
    assert!(Gamestate::from_node(&no_turn).is_none());
    let bad_turn = element("state", &[("turn", "256")], vec![board(vec![])]);
    assert!(Gamestate::from_node(&bad_turn).is_none());
    let no_board = element("state", &[("turn", "1")], vec![]);
    assert!(Gamestate::from_node(&no_board).is_none());
}

#[test]
fn classify_by_name_and_class() {
    assert_eq!(classify(&element("protocol", &[], vec![])), Event::End);
    assert_eq!(classify(&element("protocol", &[("class", "memento")], vec![])), Event::End);
    assert_eq!(classify(&element("data", &[("class", "memento")], vec![])), Event::Memento);
    assert_eq!(classify(&element("data", &[("class", "moveRequest")], vec![])), Event::MoveRequest);
    assert_eq!(classify(&element("data", &[("class", "welcomeMessage")], vec![])), Event::Welcome);
    assert_eq!(classify(&element("data", &[("class", "result")], vec![])), Event::Result);
    assert_eq!(classify(&element("data", &[("class", "other")], vec![])), Event::UnknownClass);
    assert_eq!(classify(&element("data", &[], vec![])), Event::UnknownClass);
    assert_eq!(classify(&element("room", &[("class", "memento")], vec![])), Event::UnknownMessage);
}

#[test]
fn received_state_is_turned_towards_the_side() {
    let state = element(
        "state",
        &[("turn", "5")],
        vec![board(vec![
            entry("0", "0", "Moewe", "ONE", "1"),
            entry("7", "3", "Robbe", "TWO", "2"),
        ])],
    );
    let data = element("data", &[("class", "memento")], vec![state]);
    let one = received_state(&data, &Team::ONE).unwrap();
    assert_eq!(one.turn, 5);
    assert_eq!(one.board.friendly.bits, cell(0, 0));
    assert_eq!(one.board.enemy.bits, cell(3, 7));
    assert_eq!(one.board.double.bits, cell(3, 7));
    let two = received_state(&data, &Team::TWO).unwrap();
    assert_eq!(two.board.enemy.bits, cell(7, 7));
    assert_eq!(two.board.friendly.bits, cell(4, 0));
    assert_eq!(two.board.robben.bits, cell(4, 0));
    assert!(received_state(&element("data", &[], vec![]), &Team::ONE).is_none());
}

#[test]
fn join_requests() {
    assert_eq!(Join::ANY.request(), "<protocol><join/>");
    assert_eq!(Join::ROOM("abc-1").request(), "<protocol><joinRoom roomId=\"abc-1\"/>");
    assert_eq!(
        Join::PREPARED("xyz").request(),
        "<protocol><joinPrepared reservationCode=\"xyz\"/>"
    );
    assert_eq!(Join::ROOM("").request(), "<protocol><joinRoom roomId=\"\"/>");
}

#[test]
fn move_message_names_both_cells() {
    let m = Move::new(Vec2::new(0, 7), Vec2::new(3, -2), PieceType::ROBBE);
    assert_eq!(
        move_message("room-9", &m),
        "<room roomId=\"room-9\"><data class=\"move\"><from x=\"0\" y=\"7\"/><to x=\"3\" y=\"5\"/></data></room>"
    );
    for x in 0..8 {
        for y in 0..8 {
            let m = Move::new(Vec2::new(x, y), Vec2::new(7 - 2 * x, 7 - 2 * y), PieceType::MOEWE);
            let expected = format!(
                "<room roomId=\"r\"><data class=\"move\"><from x=\"{}\" y=\"{}\"/><to x=\"{}\" y=\"{}\"/></data></room>",
                x,
                y,
                7 - x,
                7 - y
            );
            assert_eq!(move_message("r", &m), expected);
        }
    }
}
