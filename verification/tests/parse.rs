use marjapussi::game::cards::{Card, Suit, Value};
use marjapussi::game::parse::{parse_card, parse_legacy_format, LegacyGameFormat, ParseError};
use marjapussi::game::player::PlaceAtTable;
use marjapussi::game::points::Points;

fn check_parse_card() {
    assert_eq!(
        parse_card(String::from("r-A")).unwrap(),
        Card {
            suit: Suit::Red,
            value: Value::Ace
        }
    );
    assert_eq!(
        parse_card(String::from("g-O")).unwrap(),
        Card {
            suit: Suit::Green,
            value: Value::Ober
        }
    );
    assert_eq!(
        parse_card(String::from("s-6")).unwrap(),
        Card {
            suit: Suit::Bells,
            value: Value::Six
        }
    );
}

#[test]
pub fn test_parse_card() {
    check_parse_card();
}

#[test]
pub fn parse_test_parse_card() {
    check_parse_card();
}

#[test]
fn test_parse_card_rejects_malformed() {
    assert_eq!(
        parse_card(String::from("x-A")),
        Err(ParseError::WrongCardFormat)
    );
    assert_eq!(
        parse_card(String::from("r-B")),
        Err(ParseError::WrongCardFormat)
    );
    assert_eq!(
        parse_card(String::from("r-A-")),
        Err(ParseError::WrongCardFormat)
    );
    assert_eq!(parse_card(String::new()), Err(ParseError::WrongCardFormat));
}

fn strings(items: &[&str]) -> Vec<String> {
    items.iter().map(|s| s.to_string()).collect()
}

fn legacy_fixture() -> LegacyGameFormat {
    LegacyGameFormat {
        id: String::from("ffffffffe1f3816d1dad798f"),
        name: String::from("NameOfGame"),
        created: String::from("2023-04-15 22:45:13"),
        started: String::from("2023-04-15 22:45:34"),
        finished: String::from("2023-04-15 22:51:55"),
        players: strings(&["Player A", "Player B", "Player C", "Player D"]),
        cards: [
            strings(&["r-6", "e-Z", "e-K", "e-7", "g-K", "g-O", "g-8", "g-7", "g-6"]),
            strings(&["r-A", "r-O", "r-U", "r-9", "s-6", "e-A", "e-O", "g-A", "g-9"]),
            strings(&["r-7", "s-A", "s-9", "s-8", "e-U", "e-9", "e-6", "g-Z", "g-U"]),
            strings(&["r-Z", "r-K", "r-8", "s-Z", "s-K", "s-O", "s-U", "s-7", "e-8"]),
        ],
        game_value: 155,
        actions: strings(&[
            "0,PROV,125",
            "1,PROV,130",
            "2,PROV,135",
            "3,PROV,155",
            "0,PROV,0",
            "1,PROV,0",
            "2,PROV,0",
            "1,PASS,g-9",
            "1,PASS,g-A",
            "1,PASS,e-O",
            "1,PASS,e-A",
            "3,PBCK,s-7",
            "3,PBCK,r-K",
            "3,PBCK,e-8",
            "3,PBCK,e-O",
            "3,PRMO,0",
            "3,TRCK,e-A",
            "0,TRCK,e-7",
            "1,TRCK,e-8",
            "2,TRCK,e-6",
            "3,TRCK,g-A",
            "0,TRCK,g-6",
            "1,TRCK,s-7",
            "2,TRCK,g-U",
            "3,QUES,mys",
            "3,TRCK,g-9",
            "0,TRCK,g-O",
            "1,TRCK,s-6",
            "2,TRCK,g-Z",
            "1,QUES,myr",
            "1,TRCK,r-A",
            "2,TRCK,r-7",
            "3,TRCK,r-8",
            "0,TRCK,r-6",
            "1,TRCK,e-O",
            "2,TRCK,e-9",
            "3,TRCK,r-Z",
            "0,TRCK,e-K",
            "3,TRCK,s-U",
            "0,TRCK,g-7",
            "1,TRCK,r-9",
            "2,TRCK,s-8",
            "1,TRCK,r-K",
            "2,TRCK,e-U",
            "3,TRCK,s-K",
            "0,TRCK,g-8",
            "1,QUES,you",
            "3,ANSW,nmy",
            "1,TRCK,r-O",
            "2,TRCK,s-9",
            "3,TRCK,s-O",
            "0,TRCK,g-K",
            "1,TRCK,r-U",
            "2,TRCK,s-A",
            "3,TRCK,s-Z",
            "0,TRCK,e-Z",
        ]),
        schwarz_game: true,
    }
}

#[test]
fn test_parse_legacy_replay_enforces_follow_rules() {
    // The historical log was written by an older engine that did not force
    // over-trumping; its third trick discards a plain card while the hand
    // still holds a beating trump. The engine refuses that play, so the
    // replay never reaches the end of the game.
    let input = legacy_fixture();
    assert!(matches!(
        parse_legacy_format(input),
        Err(ParseError::IncompleteGame)
    ));
}

#[test]
fn test_parse_legacy_rejects_bad_action() {
    let mut input = legacy_fixture();
    input.actions = strings(&["0,XXXX,125"]);
    assert!(matches!(
        parse_legacy_format(input),
        Err(ParseError::WrongActionFormat)
    ));
}

#[test]
fn test_parse_legacy_rejects_unfinished() {
    let mut input = legacy_fixture();
    input.actions = strings(&["0,PROV,125"]);
    assert!(matches!(parse_legacy_format(input), Err(ParseError::IncompleteGame)));
}

#[test]
fn test_parse_legacy_rejects_bad_card() {
    let mut input = legacy_fixture();
    input.cards[0][0] = String::from("q-q");
    assert!(matches!(parse_legacy_format(input), Err(ParseError::WrongCardFormat)));
}
