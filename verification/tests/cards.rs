use marjapussi::game::cards::{
    allowed_cards, allowed_first, get_all_cards, high_card, higher_cards, is_higher_card, Card,
    Suit, Value,
};

fn card(suit: Suit, value: Value) -> Card {
    Card { suit, value }
}

fn check_is_higher_card() {
    let ra = card(Suit::Red, Value::Ace);
    let sz = card(Suit::Bells, Value::Ten);
    let su = card(Suit::Bells, Value::Ten);
    assert!(!is_higher_card(&su, &sz, None));
    assert!(!is_higher_card(&ra, &sz, Some(Suit::Bells)));
    assert!(is_higher_card(&ra, &sz, Some(Suit::Red)))
}

#[test]
fn test_is_higher_card() {
    check_is_higher_card();
}

#[test]
fn cards_test_is_higher_card() {
    check_is_higher_card();
}

fn check_higher_cards() {
    let ra = card(Suit::Red, Value::Ace);
    let sz = card(Suit::Bells, Value::Ten);
    let higher = vec![
        card(Suit::Bells, Value::Ace),
        card(Suit::Red, Value::Six),
        card(Suit::Red, Value::Seven),
        card(Suit::Red, Value::Eight),
        card(Suit::Red, Value::Nine),
        card(Suit::Red, Value::Unter),
        card(Suit::Red, Value::Ober),
        card(Suit::Red, Value::King),
        card(Suit::Red, Value::Ten),
        card(Suit::Red, Value::Ace),
    ];
    assert_eq!(higher_cards(&ra, None, None), vec![]);
    assert_eq!(higher_cards(&sz, None, None), vec![card(Suit::Bells, Value::Ace)]);
    assert_eq!(higher_cards(&sz, Some(Suit::Red), None), higher)
}

#[test]
fn test_higher_cards() {
    check_higher_cards();
}

#[test]
fn cards_test_higher_cards() {
    check_higher_cards();
}

fn check_high_card() {
    let ra = card(Suit::Red, Value::Ace);
    let sz = card(Suit::Bells, Value::Ten);
    assert_eq!(high_card(&vec![], None), None);
    assert_eq!(high_card(&vec![ra, sz], None), Some(ra));
    assert_eq!(high_card(&vec![ra, sz], Some(Suit::Bells)), Some(sz));
}

#[test]
fn test_high_card() {
    check_high_card();
}

#[test]
fn cards_test_high_card() {
    check_high_card();
}

fn check_allowed_first() {
    let mut cards: Vec<Card> = vec![card(Suit::Red, Value::Seven), card(Suit::Bells, Value::Seven)];
    assert_eq!(allowed_first(&cards), cards);
    cards.push(card(Suit::Green, Value::Unter));
    assert_eq!(allowed_first(&cards), vec![card(Suit::Green, Value::Unter)]);
    cards.push(card(Suit::Red, Value::Ace));
    cards.push(card(Suit::Bells, Value::Ace));
    assert_eq!(
        allowed_first(&cards),
        vec![card(Suit::Red, Value::Ace), card(Suit::Bells, Value::Ace)]
    );
}

#[test]
fn test_allowed_first() {
    check_allowed_first();
}

#[test]
fn cards_test_allowed_first() {
    check_allowed_first();
}

#[test]
fn test_allowed_cards() {
    let mut cards: Vec<Card> = vec![];
    let trick: Vec<Card> = vec![];
    // everything empty
    assert_eq!(allowed_cards(&trick, &cards, None, false), vec![] as Vec<Card>);
    // first trick, ace wasn't played
    let trick = vec![card(Suit::Green, Value::Unter)];
    cards.push(card(Suit::Red, Value::Unter));
    cards.push(card(Suit::Green, Value::Nine));
    cards.push(card(Suit::Green, Value::Ten));
    cards.push(card(Suit::Green, Value::Ace));
    assert_eq!(
        allowed_cards(&trick, &cards, None, true),
        vec![card(Suit::Green, Value::Ace)]
    );
    // same color and higher
    assert_eq!(
        allowed_cards(&trick, &cards, None, false),
        vec![card(Suit::Green, Value::Ten), card(Suit::Green, Value::Ace)]
    );
    // trump
    let trick = vec![card(Suit::Bells, Value::Ober)];
    assert_eq!(
        allowed_cards(&trick, &cards, Some(Suit::Red), false),
        vec![card(Suit::Red, Value::Unter)]
    );
    // same color but no higher if already trump
    let trick = vec![card(Suit::Green, Value::Ober), card(Suit::Red, Value::Ober)];
    assert_eq!(
        allowed_cards(&trick, &cards, Some(Suit::Red), false),
        vec![
            card(Suit::Green, Value::Nine),
            card(Suit::Green, Value::Ten),
            card(Suit::Green, Value::Ace),
        ]
    );
}

#[test]
fn test_trick_resolution_documented_winners() {
    // The documented example: with no trump the highest card of the led
    // suit wins; with trump Bells even a low trump beats them all.
    let trick = vec![
        card(Suit::Green, Value::Ace),
        card(Suit::Green, Value::Six),
        card(Suit::Bells, Value::Seven),
        card(Suit::Green, Value::Unter),
    ];
    assert_eq!(high_card(&trick, None), Some(card(Suit::Green, Value::Ace)));
    assert_eq!(high_card(&trick, Some(Suit::Bells)), Some(card(Suit::Bells, Value::Seven)));
}

#[test]
fn test_deck_has_36_distinct_cards() {
    let deck = get_all_cards();
    assert_eq!(deck.len(), 36);
    for i in 0..deck.len() {
        for j in 0..i {
            assert_ne!(deck[i], deck[j]);
        }
    }
}

#[test]
fn test_trump_beats_even_when_suit_orders_low() {
    // The beating test is suit-aware: with trump Green, a Green card wins
    // the trick over a Red lead, so both the trump and the higher Red card
    // are playable.
    let trick = vec![card(Suit::Red, Value::Six)];
    let hand = vec![card(Suit::Green, Value::Six), card(Suit::Red, Value::Seven)];
    assert_eq!(
        allowed_cards(&trick, &hand, Some(Suit::Green), false),
        vec![card(Suit::Green, Value::Six), card(Suit::Red, Value::Seven)]
    );
}
