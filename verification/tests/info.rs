use rand::seq::IndexedRandom;

use marjapussi::game::cards::{halves, pairs, Card, Suit, Value};
use marjapussi::game::gameinfo::GameInfoDatabase;
use marjapussi::game::gameinfo::GameInfoPlayer;
use marjapussi::game::gamestate::GamePhase;
use marjapussi::game::player::PlaceAtTable;
use marjapussi::game::series::Series;
use marjapussi::game::Game;

fn card(suit: Suit, value: Value) -> Card {
    Card { suit, value }
}

fn names() -> [String; 4] {
    [
        "N".to_string(),
        "E".to_string(),
        "S".to_string(),
        "W".to_string(),
    ]
}

#[test]
fn test_halves_and_pairs() {
    let hand = vec![
        card(Suit::Red, Value::King),
        card(Suit::Red, Value::Ober),
        card(Suit::Bells, Value::King),
        card(Suit::Green, Value::Ober),
        card(Suit::Acorns, Value::Six),
    ];
    // halves in the fixed question order Red, Bells, Acorns, Green
    assert_eq!(halves(hand.clone()), vec![Suit::Red, Suit::Bells, Suit::Green]);
    assert_eq!(pairs(hand), vec![Suit::Red]);
    assert_eq!(pairs(vec![card(Suit::Acorns, Value::Six)]), vec![]);
}

#[test]
fn test_player_projection_hides_hand_before_start() {
    let game = Game::new(String::from("P"), names(), None);
    let info = GameInfoPlayer::from_game(game, PlaceAtTable(2));
    assert!(info.own_cards.is_none());
    assert_eq!(info.game_phase, GamePhase::WaitingForStart);
    assert!(info.players_pressed_start.is_empty());
    assert_eq!(info.players_from_perspective[0], "S".to_string());
    assert_eq!(info.player_at_turn, "N".to_string());
    assert_eq!(info.players_cards_number_perspective, [9, 9, 9, 9]);
    assert_eq!(info.legal_actions.len(), 4);
    assert!(info.last_event.is_none());
    assert!(info.last_trick.is_none());
}

#[test]
fn test_player_projection_shows_hand_after_start() {
    let mut game = Game::new(String::from("P"), names(), None);
    for _ in 0..4 {
        let act = game.legal_actions[0].clone();
        game = game.apply_action(act).ok().unwrap();
    }
    let expected = game.state.players[1].cards.clone();
    let info = GameInfoPlayer::from_game(game, PlaceAtTable(1));
    assert_eq!(info.own_cards, Some(expected));
    assert_eq!(info.game_phase, GamePhase::Bidding);
    assert_eq!(info.players_pressed_start.len(), 4);
}

#[test]
fn test_series_plays_one_game() {
    let mut series = Series::new(String::from("Evening"), names(), 2, None);
    let info = series.active_game_info(PlaceAtTable(0));
    assert!(info.is_some());
    let info = info.unwrap();
    assert_eq!(info.legal_actions.len(), 4);
    // press start for every seat through the series interface
    for _ in 0..4 {
        let next = series
            .active_game_info(PlaceAtTable(0))
            .unwrap()
            .legal_actions[0]
            .clone();
        series.active_game_apply(next);
    }
    let info = series.active_game_info(PlaceAtTable(0)).unwrap();
    assert_eq!(info.game_phase, GamePhase::Bidding);
}

#[test]
fn test_database_projection_of_finished_game() {
    // play a full random game, then archive it
    let mut game = Game::new(String::from("Archive"), names(), None);
    for _ in 0..4 {
        let act = game.legal_actions[0].clone();
        game = game.apply_action(act).ok().unwrap();
    }
    let mut moves = 0;
    while !game.ended() {
        moves += 1;
        assert!(moves < 200, "no legal action before the game ended");
        let actions = game.legal_actions.clone();
        let pick = actions.choose(&mut rand::rng()).unwrap().clone();
        game = game.apply_action(pick).ok().unwrap();
    }
    let final_value = game.state.value;
    let db = GameInfoDatabase::from_game(game);
    assert_eq!(db.game_value, final_value);
    assert_eq!(db.tricks.len(), 9);
    assert_eq!(db.no_one_played, final_value == marjapussi::game::points::Points(115));
    let party0: usize = db
        .tricks
        .iter()
        .filter(|t| t.winner.0 == 0 || t.winner.0 == 2)
        .count();
    assert_eq!(db.schwarz_game, party0 == 0 || party0 == 9);
    if db.no_one_played {
        assert!(db.won.is_none());
        assert!(db.playing_party.is_none());
        assert!(db.passed_cards.is_none());
        assert!(db.after_passing.is_none());
    } else {
        assert!(db.won.is_some());
        assert!(db.playing_party.is_some());
        let (forth, back) = db.passed_cards.unwrap();
        assert_eq!(forth.len(), 4);
        assert_eq!(back.len(), 4);
        assert!(db.after_passing.is_some());
    }
}
