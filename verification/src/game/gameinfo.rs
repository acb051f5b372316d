use vstd::prelude::*;

use crate::game::cards::{copy_cards, remove_all_cards, Card};
use crate::game::current_time_string;
use crate::game::gameevent::{
    copy_events, ActionType, ActionTypeView, GameAction, GameCallback, GameEvent, GameEventPlayer,
    GameEventView,
};
use crate::game::gamestate::{
    copy_history, copy_phase, FinishedTrick, FinishedTrickView, GamePhase,
};
use crate::game::player::{spec_partner, spec_party, PlaceAtTable, Player};
use crate::game::points::{points_pair, spec_points_pair, Points};
use crate::game::{game_base_ok, Game};

verus! {

/// Identity and timing of one game, frozen at creation: its name, the
/// player names, the timestamps, and a snapshot of each starting hand for
/// later score reconstruction.
#[derive(Clone, Debug)]
pub struct GameMetaInfo {
    pub name: String,
    pub create_time: String,
    pub start_time: Option<String>,
    pub end_time: Option<String>,
    pub player_names: [String; 4],
    pub player_start_cards: [Vec<Card>; 4],
}

/// The mathematical value of a GameMetaInfo.
#[verifier::ext_equal]
pub struct GameMetaInfoView {
    pub name: Seq<char>,
    pub create_time: Seq<char>,
    pub start_time: Option<Seq<char>>,
    pub end_time: Option<Seq<char>>,
    pub player_names: Seq<Seq<char>>,
    pub player_start_cards: Seq<Seq<Card>>,
}

impl View for GameMetaInfo {
    type V = GameMetaInfoView;

    open spec fn view(&self) -> GameMetaInfoView {
        GameMetaInfoView {
            name: self.name@,
            create_time: self.create_time@,
            start_time: match self.start_time {
                Some(ref t) => Some(t@),
                None => None,
            },
            end_time: match self.end_time {
                Some(ref t) => Some(t@),
                None => None,
            },
            player_names: Seq::new(4, |i: int| self.player_names@[i]@),
            player_start_cards: Seq::new(4, |i: int| self.player_start_cards@[i]@),
        }
    }
}

/// An element-wise copy of a game's frozen identity.
pub fn copy_meta(m: &GameMetaInfo) -> (r: GameMetaInfo)
    ensures
        r@ == m@,
{
    let r = GameMetaInfo {
        name: m.name.clone(),
        create_time: m.create_time.clone(),
        start_time: match &m.start_time {
            Some(t) => Some(t.clone()),
            None => None,
        },
        end_time: match &m.end_time {
            Some(t) => Some(t.clone()),
            None => None,
        },
        player_names: [
            m.player_names[0].clone(),
            m.player_names[1].clone(),
            m.player_names[2].clone(),
            m.player_names[3].clone(),
        ],
        player_start_cards: [
            copy_cards(&m.player_start_cards[0]),
            copy_cards(&m.player_start_cards[1]),
            copy_cards(&m.player_start_cards[2]),
            copy_cards(&m.player_start_cards[3]),
        ],
    };
    proof {
        assert(r@ =~~= m@);
    }
    r
}

/// Everything one seat is allowed to see of a game: its own hand, the
/// public state, and the last event with passed cards hidden.
#[derive(Clone, Debug)]
pub struct GameInfoPlayer {
    pub meta_info: GameMetaInfo,
    pub players_pressed_start: Vec<String>,
    pub players_from_perspective: [String; 4],
    pub player_at_turn: String,
    pub own_cards: Option<Vec<Card>>,
    pub players_cards_number_perspective: [u8; 4],
    pub game_phase: GamePhase,
    pub bidding_history: Vec<(ActionType, PlaceAtTable)>,
    pub current_trick: Vec<Card>,
    pub last_trick: Option<FinishedTrick>,
    pub last_event: Option<GameEventPlayer>,
    pub legal_actions: Vec<GameAction>,
}

impl GameInfoPlayer {
    /// Project a game onto what the given seat may know: names around the
    /// table from its perspective, its own hand once the game has started,
    /// everyone's hand sizes, the public histories, and the last event —
    /// where an event that passed cards is shown as hidden. The frozen
    /// identity keeps only this seat's own starting hand; the other seats'
    /// dealt cards are redacted.
    pub fn from_game(game: Game, place: PlaceAtTable) -> (r: GameInfoPlayer)
        requires
            place.0 < 4,
            game_base_ok(game@),
        ensures
            r.meta_info@ == (GameMetaInfoView {
                player_start_cards: Seq::new(
                    4,
                    |i: int|
                        if i == place.0 as int {
                            game@.info.player_start_cards[i]
                        } else {
                            Seq::empty()
                        },
                ),
                ..game@.info
            }),
            ({
                let names = crate::game::gamestate::started_names(game@.state);
                r.players_pressed_start@.len() == names.len() && forall|i: int|
                    0 <= i < names.len() ==> (#[trigger] r.players_pressed_start@[i])@ == names[i]
            }),
            r.players_from_perspective@[0]@ == game@.state.players[place.0 as int].name,
            r.player_at_turn@ == game@.state.players[game@.state.player_at_turn.0 as int].name,
            game@.state.started ==> (r.own_cards matches Some(cards) && cards@
                == game@.state.players[place.0 as int].cards),
            !game@.state.started ==> r.own_cards is None,
            r.players_cards_number_perspective@[0] as int == game@.state.players[
                place.0 as int].cards.len(),
            r.game_phase == game@.state.phase,
            r.bidding_history@.len() == game@.state.bidding_history.len(),
            forall|i: int|
                0 <= i < game@.state.bidding_history.len() ==> (#[trigger] r.bidding_history@[
                i]).0@ == game@.state.bidding_history[i].0 && r.bidding_history@[i].1
                    == game@.state.bidding_history[i].1,
            r.current_trick@ == game@.state.current_trick,
            game@.state.all_tricks.len() == 0 <==> r.last_trick is None,
            (match r.last_trick {
                Some(t) => game@.state.all_tricks.len() > 0 && t@ == game@.state.all_tricks.last(),
                None => game@.state.all_tricks.len() == 0,
            }),
            (match r.last_event {
                Some(GameEventPlayer::PublicEvent(e)) => game@.all_events.len() > 0 && !(
                game@.all_events.last().last_action.action_type is Pass) && e@
                    == game@.all_events.last(),
                Some(GameEventPlayer::HiddenEvent) => game@.all_events.len() > 0
                    && game@.all_events.last().last_action.action_type is Pass,
                None => game@.all_events.len() == 0,
            }),
            crate::game::gameevent::actions_view(r.legal_actions@) == game@.legal_actions,
    {
        let mut meta_info = copy_meta(&game.info);
        let mut own_start: [Vec<Card>; 4] = [Vec::new(), Vec::new(), Vec::new(), Vec::new()];
        let pi = place.0 as usize;
        own_start[pi] = copy_cards(&game.info.player_start_cards[pi]);
        meta_info.player_start_cards = own_start;
        proof {
            assert(meta_info@ =~~= (GameMetaInfoView {
                player_start_cards: Seq::new(
                    4,
                    |i: int|
                        if i == place.0 as int {
                            game@.info.player_start_cards[i]
                        } else {
                            Seq::empty()
                        },
                ),
                ..game@.info
            }));
        }
        let players_pressed_start = game.state.players_started();
        let players_from_perspective = game.state.players_perspective(place);
        let player_at_turn = game.state.player_at_turn().name.clone();
        let own_cards = if game.state.started {
            Some(copy_cards(&game.state.player_at_place(place).cards))
        } else {
            None
        };
        let players_cards_number_perspective = game.state.players_perspective_cards(place);
        let game_phase = copy_phase(&game.state.phase);
        let bidding_history = copy_history(&game.state.bidding_history);
        let current_trick = copy_cards(&game.state.current_trick);
        let last_trick = if game.state.all_tricks.len() > 0 {
            Some(game.state.all_tricks[game.state.all_tricks.len() - 1])
        } else {
            None
        };
        proof {
            if game.state.all_tricks@.len() > 0 {
                assert(game.state.all_tricks@[game.state.all_tricks@.len() - 1]@
                    == game@.state.all_tricks.last());
            }
        }
        let last_event = if game.all_events.len() > 0 {
            let event = &game.all_events[game.all_events.len() - 1];
            proof {
                assert(event@ == game@.all_events.last());
            }
            if matches!(event.last_action.action_type, ActionType::Pass(_)) {
                Some(GameEventPlayer::HiddenEvent)
            } else {
                Some(GameEventPlayer::PublicEvent(crate::game::gameevent::copy_event(event)))
            }
        } else {
            None
        };
        let mut legal_actions: Vec<GameAction> = Vec::new();
        let mut i: usize = 0;
        while i < game.legal_actions.len()
            invariant
                i <= game.legal_actions@.len(),
                legal_actions@.len() == i,
                forall|k: int|
                    0 <= k < i ==> (#[trigger] legal_actions@[k])@ == game.legal_actions@[k]@,
            decreases game.legal_actions@.len() - i,
        {
            legal_actions.push(crate::game::gameevent::copy_action(&game.legal_actions[i]));
            i += 1;
        }
        proof {
            assert(crate::game::gameevent::actions_view(legal_actions@)
                =~= crate::game::gameevent::actions_view(game.legal_actions@));
        }
        GameInfoPlayer {
            meta_info,
            players_pressed_start,
            players_from_perspective,
            player_at_turn,
            own_cards,
            players_cards_number_perspective,
            game_phase,
            bidding_history,
            current_trick,
            last_trick,
            last_event,
            legal_actions,
        }
    }
}

/// The card points a seat took with its tricks.
pub open spec fn seat_trick_points(tricks: Seq<FinishedTrickView>, seat: int) -> int
    decreases tricks.len(),
{
    if tricks.len() == 0 {
        0
    } else {
        seat_trick_points(tricks.drop_last(), seat) + if tricks.last().winner.0 == seat {
            tricks.last().points.0 as int
        } else {
            0
        }
    }
}

/// The announcement bonuses credited to a seat: one pair bonus for every
/// event whose callback set a new trump, credited to the acting seat.
pub open spec fn seat_bonus(events: Seq<GameEventView>, seat: int) -> int
    decreases events.len(),
{
    if events.len() == 0 {
        0
    } else {
        seat_bonus(events.drop_last(), seat) + (match events.last().callback {
            Some(GameCallback::NewTrump(su)) => if events.last().last_action.player.0 == seat {
                spec_points_pair(su)
            } else {
                0
            },
            _ => 0,
        })
    }
}

/// The full tally of a seat in a finished game: trick points plus
/// announcement bonuses.
pub open spec fn seat_total(
    tricks: Seq<FinishedTrickView>,
    events: Seq<GameEventView>,
    seat: int,
) -> int {
    seat_trick_points(tricks, seat) + seat_bonus(events, seat)
}

/// How many tricks the partnership of seats 0 and 2 took.
pub open spec fn party_zero_tricks(tricks: Seq<FinishedTrickView>) -> int
    decreases tricks.len(),
{
    if tricks.len() == 0 {
        0
    } else {
        party_zero_tricks(tricks.drop_last()) + if tricks.last().winner.0 == 0
            || tricks.last().winner.0 == 2 {
            1int
        } else {
            0int
        }
    }
}

/// The seat of the last bid of a given value in the event log, if any.
pub open spec fn last_bidder(events: Seq<GameEventView>, v: i32) -> Option<PlaceAtTable>
    decreases events.len(),
{
    if events.len() == 0 {
        None
    } else if events.last().last_action.action_type == ActionTypeView::NewBid(v) {
        Some(events.last().last_action.player)
    } else {
        last_bidder(events.drop_last(), v)
    }
}

/// The card bundles passed over the life of the game, in log order.
pub open spec fn pass_list(events: Seq<GameEventView>) -> Seq<Seq<Card>>
    decreases events.len(),
{
    if events.len() == 0 {
        Seq::empty()
    } else {
        pass_list(events.drop_last()) + (match events.last().last_action.action_type {
            ActionTypeView::Pass(cards) => seq![cards],
            _ => Seq::empty(),
        })
    }
}

/// The four hands as they stood after both passes: the partner's hand loses
/// the forth bundle and gains the back bundle, the playing seat's hand
/// gains the forth bundle and loses the back bundle.
pub open spec fn spec_after_passing(
    start: Seq<Seq<Card>>,
    pp: PlaceAtTable,
    forth: Seq<Card>,
    back: Seq<Card>,
) -> Seq<Seq<Card>> {
    let pi = pp.0 as int;
    let qi = spec_partner(pp).0 as int;
    start.update(qi, remove_all_cards(start[qi], forth) + back).update(
        pi,
        remove_all_cards(start[pi] + forth, back),
    )
}

impl GameMetaInfo {
    /// Freeze the identity of a fresh game: name, player names, and the
    /// four starting hands. The creation timestamp is taken from the clock.
    pub fn create(name: String, player_names: [String; 4], players: &Vec<Player>) -> (r:
        GameMetaInfo)
        requires
            players@.len() == 4,
        ensures
            r@.name == name@,
            r@.start_time is None,
            r@.end_time is None,
            forall|i: int| 0 <= i < 4 ==> r@.player_names[i] == (#[trigger] player_names@[i])@,
            forall|i: int|
                0 <= i < 4 ==> r@.player_start_cards[i] == (#[trigger] players@[i])@.cards,
    {
        GameMetaInfo {
            name,
            create_time: current_time_string(),
            start_time: None,
            end_time: None,
            player_names,
            player_start_cards: [
                copy_cards(&players[0].cards),
                copy_cards(&players[1].cards),
                copy_cards(&players[2].cards),
                copy_cards(&players[3].cards),
            ],
        }
    }
}

/// Everything the archive needs of a finished game: the final value, who
/// played and whether they won, the shutout flag, the hands around the
/// passes, and the complete histories.
#[derive(Clone, Debug)]
pub struct GameInfoDatabase {
    pub info: GameMetaInfo,
    pub game_value: Points,
    /// None when no one played.
    pub won: Option<bool>,
    pub no_one_played: bool,
    pub schwarz_game: bool,
    pub playing_party: Option<PlaceAtTable>,
    pub after_passing: Option<[Vec<Card>; 4]>,
    pub passed_cards: Option<(Vec<Card>, Vec<Card>)>,
    pub bidding_history: Vec<(ActionType, PlaceAtTable)>,
    /// Who got each trick, with its cards and points.
    pub tricks: Vec<FinishedTrick>,
    pub all_events: Vec<GameEvent>,
}

impl GameInfoDatabase {
    /// Reconstruct the archival record of a finished game: per-seat scores
    /// from tricks and announcement bonuses, whether the deal was ever
    /// contested, the shutout flag, and the passed bundles read back from
    /// the event log. Callable only once the game has ended, with a log
    /// that holds the passes and the final bid whenever the deal was
    /// contested.
    pub fn from_game(game: Game) -> (r: GameInfoDatabase)
        requires
            game_base_ok(game@),
            game@.state.phase is Ended,
            game@.all_events.len() <= 10000000,
            game@.state.all_tricks.len() <= 9,
            forall|i: int|
                0 <= i < game@.state.all_tricks.len() ==> (#[trigger] game@.state.all_tricks[
                i]).winner.0 < 4 && 0 <= game@.state.all_tricks[i].points.0 <= 44,
            game@.state.value.0 != 115 ==> pass_list(game@.all_events).len() >= 2 && last_bidder(
                game@.all_events,
                game@.state.value.0,
            ) is Some,
        ensures
            r.info@ == game@.info,
            r.game_value == game@.state.value,
            r.no_one_played == (game@.state.value.0 == 115),
            r.schwarz_game == (party_zero_tricks(game@.state.all_tricks) == 0 || party_zero_tricks(
                game@.state.all_tricks,
            ) == 9),
            r.bidding_history@.len() == game@.state.bidding_history.len(),
            forall|i: int|
                0 <= i < game@.state.bidding_history.len() ==> (#[trigger] r.bidding_history@[
                i]).0@ == game@.state.bidding_history[i].0 && r.bidding_history@[i].1
                    == game@.state.bidding_history[i].1,
            r.tricks@.len() == game@.state.all_tricks.len(),
            forall|i: int|
                0 <= i < game@.state.all_tricks.len() ==> (#[trigger] r.tricks@[i])@
                    == game@.state.all_tricks[i],
            r.all_events@.len() == game@.all_events.len(),
            forall|i: int|
                0 <= i < game@.all_events.len() ==> (#[trigger] r.all_events@[i])@
                    == game@.all_events[i],
            r.no_one_played ==> r.won is None && r.playing_party is None && r.after_passing is None
                && r.passed_cards is None,
            !r.no_one_played ==> ({
                let pp = last_bidder(game@.all_events, game@.state.value.0)->Some_0;
                let party = spec_party(pp);
                let forth = pass_list(game@.all_events)[0];
                let back = pass_list(game@.all_events).last();
                let total = seat_total(game@.state.all_tricks, game@.all_events, party.0 as int)
                    + seat_total(game@.state.all_tricks, game@.all_events, party.0 + 2);
                &&& r.playing_party == Some(party)
                &&& r.won == Some(total >= game@.state.value.0)
                &&& (r.passed_cards matches Some(pc) && pc.0@ == forth && pc.1@ == back)
                &&& (r.after_passing matches Some(ap) && pp.0 < 4 && Seq::new(
                    4,
                    |i: int| ap@[i]@,
                ) == spec_after_passing(game@.info.player_start_cards, pp, forth, back))
            }),
    {
        let no_one_played = game.state.value.0 == 115;
        let ghost tricks_v = game@.state.all_tricks;
        let ghost events_v = game@.all_events;

        let mut p0: i32 = 0;
        let mut p1: i32 = 0;
        let mut p2: i32 = 0;
        let mut p3: i32 = 0;
        let mut party_zero: usize = 0;
        let mut i: usize = 0;
        while i < game.state.all_tricks.len()
            invariant
                i <= tricks_v.len(),
                tricks_v == game@.state.all_tricks,
                tricks_v.len() <= 9,
                forall|k: int|
                    0 <= k < tricks_v.len() ==> (#[trigger] tricks_v[k]).winner.0 < 4 && 0
                        <= tricks_v[k].points.0 <= 44,
                p0 == seat_trick_points(tricks_v.take(i as int), 0),
                p1 == seat_trick_points(tricks_v.take(i as int), 1),
                p2 == seat_trick_points(tricks_v.take(i as int), 2),
                p3 == seat_trick_points(tricks_v.take(i as int), 3),
                party_zero as int == party_zero_tricks(tricks_v.take(i as int)),
                0 <= p0 <= 44 * i && 0 <= p1 <= 44 * i && 0 <= p2 <= 44 * i && 0 <= p3 <= 44 * i,
                party_zero <= i,
            decreases tricks_v.len() - i,
        {
            let trick = &game.state.all_tricks[i];
            proof {
                assert(tricks_v.take(i + 1).drop_last() =~= tricks_v.take(i as int));
                assert(tricks_v.take(i + 1).last() == tricks_v[i as int]);
            }
            if trick.winner.0 == 0 {
                p0 = p0 + trick.points.0;
            } else if trick.winner.0 == 1 {
                p1 = p1 + trick.points.0;
            } else if trick.winner.0 == 2 {
                p2 = p2 + trick.points.0;
            } else {
                p3 = p3 + trick.points.0;
            }
            if trick.winner.0 == 0 || trick.winner.0 == 2 {
                party_zero = party_zero + 1;
            }
            i += 1;
        }
        proof {
            assert(tricks_v.take(tricks_v.len() as int) =~= tricks_v);
        }
        let schwarz_game = party_zero == 0 || party_zero == 9;

        let mut won: Option<bool> = None;
        let mut passed_cards: Option<(Vec<Card>, Vec<Card>)> = None;
        let mut after_passing: Option<[Vec<Card>; 4]> = None;
        let mut playing_player = PlaceAtTable(0);
        let mut playing_party: Option<PlaceAtTable> = None;
        let mut passed_forth: Option<Vec<Card>> = None;
        let mut passed_back: Option<Vec<Card>> = None;
        if !no_one_played {
        let mut i: usize = 0;
        while i < game.all_events.len()
            invariant
                i <= events_v.len(),
                events_v == game@.all_events,
                events_v.len() <= 10000000,
                game_base_ok(game@),
                game.state.value == game@.state.value,
                (match last_bidder(events_v.take(i as int), game.state.value.0) {
                    Some(pl) => playing_player == pl && playing_party == Some(spec_party(pl))
                        && pl.0 < 4,
                    None => playing_party is None,
                }),
                p0 == seat_trick_points(tricks_v, 0) + seat_bonus(events_v.take(i as int), 0),
                p1 == seat_trick_points(tricks_v, 1) + seat_bonus(events_v.take(i as int), 1),
                p2 == seat_trick_points(tricks_v, 2) + seat_bonus(events_v.take(i as int), 2),
                p3 == seat_trick_points(tricks_v, 3) + seat_bonus(events_v.take(i as int), 3),
                0 <= seat_trick_points(tricks_v, 0) <= 396 && 0 <= seat_trick_points(tricks_v, 1)
                    <= 396 && 0 <= seat_trick_points(tricks_v, 2) <= 396 && 0
                    <= seat_trick_points(tricks_v, 3) <= 396,
                0 <= seat_bonus(events_v.take(i as int), 0) <= 100 * i,
                0 <= seat_bonus(events_v.take(i as int), 1) <= 100 * i,
                0 <= seat_bonus(events_v.take(i as int), 2) <= 100 * i,
                0 <= seat_bonus(events_v.take(i as int), 3) <= 100 * i,
                ({
                    let passes = pass_list(events_v.take(i as int));
                    &&& (passes.len() == 0 ==> passed_forth is None && passed_back is None)
                    &&& (passes.len() == 1 ==> (passed_forth matches Some(f) && f@ == passes[0])
                        && passed_back is None)
                    &&& (passes.len() >= 2 ==> (passed_forth matches Some(f) && f@ == passes[0])
                        && (passed_back matches Some(b) && b@ == passes.last()))
                }),
            decreases events_v.len() - i,
        {
            let event = &game.all_events[i];
            proof {
                assert(event@ == events_v[i as int]);
                assert(events_v.take(i + 1).drop_last() =~= events_v.take(i as int));
                assert(events_v.take(i + 1).last() == events_v[i as int]);
                assert(events_v[i as int].last_action.player.0 < 4);
            }
            let is_final_bid = match &event.last_action.action_type {
                ActionType::NewBid(v) => *v == game.state.value.0,
                _ => false,
            };
            if is_final_bid {
                playing_player = event.last_action.player;
                playing_party = Some(event.last_action.player.party());
            }
            if let Some(GameCallback::NewTrump(suit)) = event.callback {
                let bonus = points_pair(suit);
                let seat = event.last_action.player;
                if seat.0 == 0 {
                    p0 = p0 + bonus.0;
                } else if seat.0 == 1 {
                    p1 = p1 + bonus.0;
                } else if seat.0 == 2 {
                    p2 = p2 + bonus.0;
                } else {
                    p3 = p3 + bonus.0;
                }
            }
            if let ActionType::Pass(cards) = &event.last_action.action_type {
                if passed_forth.is_none() {
                    passed_forth = Some(copy_cards(cards));
                } else {
                    passed_back = Some(copy_cards(cards));
                }
            }
            i += 1;
        }
        proof {
            assert(events_v.take(events_v.len() as int) =~= events_v);
        }

            let forth = match &passed_forth {
                Some(f) => copy_cards(f),
                None => {
                    proof {
                        assert(false);
                    }
                    Vec::new()
                },
            };
            let back = match &passed_back {
                Some(b) => copy_cards(b),
                None => {
                    proof {
                        assert(false);
                    }
                    Vec::new()
                },
            };
            proof {
                assert(last_bidder(events_v, game.state.value.0) is Some);
                assert(playing_player.0 < 4);
            }
            let mut cards_after: [Vec<Card>; 4] = [
                copy_cards(&game.info.player_start_cards[0]),
                copy_cards(&game.info.player_start_cards[1]),
                copy_cards(&game.info.player_start_cards[2]),
                copy_cards(&game.info.player_start_cards[3]),
            ];
            let qi = playing_player.partner().0 as usize;
            let pi = playing_player.0 as usize;
            let partner_filtered = remove_cards_pub(&cards_after[qi], &forth);
            let mut partner_hand = partner_filtered;
            let mut k: usize = 0;
            let ghost ph0 = partner_hand@;
            while k < back.len()
                invariant
                    k <= back@.len(),
                    partner_hand@ == ph0 + back@.take(k as int),
                decreases back@.len() - k,
            {
                partner_hand.push(back[k]);
                proof {
                    assert(ph0 + back@.take(k + 1) =~= (ph0 + back@.take(k as int)).push(
                        back@[k as int],
                    ));
                }
                k += 1;
            }
            proof {
                assert(back@.take(back@.len() as int) =~= back@);
            }
            cards_after[qi] = partner_hand;
            let mut playing_hand = copy_cards(&cards_after[pi]);
            let mut k: usize = 0;
            let ghost gh0 = playing_hand@;
            while k < forth.len()
                invariant
                    k <= forth@.len(),
                    playing_hand@ == gh0 + forth@.take(k as int),
                decreases forth@.len() - k,
            {
                playing_hand.push(forth[k]);
                proof {
                    assert(gh0 + forth@.take(k + 1) =~= (gh0 + forth@.take(k as int)).push(
                        forth@[k as int],
                    ));
                }
                k += 1;
            }
            proof {
                assert(forth@.take(forth@.len() as int) =~= forth@);
            }
            let playing_filtered = remove_cards_pub(&playing_hand, &back);
            cards_after[pi] = playing_filtered;
            after_passing = Some(cards_after);
            passed_cards = Some((forth, back));

            let party = playing_player.party();
            let (own, partner_pts) = if party.0 == 0 {
                (p0, p2)
            } else {
                (p1, p3)
            };
            won = Some(own + partner_pts >= game.state.value.0);
            proof {
                let pp = last_bidder(events_v, game@.state.value.0)->Some_0;
                let spec_ap = spec_after_passing(
                    game@.info.player_start_cards,
                    pp,
                    pass_list(events_v)[0],
                    pass_list(events_v).last(),
                );
                assert(Seq::new(
                    4,
                    |i: int|
                        (match after_passing {
                            Some(ref ap) => ap@[i]@,
                            None => Seq::empty(),
                        }),
                ) =~~= spec_ap);
            }
        }

        let r = GameInfoDatabase {
            info: copy_meta(&game.info),
            game_value: game.state.value,
            won,
            no_one_played,
            schwarz_game,
            playing_party,
            after_passing,
            passed_cards,
            bidding_history: copy_history(&game.state.bidding_history),
            tricks: crate::game::gamestate::copy_tricks(&game.state.all_tricks),
            all_events: copy_events(&game.all_events),
        };
        r
    }

    /// Overwrite the three timestamps of the archived game; everything
    /// else stays as it was.
    pub fn set_times(&mut self, created: String, started: String, ended: String)
        ensures
            final(self).info@.create_time == created@,
            final(self).info@.start_time == Some(started@),
            final(self).info@.end_time == Some(ended@),
            final(self).info@.name == old(self).info@.name,
            final(self).info@.player_names == old(self).info@.player_names,
            final(self).info@.player_start_cards == old(self).info@.player_start_cards,
            final(self).game_value == old(self).game_value,
            final(self).won == old(self).won,
            final(self).no_one_played == old(self).no_one_played,
            final(self).schwarz_game == old(self).schwarz_game,
            final(self).playing_party == old(self).playing_party,
            final(self).after_passing == old(self).after_passing,
            final(self).passed_cards == old(self).passed_cards,
            final(self).bidding_history == old(self).bidding_history,
            final(self).tricks == old(self).tricks,
            final(self).all_events == old(self).all_events,
    {
        self.info.create_time = created;
        self.info.start_time = Some(started);
        self.info.end_time = Some(ended);
    }
}

/// The cards of a hand that are not in a given bundle, in hand order.
pub fn remove_cards_pub(hand: &Vec<Card>, cards: &Vec<Card>) -> (r: Vec<Card>)
    ensures
        r@ == remove_all_cards(hand@, cards@),
{
    let mut r: Vec<Card> = Vec::new();
    let mut i: usize = 0;
    proof {
        assert(hand@.take(0) =~= Seq::<Card>::empty());
        assert(r@ =~= remove_all_cards(hand@.take(0), cards@));
    }
    while i < hand.len()
        invariant
            i <= hand@.len(),
            r@ == remove_all_cards(hand@.take(i as int), cards@),
        decreases hand@.len() - i,
    {
        let c = hand[i];
        proof {
            reveal(Seq::filter);
            assert(hand@.take(i + 1).drop_last() =~= hand@.take(i as int));
            assert(hand@.take(i + 1).last() == c);
        }
        if !crate::game::cards::contains_card(cards, &c) {
            r.push(c);
        }
        i += 1;
    }
    proof {
        assert(hand@.take(hand@.len() as int) =~= hand@);
    }
    r
}

} // verus!
