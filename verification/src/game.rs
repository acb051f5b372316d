use vstd::prelude::*;

use chrono::offset::Local;
use chrono::DateTime;

use crate::game::cards::Card;
use crate::game::gameevent::{
    actions_view, ActionType, ActionTypeView, GameAction, GameActionView, GameEvent, GameEventView,
    QuestionType,
};
use crate::game::gameinfo::{GameMetaInfo, GameMetaInfoView};
use crate::game::gamestate::{
    bidding_ok, hands_ok, state_ok, GamePhase, GameState, GameStateView,
};
use crate::game::legal_actions::{av_start, av_undo_request, spec_phase_actions};
use crate::game::player::{create_players, PlaceAtTable, PlayerView};

pub mod apply_action;
pub mod cards;
pub mod errors;
pub mod gameevent;
pub mod gameinfo;
pub mod gamestate;
pub mod laws;
pub mod legal_actions;
pub mod parse;
pub mod player;
pub mod points;
pub mod series;

verus! {

/// Wrapper for one game and all of its details: frozen identity, current
/// state, the cached legal actions, the one-level undo snapshot, and the
/// full event log.
#[derive(Clone, Debug)]
pub struct Game {
    pub info: GameMetaInfo,
    pub state: GameState,
    pub legal_actions: Vec<GameAction>,
    pub last_state: Option<GameState>,
    pub all_events: Vec<GameEvent>,
}

/// The mathematical value of a Game.
#[verifier::ext_equal]
pub struct GameView {
    pub info: GameMetaInfoView,
    pub state: GameStateView,
    pub legal_actions: Seq<GameActionView>,
    pub last_state: Option<GameStateView>,
    pub all_events: Seq<GameEventView>,
}

impl View for Game {
    type V = GameView;

    open spec fn view(&self) -> GameView {
        GameView {
            info: self.info@,
            state: self.state@,
            legal_actions: actions_view(self.legal_actions@),
            last_state: match self.last_state {
                Some(ref s) => Some(s@),
                None => None,
            },
            all_events: Seq::new(self.all_events@.len(), |i: int| self.all_events@[i]@),
        }
    }
}

/// Every logged event was submitted by a valid seat.
pub open spec fn events_ok(es: Seq<GameEventView>) -> bool {
    forall|i: int| 0 <= i < es.len() ==> (#[trigger] es[i]).last_action.player.0 < 4
}

/// The phases an undo vote can be started from.
pub open spec fn wrapped_ok(p: GamePhase) -> bool {
    p is Bidding || p is PassingForth || p is Trick || p is StartTrick
}

/// Soundness of a retained undo snapshot: it is a sound state of one of the
/// phases that take snapshots, with no undo votes of its own.
pub open spec fn snapshot_ok(s: GameStateView) -> bool {
    &&& state_ok(s)
    &&& crate::game::gamestate::hands_distinct(s.players)
    &&& s.phase is Bidding || s.phase is Raising || s.phase is Trick || s.phase is StartTrick
    &&& (s.phase is Bidding ==> bidding_ok(s))
    &&& s.players_accept_undo.len() == 0
    &&& hands_ok(s.phase, s)
}

/// The invariant every reachable game satisfies, apart from the cached
/// legal-action list.
pub open spec fn game_base_ok(g: GameView) -> bool {
    &&& state_ok(g.state)
    &&& hands_ok(g.state.phase, g.state)
    &&& crate::game::gamestate::hands_distinct(g.state.players)
    &&& (g.state.phase is Bidding ==> bidding_ok(g.state))
    &&& (match g.state.phase {
        GamePhase::PendingUndo(inner) => g.last_state is Some && wrapped_ok(*inner) && ((
        *inner) is Bidding ==> bidding_ok(g.state)) && g.state.players_accept_undo.len() <= 1,
        _ => true,
    })
    &&& (g.state.phase is AnsweringPair ==> g.all_events.len() > 0
        && g.all_events.last().last_action.action_type == ActionTypeView::Question(
        QuestionType::Yours,
    ) && g.last_state is None)
    &&& (match g.state.phase {
        GamePhase::AnsweringHalf(su) => g.all_events.len() > 0
            && g.all_events.last().last_action.action_type == ActionTypeView::Question(
            QuestionType::YourHalf(su),
        ) && g.last_state is None,
        _ => true,
    })
    &&& (match g.last_state {
        Some(snap) => snapshot_ok(snap),
        None => true,
    })
    &&& (!(g.state.phase is PendingUndo) ==> g.state.players_accept_undo.len() == 0)
    &&& (g.state.phase is WaitingForStart ==> !g.state.started && g.state.bidding_players == 4
        && g.state.players_started.len() < 4 && (forall|i: int|
        0 <= i < 4 ==> (#[trigger] g.state.players[i]).bidding))
    &&& events_ok(g.all_events)
}

/// Whether the legality engine appends an undo offer: not in the phases
/// that forbid undo, not while one is pending, not while all bids are still
/// at the baseline, and only with a snapshot to roll back to.
pub open spec fn undo_offered(g: GameView) -> bool {
    &&& !(g.state.phase is WaitingForStart)
    &&& !(g.state.phase is Ended)
    &&& !(g.state.phase is PassingBack)
    &&& !(g.state.phase is Raising)
    &&& !(g.state.phase is PendingUndo)
    &&& (g.state.phase is Bidding ==> g.state.value.0 != 115)
    &&& g.last_state is Some
}

/// The full list of legal actions of a game: the phase-specific list, plus
/// the undo offer where one stands.
pub open spec fn spec_legal_actions(g: GameView) -> Seq<GameActionView> {
    if undo_offered(g) {
        spec_phase_actions(g).push(av_undo_request(g.last_state->Some_0.player_at_turn))
    } else {
        spec_phase_actions(g)
    }
}

/// The invariant every reachable game satisfies: the base invariant, and a
/// legal-action cache that matches the state.
pub open spec fn game_ok(g: GameView) -> bool {
    &&& game_base_ok(g)
    &&& g.legal_actions == spec_legal_actions(g)
}

/// Four hands cut from one duplicate-free run of cards are themselves
/// duplicate-free and pairwise disjoint.
proof fn lemma_hands_distinct_from_concat(players: Seq<PlayerView>)
    requires
        players.len() == 4,
        (players[0].cards + players[1].cards + players[2].cards
            + players[3].cards).no_duplicates(),
    ensures
        crate::game::gamestate::hands_distinct(players),
{
    crate::game::cards::lemma_concat4_distinct(
        players[0].cards,
        players[1].cards,
        players[2].cards,
        players[3].cards,
    );
    assert forall|i: int| 0 <= i < 4 implies (#[trigger] players[i]).cards.no_duplicates() by {
        assert(i == 0 || i == 1 || i == 2 || i == 3);
    }
    assert forall|i: int, j: int, c: Card|
        0 <= i < 4 && 0 <= j < 4 && i != j implies !(#[trigger] players[i].cards.contains(c)
        && #[trigger] players[j].cards.contains(c)) by {
        assert(i == 0 || i == 1 || i == 2 || i == 3);
        assert(j == 0 || j == 1 || j == 2 || j == 3);
    }
}

proof fn lemma_filter_keeps_all(players: Seq<PlayerView>, started: Seq<PlaceAtTable>)
    requires
        started.len() == 0,
    ensures
        players.filter(
            |p: PlayerView| !started.contains(p.place_at_table),
        ) == players,
    decreases players.len(),
{
    reveal(Seq::filter);
    if players.len() > 0 {
        lemma_filter_keeps_all(players.drop_last(), started);
        assert(players.filter(|p: PlayerView| !started.contains(p.place_at_table))
            =~= players.drop_last().push(players.last()));
        assert(players.drop_last().push(players.last()) =~= players);
    } else {
        assert(players.filter(|p: PlayerView| !started.contains(p.place_at_table))
            =~= players);
    }
}

impl Game {
    /// Create a fresh game in the waiting phase: four players, nine cards
    /// each (the supplied hands, or a shuffled deal), the legal actions
    /// being exactly one start action per seat.
    pub fn new(name: String, player_names: [String; 4], cards: Option<[Vec<Card>; 4]>) -> (r:
        Game)
        requires
            match cards {
                Some(given) => (forall|i: int|
                    0 <= i < 4 ==> (#[trigger] given@[i])@.len() == 9) && (given@[0]@ + given@[1]@
                    + given@[2]@ + given@[3]@).no_duplicates(),
                None => true,
            },
        ensures
            game_ok(r@),
            r@.info.name == name@,
            r@.info.start_time is None,
            r@.info.end_time is None,
            forall|i: int| 0 <= i < 4 ==> r@.info.player_names[i] == (#[trigger] player_names@[i])@,
            forall|i: int|
                0 <= i < 4 ==> r@.info.player_start_cards[i] == (#[trigger] r@.state.players[
                i]).cards,
            r@.state.phase is WaitingForStart,
            !r@.state.started,
            r@.state.players_started.len() == 0,
            r@.state.players_accept_undo.len() == 0,
            r@.state.bidding_history.len() == 0,
            r@.state.value == crate::game::points::Points(115),
            r@.state.bidding_players == 4,
            r@.state.trump is None,
            r@.state.trump_called.len() == 0,
            r@.state.player_at_turn == PlaceAtTable(0),
            r@.state.all_tricks.len() == 0,
            r@.state.current_trick.len() == 0,
            r@.state.players.len() == 4,
            forall|i: int|
                0 <= i < 4 ==> #[trigger] r@.state.players[i]
                    == crate::game::player::spec_fresh_player(
                    player_names@[i]@,
                    r@.state.players[i].cards,
                    i,
                ),
            match cards {
                Some(given) => forall|i: int|
                    0 <= i < 4 ==> (#[trigger] r@.state.players[i]).cards == given@[i]@,
                None => (r@.state.players[0].cards + r@.state.players[1].cards
                    + r@.state.players[2].cards
                    + r@.state.players[3].cards).to_multiset()
                    == crate::game::cards::all_cards().to_multiset(),
            },
            forall|i: int| 0 <= i < 4 ==> (#[trigger] r@.state.players[i]).cards.len() == 9,
            r@.last_state is None,
            r@.all_events.len() == 0,
            r@.legal_actions.len() == 4,
            forall|k: int|
                0 <= k < 4 ==> #[trigger] r@.legal_actions[k] == av_start(PlaceAtTable(k as u8)),
    {
        let names_copy = [
            player_names[0].clone(),
            player_names[1].clone(),
            player_names[2].clone(),
            player_names[3].clone(),
        ];
        proof {
            assert(forall|i: int| 0 <= i < 4 ==> names_copy@[i] == #[trigger] player_names@[i]);
        }
        let players = create_players(names_copy, cards);
        let info = GameMetaInfo::create(name, player_names, &players);
        let state = GameState::create(players);
        let mut game = Game { info, state, legal_actions: Vec::new(), last_state: None, all_events: Vec::new() };
        proof {
            assert(game@.all_events =~= Seq::<GameEventView>::empty());
            assert(crate::game::gamestate::hands_distinct(game@.state.players)) by {
                broadcast use vstd::seq_lib::group_to_multiset_ensures;

                let ps = game@.state.players;
                match cards {
                    Some(given) => {
                        assert(ps[0].cards + ps[1].cards + ps[2].cards + ps[3].cards =~= given@[
                        0]@ + given@[1]@ + given@[2]@ + given@[3]@);
                        lemma_hands_distinct_from_concat(ps);
                    },
                    None => {
                        let deck = ps[0].cards + ps[1].cards + ps[2].cards + ps[3].cards;
                        crate::game::cards::lemma_all_cards_nodup();
                        crate::game::cards::all_cards().lemma_multiset_has_no_duplicates();
                        assert(deck.to_multiset()
                            == crate::game::cards::all_cards().to_multiset());
                        assert forall|x: Card| deck.to_multiset().contains(x)
                            implies deck.to_multiset().count(x) == 1 by {
                            assert(crate::game::cards::all_cards().to_multiset().contains(x));
                        }
                        deck.lemma_multiset_has_no_duplicates_conv();
                        lemma_hands_distinct_from_concat(ps);
                    },
                }
            }
            assert(game_base_ok(game@));
        }
        let legal = game.legal_actions();
        game.legal_actions = legal;
        proof {
            lemma_filter_keeps_all(game@.state.players, game@.state.players_started);
            assert(spec_phase_actions(game@) =~= game@.state.players.map_values(
                |p: PlayerView| av_start(p.place_at_table),
            ));
        }
        game
    }

    /// The exhaustive ordered list of legal actions in the current state:
    /// empty exactly when the game has ended, never empty before that.
    pub fn legal_actions(&self) -> (r: Vec<GameAction>)
        requires
            game_base_ok(self@),
        ensures
            actions_view(r@) == spec_legal_actions(self@),
            self@.state.phase is Ended ==> r@.len() == 0,
            !(self@.state.phase is Ended) ==> r@.len() > 0,
    {
        proof {
            if matches!(self.state.phase, GamePhase::Ended) {
                crate::game::laws::lemma_ended_no_actions(self@);
            } else {
                crate::game::laws::lemma_no_dead_state(self@);
            }
        }
        let mut legal = self.state.phase.legal_actions(self);
        match &self.state.phase {
            GamePhase::WaitingForStart => {
                return legal;
            },
            GamePhase::Ended => {
                return legal;
            },
            GamePhase::PassingBack => {
                return legal;
            },
            GamePhase::Raising => {
                return legal;
            },
            GamePhase::PendingUndo(_) => {
                return legal;
            },
            GamePhase::Bidding => {
                if self.state.value.0 == 115 {
                    return legal;
                }
            },
            _ => {},
        }
        if let Some(last) = &self.last_state {
            legal.push(
                GameAction { action_type: ActionType::UndoRequest, player: last.player_at_turn },
            );
            proof {
                assert(actions_view(legal@) =~= spec_phase_actions(self@).push(
                    av_undo_request(self@.last_state->Some_0.player_at_turn),
                ));
            }
        }
        legal
    }

    /// Try to create the next game after applying a given action, never
    /// changing this one. It fails exactly on the actions outside the
    /// current legal set: an undo request submitted while no snapshot is
    /// retained fails with `CannotUndo`, every other illegal submission
    /// with `IllegalAction`. Otherwise the new game carries the
    /// transitioned state, the appended event, the recomputed legal
    /// actions, and the one-level undo snapshot the transition dictates.
    #[verifier::rlimit(100)]
    pub fn apply_action(&self, action: GameAction) -> (r: Result<
        Game,
        crate::game::errors::GameError,
    >)
        requires
            game_ok(self@),
        ensures
            r is Err <==> !spec_legal_actions(self@).contains(action@),
            (action@.action_type is UndoRequest && self@.last_state is None) ==> r == Err::<
                Game,
                crate::game::errors::GameError,
            >(crate::game::errors::GameError::CannotUndo),
            (r is Err && !(action@.action_type is UndoRequest && self@.last_state is None))
                ==> r->Err_0 == crate::game::errors::GameError::IllegalAction,
            r is Ok ==> ({
                let (ns, cb, nl) = crate::game::apply_action::spec_transition(self@, action@);
                let ng = r->Ok_0@;
                &&& game_ok(ng)
                &&& ng.state == ns
                &&& ng.last_state == nl
                &&& ng.all_events.len() == self@.all_events.len() + 1
                &&& ng.all_events.drop_last() == self@.all_events
                &&& ng.all_events.last().last_action == action@
                &&& ng.all_events.last().callback == cb
                &&& ng.all_events.last().player_at_turn == ns.player_at_turn
                &&& ng.legal_actions == spec_legal_actions(ng)
                &&& ng.info.name == self@.info.name
                &&& ng.info.create_time == self@.info.create_time
                &&& ng.info.player_names == self@.info.player_names
                &&& ng.info.player_start_cards == self@.info.player_start_cards
                &&& ((action@.action_type is Start && ns.phase is Bidding)
                    ==> ng.info.start_time is Some)
                &&& (!(action@.action_type is Start && ns.phase is Bidding)
                    ==> ng.info.start_time == self@.info.start_time)
                &&& ((action@.action_type is CardPlayed && ns.phase is Ended)
                    ==> ng.info.end_time is Some)
                &&& (!(action@.action_type is CardPlayed && ns.phase is Ended)
                    ==> ng.info.end_time == self@.info.end_time)
            }),
    {
        if matches!(&action.action_type, ActionType::UndoRequest) && self.last_state.is_none() {
            proof {
                if spec_legal_actions(self@).contains(action@) {
                    crate::game::legal_actions::lemma_legal_shape(self@, action@);
                    assert(false);
                }
            }
            return Err(crate::game::errors::GameError::CannotUndo);
        }
        if !crate::game::gameevent::action_in_list(&self.legal_actions, &action) {
            return Err(crate::game::errors::GameError::IllegalAction);
        }
        let action_type = crate::game::gameevent::copy_action_type(&action.action_type);
        let (next_game_meta, next_game_state, this_callback, last_state) = action_type.apply_action(
            &action,
            self,
        );
        let this_event = GameEvent {
            last_action: action,
            callback: this_callback,
            player_at_turn: next_game_state.player_at_turn,
            time: current_time_string(),
        };
        let mut next_all_events = crate::game::gameevent::copy_events(&self.all_events);
        next_all_events.push(this_event);
        let mut next_game = Game {
            info: next_game_meta,
            state: next_game_state,
            legal_actions: Vec::new(),
            last_state,
            all_events: next_all_events,
        };
        proof {
            let av = this_event.last_action@;
            let (ns, cb, nl) = crate::game::apply_action::spec_transition(self@, av);
            crate::game::apply_action::lemma_transition_ok(self@, av);
            assert(next_game@.all_events.drop_last() =~= self@.all_events);
            assert(next_game@.state == ns);
            assert(next_game@.last_state == nl);
            assert(next_game@.all_events.last() == this_event@);
            assert(state_ok(next_game@.state));
            assert(hands_ok(next_game@.state.phase, next_game@.state));
            assert(events_ok(next_game@.all_events)) by {
                assert(forall|i: int|
                    0 <= i < self@.all_events.len() ==> #[trigger] next_game@.all_events[i]
                        == self@.all_events[i]);
            }
            assert(next_game@.state.phase is AnsweringPair
                ==> next_game@.all_events.last().last_action.action_type
                == ActionTypeView::Question(QuestionType::Yours) && next_game@.last_state is None);
            assert(game_base_ok(next_game@));
        }
        let legal = next_game.legal_actions();
        next_game.legal_actions = legal;
        Ok(next_game)
    }

    /// Apply an action in place if it is legal, replacing this game
    /// wholesale with the result of `apply_action`; keep the game unchanged
    /// otherwise, silently discarding the error.
    pub fn apply_action_mutate_or_discard(&mut self, action: GameAction)
        requires
            game_ok(old(self)@),
        ensures
            game_ok(final(self)@),
            !spec_legal_actions(old(self)@).contains(action@) ==> final(self)@ == old(self)@,
            spec_legal_actions(old(self)@).contains(action@) ==> ({
                let (ns, cb, nl) = crate::game::apply_action::spec_transition(
                    old(self)@,
                    action@,
                );
                &&& final(self)@.state == ns
                &&& final(self)@.last_state == nl
                &&& final(self)@.all_events.len() == old(self)@.all_events.len() + 1
                &&& final(self)@.all_events.drop_last() == old(self)@.all_events
                &&& final(self)@.all_events.last().last_action == action@
                &&& final(self)@.all_events.last().callback == cb
                &&& final(self)@.all_events.last().player_at_turn == ns.player_at_turn
                &&& final(self)@.legal_actions == spec_legal_actions(final(self)@)
                &&& ((action@.action_type is Start && ns.phase is Bidding)
                    ==> final(self)@.info.start_time is Some)
                &&& (!(action@.action_type is Start && ns.phase is Bidding)
                    ==> final(self)@.info.start_time == old(self)@.info.start_time)
                &&& ((action@.action_type is CardPlayed && ns.phase is Ended)
                    ==> final(self)@.info.end_time is Some)
                &&& (!(action@.action_type is CardPlayed && ns.phase is Ended)
                    ==> final(self)@.info.end_time == old(self)@.info.end_time)
            }),
            final(self)@.info.name == old(self)@.info.name,
            final(self)@.info.create_time == old(self)@.info.create_time,
            final(self)@.info.player_names == old(self)@.info.player_names,
            final(self)@.info.player_start_cards == old(self)@.info.player_start_cards,
    {
        let next = self.apply_action(action);
        if let Ok(next_game) = next {
            *self = next_game;
        }
    }

    /// Whether the game has reached its final phase.
    pub fn ended(&self) -> (r: bool)
        ensures
            r == (self@.state.phase is Ended),
    {
        matches!(self.state.phase, GamePhase::Ended)
    }
}

/// An element-wise copy of a game.
pub fn copy_game(g: &Game) -> (r: Game)
    ensures
        r@ == g@,
{
    let mut legal: Vec<GameAction> = Vec::new();
    let mut i: usize = 0;
    while i < g.legal_actions.len()
        invariant
            i <= g.legal_actions@.len(),
            legal@.len() == i,
            forall|k: int| 0 <= k < i ==> (#[trigger] legal@[k])@ == g.legal_actions@[k]@,
        decreases g.legal_actions@.len() - i,
    {
        legal.push(crate::game::gameevent::copy_action(&g.legal_actions[i]));
        i += 1;
    }
    let r = Game {
        info: crate::game::gameinfo::copy_meta(&g.info),
        state: crate::game::gamestate::copy_state(&g.state),
        legal_actions: legal,
        last_state: match &g.last_state {
            Some(l) => Some(crate::game::gamestate::copy_state(l)),
            None => None,
        },
        all_events: crate::game::gameevent::copy_events(&g.all_events),
    };
    proof {
        assert(r@.legal_actions =~= g@.legal_actions);
        assert(r@.all_events =~= g@.all_events);
        assert(r@ =~~= g@);
    }
    r
}

/// Relies on chrono's local clock: the current local time, formatted as
/// year-month-day hour:minute:second.
#[verifier::external_body]
pub fn current_time_string() -> String {
    let system_time = std::time::SystemTime::now();
    let datetime: DateTime<Local> = system_time.into();
    format!("{}", datetime.format("%Y-%m-%d %T"))
}

} // verus!
