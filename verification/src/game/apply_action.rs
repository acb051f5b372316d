use vstd::prelude::*;

use crate::game::cards::{
    contains_card, copy_cards, has_half, high_card, lemma_seq_last_max_in, of_suit,
    remove_all_cards, remove_card, spec_high_card, trick_candidates, Card, Suit,
};
use crate::game::gameevent::{
    ActionType, ActionTypeView, AnswerType, GameAction, GameActionView, GameCallback, QuestionType,
};
use crate::game::gameinfo::{copy_meta, GameMetaInfo};
use crate::game::gamestate::{
    contains_place, contains_suit_list, copy_phase, copy_player, copy_state, count_bidding,
    FinishedTrick, FinishedTrickView, GamePhase, GameState, GameStateView,
};
use crate::game::player::{spec_next, spec_partner, PlaceAtTable, PlayerView};
use crate::game::points::{points_trick, spec_points_trick, Points};
use crate::game::{current_time_string, game_base_ok, spec_legal_actions, Game, GameView};

verus! {

/// The first seat after `p`, going around the table, that still carries the
/// bidding flag; `p` itself if no other seat does.
pub open spec fn spec_next_bidding(players: Seq<PlayerView>, p: PlaceAtTable) -> PlaceAtTable {
    let n1 = spec_next(p);
    let n2 = spec_next(n1);
    let n3 = spec_next(n2);
    if players[n1.0 as int].bidding {
        n1
    } else if players[n2.0 as int].bidding {
        n2
    } else if players[n3.0 as int].bidding {
        n3
    } else {
        p
    }
}

/// The highest-numbered seat that still carries the bidding flag.
pub open spec fn last_bidding_seat(players: Seq<PlayerView>) -> PlaceAtTable {
    if players[3].bidding {
        PlaceAtTable(3)
    } else if players[2].bidding {
        PlaceAtTable(2)
    } else if players[1].bidding {
        PlaceAtTable(1)
    } else {
        PlaceAtTable(0)
    }
}

/// A start press: record the seat once; with all four seats in, the game
/// begins and the phase moves to bidding.
pub open spec fn apply_start(s: GameStateView, p: PlaceAtTable) -> GameStateView {
    let started2 = if s.players_started.contains(p) {
        s.players_started
    } else {
        s.players_started.push(p)
    };
    if started2.len() == 4 {
        GameStateView {
            players_started: started2,
            started: true,
            phase: GamePhase::Bidding,
            ..s
        }
    } else {
        GameStateView { players_started: started2, ..s }
    }
}

/// A bid: record it, raise the value; in the raising phase the game moves
/// straight to trick play, otherwise the turn passes to the next bidding
/// seat, or the sole bidder's partner receives the deal.
pub open spec fn apply_new_bid(s: GameStateView, v: i32, p: PlaceAtTable) -> GameStateView {
    let s1 = GameStateView {
        bidding_history: s.bidding_history.push((ActionTypeView::NewBid(v), p)),
        value: Points(v),
        ..s
    };
    if s.phase is Raising {
        GameStateView { phase: GamePhase::Trick, ..s1 }
    } else {
        let nxt = spec_next_bidding(s.players, s.player_at_turn);
        if nxt == s.player_at_turn {
            GameStateView {
                phase: GamePhase::PassingForth,
                player_at_turn: spec_partner(s.player_at_turn),
                ..s1
            }
        } else {
            GameStateView { player_at_turn: nxt, ..s1 }
        }
    }
}

/// A stop: the mover leaves the ladder; with one raised bidder left the
/// deal goes to that bidder's partner, with none left play begins directly.
pub open spec fn apply_stop(s: GameStateView, p: PlaceAtTable) -> GameStateView {
    let t = s.player_at_turn;
    let players2 = s.players.update(
        t.0 as int,
        PlayerView { bidding: false, ..s.players[t.0 as int] },
    );
    let bp2 = (s.bidding_players - 1) as u8;
    let nxt = if bp2 >= 1 {
        spec_next_bidding(players2, t)
    } else {
        spec_next(t)
    };
    let s1 = GameStateView {
        bidding_history: s.bidding_history.push((ActionTypeView::StopBidding, p)),
        players: players2,
        bidding_players: bp2,
        player_at_turn: nxt,
        ..s
    };
    if bp2 == 1 && s.value.0 > 115 {
        GameStateView {
            phase: GamePhase::PassingForth,
            player_at_turn: spec_partner(last_bidding_seat(players2)),
            ..s1
        }
    } else if bp2 == 0 {
        GameStateView { phase: GamePhase::Trick, ..s1 }
    } else {
        s1
    }
}

/// A pass: the four cards move from the mover's hand to the partner's; a
/// forth pass hands the turn to the partner for the return pass, the return
/// pass opens the raising phase.
pub open spec fn apply_pass(s: GameStateView, cards: Seq<Card>, p: PlaceAtTable) -> GameStateView {
    let giver = s.players[p.0 as int];
    let q = spec_partner(p);
    let players2 = s.players.update(
        p.0 as int,
        PlayerView { cards: remove_all_cards(giver.cards, cards), ..giver },
    );
    let receiver = players2[q.0 as int];
    let players3 = players2.update(
        q.0 as int,
        PlayerView { cards: receiver.cards + cards, ..receiver },
    );
    if s.phase is PassingBack {
        GameStateView { players: players3, phase: GamePhase::Raising, ..s }
    } else {
        GameStateView { players: players3, phase: GamePhase::PassingBack, player_at_turn: q, ..s }
    }
}

/// The position of the first occurrence of a card in a sequence.
pub open spec fn first_index_of(s: Seq<Card>, c: Card) -> int
    decreases s.len(),
{
    if s.len() == 0 {
        0
    } else if s[0] == c {
        0
    } else {
        1 + first_index_of(s.drop_first(), c)
    }
}

/// A card joins the table: a full trick is cleared lazily by the next
/// lead, and a trick that just completed is resolved to its winner, who
/// leads next.
pub open spec fn apply_act_card(s: GameStateView, card: Card) -> GameStateView {
    let trick1 = if s.current_trick.len() >= 4 {
        seq![card]
    } else {
        s.current_trick.push(card)
    };
    let after = spec_next(s.player_at_turn);
    let s1 = GameStateView {
        current_trick: trick1,
        phase: GamePhase::Trick,
        player_at_turn: after,
        ..s
    };
    if trick1.len() == 4 {
        let hc = spec_high_card(trick1, s.trump)->Some_0;
        let widx = first_index_of(trick1, hc);
        let wseat = PlaceAtTable(((after.0 + widx) % 4) as u8);
        GameStateView {
            phase: GamePhase::StartTrick,
            player_at_turn: wseat,
            all_tricks: s1.all_tricks.push(
                FinishedTrickView {
                    cards: trick1,
                    winner: wseat,
                    points: Points(spec_points_trick(trick1) as i32),
                },
            ),
            ..s1
        }
    } else {
        s1
    }
}

/// A card play: the card joins the table, leaves the mover's hand, and the
/// game ends when the seat now at turn has run out of cards.
pub open spec fn apply_card_played(s: GameStateView, card: Card, p: PlaceAtTable) -> GameStateView {
    let s1 = apply_act_card(s, card);
    let mover = s1.players[p.0 as int];
    let s2 = GameStateView {
        players: s1.players.update(
            p.0 as int,
            PlayerView { cards: remove_card(mover.cards, card), last_played: Some(card), ..mover },
        ),
        ..s1
    };
    if s2.players[s2.player_at_turn.0 as int].cards.len() == 0 {
        GameStateView { phase: GamePhase::Ended, ..s2 }
    } else {
        s2
    }
}

/// A private trump announcement: the suit becomes trump, is recorded as
/// announced, and trick play resumes with the same leader.
pub open spec fn apply_announce(s: GameStateView, su: Suit) -> GameStateView {
    GameStateView {
        trump: Some(su),
        trump_called: s.trump_called.push(su),
        phase: GamePhase::Trick,
        ..s
    }
}

/// A question: the partner is to answer, in the phase matching the
/// question.
pub open spec fn apply_question(s: GameStateView, q: QuestionType) -> GameStateView {
    let phase2 = match q {
        QuestionType::Yours => GamePhase::AnsweringPair,
        QuestionType::YourHalf(su) => GamePhase::AnsweringHalf(su),
    };
    GameStateView { phase: phase2, player_at_turn: spec_partner(s.player_at_turn), ..s }
}

/// An answer: trump may be set or confirmed, a callback reports what
/// happened, and the asker leads the next trick.
pub open spec fn apply_answer(s: GameStateView, ans: AnswerType) -> (GameStateView, Option<
    GameCallback,
>) {
    let pt = spec_partner(s.player_at_turn);
    match ans {
        AnswerType::NoPair => (
            GameStateView { phase: GamePhase::Trick, player_at_turn: pt, ..s },
            None,
        ),
        AnswerType::YesPair(su) => (
            GameStateView {
                trump: Some(su),
                trump_called: s.trump_called.push(su),
                phase: GamePhase::Trick,
                player_at_turn: pt,
                ..s
            },
            Some(GameCallback::NewTrump(su)),
        ),
        AnswerType::NoHalf(su) => (
            GameStateView { phase: GamePhase::Trick, player_at_turn: pt, ..s },
            Some(GameCallback::NoHalf(su)),
        ),
        AnswerType::YesHalf(su) => {
            let partner_cards = s.players[pt.0 as int].cards;
            if has_half(partner_cards, su) {
                if s.trump_called.contains(su) {
                    (
                        GameStateView {
                            trump: Some(su),
                            phase: GamePhase::Trick,
                            player_at_turn: pt,
                            ..s
                        },
                        Some(GameCallback::StillTrump(su)),
                    )
                } else {
                    (
                        GameStateView {
                            trump: Some(su),
                            trump_called: s.trump_called.push(su),
                            phase: GamePhase::Trick,
                            player_at_turn: pt,
                            ..s
                        },
                        Some(GameCallback::NewTrump(su)),
                    )
                }
            } else {
                (
                    GameStateView { phase: GamePhase::Trick, player_at_turn: pt, ..s },
                    Some(GameCallback::OnlyHalf(su)),
                )
            }
        },
    }
}

/// An accept vote: recorded once per seat; the second distinct vote rolls
/// the whole state back to the retained snapshot.
pub open spec fn apply_undo_accept(g: GameView, p: PlaceAtTable) -> (GameStateView, Option<
    GameStateView,
>) {
    let s = g.state;
    let votes2 = if s.players_accept_undo.contains(p) {
        s.players_accept_undo
    } else {
        s.players_accept_undo.push(p)
    };
    if votes2.len() == 2 && g.last_state is Some {
        (
            GameStateView { players_accept_undo: Seq::empty(), ..g.last_state->Some_0 },
            None,
        )
    } else {
        (GameStateView { players_accept_undo: votes2, ..s }, g.last_state)
    }
}

/// A decline vote: the pending wrapper unwinds to the wrapped phase and the
/// votes are cleared.
pub open spec fn apply_undo_decline(s: GameStateView) -> GameStateView {
    match s.phase {
        GamePhase::PendingUndo(prev) => GameStateView {
            phase: *prev,
            players_accept_undo: Seq::empty(),
            ..s
        },
        _ => s,
    }
}

/// An undo request: the current phase is wrapped, pending the vote; without
/// a snapshot nothing changes.
pub open spec fn apply_undo_request(g: GameView) -> GameStateView {
    if g.last_state is Some {
        GameStateView { phase: GamePhase::PendingUndo(Box::new(g.state.phase)), ..g.state }
    } else {
        g.state
    }
}

/// The full transition relation of the engine: the state after an action,
/// the callback it emits, and the undo snapshot the next game retains.
pub open spec fn spec_transition(g: GameView, a: GameActionView) -> (GameStateView, Option<
    GameCallback,
>, Option<GameStateView>) {
    let s = g.state;
    match a.action_type {
        ActionTypeView::Start => (apply_start(s, a.player), None, None),
        ActionTypeView::NewBid(v) => (apply_new_bid(s, v, a.player), None, Some(s)),
        ActionTypeView::StopBidding => (apply_stop(s, a.player), None, Some(s)),
        ActionTypeView::Pass(cards) => (apply_pass(s, cards, a.player), None, None),
        ActionTypeView::CardPlayed(c) => (apply_card_played(s, c, a.player), None, Some(s)),
        ActionTypeView::AnnounceTrump(su) => (
            apply_announce(s, su),
            Some(GameCallback::NewTrump(su)),
            None,
        ),
        ActionTypeView::Question(q) => (apply_question(s, q), None, None),
        ActionTypeView::Answer(ans) => {
            let (ns, cb) = apply_answer(s, ans);
            (ns, cb, None)
        },
        ActionTypeView::UndoAccept => {
            let (ns, nl) = apply_undo_accept(g, a.player);
            (ns, None, nl)
        },
        ActionTypeView::UndoDecline => (apply_undo_decline(s), None, None),
        ActionTypeView::UndoRequest => (apply_undo_request(g), None, g.last_state),
    }
}

/// Playing a card out of one hand keeps all hands duplicate-free and
/// pairwise disjoint.
proof fn lemma_play_distinct(players: Seq<PlayerView>, c: Card, p: PlaceAtTable)
    requires
        players.len() == 4,
        p.0 < 4,
        crate::game::gamestate::hands_distinct(players),
    ensures
        ({
            let mover = players[p.0 as int];
            crate::game::gamestate::hands_distinct(
                players.update(
                    p.0 as int,
                    PlayerView {
                        cards: remove_card(mover.cards, c),
                        last_played: Some(c),
                        ..mover
                    },
                ),
            )
        }),
{
    let pi = p.0 as int;
    let mover = players[pi];
    let updated = players.update(
        pi,
        PlayerView { cards: remove_card(mover.cards, c), last_played: Some(c), ..mover },
    );
    crate::game::cards::lemma_remove_card_nodup(mover.cards, c);
    assert forall|i: int| 0 <= i < 4 implies (#[trigger] updated[i]).cards.no_duplicates() by {
        if i != pi {
            assert(updated[i].cards == players[i].cards);
        }
    }
    assert forall|i: int, j: int, x: Card|
        0 <= i < 4 && 0 <= j < 4 && i != j implies !(#[trigger] updated[i].cards.contains(x)
        && #[trigger] updated[j].cards.contains(x)) by {
        if updated[i].cards.contains(x) && updated[j].cards.contains(x) {
            if i == pi {
                crate::game::cards::lemma_remove_card_in(mover.cards, c, x);
                assert(players[i].cards.contains(x));
            } else {
                assert(players[i].cards.contains(x));
            }
            if j == pi {
                crate::game::cards::lemma_remove_card_in(mover.cards, c, x);
                assert(players[j].cards.contains(x));
            } else {
                assert(players[j].cards.contains(x));
            }
            assert(!(players[i].cards.contains(x) && players[j].cards.contains(x)));
            assert(false);
        }
    }
}

/// Moving a distinct bundle of the giver's cards to the partner keeps all
/// hands duplicate-free and pairwise disjoint.
proof fn lemma_pass_distinct(players: Seq<PlayerView>, cards: Seq<Card>, p: PlaceAtTable)
    requires
        players.len() == 4,
        p.0 < 4,
        crate::game::gamestate::hands_distinct(players),
        cards.to_multiset().subset_of(players[p.0 as int].cards.to_multiset()),
    ensures
        ({
            let giver = players[p.0 as int];
            let q = spec_partner(p);
            let players2 = players.update(
                p.0 as int,
                PlayerView { cards: remove_all_cards(giver.cards, cards), ..giver },
            );
            let receiver = players2[q.0 as int];
            let players3 = players2.update(
                q.0 as int,
                PlayerView { cards: receiver.cards + cards, ..receiver },
            );
            crate::game::gamestate::hands_distinct(players3)
        }),
        remove_all_cards(players[p.0 as int].cards, cards).len() + cards.len() == players[
            p.0 as int].cards.len(),
{
    broadcast use vstd::seq_lib::group_to_multiset_ensures;

    let giver_cards = players[p.0 as int].cards;
    let q = spec_partner(p);
    assert(p.0 == 0 || p.0 == 1 || p.0 == 2 || p.0 == 3);
    assert(q.0 != p.0 && q.0 < 4);
    let receiver_cards = players[q.0 as int].cards;
    let giver2 = remove_all_cards(giver_cards, cards);
    let receiver2 = receiver_cards + cards;
    let players2 = players.update(
        p.0 as int,
        PlayerView { cards: giver2, ..players[p.0 as int] },
    );
    let players3 = players2.update(
        q.0 as int,
        PlayerView { cards: receiver2, ..players2[q.0 as int] },
    );

    giver_cards.lemma_multiset_has_no_duplicates();
    assert(forall|x: Card| giver_cards.to_multiset().count(x) <= 1) by {
        assert forall|x: Card| giver_cards.to_multiset().count(x) <= 1 by {
            if giver_cards.to_multiset().count(x) > 1 {
                assert(giver_cards.to_multiset().contains(x));
            }
        }
    }
    assert forall|x: Card| cards.to_multiset().contains(x) implies cards.to_multiset().count(x)
        == 1 by {
        assert(cards.to_multiset().count(x) <= giver_cards.to_multiset().count(x));
    }
    cards.lemma_multiset_has_no_duplicates_conv();
    assert(cards.no_duplicates());
    assert forall|x: Card| cards.contains(x) implies giver_cards.contains(x) by {
        assert(cards.to_multiset().count(x) >= 1);
        assert(giver_cards.to_multiset().count(x) >= 1);
    }

    crate::game::cards::lemma_remove_all_nodup(giver_cards, cards);
    assert(giver2.no_duplicates());
    assert forall|x: Card| giver2.contains(x) implies giver_cards.contains(x) && !cards.contains(
        x,
    ) by {
        crate::game::cards::lemma_remove_all_in(giver_cards, cards, x);
    }

    receiver_cards.lemma_multiset_has_no_duplicates();
    vstd::seq_lib::lemma_multiset_commutative(receiver_cards, cards);
    assert forall|x: Card| receiver2.to_multiset().contains(x) implies receiver2.to_multiset().count(
        x,
    ) == 1 by {
        if receiver_cards.to_multiset().count(x) >= 1 && cards.to_multiset().count(x) >= 1 {
            assert(receiver_cards.contains(x));
            assert(cards.contains(x));
            assert(giver_cards.contains(x));
            assert(!(players[p.0 as int].cards.contains(x) && players[
                q.0 as int].cards.contains(x)));
            assert(false);
        }
        if receiver_cards.to_multiset().count(x) > 1 {
            assert(receiver_cards.to_multiset().contains(x));
        }
    }
    receiver2.lemma_multiset_has_no_duplicates_conv();
    assert(receiver2.no_duplicates());
    assert forall|x: Card| receiver2.contains(x) implies receiver_cards.contains(x)
        || giver_cards.contains(x) by {
        let w = choose|w: int| 0 <= w < receiver2.len() && receiver2[w] == x;
        if w < receiver_cards.len() {
            assert(receiver_cards[w] == x);
        } else {
            assert(cards[w - receiver_cards.len()] == x);
        }
    }

    assert forall|i: int| 0 <= i < 4 implies (#[trigger] players3[i]).cards.no_duplicates() by {
        if i != p.0 as int && i != q.0 as int {
            assert(players3[i].cards == players[i].cards);
        }
    }
    assert forall|i: int, j: int, c: Card|
        0 <= i < 4 && 0 <= j < 4 && i != j implies !(#[trigger] players3[i].cards.contains(c)
        && #[trigger] players3[j].cards.contains(c)) by {
        if players3[i].cards.contains(c) && players3[j].cards.contains(c) {
            assert(i == p.0 as int || i == q.0 as int || players3[i].cards == players[i].cards);
            assert(j == p.0 as int || j == q.0 as int || players3[j].cards == players[j].cards);
            if i == p.0 as int {
                assert(giver_cards.contains(c) && !cards.contains(c));
            }
            if j == p.0 as int {
                assert(giver_cards.contains(c) && !cards.contains(c));
            }
            if i == q.0 as int {
                assert(receiver_cards.contains(c) || giver_cards.contains(c));
            }
            if j == q.0 as int {
                assert(receiver_cards.contains(c) || giver_cards.contains(c));
            }
            assert(i == p.0 as int || i == q.0 as int ==> players[i].cards.contains(c)
                || giver_cards.contains(c));
            assert(!(players[p.0 as int].cards.contains(c) && players[
                q.0 as int].cards.contains(c)));
            if i != p.0 as int && i != q.0 as int {
                assert(players[i].cards.contains(c));
                assert(!(players[i].cards.contains(c) && players[p.0 as int].cards.contains(c)));
                assert(!(players[i].cards.contains(c) && players[q.0 as int].cards.contains(c)));
            }
            if j != p.0 as int && j != q.0 as int {
                assert(players[j].cards.contains(c));
                assert(!(players[j].cards.contains(c) && players[p.0 as int].cards.contains(c)));
                assert(!(players[j].cards.contains(c) && players[q.0 as int].cards.contains(c)));
                if i != p.0 as int && i != q.0 as int {
                    assert(!(players[i].cards.contains(c) && players[j].cards.contains(c)));
                }
            }
            assert(false);
        }
    }
    assert(crate::game::gamestate::hands_distinct(players3));
    assert forall|i: int| 0 <= i < cards.len() implies giver_cards.contains(
        #[trigger] cards[i],
    ) by {
        assert(cards.contains(cards[i]));
    }
    crate::game::cards::lemma_remove_all_multiset(giver_cards, cards);
    assert(giver2.len() + cards.len() == giver_cards.len()) by {
        broadcast use vstd::multiset::group_multiset_axioms;

        assert(giver_cards.to_multiset().len() == giver2.to_multiset().len()
            + cards.to_multiset().len());
    }
}

/// The successor of a legal action is again a sound game state: the state
/// invariant, the hand bounds, the bidding bookkeeping, and the undo and
/// answering conditions all carry over.
#[verifier::rlimit(100)]
pub proof fn lemma_transition_ok(g: GameView, a: GameActionView)
    requires
        game_base_ok(g),
        spec_legal_actions(g).contains(a),
    ensures
        ({
            let (ns, cb, nl) = spec_transition(g, a);
            &&& crate::game::gamestate::state_ok(ns)
            &&& crate::game::gamestate::hands_ok(ns.phase, ns)
            &&& crate::game::gamestate::hands_distinct(ns.players)
            &&& (ns.phase is Bidding ==> crate::game::gamestate::bidding_ok(ns))
            &&& (match ns.phase {
                GamePhase::PendingUndo(inner) => nl is Some && crate::game::wrapped_ok(*inner) && ((
                *inner) is Bidding ==> crate::game::gamestate::bidding_ok(ns))
                    && ns.players_accept_undo.len() <= 1,
                _ => true,
            })
            &&& (ns.phase is AnsweringPair ==> a.action_type == ActionTypeView::Question(
                QuestionType::Yours,
            ) && nl is None)
            &&& (match ns.phase {
                GamePhase::AnsweringHalf(su) => a.action_type == ActionTypeView::Question(
                    QuestionType::YourHalf(su),
                ) && nl is None,
                _ => true,
            })
            &&& (match nl {
                Some(snap) => crate::game::snapshot_ok(snap),
                None => true,
            })
            &&& (!(ns.phase is PendingUndo) ==> ns.players_accept_undo.len() == 0)
            &&& (ns.phase is WaitingForStart ==> !ns.started && ns.bidding_players == 4
                && ns.players_started.len() < 4 && (forall|i: int|
                0 <= i < 4 ==> (#[trigger] ns.players[i]).bidding))
            &&& a.player.0 < 4
        }),
{
    crate::game::legal_actions::lemma_legal_shape(g, a);
    let s = g.state;
    let (ns, cb, nl) = spec_transition(g, a);
    match a.action_type {
        ActionTypeView::Start => {
            if !s.players_started.contains(a.player) {
                assert(s.players_started.push(a.player).no_duplicates()) by {
                    let st2 = s.players_started.push(a.player);
                    assert forall|i: int, j: int|
                        0 <= i < st2.len() && 0 <= j < st2.len() && i != j implies st2[i]
                        != st2[j] by {
                        if i < st2.len() - 1 && j < st2.len() - 1 {
                        } else if i == st2.len() - 1 && j < st2.len() - 1 {
                            assert(s.players_started[j] == st2[j]);
                        } else if j == st2.len() - 1 && i < st2.len() - 1 {
                            assert(s.players_started[i] == st2[i]);
                        }
                    }
                }
            }
            if ns.phase is Bidding {
                lemma_count_unfold(s.players);
            }
            assert(s.phase is WaitingForStart);
            assert(ns.players == s.players);
            assert(ns.phase is WaitingForStart || ns.phase is Bidding);
            assert(crate::game::gamestate::nine_hands(s));
            assert(crate::game::gamestate::nine_hands(ns));
            assert(crate::game::gamestate::hands_ok(ns.phase, ns));
        },
        ActionTypeView::NewBid(v) => {
            if s.phase is Bidding && ns.phase is Bidding {
                let nxt = spec_next_bidding(s.players, s.player_at_turn);
                assert(ns.player_at_turn == nxt);
                assert(s.players[nxt.0 as int].bidding);
            }
            assert(crate::game::gamestate::hands_ok(ns.phase, ns));
        },
        ActionTypeView::StopBidding => {
            let t = s.player_at_turn;
            let players2 = s.players.update(
                t.0 as int,
                PlayerView { bidding: false, ..s.players[t.0 as int] },
            );
            lemma_count_unfold(s.players);
            lemma_count_unfold(players2);
            assert(count_bidding(players2, 4) == count_bidding(s.players, 4) - 1);
            let bp2 = (s.bidding_players - 1) as u8;
            if ns.phase is Bidding {
                assert(bp2 >= 1);
                let n1 = spec_next(t);
                let n2 = spec_next(n1);
                let n3 = spec_next(n2);
                assert(t.0 == 0 || t.0 == 1 || t.0 == 2 || t.0 == 3);
                assert(players2[n1.0 as int].bidding || players2[n2.0 as int].bidding || players2[
                    n3.0 as int].bidding);
                assert(players2[ns.player_at_turn.0 as int].bidding);
            }
            crate::game::gamestate::lemma_hands_distinct_same_cards(s.players, players2);
            assert(crate::game::gamestate::hands_ok(ns.phase, ns));
        },
        ActionTypeView::Pass(cards) => {
            let q = spec_partner(a.player);
            assert(a.player.0 == 0 || a.player.0 == 1 || a.player.0 == 2 || a.player.0 == 3);
            assert(q.0 != a.player.0);
            let giver = s.players[a.player.0 as int];
            crate::game::cards::lemma_remove_all_shrinks(giver.cards, cards);
            lemma_pass_distinct(s.players, cards, a.player);
            assert(crate::game::gamestate::hands_distinct(ns.players));
            assert(ns.players[a.player.0 as int].cards.len() + 4 == s.players[
                a.player.0 as int].cards.len());
            if s.phase is PassingForth {
                assert(spec_partner(ns.player_at_turn) == a.player) by {
                    assert(a.player.0 == 0 || a.player.0 == 1 || a.player.0 == 2 || a.player.0
                        == 3);
                }
                assert(crate::game::gamestate::back_hands(ns));
            } else {
                assert(q == spec_partner(s.player_at_turn));
                assert(crate::game::gamestate::nine_hands(ns));
            }
            assert(crate::game::gamestate::hands_ok(ns.phase, ns));
        },
        ActionTypeView::CardPlayed(c) => {
            let mover = apply_act_card(s, c).players[a.player.0 as int];
            crate::game::cards::lemma_remove_one_shrinks(mover.cards, c);
            assert(crate::game::gamestate::hands_ok(ns.phase, ns));
            assert(apply_act_card(s, c).players == s.players);
            lemma_play_distinct(s.players, c, a.player);
            assert(crate::game::gamestate::hands_distinct(ns.players)) by {
                let pi = a.player.0 as int;
                assert(ns.players =~= s.players.update(
                    pi,
                    PlayerView {
                        cards: remove_card(mover.cards, c),
                        last_played: Some(c),
                        ..mover
                    },
                ));
            }
        },
        ActionTypeView::AnnounceTrump(_su) => {
            assert(crate::game::gamestate::hands_ok(ns.phase, ns));
        },
        ActionTypeView::Question(_q) => {
            assert(spec_partner(spec_partner(s.player_at_turn)) == s.player_at_turn) by {
                assert(s.player_at_turn.0 == 0 || s.player_at_turn.0 == 1 || s.player_at_turn.0
                    == 2 || s.player_at_turn.0 == 3);
            }
            assert(crate::game::gamestate::hands_ok(ns.phase, ns));
        },
        ActionTypeView::Answer(_ans) => {
            assert(crate::game::gamestate::hands_ok(ns.phase, ns));
        },
        ActionTypeView::UndoAccept => {
            let votes2 = if s.players_accept_undo.contains(a.player) {
                s.players_accept_undo
            } else {
                s.players_accept_undo.push(a.player)
            };
            if votes2.len() == 2 && g.last_state is Some {
                let snap = g.last_state->Some_0;
                crate::game::gamestate::lemma_hands_ok_same(snap.phase, ns, snap);
            } else {
                crate::game::gamestate::lemma_hands_ok_same(s.phase, ns, s);
            }
            assert(crate::game::gamestate::hands_ok(ns.phase, ns));
        },
        ActionTypeView::UndoDecline => {
            match s.phase {
                GamePhase::PendingUndo(inner) => {
                    crate::game::gamestate::lemma_hands_ok_same(*inner, ns, s);
                },
                _ => {},
            }
            assert(crate::game::gamestate::hands_ok(ns.phase, ns));
        },
        ActionTypeView::UndoRequest => {
            assert(!(s.phase is AnsweringPair) && !(match s.phase {
                GamePhase::AnsweringHalf(_) => true,
                _ => false,
            })) by {
                if s.phase is AnsweringPair {
                    assert(g.last_state is None);
                }
                match s.phase {
                    GamePhase::AnsweringHalf(_) => {
                        assert(g.last_state is None);
                    },
                    _ => {},
                }
            }
            crate::game::gamestate::lemma_hands_ok_same(s.phase, ns, s);
            assert(crate::game::gamestate::hands_ok(ns.phase, ns));
        },
    }
}

/// The bidding counter is the number of raised flags.
pub proof fn lemma_count_unfold(players: Seq<PlayerView>)
    ensures
        count_bidding(players, 4) == (if players[0].bidding {
            1int
        } else {
            0int
        }) + (if players[1].bidding {
            1int
        } else {
            0int
        }) + (if players[2].bidding {
            1int
        } else {
            0int
        }) + (if players[3].bidding {
            1int
        } else {
            0int
        }),
{
    assert(count_bidding(players, 0) == 0);
    assert(count_bidding(players, 1) == count_bidding(players, 0) + if players[0].bidding {
        1int
    } else {
        0int
    });
    assert(count_bidding(players, 2) == count_bidding(players, 1) + if players[1].bidding {
        1int
    } else {
        0int
    });
    assert(count_bidding(players, 3) == count_bidding(players, 2) + if players[2].bidding {
        1int
    } else {
        0int
    });
    assert(count_bidding(players, 4) == count_bidding(players, 3) + if players[3].bidding {
        1int
    } else {
        0int
    });
}

proof fn lemma_first_index_at(s: Seq<Card>, c: Card, j: int)
    requires
        0 <= j < s.len(),
        s[j] == c,
        forall|k: int| 0 <= k < j ==> s[k] != c,
    ensures
        first_index_of(s, c) == j,
    decreases j,
{
    if j == 0 {
    } else {
        assert(s.drop_first()[j - 1] == c);
        assert(forall|k: int| 0 <= k < j - 1 ==> s.drop_first()[k] != c);
        lemma_first_index_at(s.drop_first(), c, j - 1);
    }
}

fn first_index(trick: &Vec<Card>, c: Card) -> (r: usize)
    requires
        trick@.contains(c),
    ensures
        r as int == first_index_of(trick@, c),
        r < trick@.len(),
{
    let mut i: usize = 0;
    while i < trick.len()
        invariant
            i <= trick@.len(),
            trick@.contains(c),
            forall|k: int| 0 <= k < i ==> trick@[k] != c,
        decreases trick@.len() - i,
    {
        if trick[i] == c {
            proof {
                lemma_first_index_at(trick@, c, i as int);
            }
            return i;
        }
        i += 1;
    }
    proof {
        let w = choose|w: int| 0 <= w < trick@.len() && trick@[w] == c;
        assert(false);
    }
    0
}

fn next_bidding_place(state: &GameState, from: PlaceAtTable) -> (r: PlaceAtTable)
    requires
        from.0 < 4,
        state.players@.len() == 4,
    ensures
        r == spec_next_bidding(state@.players, from),
        r.0 < 4,
{
    let n1 = from.next();
    if state.players[n1.0 as usize].bidding {
        return n1;
    }
    let n2 = n1.next();
    if state.players[n2.0 as usize].bidding {
        return n2;
    }
    let n3 = n2.next();
    if state.players[n3.0 as usize].bidding {
        return n3;
    }
    from
}

fn last_bidding_place(state: &GameState) -> (r: PlaceAtTable)
    requires
        state.players@.len() == 4,
    ensures
        r == last_bidding_seat(state@.players),
        r.0 < 4,
{
    if state.players[3].bidding {
        PlaceAtTable(3)
    } else if state.players[2].bidding {
        PlaceAtTable(2)
    } else if state.players[1].bidding {
        PlaceAtTable(1)
    } else {
        PlaceAtTable(0)
    }
}

fn remove_cards_exec(hand: &Vec<Card>, cards: &Vec<Card>) -> (r: Vec<Card>)
    ensures
        r@ == remove_all_cards(hand@, cards@),
{
    let mut r: Vec<Card> = Vec::new();
    let mut i: usize = 0;
    proof {
        assert(hand@.take(0) =~= Seq::<Card>::empty());
        assert(r@ =~= remove_all_cards(hand@.take(0), cards@));
    }
    while i < hand.len()
        invariant
            i <= hand@.len(),
            r@ == remove_all_cards(hand@.take(i as int), cards@),
        decreases hand@.len() - i,
    {
        let c = hand[i];
        proof {
            reveal(Seq::filter);
            assert(hand@.take(i + 1).drop_last() =~= hand@.take(i as int));
            assert(hand@.take(i + 1).last() == c);
        }
        if !contains_card(cards, &c) {
            r.push(c);
        }
        i += 1;
    }
    proof {
        assert(hand@.take(hand@.len() as int) =~= hand@);
    }
    r
}

/// Lay a card on the table: clear a full trick lazily, pass the turn on,
/// and resolve a trick that just completed to its winner.
pub fn act_card(card: Card, next_game_state: &mut GameState)
    requires
        old(next_game_state).player_at_turn.0 < 4,
        old(next_game_state).players@.len() == 4,
        old(next_game_state)@.current_trick.len() <= 4,
    ensures
        final(next_game_state)@ == apply_act_card(old(next_game_state)@, card),
{
    let ghost s0 = next_game_state@;
    if next_game_state.current_trick.len() >= 4 {
        let mut fresh: Vec<Card> = Vec::new();
        fresh.push(card);
        next_game_state.current_trick = fresh;
        proof {
            assert(next_game_state@.current_trick =~= seq![card]);
        }
    } else {
        next_game_state.current_trick.push(card);
    }
    next_game_state.phase = GamePhase::Trick;
    next_game_state.player_at_turn = next_game_state.player_at_turn.next();
    if next_game_state.current_trick.len() == 4 {
        let ghost trick1 = next_game_state@.current_trick;
        let hc = match high_card(&next_game_state.current_trick, next_game_state.trump) {
            Some(h) => h,
            None => {
                proof {
                    assert(false);
                }
                card
            },
        };
        proof {
            let cands = trick_candidates(trick1, s0.trump);
            assert(cands.len() > 0) by {
                match s0.trump {
                    Some(t) => {
                        if crate::game::cards::trick_has_suit(trick1, t) {
                            let w = choose|w: int|
                                0 <= w < trick1.len() && trick1[w].suit == t;
                            trick1.lemma_filter_contains(|c: Card| c.suit == t, w);
                        } else {
                            trick1.lemma_filter_contains(
                                |c: Card| c.suit == trick1[0].suit,
                                0,
                            );
                        }
                    },
                    None => {
                        trick1.lemma_filter_contains(|c: Card| c.suit == trick1[0].suit, 0);
                    },
                }
            }
            lemma_seq_last_max_in(cands);
            match s0.trump {
                Some(t) => {
                    if crate::game::cards::trick_has_suit(trick1, t) {
                        crate::game::cards::lemma_of_suit_in(trick1, t, hc);
                    } else {
                        crate::game::cards::lemma_of_suit_in(trick1, trick1[0].suit, hc);
                    }
                },
                None => {
                    crate::game::cards::lemma_of_suit_in(trick1, trick1[0].suit, hc);
                },
            }
            assert(trick1.contains(hc));
        }
        let widx = first_index(&next_game_state.current_trick, hc);
        let leader = next_game_state.player_at_turn;
        let wseat = PlaceAtTable(((leader.0 as usize + widx) % 4) as u8);
        next_game_state.player_at_turn = wseat;
        next_game_state.phase = GamePhase::StartTrick;
        let cards4: [Card; 4] = [
            next_game_state.current_trick[0],
            next_game_state.current_trick[1],
            next_game_state.current_trick[2],
            next_game_state.current_trick[3],
        ];
        let pts = points_trick(copy_cards(&next_game_state.current_trick));
        next_game_state.all_tricks.push(
            FinishedTrick { cards: cards4, winner: wseat, points: pts },
        );
        proof {
            assert(cards4@ =~= trick1);
            assert(next_game_state@ =~~= apply_act_card(s0, card));
        }
    } else {
        proof {
            assert(next_game_state@ =~~= apply_act_card(s0, card));
        }
    }
}

fn do_start(game: &Game, p: PlaceAtTable) -> (r: (GameState, bool))
    ensures
        r.0@ == apply_start(game@.state, p),
        r.1 == (apply_start(game@.state, p).phase is Bidding && !(game@.state.phase is Bidding)),
{
    let mut next_game_state = copy_state(&game.state);
    let mut became_bidding = false;
    let has_started = contains_place(&game.state.players_started, p);
    if !has_started {
        next_game_state.players_started.push(p);
    }
    if next_game_state.players_started.len() == 4 {
        next_game_state.started = true;
        became_bidding = !matches!(game.state.phase, GamePhase::Bidding);
        next_game_state.phase = GamePhase::Bidding;
    }
    proof {
        assert(next_game_state@ =~~= apply_start(game@.state, p));
    }
    (next_game_state, became_bidding)
}

fn do_new_bid(game: &Game, value: i32, p: PlaceAtTable) -> (r: GameState)
    requires
        game.state.player_at_turn.0 < 4,
        game.state.players@.len() == 4,
    ensures
        r@ == apply_new_bid(game@.state, value, p),
{
    let mut next_game_state = copy_state(&game.state);
    next_game_state.bidding_history.push((ActionType::NewBid(value), p));
    next_game_state.value = Points(value);
    if matches!(game.state.phase, GamePhase::Raising) {
        next_game_state.phase = GamePhase::Trick;
    } else {
        let next_player = next_bidding_place(&game.state, game.state.player_at_turn);
        if next_player == game.state.player_at_turn {
            next_game_state.phase = GamePhase::PassingForth;
            next_game_state.player_at_turn = game.state.player_at_turn.partner();
        } else {
            next_game_state.player_at_turn = next_player;
        }
    }
    proof {
        assert(next_game_state@ =~~= apply_new_bid(game@.state, value, p));
    }
    next_game_state
}

#[verifier::rlimit(50)]
fn do_stop(game: &Game, p: PlaceAtTable) -> (r: GameState)
    requires
        game.state.player_at_turn.0 < 4,
        game.state.players@.len() == 4,
        game@.state.players[game.state.player_at_turn.0 as int].bidding,
        game.state.bidding_players as int == count_bidding(game@.state.players, 4),
    ensures
        r@ == apply_stop(game@.state, p),
{
    let mut next_game_state = copy_state(&game.state);
    next_game_state.bidding_history.push((ActionType::StopBidding, p));
    let t = game.state.player_at_turn;
    let mut stopped = copy_player(&next_game_state.players[t.0 as usize]);
    stopped.bidding = false;
    next_game_state.players[t.0 as usize] = stopped;
    proof {
        lemma_count_unfold(game@.state.players);
        assert(next_game_state.bidding_players >= 1);
        assert(next_game_state.players@.len() == next_game_state@.players.len());
        assert(next_game_state@.players.len() == 4);
    }
    next_game_state.bidding_players = next_game_state.bidding_players - 1;
    let mut next_player = t.next();
    if next_game_state.bidding_players >= 1 {
        next_player = next_bidding_place(&next_game_state, t);
    }
    next_game_state.player_at_turn = next_player;
    if next_game_state.bidding_players == 1 && game.state.value.0 > 115 {
        next_game_state.phase = GamePhase::PassingForth;
        let lone = last_bidding_place(&next_game_state);
        next_game_state.player_at_turn = lone.partner();
    } else if next_game_state.bidding_players == 0 {
        next_game_state.phase = GamePhase::Trick;
    }
    proof {
        assert(next_game_state@ =~~= apply_stop(game@.state, p));
    }
    next_game_state
}

fn do_pass(game: &Game, cards: &Vec<Card>, p: PlaceAtTable) -> (r: GameState)
    requires
        p.0 < 4,
        game.state.players@.len() == 4,
    ensures
        r@ == apply_pass(game@.state, cards@, p),
{
    let mut next_game_state = copy_state(&game.state);
    proof {
        assert(next_game_state.players@.len() == next_game_state@.players.len());
        assert(next_game_state.players@.len() == 4);
    }
    let gi = p.0 as usize;
    let mut giver = copy_player(&next_game_state.players[gi]);
    giver.cards = remove_cards_exec(&giver.cards, cards);
    next_game_state.players[gi] = giver;
    let ri = p.partner().0 as usize;
    proof {
        assert(next_game_state.players@.len() == 4);
    }
    let mut receiver = copy_player(&next_game_state.players[ri]);
    let mut i: usize = 0;
    let ghost receiver_before = receiver.cards@;
    let ghost receiver_orig = receiver@;
    proof {
        assert(receiver.cards@ =~= receiver_before + cards@.take(0));
    }
    while i < cards.len()
        invariant
            i <= cards@.len(),
            receiver@ == (PlayerView {
                cards: receiver_before + cards@.take(i as int),
                ..receiver_orig
            }),
        decreases cards@.len() - i,
    {
        receiver.cards.push(cards[i]);
        proof {
            assert(receiver_before + cards@.take(i + 1) =~= (receiver_before + cards@.take(
                i as int,
            )).push(cards@[i as int]));
        }
        i += 1;
    }
    proof {
        assert(cards@.take(cards@.len() as int) =~= cards@);
    }
    next_game_state.players[ri] = receiver;
    if matches!(game.state.phase, GamePhase::PassingBack) {
        next_game_state.phase = GamePhase::Raising;
    } else {
        next_game_state.phase = GamePhase::PassingBack;
        next_game_state.player_at_turn = p.partner();
    }
    proof {
        let q = spec_partner(p);
        assert(p.0 == 0 || p.0 == 1 || p.0 == 2 || p.0 == 3);
        assert(q.0 != p.0);
        let goal = apply_pass(game@.state, cards@, p).players;
        assert(next_game_state@.players.len() == 4 && goal.len() == 4);
        assert forall|i: int| 0 <= i < 4 implies next_game_state@.players[i] =~~= goal[i] by {
            if i == p.0 as int {
                assert(next_game_state@.players[i].cards =~= goal[i].cards);
                assert(next_game_state@.players[i] =~~= goal[i]);
            } else if i == q.0 as int {
                assert(next_game_state@.players[i].cards =~= goal[i].cards);
                assert(next_game_state@.players[i] =~~= goal[i]);
            } else {
                assert(next_game_state@.players[i] == goal[i]);
            }
        }
        assert(next_game_state@.players =~~= goal);
        assert(next_game_state@ =~~= apply_pass(game@.state, cards@, p));
    }
    next_game_state
}

fn do_card(game: &Game, card: Card, p: PlaceAtTable) -> (r: (GameState, bool))
    requires
        p.0 < 4,
        game.state.player_at_turn.0 < 4,
        game.state.players@.len() == 4,
        game@.state.current_trick.len() <= 4,
    ensures
        r.0@ == apply_card_played(game@.state, card, p),
        r.1 == (apply_card_played(game@.state, card, p).phase is Ended),
{
    let mut next_game_state = copy_state(&game.state);
    act_card(card, &mut next_game_state);
    let pi = p.0 as usize;
    let mut mover = copy_player(&next_game_state.players[pi]);
    mover.play_card(card);
    next_game_state.players[pi] = mover;
    let ti = next_game_state.player_at_turn.0 as usize;
    proof {
        assert(next_game_state.player_at_turn.0 < 4);
    }
    let mut game_over = false;
    if next_game_state.players[ti].cards.len() == 0 {
        next_game_state.phase = GamePhase::Ended;
        game_over = true;
    }
    proof {
        assert(next_game_state@ =~~= apply_card_played(game@.state, card, p));
    }
    (next_game_state, game_over)
}

fn do_answer(game: &Game, ans: AnswerType) -> (r: (GameState, Option<GameCallback>))
    requires
        game.state.player_at_turn.0 < 4,
        game.state.players@.len() == 4,
    ensures
        r.0@ == apply_answer(game@.state, ans).0,
        r.1 == apply_answer(game@.state, ans).1,
{
    let mut next_game_state = copy_state(&game.state);
    let mut this_callback: Option<GameCallback> = None;
    let pt = game.state.player_at_turn.partner();
    match ans {
        AnswerType::NoPair => {
            next_game_state.phase = GamePhase::Trick;
            next_game_state.player_at_turn = pt;
        },
        AnswerType::YesPair(su) => {
            this_callback = Some(GameCallback::NewTrump(su));
            next_game_state.trump_called.push(su);
            next_game_state.trump = Some(su);
            next_game_state.phase = GamePhase::Trick;
            next_game_state.player_at_turn = pt;
        },
        AnswerType::NoHalf(su) => {
            this_callback = Some(GameCallback::NoHalf(su));
            next_game_state.phase = GamePhase::Trick;
            next_game_state.player_at_turn = pt;
        },
        AnswerType::YesHalf(su) => {
            let partner_cards = copy_cards(&game.state.partner().cards);
            let partner_halves = crate::game::cards::halves(partner_cards);
            if contains_suit_list(&partner_halves, su) {
                if contains_suit_list(&game.state.trump_called, su) {
                    this_callback = Some(GameCallback::StillTrump(su));
                } else {
                    this_callback = Some(GameCallback::NewTrump(su));
                    next_game_state.trump_called.push(su);
                }
                next_game_state.trump = Some(su);
            } else {
                this_callback = Some(GameCallback::OnlyHalf(su));
            }
            next_game_state.player_at_turn = pt;
            next_game_state.phase = GamePhase::Trick;
            proof {
                crate::game::legal_actions::lemma_halves_contains(
                    game@.state.players[pt.0 as int].cards,
                    su,
                );
            }
        },
    }
    proof {
        assert(next_game_state@ =~~= apply_answer(game@.state, ans).0);
    }
    (next_game_state, this_callback)
}

fn do_undo_accept(game: &Game, p: PlaceAtTable) -> (r: (GameState, Option<GameState>))
    ensures
        r.0@ == apply_undo_accept(game@, p).0,
        (match r.1 {
            Some(l) => Some(l@),
            None => None::<GameStateView>,
        }) == apply_undo_accept(game@, p).1,
{
    let mut next_game_state = copy_state(&game.state);
    let mut last_state: Option<GameState> = match &game.last_state {
        Some(l) => Some(copy_state(l)),
        None => None,
    };
    let has_accepted = contains_place(&game.state.players_accept_undo, p);
    if !has_accepted {
        next_game_state.players_accept_undo.push(p);
    }
    if next_game_state.players_accept_undo.len() == 2 {
        if let Some(l) = &game.last_state {
            last_state = None;
            next_game_state = copy_state(l);
            next_game_state.players_accept_undo = Vec::new();
        }
    }
    proof {
        assert(next_game_state@ =~~= apply_undo_accept(game@, p).0);
    }
    (next_game_state, last_state)
}

fn do_undo_decline(game: &Game) -> (r: GameState)
    ensures
        r@ == apply_undo_decline(game@.state),
{
    let mut next_game_state = copy_state(&game.state);
    let unwrapped: Option<GamePhase> = match &next_game_state.phase {
        GamePhase::PendingUndo(prev) => Some(copy_phase(prev)),
        _ => None,
    };
    if let Some(prev) = unwrapped {
        next_game_state.phase = prev;
        next_game_state.players_accept_undo = Vec::new();
    }
    proof {
        assert(next_game_state@ =~~= apply_undo_decline(game@.state));
    }
    next_game_state
}

fn do_undo_request(game: &Game) -> (r: (GameState, Option<GameState>))
    ensures
        r.0@ == apply_undo_request(game@),
        (match r.1 {
            Some(l) => Some(l@),
            None => None::<GameStateView>,
        }) == game@.last_state,
{
    let mut next_game_state = copy_state(&game.state);
    let last_state: Option<GameState> = match &game.last_state {
        Some(l) => Some(copy_state(l)),
        None => None,
    };
    if matches!(&game.last_state, Some(_)) {
        let current = copy_phase(&next_game_state.phase);
        next_game_state.phase = GamePhase::PendingUndo(Box::new(current));
    }
    proof {
        assert(next_game_state@ =~~= apply_undo_request(game@));
    }
    (next_game_state, last_state)
}

impl ActionType {
    /// Apply one legal action to a game, producing the next identity,
    /// state, callback and undo snapshot. The action must be legal; the
    /// facade checks this before calling.
    pub fn apply_action(self, action: &GameAction, game: &Game) -> (r: (
        GameMetaInfo,
        GameState,
        Option<GameCallback>,
        Option<GameState>,
    ))
        requires
            game_base_ok(game@),
            spec_legal_actions(game@).contains(action@),
            self@ == action@.action_type,
        ensures
            ({
                let (ns, cb, nl) = spec_transition(game@, action@);
                &&& r.1@ == ns
                &&& r.2 == cb
                &&& (match r.3 {
                    Some(l) => Some(l@),
                    None => None::<GameStateView>,
                }) == nl
                &&& r.0@.name == game@.info.name
                &&& r.0@.create_time == game@.info.create_time
                &&& r.0@.player_names == game@.info.player_names
                &&& r.0@.player_start_cards == game@.info.player_start_cards
                &&& ((action@.action_type is Start && ns.phase is Bidding)
                    ==> r.0@.start_time is Some)
                &&& (!(action@.action_type is Start && ns.phase is Bidding) ==> r.0@.start_time
                    == game@.info.start_time)
                &&& ((action@.action_type is CardPlayed && ns.phase is Ended)
                    ==> r.0@.end_time is Some)
                &&& (!(action@.action_type is CardPlayed && ns.phase is Ended) ==> r.0@.end_time
                    == game@.info.end_time)
            }),
    {
        proof {
            crate::game::legal_actions::lemma_legal_shape(game@, action@);
        }
        let mut next_game_meta = copy_meta(&game.info);
        match self {
            ActionType::Start => {
                let (next_game_state, became_bidding) = do_start(game, action.player);
                if became_bidding {
                    next_game_meta.start_time = Some(current_time_string());
                }
                (next_game_meta, next_game_state, None, None)
            },
            ActionType::NewBid(value) => {
                let next_game_state = do_new_bid(game, value, action.player);
                (next_game_meta, next_game_state, None, Some(copy_state(&game.state)))
            },
            ActionType::StopBidding => {
                let next_game_state = do_stop(game, action.player);
                (next_game_meta, next_game_state, None, Some(copy_state(&game.state)))
            },
            ActionType::Pass(cards) => {
                let next_game_state = do_pass(game, &cards, action.player);
                (next_game_meta, next_game_state, None, None)
            },
            ActionType::CardPlayed(card) => {
                let (next_game_state, game_over) = do_card(game, card, action.player);
                if game_over {
                    next_game_meta.end_time = Some(current_time_string());
                }
                (next_game_meta, next_game_state, None, Some(copy_state(&game.state)))
            },
            ActionType::AnnounceTrump(suit) => {
                let mut next_game_state = copy_state(&game.state);
                next_game_state.trump_called.push(suit);
                next_game_state.trump = Some(suit);
                next_game_state.phase = GamePhase::Trick;
                proof {
                    assert(next_game_state@ =~~= apply_announce(game@.state, suit));
                }
                (next_game_meta, next_game_state, Some(GameCallback::NewTrump(suit)), None)
            },
            ActionType::Question(q) => {
                let mut next_game_state = copy_state(&game.state);
                next_game_state.phase = match q {
                    QuestionType::Yours => GamePhase::AnsweringPair,
                    QuestionType::YourHalf(su) => GamePhase::AnsweringHalf(su),
                };
                next_game_state.player_at_turn = game.state.player_at_turn.partner();
                proof {
                    assert(next_game_state@ =~~= apply_question(game@.state, q));
                }
                (next_game_meta, next_game_state, None, None)
            },
            ActionType::Answer(ans) => {
                let (next_game_state, this_callback) = do_answer(game, ans);
                (next_game_meta, next_game_state, this_callback, None)
            },
            ActionType::UndoAccept => {
                let (next_game_state, last_state) = do_undo_accept(game, action.player);
                (next_game_meta, next_game_state, None, last_state)
            },
            ActionType::UndoDecline => {
                let next_game_state = do_undo_decline(game);
                (next_game_meta, next_game_state, None, None)
            },
            ActionType::UndoRequest => {
                let (next_game_state, last_state) = do_undo_request(game);
                (next_game_meta, next_game_state, None, last_state)
            },
        }
    }
}

} // verus!
