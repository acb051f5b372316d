use vstd::prelude::*;

use crate::game::apply_action::{apply_pass, apply_start, apply_undo_accept};
use crate::game::cards::{lemma_remove_all_multiset, remove_all_cards, Card};
use crate::game::gamestate::{GamePhase, GameStateView};
use crate::game::legal_actions::{
    bid_ladder, binomial, spec_legal_bidding, spec_legal_passing,
};
use crate::game::player::{spec_partner, PlaceAtTable};
use crate::game::{game_base_ok, spec_legal_actions, GameView};

verus! {

/// Submitting the same start action twice from the same seat does not
/// register the seat twice: a second start press leaves the state exactly
/// as it was after the first.
pub proof fn lemma_start_idempotent(s: GameStateView, p: PlaceAtTable)
    ensures
        apply_start(apply_start(s, p), p) == apply_start(s, p),
{
    let s1 = apply_start(s, p);
    assert(s1.players_started.contains(p)) by {
        if !s.players_started.contains(p) {
            assert(s1.players_started.last() == p);
        }
    }
    assert(apply_start(s1, p) =~~= s1);
}

/// Once the fourth distinct seat presses start, the phase is exactly
/// Bidding.
pub proof fn lemma_start_completes(s: GameStateView, p: PlaceAtTable)
    requires
        s.players_started.len() == 3,
        !s.players_started.contains(p),
    ensures
        apply_start(s, p).phase is Bidding,
        apply_start(s, p).started,
        apply_start(s, p).player_at_turn == s.player_at_turn,
{
}

/// From a state still at the baseline value of 115, the legal bids are
/// exactly the 61 ladder values 120, 125, and so on up to 420, preceded by
/// the one stop action: 62 actions in all, the k-th bid being 115 + 5(k+1).
pub proof fn lemma_initial_bidding(s: GameStateView)
    requires
        s.value.0 == 115,
    ensures
        spec_legal_bidding(s).len() == 62,
        spec_legal_bidding(s)[0] == crate::game::legal_actions::av_stop(s.player_at_turn),
        forall|k: int|
            0 <= k < 61 ==> (#[trigger] bid_ladder(s.value.0 as int)[k]) == 120 + 5 * k,
        forall|k: int|
            0 <= k < 61 ==> #[trigger] spec_legal_bidding(s)[k + 1]
                == crate::game::legal_actions::av_bid(120 + 5 * k, s.player_at_turn),
{
}

/// While passing, there is exactly one legal action per 4-card combination
/// of the mover's hand: n-choose-4 of them.
pub proof fn lemma_passing_count(s: GameStateView)
    requires
        s.players.len() == 4,
        s.player_at_turn.0 < 4,
    ensures
        spec_legal_passing(s).len() == binomial(
            s.players[s.player_at_turn.0 as int].cards.len(),
            4,
        ),
{
    crate::game::legal_actions::lemma_combinations_count(
        s.players[s.player_at_turn.0 as int].cards,
        4,
    );
}

/// An ended game has no legal actions at all.
pub proof fn lemma_ended_no_actions(g: GameView)
    requires
        g.state.phase is Ended,
    ensures
        spec_legal_actions(g).len() == 0,
{
}

/// A non-empty hand always has at least one playable card: the follow-suit
/// engine falls back to the whole hand when no filter applies.
pub proof fn lemma_allowed_cards_nonempty(
    trick: Seq<Card>,
    hand: Seq<Card>,
    trump: Option<crate::game::cards::Suit>,
    first_trick: bool,
)
    requires
        hand.len() > 0,
    ensures
        crate::game::cards::spec_allowed_cards(trick, hand, trump, first_trick).len() > 0,
{
}

/// Choosing from at least as many things as one takes is always possible.
pub proof fn lemma_binomial_pos(n: nat, k: nat)
    requires
        k <= n,
    ensures
        binomial(n, k) >= 1,
    decreases n,
{
    if k > 0 {
        lemma_binomial_pos((n - 1) as nat, (k - 1) as nat);
    }
}

/// Before the end of a game there is always something legal to do: the
/// game invariant alone guarantees that the seat owing a move can make
/// one, so a full game never stalls short of its end.
pub proof fn lemma_no_dead_state(g: GameView)
    requires
        game_base_ok(g),
        !(g.state.phase is Ended),
    ensures
        spec_legal_actions(g).len() > 0,
{
    let s = g.state;
    match s.phase {
        GamePhase::WaitingForStart => {
            let pred = |q: crate::game::player::PlayerView| !s.players_started.contains(
                q.place_at_table,
            );
            assert(exists|i: int| 0 <= i < 4 && pred(s.players[i])) by {
                let taken = s.players_started;
                if taken.contains(s.players[0].place_at_table) && taken.contains(
                    s.players[1].place_at_table,
                ) && taken.contains(s.players[2].place_at_table) && taken.contains(
                    s.players[3].place_at_table,
                ) {
                    let w0 = choose|w: int| 0 <= w < taken.len() && taken[w] == PlaceAtTable(0);
                    let w1 = choose|w: int| 0 <= w < taken.len() && taken[w] == PlaceAtTable(1);
                    let w2 = choose|w: int| 0 <= w < taken.len() && taken[w] == PlaceAtTable(2);
                    let w3 = choose|w: int| 0 <= w < taken.len() && taken[w] == PlaceAtTable(3);
                    assert(w0 != w1 && w0 != w2 && w0 != w3 && w1 != w2 && w1 != w3 && w2 != w3);
                    assert(taken.len() >= 4);
                }
            }
            let w = choose|i: int| 0 <= i < 4 && pred(s.players[i]);
            s.players.lemma_filter_contains(pred, w);
        },
        GamePhase::Bidding => {},
        GamePhase::PassingForth | GamePhase::PassingBack => {
            crate::game::legal_actions::lemma_combinations_count(
                s.players[s.player_at_turn.0 as int].cards,
                4,
            );
            lemma_binomial_pos(s.players[s.player_at_turn.0 as int].cards.len(), 4);
        },
        GamePhase::Raising => {
            lemma_allowed_cards_nonempty(
                crate::game::legal_actions::open_trick(s),
                s.players[s.player_at_turn.0 as int].cards,
                s.trump,
                s.players[s.player_at_turn.0 as int].cards.len() == 9,
            );
        },
        GamePhase::StartTrick => {},
        GamePhase::Trick => {
            lemma_allowed_cards_nonempty(
                crate::game::legal_actions::open_trick(s),
                s.players[s.player_at_turn.0 as int].cards,
                s.trump,
                s.players[s.player_at_turn.0 as int].cards.len() == 9,
            );
        },
        GamePhase::AnsweringPair | GamePhase::AnsweringHalf(_) => {},
        GamePhase::Ended => {},
        GamePhase::PendingUndo(_) => {
            let st = g.last_state->Some_0.player_at_turn;
            let na = crate::game::player::spec_next(st);
            let nb = spec_partner(na);
            assert(na != nb);
            if s.players_accept_undo.contains(na) && s.players_accept_undo.contains(nb) {
                let w0 = choose|w: int|
                    0 <= w < s.players_accept_undo.len() && s.players_accept_undo[w] == na;
                let w1 = choose|w: int|
                    0 <= w < s.players_accept_undo.len() && s.players_accept_undo[w] == nb;
                assert(w0 != w1);
                assert(false);
            }
        },
    }
}

/// A lone accept vote does not roll anything back: the phase stays pending
/// and only the vote is recorded. A second accept from a different seat
/// restores, bit for bit, the snapshot taken when the undo was requested.
pub proof fn lemma_undo_two_accepts(g: GameView, g1: GameView, va: PlaceAtTable, vb: PlaceAtTable)
    requires
        game_base_ok(g),
        g.state.phase is PendingUndo,
        g.state.players_accept_undo.len() == 0,
        va != vb,
        g1.state == apply_undo_accept(g, va).0,
        g1.last_state == apply_undo_accept(g, va).1,
    ensures
        apply_undo_accept(g, va).0.phase == g.state.phase,
        apply_undo_accept(g, va).0 == (GameStateView {
            players_accept_undo: seq![va],
            ..g.state
        }),
        apply_undo_accept(g1, vb).0 == g.last_state->Some_0,
{
    let s1 = apply_undo_accept(g, va).0;
    assert(g.state.players_accept_undo.push(va) =~= seq![va]);
    assert(s1 =~~= (GameStateView { players_accept_undo: seq![va], ..g.state }));
    let votes2 = s1.players_accept_undo.push(vb);
    assert(!s1.players_accept_undo.contains(vb)) by {
        if s1.players_accept_undo.contains(vb) {
            let w = choose|w: int|
                0 <= w < s1.players_accept_undo.len() && s1.players_accept_undo[w] == vb;
            assert(s1.players_accept_undo[w] == va);
        }
    }
    assert(votes2.len() == 2);
    let snap = g.last_state->Some_0;
    assert(crate::game::snapshot_ok(snap));
    assert(snap.players_accept_undo.len() == 0);
    assert(apply_undo_accept(g1, vb).0 =~~= snap) by {
        assert(apply_undo_accept(g1, vb).0.players_accept_undo =~= snap.players_accept_undo);
    }
}

/// No trump-setting event by a seat means no bonus for that seat.
proof fn lemma_no_bonus(events: Seq<crate::game::gameevent::GameEventView>, seat: int)
    requires
        forall|k: int|
            0 <= k < events.len() ==> !((#[trigger] events[k]).callback matches Some(
                crate::game::gameevent::GameCallback::NewTrump(_),
            ) && events[k].last_action.player.0 == seat),
    ensures
        crate::game::gameinfo::seat_bonus(events, seat) == 0,
    decreases events.len(),
{
    if events.len() > 0 {
        lemma_no_bonus(events.drop_last(), seat);
    }
}

/// A seat that announces Red as trump exactly once over the whole game is
/// credited exactly 100 bonus points: its final tally is its trick points
/// plus 100.
pub proof fn lemma_red_announcement_bonus(
    tricks: Seq<crate::game::gamestate::FinishedTrickView>,
    events: Seq<crate::game::gameevent::GameEventView>,
    seat: int,
    w: int,
)
    requires
        0 <= w < events.len(),
        events[w].callback == Some(
            crate::game::gameevent::GameCallback::NewTrump(crate::game::cards::Suit::Red),
        ),
        events[w].last_action.player.0 == seat,
        forall|k: int|
            0 <= k < events.len() && k != w ==> !((#[trigger] events[k]).callback matches Some(
                crate::game::gameevent::GameCallback::NewTrump(_),
            ) && events[k].last_action.player.0 == seat),
    ensures
        crate::game::gameinfo::seat_bonus(events, seat) == 100,
        crate::game::gameinfo::seat_total(tricks, events, seat)
            == crate::game::gameinfo::seat_trick_points(tricks, seat) + 100,
    decreases events.len(),
{
    if w == events.len() - 1 {
        lemma_no_bonus(events.drop_last(), seat);
    } else {
        lemma_red_announcement_bonus(tricks, events.drop_last(), seat, w);
    }
}

/// Each single Red announcement contributes exactly its 100 bonus points
/// to the announcing seat's tally, whatever else that seat announced:
/// dropping the announcement from the log lowers the seat's bonus by
/// exactly 100.
pub proof fn lemma_red_bonus_contribution(
    events: Seq<crate::game::gameevent::GameEventView>,
    seat: int,
    w: int,
)
    requires
        0 <= w < events.len(),
        events[w].callback == Some(
            crate::game::gameevent::GameCallback::NewTrump(crate::game::cards::Suit::Red),
        ),
        events[w].last_action.player.0 == seat,
    ensures
        crate::game::gameinfo::seat_bonus(events, seat) == crate::game::gameinfo::seat_bonus(
            events.remove(w),
            seat,
        ) + 100,
    decreases events.len(),
{
    if w == events.len() - 1 {
        assert(events.remove(w) =~= events.drop_last());
    } else {
        lemma_red_bonus_contribution(events.drop_last(), seat, w);
        assert(events.remove(w).drop_last() =~= events.drop_last().remove(w));
        assert(events.remove(w).last() == events.last());
    }
}

/// Passing four cards forth and then passing the same four cards back
/// returns both hands to their original contents, up to ordering: passing
/// relocates cards, it never transforms them. The bundle must be one the
/// legality engine offers the seat at turn; everything else follows from
/// the game invariant.
pub proof fn lemma_pass_round_trip(g: GameView, cards: Seq<Card>)
    requires
        game_base_ok(g),
        g.state.phase is PassingForth,
        spec_legal_actions(g).contains(
            crate::game::legal_actions::av_pass(cards, g.state.player_at_turn),
        ),
    ensures
        ({
            let p = g.state.player_at_turn;
            let q = spec_partner(p);
            let back = apply_pass(apply_pass(g.state, cards, p), cards, q);
            &&& back.players[p.0 as int].cards.to_multiset() == g.state.players[
            p.0 as int].cards.to_multiset()
            &&& back.players[q.0 as int].cards == g.state.players[q.0 as int].cards
        }),
{
    broadcast use vstd::seq_lib::group_to_multiset_ensures;

    let s = g.state;
    let p = s.player_at_turn;
    let q = spec_partner(p);
    crate::game::legal_actions::lemma_legal_shape(
        g,
        crate::game::legal_actions::av_pass(cards, p),
    );
    let giver_cards = s.players[p.0 as int].cards;
    giver_cards.lemma_multiset_has_no_duplicates();
    assert(forall|x: Card| giver_cards.to_multiset().count(x) <= 1) by {
        assert forall|x: Card| giver_cards.to_multiset().count(x) <= 1 by {
            if giver_cards.to_multiset().count(x) > 1 {
                assert(giver_cards.to_multiset().contains(x));
            }
        }
    }
    assert forall|x: Card| cards.to_multiset().contains(x) implies cards.to_multiset().count(x)
        == 1 by {
        assert(cards.to_multiset().count(x) <= giver_cards.to_multiset().count(x));
    }
    cards.lemma_multiset_has_no_duplicates_conv();
    assert forall|i: int| 0 <= i < cards.len() implies giver_cards.contains(
        #[trigger] cards[i],
    ) by {
        assert(cards.contains(cards[i]));
        assert(cards.to_multiset().count(cards[i]) >= 1);
        assert(giver_cards.to_multiset().count(cards[i]) >= 1);
    }
    assert(p.0 == 0 || p.0 == 1 || p.0 == 2 || p.0 == 3);
    assert forall|i: int| 0 <= i < cards.len() implies !s.players[q.0 as int].cards.contains(
        #[trigger] cards[i],
    ) by {
        assert(giver_cards.contains(cards[i]));
        assert(!(s.players[p.0 as int].cards.contains(cards[i]) && s.players[
            q.0 as int].cards.contains(cards[i])));
    }
    lemma_pass_round_trip_on(s, cards, p);
}

/// The round trip itself, from the facts the invariant and the legality
/// engine supply.
proof fn lemma_pass_round_trip_on(s: GameStateView, cards: Seq<Card>, p: PlaceAtTable)
    requires
        s.players.len() == 4,
        p.0 < 4,
        s.phase is PassingForth,
        cards.no_duplicates(),
        forall|i: int| 0 <= i < cards.len() ==> s.players[p.0 as int].cards.contains(
            #[trigger] cards[i],
        ),
        forall|i: int| 0 <= i < cards.len() ==> !s.players[spec_partner(
            p,
        ).0 as int].cards.contains(#[trigger] cards[i]),
        s.players[p.0 as int].cards.no_duplicates(),
    ensures
        ({
            let back = apply_pass(apply_pass(s, cards, p), cards, spec_partner(p));
            &&& back.players[p.0 as int].cards.to_multiset() == s.players[
            p.0 as int].cards.to_multiset()
            &&& back.players[spec_partner(p).0 as int].cards == s.players[spec_partner(
                p,
            ).0 as int].cards
        }),
{
    broadcast use vstd::seq_lib::group_to_multiset_ensures;

    let q = spec_partner(p);
    assert(p.0 == 0 || p.0 == 1 || p.0 == 2 || p.0 == 3);
    assert(q.0 != p.0);
    let giver = s.players[p.0 as int].cards;
    let partner = s.players[q.0 as int].cards;
    let s1 = apply_pass(s, cards, p);
    assert(s1.players[p.0 as int].cards == remove_all_cards(giver, cards));
    assert(s1.players[q.0 as int].cards == partner + cards);
    assert(s1.phase is PassingBack);
    let s2 = apply_pass(s1, cards, q);
    assert(spec_partner(q) == p);
    assert(s2.players[q.0 as int].cards == remove_all_cards(partner + cards, cards));
    assert(s2.players[p.0 as int].cards == remove_all_cards(giver, cards) + cards);

    lemma_remove_all_from_sum(partner, cards);
    assert(s2.players[q.0 as int].cards == partner);

    lemma_remove_all_multiset(giver, cards);
    assert((remove_all_cards(giver, cards) + cards).to_multiset() =~= remove_all_cards(
        giver,
        cards,
    ).to_multiset().add(cards.to_multiset())) by {
        vstd::seq_lib::lemma_multiset_commutative(remove_all_cards(giver, cards), cards);
    }
    assert(giver.to_multiset() =~= remove_all_cards(giver, cards).to_multiset().add(
        cards.to_multiset(),
    ));
}

/// Removing a disjoint set of cards from the concatenation of a clean hand
/// and exactly those cards gives the hand back, element for element.
proof fn lemma_remove_all_from_sum(partner: Seq<Card>, cards: Seq<Card>)
    requires
        forall|i: int| 0 <= i < cards.len() ==> !partner.contains(#[trigger] cards[i]),
    ensures
        remove_all_cards(partner + cards, cards) == partner,
{
    lemma_remove_all_from_sum_helper(partner, cards, cards);
}

/// Removing cards that do not occur in a hand changes nothing.
proof fn lemma_remove_all_none(hand: Seq<Card>, cards: Seq<Card>)
    requires
        forall|i: int| 0 <= i < hand.len() ==> !cards.contains(#[trigger] hand[i]),
    ensures
        remove_all_cards(hand, cards) == hand,
    decreases hand.len(),
{
    reveal(Seq::filter);
    if hand.len() > 0 {
        lemma_remove_all_none(hand.drop_last(), cards);
        assert(hand.contains(hand.last()));
        assert(remove_all_cards(hand, cards) =~= hand.drop_last().push(hand.last()));
        assert(hand.drop_last().push(hand.last()) =~= hand);
    } else {
        assert(remove_all_cards(hand, cards) =~= hand);
    }
}

proof fn lemma_remove_all_from_sum_helper(
    partner: Seq<Card>,
    shorter: Seq<Card>,
    cards: Seq<Card>,
)
    requires
        forall|i: int| 0 <= i < cards.len() ==> !partner.contains(#[trigger] cards[i]),
        forall|i: int| 0 <= i < shorter.len() ==> cards.contains(#[trigger] shorter[i]),
        forall|i: int| 0 <= i < partner.len() ==> !cards.contains(#[trigger] partner[i]),
    ensures
        remove_all_cards(partner + shorter, cards) == partner,
    decreases shorter.len(),
{
    reveal(Seq::filter);
    if shorter.len() == 0 {
        assert(partner + shorter =~= partner);
        lemma_remove_all_none(partner, cards);
    } else {
        assert((partner + shorter).drop_last() =~= partner + shorter.drop_last());
        assert((partner + shorter).last() == shorter.last());
        assert(cards.contains(shorter.last()));
        lemma_remove_all_from_sum_helper(partner, shorter.drop_last(), cards);
    }
}

} // verus!
