use vstd::multiset::Multiset;
use vstd::prelude::*;

use crate::game::cards::{
    allowed_cards, card_above, copy_cards, has_half, spec_allowed_cards, spec_halves, spec_pairs,
    Card, Suit,
};
use crate::game::gameevent::{
    actions_view, copy_action, lemma_actions_view_push, ActionType, ActionTypeView, AnswerType,
    GameAction, GameActionView, QuestionType,
};
use crate::game::gamestate::{contains_place, contains_suit_list, GamePhase, GameStateView};
use crate::game::player::{spec_next, spec_partner, PlaceAtTable, PlayerTrumpPossibilities,
    PlayerView};
use crate::game::{game_base_ok, spec_legal_actions, undo_offered, Game, GameView};

verus! {

broadcast use lemma_actions_view_push;

/// A "press start" submission of a seat.
pub open spec fn av_start(p: PlaceAtTable) -> GameActionView {
    GameActionView { action_type: ActionTypeView::Start, player: p }
}

/// A "stop bidding" submission of a seat.
pub open spec fn av_stop(p: PlaceAtTable) -> GameActionView {
    GameActionView { action_type: ActionTypeView::StopBidding, player: p }
}

/// A bid of a seat.
pub open spec fn av_bid(v: int, p: PlaceAtTable) -> GameActionView {
    GameActionView { action_type: ActionTypeView::NewBid(v as i32), player: p }
}

/// A pass of four cards by a seat.
pub open spec fn av_pass(cards: Seq<Card>, p: PlaceAtTable) -> GameActionView {
    GameActionView { action_type: ActionTypeView::Pass(cards), player: p }
}

/// A card play by a seat.
pub open spec fn av_card(c: Card, p: PlaceAtTable) -> GameActionView {
    GameActionView { action_type: ActionTypeView::CardPlayed(c), player: p }
}

/// A private trump announcement by a seat.
pub open spec fn av_announce(s: Suit, p: PlaceAtTable) -> GameActionView {
    GameActionView { action_type: ActionTypeView::AnnounceTrump(s), player: p }
}

/// A trump question by a seat.
pub open spec fn av_question(q: QuestionType, p: PlaceAtTable) -> GameActionView {
    GameActionView { action_type: ActionTypeView::Question(q), player: p }
}

/// An answer by a seat.
pub open spec fn av_answer(a: AnswerType, p: PlaceAtTable) -> GameActionView {
    GameActionView { action_type: ActionTypeView::Answer(a), player: p }
}

/// An undo request attributed to a seat.
pub open spec fn av_undo_request(p: PlaceAtTable) -> GameActionView {
    GameActionView { action_type: ActionTypeView::UndoRequest, player: p }
}

/// An undo-accept vote of a seat.
pub open spec fn av_undo_accept(p: PlaceAtTable) -> GameActionView {
    GameActionView { action_type: ActionTypeView::UndoAccept, player: p }
}

/// An undo-decline vote of a seat.
pub open spec fn av_undo_decline(p: PlaceAtTable) -> GameActionView {
    GameActionView { action_type: ActionTypeView::UndoDecline, player: p }
}

/// The number of k-element subsets of an n-element set.
pub open spec fn binomial(n: nat, k: nat) -> nat
    decreases n,
{
    if k == 0 {
        1
    } else if n == 0 {
        0
    } else {
        binomial((n - 1) as nat, (k - 1) as nat) + binomial((n - 1) as nat, k)
    }
}

/// All k-element combinations of a sequence, in lexicographic order of the
/// element indices, each combination in index order.
pub open spec fn combinations(s: Seq<Card>, k: nat) -> Seq<Seq<Card>>
    decreases s.len(),
{
    if k == 0 {
        seq![Seq::empty()]
    } else if s.len() < k {
        Seq::empty()
    } else {
        combinations(s.drop_first(), (k - 1) as nat).map_values(
            |c: Seq<Card>| seq![s[0]] + c,
        ) + combinations(s.drop_first(), k)
    }
}

/// There are exactly n-choose-k combinations.
pub proof fn lemma_combinations_count(s: Seq<Card>, k: nat)
    ensures
        combinations(s, k).len() == binomial(s.len(), k),
    decreases s.len(),
{
    if k == 0 {
    } else if s.len() < k {
        lemma_binomial_zero(s.len(), k);
    } else {
        lemma_combinations_count(s.drop_first(), (k - 1) as nat);
        lemma_combinations_count(s.drop_first(), k);
        if s.len() < k + 1 {
            lemma_binomial_zero((s.len() - 1) as nat, k);
        }
    }
}

proof fn lemma_binomial_zero(n: nat, k: nat)
    requires
        n < k,
    ensures
        binomial(n, k) == 0,
    decreases n,
{
    if n > 0 {
        lemma_binomial_zero((n - 1) as nat, (k - 1) as nat);
        lemma_binomial_zero((n - 1) as nat, k);
    }
}

/// Every combination takes k cards, as a sub-multiset of the sequence.
pub proof fn lemma_combinations_sub(s: Seq<Card>, k: nat)
    ensures
        forall|i: int|
            0 <= i < combinations(s, k).len() ==> (#[trigger] combinations(s, k)[i]).len() == k
                && combinations(s, k)[i].to_multiset().subset_of(s.to_multiset()),
    decreases s.len(),
{
    broadcast use vstd::seq_lib::group_to_multiset_ensures;

    if k == 0 {
        assert(combinations(s, k)[0].to_multiset() =~= Multiset::empty());
    } else if s.len() < k {
    } else {
        lemma_combinations_sub(s.drop_first(), (k - 1) as nat);
        lemma_combinations_sub(s.drop_first(), k);
        let c1 = combinations(s.drop_first(), (k - 1) as nat);
        let c2 = combinations(s.drop_first(), k);
        assert(s =~= seq![s[0]] + s.drop_first());
        assert(s.to_multiset() == Multiset::singleton(s[0]).add(s.drop_first().to_multiset())) by {
            vstd::seq_lib::lemma_multiset_commutative(seq![s[0]], s.drop_first());
            assert(seq![s[0]].to_multiset() =~= Multiset::singleton(s[0]));
        }
        assert forall|i: int|
            0 <= i < combinations(s, k).len() implies (#[trigger] combinations(s, k)[i]).len() == k
            && combinations(s, k)[i].to_multiset().subset_of(s.to_multiset()) by {
            if i < c1.len() {
                let inner = c1[i];
                assert(combinations(s, k)[i] == seq![s[0]] + inner);
                vstd::seq_lib::lemma_multiset_commutative(seq![s[0]], inner);
                assert(seq![s[0]].to_multiset() =~= Multiset::singleton(s[0]));
                assert((seq![s[0]] + inner).to_multiset() == Multiset::singleton(s[0]).add(
                    inner.to_multiset(),
                ));
            } else {
                assert(combinations(s, k)[i] == c2[i - c1.len()]);
            }
        }
    }
}

/// A card inserted into a descending-sorted sequence, before the first
/// element it stands structurally above.
pub open spec fn insert_desc(s: Seq<Card>, c: Card) -> Seq<Card>
    decreases s.len(),
{
    if s.len() == 0 {
        seq![c]
    } else if card_above(c, s[0]) {
        seq![c] + s
    } else {
        seq![s[0]] + insert_desc(s.drop_first(), c)
    }
}

/// A sequence of cards sorted into descending structural order by repeated
/// insertion.
pub open spec fn sort_desc(s: Seq<Card>) -> Seq<Card>
    decreases s.len(),
{
    if s.len() == 0 {
        Seq::empty()
    } else {
        insert_desc(sort_desc(s.drop_first()), s[0])
    }
}

/// Inserting adds exactly the inserted card, as multisets.
pub proof fn lemma_insert_desc_multiset(s: Seq<Card>, c: Card)
    ensures
        insert_desc(s, c).to_multiset() == s.to_multiset().insert(c),
        insert_desc(s, c).len() == s.len() + 1,
    decreases s.len(),
{
    broadcast use vstd::seq_lib::group_to_multiset_ensures;

    if s.len() == 0 {
        assert(insert_desc(s, c) =~= Seq::empty().push(c));
        assert(Seq::<Card>::empty().push(c).to_multiset() =~= s.to_multiset().insert(c));
    } else if card_above(c, s[0]) {
        assert(seq![c] + s =~= seq![c].add(s));
        vstd::seq_lib::lemma_multiset_commutative(seq![c], s);
        assert(seq![c].to_multiset() =~= Multiset::singleton(c));
        assert(Multiset::singleton(c).add(s.to_multiset()) =~= s.to_multiset().insert(c));
    } else {
        lemma_insert_desc_multiset(s.drop_first(), c);
        vstd::seq_lib::lemma_multiset_commutative(seq![s[0]], insert_desc(s.drop_first(), c));
        assert(seq![s[0]].to_multiset() =~= Multiset::singleton(s[0]));
        assert(s =~= seq![s[0]] + s.drop_first());
        vstd::seq_lib::lemma_multiset_commutative(seq![s[0]], s.drop_first());
        assert(insert_desc(s, c).to_multiset() =~= s.to_multiset().insert(c));
    }
}

/// Sorting keeps exactly the same cards, as multisets.
pub proof fn lemma_sort_desc_multiset(s: Seq<Card>)
    ensures
        sort_desc(s).to_multiset() == s.to_multiset(),
        sort_desc(s).len() == s.len(),
    decreases s.len(),
{
    broadcast use vstd::seq_lib::group_to_multiset_ensures;

    if s.len() > 0 {
        lemma_sort_desc_multiset(s.drop_first());
        lemma_insert_desc_multiset(sort_desc(s.drop_first()), s[0]);
        assert(s =~= seq![s[0]] + s.drop_first());
        vstd::seq_lib::lemma_multiset_commutative(seq![s[0]], s.drop_first());
        assert(seq![s[0]].to_multiset() =~= Multiset::singleton(s[0]));
        assert(Multiset::singleton(s[0]).add(s.drop_first().to_multiset())
            =~= s.drop_first().to_multiset().insert(s[0]));
    }
}

fn insert_desc_exec(sorted: &Vec<Card>, from: usize, c: Card) -> (r: Vec<Card>)
    requires
        from <= sorted@.len(),
    ensures
        r@ == insert_desc(sorted@.skip(from as int), c),
    decreases sorted@.len() - from,
{
    let mut r: Vec<Card> = Vec::new();
    if from == sorted.len() {
        r.push(c);
        proof {
            assert(sorted@.skip(from as int) =~= Seq::<Card>::empty());
            assert(r@ =~= seq![c]);
        }
        return r;
    }
    let head = sorted[from];
    proof {
        assert(sorted@.skip(from as int)[0] == head);
    }
    if crate::game::cards::is_card_above(&c, &head) {
        r.push(c);
        let mut i: usize = from;
        while i < sorted.len()
            invariant
                from <= i <= sorted@.len(),
                r@ == seq![c] + sorted@.subrange(from as int, i as int),
            decreases sorted@.len() - i,
        {
            r.push(sorted[i]);
            proof {
                assert(seq![c] + sorted@.subrange(from as int, i + 1) =~= (seq![c]
                    + sorted@.subrange(from as int, i as int)).push(sorted@[i as int]));
            }
            i += 1;
        }
        proof {
            assert(sorted@.subrange(from as int, sorted@.len() as int) =~= sorted@.skip(
                from as int,
            ));
            assert(r@ =~= seq![c] + sorted@.skip(from as int));
        }
        r
    } else {
        let rest = insert_desc_exec(sorted, from + 1, c);
        r.push(head);
        let mut i: usize = 0;
        while i < rest.len()
            invariant
                i <= rest@.len(),
                r@ == seq![head] + rest@.take(i as int),
            decreases rest@.len() - i,
        {
            r.push(rest[i]);
            proof {
                assert(seq![head] + rest@.take(i + 1) =~= (seq![head] + rest@.take(i as int)).push(
                    rest@[i as int],
                ));
            }
            i += 1;
        }
        proof {
            assert(rest@.take(rest@.len() as int) =~= rest@);
            assert(sorted@.skip(from as int).drop_first() =~= sorted@.skip(from as int + 1));
            assert(r@ =~= seq![head] + insert_desc(sorted@.skip(from as int).drop_first(), c));
        }
        r
    }
}

/// The cards of a list in descending structural order.
pub fn sort_cards_desc(cards: &Vec<Card>) -> (r: Vec<Card>)
    ensures
        r@ == sort_desc(cards@),
{
    let mut acc: Vec<Card> = Vec::new();
    let mut i: usize = cards.len();
    proof {
        assert(cards@.skip(i as int) =~= Seq::<Card>::empty());
    }
    while i > 0
        invariant
            i <= cards@.len(),
            acc@ == sort_desc(cards@.skip(i as int)),
        decreases i,
    {
        i -= 1;
        let next = insert_desc_exec(&acc, 0, cards[i]);
        proof {
            assert(acc@.skip(0) =~= acc@);
            assert(cards@.skip(i as int).drop_first() =~= cards@.skip(i as int + 1));
            assert(cards@.skip(i as int)[0] == cards@[i as int]);
        }
        acc = next;
    }
    proof {
        assert(cards@.skip(0) =~= cards@);
    }
    acc
}

fn combos_from(cards: &Vec<Card>, start: usize, k: usize) -> (r: Vec<Vec<Card>>)
    requires
        start <= cards@.len(),
    ensures
        r@.len() == combinations(cards@.skip(start as int), k as nat).len(),
        forall|i: int|
            0 <= i < r@.len() ==> (#[trigger] r@[i])@ == combinations(
                cards@.skip(start as int),
                k as nat,
            )[i],
    decreases cards@.len() - start,
{
    let ghost suffix = cards@.skip(start as int);
    if k == 0 {
        let mut r: Vec<Vec<Card>> = Vec::new();
        r.push(Vec::new());
        return r;
    }
    if cards.len() - start < k {
        return Vec::new();
    }
    let first = cards[start];
    proof {
        assert(suffix[0] == first);
        assert(suffix.drop_first() =~= cards@.skip(start as int + 1));
    }
    let ghost c1 = combinations(suffix.drop_first(), (k - 1) as nat);
    let ghost c2 = combinations(suffix.drop_first(), k as nat);
    let sub1 = combos_from(cards, start + 1, k - 1);
    let mut r: Vec<Vec<Card>> = Vec::new();
    let mut i: usize = 0;
    while i < sub1.len()
        invariant
            i <= sub1@.len(),
            r@.len() == i,
            sub1@.len() == c1.len(),
            first == cards@.skip(start as int)[0],
            c1 == combinations(cards@.skip(start as int).drop_first(), (k - 1) as nat),
            forall|w: int| 0 <= w < sub1@.len() ==> (#[trigger] sub1@[w])@ == c1[w],
            forall|w: int| 0 <= w < i ==> (#[trigger] r@[w])@ == seq![first] + c1[w],
        decreases sub1@.len() - i,
    {
        let mut nv: Vec<Card> = Vec::new();
        nv.push(first);
        let inner = &sub1[i];
        let mut j: usize = 0;
        while j < inner.len()
            invariant
                j <= inner@.len(),
                nv@ == seq![first] + inner@.take(j as int),
            decreases inner@.len() - j,
        {
            nv.push(inner[j]);
            proof {
                assert(seq![first] + inner@.take(j + 1) =~= (seq![first] + inner@.take(
                    j as int,
                )).push(inner@[j as int]));
            }
            j += 1;
        }
        proof {
            assert(nv@ =~= seq![first] + inner@.take(inner@.len() as int));
            assert(inner@.take(inner@.len() as int) =~= inner@);
        }
        r.push(nv);
        i += 1;
    }
    let sub2 = combos_from(cards, start + 1, k);
    let mut j: usize = 0;
    while j < sub2.len()
        invariant
            j <= sub2@.len(),
            r@.len() == c1.len() + j,
            sub2@.len() == c2.len(),
            first == cards@.skip(start as int)[0],
            c1 == combinations(cards@.skip(start as int).drop_first(), (k - 1) as nat),
            c2 == combinations(cards@.skip(start as int).drop_first(), k as nat),
            forall|w: int| 0 <= w < sub2@.len() ==> (#[trigger] sub2@[w])@ == c2[w],
            forall|w: int| 0 <= w < c1.len() ==> (#[trigger] r@[w])@ == seq![first] + c1[w],
            forall|w: int| c1.len() <= w < r@.len() ==> (#[trigger] r@[w])@ == c2[w - c1.len()],
        decreases sub2@.len() - j,
    {
        r.push(copy_cards(&sub2[j]));
        j += 1;
    }
    proof {
        let whole = combinations(suffix, k as nat);
        assert(whole == c1.map_values(|c: Seq<Card>| seq![first] + c) + c2);
        assert(r@.len() == whole.len());
        assert forall|w: int| 0 <= w < r@.len() implies (#[trigger] r@[w])@ == whole[w] by {
            if w < c1.len() {
                assert(whole[w] == c1.map_values(|c: Seq<Card>| seq![first] + c)[w]);
            } else {
                assert(whole[w] == c2[w - c1.len()]);
            }
        }
    }
    r
}

/// The bid values still open above the current value: current+5, current+10,
/// and so on up to the fixed ceiling of 420.
pub open spec fn bid_ladder(value: int) -> Seq<int> {
    if 115 <= value <= 420 {
        Seq::new(((420 - value) / 5) as nat, |i: int| value + 5 * (i + 1))
    } else {
        Seq::empty()
    }
}

/// A list of bid values, as bid actions of one seat.
pub open spec fn bid_actions_of(values: Seq<int>, p: PlaceAtTable) -> Seq<GameActionView> {
    values.map_values(|v: int| av_bid(v, p))
}

/// A list of combinations, as pass actions of one seat, each sorted
/// descending.
pub open spec fn pass_actions_of(combos: Seq<Seq<Card>>, p: PlaceAtTable) -> Seq<GameActionView> {
    combos.map_values(|c: Seq<Card>| av_pass(sort_desc(c), p))
}

/// A list of cards, as card plays of one seat.
pub open spec fn card_actions_of(cards: Seq<Card>, p: PlaceAtTable) -> Seq<GameActionView> {
    cards.map_values(|c: Card| av_card(c, p))
}

/// The suits of a list not yet announced, as private announcements of one
/// seat.
pub open spec fn announce_from(suits: Seq<Suit>, called: Seq<Suit>, p: PlaceAtTable) -> Seq<
    GameActionView,
> {
    suits.filter(|su: Suit| !called.contains(su)).map_values(|su: Suit| av_announce(su, p))
}

proof fn lemma_announce_push(suits: Seq<Suit>, x: Suit, called: Seq<Suit>, p: PlaceAtTable)
    ensures
        announce_from(suits.push(x), called, p) == if !called.contains(x) {
            announce_from(suits, called, p).push(av_announce(x, p))
        } else {
            announce_from(suits, called, p)
        },
{
    reveal(Seq::filter);
    assert(suits.push(x).drop_last() =~= suits);
    assert(suits.push(x).last() == x);
    if !called.contains(x) {
        assert(announce_from(suits.push(x), called, p) =~= announce_from(suits, called, p).push(
            av_announce(x, p),
        ));
    } else {
        assert(announce_from(suits.push(x), called, p) =~= announce_from(suits, called, p));
    }
}

/// The suits of a list not yet announced, as pair answers of one seat.
pub open spec fn yespair_from(suits: Seq<Suit>, called: Seq<Suit>, p: PlaceAtTable) -> Seq<
    GameActionView,
> {
    suits.filter(|su: Suit| !called.contains(su)).map_values(
        |su: Suit| av_answer(AnswerType::YesPair(su), p),
    )
}

proof fn lemma_yespair_push(suits: Seq<Suit>, x: Suit, called: Seq<Suit>, p: PlaceAtTable)
    ensures
        yespair_from(suits.push(x), called, p) == if !called.contains(x) {
            yespair_from(suits, called, p).push(av_answer(AnswerType::YesPair(x), p))
        } else {
            yespair_from(suits, called, p)
        },
{
    reveal(Seq::filter);
    assert(suits.push(x).drop_last() =~= suits);
    assert(suits.push(x).last() == x);
    if !called.contains(x) {
        assert(yespair_from(suits.push(x), called, p) =~= yespair_from(suits, called, p).push(
            av_answer(AnswerType::YesPair(x), p),
        ));
    } else {
        assert(yespair_from(suits.push(x), called, p) =~= yespair_from(suits, called, p));
    }
}

/// The seats of a list of players that have not pressed start, as start
/// actions.
pub open spec fn start_from(players: Seq<PlayerView>, started: Seq<PlaceAtTable>) -> Seq<
    GameActionView,
> {
    players.filter(|q: PlayerView| !started.contains(q.place_at_table)).map_values(
        |q: PlayerView| av_start(q.place_at_table),
    )
}

proof fn lemma_start_push(players: Seq<PlayerView>, x: PlayerView, started: Seq<PlaceAtTable>)
    ensures
        start_from(players.push(x), started) == if !started.contains(x.place_at_table) {
            start_from(players, started).push(av_start(x.place_at_table))
        } else {
            start_from(players, started)
        },
{
    reveal(Seq::filter);
    assert(players.push(x).drop_last() =~= players);
    assert(players.push(x).last() == x);
    if !started.contains(x.place_at_table) {
        assert(start_from(players.push(x), started) =~= start_from(players, started).push(
            av_start(x.place_at_table),
        ));
    } else {
        assert(start_from(players.push(x), started) =~= start_from(players, started));
    }
}

/// When nobody has pressed start yet, every seat is offered a start action.
pub proof fn lemma_start_from_all(players: Seq<PlayerView>, started: Seq<PlaceAtTable>)
    requires
        started.len() == 0,
    ensures
        start_from(players, started) == players.map_values(
            |q: PlayerView| av_start(q.place_at_table),
        ),
    decreases players.len(),
{
    reveal(Seq::filter);
    if players.len() > 0 {
        lemma_start_from_all(players.drop_last(), started);
        lemma_start_push(players.drop_last(), players.last(), started);
        assert(players =~= players.drop_last().push(players.last()));
        assert(start_from(players, started) =~= players.map_values(
            |q: PlayerView| av_start(q.place_at_table),
        ));
    } else {
        assert(start_from(players, started) =~= players.map_values(
            |q: PlayerView| av_start(q.place_at_table),
        ));
    }
}

/// The legal actions while bidding: stop, or any bid from the ladder.
pub open spec fn spec_legal_bidding(s: GameStateView) -> Seq<GameActionView> {
    seq![av_stop(s.player_at_turn)] + bid_actions_of(bid_ladder(s.value.0 as int), s.player_at_turn)
}

/// The legal actions while passing: one action per 4-card combination of
/// the mover's hand, the four cards in descending order.
pub open spec fn spec_legal_passing(s: GameStateView) -> Seq<GameActionView> {
    pass_actions_of(
        combinations(s.players[s.player_at_turn.0 as int].cards, 4),
        s.player_at_turn,
    )
}

/// The trick the next card would join: a full table is cleared lazily by
/// the next lead.
pub open spec fn open_trick(s: GameStateView) -> Seq<Card> {
    if s.current_trick.len() == 4 {
        Seq::empty()
    } else {
        s.current_trick
    }
}

/// The legal card plays of the seat at turn.
pub open spec fn spec_legal_cards(s: GameStateView) -> Seq<GameActionView> {
    let hand = s.players[s.player_at_turn.0 as int].cards;
    card_actions_of(
        spec_allowed_cards(open_trick(s), hand, s.trump, hand.len() == 9),
        s.player_at_turn,
    )
}

/// The four generic half questions, in the fixed order Red, Bells, Acorns,
/// Green.
pub open spec fn ours_questions(p: PlaceAtTable) -> Seq<GameActionView> {
    seq![
        av_question(QuestionType::YourHalf(Suit::Red), p),
        av_question(QuestionType::YourHalf(Suit::Bells), p),
        av_question(QuestionType::YourHalf(Suit::Acorns), p),
        av_question(QuestionType::YourHalf(Suit::Green), p),
    ]
}

/// The questions the trick leader may ask, by their trump possibilities.
pub open spec fn spec_legal_question(s: GameStateView) -> Seq<GameActionView> {
    let p = s.player_at_turn;
    let hand = s.players[p.0 as int].cards;
    let own = announce_from(spec_pairs(hand), s.trump_called, p);
    let yours = seq![av_question(QuestionType::Yours, p)];
    match s.players[p.0 as int].trump {
        PlayerTrumpPossibilities::Own => own + yours + ours_questions(p),
        PlayerTrumpPossibilities::Yours => yours + ours_questions(p),
        PlayerTrumpPossibilities::Ours => ours_questions(p),
    }
}

/// The legal answers to the question most recently asked.
pub open spec fn spec_legal_answer(s: GameStateView, q: QuestionType) -> Seq<GameActionView> {
    let p = s.player_at_turn;
    let hand = s.players[p.0 as int].cards;
    match q {
        QuestionType::Yours => {
            let yes = yespair_from(spec_pairs(hand), s.trump_called, p);
            if yes.len() == 0 {
                seq![av_answer(AnswerType::NoPair, p)]
            } else {
                yes
            }
        },
        QuestionType::YourHalf(su) => if has_half(hand, su) {
            seq![av_answer(AnswerType::YesHalf(su), p)]
        } else {
            seq![av_answer(AnswerType::NoHalf(su), p)]
        },
    }
}

/// The seats offered a start action: all that have not pressed start yet,
/// in seat order.
pub open spec fn spec_legal_start(s: GameStateView) -> Seq<GameActionView> {
    start_from(s.players, s.players_started)
}

/// The undo votes still open: accept and decline for each of the two seats
/// asked (the seat after the snapshot's mover and that seat's partner) that
/// has not voted yet.
pub open spec fn spec_legal_pending(s: GameStateView, snapshot_turn: PlaceAtTable) -> Seq<
    GameActionView,
> {
    let a = spec_next(snapshot_turn);
    let b = spec_partner(a);
    (if !s.players_accept_undo.contains(a) {
        seq![av_undo_accept(a), av_undo_decline(a)]
    } else {
        Seq::empty()
    }) + (if !s.players_accept_undo.contains(b) {
        seq![av_undo_accept(b), av_undo_decline(b)]
    } else {
        Seq::empty()
    })
}

/// The question most recently asked, as recorded in the event log.
pub open spec fn last_question(g: GameView) -> QuestionType {
    match g.all_events.last().last_action.action_type {
        ActionTypeView::Question(q) => q,
        _ => QuestionType::Yours,
    }
}

/// The phase-specific legal actions, before the undo offer is appended.
pub open spec fn spec_phase_actions(g: GameView) -> Seq<GameActionView> {
    match g.state.phase {
        GamePhase::WaitingForStart => spec_legal_start(g.state),
        GamePhase::Bidding => spec_legal_bidding(g.state),
        GamePhase::PassingForth => spec_legal_passing(g.state),
        GamePhase::PassingBack => spec_legal_passing(g.state),
        GamePhase::Raising => bid_actions_of(
            bid_ladder(g.state.value.0 as int).reverse(),
            g.state.player_at_turn,
        ) + spec_legal_cards(g.state),
        GamePhase::StartTrick => spec_legal_question(g.state) + spec_legal_cards(g.state),
        GamePhase::Trick => spec_legal_cards(g.state),
        GamePhase::AnsweringPair => spec_legal_answer(g.state, last_question(g)),
        GamePhase::AnsweringHalf(_su) => spec_legal_answer(g.state, last_question(g)),
        GamePhase::Ended => Seq::empty(),
        GamePhase::PendingUndo(_prev) => spec_legal_pending(
            g.state,
            g.last_state->Some_0.player_at_turn,
        ),
    }
}

proof fn lemma_concat_push<T>(a: Seq<T>, b: Seq<T>, i: int)
    requires
        0 <= i < b.len(),
    ensures
        (a + b.take(i)).push(b[i]) == a + b.take(i + 1),
{
    assert((a + b.take(i)).push(b[i]) =~= a + b.take(i + 1));
}

impl GamePhase {
    /// The exhaustive phase-specific list of legal actions, in the fixed
    /// enumeration order, without the undo offer.
    pub fn legal_actions(&self, game: &Game) -> (r: Vec<GameAction>)
        requires
            game_base_ok(game@),
            *self == game.state.phase,
        ensures
            actions_view(r@) == spec_phase_actions(game@),
    {
        match self {
            GamePhase::WaitingForStart => {
                let mut start: Vec<GameAction> = Vec::new();
                let mut i: usize = 0;
                proof {
                    assert(game@.state.players.take(0) =~= Seq::<PlayerView>::empty());
                    assert(actions_view(start@) =~= start_from(
                        game@.state.players.take(0),
                        game@.state.players_started,
                    ));
                }
                while i < 4
                    invariant
                        i <= 4,
                        game_base_ok(game@),
                        actions_view(start@) == start_from(
                            game@.state.players.take(i as int),
                            game@.state.players_started,
                        ),
                    decreases 4 - i,
                {
                    let player = &game.state.players[i];
                    proof {
                        assert(game@.state.players.take(i + 1) =~= game@.state.players.take(
                            i as int,
                        ).push(game@.state.players[i as int]));
                        lemma_start_push(
                            game@.state.players.take(i as int),
                            game@.state.players[i as int],
                            game@.state.players_started,
                        );
                    }
                    if !contains_place(&game.state.players_started, player.place_at_table) {
                        start.push(
                            GameAction {
                                action_type: ActionType::Start,
                                player: player.place_at_table,
                            },
                        );
                    }
                    i += 1;
                }
                proof {
                    assert(game@.state.players.take(4) =~= game@.state.players);
                }
                start
            },
            GamePhase::Bidding => legal_bidding(game),
            GamePhase::PassingForth => legal_passing(game),
            GamePhase::PassingBack => legal_passing(game),
            GamePhase::Raising => {
                let player = game.state.player_at_turn;
                let ghost ladder = bid_ladder(game@.state.value.0 as int);
                let ghost ladder_rev = bid_actions_of(ladder.reverse(), game@.state.player_at_turn);
                let mut allowed: Vec<GameAction> = Vec::new();
                let stop_at = game.state.value.0 + 5;
                let mut v: i32 = 420;
                while v >= stop_at
                    invariant
                        stop_at == game.state.value.0 + 5,
                        115 <= game.state.value.0 <= 420,
                        game.state.value.0 % 5 == 0,
                        stop_at - 5 <= v <= 420,
                        (420 - v) % 5 == 0,
                        allowed@.len() == (420 - v) / 5,
                        player == game.state.player_at_turn,
                        forall|w: int|
                            0 <= w < allowed@.len() ==> (#[trigger] allowed@[w])@ == av_bid(
                                420 - 5 * w,
                                player,
                            ),
                    decreases v,
                {
                    allowed.push(GameAction { action_type: ActionType::NewBid(v), player });
                    v = v - 5;
                }
                let cards_part = legal_cards(game);
                proof {
                    assert(allowed@.len() == ladder.len());
                    assert forall|w: int| 0 <= w < ladder_rev.len() implies ladder_rev[w] == av_bid(
                        420 - 5 * w,
                        player,
                    ) by {
                        assert(ladder.reverse()[w] == ladder[ladder.len() - 1 - w]);
                    }
                    assert(actions_view(allowed@) =~= ladder_rev);
                }
                let mut allowed = allowed;
                let mut i: usize = 0;
                proof {
                    assert(actions_view(cards_part@).take(0) =~= Seq::<GameActionView>::empty());
                    assert(actions_view(allowed@) =~= ladder_rev + actions_view(cards_part@).take(
                        0,
                    ));
                }
                while i < cards_part.len()
                    invariant
                        i <= cards_part@.len(),
                        actions_view(allowed@) == ladder_rev + actions_view(cards_part@).take(
                            i as int,
                        ),
                    decreases cards_part@.len() - i,
                {
                    allowed.push(copy_action(&cards_part[i]));
                    proof {
                        assert(actions_view(cards_part@)[i as int] == cards_part@[i as int]@);
                        lemma_concat_push(ladder_rev, actions_view(cards_part@), i as int);
                    }
                    i += 1;
                }
                proof {
                    assert(actions_view(cards_part@).take(cards_part@.len() as int)
                        =~= actions_view(cards_part@));
                }
                allowed
            },
            GamePhase::StartTrick => {
                let mut allowed = legal_question(game);
                let cards_part = legal_cards(game);
                let ghost qpart = actions_view(allowed@);
                let mut i: usize = 0;
                proof {
                    assert(actions_view(cards_part@).take(0) =~= Seq::<GameActionView>::empty());
                    assert(actions_view(allowed@) =~= qpart + actions_view(cards_part@).take(0));
                }
                while i < cards_part.len()
                    invariant
                        i <= cards_part@.len(),
                        actions_view(allowed@) == qpart + actions_view(cards_part@).take(i as int),
                    decreases cards_part@.len() - i,
                {
                    allowed.push(copy_action(&cards_part[i]));
                    proof {
                        assert(actions_view(cards_part@)[i as int] == cards_part@[i as int]@);
                        lemma_concat_push(qpart, actions_view(cards_part@), i as int);
                    }
                    i += 1;
                }
                proof {
                    assert(actions_view(cards_part@).take(cards_part@.len() as int)
                        =~= actions_view(cards_part@));
                }
                allowed
            },
            GamePhase::Trick => legal_cards(game),
            GamePhase::AnsweringPair => legal_answer(game),
            GamePhase::AnsweringHalf(_suit) => legal_answer(game),
            GamePhase::Ended => {
                let r: Vec<GameAction> = Vec::new();
                proof {
                    assert(actions_view(r@) =~= Seq::<GameActionView>::empty());
                }
                r
            },
            GamePhase::PendingUndo(_previous_phase) => {
                let snapshot_turn = match &game.last_state {
                    Some(last) => last.player_at_turn,
                    None => {
                        proof {
                            assert(false);
                        }
                        PlaceAtTable(0)
                    },
                };
                let a = snapshot_turn.next();
                let b = a.partner();
                let mut undo: Vec<GameAction> = Vec::new();
                if !contains_place(&game.state.players_accept_undo, a) {
                    undo.push(GameAction { action_type: ActionType::UndoAccept, player: a });
                    undo.push(GameAction { action_type: ActionType::UndoDecline, player: a });
                }
                if !contains_place(&game.state.players_accept_undo, b) {
                    undo.push(GameAction { action_type: ActionType::UndoAccept, player: b });
                    undo.push(GameAction { action_type: ActionType::UndoDecline, player: b });
                }
                proof {
                    assert(actions_view(undo@) =~= spec_legal_pending(game@.state, snapshot_turn));
                }
                undo
            },
        }
    }
}

/// The legal actions while bidding: one stop action, then every open bid in
/// ascending order.
pub fn legal_bidding(game: &Game) -> (r: Vec<GameAction>)
    requires
        115 <= game.state.value.0 <= 420,
        game.state.value.0 % 5 == 0,
    ensures
        actions_view(r@) == spec_legal_bidding(game@.state),
{
    let player = game.state.player_at_turn;
    let mut allowed_actions: Vec<GameAction> = Vec::new();
    allowed_actions.push(GameAction { action_type: ActionType::StopBidding, player });
    let ghost ladder = bid_ladder(game.state.value.0 as int);
    let start_value = game.state.value.0 + 5;
    let mut v: i32 = start_value;
    proof {
        assert(actions_view(allowed_actions@) =~= seq![av_stop(player)] + bid_actions_of(
            ladder.take(0),
            player,
        ));
    }
    while v <= 420
        invariant
            start_value == game.state.value.0 + 5,
            115 <= game.state.value.0 <= 420,
            game.state.value.0 % 5 == 0,
            start_value <= v <= 425,
            (v - start_value) % 5 == 0,
            ladder == bid_ladder(game.state.value.0 as int),
            player == game.state.player_at_turn,
            actions_view(allowed_actions@) == seq![av_stop(player)] + bid_actions_of(
                ladder.take((v - start_value) / 5),
                player,
            ),
        decreases 425 - v,
    {
        allowed_actions.push(GameAction { action_type: ActionType::NewBid(v), player });
        proof {
            let k = (v - start_value) / 5;
            assert(0 <= k < ladder.len());
            assert(ladder[k] == v);
            assert(ladder.take(k + 1) =~= ladder.take(k).push(ladder[k]));
            assert(bid_actions_of(ladder.take(k).push(ladder[k]), player) =~= bid_actions_of(
                ladder.take(k),
                player,
            ).push(av_bid(v as int, player)));
            assert((seq![av_stop(player)] + bid_actions_of(ladder.take(k), player)).push(
                av_bid(v as int, player),
            ) =~= seq![av_stop(player)] + bid_actions_of(ladder.take(k + 1), player));
        }
        v = v + 5;
    }
    proof {
        let k = (v - start_value) / 5;
        assert(k == ladder.len());
        assert(ladder.take(k) =~= ladder);
    }
    allowed_actions
}

/// The legal actions while passing: every 4-card combination of the mover's
/// hand, each sorted descending, in lexicographic order of hand positions.
pub fn legal_passing(game: &Game) -> (r: Vec<GameAction>)
    requires
        game.state.player_at_turn.0 < 4,
        game.state.players@.len() == 4,
    ensures
        actions_view(r@) == spec_legal_passing(game@.state),
{
    let hand = copy_cards(&game.state.player_at_turn().cards);
    let player = game.state.player_at_turn;
    let combos = combos_from(&hand, 0, 4);
    let ghost cspec = combinations(game@.state.players[player.0 as int].cards, 4);
    proof {
        assert(hand@.skip(0) =~= hand@);
    }
    let mut actions: Vec<GameAction> = Vec::new();
    let mut i: usize = 0;
    while i < combos.len()
        invariant
            i <= combos@.len(),
            combos@.len() == cspec.len(),
            forall|w: int| 0 <= w < combos@.len() ==> (#[trigger] combos@[w])@ == cspec[w],
            actions@.len() == i,
            player == game.state.player_at_turn,
            forall|w: int|
                0 <= w < i ==> (#[trigger] actions@[w])@ == av_pass(sort_desc(cspec[w]), player),
        decreases combos@.len() - i,
    {
        let sorted = sort_cards_desc(&combos[i]);
        actions.push(GameAction { action_type: ActionType::Pass(sorted), player });
        i += 1;
    }
    proof {
        assert(actions_view(actions@) =~= spec_legal_passing(game@.state));
    }
    actions
}

/// The legal card plays of the seat at turn, as actions.
pub fn legal_cards(game: &Game) -> (r: Vec<GameAction>)
    requires
        game.state.player_at_turn.0 < 4,
        game.state.players@.len() == 4,
    ensures
        actions_view(r@) == spec_legal_cards(game@.state),
{
    let player = game.state.player_at_turn;
    let hand = copy_cards(&game.state.player_at_turn().cards);
    let trick: Vec<Card> = if game.state.current_trick.len() == 4 {
        Vec::new()
    } else {
        copy_cards(&game.state.current_trick)
    };
    proof {
        assert(trick@ == open_trick(game@.state));
    }
    let first_trick = hand.len() == 9;
    let allowed = allowed_cards(&trick, &hand, game.state.trump, first_trick);
    let mut actions: Vec<GameAction> = Vec::new();
    let mut i: usize = 0;
    while i < allowed.len()
        invariant
            i <= allowed@.len(),
            actions@.len() == i,
            player == game.state.player_at_turn,
            forall|w: int| 0 <= w < i ==> (#[trigger] actions@[w])@ == av_card(allowed@[w], player),
        decreases allowed@.len() - i,
    {
        actions.push(GameAction { action_type: ActionType::CardPlayed(allowed[i]), player });
        i += 1;
    }
    proof {
        assert(actions_view(actions@) =~= spec_legal_cards(game@.state));
    }
    actions
}

/// The questions and private announcements open to the trick leader.
pub fn legal_question(game: &Game) -> (r: Vec<GameAction>)
    requires
        game.state.player_at_turn.0 < 4,
        game.state.players@.len() == 4,
    ensures
        actions_view(r@) == spec_legal_question(game@.state),
{
    let player = game.state.player_at_turn;
    let hand = copy_cards(&game.state.player_at_turn().cards);
    let trump = game.state.player_at_turn().trump;
    let pair_suits = crate::game::cards::pairs(hand);
    let ghost own_spec = announce_from(
        spec_pairs(game@.state.players[player.0 as int].cards),
        game@.state.trump_called,
        player,
    );
    let mut own_actions: Vec<GameAction> = Vec::new();
    let mut i: usize = 0;
    proof {
        assert(pair_suits@.take(0) =~= Seq::<Suit>::empty());
        assert(actions_view(own_actions@) =~= announce_from(
            pair_suits@.take(0),
            game@.state.trump_called,
            player,
        ));
    }
    while i < pair_suits.len()
        invariant
            i <= pair_suits@.len(),
            pair_suits@ == spec_pairs(game@.state.players[player.0 as int].cards),
            player == game.state.player_at_turn,
            game.state.players@.len() == 4,
            player.0 < 4,
            actions_view(own_actions@) == announce_from(
                pair_suits@.take(i as int),
                game@.state.trump_called,
                player,
            ),
        decreases pair_suits@.len() - i,
    {
        let suit = pair_suits[i];
        proof {
            assert(pair_suits@.take(i + 1) =~= pair_suits@.take(i as int).push(
                pair_suits@[i as int],
            ));
            lemma_announce_push(
                pair_suits@.take(i as int),
                pair_suits@[i as int],
                game@.state.trump_called,
                player,
            );
        }
        if !contains_suit_list(&game.state.trump_called, suit) {
            own_actions.push(GameAction { action_type: ActionType::AnnounceTrump(suit), player });
        }
        i += 1;
    }
    proof {
        assert(pair_suits@.take(pair_suits@.len() as int) =~= pair_suits@);
        assert(actions_view(own_actions@) == own_spec);
    }
    let mut actions: Vec<GameAction> = Vec::new();
    match trump {
        PlayerTrumpPossibilities::Own => {
            let mut i: usize = 0;
            proof {
                assert(own_spec.take(0) =~= Seq::<GameActionView>::empty());
                assert(actions_view(actions@) =~= own_spec.take(0));
            }
            while i < own_actions.len()
                invariant
                    i <= own_actions@.len(),
                    actions_view(own_actions@) == own_spec,
                    actions_view(actions@) == own_spec.take(i as int),
                decreases own_actions@.len() - i,
            {
                actions.push(copy_action(&own_actions[i]));
                proof {
                    assert(actions_view(own_actions@)[i as int] == own_actions@[i as int]@);
                    assert(own_spec.take(i + 1) =~= own_spec.take(i as int).push(
                        own_spec[i as int],
                    ));
                }
                i += 1;
            }
            proof {
                assert(own_spec.take(own_spec.len() as int) =~= own_spec);
            }
            push_yours(&mut actions, player);
            push_ours(&mut actions, player);
            proof {
                assert(actions_view(actions@) =~= spec_legal_question(game@.state));
            }
        },
        PlayerTrumpPossibilities::Yours => {
            push_yours(&mut actions, player);
            push_ours(&mut actions, player);
            proof {
                assert(actions_view(actions@) =~= spec_legal_question(game@.state));
            }
        },
        PlayerTrumpPossibilities::Ours => {
            push_ours(&mut actions, player);
            proof {
                assert(actions_view(actions@) =~= spec_legal_question(game@.state));
            }
        },
    }
    actions
}

fn push_yours(actions: &mut Vec<GameAction>, player: PlaceAtTable)
    ensures
        actions_view(final(actions)@) == actions_view(old(actions)@).push(
            av_question(QuestionType::Yours, player),
        ),
{
    actions.push(GameAction { action_type: ActionType::Question(QuestionType::Yours), player });
}

fn push_ours(actions: &mut Vec<GameAction>, player: PlaceAtTable)
    ensures
        actions_view(final(actions)@) == actions_view(old(actions)@) + ours_questions(player),
{
    actions.push(
        GameAction { action_type: ActionType::Question(QuestionType::YourHalf(Suit::Red)), player },
    );
    actions.push(
        GameAction {
            action_type: ActionType::Question(QuestionType::YourHalf(Suit::Bells)),
            player,
        },
    );
    actions.push(
        GameAction {
            action_type: ActionType::Question(QuestionType::YourHalf(Suit::Acorns)),
            player,
        },
    );
    actions.push(
        GameAction {
            action_type: ActionType::Question(QuestionType::YourHalf(Suit::Green)),
            player,
        },
    );
    proof {
        assert(actions_view(actions@) =~= actions_view(old(actions)@) + ours_questions(player));
    }
}

/// The legal answers to the most recently asked question. May only be
/// called when the last event is a question; the facade's phase invariant
/// guarantees this in the answering phases.
pub fn legal_answer(game: &Game) -> (r: Vec<GameAction>)
    requires
        game.state.player_at_turn.0 < 4,
        game.state.players@.len() == 4,
        game.all_events@.len() > 0,
        game@.all_events.last().last_action.action_type is Question,
    ensures
        actions_view(r@) == spec_legal_answer(game@.state, last_question(game@)),
{
    let player = game.state.player_at_turn;
    let hand = copy_cards(&game.state.player_at_turn().cards);
    let last_event = &game.all_events[game.all_events.len() - 1];
    let mut actions: Vec<GameAction> = Vec::new();
    proof {
        assert(game@.all_events.last() == game.all_events@[game.all_events@.len() - 1]@);
    }
    match &last_event.last_action.action_type {
        ActionType::Question(QuestionType::Yours) => {
            let pair_suits = crate::game::cards::pairs(hand);
            let ghost yes_spec = yespair_from(
                spec_pairs(game@.state.players[player.0 as int].cards),
                game@.state.trump_called,
                player,
            );
            let mut i: usize = 0;
            proof {
                assert(pair_suits@.take(0) =~= Seq::<Suit>::empty());
                assert(actions_view(actions@) =~= yespair_from(
                    pair_suits@.take(0),
                    game@.state.trump_called,
                    player,
                ));
            }
            while i < pair_suits.len()
                invariant
                    i <= pair_suits@.len(),
                    pair_suits@ == spec_pairs(game@.state.players[player.0 as int].cards),
                    player == game.state.player_at_turn,
                    game.state.players@.len() == 4,
                    player.0 < 4,
                    actions_view(actions@) == yespair_from(
                        pair_suits@.take(i as int),
                        game@.state.trump_called,
                        player,
                    ),
                decreases pair_suits@.len() - i,
            {
                let suit = pair_suits[i];
                proof {
                    assert(pair_suits@.take(i + 1) =~= pair_suits@.take(i as int).push(
                        pair_suits@[i as int],
                    ));
                    lemma_yespair_push(
                        pair_suits@.take(i as int),
                        pair_suits@[i as int],
                        game@.state.trump_called,
                        player,
                    );
                }
                if !contains_suit_list(&game.state.trump_called, suit) {
                    actions.push(
                        GameAction {
                            action_type: ActionType::Answer(AnswerType::YesPair(suit)),
                            player,
                        },
                    );
                }
                i += 1;
            }
            proof {
                assert(pair_suits@.take(pair_suits@.len() as int) =~= pair_suits@);
                assert(actions_view(actions@) == yes_spec);
            }
            if actions.len() == 0 {
                actions.push(
                    GameAction { action_type: ActionType::Answer(AnswerType::NoPair), player },
                );
                proof {
                    assert(actions_view(actions@) =~= seq![av_answer(AnswerType::NoPair, player)]);
                }
            }
        },
        ActionType::Question(QuestionType::YourHalf(suit)) => {
            let su = *suit;
            let half_suits = crate::game::cards::halves(hand);
            if contains_suit_list(&half_suits, su) {
                actions.push(
                    GameAction { action_type: ActionType::Answer(AnswerType::YesHalf(su)), player },
                );
                proof {
                    lemma_halves_contains(game@.state.players[player.0 as int].cards, su);
                    assert(actions_view(actions@) =~= seq![
                        av_answer(AnswerType::YesHalf(su), player),
                    ]);
                }
            } else {
                actions.push(
                    GameAction { action_type: ActionType::Answer(AnswerType::NoHalf(su)), player },
                );
                proof {
                    lemma_halves_contains(game@.state.players[player.0 as int].cards, su);
                    assert(actions_view(actions@) =~= seq![
                        av_answer(AnswerType::NoHalf(su), player),
                    ]);
                }
            }
        },
        _ => {
            proof {
                assert(false);
            }
        },
    }
    actions
}

/// Every element kept by a filter comes from the sequence and satisfies
/// the filter's test.
pub proof fn lemma_filter_in<A>(s: Seq<A>, pred: spec_fn(A) -> bool, x: A)
    requires
        s.filter(pred).contains(x),
    ensures
        s.contains(x),
        pred(x),
    decreases s.len(),
{
    reveal(Seq::filter);
    if s.len() > 0 {
        if pred(s.last()) && x == s.last() {
            assert(s[s.len() - 1] == x);
        } else {
            assert(s.drop_last().filter(pred).contains(x));
            lemma_filter_in(s.drop_last(), pred, x);
            let w = choose|w: int| 0 <= w < s.drop_last().len() && s.drop_last()[w] == x;
            assert(s[w] == x);
        }
    }
}

/// Every playable card comes from the hand.
pub proof fn lemma_allowed_cards_sub(
    trick: Seq<Card>,
    hand: Seq<Card>,
    trump: Option<Suit>,
    first_trick: bool,
    x: Card,
)
    requires
        spec_allowed_cards(trick, hand, trump, first_trick).contains(x),
    ensures
        hand.contains(x),
{
    if trick.len() == 0 {
        if first_trick {
            if crate::game::cards::aces_of(hand).len() > 0 {
                lemma_filter_in(hand, |c: Card| c.value == crate::game::cards::Value::Ace, x);
            } else if crate::game::cards::greens_of(hand).len() > 0 {
                lemma_filter_in(hand, |c: Card| c.suit == Suit::Green, x);
            }
        }
    } else {
        let led = trick[0].suit;
        if first_trick && crate::game::cards::led_aces_of(hand, led).len() == 1 {
            lemma_filter_in(
                hand,
                |c: Card| c.suit == led && c.value == crate::game::cards::Value::Ace,
                x,
            );
        } else if crate::game::cards::beating_from(hand, trick, trump).len() > 0 {
            lemma_filter_in(hand, |c: Card| crate::game::cards::spec_beats(c, trick, trump), x);
        } else if crate::game::cards::of_suit(hand, led).len() > 0 {
            lemma_filter_in(hand, |c: Card| c.suit == led, x);
        }
    }
}

/// Any seat that has not pressed start yet is offered its start action
/// while the game waits.
pub proof fn lemma_start_legal(g: GameView, k: int)
    requires
        game_base_ok(g),
        g.state.phase is WaitingForStart,
        0 <= k < 4,
        !g.state.players_started.contains(PlaceAtTable(k as u8)),
    ensures
        spec_legal_actions(g).contains(av_start(PlaceAtTable(k as u8))),
{
    let pred = |q: PlayerView| !g.state.players_started.contains(q.place_at_table);
    assert(pred(g.state.players[k]));
    g.state.players.lemma_filter_contains(pred, k);
    let filtered = g.state.players.filter(pred);
    let w = choose|w: int| 0 <= w < filtered.len() && filtered[w] == g.state.players[k];
    assert(start_from(g.state.players, g.state.players_started)[w] == av_start(
        PlaceAtTable(k as u8),
    ));
    assert(spec_legal_actions(g)[w] == av_start(PlaceAtTable(k as u8)));
}

/// What membership in the legal-action list says of an action: the phase
/// it can occur in, that it is the turn-holder's (or an eligible seat's)
/// move, and the facts the transition engine relies on.
#[verifier::rlimit(100)]
pub proof fn lemma_legal_shape(g: GameView, a: GameActionView)
    requires
        game_base_ok(g),
        spec_legal_actions(g).contains(a),
    ensures
        a.player.0 < 4,
        a.action_type is Start ==> g.state.phase is WaitingForStart
            && !g.state.players_started.contains(a.player),
        (match a.action_type {
            ActionTypeView::NewBid(v) => (g.state.phase is Bidding || g.state.phase is Raising)
                && a.player == g.state.player_at_turn && g.state.value.0 + 5 <= v <= 420 && (
            v - g.state.value.0) % 5 == 0,
            _ => true,
        }),
        a.action_type is StopBidding ==> g.state.phase is Bidding && a.player
            == g.state.player_at_turn,
        (match a.action_type {
            ActionTypeView::Pass(cards) => (g.state.phase is PassingForth
                || g.state.phase is PassingBack) && a.player == g.state.player_at_turn
                && cards.len() == 4 && cards.to_multiset().subset_of(
                g.state.players[a.player.0 as int].cards.to_multiset(),
            ),
            _ => true,
        }),
        (match a.action_type {
            ActionTypeView::CardPlayed(c) => (g.state.phase is Raising || g.state.phase is Trick
                || g.state.phase is StartTrick) && a.player == g.state.player_at_turn
                && g.state.players[a.player.0 as int].cards.contains(c),
            _ => true,
        }),
        (match a.action_type {
            ActionTypeView::AnnounceTrump(su) => g.state.phase is StartTrick && a.player
                == g.state.player_at_turn && !g.state.trump_called.contains(su),
            _ => true,
        }),
        a.action_type is Question ==> g.state.phase is StartTrick && a.player
            == g.state.player_at_turn,
        (match a.action_type {
            ActionTypeView::Answer(ans) => (g.state.phase is AnsweringPair
                || g.state.phase is AnsweringHalf) && a.player == g.state.player_at_turn && (
            match ans {
                AnswerType::YesPair(su) => !g.state.trump_called.contains(su),
                _ => true,
            }),
            _ => true,
        }),
        a.action_type is UndoRequest ==> undo_offered(g) && a.player
            == g.last_state->Some_0.player_at_turn,
        a.action_type is UndoAccept ==> g.state.phase is PendingUndo
            && !g.state.players_accept_undo.contains(a.player),
        a.action_type is UndoDecline ==> g.state.phase is PendingUndo,
{
    let s = g.state;
    let base = spec_phase_actions(g);
    let in_base = base.contains(a);
    if undo_offered(g) && !in_base {
        let full = spec_legal_actions(g);
        let i = choose|i: int| 0 <= i < full.len() && full[i] == a;
        if i < base.len() {
            assert(base[i] == a);
            assert(false);
        }
        assert(a == av_undo_request(g.last_state->Some_0.player_at_turn));
    } else {
        assert(in_base) by {
            if !undo_offered(g) {
                assert(spec_legal_actions(g) == base);
            }
        }
        match s.phase {
            GamePhase::WaitingForStart => {
                let filtered = s.players.filter(
                    |q: PlayerView| !s.players_started.contains(q.place_at_table),
                );
                let i = choose|i: int| 0 <= i < base.len() && base[i] == a;
                assert(a == av_start(filtered[i].place_at_table));
                lemma_filter_in(
                    s.players,
                    |q: PlayerView| !s.players_started.contains(q.place_at_table),
                    filtered[i],
                );
                let j = choose|j: int| 0 <= j < s.players.len() && s.players[j] == filtered[i];
                assert(s.players[j].place_at_table == PlaceAtTable(j as u8));
            },
            GamePhase::Bidding => {
                let ladder = bid_ladder(s.value.0 as int);
                let i = choose|i: int| 0 <= i < base.len() && base[i] == a;
                if i == 0 {
                    assert(a == av_stop(s.player_at_turn));
                } else {
                    assert(a == bid_actions_of(ladder, s.player_at_turn)[i - 1]);
                    assert(a == av_bid(ladder[i - 1], s.player_at_turn));
                    assert(ladder[i - 1] == s.value.0 + 5 * i);
                    assert(s.value.0 + 5 * ((420 - s.value.0) / 5) == 420);
                }
            },
            GamePhase::PassingForth | GamePhase::PassingBack => {
                let hand = s.players[s.player_at_turn.0 as int].cards;
                let combos = combinations(hand, 4);
                let i = choose|i: int| 0 <= i < base.len() && base[i] == a;
                assert(a == av_pass(sort_desc(combos[i]), s.player_at_turn));
                lemma_combinations_sub(hand, 4);
                lemma_sort_desc_multiset(combos[i]);
                broadcast use vstd::seq_lib::group_to_multiset_ensures;

                assert(sort_desc(combos[i]).len() == 4);
            },
            GamePhase::Raising => {
                let ladder = bid_ladder(s.value.0 as int);
                let rev_part = bid_actions_of(ladder.reverse(), s.player_at_turn);
                let i = choose|i: int| 0 <= i < base.len() && base[i] == a;
                if i < rev_part.len() {
                    assert(a == av_bid(ladder.reverse()[i], s.player_at_turn));
                    assert(ladder.reverse()[i] == ladder[ladder.len() - 1 - i]);
                    assert(s.value.0 + 5 * ((420 - s.value.0) / 5) == 420);
                } else {
                    let cards_part = spec_legal_cards(s);
                    assert(cards_part[i - rev_part.len()] == a);
                    let hand = s.players[s.player_at_turn.0 as int].cards;
                    let allowed = spec_allowed_cards(open_trick(s), hand, s.trump, hand.len() == 9);
                    assert(a == av_card(allowed[i - rev_part.len()], s.player_at_turn));
                    lemma_allowed_cards_sub(
                        open_trick(s),
                        hand,
                        s.trump,
                        hand.len() == 9,
                        allowed[i - rev_part.len()],
                    );
                }
            },
            GamePhase::StartTrick => {
                let qpart = spec_legal_question(s);
                let i = choose|i: int| 0 <= i < base.len() && base[i] == a;
                if i < qpart.len() {
                    lemma_question_shape(s, a, i);
                } else {
                    let cards_part = spec_legal_cards(s);
                    assert(cards_part[i - qpart.len()] == a);
                    let hand = s.players[s.player_at_turn.0 as int].cards;
                    let allowed = spec_allowed_cards(open_trick(s), hand, s.trump, hand.len() == 9);
                    assert(a == av_card(allowed[i - qpart.len()], s.player_at_turn));
                    lemma_allowed_cards_sub(
                        open_trick(s),
                        hand,
                        s.trump,
                        hand.len() == 9,
                        allowed[i - qpart.len()],
                    );
                }
            },
            GamePhase::Trick => {
                let i = choose|i: int| 0 <= i < base.len() && base[i] == a;
                let hand = s.players[s.player_at_turn.0 as int].cards;
                let allowed = spec_allowed_cards(open_trick(s), hand, s.trump, hand.len() == 9);
                assert(a == av_card(allowed[i], s.player_at_turn));
                lemma_allowed_cards_sub(open_trick(s), hand, s.trump, hand.len() == 9, allowed[i]);
            },
            GamePhase::AnsweringPair | GamePhase::AnsweringHalf(_) => {
                let q = last_question(g);
                let hand = s.players[s.player_at_turn.0 as int].cards;
                let i = choose|i: int| 0 <= i < base.len() && base[i] == a;
                match q {
                    QuestionType::Yours => {
                        let yes = yespair_from(spec_pairs(hand), s.trump_called, s.player_at_turn);
                        if yes.len() == 0 {
                            assert(a == av_answer(AnswerType::NoPair, s.player_at_turn));
                        } else {
                            let filtered = spec_pairs(hand).filter(
                                |su: Suit| !s.trump_called.contains(su),
                            );
                            assert(a == av_answer(
                                AnswerType::YesPair(filtered[i]),
                                s.player_at_turn,
                            ));
                            lemma_filter_in(
                                spec_pairs(hand),
                                |su: Suit| !s.trump_called.contains(su),
                                filtered[i],
                            );
                        }
                    },
                    QuestionType::YourHalf(su) => {
                        if has_half(hand, su) {
                            assert(a == av_answer(AnswerType::YesHalf(su), s.player_at_turn));
                        } else {
                            assert(a == av_answer(AnswerType::NoHalf(su), s.player_at_turn));
                        }
                    },
                }
            },
            GamePhase::Ended => {
                assert(false);
            },
            GamePhase::PendingUndo(_prev) => {
                let st = g.last_state->Some_0.player_at_turn;
                let na = spec_next(st);
                let nb = spec_partner(na);
                let first = if !s.players_accept_undo.contains(na) {
                    seq![av_undo_accept(na), av_undo_decline(na)]
                } else {
                    Seq::<GameActionView>::empty()
                };
                let second = if !s.players_accept_undo.contains(nb) {
                    seq![av_undo_accept(nb), av_undo_decline(nb)]
                } else {
                    Seq::<GameActionView>::empty()
                };
                let i = choose|i: int| 0 <= i < base.len() && base[i] == a;
                if i < first.len() {
                    assert(a == first[i]);
                } else {
                    assert(a == second[i - first.len()]);
                }
            },
        }
    }
}

proof fn lemma_question_shape(s: GameStateView, a: GameActionView, i: int)
    requires
        crate::game::gamestate::state_ok(s),
        0 <= i < spec_legal_question(s).len(),
        spec_legal_question(s)[i] == a,
    ensures
        a.player == s.player_at_turn,
        a.action_type is Question || (match a.action_type {
            ActionTypeView::AnnounceTrump(su) => !s.trump_called.contains(su),
            _ => false,
        }),
{
    let p = s.player_at_turn;
    let hand = s.players[p.0 as int].cards;
    let own = announce_from(spec_pairs(hand), s.trump_called, p);
    let filtered = spec_pairs(hand).filter(|su: Suit| !s.trump_called.contains(su));
    match s.players[p.0 as int].trump {
        PlayerTrumpPossibilities::Own => {
            if i < own.len() {
                assert(a == av_announce(filtered[i], p));
                lemma_filter_in(spec_pairs(hand), |su: Suit| !s.trump_called.contains(su), filtered[i]);
            } else if i == own.len() {
                assert(a == av_question(QuestionType::Yours, p));
            } else {
                assert(a == ours_questions(p)[i - own.len() - 1]);
            }
        },
        PlayerTrumpPossibilities::Yours => {
            if i == 0 {
                assert(a == av_question(QuestionType::Yours, p));
            } else {
                assert(a == ours_questions(p)[i - 1]);
            }
        },
        PlayerTrumpPossibilities::Ours => {
            assert(a == ours_questions(p)[i]);
        },
    }
}

/// A suit is listed among the halves exactly when the hand holds a half of
/// it.
#[verifier::rlimit(50)]
pub proof fn lemma_halves_contains(cards: Seq<Card>, su: Suit)
    ensures
        spec_halves(cards).contains(su) == has_half(cards, su),
{
    let hs = spec_halves(cards);
    if has_half(cards, su) {
        match su {
            Suit::Red => assert(hs[0] == su),
            Suit::Bells => {
                let base = if has_half(cards, Suit::Red) {
                    1int
                } else {
                    0int
                };
                assert(hs[base] == su);
            },
            Suit::Acorns => {
                let base = (if has_half(cards, Suit::Red) {
                    1int
                } else {
                    0int
                }) + (if has_half(cards, Suit::Bells) {
                    1int
                } else {
                    0int
                });
                assert(hs[base] == su);
            },
            Suit::Green => {
                let base = (if has_half(cards, Suit::Red) {
                    1int
                } else {
                    0int
                }) + (if has_half(cards, Suit::Bells) {
                    1int
                } else {
                    0int
                }) + (if has_half(cards, Suit::Acorns) {
                    1int
                } else {
                    0int
                });
                assert(hs[base] == su);
            },
        }
    } else {
        if hs.contains(su) {
            let w = choose|w: int| 0 <= w < hs.len() && hs[w] == su;
            assert(false);
        }
    }
}

} // verus!
