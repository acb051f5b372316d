use vstd::prelude::*;

verus! {

/// One of the four suits of the 36-card deck.
#[derive(Clone, Copy, PartialEq, Eq, PartialOrd, Ord, Structural, Debug)]
pub enum Suit {
    Green,
    Acorns,
    Bells,
    Red,
}

/// One of the nine ranks of each suit, from lowest to highest.
#[derive(Clone, Copy, PartialEq, Eq, PartialOrd, Ord, Structural, Debug)]
pub enum Value {
    Six,
    Seven,
    Eight,
    Nine,
    Unter,
    Ober,
    King,
    Ten,
    Ace,
}

/// A single card. Rank comparisons are only meaningful between cards of the
/// same suit; the structural order over (suit, value) exists for enumeration
/// and normalisation purposes only.
#[derive(Clone, Copy, PartialEq, Eq, PartialOrd, Ord, Structural, Debug)]
pub struct Card {
    pub suit: Suit,
    pub value: Value,
}

/// Position of a suit in the fixed enumeration order Green, Acorns, Bells, Red.
pub open spec fn suit_rank(s: Suit) -> int {
    match s {
        Suit::Green => 0,
        Suit::Acorns => 1,
        Suit::Bells => 2,
        Suit::Red => 3,
    }
}

/// Position of a rank in the fixed order Six .. Ace.
pub open spec fn value_rank(v: Value) -> int {
    match v {
        Value::Six => 0,
        Value::Seven => 1,
        Value::Eight => 2,
        Value::Nine => 3,
        Value::Unter => 4,
        Value::Ober => 5,
        Value::King => 6,
        Value::Ten => 7,
        Value::Ace => 8,
    }
}

/// Structural (suit first, then rank) strict order over cards.
pub open spec fn card_above(a: Card, b: Card) -> bool {
    suit_rank(a.suit) > suit_rank(b.suit) || (a.suit == b.suit && value_rank(a.value)
        > value_rank(b.value))
}

/// Whether `higher` beats `lower` under an optional trump suit: either
/// `higher` is trump and `lower` is not, or both share a suit and `higher`
/// has the strictly greater rank.
pub open spec fn spec_is_higher_card(higher: Card, lower: Card, trump: Option<Suit>) -> bool {
    match trump {
        Some(suit) => (higher.suit == suit && lower.suit != suit) || (higher.suit == lower.suit
            && value_rank(higher.value) > value_rank(lower.value)),
        None => higher.suit == lower.suit && value_rank(higher.value) > value_rank(lower.value),
    }
}

/// The suit at a given position of the enumeration order.
pub open spec fn suit_of_index(i: int) -> Suit {
    if i == 0 {
        Suit::Green
    } else if i == 1 {
        Suit::Acorns
    } else if i == 2 {
        Suit::Bells
    } else {
        Suit::Red
    }
}

/// The rank at a given position of the enumeration order.
pub open spec fn value_of_index(i: int) -> Value {
    if i == 0 {
        Value::Six
    } else if i == 1 {
        Value::Seven
    } else if i == 2 {
        Value::Eight
    } else if i == 3 {
        Value::Nine
    } else if i == 4 {
        Value::Unter
    } else if i == 5 {
        Value::Ober
    } else if i == 6 {
        Value::King
    } else if i == 7 {
        Value::Ten
    } else {
        Value::Ace
    }
}

/// All 36 cards in deck enumeration order: suits in order Green, Acorns,
/// Bells, Red, and inside each suit the ranks from Six to Ace.
pub open spec fn all_cards() -> Seq<Card> {
    Seq::new(36, |i: int| Card { suit: suit_of_index(i / 9), value: value_of_index(i % 9) })
}

/// The cards of `pool` that beat `card` under `trump`, in pool order.
pub open spec fn higher_from(pool: Seq<Card>, card: Card, trump: Option<Suit>) -> Seq<Card> {
    pool.filter(|c: Card| spec_is_higher_card(c, card, trump))
}

/// Whether some card of `trick` has suit `s`.
pub open spec fn trick_has_suit(trick: Seq<Card>, s: Suit) -> bool {
    exists|i: int| 0 <= i < trick.len() && trick[i].suit == s
}

/// The cards of `trick` of suit `s`, in play order.
pub open spec fn of_suit(trick: Seq<Card>, s: Suit) -> Seq<Card> {
    trick.filter(|c: Card| c.suit == s)
}

/// The structurally greatest card of a non-empty sequence, where a later
/// equal card wins over an earlier one.
pub open spec fn seq_last_max(s: Seq<Card>) -> Card
    decreases s.len(),
{
    if s.len() <= 1 {
        s[0]
    } else {
        let m = seq_last_max(s.drop_last());
        if card_above(m, s.last()) {
            m
        } else {
            s.last()
        }
    }
}

/// The cards competing for a non-empty trick: the trump cards if a trump is
/// set and present in the trick, otherwise the cards following the led suit.
pub open spec fn trick_candidates(trick: Seq<Card>, trump: Option<Suit>) -> Seq<Card> {
    match trump {
        Some(t) => if trick_has_suit(trick, t) {
            of_suit(trick, t)
        } else {
            of_suit(trick, trick[0].suit)
        },
        None => of_suit(trick, trick[0].suit),
    }
}

/// The winning card of a trick, if the trick is non-empty.
pub open spec fn spec_high_card(trick: Seq<Card>, trump: Option<Suit>) -> Option<Card> {
    if trick.len() == 0 {
        None
    } else {
        Some(seq_last_max(trick_candidates(trick, trump)))
    }
}

/// The aces of a hand, in hand order.
pub open spec fn aces_of(cards: Seq<Card>) -> Seq<Card> {
    cards.filter(|c: Card| c.value == Value::Ace)
}

/// The cards of the fixed low suit (Green) of a hand, in hand order.
pub open spec fn greens_of(cards: Seq<Card>) -> Seq<Card> {
    cards.filter(|c: Card| c.suit == Suit::Green)
}

/// The cards that may open the very first trick of a game: an ace must be
/// led if held, else a Green card if held, else anything.
pub open spec fn spec_allowed_first(cards: Seq<Card>) -> Seq<Card> {
    if aces_of(cards).len() > 0 {
        aces_of(cards)
    } else if greens_of(cards).len() > 0 {
        greens_of(cards)
    } else {
        cards
    }
}

/// Whether playing `c` onto the non-empty `trick` would beat the current
/// winner: a trump over a non-trump, or a strictly higher card of the
/// winner's own suit. The comparison is suit-aware only; the structural
/// cross-suit order plays no part in trick logic.
pub open spec fn spec_beats(c: Card, trick: Seq<Card>, trump: Option<Suit>) -> bool {
    spec_is_higher_card(c, spec_high_card(trick, trump)->Some_0, trump)
}

/// The cards of `hand` whose play would beat the current winner of `trick`.
pub open spec fn beating_from(hand: Seq<Card>, trick: Seq<Card>, trump: Option<Suit>) -> Seq<
    Card,
> {
    hand.filter(|c: Card| spec_beats(c, trick, trump))
}

/// The ace of the led suit, as a filtered sub-hand.
pub open spec fn led_aces_of(hand: Seq<Card>, led: Suit) -> Seq<Card> {
    hand.filter(|c: Card| c.suit == led && c.value == Value::Ace)
}

/// The cards a player may legally play from `hand` onto `trick`:
/// on an empty trick, anything (or the first-lead rule on the game's very
/// first trick); otherwise, on the first trick, a held ace of the led suit
/// must be played; otherwise any beating card is preferred, then any card of
/// the led suit, then anything.
pub open spec fn spec_allowed_cards(
    trick: Seq<Card>,
    hand: Seq<Card>,
    trump: Option<Suit>,
    first_trick: bool,
) -> Seq<Card> {
    if trick.len() == 0 {
        if first_trick {
            spec_allowed_first(hand)
        } else {
            hand
        }
    } else {
        let led = trick[0].suit;
        if first_trick && led_aces_of(hand, led).len() == 1 {
            led_aces_of(hand, led)
        } else if beating_from(hand, trick, trump).len() > 0 {
            beating_from(hand, trick, trump)
        } else if of_suit(hand, led).len() > 0 {
            of_suit(hand, led)
        } else {
            hand
        }
    }
}

/// A hand with every copy of one card removed.
pub open spec fn remove_card(hand: Seq<Card>, card: Card) -> Seq<Card> {
    hand.filter(|c: Card| c != card)
}

/// A hand with every copy of any of the given cards removed.
pub open spec fn remove_all_cards(hand: Seq<Card>, cards: Seq<Card>) -> Seq<Card> {
    hand.filter(|c: Card| !cards.contains(c))
}

/// Whatever survives removing one card was in the hand and is not that
/// card.
pub proof fn lemma_remove_card_in(hand: Seq<Card>, card: Card, x: Card)
    requires
        remove_card(hand, card).contains(x),
    ensures
        hand.contains(x),
        x != card,
    decreases hand.len(),
{
    reveal(Seq::filter);
    if hand.len() > 0 {
        if hand.last() != card && x == hand.last() {
            assert(hand[hand.len() - 1] == x);
        } else {
            assert(remove_card(hand.drop_last(), card).contains(x));
            lemma_remove_card_in(hand.drop_last(), card, x);
            let w = choose|w: int| 0 <= w < hand.drop_last().len() && hand.drop_last()[w] == x;
            assert(hand[w] == x);
        }
    }
}

/// Removing a card keeps a duplicate-free hand duplicate-free.
pub proof fn lemma_remove_card_nodup(hand: Seq<Card>, card: Card)
    requires
        hand.no_duplicates(),
    ensures
        remove_card(hand, card).no_duplicates(),
    decreases hand.len(),
{
    reveal(Seq::filter);
    if hand.len() > 0 {
        assert(hand.drop_last().no_duplicates());
        lemma_remove_card_nodup(hand.drop_last(), card);
        if hand.last() != card {
            assert(!remove_card(hand.drop_last(), card).contains(hand.last())) by {
                if remove_card(hand.drop_last(), card).contains(hand.last()) {
                    lemma_remove_card_in(hand.drop_last(), card, hand.last());
                    let w = choose|w: int|
                        0 <= w < hand.drop_last().len() && hand.drop_last()[w] == hand.last();
                    assert(hand[w] == hand[hand.len() - 1]);
                }
            }
            assert(remove_card(hand, card) == remove_card(hand.drop_last(), card).push(
                hand.last(),
            ));
        }
    }
}

/// Removing a bundle keeps a duplicate-free hand duplicate-free.
pub proof fn lemma_remove_all_nodup(hand: Seq<Card>, cards: Seq<Card>)
    requires
        hand.no_duplicates(),
    ensures
        remove_all_cards(hand, cards).no_duplicates(),
{
    lemma_filter_nodup(hand, |c: Card| !cards.contains(c));
}

/// Whatever survives removing a bundle was in the hand and outside the
/// bundle.
pub proof fn lemma_remove_all_in(hand: Seq<Card>, cards: Seq<Card>, x: Card)
    requires
        remove_all_cards(hand, cards).contains(x),
    ensures
        hand.contains(x),
        !cards.contains(x),
{
    crate::game::legal_actions::lemma_filter_in(hand, |c: Card| !cards.contains(c), x);
}

/// Removing a distinct subset of a clean hand splits the hand's multiset:
/// what is left plus what was removed is exactly what was there.
pub proof fn lemma_remove_all_multiset(giver: Seq<Card>, cards: Seq<Card>)
    requires
        giver.no_duplicates(),
        cards.no_duplicates(),
        forall|i: int| 0 <= i < cards.len() ==> giver.contains(#[trigger] cards[i]),
    ensures
        giver.to_multiset() == remove_all_cards(giver, cards).to_multiset().add(
            cards.to_multiset(),
        ),
    decreases giver.len(),
{
    broadcast use vstd::seq_lib::group_to_multiset_ensures;

    reveal(Seq::filter);
    if giver.len() == 0 {
        assert(cards.len() == 0) by {
            if cards.len() > 0 {
                assert(giver.contains(cards[0]));
            }
        }
        assert(remove_all_cards(giver, cards) =~= giver);
        assert(giver.to_multiset() =~= remove_all_cards(giver, cards).to_multiset().add(
            cards.to_multiset(),
        ));
    } else {
        let last = giver.last();
        let rest = giver.drop_last();
        assert(giver =~= rest.push(last));
        assert(!rest.contains(last)) by {
            if rest.contains(last) {
                let w = choose|w: int| 0 <= w < rest.len() && rest[w] == last;
                assert(giver[w] == giver[giver.len() - 1]);
            }
        }
        if cards.contains(last) {
            let ci = choose|ci: int| 0 <= ci < cards.len() && cards[ci] == last;
            let cards2 = cards.remove(ci);
            assert(cards2.no_duplicates()) by {
                assert forall|i: int, j: int|
                    0 <= i < cards2.len() && 0 <= j < cards2.len() && i != j implies cards2[i]
                    != cards2[j] by {
                    let oi = if i < ci {
                        i
                    } else {
                        i + 1
                    };
                    let oj = if j < ci {
                        j
                    } else {
                        j + 1
                    };
                    assert(cards2[i] == cards[oi]);
                    assert(cards2[j] == cards[oj]);
                }
            }
            assert(forall|i: int|
                0 <= i < cards2.len() ==> rest.contains(#[trigger] cards2[i])) by {
                assert forall|i: int| 0 <= i < cards2.len() implies rest.contains(
                    #[trigger] cards2[i],
                ) by {
                    let oi = if i < ci {
                        i
                    } else {
                        i + 1
                    };
                    assert(cards2[i] == cards[oi]);
                    assert(giver.contains(cards[oi]));
                    assert(cards[oi] != last) by {
                        if oi != ci && cards[oi] == cards[ci] {
                            assert(false);
                        }
                    }
                    let w = choose|w: int| 0 <= w < giver.len() && giver[w] == cards[oi];
                    assert(w < giver.len() - 1);
                    assert(rest[w] == cards[oi]);
                }
            }
            lemma_remove_all_multiset(rest, cards2);
            assert(remove_all_cards(giver, cards) == remove_all_cards(rest, cards));
            assert(forall|x: Card|
                cards.contains(x) <==> (cards2.contains(x) || x == last)) by {
                assert forall|x: Card| cards.contains(x) implies (cards2.contains(x) || x
                    == last) by {
                    if x != last {
                        let w = choose|w: int| 0 <= w < cards.len() && cards[w] == x;
                        if w < ci {
                            assert(cards2[w] == x);
                        } else {
                            assert(cards2[w - 1] == x);
                        }
                    }
                }
                assert forall|x: Card| (cards2.contains(x) || x == last) implies cards.contains(
                    x,
                ) by {
                    if x == last {
                        assert(cards[ci] == last);
                    } else {
                        let w = choose|w: int| 0 <= w < cards2.len() && cards2[w] == x;
                        if w < ci {
                            assert(cards[w] == x);
                        } else {
                            assert(cards[w + 1] == x);
                        }
                    }
                }
            }
            lemma_remove_all_same_pred(rest, cards, cards2, last);
            assert(cards.to_multiset() =~= cards2.to_multiset().insert(last)) by {
                assert(cards2.to_multiset() =~= cards.remove(ci).to_multiset());
                assert(cards.remove(ci).to_multiset() =~= cards.to_multiset().remove(cards[ci]));
                assert(cards.to_multiset().count(last) >= 1);
                assert(cards.to_multiset().remove(last).insert(last) =~= cards.to_multiset());
            }
            assert(giver.to_multiset() =~= rest.to_multiset().insert(last));
            assert(giver.to_multiset() =~= remove_all_cards(giver, cards).to_multiset().add(
                cards.to_multiset(),
            ));
        } else {
            assert(forall|i: int|
                0 <= i < cards.len() ==> rest.contains(#[trigger] cards[i])) by {
                assert forall|i: int| 0 <= i < cards.len() implies rest.contains(
                    #[trigger] cards[i],
                ) by {
                    assert(giver.contains(cards[i]));
                    let w = choose|w: int| 0 <= w < giver.len() && giver[w] == cards[i];
                    assert(cards[i] != last);
                    assert(w < giver.len() - 1);
                    assert(rest[w] == cards[i]);
                }
            }
            lemma_remove_all_multiset(rest, cards);
            assert(remove_all_cards(giver, cards) == remove_all_cards(rest, cards).push(last));
            assert(remove_all_cards(giver, cards).to_multiset() =~= remove_all_cards(
                rest,
                cards,
            ).to_multiset().insert(last));
            assert(giver.to_multiset() =~= rest.to_multiset().insert(last));
            assert(giver.to_multiset() =~= remove_all_cards(giver, cards).to_multiset().add(
                cards.to_multiset(),
            ));
        }
    }
}

/// Filtering by "not in cards" and by "not in cards without one occurrence
/// of a card absent from the hand" agree on the hand.
proof fn lemma_remove_all_same_pred(
    rest: Seq<Card>,
    cards: Seq<Card>,
    cards2: Seq<Card>,
    last: Card,
)
    requires
        !rest.contains(last),
        forall|x: Card| cards.contains(x) <==> (cards2.contains(x) || x == last),
    ensures
        remove_all_cards(rest, cards) == remove_all_cards(rest, cards2),
    decreases rest.len(),
{
    reveal(Seq::filter);
    if rest.len() > 0 {
        assert(rest.contains(rest.last()));
        assert(forall|i: int|
            0 <= i < rest.drop_last().len() ==> rest.contains(#[trigger] rest.drop_last()[i]));
        assert(!rest.drop_last().contains(last)) by {
            if rest.drop_last().contains(last) {
                let w = choose|w: int|
                    0 <= w < rest.drop_last().len() && rest.drop_last()[w] == last;
                assert(rest[w] == last);
            }
        }
        lemma_remove_all_same_pred(rest.drop_last(), cards, cards2, last);
        assert(rest.last() != last);
        assert(cards.contains(rest.last()) <==> cards2.contains(rest.last()));
    } else {
        assert(remove_all_cards(rest, cards) =~= remove_all_cards(rest, cards2));
    }
}

/// Removing cards never grows a hand.
pub proof fn lemma_remove_all_shrinks(hand: Seq<Card>, cards: Seq<Card>)
    ensures
        remove_all_cards(hand, cards).len() <= hand.len(),
{
    hand.lemma_filter_len(|c: Card| !cards.contains(c));
}

/// Removing one card never grows a hand.
pub proof fn lemma_remove_one_shrinks(hand: Seq<Card>, card: Card)
    ensures
        remove_card(hand, card).len() <= hand.len(),
{
    hand.lemma_filter_len(|c: Card| c != card);
}

proof fn lemma_filter_count<A>(s: Seq<A>, pred: spec_fn(A) -> bool, x: A)
    ensures
        s.filter(pred).to_multiset().count(x) <= s.to_multiset().count(x),
    decreases s.len(),
{
    broadcast use vstd::seq_lib::group_to_multiset_ensures;

    reveal(Seq::filter);
    if s.len() > 0 {
        lemma_filter_count(s.drop_last(), pred, x);
        assert(s =~= s.drop_last().push(s.last()));
        if pred(s.last()) {
            assert(s.filter(pred) == s.drop_last().filter(pred).push(s.last()));
        }
    } else {
        assert(s.filter(pred) =~= s);
    }
}

/// Filtering a duplicate-free sequence leaves it duplicate-free.
pub proof fn lemma_filter_nodup<A>(s: Seq<A>, pred: spec_fn(A) -> bool)
    requires
        s.no_duplicates(),
    ensures
        s.filter(pred).no_duplicates(),
{
    broadcast use vstd::seq_lib::group_to_multiset_ensures;

    s.lemma_multiset_has_no_duplicates();
    assert forall|x: A| s.filter(pred).to_multiset().contains(x) implies s.filter(
        pred,
    ).to_multiset().count(x) == 1 by {
        lemma_filter_count(s, pred, x);
        assert(s.to_multiset().count(x) >= 1);
    }
    s.filter(pred).lemma_multiset_has_no_duplicates_conv();
}

/// The element count of a four-part concatenation is the sum of the parts'
/// counts.
pub proof fn lemma_concat4_counts(a: Seq<Card>, b: Seq<Card>, c: Seq<Card>, d: Seq<Card>, x: Card)
    ensures
        (a + b + c + d).to_multiset().count(x) == a.to_multiset().count(x) + b.to_multiset().count(
            x,
        ) + c.to_multiset().count(x) + d.to_multiset().count(x),
{
    broadcast use vstd::seq_lib::group_to_multiset_ensures;

    vstd::seq_lib::lemma_multiset_commutative(a, b);
    vstd::seq_lib::lemma_multiset_commutative(a + b, c);
    vstd::seq_lib::lemma_multiset_commutative(a + b + c, d);
}

/// A duplicate-free four-part concatenation splits into four duplicate-free
/// parts that share no card.
pub proof fn lemma_concat4_distinct(a: Seq<Card>, b: Seq<Card>, c: Seq<Card>, d: Seq<Card>)
    requires
        (a + b + c + d).no_duplicates(),
    ensures
        a.no_duplicates(),
        b.no_duplicates(),
        c.no_duplicates(),
        d.no_duplicates(),
        forall|x: Card| !(#[trigger] a.contains(x) && b.contains(x)),
        forall|x: Card| !(#[trigger] a.contains(x) && c.contains(x)),
        forall|x: Card| !(#[trigger] a.contains(x) && d.contains(x)),
        forall|x: Card| !(#[trigger] b.contains(x) && c.contains(x)),
        forall|x: Card| !(#[trigger] b.contains(x) && d.contains(x)),
        forall|x: Card| !(#[trigger] c.contains(x) && d.contains(x)),
{
    broadcast use vstd::seq_lib::group_to_multiset_ensures;

    let whole = a + b + c + d;
    whole.lemma_multiset_has_no_duplicates();
    assert forall|x: Card| whole.to_multiset().count(x) <= 1 by {
        lemma_concat4_counts(a, b, c, d, x);
        if whole.to_multiset().count(x) > 1 {
            assert(whole.to_multiset().contains(x));
        }
    }
    assert forall|x: Card|
        a.to_multiset().count(x) <= 1 && b.to_multiset().count(x) <= 1 && c.to_multiset().count(x)
            <= 1 && d.to_multiset().count(x) <= 1 by {
        lemma_concat4_counts(a, b, c, d, x);
    }
    assert forall|x: Card| a.to_multiset().contains(x) implies a.to_multiset().count(x) == 1 by {}
    a.lemma_multiset_has_no_duplicates_conv();
    assert forall|x: Card| b.to_multiset().contains(x) implies b.to_multiset().count(x) == 1 by {}
    b.lemma_multiset_has_no_duplicates_conv();
    assert forall|x: Card| c.to_multiset().contains(x) implies c.to_multiset().count(x) == 1 by {}
    c.lemma_multiset_has_no_duplicates_conv();
    assert forall|x: Card| d.to_multiset().contains(x) implies d.to_multiset().count(x) == 1 by {}
    d.lemma_multiset_has_no_duplicates_conv();
    assert forall|x: Card| !(#[trigger] a.contains(x) && b.contains(x)) by {
        if a.contains(x) && b.contains(x) {
            lemma_concat4_counts(a, b, c, d, x);
        }
    }
    assert forall|x: Card| !(#[trigger] a.contains(x) && c.contains(x)) by {
        if a.contains(x) && c.contains(x) {
            lemma_concat4_counts(a, b, c, d, x);
        }
    }
    assert forall|x: Card| !(#[trigger] a.contains(x) && d.contains(x)) by {
        if a.contains(x) && d.contains(x) {
            lemma_concat4_counts(a, b, c, d, x);
        }
    }
    assert forall|x: Card| !(#[trigger] b.contains(x) && c.contains(x)) by {
        if b.contains(x) && c.contains(x) {
            lemma_concat4_counts(a, b, c, d, x);
        }
    }
    assert forall|x: Card| !(#[trigger] b.contains(x) && d.contains(x)) by {
        if b.contains(x) && d.contains(x) {
            lemma_concat4_counts(a, b, c, d, x);
        }
    }
    assert forall|x: Card| !(#[trigger] c.contains(x) && d.contains(x)) by {
        if c.contains(x) && d.contains(x) {
            lemma_concat4_counts(a, b, c, d, x);
        }
    }
}

/// The full deck holds no card twice.
pub proof fn lemma_all_cards_nodup()
    ensures
        all_cards().no_duplicates(),
{
    assert forall|i: int, j: int|
        0 <= i < 36 && 0 <= j < 36 && i != j implies all_cards()[i] != all_cards()[j] by {
        if i / 9 == j / 9 && i % 9 == j % 9 {
            assert(i == 9 * (i / 9) + i % 9);
            assert(j == 9 * (j / 9) + j % 9);
        } else if i / 9 != j / 9 {
            assert(suit_rank(suit_of_index(i / 9)) != suit_rank(suit_of_index(j / 9)));
        } else {
            assert(value_rank(value_of_index(i % 9)) != value_rank(value_of_index(j % 9)));
        }
    }
}

/// Every card of a suit-filtered trick comes from the trick.
pub proof fn lemma_of_suit_in(trick: Seq<Card>, su: Suit, x: Card)
    requires
        of_suit(trick, su).contains(x),
    ensures
        trick.contains(x),
    decreases trick.len(),
{
    reveal(Seq::filter);
    if trick.len() > 0 {
        if trick.last().suit == su && x == trick.last() {
            assert(trick[trick.len() - 1] == x);
        } else {
            assert(of_suit(trick.drop_last(), su).contains(x));
            lemma_of_suit_in(trick.drop_last(), su, x);
            let w = choose|w: int|
                0 <= w < trick.drop_last().len() && trick.drop_last()[w] == x;
            assert(trick[w] == x);
        }
    }
}

/// A non-empty sequence contains its structural maximum.
pub proof fn lemma_seq_last_max_in(s: Seq<Card>)
    requires
        s.len() > 0,
    ensures
        s.contains(seq_last_max(s)),
    decreases s.len(),
{
    if s.len() > 1 {
        lemma_seq_last_max_in(s.drop_last());
        if card_above(seq_last_max(s.drop_last()), s.last()) {
            let w = choose|w: int|
                0 <= w < s.drop_last().len() && s.drop_last()[w] == seq_last_max(s.drop_last());
            assert(s[w] == seq_last_max(s));
        } else {
            assert(s[s.len() - 1] == seq_last_max(s));
        }
    } else {
        assert(s[0] == seq_last_max(s));
    }
}

/// Whether the hand holds at least one of King and Ober of the suit.
pub open spec fn has_half(cards: Seq<Card>, s: Suit) -> bool {
    cards.contains(Card { suit: s, value: Value::Ober }) || cards.contains(
        Card { suit: s, value: Value::King },
    )
}

/// Whether the hand holds both King and Ober of the suit.
pub open spec fn has_pair(cards: Seq<Card>, s: Suit) -> bool {
    cards.contains(Card { suit: s, value: Value::Ober }) && cards.contains(
        Card { suit: s, value: Value::King },
    )
}

/// The suits of which the hand holds a half, in the fixed question order
/// Red, Bells, Acorns, Green.
pub open spec fn spec_halves(cards: Seq<Card>) -> Seq<Suit> {
    (if has_half(cards, Suit::Red) {
        seq![Suit::Red]
    } else {
        Seq::empty()
    }) + (if has_half(cards, Suit::Bells) {
        seq![Suit::Bells]
    } else {
        Seq::empty()
    }) + (if has_half(cards, Suit::Acorns) {
        seq![Suit::Acorns]
    } else {
        Seq::empty()
    }) + (if has_half(cards, Suit::Green) {
        seq![Suit::Green]
    } else {
        Seq::empty()
    })
}

/// The suits of which the hand holds a full pair, in the fixed question
/// order Red, Bells, Acorns, Green.
pub open spec fn spec_pairs(cards: Seq<Card>) -> Seq<Suit> {
    (if has_pair(cards, Suit::Red) {
        seq![Suit::Red]
    } else {
        Seq::empty()
    }) + (if has_pair(cards, Suit::Bells) {
        seq![Suit::Bells]
    } else {
        Seq::empty()
    }) + (if has_pair(cards, Suit::Acorns) {
        seq![Suit::Acorns]
    } else {
        Seq::empty()
    }) + (if has_pair(cards, Suit::Green) {
        seq![Suit::Green]
    } else {
        Seq::empty()
    })
}

/// An element-wise copy of a list of cards.
pub fn copy_cards(v: &Vec<Card>) -> (r: Vec<Card>)
    ensures
        r@ == v@,
{
    let mut r: Vec<Card> = Vec::new();
    let mut i: usize = 0;
    while i < v.len()
        invariant
            i <= v@.len(),
            r@ == v@.take(i as int),
        decreases v@.len() - i,
    {
        r.push(v[i]);
        proof {
            assert(v@.take(i + 1) =~= v@.take(i as int).push(v@[i as int]));
        }
        i += 1;
    }
    proof {
        assert(v@.take(v@.len() as int) =~= v@);
    }
    r
}

fn value_index(v: Value) -> (r: u8)
    ensures
        r as int == value_rank(v),
{
    match v {
        Value::Six => 0,
        Value::Seven => 1,
        Value::Eight => 2,
        Value::Nine => 3,
        Value::Unter => 4,
        Value::Ober => 5,
        Value::King => 6,
        Value::Ten => 7,
        Value::Ace => 8,
    }
}

fn suit_index(s: Suit) -> (r: u8)
    ensures
        r as int == suit_rank(s),
{
    match s {
        Suit::Green => 0,
        Suit::Acorns => 1,
        Suit::Bells => 2,
        Suit::Red => 3,
    }
}

/// The suit at a position of the enumeration order.
pub fn suit_from_index(i: u8) -> (r: Suit)
    requires
        i < 4,
    ensures
        r == suit_of_index(i as int),
{
    if i == 0 {
        Suit::Green
    } else if i == 1 {
        Suit::Acorns
    } else if i == 2 {
        Suit::Bells
    } else {
        Suit::Red
    }
}

/// The rank at a position of the enumeration order.
pub fn value_from_index(i: u8) -> (r: Value)
    requires
        i < 9,
    ensures
        r == value_of_index(i as int),
{
    if i == 0 {
        Value::Six
    } else if i == 1 {
        Value::Seven
    } else if i == 2 {
        Value::Eight
    } else if i == 3 {
        Value::Nine
    } else if i == 4 {
        Value::Unter
    } else if i == 5 {
        Value::Ober
    } else if i == 6 {
        Value::King
    } else if i == 7 {
        Value::Ten
    } else {
        Value::Ace
    }
}

/// Whether the first card stands above the second in the structural
/// (suit first, then rank) order used for normalisation.
pub fn is_card_above(a: &Card, b: &Card) -> (r: bool)
    ensures
        r == card_above(*a, *b),
{
    suit_index(a.suit) > suit_index(b.suit) || (a.suit == b.suit && value_index(a.value)
        > value_index(b.value))
}

/// Whether a card occurs in a list of cards.
pub fn contains_card(cards: &Vec<Card>, card: &Card) -> (r: bool)
    ensures
        r == cards@.contains(*card),
{
    let mut i: usize = 0;
    while i < cards.len()
        invariant
            i <= cards@.len(),
            forall|k: int| 0 <= k < i ==> cards@[k] != *card,
        decreases cards@.len() - i,
    {
        if cards[i] == *card {
            return true;
        }
        i += 1;
    }
    false
}

fn contains_suit(cards: &Vec<Card>, s: Suit) -> (r: bool)
    ensures
        r == trick_has_suit(cards@, s),
{
    let mut i: usize = 0;
    while i < cards.len()
        invariant
            i <= cards@.len(),
            forall|k: int| 0 <= k < i ==> cards@[k].suit != s,
        decreases cards@.len() - i,
    {
        if cards[i].suit == s {
            return true;
        }
        i += 1;
    }
    false
}

/// Returns whether the first card is higher than the second card.
pub fn is_higher_card(higher: &Card, lower: &Card, trump: Option<Suit>) -> (r: bool)
    ensures
        r == spec_is_higher_card(*higher, *lower, trump),
{
    match trump {
        Some(suit) => (higher.suit == suit && lower.suit != suit) || (higher.suit == lower.suit
            && value_index(higher.value) > value_index(lower.value)),
        None => higher.suit == lower.suit && value_index(higher.value) > value_index(lower.value),
    }
}

/// All cards of the given pool (the whole deck when no pool is given) that
/// beat `card` under `trump`, in pool order.
pub fn higher_cards(card: &Card, trump: Option<Suit>, pool: Option<Vec<Card>>) -> (r: Vec<Card>)
    ensures
        r@ == higher_from(
            match pool {
                Some(p) => p@,
                None => all_cards(),
            },
            *card,
            trump,
        ),
{
    let base: Vec<Card> = match pool {
        Some(p) => p,
        None => get_all_cards(),
    };
    let ghost base_seq = base@;
    let mut r: Vec<Card> = Vec::new();
    let mut i: usize = 0;
    while i < base.len()
        invariant
            i <= base_seq.len(),
            base@ == base_seq,
            r@ == higher_from(base_seq.take(i as int), *card, trump),
        decreases base_seq.len() - i,
    {
        let c = base[i];
        if is_higher_card(&c, card, trump) {
            r.push(c);
        }
        proof {
            reveal(Seq::filter);
            assert(base_seq.take(i + 1).drop_last() =~= base_seq.take(i as int));
            assert(base_seq.take(i + 1).last() == c);
        }
        i += 1;
    }
    proof {
        assert(base_seq.take(base_seq.len() as int) =~= base_seq);
    }
    r
}

/// The full deck in enumeration order.
pub fn get_all_cards() -> (r: Vec<Card>)
    ensures
        r@ == all_cards(),
{
    let mut cards: Vec<Card> = Vec::new();
    let mut i: u8 = 0;
    while i < 36
        invariant
            i <= 36,
            cards@ =~= all_cards().take(i as int),
        decreases 36 - i,
    {
        let card = Card { suit: suit_from_index(i / 9), value: value_from_index(i % 9) };
        cards.push(card);
        proof {
            assert(all_cards().take(i + 1) =~= all_cards().take(i as int).push(
                all_cards()[i as int],
            ));
        }
        i += 1;
    }
    proof {
        assert(all_cards().take(36) =~= all_cards());
    }
    cards
}

fn filter_of_suit(cards: &Vec<Card>, s: Suit) -> (r: Vec<Card>)
    ensures
        r@ == of_suit(cards@, s),
{
    let mut r: Vec<Card> = Vec::new();
    let mut i: usize = 0;
    while i < cards.len()
        invariant
            i <= cards@.len(),
            r@ == of_suit(cards@.take(i as int), s),
        decreases cards@.len() - i,
    {
        let c = cards[i];
        if c.suit == s {
            r.push(c);
        }
        proof {
            reveal(Seq::filter);
            assert(cards@.take(i + 1).drop_last() =~= cards@.take(i as int));
        }
        i += 1;
    }
    proof {
        assert(cards@.take(cards@.len() as int) =~= cards@);
    }
    r
}

fn last_max_of(cards: &Vec<Card>) -> (r: Card)
    requires
        cards@.len() > 0,
    ensures
        r == seq_last_max(cards@),
{
    let mut best = cards[0];
    let mut i: usize = 1;
    while i < cards.len()
        invariant
            1 <= i <= cards@.len(),
            best == seq_last_max(cards@.take(i as int)),
        decreases cards@.len() - i,
    {
        let c = cards[i];
        proof {
            assert(cards@.take(i + 1).drop_last() =~= cards@.take(i as int));
            assert(cards@.take(i + 1).last() == c);
        }
        if !is_card_above(&best, &c) {
            best = c;
        }
        i += 1;
    }
    proof {
        assert(cards@.take(cards@.len() as int) =~= cards@);
    }
    best
}

/// Returns the winning card of the trick, if the trick is non-empty.
pub fn high_card(trick: &Vec<Card>, trump: Option<Suit>) -> (r: Option<Card>)
    ensures
        r == spec_high_card(trick@, trump),
{
    if trick.len() == 0 {
        return None;
    }
    let trick_suit = trick[0].suit;
    let candidates: Vec<Card> = match trump {
        Some(trump_suit) => {
            if contains_suit(trick, trump_suit) {
                filter_of_suit(trick, trump_suit)
            } else {
                filter_of_suit(trick, trick_suit)
            }
        },
        None => filter_of_suit(trick, trick_suit),
    };
    proof {
        assert(trick@[0].suit == trick_suit);
        assert(trick@.filter(|c: Card| c.suit == trick_suit).len() > 0) by {
            trick@.lemma_filter_contains(|c: Card| c.suit == trick_suit, 0);
        }
        if trump is Some && trick_has_suit(trick@, trump->Some_0) {
            let t = trump->Some_0;
            let w = choose|j: int| 0 <= j < trick@.len() && trick@[j].suit == t;
            assert(trick@.filter(|c: Card| c.suit == t).len() > 0) by {
                trick@.lemma_filter_contains(|c: Card| c.suit == t, w);
            }
        }
    }
    Some(last_max_of(&candidates))
}

/// The cards that may open the very first trick of the game. Proper play in
/// the rest of the first trick is handled by `allowed_cards`.
pub fn allowed_first(cards: &Vec<Card>) -> (r: Vec<Card>)
    ensures
        r@ == spec_allowed_first(cards@),
{
    let mut aces: Vec<Card> = Vec::new();
    let mut i: usize = 0;
    while i < cards.len()
        invariant
            i <= cards@.len(),
            aces@ == aces_of(cards@.take(i as int)),
        decreases cards@.len() - i,
    {
        let c = cards[i];
        if c.value == Value::Ace {
            aces.push(c);
        }
        proof {
            reveal(Seq::filter);
            assert(cards@.take(i + 1).drop_last() =~= cards@.take(i as int));
        }
        i += 1;
    }
    proof {
        assert(cards@.take(cards@.len() as int) =~= cards@);
    }
    if aces.len() > 0 {
        return aces;
    }
    let mut greens: Vec<Card> = Vec::new();
    let mut i: usize = 0;
    while i < cards.len()
        invariant
            i <= cards@.len(),
            greens@ == greens_of(cards@.take(i as int)),
        decreases cards@.len() - i,
    {
        let c = cards[i];
        if matches!(c.suit, Suit::Green) {
            greens.push(c);
        }
        proof {
            reveal(Seq::filter);
            assert(cards@.take(i + 1).drop_last() =~= cards@.take(i as int));
        }
        i += 1;
    }
    proof {
        assert(cards@.take(cards@.len() as int) =~= cards@);
    }
    if greens.len() > 0 {
        return greens;
    }
    let mut all: Vec<Card> = Vec::new();
    let mut i: usize = 0;
    while i < cards.len()
        invariant
            i <= cards@.len(),
            all@ == cards@.take(i as int),
        decreases cards@.len() - i,
    {
        all.push(cards[i]);
        proof {
            assert(cards@.take(i + 1) =~= cards@.take(i as int).push(cards@[i as int]));
        }
        i += 1;
    }
    proof {
        assert(cards@.take(cards@.len() as int) =~= cards@);
    }
    all
}

/// The exhaustive list of cards that may legally be played from `cards` onto
/// `trick`, in hand order.
pub fn allowed_cards(
    trick: &Vec<Card>,
    cards: &Vec<Card>,
    trump: Option<Suit>,
    first_trick: bool,
) -> (r: Vec<Card>)
    ensures
        r@ == spec_allowed_cards(trick@, cards@, trump, first_trick),
{
    if trick.len() == 0 {
        if first_trick {
            return allowed_first(cards);
        }
        let mut all: Vec<Card> = Vec::new();
        let mut i: usize = 0;
        while i < cards.len()
            invariant
                i <= cards@.len(),
                all@ == cards@.take(i as int),
            decreases cards@.len() - i,
        {
            all.push(cards[i]);
            proof {
                assert(cards@.take(i + 1) =~= cards@.take(i as int).push(cards@[i as int]));
            }
            i += 1;
        }
        proof {
            assert(cards@.take(cards@.len() as int) =~= cards@);
        }
        return all;
    }
    let current_high = match high_card(trick, trump) {
        Some(c) => c,
        None => {
            proof {
                assert(false);
            }
            Card { suit: Suit::Green, value: Value::Six }
        },
    };
    let trick_suit = trick[0].suit;
    if first_trick {
        let mut led_aces: Vec<Card> = Vec::new();
        let mut i: usize = 0;
        while i < cards.len()
            invariant
                i <= cards@.len(),
                led_aces@ == led_aces_of(cards@.take(i as int), trick_suit),
            decreases cards@.len() - i,
        {
            let c = cards[i];
            if c.suit == trick_suit && c.value == Value::Ace {
                led_aces.push(c);
            }
            proof {
                reveal(Seq::filter);
                assert(cards@.take(i + 1).drop_last() =~= cards@.take(i as int));
            }
            i += 1;
        }
        proof {
            assert(cards@.take(cards@.len() as int) =~= cards@);
        }
        if led_aces.len() == 1 {
            return led_aces;
        }
    }
    let mut beating: Vec<Card> = Vec::new();
    let mut i: usize = 0;
    while i < cards.len()
        invariant
            i <= cards@.len(),
            trick@.len() > 0,
            beating@ == beating_from(cards@.take(i as int), trick@, trump),
            current_high == spec_high_card(trick@, trump)->Some_0,
        decreases cards@.len() - i,
    {
        let c = cards[i];
        if is_higher_card(&c, &current_high, trump) {
            beating.push(c);
        }
        proof {
            reveal(Seq::filter);
            assert(cards@.take(i + 1).drop_last() =~= cards@.take(i as int));
            assert(cards@.take(i + 1).last() == c);
        }
        i += 1;
    }
    proof {
        assert(cards@.take(cards@.len() as int) =~= cards@);
    }
    if beating.len() > 0 {
        return beating;
    }
    let same_suit = filter_of_suit(cards, trick_suit);
    if same_suit.len() > 0 {
        return same_suit;
    }
    let mut all: Vec<Card> = Vec::new();
    let mut i: usize = 0;
    while i < cards.len()
        invariant
            i <= cards@.len(),
            all@ == cards@.take(i as int),
        decreases cards@.len() - i,
    {
        all.push(cards[i]);
        proof {
            assert(cards@.take(i + 1) =~= cards@.take(i as int).push(cards@[i as int]));
        }
        i += 1;
    }
    proof {
        assert(cards@.take(cards@.len() as int) =~= cards@);
    }
    all
}

/// The suits of which the hand holds at least one of King and Ober, in the
/// fixed question order Red, Bells, Acorns, Green.
pub fn halves(cards: Vec<Card>) -> (r: Vec<Suit>)
    ensures
        r@ == spec_halves(cards@),
{
    let mut r: Vec<Suit> = Vec::new();
    if contains_card(&cards, &Card { suit: Suit::Red, value: Value::Ober }) || contains_card(
        &cards,
        &Card { suit: Suit::Red, value: Value::King },
    ) {
        r.push(Suit::Red);
    }
    if contains_card(&cards, &Card { suit: Suit::Bells, value: Value::Ober }) || contains_card(
        &cards,
        &Card { suit: Suit::Bells, value: Value::King },
    ) {
        r.push(Suit::Bells);
    }
    if contains_card(&cards, &Card { suit: Suit::Acorns, value: Value::Ober }) || contains_card(
        &cards,
        &Card { suit: Suit::Acorns, value: Value::King },
    ) {
        r.push(Suit::Acorns);
    }
    if contains_card(&cards, &Card { suit: Suit::Green, value: Value::Ober }) || contains_card(
        &cards,
        &Card { suit: Suit::Green, value: Value::King },
    ) {
        r.push(Suit::Green);
    }
    proof {
        assert(r@ =~= spec_halves(cards@));
    }
    r
}

/// The suits of which the hand holds both King and Ober, in the fixed
/// question order Red, Bells, Acorns, Green.
pub fn pairs(cards: Vec<Card>) -> (r: Vec<Suit>)
    ensures
        r@ == spec_pairs(cards@),
{
    let mut r: Vec<Suit> = Vec::new();
    if contains_card(&cards, &Card { suit: Suit::Red, value: Value::Ober }) && contains_card(
        &cards,
        &Card { suit: Suit::Red, value: Value::King },
    ) {
        r.push(Suit::Red);
    }
    if contains_card(&cards, &Card { suit: Suit::Bells, value: Value::Ober }) && contains_card(
        &cards,
        &Card { suit: Suit::Bells, value: Value::King },
    ) {
        r.push(Suit::Bells);
    }
    if contains_card(&cards, &Card { suit: Suit::Acorns, value: Value::Ober }) && contains_card(
        &cards,
        &Card { suit: Suit::Acorns, value: Value::King },
    ) {
        r.push(Suit::Acorns);
    }
    if contains_card(&cards, &Card { suit: Suit::Green, value: Value::Ober }) && contains_card(
        &cards,
        &Card { suit: Suit::Green, value: Value::King },
    ) {
        r.push(Suit::Green);
    }
    proof {
        assert(r@ =~= spec_pairs(cards@));
    }
    r
}

} // verus!
