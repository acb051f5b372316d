use vstd::prelude::*;

use crate::game::cards::{Card, Suit, Value};
use crate::game::player::PlaceAtTable;

verus! {

/// A point tally or bid value.
#[derive(Clone, Copy, PartialEq, Eq, Structural, Debug)]
pub struct Points(pub i32);

/// Bonus for announcing a suit as trump: Red 100, Bells 80, Acorns 60,
/// Green 40.
pub open spec fn spec_points_pair(suit: Suit) -> int {
    match suit {
        Suit::Red => 100,
        Suit::Bells => 80,
        Suit::Acorns => 60,
        Suit::Green => 40,
    }
}

/// Point value of a single card: Ace 11, Ten 10, King 4, Ober 3, Unter 2,
/// all other ranks 0.
pub open spec fn spec_points_card(card: Card) -> int {
    match card.value {
        Value::Ace => 11,
        Value::Ten => 10,
        Value::King => 4,
        Value::Ober => 3,
        Value::Unter => 2,
        _ => 0,
    }
}

/// Sum of the card points of a trick.
pub open spec fn spec_points_trick(trick: Seq<Card>) -> int
    decreases trick.len(),
{
    if trick.len() == 0 {
        0
    } else {
        spec_points_trick(trick.drop_last()) + spec_points_card(trick.last())
    }
}

/// Card points are never negative and never above 11.
pub proof fn lemma_points_trick_bounds(trick: Seq<Card>)
    ensures
        0 <= spec_points_trick(trick) <= 11 * trick.len(),
    decreases trick.len(),
{
    if trick.len() > 0 {
        lemma_points_trick_bounds(trick.drop_last());
    }
}

/// The announcement bonus of a trump suit.
pub fn points_pair(suit: Suit) -> (r: Points)
    ensures
        r.0 == spec_points_pair(suit),
{
    match suit {
        Suit::Red => Points(100),
        Suit::Bells => Points(80),
        Suit::Acorns => Points(60),
        Suit::Green => Points(40),
    }
}

/// The point value of a single card.
pub fn points_card(card: Card) -> (r: Points)
    ensures
        r.0 == spec_points_card(card),
{
    match card.value {
        Value::Ace => Points(11),
        Value::Ten => Points(10),
        Value::King => Points(4),
        Value::Ober => Points(3),
        Value::Unter => Points(2),
        _ => Points(0),
    }
}

/// The summed card points of one trick.
pub fn points_trick(trick: Vec<Card>) -> (r: Points)
    requires
        trick@.len() <= 4,
    ensures
        r.0 == spec_points_trick(trick@),
{
    let mut acc: i32 = 0;
    let mut i: usize = 0;
    while i < trick.len()
        invariant
            i <= trick@.len(),
            trick@.len() <= 4,
            acc == spec_points_trick(trick@.take(i as int)),
            0 <= acc <= 11 * i,
        decreases trick@.len() - i,
    {
        proof {
            assert(trick@.take(i + 1).drop_last() =~= trick@.take(i as int));
            assert(trick@.take(i + 1).last() == trick@[i as int]);
        }
        acc = acc + points_card(trick[i]).0;
        i += 1;
    }
    proof {
        assert(trick@.take(trick@.len() as int) =~= trick@);
    }
    Points(acc)
}

/// The card points a seat has taken, over a list of finished tricks tagged
/// with the seat that won each.
pub open spec fn spec_seat_points(tricks: Seq<(Vec<Card>, PlaceAtTable)>, seat: int) -> int
    decreases tricks.len(),
{
    if tricks.len() == 0 {
        0
    } else {
        spec_seat_points(tricks.drop_last(), seat) + if tricks.last().1.0 == seat {
            spec_points_trick(tricks.last().0@)
        } else {
            0
        }
    }
}

/// Seat tallies are never negative and never above 44 per trick.
pub proof fn lemma_seat_points_bounds(tricks: Seq<(Vec<Card>, PlaceAtTable)>, seat: int)
    requires
        forall|k: int| 0 <= k < tricks.len() ==> (#[trigger] tricks[k]).0@.len() <= 4,
    ensures
        0 <= spec_seat_points(tricks, seat) <= 44 * tricks.len(),
    decreases tricks.len(),
{
    if tricks.len() > 0 {
        lemma_seat_points_bounds(tricks.drop_last(), seat);
        lemma_points_trick_bounds(tricks.last().0@);
    }
}

/// The card points of each seat, from the finished tricks and their winners.
pub fn points_players(tricks: Vec<(Vec<Card>, PlaceAtTable)>) -> (r: [Points; 4])
    requires
        tricks@.len() <= 9,
        forall|k: int| 0 <= k < tricks@.len() ==> (#[trigger] tricks@[k]).0@.len() <= 4,
        forall|k: int| 0 <= k < tricks@.len() ==> (#[trigger] tricks@[k]).1.0 < 4,
    ensures
        forall|s: int| 0 <= s < 4 ==> (#[trigger] r@[s]).0 == spec_seat_points(tricks@, s),
{
    let mut p0: i32 = 0;
    let mut p1: i32 = 0;
    let mut p2: i32 = 0;
    let mut p3: i32 = 0;
    let mut i: usize = 0;
    while i < tricks.len()
        invariant
            i <= tricks@.len(),
            tricks@.len() <= 9,
            forall|k: int| 0 <= k < tricks@.len() ==> (#[trigger] tricks@[k]).0@.len() <= 4,
            forall|k: int| 0 <= k < tricks@.len() ==> (#[trigger] tricks@[k]).1.0 < 4,
            p0 == spec_seat_points(tricks@.take(i as int), 0),
            p1 == spec_seat_points(tricks@.take(i as int), 1),
            p2 == spec_seat_points(tricks@.take(i as int), 2),
            p3 == spec_seat_points(tricks@.take(i as int), 3),
            -396 <= p0 <= 396 && -396 <= p1 <= 396 && -396 <= p2 <= 396 && -396 <= p3 <= 396,
        decreases tricks@.len() - i,
    {
        proof {
            assert(tricks@.take(i + 1).drop_last() =~= tricks@.take(i as int));
            assert(tricks@.take(i + 1).last() == tricks@[i as int]);
            lemma_points_trick_bounds(tricks@[i as int].0@);
            lemma_seat_points_bounds(tricks@.take(i as int), 0);
            lemma_seat_points_bounds(tricks@.take(i as int), 1);
            lemma_seat_points_bounds(tricks@.take(i as int), 2);
            lemma_seat_points_bounds(tricks@.take(i as int), 3);
        }
        let (trick, place) = &tricks[i];
        let mut copy: Vec<Card> = Vec::new();
        let mut j: usize = 0;
        while j < trick.len()
            invariant
                j <= trick@.len(),
                copy@ == trick@.take(j as int),
            decreases trick@.len() - j,
        {
            copy.push(trick[j]);
            proof {
                assert(trick@.take(j + 1) =~= trick@.take(j as int).push(trick@[j as int]));
            }
            j += 1;
        }
        proof {
            assert(trick@.take(trick@.len() as int) =~= trick@);
        }
        let tp = points_trick(copy);
        if place.0 == 0 {
            p0 = p0 + tp.0;
        } else if place.0 == 1 {
            p1 = p1 + tp.0;
        } else if place.0 == 2 {
            p2 = p2 + tp.0;
        } else {
            p3 = p3 + tp.0;
        }
        i += 1;
    }
    proof {
        assert(tricks@.take(tricks@.len() as int) =~= tricks@);
    }
    [Points(p0), Points(p1), Points(p2), Points(p3)]
}

} // verus!
