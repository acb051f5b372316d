use vstd::prelude::*;

use rand::seq::SliceRandom;

use crate::game::cards::{all_cards, copy_cards, get_all_cards, Card};

verus! {

/// One of the four table positions, numbered 0 to 3. Positions 0 and 2 form
/// one partnership, positions 1 and 3 the other.
#[derive(Clone, Copy, PartialEq, Eq, Structural, Debug)]
pub struct PlaceAtTable(pub u8);

/// The seat opposite a seat.
pub open spec fn spec_partner(p: PlaceAtTable) -> PlaceAtTable {
    PlaceAtTable(((p.0 + 2) % 4) as u8)
}

/// The seat to the left of a seat.
pub open spec fn spec_next(p: PlaceAtTable) -> PlaceAtTable {
    PlaceAtTable(((p.0 + 1) % 4) as u8)
}

/// The seat to the right of a seat.
pub open spec fn spec_prev(p: PlaceAtTable) -> PlaceAtTable {
    PlaceAtTable(((p.0 + 3) % 4) as u8)
}

/// The partnership of a seat, as its lower-numbered member.
pub open spec fn spec_party(p: PlaceAtTable) -> PlaceAtTable {
    PlaceAtTable((p.0 % 2) as u8)
}

impl PlaceAtTable {
    /// The seat opposite this one.
    pub fn partner(&self) -> (r: Self)
        requires
            self.0 < 4,
        ensures
            r == spec_partner(*self),
            r.0 < 4,
    {
        PlaceAtTable((self.0 + 2) % 4)
    }

    /// The seat to the left of this one.
    pub fn next(&self) -> (r: Self)
        requires
            self.0 < 4,
        ensures
            r == spec_next(*self),
            r.0 < 4,
    {
        PlaceAtTable((self.0 + 1) % 4)
    }

    /// The seat to the right of this one.
    pub fn prev(&self) -> (r: Self)
        requires
            self.0 < 4,
        ensures
            r == spec_prev(*self),
            r.0 < 4,
    {
        PlaceAtTable((self.0 + 3) % 4)
    }

    /// The partnership this seat belongs to.
    pub(crate) fn party(&self) -> (r: Self)
        requires
            self.0 < 4,
        ensures
            r == spec_party(*self),
            r.0 < 2,
    {
        PlaceAtTable(self.0 % 2)
    }
}

/// How a seat may currently approach trump announcements: announce alone
/// from a full pair, only ask the partner, or only ask the table generally.
#[derive(Clone, Copy, PartialEq, Eq, Structural, Debug)]
pub enum PlayerTrumpPossibilities {
    Own,
    Yours,
    Ours,
}

/// One seat's mutable state: the hand, the bidding flag, and bookkeeping for
/// the one-level undo of a card play.
#[derive(Clone, Debug)]
pub struct Player {
    pub name: String,
    pub partner: PlaceAtTable,
    pub next_player: PlaceAtTable,
    pub place_at_table: PlaceAtTable,
    pub cards: Vec<Card>,
    pub last_played: Option<Card>,
    pub tricks: Vec<Vec<Card>>,
    pub trump: PlayerTrumpPossibilities,
    pub bidding: bool,
}

/// The mathematical value of a Player.
#[verifier::ext_equal]
pub struct PlayerView {
    pub name: Seq<char>,
    pub partner: PlaceAtTable,
    pub next_player: PlaceAtTable,
    pub place_at_table: PlaceAtTable,
    pub cards: Seq<Card>,
    pub last_played: Option<Card>,
    pub tricks: Seq<Seq<Card>>,
    pub trump: PlayerTrumpPossibilities,
    pub bidding: bool,
}

impl View for Player {
    type V = PlayerView;

    open spec fn view(&self) -> PlayerView {
        PlayerView {
            name: self.name@,
            partner: self.partner,
            next_player: self.next_player,
            place_at_table: self.place_at_table,
            cards: self.cards@,
            last_played: self.last_played,
            tricks: Seq::new(self.tricks@.len(), |i: int| self.tricks@[i]@),
            trump: self.trump,
            bidding: self.bidding,
        }
    }
}

impl Player {
    /// The seat of this player's partner.
    pub fn partner_place(&self) -> (r: PlaceAtTable)
        requires
            self.place_at_table.0 < 4,
        ensures
            r == spec_partner(self.place_at_table),
            r.0 < 4,
    {
        self.place_at_table.partner()
    }

    /// Remove a card from the hand and remember it for a possible undo.
    pub fn play_card(&mut self, card: Card)
        ensures
            final(self)@ == (PlayerView {
                cards: crate::game::cards::remove_card(old(self)@.cards, card),
                last_played: Some(card),
                ..old(self)@
            }),
    {
        let mut kept: Vec<Card> = Vec::new();
        let mut i: usize = 0;
        while i < self.cards.len()
            invariant
                i <= self.cards@.len(),
                kept@ == crate::game::cards::remove_card(self.cards@.take(i as int), card),
            decreases self.cards@.len() - i,
        {
            let c = self.cards[i];
            if !(c == card) {
                kept.push(c);
            }
            proof {
                reveal(Seq::filter);
                assert(self.cards@.take(i + 1).drop_last() =~= self.cards@.take(i as int));
            }
            i += 1;
        }
        proof {
            assert(self.cards@.take(self.cards@.len() as int) =~= self.cards@);
        }
        self.cards = kept;
        self.last_played = Some(card);
    }

    /// Put the most recently played card back into the hand, if any.
    pub fn undo_play_card(&mut self)
        ensures
            final(self)@ == (PlayerView {
                cards: match old(self)@.last_played {
                    Some(c) => old(self)@.cards.push(c),
                    None => old(self)@.cards,
                },
                ..old(self)@
            }),
    {
        let last = self.last_played;
        if let Some(last_card) = last {
            self.cards.push(last_card);
        }
    }
}

/// Relies on rand's `SliceRandom::shuffle`: the slice afterwards holds a
/// permutation of the cards it held before.
#[verifier::external_body]
fn shuffle_cards(deck: &mut Vec<Card>)
    ensures
        final(deck)@.to_multiset() == old(deck)@.to_multiset(),
        final(deck)@.len() == old(deck)@.len(),
{
    deck.as_mut_slice().shuffle(&mut rand::rng());
}

/// What every freshly created player looks like.
pub open spec fn spec_fresh_player(name: Seq<char>, cards: Seq<Card>, place: int) -> PlayerView {
    PlayerView {
        name: name,
        partner: spec_partner(PlaceAtTable(place as u8)),
        next_player: spec_partner(PlaceAtTable(place as u8)),
        place_at_table: PlaceAtTable(place as u8),
        cards: cards,
        last_played: None,
        tricks: Seq::empty(),
        trump: PlayerTrumpPossibilities::Own,
        bidding: true,
    }
}

fn create_player(name: String, cards: Vec<Card>, place: u8) -> (r: Player)
    requires
        place < 4,
    ensures
        r@ == spec_fresh_player(name@, cards@, place as int),
{
    let r = Player {
        name,
        bidding: true,
        next_player: PlaceAtTable(place).partner(),
        partner: PlaceAtTable(place).partner(),
        place_at_table: PlaceAtTable(place),
        cards,
        last_played: None,
        tricks: Vec::new(),
        trump: PlayerTrumpPossibilities::Own,
    };
    proof {
        assert(r@.tricks =~= Seq::<Seq<Card>>::empty());
    }
    r
}

/// Create the four players, either with the supplied hands or by dealing
/// nine cards to each from a freshly shuffled deck. Either way the four
/// hands together hold exactly the full deck when full hands are supplied,
/// and always do in the random case.
pub fn create_players(names: [String; 4], cards: Option<[Vec<Card>; 4]>) -> (r: Vec<Player>)
    ensures
        r@.len() == 4,
        forall|i: int|
            0 <= i < 4 ==> (#[trigger] r@[i])@ == spec_fresh_player(
                names@[i]@,
                r@[i].cards@,
                i,
            ),
        match cards {
            Some(given) => forall|i: int| 0 <= i < 4 ==> (#[trigger] r@[i]).cards@ == given@[i]@,
            None => (r@[0].cards@ + r@[1].cards@ + r@[2].cards@
                + r@[3].cards@).to_multiset() == all_cards().to_multiset() && forall|i: int|
                0 <= i < 4 ==> (#[trigger] r@[i]).cards@.len() == 9,
        },
{
    let name0 = names[0].clone();
    let name1 = names[1].clone();
    let name2 = names[2].clone();
    let name3 = names[3].clone();
    match cards {
        Some(given) => {
            let mut r: Vec<Player> = Vec::new();
            r.push(create_player(name0, copy_cards(&given[0]), 0));
            r.push(create_player(name1, copy_cards(&given[1]), 1));
            r.push(create_player(name2, copy_cards(&given[2]), 2));
            r.push(create_player(name3, copy_cards(&given[3]), 3));
            r
        },
        None => {
            let mut deck = get_all_cards();
            shuffle_cards(&mut deck);
            let ghost shuffled = deck@;
            proof {
                assert(shuffled.len() == 36) by {
                    all_cards().to_multiset_ensures();
                    shuffled.to_multiset_ensures();
                }
            }
            let c0 = deal_nine(&deck, 0);
            let c1 = deal_nine(&deck, 1);
            let c2 = deal_nine(&deck, 2);
            let c3 = deal_nine(&deck, 3);
            proof {
                assert(c0@ + c1@ + c2@ + c3@ =~= shuffled);
            }
            let mut r: Vec<Player> = Vec::new();
            r.push(create_player(name0, c0, 0));
            r.push(create_player(name1, c1, 1));
            r.push(create_player(name2, c2, 2));
            r.push(create_player(name3, c3, 3));
            r
        },
    }
}

fn deal_nine(deck: &Vec<Card>, chunk: usize) -> (r: Vec<Card>)
    requires
        chunk < 4,
        deck@.len() == 36,
    ensures
        r@ == deck@.subrange(chunk as int * 9, chunk as int * 9 + 9),
        r@.len() == 9,
{
    let mut r: Vec<Card> = Vec::new();
    let mut i: usize = 0;
    while i < 9
        invariant
            i <= 9,
            chunk < 4,
            deck@.len() == 36,
            r@ == deck@.subrange(chunk as int * 9, chunk as int * 9 + i),
        decreases 9 - i,
    {
        r.push(deck[chunk * 9 + i]);
        proof {
            assert(deck@.subrange(chunk as int * 9, chunk as int * 9 + i + 1) =~= deck@.subrange(
                chunk as int * 9,
                chunk as int * 9 + i,
            ).push(deck@[chunk as int * 9 + i]));
        }
        i += 1;
    }
    r
}

} // verus!
