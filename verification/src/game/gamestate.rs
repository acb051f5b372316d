use vstd::prelude::*;

use crate::game::cards::{copy_cards, Card, Suit};
use crate::game::gameevent::{copy_action_type, ActionType, ActionTypeView};
use crate::game::player::{PlaceAtTable, Player, PlayerView};
use crate::game::points::Points;

verus! {

/// The phases of the game state machine. `PendingUndo` wraps the phase an
/// undo vote was started from.
#[derive(PartialEq, Eq, Debug)]
pub enum GamePhase {
    WaitingForStart,
    Bidding,
    PassingForth,
    PassingBack,
    Raising,
    Trick,
    StartTrick,
    AnsweringPair,
    AnsweringHalf(Suit),
    Ended,
    PendingUndo(Box<GamePhase>),
}

/// An element-wise copy of a phase.
pub fn copy_phase(p: &GamePhase) -> (r: GamePhase)
    ensures
        r == *p,
    decreases *p,
{
    match p {
        GamePhase::WaitingForStart => GamePhase::WaitingForStart,
        GamePhase::Bidding => GamePhase::Bidding,
        GamePhase::PassingForth => GamePhase::PassingForth,
        GamePhase::PassingBack => GamePhase::PassingBack,
        GamePhase::Raising => GamePhase::Raising,
        GamePhase::Trick => GamePhase::Trick,
        GamePhase::StartTrick => GamePhase::StartTrick,
        GamePhase::AnsweringPair => GamePhase::AnsweringPair,
        GamePhase::AnsweringHalf(s) => GamePhase::AnsweringHalf(*s),
        GamePhase::Ended => GamePhase::Ended,
        GamePhase::PendingUndo(inner) => GamePhase::PendingUndo(Box::new(copy_phase(inner))),
    }
}

impl Clone for GamePhase {
    /// A phase can be cloned; the clone is equal to the original.
    fn clone(&self) -> (r: Self)
        ensures
            r == *self,
    {
        copy_phase(self)
    }
}

/// A completed trick: its four cards in play order, the winning seat, and
/// its card points.
#[derive(Clone, Copy, PartialEq, Eq, Debug)]
pub struct FinishedTrick {
    pub cards: [Card; 4],
    pub winner: PlaceAtTable,
    pub points: Points,
}

/// The mathematical value of a FinishedTrick.
#[verifier::ext_equal]
pub struct FinishedTrickView {
    pub cards: Seq<Card>,
    pub winner: PlaceAtTable,
    pub points: Points,
}

impl View for FinishedTrick {
    type V = FinishedTrickView;

    open spec fn view(&self) -> FinishedTrickView {
        FinishedTrickView { cards: self.cards@, winner: self.winner, points: self.points }
    }
}

/// The full state of a single game between two actions.
#[derive(Clone, Debug)]
pub struct GameState {
    pub phase: GamePhase,
    pub started: bool,
    pub players_started: Vec<PlaceAtTable>,
    pub players_accept_undo: Vec<PlaceAtTable>,
    /// Number of players still in the bidding ladder; starts at 4.
    pub bidding_players: u8,
    pub bidding_history: Vec<(ActionType, PlaceAtTable)>,
    pub trump: Option<Suit>,
    pub trump_called: Vec<Suit>,
    pub player_at_turn: PlaceAtTable,
    pub players: Vec<Player>,
    pub value: Points,
    pub all_tricks: Vec<FinishedTrick>,
    pub current_trick: Vec<Card>,
}

/// The mathematical value of a GameState.
#[verifier::ext_equal]
pub struct GameStateView {
    pub phase: GamePhase,
    pub started: bool,
    pub players_started: Seq<PlaceAtTable>,
    pub players_accept_undo: Seq<PlaceAtTable>,
    pub bidding_players: u8,
    pub bidding_history: Seq<(ActionTypeView, PlaceAtTable)>,
    pub trump: Option<Suit>,
    pub trump_called: Seq<Suit>,
    pub player_at_turn: PlaceAtTable,
    pub players: Seq<PlayerView>,
    pub value: Points,
    pub all_tricks: Seq<FinishedTrickView>,
    pub current_trick: Seq<Card>,
}

impl View for GameState {
    type V = GameStateView;

    open spec fn view(&self) -> GameStateView {
        GameStateView {
            phase: self.phase,
            started: self.started,
            players_started: self.players_started@,
            players_accept_undo: self.players_accept_undo@,
            bidding_players: self.bidding_players,
            bidding_history: Seq::new(
                self.bidding_history@.len(),
                |i: int| (self.bidding_history@[i].0@, self.bidding_history@[i].1),
            ),
            trump: self.trump,
            trump_called: self.trump_called@,
            player_at_turn: self.player_at_turn,
            players: Seq::new(self.players@.len(), |i: int| self.players@[i]@),
            value: self.value,
            all_tricks: Seq::new(self.all_tricks@.len(), |i: int| self.all_tricks@[i]@),
            current_trick: self.current_trick@,
        }
    }
}

/// Structural soundness of a state: four players seated in order, a valid
/// seat at turn, a bid value inside the ladder, and a trick of at most four
/// cards.
pub open spec fn state_ok(s: GameStateView) -> bool {
    &&& s.players.len() == 4
    &&& forall|i: int|
        0 <= i < 4 ==> (#[trigger] s.players[i]).place_at_table == PlaceAtTable(i as u8)
    &&& s.player_at_turn.0 < 4
    &&& forall|i: int| 0 <= i < s.players_started.len() ==> (#[trigger] s.players_started[i]).0 < 4
    &&& s.players_started.no_duplicates()
    &&& forall|i: int|
        0 <= i < s.players_accept_undo.len() ==> (#[trigger] s.players_accept_undo[i]).0 < 4
    &&& 115 <= s.value.0 <= 420
    &&& s.value.0 % 5 == 0
    &&& s.current_trick.len() <= 4
    &&& forall|i: int| 0 <= i < 4 ==> (#[trigger] s.players[i]).cards.len() <= 13
}

/// Phase-dependent shape of the hands: nine cards each until the deal is
/// passed, the exact thirteen-and-five split while the return pass is
/// owed, nine each again while raising, and a non-empty hand wherever a
/// card or a question is owed — so play can always continue.
pub open spec fn hands_ok(phase: GamePhase, s: GameStateView) -> bool
    decreases phase,
{
    match phase {
        GamePhase::WaitingForStart => nine_hands(s),
        GamePhase::Bidding => nine_hands(s),
        GamePhase::PassingForth => nine_hands(s),
        GamePhase::PassingBack => back_hands(s),
        GamePhase::Raising => nine_hands(s),
        GamePhase::Trick => s.players[s.player_at_turn.0 as int].cards.len() >= 1,
        GamePhase::StartTrick => s.players[s.player_at_turn.0 as int].cards.len() >= 1,
        GamePhase::AnsweringPair => s.players[crate::game::player::spec_partner(
            s.player_at_turn,
        ).0 as int].cards.len() >= 1,
        GamePhase::AnsweringHalf(_) => s.players[crate::game::player::spec_partner(
            s.player_at_turn,
        ).0 as int].cards.len() >= 1,
        GamePhase::PendingUndo(inner) => hands_ok(*inner, s),
        GamePhase::Ended => true,
    }
}

/// The hands between the two passes: the seat owing the return pass holds
/// thirteen cards, its partner five, the other pair nine each.
pub open spec fn back_hands(s: GameStateView) -> bool {
    &&& s.players[s.player_at_turn.0 as int].cards.len() == 13
    &&& s.players[crate::game::player::spec_partner(s.player_at_turn).0 as int].cards.len() == 5
    &&& forall|i: int|
        0 <= i < 4 && i != s.player_at_turn.0 as int && i != crate::game::player::spec_partner(
            s.player_at_turn,
        ).0 as int ==> (#[trigger] s.players[i]).cards.len() == 9
}

/// The hand bounds read only the players and the seat at turn.
pub proof fn lemma_hands_ok_same(phase: GamePhase, s1: GameStateView, s2: GameStateView)
    requires
        s1.players == s2.players,
        s1.player_at_turn == s2.player_at_turn,
    ensures
        hands_ok(phase, s1) == hands_ok(phase, s2),
    decreases phase,
{
    match phase {
        GamePhase::PendingUndo(inner) => {
            lemma_hands_ok_same(*inner, s1, s2);
        },
        _ => {},
    }
}

/// No card sits in two hands, and no hand holds a card twice: the deal's
/// share of the deck invariant.
pub open spec fn hands_distinct(players: Seq<PlayerView>) -> bool {
    &&& forall|i: int| 0 <= i < players.len() ==> (#[trigger] players[i]).cards.no_duplicates()
    &&& forall|i: int, j: int, c: Card|
        0 <= i < players.len() && 0 <= j < players.len() && i != j ==> !(#[trigger] players[
        i].cards.contains(c) && #[trigger] players[j].cards.contains(c))
}

/// Distinctness of the hands only reads the card lists.
pub proof fn lemma_hands_distinct_same_cards(p1: Seq<PlayerView>, p2: Seq<PlayerView>)
    requires
        p1.len() == p2.len(),
        forall|i: int| 0 <= i < p1.len() ==> (#[trigger] p1[i]).cards == (#[trigger] p2[i]).cards,
        hands_distinct(p1),
    ensures
        hands_distinct(p2),
{
    assert forall|i: int| 0 <= i < p2.len() implies (#[trigger] p2[i]).cards.no_duplicates() by {
        assert(p1[i].cards == p2[i].cards);
    }
    assert forall|i: int, j: int, c: Card|
        0 <= i < p2.len() && 0 <= j < p2.len() && i != j implies !(#[trigger] p2[
    i].cards.contains(c) && #[trigger] p2[j].cards.contains(c)) by {
        assert(p1[i].cards == p2[i].cards);
        assert(p1[j].cards == p2[j].cards);
    }
}

/// Every hand holds exactly its nine dealt cards.
pub open spec fn nine_hands(s: GameStateView) -> bool {
    forall|i: int| 0 <= i < 4 ==> (#[trigger] s.players[i]).cards.len() == 9
}

/// How many of the four players still carry the bidding flag.
pub open spec fn count_bidding(players: Seq<PlayerView>, n: int) -> int
    decreases n,
{
    if n <= 0 {
        0
    } else {
        count_bidding(players, n - 1) + if players[n - 1].bidding {
            1int
        } else {
            0int
        }
    }
}

/// Soundness of a state in the bidding phase: the seat at turn is still
/// bidding and the counter matches the flags.
pub open spec fn bidding_ok(s: GameStateView) -> bool {
    &&& s.players[s.player_at_turn.0 as int].bidding
    &&& s.bidding_players as int == count_bidding(s.players, 4)
}

impl GameState {
    /// The initial state of a game over the given four players.
    pub fn create(players: Vec<Player>) -> (r: GameState)
        requires
            players@.len() == 4,
        ensures
            r@ == (GameStateView {
                phase: GamePhase::WaitingForStart,
                started: false,
                players_started: Seq::empty(),
                players_accept_undo: Seq::empty(),
                bidding_players: 4,
                bidding_history: Seq::empty(),
                trump: None,
                trump_called: Seq::empty(),
                player_at_turn: PlaceAtTable(0),
                players: Seq::new(4, |i: int| players@[i]@),
                value: Points(115),
                all_tricks: Seq::empty(),
                current_trick: Seq::empty(),
            }),
    {
        let r = GameState {
            phase: GamePhase::WaitingForStart,
            started: false,
            players_started: Vec::new(),
            players_accept_undo: Vec::new(),
            bidding_players: 4,
            bidding_history: Vec::new(),
            trump: None,
            trump_called: Vec::new(),
            player_at_turn: PlaceAtTable(0),
            players,
            value: Points(115),
            all_tricks: Vec::new(),
            current_trick: Vec::new(),
        };
        proof {
            assert(r@.players_started =~= Seq::<PlaceAtTable>::empty());
            assert(r@.players_accept_undo =~= Seq::<PlaceAtTable>::empty());
            assert(r@.bidding_history =~= Seq::<(ActionTypeView, PlaceAtTable)>::empty());
            assert(r@.trump_called =~= Seq::<Suit>::empty());
            assert(r@.all_tricks =~= Seq::<FinishedTrickView>::empty());
            assert(r@.current_trick =~= Seq::<Card>::empty());
        }
        r
    }

    /// The player whose turn it is.
    pub fn player_at_turn(&self) -> (r: &Player)
        requires
            self.player_at_turn.0 < 4,
            self@.players.len() == 4,
        ensures
            r@ == self@.players[self.player_at_turn.0 as int],
    {
        &self.players[self.player_at_turn.0 as usize]
    }

    /// Mutable access to the player whose turn it is. Afterwards that seat
    /// holds whatever the caller wrote through the reference; everything
    /// else is untouched.
    pub fn player_at_turn_mut(&mut self) -> (r: &mut Player)
        requires
            old(self).player_at_turn.0 < 4,
            old(self)@.players.len() == 4,
        ensures
            *r == old(self).players@[old(self).player_at_turn.0 as int],
            final(self)@ =~~= (GameStateView {
                players: old(self)@.players.update(
                    old(self).player_at_turn.0 as int,
                    final(r)@,
                ),
                ..old(self)@
            }),
    {
        let i = self.player_at_turn.0 as usize;
        &mut self.players[i]
    }

    /// Mutable access to the player at a given seat. Afterwards that seat
    /// holds whatever the caller wrote through the reference; everything
    /// else is untouched.
    pub fn player_at_place_mut(&mut self, place: PlaceAtTable) -> (r: &mut Player)
        requires
            place.0 < 4,
            old(self)@.players.len() == 4,
        ensures
            *r == old(self).players@[place.0 as int],
            final(self)@ =~~= (GameStateView {
                players: old(self)@.players.update(place.0 as int, final(r)@),
                ..old(self)@
            }),
    {
        let i = place.0 as usize;
        &mut self.players[i]
    }

    /// The partner of the player whose turn it is.
    pub fn partner(&self) -> (r: &Player)
        requires
            self.player_at_turn.0 < 4,
            self@.players.len() == 4,
        ensures
            r@ == self@.players[crate::game::player::spec_partner(self.player_at_turn).0 as int],
    {
        &self.players[self.player_at_turn.partner().0 as usize]
    }

    /// The player to the right of the one whose turn it is.
    pub fn prev_player(&self) -> (r: &Player)
        requires
            self.player_at_turn.0 < 4,
            self@.players.len() == 4,
        ensures
            r@ == self@.players[crate::game::player::spec_prev(self.player_at_turn).0 as int],
    {
        &self.players[self.player_at_turn.prev().0 as usize]
    }

    /// The player at a given seat.
    pub fn player_at_place(&self, place: PlaceAtTable) -> (r: &Player)
        requires
            place.0 < 4,
            self@.players.len() == 4,
        ensures
            r@ == self@.players[place.0 as int],
    {
        &self.players[place.0 as usize]
    }

    /// The names of all four players, starting from the given seat and
    /// going around the table.
    pub fn players_perspective(&self, place: PlaceAtTable) -> (r: [String; 4])
        requires
            place.0 < 4,
            self@.players.len() == 4,
        ensures
            r@[0]@ == self@.players[place.0 as int].name,
            r@[1]@ == self@.players[crate::game::player::spec_next(place).0 as int].name,
            r@[2]@ == self@.players[crate::game::player::spec_partner(place).0 as int].name,
            r@[3]@ == self@.players[crate::game::player::spec_prev(place).0 as int].name,
    {
        [
            self.player_at_place(place).name.clone(),
            self.player_at_place(place.next()).name.clone(),
            self.player_at_place(place.partner()).name.clone(),
            self.player_at_place(place.prev()).name.clone(),
        ]
    }

    /// The hand sizes of all four players, starting from the given seat and
    /// going around the table.
    pub fn players_perspective_cards(&self, place: PlaceAtTable) -> (r: [u8; 4])
        requires
            place.0 < 4,
            self@.players.len() == 4,
            forall|i: int| 0 <= i < 4 ==> (#[trigger] self@.players[i]).cards.len() <= 13,
        ensures
            r@[0] as int == self@.players[place.0 as int].cards.len(),
            r@[1] as int == self@.players[crate::game::player::spec_next(place).0 as int].cards.len(),
            r@[2] as int == self@.players[crate::game::player::spec_partner(
                place,
            ).0 as int].cards.len(),
            r@[3] as int == self@.players[crate::game::player::spec_prev(place).0 as int].cards.len(),
    {
        [
            self.player_at_place(place).cards.len() as u8,
            self.player_at_place(place.next()).cards.len() as u8,
            self.player_at_place(place.partner()).cards.len() as u8,
            self.player_at_place(place.prev()).cards.len() as u8,
        ]
    }

    /// The players who have pressed start so far, in seat order.
    pub fn players_started(&self) -> (r: Vec<String>)
        requires
            self@.players.len() == 4,
        ensures
            ({
                let names = started_names(self@);
                r@.len() == names.len() && forall|i: int|
                    0 <= i < names.len() ==> (#[trigger] r@[i])@ == names[i]
            }),
    {
        let mut started: Vec<String> = Vec::new();
        let mut i: usize = 0;
        while i < 4
            invariant
                i <= 4,
                self@.players.len() == 4,
                ({
                    let names = started_names_upto(self@, i as int);
                    started@.len() == names.len() && forall|k: int|
                        0 <= k < names.len() ==> (#[trigger] started@[k])@ == names[k]
                }),
            decreases 4 - i,
        {
            let player = &self.players[i];
            if contains_place(&self.players_started, player.place_at_table) {
                started.push(player.name.clone());
            }
            proof {
                reveal(Seq::filter);
                assert(self@.players.take(i + 1).drop_last() =~= self@.players.take(i as int));
                assert(self@.players.take(i + 1).last() == self@.players[i as int]);
            }
            i += 1;
        }
        proof {
            assert(self@.players.take(4) =~= self@.players);
        }
        started
    }
}

/// The seats that have pressed start, filtered over the players in seat
/// order, as names.
pub open spec fn started_names(s: GameStateView) -> Seq<Seq<char>> {
    s.players.filter(|p: PlayerView| s.players_started.contains(p.place_at_table)).map_values(
        |p: PlayerView| p.name,
    )
}

/// The same list, over the first `n` seats only.
pub open spec fn started_names_upto(s: GameStateView, n: int) -> Seq<Seq<char>> {
    s.players.take(n).filter(|p: PlayerView| s.players_started.contains(p.place_at_table)).map_values(
        |p: PlayerView| p.name,
    )
}

/// Whether a seat occurs in a list of seats.
pub fn contains_place(places: &Vec<PlaceAtTable>, place: PlaceAtTable) -> (r: bool)
    ensures
        r == places@.contains(place),
{
    let mut i: usize = 0;
    while i < places.len()
        invariant
            i <= places@.len(),
            forall|k: int| 0 <= k < i ==> places@[k] != place,
        decreases places@.len() - i,
    {
        if places[i] == place {
            return true;
        }
        i += 1;
    }
    false
}

/// Whether a suit occurs in a list of suits.
pub fn contains_suit_list(suits: &Vec<Suit>, suit: Suit) -> (r: bool)
    ensures
        r == suits@.contains(suit),
{
    let mut i: usize = 0;
    while i < suits.len()
        invariant
            i <= suits@.len(),
            forall|k: int| 0 <= k < i ==> suits@[k] != suit,
        decreases suits@.len() - i,
    {
        if suits[i] == suit {
            return true;
        }
        i += 1;
    }
    false
}

/// An element-wise copy of a player.
pub fn copy_player(p: &Player) -> (r: Player)
    ensures
        r@ == p@,
{
    let mut tricks: Vec<Vec<Card>> = Vec::new();
    let mut i: usize = 0;
    while i < p.tricks.len()
        invariant
            i <= p.tricks@.len(),
            tricks@.len() == i,
            forall|k: int| 0 <= k < i ==> (#[trigger] tricks@[k])@ == p.tricks@[k]@,
        decreases p.tricks@.len() - i,
    {
        tricks.push(copy_cards(&p.tricks[i]));
        i += 1;
    }
    let r = Player {
        name: p.name.clone(),
        partner: p.partner,
        next_player: p.next_player,
        place_at_table: p.place_at_table,
        cards: copy_cards(&p.cards),
        last_played: p.last_played,
        tricks,
        trump: p.trump,
        bidding: p.bidding,
    };
    proof {
        assert(r@.tricks =~= p@.tricks);
    }
    r
}

/// An element-wise copy of a list of seats.
pub fn copy_places(v: &Vec<PlaceAtTable>) -> (r: Vec<PlaceAtTable>)
    ensures
        r@ == v@,
{
    let mut r: Vec<PlaceAtTable> = Vec::new();
    let mut i: usize = 0;
    while i < v.len()
        invariant
            i <= v@.len(),
            r@ == v@.take(i as int),
        decreases v@.len() - i,
    {
        r.push(v[i]);
        proof {
            assert(v@.take(i + 1) =~= v@.take(i as int).push(v@[i as int]));
        }
        i += 1;
    }
    proof {
        assert(v@.take(v@.len() as int) =~= v@);
    }
    r
}

/// An element-wise copy of a list of suits.
pub fn copy_suit_list(v: &Vec<Suit>) -> (r: Vec<Suit>)
    ensures
        r@ == v@,
{
    let mut r: Vec<Suit> = Vec::new();
    let mut i: usize = 0;
    while i < v.len()
        invariant
            i <= v@.len(),
            r@ == v@.take(i as int),
        decreases v@.len() - i,
    {
        r.push(v[i]);
        proof {
            assert(v@.take(i + 1) =~= v@.take(i as int).push(v@[i as int]));
        }
        i += 1;
    }
    proof {
        assert(v@.take(v@.len() as int) =~= v@);
    }
    r
}

/// An element-wise copy of a list of finished tricks.
pub fn copy_tricks(v: &Vec<FinishedTrick>) -> (r: Vec<FinishedTrick>)
    ensures
        r@ == v@,
{
    let mut r: Vec<FinishedTrick> = Vec::new();
    let mut i: usize = 0;
    while i < v.len()
        invariant
            i <= v@.len(),
            r@ == v@.take(i as int),
        decreases v@.len() - i,
    {
        r.push(v[i]);
        proof {
            assert(v@.take(i + 1) =~= v@.take(i as int).push(v@[i as int]));
        }
        i += 1;
    }
    proof {
        assert(v@.take(v@.len() as int) =~= v@);
    }
    r
}

/// An element-wise copy of a bidding history.
pub fn copy_history(h: &Vec<(ActionType, PlaceAtTable)>) -> (r: Vec<(ActionType, PlaceAtTable)>)
    ensures
        r@.len() == h@.len(),
        forall|k: int|
            0 <= k < h@.len() ==> (#[trigger] r@[k]).0@ == h@[k].0@ && r@[k].1 == h@[k].1,
{
    let mut history: Vec<(ActionType, PlaceAtTable)> = Vec::new();
    let mut i: usize = 0;
    while i < h.len()
        invariant
            i <= h@.len(),
            history@.len() == i,
            forall|k: int|
                0 <= k < i ==> (#[trigger] history@[k]).0@ == h@[k].0@ && history@[k].1
                    == h@[k].1,
        decreases h@.len() - i,
    {
        let entry = &h[i];
        history.push((copy_action_type(&entry.0), entry.1));
        i += 1;
    }
    history
}

/// An element-wise copy of a state, used for the one-level undo snapshot so
/// that the snapshot and the live state never share storage.
pub fn copy_state(s: &GameState) -> (r: GameState)
    ensures
        r@ == s@,
{
    let mut players: Vec<Player> = Vec::new();
    let mut i: usize = 0;
    while i < s.players.len()
        invariant
            i <= s.players@.len(),
            players@.len() == i,
            forall|k: int| 0 <= k < i ==> (#[trigger] players@[k])@ == s.players@[k]@,
        decreases s.players@.len() - i,
    {
        players.push(copy_player(&s.players[i]));
        i += 1;
    }
    let history = copy_history(&s.bidding_history);
    let r = GameState {
        phase: copy_phase(&s.phase),
        started: s.started,
        players_started: copy_places(&s.players_started),
        players_accept_undo: copy_places(&s.players_accept_undo),
        bidding_players: s.bidding_players,
        bidding_history: history,
        trump: s.trump,
        trump_called: copy_suit_list(&s.trump_called),
        player_at_turn: s.player_at_turn,
        players,
        value: s.value,
        all_tricks: copy_tricks(&s.all_tricks),
        current_trick: copy_cards(&s.current_trick),
    };
    proof {
        assert(r@.players =~= s@.players);
        assert(r@.bidding_history =~= s@.bidding_history);
        assert(r@.all_tricks =~= s@.all_tricks);
    }
    r
}

} // verus!
