use vstd::prelude::*;

use crate::game::cards::{copy_cards, Card, Suit};
use crate::game::player::PlaceAtTable;

verus! {

/// A question a seat may ask when leading a trick: "do you hold the pair?"
/// to the partner, or "does anyone hold a half of this suit?" to the table.
#[derive(Clone, Copy, PartialEq, Eq, Structural, Debug)]
pub enum QuestionType {
    Yours,
    YourHalf(Suit),
}

/// The possible answers to the two questions.
#[derive(Clone, Copy, PartialEq, Eq, Structural, Debug)]
pub enum AnswerType {
    YesPair(Suit),
    NoPair,
    YesHalf(Suit),
    NoHalf(Suit),
}

/// Internal information following an action that cannot be derived from the
/// action alone: trump changes and half-question outcomes.
#[derive(Clone, Copy, PartialEq, Eq, Structural, Debug)]
pub enum GameCallback {
    NewTrump(Suit),
    /// When asked again for a half whose suit is already trump.
    StillTrump(Suit),
    NoHalf(Suit),
    OnlyHalf(Suit),
}

/// Everything a seat can do, over all phases of a game.
#[derive(Clone, PartialEq, Eq, Debug)]
pub enum ActionType {
    Start,
    NewBid(i32),
    StopBidding,
    Pass(Vec<Card>),
    CardPlayed(Card),
    Question(QuestionType),
    Answer(AnswerType),
    AnnounceTrump(Suit),
    UndoRequest,
    UndoDecline,
    UndoAccept,
}

/// The mathematical value of an ActionType.
#[verifier::ext_equal]
pub enum ActionTypeView {
    Start,
    NewBid(i32),
    StopBidding,
    Pass(Seq<Card>),
    CardPlayed(Card),
    Question(QuestionType),
    Answer(AnswerType),
    AnnounceTrump(Suit),
    UndoRequest,
    UndoDecline,
    UndoAccept,
}

impl View for ActionType {
    type V = ActionTypeView;

    open spec fn view(&self) -> ActionTypeView {
        match self {
            ActionType::Start => ActionTypeView::Start,
            ActionType::NewBid(v) => ActionTypeView::NewBid(*v),
            ActionType::StopBidding => ActionTypeView::StopBidding,
            ActionType::Pass(cards) => ActionTypeView::Pass(cards@),
            ActionType::CardPlayed(c) => ActionTypeView::CardPlayed(*c),
            ActionType::Question(q) => ActionTypeView::Question(*q),
            ActionType::Answer(a) => ActionTypeView::Answer(*a),
            ActionType::AnnounceTrump(s) => ActionTypeView::AnnounceTrump(*s),
            ActionType::UndoRequest => ActionTypeView::UndoRequest,
            ActionType::UndoDecline => ActionTypeView::UndoDecline,
            ActionType::UndoAccept => ActionTypeView::UndoAccept,
        }
    }
}

/// One seat's submission: what is done, and by whom.
#[derive(Clone, PartialEq, Eq, Debug)]
pub struct GameAction {
    pub action_type: ActionType,
    pub player: PlaceAtTable,
}

/// The mathematical value of a GameAction.
#[verifier::ext_equal]
pub struct GameActionView {
    pub action_type: ActionTypeView,
    pub player: PlaceAtTable,
}

impl View for GameAction {
    type V = GameActionView;

    open spec fn view(&self) -> GameActionView {
        GameActionView { action_type: self.action_type@, player: self.player }
    }
}

/// One entry of the permanent event log: the action applied, the optional
/// callback, the seat to move afterwards, and a timestamp.
#[derive(Clone, Debug)]
pub struct GameEvent {
    pub last_action: GameAction,
    /// Inner change that cannot be known from the action alone.
    pub callback: Option<GameCallback>,
    pub player_at_turn: PlaceAtTable,
    pub time: String,
}

/// The mathematical value of a GameEvent.
#[verifier::ext_equal]
pub struct GameEventView {
    pub last_action: GameActionView,
    pub callback: Option<GameCallback>,
    pub player_at_turn: PlaceAtTable,
    pub time: Seq<char>,
}

impl View for GameEvent {
    type V = GameEventView;

    open spec fn view(&self) -> GameEventView {
        GameEventView {
            last_action: self.last_action@,
            callback: self.callback,
            player_at_turn: self.player_at_turn,
            time: self.time@,
        }
    }
}

/// An event as shown to a single seat: pass actions are hidden.
#[derive(Clone, Debug)]
pub enum GameEventPlayer {
    PublicEvent(GameEvent),
    HiddenEvent,
}

/// The mathematical values of a list of actions.
pub open spec fn actions_view(s: Seq<GameAction>) -> Seq<GameActionView> {
    Seq::new(s.len(), |i: int| s[i]@)
}

/// Appending an action appends its value.
pub broadcast proof fn lemma_actions_view_push(s: Seq<GameAction>, a: GameAction)
    ensures
        #[trigger] actions_view(s.push(a)) == actions_view(s).push(a@),
{
    assert(actions_view(s.push(a)) =~= actions_view(s).push(a@));
}

/// An element-wise copy of an action type.
pub fn copy_action_type(a: &ActionType) -> (r: ActionType)
    ensures
        r@ == a@,
{
    match a {
        ActionType::Start => ActionType::Start,
        ActionType::NewBid(v) => ActionType::NewBid(*v),
        ActionType::StopBidding => ActionType::StopBidding,
        ActionType::Pass(cards) => ActionType::Pass(copy_cards(cards)),
        ActionType::CardPlayed(c) => ActionType::CardPlayed(*c),
        ActionType::Question(q) => ActionType::Question(*q),
        ActionType::Answer(ans) => ActionType::Answer(*ans),
        ActionType::AnnounceTrump(s) => ActionType::AnnounceTrump(*s),
        ActionType::UndoRequest => ActionType::UndoRequest,
        ActionType::UndoDecline => ActionType::UndoDecline,
        ActionType::UndoAccept => ActionType::UndoAccept,
    }
}

/// An element-wise copy of an action.
pub fn copy_action(a: &GameAction) -> (r: GameAction)
    ensures
        r@ == a@,
{
    GameAction { action_type: copy_action_type(&a.action_type), player: a.player }
}

/// Whether two action types are the same, comparing passed cards by
/// content.
pub fn action_type_eq(a: &ActionType, b: &ActionType) -> (r: bool)
    ensures
        r == (a@ == b@),
{
    match (a, b) {
        (ActionType::Start, ActionType::Start) => true,
        (ActionType::NewBid(x), ActionType::NewBid(y)) => x == y,
        (ActionType::StopBidding, ActionType::StopBidding) => true,
        (ActionType::Pass(x), ActionType::Pass(y)) => {
            if x.len() != y.len() {
                proof {
                    assert(x@ != y@);
                }
                false
            } else {
                let mut i: usize = 0;
                let mut same = true;
                proof {
                    assert(x@.take(0) =~= y@.take(0));
                }
                while i < x.len()
                    invariant
                        i <= x@.len(),
                        x@.len() == y@.len(),
                        same == (x@.take(i as int) == y@.take(i as int)),
                    decreases x@.len() - i,
                {
                    proof {
                        assert(x@.take(i + 1).drop_last() =~= x@.take(i as int));
                        assert(y@.take(i + 1).drop_last() =~= y@.take(i as int));
                        if same && x@[i as int] == y@[i as int] {
                            assert(x@.take(i + 1) =~= y@.take(i + 1));
                        }
                        if x@.take(i + 1) == y@.take(i + 1) {
                            assert(x@.take(i + 1).drop_last() == y@.take(i + 1).drop_last());
                            assert(x@.take(i + 1).last() == y@.take(i + 1).last());
                        }
                    }
                    same = same && x[i] == y[i];
                    i += 1;
                }
                proof {
                    assert(x@.take(x@.len() as int) =~= x@);
                    assert(y@.take(y@.len() as int) =~= y@);
                    if x@ == y@ {
                        assert(x@.take(x@.len() as int) == y@.take(y@.len() as int));
                    }
                }
                same
            }
        },
        (ActionType::CardPlayed(x), ActionType::CardPlayed(y)) => x == y,
        (ActionType::Question(x), ActionType::Question(y)) => x == y,
        (ActionType::Answer(x), ActionType::Answer(y)) => x == y,
        (ActionType::AnnounceTrump(x), ActionType::AnnounceTrump(y)) => x == y,
        (ActionType::UndoRequest, ActionType::UndoRequest) => true,
        (ActionType::UndoDecline, ActionType::UndoDecline) => true,
        (ActionType::UndoAccept, ActionType::UndoAccept) => true,
        _ => false,
    }
}

/// Whether an action occurs in a list of actions, compared by content.
pub fn action_in_list(list: &Vec<GameAction>, a: &GameAction) -> (r: bool)
    ensures
        r == actions_view(list@).contains(a@),
{
    let mut i: usize = 0;
    while i < list.len()
        invariant
            i <= list@.len(),
            forall|k: int| 0 <= k < i ==> (#[trigger] list@[k])@ != a@,
        decreases list@.len() - i,
    {
        if action_eq(&list[i], a) {
            proof {
                assert(actions_view(list@)[i as int] == a@);
            }
            return true;
        }
        i += 1;
    }
    proof {
        if actions_view(list@).contains(a@) {
            let w = choose|w: int|
                0 <= w < actions_view(list@).len() && actions_view(list@)[w] == a@;
            assert(list@[w]@ == a@);
        }
    }
    false
}

/// An element-wise copy of an event.
pub fn copy_event(e: &GameEvent) -> (r: GameEvent)
    ensures
        r@ == e@,
{
    GameEvent {
        last_action: copy_action(&e.last_action),
        callback: e.callback,
        player_at_turn: e.player_at_turn,
        time: e.time.clone(),
    }
}

/// An element-wise copy of an event log.
pub fn copy_events(v: &Vec<GameEvent>) -> (r: Vec<GameEvent>)
    ensures
        r@.len() == v@.len(),
        forall|i: int| 0 <= i < v@.len() ==> (#[trigger] r@[i])@ == v@[i]@,
{
    let mut r: Vec<GameEvent> = Vec::new();
    let mut i: usize = 0;
    while i < v.len()
        invariant
            i <= v@.len(),
            r@.len() == i,
            forall|k: int| 0 <= k < i ==> (#[trigger] r@[k])@ == v@[k]@,
        decreases v@.len() - i,
    {
        r.push(copy_event(&v[i]));
        i += 1;
    }
    r
}

/// Whether two actions are the same submission.
pub fn action_eq(a: &GameAction, b: &GameAction) -> (r: bool)
    ensures
        r == (a@ == b@),
{
    let r = action_type_eq(&a.action_type, &b.action_type) && a.player == b.player;
    proof {
        if r {
            assert(a@ == b@);
        }
    }
    r
}

} // verus!
