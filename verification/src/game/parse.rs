use vstd::prelude::*;

use crate::game::apply_action::spec_transition;
use crate::game::cards::{Card, Suit, Value};
use crate::game::gameevent::{
    ActionType, ActionTypeView, AnswerType, GameAction, GameActionView, GameCallback,
    GameEventView, QuestionType,
};
use crate::game::gameinfo::{
    last_bidder, pass_list, seat_bonus, GameInfoDatabase, GameMetaInfoView,
};
use crate::game::gamestate::{GamePhase, GameStateView};
use crate::game::legal_actions::{av_start, sort_cards_desc, sort_desc};
use crate::game::player::{spec_fresh_player, PlaceAtTable};
use crate::game::points::Points;
use crate::game::{game_base_ok, game_ok, spec_legal_actions, Game, GameView};

verus! {

/// Why a piece of legacy input could not be used: a malformed card or
/// action, a replay that a game refused, or a finished log that still
/// cannot be archived.
#[derive(Clone, Copy, PartialEq, Eq, Structural, Debug)]
pub enum ParseError {
    WrongCardFormat,
    WrongActionFormat,
    IllegalReplay,
    IncompleteGame,
}

/// The suit letter codes g, e, s, r.
pub open spec fn spec_suit_char(c: char) -> Option<Suit> {
    if c == 'g' {
        Some(Suit::Green)
    } else if c == 'e' {
        Some(Suit::Acorns)
    } else if c == 's' {
        Some(Suit::Bells)
    } else if c == 'r' {
        Some(Suit::Red)
    } else {
        None
    }
}

/// The rank codes 6 7 8 9 U O K Z A.
pub open spec fn spec_value_char(c: char) -> Option<Value> {
    if c == '6' {
        Some(Value::Six)
    } else if c == '7' {
        Some(Value::Seven)
    } else if c == '8' {
        Some(Value::Eight)
    } else if c == '9' {
        Some(Value::Nine)
    } else if c == 'U' {
        Some(Value::Unter)
    } else if c == 'O' {
        Some(Value::Ober)
    } else if c == 'K' {
        Some(Value::King)
    } else if c == 'Z' {
        Some(Value::Ten)
    } else if c == 'A' {
        Some(Value::Ace)
    } else {
        None
    }
}

/// What a three-character card code denotes: the first character names the
/// suit, the last the rank; anything else is rejected.
pub open spec fn spec_parse_card(s: Seq<char>) -> Option<Card> {
    if s.len() != 3 {
        None
    } else {
        match (spec_suit_char(s[0]), spec_value_char(s[2])) {
            (Some(suit), Some(value)) => Some(Card { suit, value }),
            _ => None,
        }
    }
}

fn suit_from_char(c: char) -> (r: Option<Suit>)
    ensures
        r == spec_suit_char(c),
{
    if c == 'g' {
        Some(Suit::Green)
    } else if c == 'e' {
        Some(Suit::Acorns)
    } else if c == 's' {
        Some(Suit::Bells)
    } else if c == 'r' {
        Some(Suit::Red)
    } else {
        None
    }
}

fn value_from_char(c: char) -> (r: Option<Value>)
    ensures
        r == spec_value_char(c),
{
    if c == '6' {
        Some(Value::Six)
    } else if c == '7' {
        Some(Value::Seven)
    } else if c == '8' {
        Some(Value::Eight)
    } else if c == '9' {
        Some(Value::Nine)
    } else if c == 'U' {
        Some(Value::Unter)
    } else if c == 'O' {
        Some(Value::Ober)
    } else if c == 'K' {
        Some(Value::King)
    } else if c == 'Z' {
        Some(Value::Ten)
    } else if c == 'A' {
        Some(Value::Ace)
    } else {
        None
    }
}

/// Parse one card code such as `r-A` into a card; reject anything that is
/// not three characters of the suit-dash-rank form.
pub fn parse_card(card: String) -> (r: Result<Card, ParseError>)
    ensures
        r == (match spec_parse_card(card@) {
            Some(c) => Ok::<Card, ParseError>(c),
            None => Err::<Card, ParseError>(ParseError::WrongCardFormat),
        }),
{
    let s = card.as_str();
    if s.unicode_len() != 3 {
        return Err(ParseError::WrongCardFormat);
    }
    let suit_char = s.get_char(0);
    let value_char = s.get_char(2);
    match (suit_from_char(suit_char), value_from_char(value_char)) {
        (Some(suit), Some(value)) => Ok(Card { suit, value }),
        _ => Err(ParseError::WrongCardFormat),
    }
}

/// Parse a list of card codes. All of them must be well-formed.
pub fn parse_cards(cards: Vec<String>) -> (r: Vec<Card>)
    requires
        forall|i: int| 0 <= i < cards@.len() ==> spec_parse_card((#[trigger] cards@[i])@) is Some,
    ensures
        r@.len() == cards@.len(),
        forall|i: int|
            0 <= i < cards@.len() ==> #[trigger] r@[i] == spec_parse_card(cards@[i]@)->Some_0,
{
    let mut r: Vec<Card> = Vec::new();
    let mut i: usize = 0;
    while i < cards.len()
        invariant
            i <= cards@.len(),
            forall|k: int|
                0 <= k < cards@.len() ==> spec_parse_card((#[trigger] cards@[k])@) is Some,
            r@.len() == i,
            forall|k: int|
                0 <= k < i ==> #[trigger] r@[k] == spec_parse_card(cards@[k]@)->Some_0,
        decreases cards@.len() - i,
    {
        let card = cards[i].clone();
        match parse_card(card) {
            Ok(c) => r.push(c),
            Err(_) => {
                proof {
                    assert(false);
                }
            },
        }
        i += 1;
    }
    r
}

/// A historical game in the legacy line-encoded format: identity, the four
/// hands as card codes in seat order, and the action lines.
#[derive(Clone, Debug)]
pub struct LegacyGameFormat {
    /// The historical record's identifier.
    pub id: String,
    pub name: String,
    pub created: String,
    pub started: String,
    pub finished: String,
    pub players: Vec<String>,
    /// One list of card codes per seat, in seat order.
    pub cards: [Vec<String>; 4],
    pub game_value: i32,
    pub actions: Vec<String>,
    pub schwarz_game: bool,
}

/// The suit named by a letter code, Red standing in for anything unknown.
fn parse_suit(suit: char) -> (r: Suit)
    ensures
        r == (match spec_suit_char(suit) {
            Some(su) => su,
            None => Suit::Red,
        }),
{
    match suit_from_char(suit) {
        Some(su) => su,
        None => Suit::Red,
    }
}

/// What a question line denotes: `my` followed by a suit letter is a
/// private announcement, `ou` a generic half question, anything else the
/// partner-pair question.
pub open spec fn spec_parse_ques(s: Seq<char>) -> ActionType {
    if s[7] == 'm' && s[8] == 'y' {
        ActionType::AnnounceTrump(
            match spec_suit_char(s[9]) {
                Some(su) => su,
                None => Suit::Red,
            },
        )
    } else if s[7] == 'o' && s[8] == 'u' {
        ActionType::Question(
            QuestionType::YourHalf(
                match spec_suit_char(s[9]) {
                    Some(su) => su,
                    None => Suit::Red,
                },
            ),
        )
    } else {
        ActionType::Question(QuestionType::Yours)
    }
}

fn parse_ques(action: &str) -> (r: ActionType)
    requires
        action@.len() >= 10,
    ensures
        r@ == spec_parse_ques(action@)@,
{
    let c7 = action.get_char(7);
    let c8 = action.get_char(8);
    if c7 == 'm' && c8 == 'y' {
        ActionType::AnnounceTrump(parse_suit(action.get_char(9)))
    } else if c7 == 'o' && c8 == 'u' {
        ActionType::Question(QuestionType::YourHalf(parse_suit(action.get_char(9))))
    } else {
        ActionType::Question(QuestionType::Yours)
    }
}

/// What an answer line denotes: `my` a pair answer, `no` a denied half,
/// `ou` a confirmed half, anything else the no-pair answer.
pub open spec fn spec_parse_answ(s: Seq<char>) -> ActionType {
    let su = match spec_suit_char(s[9]) {
        Some(x) => x,
        None => Suit::Red,
    };
    if s[7] == 'm' && s[8] == 'y' {
        ActionType::Answer(AnswerType::YesPair(su))
    } else if s[7] == 'n' && s[8] == 'o' {
        ActionType::Answer(AnswerType::NoHalf(su))
    } else if s[7] == 'o' && s[8] == 'u' {
        ActionType::Answer(AnswerType::YesHalf(su))
    } else {
        ActionType::Answer(AnswerType::NoPair)
    }
}

fn parse_answ(action: &str) -> (r: ActionType)
    requires
        action@.len() >= 10,
    ensures
        r@ == spec_parse_answ(action@)@,
{
    let c7 = action.get_char(7);
    let c8 = action.get_char(8);
    let su = parse_suit(action.get_char(9));
    if c7 == 'm' && c8 == 'y' {
        ActionType::Answer(AnswerType::YesPair(su))
    } else if c7 == 'n' && c8 == 'o' {
        ActionType::Answer(AnswerType::NoHalf(su))
    } else if c7 == 'o' && c8 == 'u' {
        ActionType::Answer(AnswerType::YesHalf(su))
    } else {
        ActionType::Answer(AnswerType::NoPair)
    }
}

/// Whether a character is a decimal digit.
pub open spec fn is_digit(c: char) -> bool {
    48 <= c as int && c as int <= 57
}

/// The number written by a sequence of digits, most significant first.
pub open spec fn digits_val(s: Seq<char>) -> int
    decreases s.len(),
{
    if s.len() == 0 {
        0
    } else {
        digits_val(s.drop_last()) * 10 + (s.last() as int - 48)
    }
}

/// Parse one to four decimal digits into a number.
fn parse_number(s: &str, from: usize, to: usize) -> (r: Option<i32>)
    requires
        from <= to <= s@.len(),
    ensures
        (match r {
            Some(v) => 1 <= to - from <= 4 && (forall|k: int|
                from <= k < to ==> is_digit(#[trigger] s@[k])) && 0 <= digits_val(
                s@.subrange(from as int, to as int),
            ) < 10000 && v as int == digits_val(s@.subrange(from as int, to as int)),
            None => !(1 <= to - from <= 4 && (forall|k: int|
                from <= k < to ==> is_digit(#[trigger] s@[k]))),
        }),
{
    if to - from < 1 || to - from > 4 {
        return None;
    }
    let mut val: i32 = 0;
    let mut i: usize = from;
    proof {
        assert(s@.subrange(from as int, from as int) =~= Seq::<char>::empty());
    }
    while i < to
        invariant
            from <= i <= to <= s@.len(),
            to - from <= 4,
            forall|k: int| from <= k < i ==> is_digit(#[trigger] s@[k]),
            val == digits_val(s@.subrange(from as int, i as int)),
            0 <= val < 10000,
        decreases to - i,
    {
        let c = s.get_char(i);
        let cu = c as u32;
        if cu < 48 || cu > 57 {
            return None;
        }
        proof {
            assert(s@.subrange(from as int, i + 1).drop_last() =~= s@.subrange(
                from as int,
                i as int,
            ));
            assert(s@.subrange(from as int, i + 1).last() == s@[i as int]);
            lemma_digits_bound(s@.subrange(from as int, i + 1));
            assert(s@.subrange(from as int, i + 1).len() <= 4);
        }
        val = val * 10 + ((c as u32) as i32 - 48);
        i += 1;
    }
    Some(val)
}

proof fn lemma_digits_bound(s: Seq<char>)
    requires
        forall|k: int| 0 <= k < s.len() ==> is_digit(#[trigger] s[k]),
    ensures
        0 <= digits_val(s),
        s.len() <= 1 ==> digits_val(s) < 10,
        s.len() <= 2 ==> digits_val(s) < 100,
        s.len() <= 3 ==> digits_val(s) < 1000,
        s.len() <= 4 ==> digits_val(s) < 10000,
    decreases s.len(),
{
    if s.len() > 0 {
        lemma_digits_bound(s.drop_last());
    }
}

/// The position of the first comma at or after `from`, or the length if
/// there is none.
pub open spec fn comma_after(s: Seq<char>, from: int) -> int
    decreases s.len() - from,
{
    if from >= s.len() || from < 0 {
        s.len() as int
    } else if s[from] == ',' {
        from
    } else {
        comma_after(s, from + 1)
    }
}

fn find_comma(s: &str, from: usize) -> (r: usize)
    requires
        from <= s@.len(),
    ensures
        r as int == comma_after(s@, from as int),
        from <= r <= s@.len(),
{
    let mut i: usize = from;
    while i < s.unicode_len()
        invariant
            from <= i <= s@.len(),
            comma_after(s@, from as int) == comma_after(s@, i as int),
        decreases s@.len() - i,
    {
        if s.get_char(i) == ',' {
            return i;
        }
        i += 1;
    }
    i
}

/// What one legacy action line denotes, if anything: three comma-separated
/// fields — the seat, a four-letter code, and a value whose reading depends
/// on the code.
pub open spec fn spec_parse_action(s: Seq<char>) -> Option<crate::game::gameevent::GameActionView> {
    let c1 = comma_after(s, 0);
    let c2 = comma_after(s, c1 + 1);
    if c1 >= s.len() || c2 >= s.len() || comma_after(s, c2 + 1) != s.len() {
        None
    } else if !(1 <= c1 <= 4 && (forall|k: int| 0 <= k < c1 ==> is_digit(#[trigger] s[k]))
        && digits_val(s.subrange(0, c1)) <= 255) {
        None
    } else {
        let seat = PlaceAtTable(digits_val(s.subrange(0, c1)) as u8);
        let code = s.subrange(c1 + 1, c2);
        let part2 = s.subrange(c2 + 1, s.len() as int);
        let part2_num_ok = 1 <= part2.len() <= 4 && (forall|k: int|
            c2 + 1 <= k < s.len() ==> is_digit(#[trigger] s[k]));
        if code == seq!['P', 'R', 'O', 'V'] {
            if part2_num_ok {
                if digits_val(part2) == 0 {
                    Some(
                        crate::game::gameevent::GameActionView {
                            action_type: crate::game::gameevent::ActionTypeView::StopBidding,
                            player: seat,
                        },
                    )
                } else {
                    Some(
                        crate::game::gameevent::GameActionView {
                            action_type: crate::game::gameevent::ActionTypeView::NewBid(
                                digits_val(part2) as i32,
                            ),
                            player: seat,
                        },
                    )
                }
            } else {
                None
            }
        } else if code == seq!['P', 'R', 'M', 'O'] {
            if part2_num_ok {
                Some(
                    crate::game::gameevent::GameActionView {
                        action_type: crate::game::gameevent::ActionTypeView::NewBid(
                            digits_val(part2) as i32,
                        ),
                        player: seat,
                    },
                )
            } else {
                None
            }
        } else if code == seq!['T', 'R', 'C', 'K'] {
            match spec_parse_card(part2) {
                Some(card) => Some(
                    crate::game::gameevent::GameActionView {
                        action_type: crate::game::gameevent::ActionTypeView::CardPlayed(card),
                        player: seat,
                    },
                ),
                None => None,
            }
        } else if code == seq!['Q', 'U', 'E', 'S'] {
            if s.len() >= 10 {
                Some(
                    crate::game::gameevent::GameActionView {
                        action_type: spec_parse_ques(s)@,
                        player: seat,
                    },
                )
            } else {
                None
            }
        } else if code == seq!['A', 'N', 'S', 'W'] {
            if s.len() >= 10 {
                Some(
                    crate::game::gameevent::GameActionView {
                        action_type: spec_parse_answ(s)@,
                        player: seat,
                    },
                )
            } else {
                None
            }
        } else {
            None
        }
    }
}

fn code_is(s: &str, c1: usize, c2: usize, a: char, b: char, c: char, d: char) -> (r: bool)
    requires
        c1 < c2,
        c2 <= s@.len(),
    ensures
        r == (s@.subrange(c1 + 1, c2 as int) == seq![a, b, c, d]),
{
    if c2 - c1 != 5 {
        proof {
            assert(s@.subrange(c1 + 1, c2 as int).len() != 4);
        }
        return false;
    }
    let r = s.get_char(c1 + 1) == a && s.get_char(c1 + 2) == b && s.get_char(c1 + 3) == c
        && s.get_char(c1 + 4) == d;
    proof {
        if r {
            assert(s@.subrange(c1 + 1, c2 as int) =~= seq![a, b, c, d]);
        } else {
            assert(s@.subrange(c1 + 1, c2 as int) != seq![a, b, c, d]) by {
                if s@.subrange(c1 + 1, c2 as int) == seq![a, b, c, d] {
                    assert(s@.subrange(c1 + 1, c2 as int)[0] == a);
                    assert(s@.subrange(c1 + 1, c2 as int)[1] == b);
                    assert(s@.subrange(c1 + 1, c2 as int)[2] == c);
                    assert(s@.subrange(c1 + 1, c2 as int)[3] == d);
                }
            }
        }
    }
    r
}

fn parse_action(action: &String) -> (r: Result<GameAction, ParseError>)
    ensures
        (match spec_parse_action(action@) {
            Some(av) => r matches Ok(ga) && ga@ == av,
            None => r is Err,
        }),
{
    let s = action.as_str();
    let n = s.unicode_len();
    let c1 = find_comma(s, 0);
    if c1 >= n {
        return Err(ParseError::WrongActionFormat);
    }
    let c2 = find_comma(s, c1 + 1);
    if c2 >= n {
        return Err(ParseError::WrongActionFormat);
    }
    let c3 = find_comma(s, c2 + 1);
    if c3 < n {
        proof {
            assert(comma_after(s@, c2 + 1) != s@.len());
            assert(spec_parse_action(action@) is None);
        }
        return Err(ParseError::WrongActionFormat);
    }
    proof {
        assert(comma_after(s@, c2 + 1) == s@.len());
    }
    let seat_num = match parse_number(s, 0, c1) {
        Some(v) => v,
        None => {
            proof {
                assert(spec_parse_action(action@) is None);
            }
            return Err(ParseError::WrongActionFormat);
        },
    };
    if seat_num > 255 {
        proof {
            assert(spec_parse_action(action@) is None);
        }
        return Err(ParseError::WrongActionFormat);
    }
    proof {
        assert(1 <= c1 <= 4 && (forall|k: int| 0 <= k < c1 ==> is_digit(#[trigger] s@[k]))
            && digits_val(s@.subrange(0, c1 as int)) <= 255);
    }
    #[verifier::truncate]
    let seat = PlaceAtTable(seat_num as u8);
    proof {
        assert(seat == PlaceAtTable(digits_val(action@.subrange(0, comma_after(action@, 0))) as u8));
    }
    let action_type: ActionType = if code_is(s, c1, c2, 'P', 'R', 'O', 'V') {
        let val = match parse_number(s, c2 + 1, n) {
            Some(v) => v,
            None => {
                return Err(ParseError::WrongActionFormat);
            },
        };
        if val == 0 {
            ActionType::StopBidding
        } else {
            ActionType::NewBid(val)
        }
    } else if code_is(s, c1, c2, 'P', 'R', 'M', 'O') {
        let val = match parse_number(s, c2 + 1, n) {
            Some(v) => v,
            None => {
                return Err(ParseError::WrongActionFormat);
            },
        };
        ActionType::NewBid(val)
    } else if code_is(s, c1, c2, 'T', 'R', 'C', 'K') {
        let card_str = s.substring_char(c2 + 1, n);
        let card = match parse_card(card_str.to_owned()) {
            Ok(c) => c,
            Err(e) => {
                return Err(e);
            },
        };
        ActionType::CardPlayed(card)
    } else if code_is(s, c1, c2, 'Q', 'U', 'E', 'S') {
        if n < 10 {
            return Err(ParseError::WrongActionFormat);
        }
        parse_ques(s)
    } else if code_is(s, c1, c2, 'A', 'N', 'S', 'W') {
        if n < 10 {
            return Err(ParseError::WrongActionFormat);
        }
        parse_answ(s)
    } else {
        return Err(ParseError::WrongActionFormat);
    };
    Ok(GameAction { action_type, player: seat })
}

/// The mathematical values of a list of text lines.
pub open spec fn lines_view(ss: Seq<String>) -> Seq<Seq<char>> {
    Seq::new(ss.len(), |i: int| ss[i]@)
}

/// The third comma-separated field of a legacy line.
pub open spec fn third_field(s: Seq<char>) -> Seq<char> {
    let c1 = comma_after(s, 0);
    let c2 = comma_after(s, c1 + 1);
    s.subrange(c2 + 1, s.len() as int)
}

/// Whether a legacy line has at least two commas and a card code as its
/// third field.
pub open spec fn pass_line_ok(s: Seq<char>) -> bool {
    let c1 = comma_after(s, 0);
    let c2 = comma_after(s, c1 + 1);
    c1 < s.len() && c2 < s.len() && spec_parse_card(third_field(s)) is Some
}

/// What a four-line pass block denotes, if anything: the seat from the
/// first line's leading digit, the cards from each line's third field,
/// sorted descending.
pub open spec fn spec_parse_pass(strs: Seq<Seq<char>>) -> Option<
    crate::game::gameevent::GameActionView,
> {
    if strs.len() == 0 || strs[0].len() < 1 || !is_digit(strs[0][0]) {
        None
    } else if exists|i: int| 0 <= i < strs.len() && !pass_line_ok(#[trigger] strs[i]) {
        None
    } else {
        let seat = PlaceAtTable((strs[0][0] as int - 48) as u8);
        let cards = Seq::new(strs.len(), |i: int| spec_parse_card(third_field(strs[i]))->Some_0);
        Some(crate::game::legal_actions::av_pass(sort_desc(cards), seat))
    }
}

/// Gather a four-line pass block into one pass action: the seat comes from
/// the first line's leading digit, the four cards from each line's third
/// field, sorted descending.
fn parse_pass(actions: &Vec<String>) -> (r: Result<GameAction, ParseError>)
    ensures
        (match spec_parse_pass(lines_view(actions@)) {
            Some(av) => r matches Ok(ga) && ga@ == av,
            None => r is Err,
        }),
{
    let ghost strs = lines_view(actions@);
    if actions.len() == 0 {
        return Err(ParseError::WrongActionFormat);
    }
    let first = actions[0].as_str();
    if first.unicode_len() < 1 {
        return Err(ParseError::WrongActionFormat);
    }
    let c0 = first.get_char(0);
    let c0u = c0 as u32;
    if c0u < 48 || c0u > 57 {
        return Err(ParseError::WrongActionFormat);
    }
    let seat = PlaceAtTable((c0u - 48) as u8);
    let mut cards: Vec<Card> = Vec::new();
    let mut i: usize = 0;
    while i < actions.len()
        invariant
            i <= strs.len(),
            strs == lines_view(actions@),
            cards@.len() == i,
            forall|k: int| 0 <= k < i ==> pass_line_ok(#[trigger] strs[k]),
            forall|k: int|
                0 <= k < i ==> #[trigger] cards@[k] == spec_parse_card(
                    third_field(strs[k]),
                )->Some_0,
        decreases actions@.len() - i,
    {
        let line = actions[i].as_str();
        let n = line.unicode_len();
        let c1 = find_comma(line, 0);
        if c1 >= n {
            proof {
                assert(!pass_line_ok(strs[i as int]));
            }
            return Err(ParseError::WrongActionFormat);
        }
        let c2 = find_comma(line, c1 + 1);
        if c2 >= n {
            proof {
                assert(!pass_line_ok(strs[i as int]));
            }
            return Err(ParseError::WrongActionFormat);
        }
        let card_str = line.substring_char(c2 + 1, n);
        proof {
            assert(card_str@ == third_field(strs[i as int]));
        }
        match parse_card(card_str.to_owned()) {
            Ok(c) => cards.push(c),
            Err(e) => {
                proof {
                    assert(!pass_line_ok(strs[i as int]));
                }
                return Err(e);
            },
        }
        i += 1;
    }
    let sorted = sort_cards_desc(&cards);
    proof {
        assert(cards@ =~= Seq::new(
            strs.len(),
            |k: int| spec_parse_card(third_field(strs[k]))->Some_0,
        ));
        assert(strs[0][0] == first@[0]);
    }
    Ok(GameAction { action_type: ActionType::Pass(sorted), player: seat })
}

fn count_passes(game: &Game) -> (r: usize)
    ensures
        r as int == pass_list(game@.all_events).len(),
{
    let ghost events_v = game@.all_events;
    let mut count: usize = 0;
    let mut i: usize = 0;
    proof {
        assert(pass_list(events_v.take(0)) =~= Seq::<Seq<Card>>::empty());
    }
    while i < game.all_events.len()
        invariant
            i <= events_v.len(),
            events_v == game@.all_events,
            count as int == pass_list(events_v.take(i as int)).len(),
            count <= i,
        decreases events_v.len() - i,
    {
        proof {
            assert(events_v.take(i + 1).drop_last() =~= events_v.take(i as int));
            assert(events_v.take(i + 1).last() == events_v[i as int]);
        }
        if matches!(&game.all_events[i].last_action.action_type, ActionType::Pass(_)) {
            count += 1;
        }
        i += 1;
    }
    proof {
        assert(events_v.take(events_v.len() as int) =~= events_v);
    }
    count
}

fn has_final_bid(game: &Game, v: i32) -> (r: bool)
    ensures
        r == (last_bidder(game@.all_events, v) is Some),
{
    let ghost events_v = game@.all_events;
    let mut found = false;
    let mut i: usize = 0;
    while i < game.all_events.len()
        invariant
            i <= events_v.len(),
            events_v == game@.all_events,
            found == (last_bidder(events_v.take(i as int), v) is Some),
        decreases events_v.len() - i,
    {
        proof {
            assert(events_v.take(i + 1).drop_last() =~= events_v.take(i as int));
            assert(events_v.take(i + 1).last() == events_v[i as int]);
        }
        let is_bid = match &game.all_events[i].last_action.action_type {
            ActionType::NewBid(w) => *w == v,
            _ => false,
        };
        if is_bid {
            found = true;
        }
        i += 1;
    }
    proof {
        assert(events_v.take(events_v.len() as int) =~= events_v);
    }
    found
}

/// Whether a legacy line is one line of a pass block.
pub open spec fn spec_is_pass_line(s: Seq<char>) -> bool {
    s.len() >= 6 && ((s[2] == 'P' && s[3] == 'A' && s[4] == 'S' && s[5] == 'S') || (s[2] == 'P'
        && s[3] == 'B' && s[4] == 'C' && s[5] == 'K'))
}

fn is_pass_line(action: &String) -> (r: bool)
    ensures
        r == spec_is_pass_line(action@),
{
    let s = action.as_str();
    if s.unicode_len() < 6 {
        return false;
    }
    let c2 = s.get_char(2);
    let c3 = s.get_char(3);
    let c4 = s.get_char(4);
    let c5 = s.get_char(5);
    (c2 == 'P' && c3 == 'A' && c4 == 'S' && c5 == 'S') || (c2 == 'P' && c3 == 'B' && c4 == 'C'
        && c5 == 'K')
}

/// One remembered step of an abstract replay: the action applied, the
/// callback it produced, and the seat to move afterwards. Unlike a logged
/// event it carries no timestamp, so a replay's outcome is a pure function
/// of its input.
#[verifier::ext_equal]
pub struct ReplayEntry {
    pub action: GameActionView,
    pub callback: Option<GameCallback>,
    pub mover: PlaceAtTable,
}

/// The whole abstract standing of a replayed game: its state, its undo
/// snapshot, and the log of steps taken so far.
#[verifier::ext_equal]
pub struct ReplayState {
    pub state: GameStateView,
    pub last: Option<GameStateView>,
    pub log: Seq<ReplayEntry>,
}

/// The abstract replay as a game view, with blank identity and timestamps:
/// legality and transitions never read those.
pub open spec fn replay_view(rs: ReplayState) -> GameView {
    GameView {
        info: GameMetaInfoView {
            name: Seq::empty(),
            create_time: Seq::empty(),
            start_time: None,
            end_time: None,
            player_names: Seq::empty(),
            player_start_cards: Seq::empty(),
        },
        state: rs.state,
        legal_actions: Seq::empty(),
        last_state: rs.last,
        all_events: rs.log.map_values(
            |e: ReplayEntry|
                GameEventView {
                    last_action: e.action,
                    callback: e.callback,
                    player_at_turn: e.mover,
                    time: Seq::empty(),
                },
        ),
    }
}

/// The legal actions of an abstract replay.
pub open spec fn replay_legal(rs: ReplayState) -> Seq<GameActionView> {
    spec_legal_actions(replay_view(rs))
}

/// One replay step: apply the action if it is legal, record the step;
/// discard it silently otherwise, as the replaying facade does.
pub open spec fn replay_apply(rs: ReplayState, a: GameActionView) -> ReplayState {
    if replay_legal(rs).contains(a) {
        let (ns, cb, nl) = spec_transition(replay_view(rs), a);
        ReplayState {
            state: ns,
            last: nl,
            log: rs.log.push(ReplayEntry { action: a, callback: cb, mover: ns.player_at_turn }),
        }
    } else {
        rs
    }
}

/// Whether a concrete game is the abstract replay with timestamps added:
/// same state, same snapshot, and a log that matches step for step.
pub open spec fn rs_matches(g: GameView, rs: ReplayState) -> bool {
    &&& g.state == rs.state
    &&& g.last_state == rs.last
    &&& g.all_events.len() == rs.log.len()
    &&& forall|i: int|
        0 <= i < rs.log.len() ==> (#[trigger] g.all_events[i]).last_action == rs.log[i].action
            && g.all_events[i].callback == rs.log[i].callback && g.all_events[i].player_at_turn
            == rs.log[i].mover
}

/// A concrete game and its abstract replay agree on legality and on every
/// legal transition: timestamps play no part in either.
proof fn lemma_replay_agrees(g: GameView, rs: ReplayState, a: GameActionView)
    requires
        rs_matches(g, rs),
        game_base_ok(g),
    ensures
        spec_legal_actions(g) == replay_legal(rs),
        spec_legal_actions(g).contains(a) ==> spec_transition(g, a) == spec_transition(
            replay_view(rs),
            a,
        ),
{
    let g2 = replay_view(rs);
    assert(g2.state == g.state && g2.last_state == g.last_state);
    match g.state.phase {
        GamePhase::AnsweringPair => {
            assert(g2.all_events.last().last_action == g.all_events.last().last_action);
            assert(crate::game::legal_actions::last_question(g)
                == crate::game::legal_actions::last_question(g2));
        },
        GamePhase::AnsweringHalf(_) => {
            assert(g2.all_events.last().last_action == g.all_events.last().last_action);
            assert(crate::game::legal_actions::last_question(g)
                == crate::game::legal_actions::last_question(g2));
        },
        _ => {},
    }
    assert(crate::game::legal_actions::spec_phase_actions(g)
        == crate::game::legal_actions::spec_phase_actions(g2));
    assert(spec_legal_actions(g) == spec_legal_actions(g2));
    if spec_legal_actions(g).contains(a) {
        match a.action_type {
            ActionTypeView::UndoAccept => {
                assert(crate::game::apply_action::apply_undo_accept(g, a.player)
                    == crate::game::apply_action::apply_undo_accept(g2, a.player));
            },
            ActionTypeView::UndoRequest => {
                assert(crate::game::apply_action::apply_undo_request(g)
                    == crate::game::apply_action::apply_undo_request(g2));
            },
            _ => {},
        }
        assert(spec_transition(g, a) == spec_transition(g2, a));
    }
}

/// The card bundles passed over an abstract replay, in step order.
pub open spec fn log_passes(log: Seq<ReplayEntry>) -> Seq<Seq<Card>>
    decreases log.len(),
{
    if log.len() == 0 {
        Seq::empty()
    } else {
        log_passes(log.drop_last()) + (match log.last().action.action_type {
            ActionTypeView::Pass(cards) => seq![cards],
            _ => Seq::empty(),
        })
    }
}

/// The seat of the last bid of a given value in an abstract replay, if any.
pub open spec fn log_last_bidder(log: Seq<ReplayEntry>, v: i32) -> Option<PlaceAtTable>
    decreases log.len(),
{
    if log.len() == 0 {
        None
    } else if log.last().action.action_type == ActionTypeView::NewBid(v) {
        Some(log.last().action.player)
    } else {
        log_last_bidder(log.drop_last(), v)
    }
}

/// The announcement bonuses of a seat over an abstract replay.
pub open spec fn log_bonus(log: Seq<ReplayEntry>, seat: int) -> int
    decreases log.len(),
{
    if log.len() == 0 {
        0
    } else {
        log_bonus(log.drop_last(), seat) + (match log.last().callback {
            Some(GameCallback::NewTrump(su)) => if log.last().action.player.0 == seat {
                crate::game::points::spec_points_pair(su)
            } else {
                0
            },
            _ => 0,
        })
    }
}

/// A real event log and its abstract replay log derive the same passes,
/// the same last bidder, and the same bonuses.
proof fn lemma_log_agrees(events: Seq<GameEventView>, log: Seq<ReplayEntry>, v: i32, seat: int)
    requires
        events.len() == log.len(),
        forall|i: int|
            0 <= i < log.len() ==> (#[trigger] events[i]).last_action == log[i].action
                && events[i].callback == log[i].callback,
    ensures
        pass_list(events) == log_passes(log),
        last_bidder(events, v) == log_last_bidder(log, v),
        seat_bonus(events, seat) == log_bonus(log, seat),
    decreases events.len(),
{
    if events.len() == 0 {
        assert(pass_list(events) =~= log_passes(log));
    } else {
        assert(forall|i: int|
            0 <= i < log.drop_last().len() ==> (#[trigger] events.drop_last()[i]).last_action
                == log.drop_last()[i].action && events.drop_last()[i].callback
                == log.drop_last()[i].callback);
        lemma_log_agrees(events.drop_last(), log.drop_last(), v, seat);
        assert(events.last().last_action == log.last().action);
        assert(pass_list(events) =~= log_passes(log));
    }
}

/// The fold the replaying facade performs over the action lines: a full
/// pass block is flushed into one pass action before the next line is read,
/// pass lines only collect, every other line is parsed and applied (a bid
/// of zero is skipped), and any line that fails to parse fails the whole
/// replay.
pub open spec fn replay_lines(
    rs: ReplayState,
    pending: Seq<Seq<char>>,
    lines: Seq<Seq<char>>,
) -> Option<(ReplayState, Seq<Seq<char>>)>
    decreases lines.len(),
{
    if lines.len() == 0 {
        Some((rs, pending))
    } else {
        let flushed = if pending.len() == 4 {
            match spec_parse_pass(pending) {
                Some(pa) => Some((replay_apply(rs, pa), Seq::<Seq<char>>::empty())),
                None => None,
            }
        } else {
            Some((rs, pending))
        };
        match flushed {
            None => None,
            Some((rs1, pending1)) => {
                let line = lines[0];
                if spec_is_pass_line(line) {
                    replay_lines(rs1, pending1.push(line), lines.drop_first())
                } else {
                    match spec_parse_action(line) {
                        None => None,
                        Some(av) => {
                            let rs2 = if av.action_type == ActionTypeView::NewBid(0) {
                                rs1
                            } else {
                                replay_apply(rs1, av)
                            };
                            replay_lines(rs2, pending1, lines.drop_first())
                        },
                    }
                }
            },
        }
    }
}

/// Whether nine card codes all parse.
pub open spec fn hand_codes_ok(codes: Seq<String>) -> bool {
    codes.len() == 9 && (forall|j: int|
        0 <= j < codes.len() ==> spec_parse_card((#[trigger] codes[j])@) is Some)
}

/// The hand written by nine card codes.
pub open spec fn parsed_hand(codes: Seq<String>) -> Seq<Card> {
    Seq::new(codes.len(), |j: int| spec_parse_card(codes[j]@)->Some_0)
}

/// The four parsed hands of a legacy record, in seat order.
pub open spec fn legacy_hands(data: LegacyGameFormat) -> Seq<Seq<Card>> {
    Seq::new(4, |seat: int| parsed_hand(data.cards@[seat]@))
}

/// The four player names of a legacy record.
pub open spec fn legacy_names(data: LegacyGameFormat) -> Seq<Seq<char>> {
    Seq::new(4, |i: int| data.players@[i]@)
}

/// The state of a replayed game once all four seats have pressed start:
/// bidding is open, every seat still bids, and the hands are the parsed
/// deal.
pub open spec fn legacy_start_state(names: Seq<Seq<char>>, hands: Seq<Seq<Card>>) -> GameStateView {
    GameStateView {
        phase: GamePhase::Bidding,
        started: true,
        players_started: seq![
            PlaceAtTable(0),
            PlaceAtTable(1),
            PlaceAtTable(2),
            PlaceAtTable(3),
        ],
        players_accept_undo: Seq::empty(),
        bidding_players: 4,
        bidding_history: Seq::empty(),
        trump: None,
        trump_called: Seq::empty(),
        player_at_turn: PlaceAtTable(0),
        players: Seq::new(4, |i: int| spec_fresh_player(names[i], hands[i], i)),
        value: Points(115),
        all_tricks: Seq::empty(),
        current_trick: Seq::empty(),
    }
}

/// The abstract replay of a legacy record just after the four starts.
pub open spec fn legacy_rs0(data: LegacyGameFormat) -> ReplayState {
    ReplayState {
        state: legacy_start_state(legacy_names(data), legacy_hands(data)),
        last: None,
        log: Seq::new(
            4,
            |i: int|
                ReplayEntry {
                    action: av_start(PlaceAtTable(i as u8)),
                    callback: None,
                    mover: PlaceAtTable(0),
                },
        ),
    }
}

/// The outcome of folding a legacy record's action lines over the engine.
pub open spec fn legacy_fold(data: LegacyGameFormat) -> Option<(ReplayState, Seq<Seq<char>>)> {
    replay_lines(legacy_rs0(data), Seq::empty(), lines_view(data.actions@))
}

/// Whether a finished abstract replay can be archived: it ended, it stays
/// inside the archive's numeric bounds, and a contested deal shows its two
/// passes and its final bid in the log.
pub open spec fn replay_archivable(rs: ReplayState) -> bool {
    &&& rs.state.phase is Ended
    &&& rs.log.len() <= 10000000
    &&& rs.state.all_tricks.len() <= 9
    &&& forall|i: int|
        0 <= i < rs.state.all_tricks.len() ==> (#[trigger] rs.state.all_tricks[i]).winner.0 < 4
            && 0 <= rs.state.all_tricks[i].points.0 <= 44
    &&& (rs.state.value.0 != 115 ==> log_passes(rs.log).len() >= 2 && log_last_bidder(
        rs.log,
        rs.state.value.0,
    ) is Some)
}

/// The whole parsed deal of a legacy record, hand after hand.
pub open spec fn legacy_deck(data: LegacyGameFormat) -> Seq<Card> {
    legacy_hands(data)[0] + legacy_hands(data)[1] + legacy_hands(data)[2] + legacy_hands(data)[3]
}

/// When a legacy record converts: four players, four clean nine-card
/// hands that together hold no card twice, every action line read, and a
/// replay that runs to an archivable end.
pub open spec fn legacy_ok(data: LegacyGameFormat) -> bool {
    &&& data.players@.len() == 4
    &&& forall|seat: int| 0 <= seat < 4 ==> hand_codes_ok((#[trigger] data.cards@[seat])@)
    &&& legacy_deck(data).no_duplicates()
    &&& match legacy_fold(data) {
        Some(p) => replay_archivable(p.0),
        None => false,
    }
}

/// The abstract replay a convertible legacy record runs to.
pub open spec fn legacy_replay(data: LegacyGameFormat) -> ReplayState {
    legacy_fold(data)->Some_0.0
}

/// After the facade applies an action in place, the concrete game still
/// matches the abstract replay stepped by the same action.
proof fn lemma_step_matches(
    g_before: GameView,
    g_after: GameView,
    rs: ReplayState,
    av: GameActionView,
)
    requires
        rs_matches(g_before, rs),
        game_base_ok(g_before),
        !spec_legal_actions(g_before).contains(av) ==> g_after == g_before,
        spec_legal_actions(g_before).contains(av) ==> ({
            let (ns, cb, nl) = spec_transition(g_before, av);
            &&& g_after.state == ns
            &&& g_after.last_state == nl
            &&& g_after.all_events.len() == g_before.all_events.len() + 1
            &&& g_after.all_events.drop_last() == g_before.all_events
            &&& g_after.all_events.last().last_action == av
            &&& g_after.all_events.last().callback == cb
            &&& g_after.all_events.last().player_at_turn == ns.player_at_turn
        }),
    ensures
        rs_matches(g_after, replay_apply(rs, av)),
{
    lemma_replay_agrees(g_before, rs, av);
    if spec_legal_actions(g_before).contains(av) {
        let rs2 = replay_apply(rs, av);
        assert(forall|i: int|
            0 <= i < g_before.all_events.len() ==> #[trigger] g_after.all_events[i]
                == g_before.all_events[i]) by {
            assert(forall|i: int|
                0 <= i < g_before.all_events.len() ==> #[trigger] g_after.all_events.drop_last()[i]
                    == g_after.all_events[i]);
        }
        assert(rs_matches(g_after, rs2));
    }
}

fn append_cards(dst: &mut Vec<Card>, src: &Vec<Card>)
    ensures
        final(dst)@ == old(dst)@ + src@,
{
    let mut i: usize = 0;
    let ghost base = dst@;
    proof {
        assert(dst@ =~= base + src@.take(0));
    }
    while i < src.len()
        invariant
            i <= src@.len(),
            dst@ == base + src@.take(i as int),
        decreases src@.len() - i,
    {
        dst.push(src[i]);
        proof {
            assert(base + src@.take(i + 1) =~= (base + src@.take(i as int)).push(
                src@[i as int],
            ));
        }
        i += 1;
    }
    proof {
        assert(src@.take(src@.len() as int) =~= src@);
    }
}

fn cards_nodup(v: &Vec<Card>) -> (r: bool)
    ensures
        r == v@.no_duplicates(),
{
    let mut i: usize = 0;
    while i < v.len()
        invariant
            i <= v@.len(),
            forall|a: int, b: int| 0 <= a < b < i ==> v@[a] != v@[b],
        decreases v@.len() - i,
    {
        let mut j: usize = 0;
        while j < i
            invariant
                j <= i < v@.len(),
                forall|a: int, b: int| 0 <= a < b < i ==> v@[a] != v@[b],
                forall|a: int| 0 <= a < j ==> v@[a] != v@[i as int],
            decreases i - j,
        {
            if v[j] == v[i] {
                return false;
            }
            j += 1;
        }
        i += 1;
    }
    true
}

/// Replay a historical game through the engine and archive the outcome.
/// It succeeds exactly when the record is convertible: four players, four
/// clean nine-card hands, action lines that all parse, and a replay that
/// runs to an archivable end — and then the record is the archive of that
/// replay, which is a pure function of the input. It fails on malformed
/// cards or actions, on a replay that stops short of the end of a game,
/// and on one outside the archive's bounds.
#[verifier::rlimit(100)]
pub fn parse_legacy_format(game_data: LegacyGameFormat) -> (r: Result<
    GameInfoDatabase,
    ParseError,
>)
    ensures
        r is Ok <==> legacy_ok(game_data),
        r matches Ok(db) ==> ({
            let rs = legacy_replay(game_data);
            &&& db.info@.name == game_data.name@
            &&& db.info@.create_time == game_data.created@
            &&& db.info@.start_time == Some(game_data.started@)
            &&& db.info@.end_time == Some(game_data.finished@)
            &&& db.game_value == rs.state.value
            &&& db.no_one_played == (rs.state.value.0 == 115)
            &&& db.schwarz_game == (crate::game::gameinfo::party_zero_tricks(rs.state.all_tricks)
                == 0 || crate::game::gameinfo::party_zero_tricks(rs.state.all_tricks) == 9)
            &&& db.tricks@.len() == rs.state.all_tricks.len()
            &&& (forall|i: int|
                0 <= i < rs.state.all_tricks.len() ==> (#[trigger] db.tricks@[i])@
                    == rs.state.all_tricks[i])
            &&& db.bidding_history@.len() == rs.state.bidding_history.len()
            &&& (forall|i: int|
                0 <= i < rs.state.bidding_history.len() ==> (#[trigger] db.bidding_history@[
                i]).0@ == rs.state.bidding_history[i].0 && db.bidding_history@[i].1
                    == rs.state.bidding_history[i].1)
            &&& db.all_events@.len() == rs.log.len()
            &&& (forall|i: int|
                0 <= i < rs.log.len() ==> (#[trigger] db.all_events@[i])@.last_action == rs.log[
                i].action && db.all_events@[i]@.callback == rs.log[i].callback)
            &&& (!db.no_one_played ==> ({
                let pp = log_last_bidder(rs.log, rs.state.value.0)->Some_0;
                let party = crate::game::player::spec_party(pp);
                let forth = log_passes(rs.log)[0];
                let back = log_passes(rs.log).last();
                &&& db.playing_party == Some(party)
                &&& (db.passed_cards matches Some(pc) && pc.0@ == forth && pc.1@ == back)
                &&& (db.after_passing matches Some(ap) && Seq::new(4, |i: int| ap@[i]@)
                    == crate::game::gameinfo::spec_after_passing(
                    legacy_hands(game_data),
                    pp,
                    forth,
                    back,
                ))
                &&& db.won == Some(
                    crate::game::gameinfo::seat_trick_points(rs.state.all_tricks, party.0 as int)
                        + log_bonus(rs.log, party.0 as int)
                        + crate::game::gameinfo::seat_trick_points(
                        rs.state.all_tricks,
                        party.0 + 2,
                    ) + log_bonus(rs.log, party.0 + 2) >= rs.state.value.0,
                )
            }))
        }),
{
    if game_data.players.len() != 4 {
        return Err(ParseError::WrongActionFormat);
    }
    let names: [String; 4] = [
        game_data.players[0].clone(),
        game_data.players[1].clone(),
        game_data.players[2].clone(),
        game_data.players[3].clone(),
    ];
    let mut hands: [Vec<Card>; 4] = [Vec::new(), Vec::new(), Vec::new(), Vec::new()];
    let mut seat: usize = 0;
    while seat < 4
        invariant
            seat <= 4,
            forall|k: int| 0 <= k < seat ==> hand_codes_ok((#[trigger] game_data.cards@[k])@),
            forall|k: int|
                0 <= k < seat ==> (#[trigger] hands@[k])@ == parsed_hand(game_data.cards@[k]@),
        decreases 4 - seat,
    {
        let codes = &game_data.cards[seat];
        if codes.len() != 9 {
            proof {
                assert(!hand_codes_ok(game_data.cards@[seat as int]@));
                assert(!legacy_ok(game_data));
            }
            return Err(ParseError::WrongCardFormat);
        }
        let mut hand: Vec<Card> = Vec::new();
        let mut i: usize = 0;
        while i < codes.len()
            invariant
                i <= codes@.len(),
                seat < 4,
                codes@ == game_data.cards@[seat as int]@,
                codes@.len() == 9,
                hand@.len() == i,
                forall|j: int|
                    0 <= j < i ==> spec_parse_card((#[trigger] codes@[j])@) is Some && hand@[j]
                        == spec_parse_card(codes@[j]@)->Some_0,
            decreases codes@.len() - i,
        {
            match parse_card(codes[i].clone()) {
                Ok(c) => hand.push(c),
                Err(e) => {
                    proof {
                        assert(!hand_codes_ok(game_data.cards@[seat as int]@));
                        assert(!legacy_ok(game_data));
                    }
                    return Err(e);
                },
            }
            i += 1;
        }
        proof {
            assert(hand@ =~= parsed_hand(game_data.cards@[seat as int]@));
        }
        hands[seat] = hand;
        seat += 1;
    }
    proof {
        assert(forall|k: int|
            0 <= k < 4 ==> (#[trigger] hands@[k])@ == legacy_hands(game_data)[k]);
    }
    let mut deck_check = crate::game::cards::copy_cards(&hands[0]);
    append_cards(&mut deck_check, &hands[1]);
    append_cards(&mut deck_check, &hands[2]);
    append_cards(&mut deck_check, &hands[3]);
    proof {
        assert(deck_check@ =~= legacy_deck(game_data));
    }
    if !cards_nodup(&deck_check) {
        proof {
            assert(!legacy_ok(game_data));
        }
        return Err(ParseError::WrongCardFormat);
    }
    let mut game_replay = Game::new(game_data.name.clone(), names, Some(hands));
    proof {
        assert(hands@[0]@ + hands@[1]@ + hands@[2]@ + hands@[3]@ =~= legacy_deck(game_data));
    }
    let ghost rs0 = legacy_rs0(game_data);
    let ghost g0 = game_replay@;

    proof {
        crate::game::legal_actions::lemma_start_legal(game_replay@, 0);
    }
    game_replay.apply_action_mutate_or_discard(
        GameAction { action_type: ActionType::Start, player: PlaceAtTable(0) },
    );
    let ghost g1 = game_replay@;
    proof {
        assert(g1.state == crate::game::apply_action::apply_start(g0.state, PlaceAtTable(0)));
        assert(!g1.state.players_started.contains(PlaceAtTable(1))) by {
            assert(g1.state.players_started =~= seq![PlaceAtTable(0)]);
        }
        crate::game::legal_actions::lemma_start_legal(g1, 1);
    }
    game_replay.apply_action_mutate_or_discard(
        GameAction { action_type: ActionType::Start, player: PlaceAtTable(1) },
    );
    let ghost g2 = game_replay@;
    proof {
        assert(g2.state == crate::game::apply_action::apply_start(g1.state, PlaceAtTable(1)));
        assert(!g2.state.players_started.contains(PlaceAtTable(2))) by {
            assert(g2.state.players_started =~= seq![PlaceAtTable(0), PlaceAtTable(1)]);
        }
        crate::game::legal_actions::lemma_start_legal(g2, 2);
    }
    game_replay.apply_action_mutate_or_discard(
        GameAction { action_type: ActionType::Start, player: PlaceAtTable(2) },
    );
    let ghost g3 = game_replay@;
    proof {
        assert(g3.state == crate::game::apply_action::apply_start(g2.state, PlaceAtTable(2)));
        assert(!g3.state.players_started.contains(PlaceAtTable(3))) by {
            assert(g3.state.players_started =~= seq![
                PlaceAtTable(0),
                PlaceAtTable(1),
                PlaceAtTable(2),
            ]);
        }
        crate::game::legal_actions::lemma_start_legal(g3, 3);
    }
    game_replay.apply_action_mutate_or_discard(
        GameAction { action_type: ActionType::Start, player: PlaceAtTable(3) },
    );
    proof {
        assert(game_replay@.state.players_started =~= seq![
            PlaceAtTable(0),
            PlaceAtTable(1),
            PlaceAtTable(2),
            PlaceAtTable(3),
        ]);
        assert(game_replay@.state.players =~= rs0.state.players);
        assert(game_replay@.state =~~= rs0.state);
        assert(rs_matches(game_replay@, rs0)) by {
            assert(forall|i: int|
                0 <= i < 4 ==> (#[trigger] rs0.log[i]).action == av_start(PlaceAtTable(i as u8))
                    && rs0.log[i].callback == None::<GameCallback> && rs0.log[i].mover
                    == PlaceAtTable(0));
        }
        assert(game_replay@.info.player_start_cards =~= legacy_hands(game_data));
    }

    let ghost lines = lines_view(game_data.actions@);
    let ghost overall = legacy_fold(game_data);
    let ghost mut rs = rs0;
    let ghost mut pending = Seq::<Seq<char>>::empty();
    let mut pass_collect: Vec<String> = Vec::new();
    let mut ai: usize = 0;
    proof {
        assert(lines.skip(0) =~= lines);
    }
    while ai < game_data.actions.len()
        invariant
            ai <= lines.len(),
            lines == lines_view(game_data.actions@),
            overall == legacy_fold(game_data),
            overall == replay_lines(rs, pending, lines.skip(ai as int)),
            game_ok(game_replay@),
            rs_matches(game_replay@, rs),
            pending.len() == pass_collect@.len(),
            forall|i: int| 0 <= i < pending.len() ==> pending[i] == (#[trigger] pass_collect@[i])@,
            game_replay@.info.name == game_data.name@,
            game_replay@.info.player_start_cards == legacy_hands(game_data),
            game_data.players@.len() == 4,
        decreases lines.len() - ai,
    {
        let action = &game_data.actions[ai];
        proof {
            assert(lines.skip(ai as int)[0] == lines[ai as int]);
            assert(lines[ai as int] == action@);
            assert(lines.skip(ai as int).drop_first() =~= lines.skip(ai + 1));
        }
        if pass_collect.len() == 4 {
            proof {
                assert(pending =~= lines_view(pass_collect@));
            }
            match parse_pass(&pass_collect) {
                Ok(a) => {
                    let ghost av = spec_parse_pass(pending)->Some_0;
                    let ghost g_before = game_replay@;
                    proof {
                        lemma_replay_agrees(g_before, rs, av);
                    }
                    game_replay.apply_action_mutate_or_discard(a);
                    proof {
                        lemma_step_matches(g_before, game_replay@, rs, av);
                        rs = replay_apply(rs, av);
                        pending = Seq::<Seq<char>>::empty();
                    }
                    pass_collect = Vec::new();
                },
                Err(e) => {
                    proof {
                        assert(replay_lines(rs, pending, lines.skip(ai as int)) == None::<(
                            ReplayState,
                            Seq<Seq<char>>,
                        )>);
                        assert(!legacy_ok(game_data));
                    }
                    return Err(e);
                },
            }
        }
        if is_pass_line(action) {
            pass_collect.push(action.clone());
            proof {
                pending = pending.push(lines[ai as int]);
            }
            ai += 1;
            continue ;
        }
        let new_action = match parse_action(action) {
            Ok(a) => a,
            Err(e) => {
                proof {
                    assert(spec_parse_action(action@) is None);
                    assert(replay_lines(rs, pending, lines.skip(ai as int)) == None::<(
                        ReplayState,
                        Seq<Seq<char>>,
                    )>);
                    assert(!legacy_ok(game_data));
                }
                return Err(e);
            },
        };
        let ghost av = spec_parse_action(action@)->Some_0;
        let skip = match &new_action.action_type {
            ActionType::NewBid(v) => *v == 0,
            _ => false,
        };
        proof {
            assert(skip == (av.action_type == ActionTypeView::NewBid(0)));
        }
        if !skip {
            let ghost g_before = game_replay@;
            proof {
                lemma_replay_agrees(g_before, rs, av);
            }
            game_replay.apply_action_mutate_or_discard(new_action);
            proof {
                lemma_step_matches(g_before, game_replay@, rs, av);
                rs = replay_apply(rs, av);
            }
        }
        ai += 1;
    }
    proof {
        assert(lines.skip(lines.len() as int) =~= Seq::<Seq<char>>::empty());
        assert(overall == Some((rs, pending)));
    }

    if !game_replay.ended() {
        proof {
            assert(!replay_archivable(rs));
            assert(!legacy_ok(game_data));
        }
        return Err(ParseError::IncompleteGame);
    }
    if game_replay.all_events.len() > 10000000 {
        proof {
            assert(!replay_archivable(rs));
            assert(!legacy_ok(game_data));
        }
        return Err(ParseError::IllegalReplay);
    }
    if game_replay.state.all_tricks.len() > 9 {
        proof {
            assert(!replay_archivable(rs));
            assert(!legacy_ok(game_data));
        }
        return Err(ParseError::IllegalReplay);
    }
    let mut t: usize = 0;
    while t < game_replay.state.all_tricks.len()
        invariant
            t <= game_replay.state.all_tricks@.len(),
            game_ok(game_replay@),
            rs_matches(game_replay@, rs),
            overall == legacy_fold(game_data),
            overall == Some((rs, pending)),
            game_replay@.info.name == game_data.name@,
            game_replay@.info.player_start_cards == legacy_hands(game_data),
            game_data.players@.len() == 4,
            game_replay@.state.phase is Ended,
            game_replay@.all_events.len() <= 10000000,
            game_replay@.state.all_tricks.len() <= 9,
            forall|k: int|
                0 <= k < t ==> (#[trigger] game_replay@.state.all_tricks[k]).winner.0 < 4 && 0
                    <= game_replay@.state.all_tricks[k].points.0 <= 44,
        decreases game_replay.state.all_tricks@.len() - t,
    {
        let trick = &game_replay.state.all_tricks[t];
        if trick.winner.0 >= 4 || trick.points.0 < 0 || trick.points.0 > 44 {
            proof {
                assert(trick@ == rs.state.all_tricks[t as int]);
                assert(!((rs.state.all_tricks[t as int]).winner.0 < 4 && 0 <= rs.state.all_tricks[
                    t as int].points.0 <= 44));
                assert(!replay_archivable(rs));
                assert(!legacy_ok(game_data));
            }
            return Err(ParseError::IllegalReplay);
        }
        t += 1;
    }
    proof {
        lemma_log_agrees(game_replay@.all_events, rs.log, game_replay.state.value.0, 0);
    }
    if game_replay.state.value.0 != 115 {
        if count_passes(&game_replay) < 2 {
            proof {
                assert(!replay_archivable(rs));
                assert(!legacy_ok(game_data));
            }
            return Err(ParseError::IncompleteGame);
        }
        if !has_final_bid(&game_replay, game_replay.state.value.0) {
            proof {
                assert(!replay_archivable(rs));
                assert(!legacy_ok(game_data));
            }
            return Err(ParseError::IncompleteGame);
        }
    }
    proof {
        assert(replay_archivable(rs));
        assert(legacy_ok(game_data));
        assert(legacy_replay(game_data) == rs);
        if game_replay.state.value.0 != 115 {
            let pp = log_last_bidder(rs.log, rs.state.value.0)->Some_0;
            let party = crate::game::player::spec_party(pp);
            lemma_log_agrees(game_replay@.all_events, rs.log, rs.state.value.0, party.0 as int);
            lemma_log_agrees(game_replay@.all_events, rs.log, rs.state.value.0, party.0 + 2);
        }
    }
    let mut game_db = GameInfoDatabase::from_game(game_replay);
    game_db.set_times(
        game_data.created.clone(),
        game_data.started.clone(),
        game_data.finished.clone(),
    );
    Ok(game_db)
}

} // verus!
