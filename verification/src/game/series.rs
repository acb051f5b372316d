use vstd::prelude::*;

use crate::game::copy_game;
use crate::game::current_time_string;
use crate::game::game_ok;
use crate::game::gameevent::GameAction;
use crate::game::gameinfo::GameInfoPlayer;
use crate::game::player::PlaceAtTable;
use crate::game::spec_legal_actions;
use crate::game::Game;
use crate::game::GameView;

verus! {

/// Tunable bookkeeping of a multi-game series; the engine itself never
/// reads these.
pub struct SeriesSettings {
    pub games: i32,
    pub schwarzfactor_fifths: i32,
    pub shuffle_players: bool,
    pub bonus_at: i32,
    pub bonus_value: i32,
    pub diff_plus_minus: bool,
    pub diff_divisor: i32,
}

impl Default for SeriesSettings {
    /// The customary table settings.
    fn default() -> (r: Self)
        ensures
            r.games == 4,
            r.schwarzfactor_fifths == 10,
            r.shuffle_players,
            r.bonus_at == 500,
            r.bonus_value == 300,
            r.diff_plus_minus,
            r.diff_divisor == 5,
    {
        SeriesSettings {
            games: 4,
            schwarzfactor_fifths: 10,
            shuffle_players: true,
            bonus_at: 500,
            bonus_value: 300,
            diff_plus_minus: true,
            diff_divisor: 5,
        }
    }
}

/// A run of several games between the same four players, played one at a
/// time.
pub struct Series {
    name: String,
    created: String,
    finished: Option<String>,
    num_of_games: u32,
    games: Vec<Game>,
    players_names: [String; 4],
    settings: SeriesSettings,
}

impl Series {
    /// A series always holds at least one game, and every game it holds
    /// satisfies the engine's invariant.
    pub closed spec fn wf(&self) -> bool {
        &&& self.games@.len() >= 1
        &&& forall|i: int| 0 <= i < self.games@.len() ==> game_ok((#[trigger] self.games@[i])@)
    }

    /// How many games the series has dealt so far.
    pub closed spec fn game_count(&self) -> nat {
        self.games@.len()
    }

    /// How many games the series is set to play.
    pub closed spec fn planned_games(&self) -> nat {
        self.num_of_games as nat
    }

    /// The running game: the one dealt most recently.
    pub closed spec fn active_game(&self) -> GameView {
        self.games@.last()@
    }

    /// Open a series: remember the table, and deal the first game in the
    /// waiting phase under the series' name.
    pub fn new(
        name: String,
        players_names: [String; 4],
        num_of_games: u32,
        settings: Option<SeriesSettings>,
    ) -> (r: Series)
        ensures
            r.wf(),
            r.game_count() == 1,
            r.planned_games() == num_of_games,
            game_ok(r.active_game()),
            r.active_game().state.phase is WaitingForStart,
            r.active_game().info.name == name@,
            forall|i: int|
                0 <= i < 4 ==> r.active_game().info.player_names[i] == (#[trigger] players_names@[
                i])@,
    {
        let name_copy = name.clone();
        let names_copy = [
            players_names[0].clone(),
            players_names[1].clone(),
            players_names[2].clone(),
            players_names[3].clone(),
        ];
        let first_game = Game::new(name, names_copy, None);
        let mut games: Vec<Game> = Vec::new();
        games.push(first_game);
        Series {
            name: name_copy,
            created: current_time_string(),
            finished: None,
            players_names,
            num_of_games,
            games,
            settings: match settings {
                Some(s) => s,
                None => SeriesSettings::default(),
            },
        }
    }

    /// The running game, from the asking seat's perspective. Yields nothing
    /// once the planned number of games has been dealt; otherwise it deals
    /// a fresh game first if the previous one has ended, and returns the
    /// active game projected through `GameInfoPlayer::from_game`.
    pub fn active_game_info(&mut self, player: PlaceAtTable) -> (r: Option<GameInfoPlayer>)
        requires
            old(self).wf(),
            player.0 < 4,
        ensures
            final(self).wf(),
            final(self).planned_games() == old(self).planned_games(),
            r is None <==> old(self).game_count() >= old(self).planned_games(),
            r is None ==> final(self).game_count() == old(self).game_count() && final(self).active_game() == old(self).active_game(),
            r matches Some(info) ==> ({
                &&& (old(self).active_game().state.phase is Ended ==> final(self).game_count()
                    == old(self).game_count() + 1 && final(self).active_game().state.phase is WaitingForStart)
                &&& (!(old(self).active_game().state.phase is Ended) ==> final(self).game_count()
                    == old(self).game_count() && final(self).active_game() == old(
                    self,
                ).active_game())
                &&& info.game_phase == final(self).active_game().state.phase
                &&& crate::game::gameevent::actions_view(info.legal_actions@) == final(self).active_game().legal_actions
                &&& (final(self).active_game().state.started ==> (info.own_cards matches Some(
                    cards,
                ) && cards@ == final(self).active_game().state.players[player.0 as int].cards))
                &&& (!final(self).active_game().state.started ==> info.own_cards is None)
                &&& info.player_at_turn@ == final(self).active_game().state.players[final(self).active_game().state.player_at_turn.0 as int].name
            }),
    {
        if self.games.len() >= self.num_of_games as usize {
            return None;
        }
        let last_index = self.games.len() - 1;
        if self.games[last_index].ended() {
            let names_copy = [
                self.players_names[0].clone(),
                self.players_names[1].clone(),
                self.players_names[2].clone(),
                self.players_names[3].clone(),
            ];
            self.games.push(Game::new(self.name.clone(), names_copy, None));
        }
        let last_index = self.games.len() - 1;
        let game_copy = copy_game(&self.games[last_index]);
        Some(GameInfoPlayer::from_game(game_copy, player))
    }

    /// Submit an action to the running game: the game advances exactly as
    /// `apply_action` dictates; an illegal action is discarded and nothing
    /// changes.
    pub fn active_game_apply(&mut self, action: GameAction)
        requires
            old(self).wf(),
        ensures
            final(self).wf(),
            final(self).game_count() == old(self).game_count(),
            final(self).planned_games() == old(self).planned_games(),
            spec_legal_actions(old(self).active_game()).contains(action@) ==> ({
                let (ns, cb, nl) = crate::game::apply_action::spec_transition(
                    old(self).active_game(),
                    action@,
                );
                &&& final(self).active_game().state == ns
                &&& final(self).active_game().last_state == nl
                &&& final(self).active_game().all_events.len() == old(
                    self,
                ).active_game().all_events.len() + 1
                &&& final(self).active_game().all_events.last().last_action == action@
            }),
            !spec_legal_actions(old(self).active_game()).contains(action@) ==> final(self).active_game() == old(self).active_game(),
    {
        let last_index = self.games.len() - 1;
        let current = copy_game(&self.games[last_index]);
        let mut next = current;
        next.apply_action_mutate_or_discard(action);
        self.games[last_index] = next;
    }
}

} // verus!
