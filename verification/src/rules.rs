//! What a turn does to a game, stated over the game's view.
//!
//! A turn is a selection followed by an update. The selection changes the
//! selected tile: it sets or clears a flag, or uncovers the tile. The update
//! counts the turn, ends the game if a mine was uncovered, lets an uncovered
//! tile that shows no mine around it open the region around it, and checks
//! whether the game is won.

use vstd::prelude::*;
use crate::cascade::{
    cascade,
    cascade_reaches,
    lemma_cascade_spares_mines_and_flags,
    lemma_hint_bound,
    uncovered,
};
use crate::grid::{hint, lemma_hint_depends_on_mines_only, same_mines};
use crate::input_handler::InputMode;
use crate::placement::{lemma_placement_total, lesser, placement};
use crate::grid::mine_total;
use crate::state::{blank_tiles, GameView, Phase};
use crate::tile::{Tile, EXPLODED_HINT};

verus! {

/// What a player does to a tile.
#[derive(Debug, PartialEq, Eq, Clone, Copy, Structural)]
pub enum Action {
    /// Uncover the tile.
    Reveal,
    /// Put a flag on the tile, or take it off.
    ToggleFlag,
}

/// Why a request was turned down. The game is unchanged in each case.
#[derive(Debug, PartialEq, Eq, Clone, Copy, Structural)]
pub enum GameError {
    /// The position is not on the board, the tile is already revealed, or
    /// the tile is flagged and the player has not confirmed to uncover it.
    InvalidSelection,
    /// The game is already lost or won.
    InvalidPhase,
    /// There are more mines than tiles.
    ConfigurationError,
}

impl Action {
    /// The input mode that stands for this action.
    pub open spec fn mode(self) -> InputMode {
        match self {
            Action::Reveal => InputMode::Clear,
            Action::ToggleFlag => InputMode::Flag,
        }
    }

    pub fn input_mode(&self) -> (mode: InputMode)
        ensures
            mode == self.mode(),
    {
        match self {
            Action::Reveal => InputMode::Clear,
            Action::ToggleFlag => InputMode::Flag,
        }
    }
}

impl InputMode {
    /// The action this mode asks for; to withdraw a selection asks for none.
    pub fn action(&self) -> (action: Option<Action>)
        ensures
            action == match *self {
                InputMode::Clear => Some(Action::Reveal),
                InputMode::Flag => Some(Action::ToggleFlag),
                InputMode::Undo => None,
            },
    {
        match self {
            InputMode::Clear => Some(Action::Reveal),
            InputMode::Flag => Some(Action::ToggleFlag),
            InputMode::Undo => None,
        }
    }
}

/// Every safe tile is uncovered and every mine is still hidden.
pub open spec fn all_settled(tiles: Seq<Tile>) -> bool {
    forall|c: int| 0 <= c < tiles.len() ==> #[trigger] tiles[c].settled()
}

/// The board as it is shown when the game is lost: every hidden mine is
/// uncovered, flagged or not; nothing else changes.
pub open spec fn expose_mines(tiles: Seq<Tile>) -> Seq<Tile> {
    Seq::new(tiles.len(), |c: int| tiles[c].exposed())
}

/// Every revealed tile without a mine shows the number of mines around it.
pub open spec fn hints_true(tiles: Seq<Tile>, w: int, h: int) -> bool {
    forall|c: int|
        0 <= c < tiles.len() ==> (#[trigger] tiles[c] matches Tile::Revealed {
            has_mine: false,
            hint: shown,
        } ==> shown == hint(tiles, w, h, c))
}

impl GameView {
    /// A game about to begin on a board of `width` by `height` tiles with a
    /// budget of `mines` mines: no turn played, neither lost nor won, all mines
    /// remaining, and the mines laid under as many different tiles as the
    /// budget asks for, or under every tile if it asks for more.
    pub open spec fn fresh(self, width: nat, height: nat, mines: nat) -> bool {
        &&& self.width == width
        &&& self.height == height
        &&& self.starting_mines == mines
        &&& self.mine_count == mines
        &&& self.turn_count == 0
        &&& !self.game_over
        &&& !self.game_won
        &&& placement(
            blank_tiles(width * height),
            self.tiles,
            lesser(mines, width * height),
        )
    }

    /// The tile that `action` makes of the hidden tile at `index`.
    pub open spec fn acted_on(self, index: int, action: Action) -> Tile {
        let tile = self.tiles[index];
        match action {
            Action::ToggleFlag => Tile::Hidden { has_mine: tile.mined(), flagged: !tile.flagged() },
            Action::Reveal => if tile.mined() {
                Tile::Revealed { has_mine: true, hint: EXPLODED_HINT }
            } else {
                uncovered(self.tiles, self.width as int, self.height as int, index)
            },
        }
    }

    /// The mines remaining after `action` on the hidden tile at `index`: one
    /// less for a flag set, unless none remain; one more for a flag cleared,
    /// unless all remain; unchanged when the tile is uncovered.
    pub open spec fn mines_left_after(self, index: int, action: Action) -> nat {
        match action {
            Action::ToggleFlag => if self.tiles[index].flagged() {
                if self.mine_count < self.starting_mines {
                    self.mine_count + 1
                } else {
                    self.mine_count
                }
            } else {
                if self.mine_count > 0 {
                    (self.mine_count - 1) as nat
                } else {
                    self.mine_count
                }
            },
            Action::Reveal => self.mine_count,
        }
    }

    /// The selection is turned down: the position is off the board, the tile
    /// there is already revealed, or it is flagged and the player has not
    /// confirmed to uncover it.
    pub open spec fn refuses(self, index: int, action: Action, confirmed: bool) -> bool {
        ||| !(0 <= index < self.tiles.len())
        ||| self.tiles[index] is Revealed
        ||| action == Action::Reveal && self.tiles[index].flagged() && !confirmed
    }

    /// The game after the tile at `index` is selected and `action` done to it.
    pub open spec fn select(self, index: int, action: Action) -> GameView {
        GameView {
            tiles: self.tiles.update(index, self.acted_on(index, action)),
            mine_count: self.mines_left_after(index, action),
            selected: Some(index as nat),
            input_mode: action.mode(),
            ..self
        }
    }

    /// The selected tile is an uncovered mine.
    pub open spec fn exploded(self) -> bool {
        self.selected matches Some(index) && self.tiles[index as int] matches Tile::Revealed {
            has_mine: true,
            ..
        }
    }

    /// The selected tile was uncovered and opens the region around it: it is
    /// no mine, the player asked to uncover it, and it shows no mine around.
    pub open spec fn opens_region(self) -> bool {
        &&& !self.exploded()
        &&& self.input_mode == InputMode::Clear
        &&& self.selected matches Some(index) && hint(
            self.tiles,
            self.width as int,
            self.height as int,
            index as int,
        ) == 0
    }

    /// The tiles after the update that follows a selection.
    pub open spec fn settle_tiles(self) -> Seq<Tile> {
        if self.exploded() {
            expose_mines(self.tiles)
        } else if self.opens_region() {
            cascade(
                self.tiles,
                self.width as int,
                self.height as int,
                self.selected.unwrap() as int,
            )
        } else {
            self.tiles
        }
    }

    /// The game after the update that follows a selection: one turn more;
    /// lost if the selected tile is an uncovered mine; won if every tile is
    /// settled then.
    pub open spec fn update(self) -> GameView {
        GameView {
            turn_count: self.turn_count + 1,
            game_over: self.game_over || self.exploded(),
            game_won: self.game_won || all_settled(self.settle_tiles()),
            tiles: self.settle_tiles(),
            ..self
        }
    }

    /// The game after a whole turn.
    pub open spec fn play(self, index: int, action: Action) -> GameView {
        self.select(index, action).update()
    }
}

/// A game about to begin is well formed and in play. Its board has as many
/// mines as the budget asks for, or one under every tile if the budget asks
/// for more. Every tile is hidden and none is flagged.
pub proof fn lemma_fresh_game(game: GameView, width: nat, height: nat, mines: nat)
    requires
        game.fresh(width, height, mines),
    ensures
        game.wf(),
        game.phase() == Phase::Playing,
        mine_total(game.tiles) == lesser(mines, width * height),
        forall|c: int|
            0 <= c < game.tiles.len() ==> #[trigger] game.tiles[c] is Hidden
                && !game.tiles[c].flagged(),
        hints_true(game.tiles, width as int, height as int),
{
    let blank = blank_tiles(width * height);
    let count = lesser(mines, width * height);
    lemma_placement_total(blank, game.tiles, count);
    assert forall|c: int| 0 <= c < game.tiles.len() implies #[trigger] game.tiles[c] is Hidden
        && !game.tiles[c].flagged() by {
        assert(game.tiles[c] is Hidden && game.tiles[c].flagged() == blank[c].flagged());
    }
    assert forall|c: int| 0 <= c < game.tiles.len() implies (#[trigger] game.tiles[c] matches Tile::Revealed {
        has_mine: false,
        hint: shown,
    } ==> shown == hint(game.tiles, width as int, height as int, c)) by {
        assert(game.tiles[c] is Hidden);
    }
}

/// A board without mines on which every tile is revealed is won, and so is a
/// board on which one mine is hidden and every other tile is revealed
/// without a mine.
pub proof fn lemma_win_condition(tiles: Seq<Tile>, mine: int)
    ensures
        (forall|c: int| 0 <= c < tiles.len() ==> #[trigger] tiles[c] is Revealed
            && !tiles[c].mined()) ==> all_settled(tiles),
        (0 <= mine < tiles.len() && tiles[mine] is Hidden && tiles[mine].mined() && (forall|c: int|
            0 <= c < tiles.len() && c != mine ==> #[trigger] tiles[c] is Revealed
                && !tiles[c].mined())) ==> all_settled(tiles),
{
    if forall|c: int| 0 <= c < tiles.len() ==> #[trigger] tiles[c] is Revealed && !tiles[c].mined() {
        assert forall|c: int| 0 <= c < tiles.len() implies #[trigger] tiles[c].settled() by {
            assert(tiles[c] is Revealed && !tiles[c].mined());
        }
    }
    if 0 <= mine < tiles.len() && tiles[mine] is Hidden && tiles[mine].mined() && (forall|c: int|
        0 <= c < tiles.len() && c != mine ==> #[trigger] tiles[c] is Revealed && !tiles[c].mined()) {
        assert forall|c: int| 0 <= c < tiles.len() implies #[trigger] tiles[c].settled() by {
            if c != mine {
                assert(tiles[c] is Revealed && !tiles[c].mined());
            }
        }
    }
}

/// A board is won exactly when no safe tile is hidden and no mine is
/// revealed. Flags do not count.
pub proof fn lemma_win_ignores_flags(tiles: Seq<Tile>)
    ensures
        all_settled(tiles) <==> forall|c: int|
            0 <= c < tiles.len() ==> (#[trigger] tiles[c] is Hidden <==> tiles[c].mined()),
{
    if all_settled(tiles) {
        assert forall|c: int| 0 <= c < tiles.len() implies (#[trigger] tiles[c] is Hidden
            <==> tiles[c].mined()) by {
            assert(tiles[c].settled());
        }
    }
    if forall|c: int| 0 <= c < tiles.len() ==> (#[trigger] tiles[c] is Hidden <==> tiles[c].mined()) {
        assert forall|c: int| 0 <= c < tiles.len() implies #[trigger] tiles[c].settled() by {
            assert(tiles[c] is Hidden <==> tiles[c].mined());
        }
    }
}

/// A turn leaves the mines where they are, so the hint of every cell is the
/// same after the turn as before it, whatever was uncovered or flagged.
pub proof fn lemma_turn_keeps_hints(game: GameView, index: int, action: Action, c: int)
    requires
        game.wf(),
        0 <= index < game.tiles.len(),
    ensures
        same_mines(game.tiles, game.select(index, action).tiles),
        same_mines(game.tiles, game.play(index, action).tiles),
        hint(game.play(index, action).tiles, game.width as int, game.height as int, c) == hint(
            game.tiles,
            game.width as int,
            game.height as int,
            c,
        ),
{
    let w = game.width as int;
    let h = game.height as int;
    let chosen = game.select(index, action);
    assert(same_mines(game.tiles, chosen.tiles));
    let done = chosen.update();
    if chosen.exploded() {
        assert(same_mines(chosen.tiles, done.tiles));
    } else if chosen.opens_region() {
        lemma_cascade_spares_mines_and_flags(chosen.tiles, w, h, index);
    }
    assert(same_mines(game.tiles, done.tiles));
    lemma_hint_depends_on_mines_only(game.tiles, done.tiles, w, h, c);
}

/// A turn keeps the mines remaining between zero and the mine budget, and
/// keeps one tile for each position of the board.
pub proof fn lemma_turn_keeps_count_in_range(game: GameView, index: int, action: Action)
    requires
        game.wf(),
        0 <= index < game.tiles.len(),
    ensures
        game.select(index, action).wf(),
        game.play(index, action).wf(),
        0 <= game.play(index, action).mine_count <= game.starting_mines,
        game.play(index, action).starting_mines == game.starting_mines,
        game.play(index, action).mine_count == game.mines_left_after(index, action),
{
}

/// A turn counts once, however many tiles it uncovers.
pub proof fn lemma_turn_counts_once(game: GameView, index: int, action: Action)
    ensures
        game.play(index, action).turn_count == game.turn_count + 1,
{
}

/// If every number shown on the board is the true number of mines around
/// its tile, the same holds after a turn.
pub proof fn lemma_turn_keeps_hints_true(game: GameView, index: int, action: Action)
    requires
        game.wf(),
        0 <= index < game.tiles.len(),
        game.tiles[index] is Hidden,
        hints_true(game.tiles, game.width as int, game.height as int),
    ensures
        hints_true(game.play(index, action).tiles, game.width as int, game.height as int),
{
    let w = game.width as int;
    let h = game.height as int;
    let chosen = game.select(index, action);
    let done = chosen.update();
    if w == 0 {
        assert(w * h == 0) by (nonlinear_arith)
            requires
                w == 0,
        ;
    }
    assert forall|c: int| 0 <= c < done.tiles.len() implies (#[trigger] done.tiles[c] matches Tile::Revealed {
        has_mine: false,
        hint: shown,
    } ==> shown == hint(done.tiles, w, h, c)) by {
        lemma_turn_keeps_hints(game, index, action, c);
        lemma_hint_depends_on_mines_only(game.tiles, chosen.tiles, w, h, c);
        lemma_hint_bound(game.tiles, w, h, c);
        assert(game.tiles[c] matches Tile::Revealed { has_mine: false, hint: shown } ==> shown
            == hint(game.tiles, w, h, c));
        if chosen.exploded() {
        } else if chosen.opens_region() {
            lemma_cascade_spares_mines_and_flags(chosen.tiles, w, h, index);
            if cascade_reaches(chosen.tiles, w, h, index, c) {
            } else {
                assert(done.tiles[c] == chosen.tiles[c]);
            }
        }
    }
}

/// When a mine is uncovered the game is lost, and every mine of the board
/// is shown as an uncovered mine; the other tiles are as they were.
pub proof fn lemma_mine_ends_game(game: GameView, index: int, c: int)
    requires
        0 <= index < game.tiles.len(),
        game.tiles[index] is Hidden,
        game.tiles[index].mined(),
        0 <= c < game.tiles.len(),
    ensures
        game.play(index, Action::Reveal).phase() == Phase::Lost,
        game.tiles[c].mined() && game.tiles[c] is Hidden ==> game.play(index, Action::Reveal).tiles[c]
            == (Tile::Revealed { has_mine: true, hint: EXPLODED_HINT }),
        c != index && !(game.tiles[c].mined() && game.tiles[c] is Hidden) ==> game.play(
            index,
            Action::Reveal,
        ).tiles[c] == game.tiles[c],
{
}

} // verus!
