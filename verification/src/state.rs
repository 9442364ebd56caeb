//! The game state: board dimensions, counters, phase flags and the tiles.

use vstd::prelude::*;
use vstd::string::StringExecFns;
use crate::grid::lemma_row_col;
use crate::input_handler::InputMode;
use crate::tile::Tile;

verus! {

/// What the program is doing: choosing a difficulty, playing, or leaving.
#[derive(Debug, PartialEq, Eq, Clone, Copy, Structural)]
pub enum GameMode {
    Config,
    Play,
    Quit,
}

/// The three board sizes on offer.
#[derive(Debug, PartialEq, Eq, Clone, Copy, Structural)]
pub enum Difficulty {
    Easy,
    Medium,
    Hard,
}

/// Where a game stands. `Lost` and `Won` are final.
#[derive(Debug, PartialEq, Eq, Clone, Copy, Structural)]
pub enum Phase {
    Playing,
    Lost,
    Won,
}

/// Everything a game holds.
pub struct GameState {
    game_mode: GameMode,
    game_over: bool,
    game_won: bool,
    board_width: u32,
    board_height: u32,
    starting_mines: u32,
    mine_count: u32,
    turn_count: u32,
    tiles: Vec<Tile>,
    selected_tile: Option<usize>,
    input_mode: InputMode,
}

/// The mathematical content of a [`GameState`].
pub struct GameView {
    pub game_mode: GameMode,
    /// A mine was uncovered.
    pub game_over: bool,
    /// Every safe tile is uncovered and every mine is still hidden.
    pub game_won: bool,
    pub width: nat,
    pub height: nat,
    /// The mine budget the board was set up with.
    pub starting_mines: nat,
    /// Mines remaining: the budget less the flags set, as far as it goes.
    pub mine_count: nat,
    pub turn_count: nat,
    /// The tiles, row by row.
    pub tiles: Seq<Tile>,
    pub selected: Option<nat>,
    pub input_mode: InputMode,
}

impl Difficulty {
    /// Width, height and mine budget of the board of this difficulty.
    pub open spec fn size(self) -> (nat, nat, nat) {
        match self {
            Difficulty::Easy => (5, 5, 4),
            Difficulty::Medium => (8, 8, 14),
            Difficulty::Hard => (12, 12, 35),
        }
    }

    /// Width, height and mine budget of the board of this difficulty.
    pub fn dimensions(&self) -> (size: (u32, u32, u32))
        ensures
            (size.0 as nat, size.1 as nat, size.2 as nat) == self.size(),
    {
        match self {
            Difficulty::Easy => (5, 5, 4),
            Difficulty::Medium => (8, 8, 14),
            Difficulty::Hard => (12, 12, 35),
        }
    }
}

impl GameView {
    /// The view of a state that was just created.
    pub open spec fn initial() -> GameView {
        GameView {
            game_mode: GameMode::Play,
            game_over: false,
            game_won: false,
            width: 0,
            height: 0,
            starting_mines: 0,
            mine_count: 0,
            turn_count: 0,
            tiles: Seq::empty(),
            selected: None,
            input_mode: InputMode::Undo,
        }
    }

    /// There is one tile for each position of the board, and no more mines
    /// remain to be flagged than the board was set up with.
    pub open spec fn wf(self) -> bool {
        &&& self.tiles.len() == self.width * self.height
        &&& self.mine_count <= self.starting_mines
    }

    pub open spec fn phase(self) -> Phase {
        if self.game_over {
            Phase::Lost
        } else if self.game_won {
            Phase::Won
        } else {
            Phase::Playing
        }
    }

    /// The three characters that show the tile at `index`, or a question
    /// mark between two spaces if there is no such tile.
    pub open spec fn glyph_at(self, index: int) -> Seq<char> {
        if 0 <= index < self.tiles.len() {
            self.tiles[index].glyph()
        } else {
            seq![' ', '?', ' ']
        }
    }

    /// The same game with other tiles.
    pub open spec fn with_tiles(self, tiles: Seq<Tile>) -> GameView {
        GameView { tiles, ..self }
    }
}

/// A board of `n` hidden tiles without mines or flags.
pub open spec fn blank_tiles(n: nat) -> Seq<Tile> {
    Seq::new(n, |i: int| Tile::Hidden { has_mine: false, flagged: false })
}

impl View for GameState {
    type V = GameView;

    closed spec fn view(&self) -> GameView {
        GameView {
            game_mode: self.game_mode,
            game_over: self.game_over,
            game_won: self.game_won,
            width: self.board_width as nat,
            height: self.board_height as nat,
            starting_mines: self.starting_mines as nat,
            mine_count: self.mine_count as nat,
            turn_count: self.turn_count as nat,
            tiles: self.tiles@,
            selected: match self.selected_tile {
                Some(i) => Some(i as nat),
                None => None,
            },
            input_mode: self.input_mode,
        }
    }
}

impl Default for GameState {
    fn default() -> (state: Self)
        ensures
            state@ == GameView::initial(),
    {
        Self::new()
    }
}

impl GameState {
    /// What a state holds fits the machine: the counters and dimensions are
    /// 32-bit numbers, and the tiles can be counted in a `usize`.
    pub proof fn lemma_view_fits(&self)
        ensures
            self@.width <= u32::MAX,
            self@.height <= u32::MAX,
            self@.starting_mines <= u32::MAX,
            self@.mine_count <= u32::MAX,
            self@.turn_count <= u32::MAX,
            self@.tiles.len() <= usize::MAX,
            self@.selected matches Some(index) ==> index <= usize::MAX,
    {
        assert(self.tiles.len() == self.tiles@.len());
    }

    /// An empty state: no board, nothing selected.
    #[must_use]
    pub fn new() -> (state: GameState)
        ensures
            state@ == GameView::initial(),
    {
        GameState {
            game_mode: GameMode::Play,
            game_over: false,
            game_won: false,
            board_height: 0,
            board_width: 0,
            starting_mines: 0,
            mine_count: 0,
            turn_count: 0,
            tiles: Vec::new(),
            selected_tile: None,
            input_mode: InputMode::Undo,
        }
    }

    #[must_use]
    pub fn get_game_over(&self) -> (b: bool)
        ensures
            b == self@.game_over,
    {
        self.game_over
    }

    #[must_use]
    pub fn get_height(&self) -> (h: u32)
        ensures
            h == self@.height,
    {
        self.board_height
    }

    #[must_use]
    pub fn get_width(&self) -> (w: u32)
        ensures
            w == self@.width,
    {
        self.board_width
    }

    /// The tile at `index`, which must be a position of the board.
    #[must_use]
    pub fn get_tile(&self, index: usize) -> (tile: &Tile)
        requires
            index < self@.tiles.len(),
        ensures
            *tile == self@.tiles[index as int],
    {
        &self.tiles[index]
    }

    /// The selected position; there must be one.
    #[must_use]
    pub fn get_selected(&self) -> (index: usize)
        requires
            self@.selected is Some,
        ensures
            self@.selected == Some(index as nat),
    {
        match self.selected_tile {
            Some(index) => index,
            None => unreached(),
        }
    }

    #[must_use]
    pub fn get_input_mode(&self) -> (mode: InputMode)
        ensures
            mode == self@.input_mode,
    {
        self.input_mode
    }

    #[must_use]
    pub fn get_won(&self) -> (b: bool)
        ensures
            b == self@.game_won,
    {
        self.game_won
    }

    /// The mine budget the board was set up with.
    #[must_use]
    pub fn get_mines(&self) -> (n: u32)
        ensures
            n == self@.starting_mines,
    {
        self.starting_mines
    }

    #[must_use]
    pub fn get_game_mode(&self) -> (mode: GameMode)
        ensures
            mode == self@.game_mode,
    {
        self.game_mode
    }

    /// The mines that remain to be flagged.
    #[must_use]
    pub fn get_mine_count(&self) -> (n: u32)
        ensures
            n == self@.mine_count,
    {
        self.mine_count
    }

    #[must_use]
    pub fn get_turn_count(&self) -> (n: u32)
        ensures
            n == self@.turn_count,
    {
        self.turn_count
    }

    /// The number of tiles the state holds.
    #[must_use]
    pub fn tile_count(&self) -> (n: usize)
        ensures
            n == self@.tiles.len(),
    {
        self.tiles.len()
    }

    /// Where the game stands.
    #[must_use]
    pub fn phase(&self) -> (phase: Phase)
        ensures
            phase == self@.phase(),
    {
        if self.game_over {
            Phase::Lost
        } else if self.game_won {
            Phase::Won
        } else {
            Phase::Playing
        }
    }

    pub fn set_game_over(&mut self, game_over: bool)
        ensures
            final(self)@ == (GameView { game_over, ..old(self)@ }),
    {
        self.game_over = game_over;
    }

    pub fn set_height(&mut self, height: u32)
        ensures
            final(self)@ == (GameView { height: height as nat, ..old(self)@ }),
    {
        self.board_height = height;
    }

    pub fn set_width(&mut self, width: u32)
        ensures
            final(self)@ == (GameView { width: width as nat, ..old(self)@ }),
    {
        self.board_width = width;
    }

    /// Replaces the tile at `index`, which must be a position of the board.
    pub fn set_tile(&mut self, index: usize, tile_state: Tile)
        requires
            index < old(self)@.tiles.len(),
        ensures
            final(self)@ == old(self)@.with_tiles(old(self)@.tiles.update(index as int, tile_state)),
    {
        self.tiles.set(index, tile_state);
    }

    /// The index of the tile in row `row` and column `col`, both counted
    /// from zero and both on the board.
    #[must_use]
    pub fn index_of(&self, row: u32, col: u32) -> (index: usize)
        requires
            self@.wf(),
            row < self@.height,
            col < self@.width,
        ensures
            index == row * self@.width + col,
            index < self@.tiles.len(),
    {
        proof {
            lemma_row_col(self@.width as int, self@.height as int, row as int, col as int);
            assert(self.tiles.len() == self.tiles@.len());
            assert(0 <= row * self@.width) by (nonlinear_arith);
        }
        (row as usize) * (self.board_width as usize) + (col as usize)
    }

    /// Selects the tile at `index`.
    pub fn select_tile(&mut self, index: usize)
        ensures
            final(self)@ == (GameView { selected: Some(index as nat), ..old(self)@ }),
    {
        self.selected_tile = Some(index);
    }

    pub fn set_selected(&mut self, index: u32)
        ensures
            final(self)@ == (GameView { selected: Some(index as nat), ..old(self)@ }),
    {
        let selected_tile = index as usize;
        self.selected_tile = Some(selected_tile);
    }

    pub fn set_input_mode(&mut self, input_mode: InputMode)
        ensures
            final(self)@ == (GameView { input_mode, ..old(self)@ }),
    {
        self.input_mode = input_mode;
    }

    pub fn set_won(&mut self, game_won: bool)
        ensures
            final(self)@ == (GameView { game_won, ..old(self)@ }),
    {
        self.game_won = game_won;
    }

    /// Sets the mine budget.
    pub fn set_mines(&mut self, num_mines: u32)
        ensures
            final(self)@ == (GameView { starting_mines: num_mines as nat, ..old(self)@ }),
    {
        self.starting_mines = num_mines;
    }

    pub fn set_game_mode(&mut self, game_mode: GameMode)
        ensures
            final(self)@ == (GameView { game_mode, ..old(self)@ }),
    {
        self.game_mode = game_mode;
    }

    /// Sets the mines that remain to be flagged.
    pub fn set_mine_count(&mut self, mine_count: u32)
        ensures
            final(self)@ == (GameView { mine_count: mine_count as nat, ..old(self)@ }),
    {
        self.mine_count = mine_count;
    }

    /// Starts a board of `width` by `height` hidden tiles with a budget of
    /// `num_mines` mines: the counters go back to their start, the game is
    /// neither lost nor won, and no tile has a mine or a flag yet.
    pub fn board_setup(&mut self, width: u32, height: u32, num_mines: u32)
        requires
            width * height <= usize::MAX,
        ensures
            final(self)@ == (GameView {
                width: width as nat,
                height: height as nat,
                starting_mines: num_mines as nat,
                mine_count: num_mines as nat,
                turn_count: 0,
                game_won: false,
                game_over: false,
                tiles: blank_tiles((width * height) as nat),
                ..old(self)@
            }),
            final(self)@.wf(),
    {
        self.board_width = width;
        self.board_height = height;
        self.starting_mines = num_mines;
        self.mine_count = num_mines;
        self.turn_count = 0;
        self.game_won = false;
        self.game_over = false;
        self.clear_tiles();
        let total: usize = (width as usize) * (height as usize);
        let mut placed: usize = 0;
        while placed < total
            invariant
                placed <= total,
                self.tiles@ == blank_tiles(placed as nat),
                self.board_width == width,
                self.board_height == height,
                self.starting_mines == num_mines,
                self.mine_count == num_mines,
                self.turn_count == 0,
                !self.game_won,
                !self.game_over,
                self.game_mode == old(self).game_mode,
                self.selected_tile == old(self).selected_tile,
                self.input_mode == old(self).input_mode,
            decreases total - placed,
        {
            self.add_tile(Tile::Hidden { has_mine: false, flagged: false });
            placed += 1;
        }
    }

    /// Appends a tile.
    pub fn add_tile(&mut self, tile_state: Tile)
        ensures
            final(self)@ == old(self)@.with_tiles(old(self)@.tiles.push(tile_state)),
    {
        self.tiles.push(tile_state);
    }

    /// The three characters that show the tile at `index`, or a question
    /// mark between two spaces if there is no such tile. The state is not
    /// changed.
    pub fn represent_tile(&mut self, index: u32) -> (text: String)
        ensures
            *final(self) == *old(self),
            text@ == old(self)@.glyph_at(index as int),
    {
        let tile: usize = index as usize;
        if tile < self.tiles.len() {
            self.tiles[tile].represent()
        } else {
            proof {
                reveal_strlit(" ? ");
            }
            let text = String::from_str(" ? ");
            assert(text@ =~= seq![' ', '?', ' ']);
            text
        }
    }

    /// Removes every tile.
    pub fn clear_tiles(&mut self)
        ensures
            final(self)@ == old(self)@.with_tiles(Seq::empty()),
    {
        self.tiles = Vec::new();
    }

    pub fn increment_turn_count(&mut self)
        requires
            old(self)@.turn_count < u32::MAX,
        ensures
            final(self)@ == (GameView { turn_count: old(self)@.turn_count + 1, ..old(self)@ }),
    {
        self.turn_count += 1;
    }

    pub fn increment_mine_count(&mut self)
        requires
            old(self)@.mine_count < u32::MAX,
        ensures
            final(self)@ == (GameView { mine_count: old(self)@.mine_count + 1, ..old(self)@ }),
    {
        self.mine_count += 1;
    }

    pub fn decrement_mine_count(&mut self)
        requires
            old(self)@.mine_count > 0,
        ensures
            final(self)@ == (GameView {
                mine_count: (old(self)@.mine_count - 1) as nat,
                ..old(self)@
            }),
    {
        self.mine_count -= 1;
    }
}

} // verus!
