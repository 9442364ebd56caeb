use minesweeper::input_handler::InputMode;
use minesweeper::{GameMode, GameState, Tile};

#[test]
fn gets_game_over() {
    let state = GameState::new();

    assert_eq!(false, state.get_game_over());
}

#[test]
fn gets_height() {
    let state = GameState::new();

    assert_eq!(0, state.get_height());
}

#[test]
fn gets_width() {
    let state = GameState::new();

    assert_eq!(0, state.get_width());
}

#[test]
fn gets_tile() {
    let mut state = GameState::new();

    state.add_tile(Tile::Hidden {
        has_mine: false,
        flagged: false,
    });

    assert_eq!(
        &Tile::Hidden {
            has_mine: false,
            flagged: false,
        },
        state.get_tile(0)
    );
}

#[test]
fn gets_selected() {
    let mut state = GameState::new();

    state.set_selected(1);

    assert_eq!(1, state.get_selected());
}

#[test]
fn gets_input_mode() {
    let mut state = GameState::new();

    state.set_input_mode(InputMode::Clear);

    assert_eq!(InputMode::Clear, state.get_input_mode());
}

#[test]
fn gets_won() {
    let mut state = GameState::new();

    state.set_won(true);

    assert_eq!(true, state.get_won());
}

#[test]
fn gets_mines() {
    let mut state = GameState::new();

    state.set_mines(6);

    assert_eq!(6, state.get_mines());
}

#[test]
fn gets_game_mode() {
    let mut state = GameState::new();

    state.set_game_mode(GameMode::Play);

    assert_eq!(GameMode::Play, state.get_game_mode());
}

#[test]
fn sets_game_over() {
    let mut state = GameState::new();
    state.set_game_over(true);

    assert_eq!(true, state.get_game_over())
}

#[test]
fn sets_width() {
    let mut state = GameState::new();
    state.set_width(5);

    assert_eq!(5, state.get_width())
}

#[test]
fn sets_height() {
    let mut state = GameState::new();
    state.set_height(5);

    assert_eq!(5, state.get_height())
}

#[test]
fn sets_tile() {
    let mut state = GameState::new();
    state.add_tile(Tile::Hidden {
        has_mine: (false),
        flagged: false,
    });
    state.set_tile(
        0,
        Tile::Revealed {
            has_mine: (false),
            hint: (0),
        },
    );

    assert_eq!(
        *state.get_tile(0),
        Tile::Revealed {
            has_mine: (false),
            hint: (0)
        }
    )
}

#[test]
fn sets_selected() {
    let mut state = GameState::new();
    state.set_selected(0);

    assert_eq!(state.get_selected(), 0)
}

#[test]
fn sets_input_mode() {
    let mut state = GameState::new();
    state.set_input_mode(InputMode::Flag);

    assert_eq!(state.get_input_mode(), InputMode::Flag)
}

#[test]
fn sets_won() {
    let mut state = GameState::new();
    state.set_won(true);

    assert_eq!(state.get_won(), true)
}

#[test]
fn sets_mines() {
    let mut state = GameState::new();
    state.set_mines(6);

    assert_eq!(state.get_mines(), 6)
}

#[test]
fn sets_game_mode() {
    let mut state = GameState::new();
    state.set_game_mode(GameMode::Play);

    assert_eq!(state.get_game_mode(), GameMode::Play)
}

#[test]
fn new_state_is_empty() {
    let state = GameState::new();

    assert_eq!(GameMode::Play, state.get_game_mode());
    assert_eq!(InputMode::Undo, state.get_input_mode());
    assert_eq!(0, state.get_mines());
    assert_eq!(0, state.get_mine_count());
    assert_eq!(0, state.get_turn_count());
    assert_eq!(0, state.tile_count());
    assert_eq!(false, state.get_won());
}

#[test]
fn default_state_is_new_state() {
    let state = GameState::default();

    assert_eq!(0, state.tile_count());
    assert_eq!(GameMode::Play, state.get_game_mode());
}

#[test]
fn board_setup_allocates_hidden_tiles() {
    let mut state = GameState::new();
    state.set_won(true);
    state.set_game_over(true);
    state.increment_turn_count();
    state.board_setup(4, 3, 5);

    assert_eq!(4, state.get_width());
    assert_eq!(3, state.get_height());
    assert_eq!(5, state.get_mines());
    assert_eq!(5, state.get_mine_count());
    assert_eq!(0, state.get_turn_count());
    assert_eq!(false, state.get_won());
    assert_eq!(false, state.get_game_over());
    assert_eq!(12, state.tile_count());
    for index in 0..12 {
        assert_eq!(
            Tile::Hidden {
                has_mine: false,
                flagged: false
            },
            *state.get_tile(index)
        );
    }
}

#[test]
fn board_setup_twice_starts_over() {
    let mut state = GameState::new();
    state.board_setup(2, 2, 1);
    state.set_tile(
        3,
        Tile::Revealed {
            has_mine: false,
            hint: 0,
        },
    );
    state.board_setup(3, 1, 2);

    assert_eq!(3, state.tile_count());
    assert_eq!(
        Tile::Hidden {
            has_mine: false,
            flagged: false
        },
        *state.get_tile(2)
    );
}

#[test]
fn counters_go_up_and_down() {
    let mut state = GameState::new();
    state.set_mine_count(3);
    state.increment_mine_count();
    assert_eq!(4, state.get_mine_count());
    state.decrement_mine_count();
    state.decrement_mine_count();
    assert_eq!(2, state.get_mine_count());
    state.increment_turn_count();
    state.increment_turn_count();
    assert_eq!(2, state.get_turn_count());
}

#[test]
fn clear_tiles_removes_all() {
    let mut state = GameState::new();
    state.board_setup(3, 3, 0);
    state.clear_tiles();

    assert_eq!(0, state.tile_count());
    assert_eq!(3, state.get_width());
}

#[test]
fn index_of_is_row_major() {
    let mut state = GameState::new();
    state.board_setup(5, 4, 0);

    assert_eq!(0, state.index_of(0, 0));
    assert_eq!(4, state.index_of(0, 4));
    assert_eq!(5, state.index_of(1, 0));
    assert_eq!(13, state.index_of(2, 3));
    assert_eq!(19, state.index_of(3, 4));
}

#[test]
fn select_tile_sets_selection() {
    let mut state = GameState::new();
    state.select_tile(7);

    assert_eq!(7, state.get_selected());
}

#[test]
fn represents_each_kind_of_tile() {
    let mut state = GameState::new();
    state.add_tile(Tile::Hidden {
        has_mine: false,
        flagged: true,
    });
    state.add_tile(Tile::Hidden {
        has_mine: true,
        flagged: true,
    });
    state.add_tile(Tile::Revealed {
        has_mine: true,
        hint: 10,
    });
    state.add_tile(Tile::Revealed {
        has_mine: false,
        hint: 3,
    });
    state.add_tile(Tile::Hidden {
        has_mine: true,
        flagged: false,
    });
    state.add_tile(Tile::Revealed {
        has_mine: false,
        hint: 0,
    });

    assert_eq!(" F ", state.represent_tile(0));
    assert_eq!(" F ", state.represent_tile(1));
    assert_eq!(" X ", state.represent_tile(2));
    assert_eq!(" 3 ", state.represent_tile(3));
    assert_eq!(" - ", state.represent_tile(4));
    assert_eq!(" 0 ", state.represent_tile(5));
    assert_eq!(" ? ", state.represent_tile(6));
    assert_eq!(6, state.tile_count());
}

#[test]
fn represents_large_numbers_in_decimal() {
    let mut state = GameState::new();
    state.add_tile(Tile::Revealed {
        has_mine: false,
        hint: 10,
    });
    state.add_tile(Tile::Revealed {
        has_mine: false,
        hint: 4294967295,
    });

    assert_eq!(" 10 ", state.represent_tile(0));
    assert_eq!(" 4294967295 ", state.represent_tile(1));
}
