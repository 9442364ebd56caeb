use minesweeper::game_loop::{
    apply, check_for_win, lay_mines, new_game, process_input, reveal_neighbors, update,
};
use minesweeper::input_handler::InputMode;
use minesweeper::{Action, GameError, GameState, Phase, Tile};

fn board(width: u32, height: u32, mines: &[usize]) -> GameState {
    let mut state = GameState::new();
    state.board_setup(width, height, mines.len() as u32);
    lay_mines(&mut state, &mines.to_vec());
    state
}

fn revealed(state: &GameState) -> Vec<usize> {
    (0..state.tile_count())
        .filter(|&index| !state.get_tile(index).is_hidden())
        .collect()
}

fn safe(hint: u32) -> Tile {
    Tile::Revealed {
        has_mine: false,
        hint,
    }
}

fn exploded() -> Tile {
    Tile::Revealed {
        has_mine: true,
        hint: 10,
    }
}

#[test]
fn two_tiles_one_mine_is_won_at_once() {
    let mut state = board(2, 1, &[1]);

    assert_eq!(Ok(()), apply(&mut state, 0, Action::Reveal, false));

    assert_eq!(safe(1), *state.get_tile(0));
    assert_eq!(
        Tile::Hidden {
            has_mine: true,
            flagged: false
        },
        *state.get_tile(1)
    );
    assert_eq!(Phase::Won, state.phase());
    assert!(state.get_won());
    assert!(!state.get_game_over());
}

#[test]
fn corner_next_to_center_mine_shows_one() {
    let mut state = board(3, 3, &[4]);

    assert_eq!(Ok(()), apply(&mut state, 0, Action::Reveal, false));

    assert_eq!(safe(1), *state.get_tile(0));
    assert_eq!(vec![0], revealed(&state));
    assert_eq!(Phase::Playing, state.phase());
}

#[test]
fn center_mine_is_won_when_all_around_is_revealed() {
    let mut state = board(3, 3, &[4]);

    for index in [0usize, 1, 2, 3, 5, 6, 7] {
        assert_eq!(Ok(()), apply(&mut state, index, Action::Reveal, false));
        assert_eq!(Phase::Playing, state.phase());
    }
    assert_eq!(Ok(()), apply(&mut state, 8, Action::Reveal, false));

    assert_eq!(vec![0, 1, 2, 3, 5, 6, 7, 8], revealed(&state));
    assert!(state.get_tile(4).is_hidden());
    assert_eq!(Phase::Won, state.phase());
    assert_eq!(8, state.get_turn_count());
}

#[test]
fn cascade_from_a_corner_opens_the_board() {
    let mut state = board(3, 3, &[8]);

    assert_eq!(Ok(()), apply(&mut state, 0, Action::Reveal, false));

    assert_eq!(vec![0, 1, 2, 3, 4, 5, 6, 7], revealed(&state));
    assert_eq!(safe(0), *state.get_tile(0));
    assert_eq!(safe(0), *state.get_tile(1));
    assert_eq!(safe(0), *state.get_tile(2));
    assert_eq!(safe(0), *state.get_tile(3));
    assert_eq!(safe(1), *state.get_tile(4));
    assert_eq!(safe(1), *state.get_tile(5));
    assert_eq!(safe(0), *state.get_tile(6));
    assert_eq!(safe(1), *state.get_tile(7));
    assert!(state.get_tile(8).is_hidden());
    assert_eq!(Phase::Won, state.phase());
    assert_eq!(1, state.get_turn_count());
}

#[test]
fn cascade_stops_at_the_numbered_border() {
    // 5 wide, 3 high, mines in the middle column of the top and bottom rows:
    //   0 1 * 1 0
    //   0 2 2 2 0       (index 7 shows 2)
    //   0 1 * 1 0
    let mut state = board(5, 3, &[2, 12]);

    assert_eq!(Ok(()), apply(&mut state, 0, Action::Reveal, false));

    assert_eq!(vec![0, 1, 5, 6, 10, 11], revealed(&state));
    assert_eq!(safe(0), *state.get_tile(0));
    assert_eq!(safe(1), *state.get_tile(1));
    assert_eq!(safe(0), *state.get_tile(5));
    assert_eq!(safe(2), *state.get_tile(6));
    assert_eq!(safe(0), *state.get_tile(10));
    assert_eq!(safe(1), *state.get_tile(11));
    assert_eq!(Phase::Playing, state.phase());
}

#[test]
fn cascade_spares_flagged_tiles() {
    let mut state = board(4, 1, &[]);
    assert_eq!(Ok(()), apply(&mut state, 2, Action::ToggleFlag, false));

    assert_eq!(Ok(()), apply(&mut state, 0, Action::Reveal, false));

    assert_eq!(vec![0, 1], revealed(&state));
    assert_eq!(
        Tile::Hidden {
            has_mine: false,
            flagged: true
        },
        *state.get_tile(2)
    );
    assert_eq!(
        Tile::Hidden {
            has_mine: false,
            flagged: false
        },
        *state.get_tile(3)
    );
    assert_eq!(Phase::Playing, state.phase());
}

#[test]
fn cascade_never_uncovers_a_mine() {
    let mut state = board(4, 4, &[15]);

    assert_eq!(Ok(()), apply(&mut state, 0, Action::Reveal, false));

    assert_eq!((0..15).collect::<Vec<usize>>(), revealed(&state));
    assert_eq!(
        Tile::Hidden {
            has_mine: true,
            flagged: false
        },
        *state.get_tile(15)
    );
    assert_eq!(Phase::Won, state.phase());
}

#[test]
fn numbered_tile_does_not_cascade() {
    let mut state = board(3, 3, &[8]);

    assert_eq!(Ok(()), apply(&mut state, 4, Action::Reveal, false));

    assert_eq!(vec![4], revealed(&state));
    assert_eq!(safe(1), *state.get_tile(4));
}

#[test]
fn reveal_neighbors_opens_the_region() {
    let mut state = board(3, 3, &[8]);
    state.set_tile(0, safe(0));

    reveal_neighbors(&mut state, 0);

    assert_eq!(vec![0, 1, 2, 3, 4, 5, 6, 7], revealed(&state));
    assert_eq!(0, state.get_turn_count());
    assert!(!state.get_won());
}

#[test]
fn reveal_neighbors_around_a_numbered_tile() {
    let mut state = board(3, 3, &[0]);

    reveal_neighbors(&mut state, 4);

    // The tiles around the center open; those that show no mine open the
    // rest, and the center itself is reached from them.
    assert_eq!(vec![1, 2, 3, 4, 5, 6, 7, 8], revealed(&state));
    assert_eq!(safe(1), *state.get_tile(4));
}

#[test]
fn revealing_a_mine_loses_and_shows_all_mines() {
    let mut state = board(3, 3, &[0, 4, 8]);
    assert_eq!(Ok(()), apply(&mut state, 8, Action::ToggleFlag, false));
    assert_eq!(Ok(()), apply(&mut state, 1, Action::Reveal, false));

    assert_eq!(Ok(()), apply(&mut state, 4, Action::Reveal, false));

    assert_eq!(Phase::Lost, state.phase());
    assert!(state.get_game_over());
    assert!(!state.get_won());
    assert_eq!(exploded(), *state.get_tile(0));
    assert_eq!(exploded(), *state.get_tile(4));
    assert_eq!(exploded(), *state.get_tile(8));
    assert_eq!(safe(2), *state.get_tile(1));
    for index in [2usize, 3, 5, 6, 7] {
        assert_eq!(
            Tile::Hidden {
                has_mine: false,
                flagged: false
            },
            *state.get_tile(index)
        );
    }
    assert_eq!(3, state.get_turn_count());
}

#[test]
fn no_action_after_loss() {
    let mut state = board(2, 2, &[0]);
    assert_eq!(Ok(()), apply(&mut state, 0, Action::Reveal, false));
    assert_eq!(Phase::Lost, state.phase());

    assert_eq!(
        Err(GameError::InvalidPhase),
        apply(&mut state, 1, Action::Reveal, false)
    );
    assert_eq!(
        Err(GameError::InvalidPhase),
        apply(&mut state, 1, Action::ToggleFlag, false)
    );
    assert_eq!(
        Err(GameError::InvalidPhase),
        apply(&mut state, 9, Action::Reveal, false)
    );

    assert!(state.get_tile(1).is_hidden());
    assert_eq!(1, state.get_turn_count());
}

#[test]
fn no_action_after_win() {
    let mut state = board(2, 1, &[1]);
    assert_eq!(Ok(()), apply(&mut state, 0, Action::Reveal, false));
    assert_eq!(Phase::Won, state.phase());

    assert_eq!(
        Err(GameError::InvalidPhase),
        apply(&mut state, 1, Action::ToggleFlag, false)
    );

    assert!(!state.get_tile(1).is_flagged());
    assert_eq!(1, state.get_turn_count());
    assert_eq!(1, state.get_mine_count());
}

#[test]
fn revealed_tile_is_an_invalid_selection() {
    let mut state = board(3, 3, &[4]);
    assert_eq!(Ok(()), apply(&mut state, 0, Action::Reveal, false));

    assert_eq!(
        Err(GameError::InvalidSelection),
        apply(&mut state, 0, Action::Reveal, false)
    );
    assert_eq!(
        Err(GameError::InvalidSelection),
        apply(&mut state, 0, Action::ToggleFlag, true)
    );

    assert_eq!(safe(1), *state.get_tile(0));
    assert_eq!(1, state.get_turn_count());
    assert_eq!(1, state.get_mine_count());
}

#[test]
fn position_off_the_board_is_an_invalid_selection() {
    let mut state = board(3, 3, &[4]);

    assert_eq!(
        Err(GameError::InvalidSelection),
        apply(&mut state, 9, Action::Reveal, false)
    );
    assert_eq!(
        Err(GameError::InvalidSelection),
        apply(&mut state, usize::MAX, Action::ToggleFlag, false)
    );

    assert_eq!(Vec::<usize>::new(), revealed(&state));
    assert_eq!(0, state.get_turn_count());
}

#[test]
fn flagged_tile_is_uncovered_only_when_confirmed() {
    let mut state = board(3, 3, &[4]);
    assert_eq!(Ok(()), apply(&mut state, 0, Action::ToggleFlag, false));
    assert_eq!(0, state.get_mine_count());

    assert_eq!(
        Err(GameError::InvalidSelection),
        apply(&mut state, 0, Action::Reveal, false)
    );
    assert!(state.get_tile(0).is_flagged());
    assert_eq!(1, state.get_turn_count());

    assert_eq!(Ok(()), apply(&mut state, 0, Action::Reveal, true));
    assert_eq!(safe(1), *state.get_tile(0));
    assert_eq!(2, state.get_turn_count());
    assert_eq!(0, state.get_mine_count());
}

#[test]
fn flagged_mine_explodes_when_confirmed() {
    let mut state = board(2, 2, &[3]);
    assert_eq!(Ok(()), apply(&mut state, 3, Action::ToggleFlag, false));

    assert_eq!(Ok(()), apply(&mut state, 3, Action::Reveal, true));

    assert_eq!(exploded(), *state.get_tile(3));
    assert_eq!(Phase::Lost, state.phase());
}

#[test]
fn flag_and_unflag_move_the_counter() {
    let mut state = board(3, 3, &[0, 1]);
    assert_eq!(2, state.get_mine_count());

    assert_eq!(Ok(()), apply(&mut state, 0, Action::ToggleFlag, false));
    assert_eq!(1, state.get_mine_count());
    assert_eq!(
        Tile::Hidden {
            has_mine: true,
            flagged: true
        },
        *state.get_tile(0)
    );

    assert_eq!(Ok(()), apply(&mut state, 5, Action::ToggleFlag, false));
    assert_eq!(0, state.get_mine_count());

    assert_eq!(Ok(()), apply(&mut state, 5, Action::ToggleFlag, false));
    assert_eq!(1, state.get_mine_count());
    assert_eq!(
        Tile::Hidden {
            has_mine: false,
            flagged: false
        },
        *state.get_tile(5)
    );

    assert_eq!(Ok(()), apply(&mut state, 0, Action::ToggleFlag, false));
    assert_eq!(2, state.get_mine_count());
    assert_eq!(4, state.get_turn_count());
    assert_eq!(Phase::Playing, state.phase());
}

#[test]
fn flag_at_zero_does_not_underflow() {
    let mut state = board(2, 2, &[0]);

    assert_eq!(Ok(()), apply(&mut state, 1, Action::ToggleFlag, false));
    assert_eq!(0, state.get_mine_count());
    assert_eq!(Ok(()), apply(&mut state, 2, Action::ToggleFlag, false));
    assert_eq!(0, state.get_mine_count());
    assert!(state.get_tile(2).is_flagged());

    assert_eq!(Ok(()), apply(&mut state, 1, Action::ToggleFlag, false));
    assert_eq!(1, state.get_mine_count());
    assert_eq!(Ok(()), apply(&mut state, 2, Action::ToggleFlag, false));
    assert_eq!(1, state.get_mine_count());
    assert_eq!(1, state.get_mines());
}

#[test]
fn flag_on_a_board_without_mines_keeps_zero() {
    let mut state = board(2, 2, &[]);

    assert_eq!(Ok(()), apply(&mut state, 3, Action::ToggleFlag, false));
    assert_eq!(0, state.get_mine_count());
    assert!(state.get_tile(3).is_flagged());

    assert_eq!(Ok(()), apply(&mut state, 3, Action::ToggleFlag, false));
    assert_eq!(0, state.get_mine_count());
    assert!(!state.get_tile(3).is_flagged());
}

#[test]
fn flags_do_not_decide_the_win() {
    let mut state = board(2, 1, &[1]);

    assert_eq!(Ok(()), apply(&mut state, 1, Action::ToggleFlag, false));
    assert_eq!(Phase::Playing, state.phase());
    assert_eq!(Ok(()), apply(&mut state, 0, Action::Reveal, false));

    assert_eq!(Phase::Won, state.phase());
}

#[test]
fn flagging_the_last_safe_tile_does_not_win() {
    let mut state = board(2, 1, &[1]);

    assert_eq!(Ok(()), apply(&mut state, 0, Action::ToggleFlag, false));

    assert_eq!(Phase::Playing, state.phase());
}

#[test]
fn board_without_mines_is_won_by_one_reveal() {
    let mut state = board(4, 4, &[]);

    assert_eq!(Ok(()), apply(&mut state, 5, Action::Reveal, false));

    assert_eq!(16, revealed(&state).len());
    assert_eq!(Phase::Won, state.phase());
    assert_eq!(1, state.get_turn_count());
}

#[test]
fn check_for_win_on_revealed_board_without_mines() {
    let mut state = GameState::new();
    state.board_setup(2, 2, 0);
    for index in 0..4 {
        state.set_tile(index, safe(0));
    }

    check_for_win(&mut state);

    assert!(state.get_won());
    assert_eq!(Phase::Won, state.phase());
}

#[test]
fn check_for_win_with_one_hidden_mine() {
    let mut state = board(2, 2, &[2]);
    for index in [0usize, 1, 3] {
        state.set_tile(index, safe(1));
    }

    check_for_win(&mut state);

    assert!(state.get_won());
}

#[test]
fn check_for_win_is_not_won_with_a_hidden_safe_tile() {
    let mut state = board(2, 2, &[2]);
    state.set_tile(0, safe(1));
    state.set_tile(1, safe(1));

    check_for_win(&mut state);

    assert!(!state.get_won());
}

#[test]
fn check_for_win_is_not_won_with_a_revealed_mine() {
    let mut state = board(2, 1, &[1]);
    state.set_tile(0, safe(1));
    state.set_tile(1, exploded());

    check_for_win(&mut state);

    assert!(!state.get_won());
}

#[test]
fn check_for_win_on_an_empty_board() {
    let mut state = GameState::new();

    check_for_win(&mut state);

    assert!(state.get_won());
}

#[test]
fn check_for_win_keeps_a_win() {
    let mut state = board(2, 1, &[1]);
    state.set_won(true);

    check_for_win(&mut state);

    assert!(state.get_won());
}

#[test]
fn process_input_reveals_with_hint() {
    let mut state = board(3, 3, &[0, 1]);

    assert_eq!(Ok(()), process_input(&mut state, 4, Action::Reveal, false));

    assert_eq!(safe(2), *state.get_tile(4));
    assert_eq!(4, state.get_selected());
    assert_eq!(InputMode::Clear, state.get_input_mode());
    assert_eq!(0, state.get_turn_count());
    assert_eq!(2, state.get_mine_count());
}

#[test]
fn process_input_reveals_a_mine_as_exploded() {
    let mut state = board(3, 3, &[0, 1]);

    assert_eq!(Ok(()), process_input(&mut state, 1, Action::Reveal, false));

    assert_eq!(exploded(), *state.get_tile(1));
    assert!(state.get_tile(0).is_hidden());
    assert!(!state.get_game_over());
}

#[test]
fn process_input_sets_a_flag() {
    let mut state = board(3, 3, &[0, 1]);

    assert_eq!(
        Ok(()),
        process_input(&mut state, 8, Action::ToggleFlag, false)
    );

    assert_eq!(
        Tile::Hidden {
            has_mine: false,
            flagged: true
        },
        *state.get_tile(8)
    );
    assert_eq!(8, state.get_selected());
    assert_eq!(InputMode::Flag, state.get_input_mode());
    assert_eq!(1, state.get_mine_count());
}

#[test]
fn process_input_turns_down_without_change() {
    let mut state = board(3, 3, &[0, 1]);
    state.set_selected(2);
    state.set_input_mode(InputMode::Undo);
    state.set_tile(5, safe(0));

    assert_eq!(
        Err(GameError::InvalidSelection),
        process_input(&mut state, 5, Action::ToggleFlag, false)
    );
    assert_eq!(
        Err(GameError::InvalidSelection),
        process_input(&mut state, 9, Action::Reveal, true)
    );

    assert_eq!(2, state.get_selected());
    assert_eq!(InputMode::Undo, state.get_input_mode());
    assert_eq!(2, state.get_mine_count());
}

#[test]
fn update_counts_the_turn_and_opens_the_region() {
    let mut state = board(3, 3, &[8]);
    assert_eq!(Ok(()), process_input(&mut state, 0, Action::Reveal, false));
    assert_eq!(vec![0], revealed(&state));

    update(&mut state);

    assert_eq!(vec![0, 1, 2, 3, 4, 5, 6, 7], revealed(&state));
    assert_eq!(1, state.get_turn_count());
    assert!(state.get_won());
}

#[test]
fn update_after_a_flag_opens_nothing() {
    let mut state = board(3, 3, &[8]);
    assert_eq!(
        Ok(()),
        process_input(&mut state, 0, Action::ToggleFlag, false)
    );

    update(&mut state);

    assert_eq!(Vec::<usize>::new(), revealed(&state));
    assert_eq!(1, state.get_turn_count());
    assert_eq!(Phase::Playing, state.phase());
}

#[test]
fn update_after_a_mine_ends_the_game() {
    let mut state = board(3, 1, &[0, 2]);
    assert_eq!(Ok(()), process_input(&mut state, 0, Action::Reveal, false));

    update(&mut state);

    assert!(state.get_game_over());
    assert_eq!(exploded(), *state.get_tile(0));
    assert_eq!(exploded(), *state.get_tile(2));
    assert!(state.get_tile(1).is_hidden());
    assert!(!state.get_won());
}

#[test]
fn hints_stay_true_whatever_the_order() {
    let mines = [3usize, 7, 11, 12];
    let mut first = board(4, 4, &mines);
    let mut second = board(4, 4, &mines);
    let order_a = [0usize, 5, 15, 9, 2];
    let order_b = [2usize, 9, 15, 5, 0];
    for index in order_a {
        let _ = apply(&mut first, index, Action::Reveal, false);
    }
    for index in order_b {
        let _ = apply(&mut second, index, Action::Reveal, false);
    }

    for index in 0..16 {
        assert_eq!(first.get_tile(index), second.get_tile(index));
    }
    let reference = board(4, 4, &mines);
    for index in 0..16usize {
        if let Tile::Revealed {
            has_mine: false,
            hint,
        } = first.get_tile(index)
        {
            assert_eq!(
                minesweeper::game_loop::calculate_hint(&reference, index),
                *hint
            );
        }
    }
}

#[test]
fn input_mode_names_its_action() {
    assert_eq!(Some(Action::Reveal), InputMode::Clear.action());
    assert_eq!(Some(Action::ToggleFlag), InputMode::Flag.action());
    assert_eq!(None, InputMode::Undo.action());
    assert_eq!(InputMode::Clear, Action::Reveal.input_mode());
    assert_eq!(InputMode::Flag, Action::ToggleFlag.input_mode());
}

#[test]
fn random_game_can_be_played_to_an_end() {
    let mut state = new_game(6, 6, 5).unwrap();
    let mut turns = 0;
    for index in 0..36 {
        if state.phase() != Phase::Playing {
            break;
        }
        if state.get_tile(index).is_hidden() {
            assert_eq!(Ok(()), apply(&mut state, index, Action::Reveal, false));
            turns += 1;
        }
    }

    assert_ne!(Phase::Playing, state.phase());
    assert_eq!(turns, state.get_turn_count());
    assert_eq!(5, state.get_mine_count());
}
