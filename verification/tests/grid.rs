use minesweeper::game_loop::{calculate_hint, column_to_letter, find_neighbors, lay_mines};
use minesweeper::{GameState, Tile};

fn board(width: u32, height: u32, mines: &[usize]) -> GameState {
    let mut state = GameState::new();
    state.board_setup(width, height, mines.len() as u32);
    lay_mines(&mut state, &mines.to_vec());
    state
}

#[test]
fn corner_has_three_neighbors() {
    let state = board(5, 5, &[]);

    assert_eq!(vec![1, 5, 6], find_neighbors(&state, 0));
    assert_eq!(vec![3, 8, 9], find_neighbors(&state, 4));
    assert_eq!(vec![15, 16, 21], find_neighbors(&state, 20));
    assert_eq!(vec![18, 19, 23], find_neighbors(&state, 24));
}

#[test]
fn edge_has_five_neighbors() {
    let state = board(5, 5, &[]);

    assert_eq!(vec![1, 3, 6, 7, 8], find_neighbors(&state, 2));
    assert_eq!(vec![5, 6, 11, 15, 16], find_neighbors(&state, 10));
    assert_eq!(vec![8, 9, 13, 18, 19], find_neighbors(&state, 14));
    assert_eq!(vec![16, 17, 18, 21, 23], find_neighbors(&state, 22));
}

#[test]
fn interior_has_eight_neighbors() {
    let state = board(5, 5, &[]);

    assert_eq!(vec![6, 7, 8, 11, 13, 16, 17, 18], find_neighbors(&state, 12));
    assert_eq!(vec![0, 1, 2, 5, 7, 10, 11, 12], find_neighbors(&state, 6));
}

#[test]
fn neighbor_counts_on_every_cell() {
    let state = board(4, 3, &[]);

    for index in 0..12usize {
        let row = index / 4;
        let col = index % 4;
        let on_row_border = row == 0 || row == 2;
        let on_col_border = col == 0 || col == 3;
        let expected = if on_row_border && on_col_border {
            3
        } else if on_row_border || on_col_border {
            5
        } else {
            8
        };
        let found = find_neighbors(&state, index);
        assert_eq!(expected, found.len());
        assert!(!found.contains(&index));
        assert!(found.iter().all(|&n| n < 12));
    }
}

#[test]
fn neighbors_do_not_wrap_around_rows() {
    let state = board(3, 3, &[]);

    assert_eq!(vec![0, 1, 4, 6, 7], find_neighbors(&state, 3));
    assert_eq!(vec![1, 2, 4, 7, 8], find_neighbors(&state, 5));
}

#[test]
fn narrow_boards_have_fewer_neighbors() {
    let single = board(1, 1, &[]);
    assert_eq!(Vec::<usize>::new(), find_neighbors(&single, 0));

    let pair = board(2, 1, &[]);
    assert_eq!(vec![1], find_neighbors(&pair, 0));
    assert_eq!(vec![0], find_neighbors(&pair, 1));

    let column = board(1, 3, &[]);
    assert_eq!(vec![1], find_neighbors(&column, 0));
    assert_eq!(vec![0, 2], find_neighbors(&column, 1));

    let square = board(2, 2, &[]);
    assert_eq!(vec![1, 2, 3], find_neighbors(&square, 0));
    assert_eq!(vec![0, 1, 2], find_neighbors(&square, 3));
}

#[test]
fn hint_counts_mines_around() {
    let state = board(3, 3, &[0, 2, 8]);

    assert_eq!(2, calculate_hint(&state, 1));
    assert_eq!(1, calculate_hint(&state, 3));
    assert_eq!(3, calculate_hint(&state, 4));
    assert_eq!(2, calculate_hint(&state, 5));
    assert_eq!(0, calculate_hint(&state, 6));
    assert_eq!(1, calculate_hint(&state, 7));
    assert_eq!(0, calculate_hint(&state, 0));
}

#[test]
fn hint_of_cell_surrounded_by_mines_is_eight() {
    let state = board(3, 3, &[0, 1, 2, 3, 5, 6, 7, 8]);

    assert_eq!(8, calculate_hint(&state, 4));
}

#[test]
fn hint_counts_revealed_and_flagged_mines() {
    let mut state = board(3, 3, &[0, 1, 2]);
    assert_eq!(3, calculate_hint(&state, 4));

    state.set_tile(
        0,
        Tile::Revealed {
            has_mine: true,
            hint: 10,
        },
    );
    state.set_tile(
        1,
        Tile::Hidden {
            has_mine: true,
            flagged: true,
        },
    );
    state.set_tile(
        3,
        Tile::Revealed {
            has_mine: false,
            hint: 2,
        },
    );
    state.set_tile(
        5,
        Tile::Hidden {
            has_mine: false,
            flagged: true,
        },
    );

    assert_eq!(3, calculate_hint(&state, 4));
    assert_eq!(2, calculate_hint(&state, 3));
}

#[test]
fn column_letters() {
    assert_eq!('A', column_to_letter(0));
    assert_eq!('B', column_to_letter(1));
    assert_eq!('L', column_to_letter(11));
    assert_eq!('Z', column_to_letter(25));
}
