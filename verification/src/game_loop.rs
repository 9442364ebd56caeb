//! The rules of play: laying mines, counting them around a tile, uncovering
//! tiles and the regions they open, flags, and deciding when a game ends.

use vstd::prelude::*;
use crate::cascade::{
    cascade,
    cascade_reaches,
    center,
    clearable_at,
    clearable_total,
    closed,
    lemma_reach_first,
    lemma_reach_next,
    lemma_spread_to_the_end,
    lemma_uncover_one,
    spread,
    uncovered,
};
use crate::grid::{
    cell,
    count_mines,
    hint,
    lemma_hint_depends_on_mines_only,
    lemma_index_row_col,
    lemma_neighbors_on_board,
    lemma_row_col,
    neighbors,
    same_mines,
};
use crate::input_handler::InputMode;
use crate::placement::{
    distinct,
    lay,
    lesser,
    listed,
    on_board,
    placement,
    shuffled_indices,
};
use crate::rules::{all_settled, expose_mines, lemma_turn_keeps_count_in_range, Action, GameError};
use crate::state::{Difficulty, GameMode, GameState, GameView, Phase};
use crate::tile::{Tile, EXPLODED_HINT};

verus! {

/// The indices held in a vector, as mathematical integers.
pub open spec fn indices(v: Seq<usize>) -> Seq<int> {
    v.map_values(|x: usize| x as int)
}

/// The `k`-th of the nine positions around and including a cell, row by row;
/// the middle one, the cell itself, counts for nothing.
spec fn candidate(w: int, h: int, i: int, k: int) -> Seq<int> {
    if k == 4 {
        Seq::empty()
    } else {
        cell(w, h, i / w + k / 3 - 1, i % w + k % 3 - 1)
    }
}

/// The neighbors found among the first `k` positions around a cell.
spec fn scanned(w: int, h: int, i: int, k: int) -> Seq<int>
    decreases k,
{
    if k <= 0 {
        Seq::empty()
    } else {
        scanned(w, h, i, k - 1) + candidate(w, h, i, k - 1)
    }
}

proof fn lemma_scanned_all(w: int, h: int, i: int)
    ensures
        scanned(w, h, i, 9) == neighbors(w, h, i),
{
    reveal_with_fuel(scanned, 10);
    assert(scanned(w, h, i, 9) =~= neighbors(w, h, i));
}

/// The positions that touch `index`, by side or by corner, in increasing
/// order.
pub fn find_neighbors(state: &GameState, index: usize) -> (found: Vec<usize>)
    requires
        state@.wf(),
        index < state@.tiles.len(),
    ensures
        indices(found@) == neighbors(state@.width as int, state@.height as int, index as int),
{
    let width_cells: usize = state.get_width() as usize;
    let width: i64 = state.get_width() as i64;
    let height: i64 = state.get_height() as i64;
    let ghost w = state@.width as int;
    let ghost h = state@.height as int;
    let ghost i = index as int;
    proof {
        state.lemma_view_fits();
        if w == 0 {
            assert(w * h == 0) by (nonlinear_arith)
                requires
                    w == 0,
            ;
        }
        lemma_index_row_col(w, h, i);
    }
    let index_x: i64 = (index % width_cells) as i64;
    let index_y: i64 = (index / width_cells) as i64;

    let mut found: Vec<usize> = Vec::new();
    let mut row_offset: i64 = -1;
    while row_offset <= 1
        invariant
            -1 <= row_offset <= 2,
            w == width,
            h == height,
            0 < w,
            w * h <= usize::MAX,
            0 <= i < w * h,
            index_x == i % w,
            index_y == i / w,
            0 <= index_x < w,
            0 <= index_y < h,
            indices(found@) == scanned(w, h, i, 3 * (row_offset + 1)),
        decreases 2 - row_offset,
    {
        let mut col_offset: i64 = -1;
        while col_offset <= 1
            invariant
                -1 <= row_offset <= 1,
                -1 <= col_offset <= 2,
                w == width,
                h == height,
                0 < w,
                w * h <= usize::MAX,
                0 <= i < w * h,
                index_x == i % w,
                index_y == i / w,
                0 <= index_x < w,
                0 <= index_y < h,
                indices(found@) == scanned(w, h, i, 3 * (row_offset + 1) + (col_offset + 1)),
            decreases 2 - col_offset,
        {
            let ghost k = 3 * (row_offset + 1) + (col_offset + 1);
            let ghost before = found@;
            assert(k / 3 == row_offset + 1 && k % 3 == col_offset + 1);
            if !(row_offset == 0 && col_offset == 0) {
                let neighbor_x: i64 = index_x + col_offset;
                let neighbor_y: i64 = index_y + row_offset;
                if neighbor_x >= 0 && neighbor_x < width && neighbor_y >= 0 && neighbor_y < height {
                    proof {
                        lemma_row_col(w, h, neighbor_y as int, neighbor_x as int);
                    }
                    let neighbor_index: usize = ((neighbor_y as u64) * (width as u64)
                        + (neighbor_x as u64)) as usize;
                    found.push(neighbor_index);
                    assert(indices(found@) =~= indices(before) + seq![neighbor_index as int]);
                }
            }
            assert(indices(found@) =~= scanned(w, h, i, k) + candidate(w, h, i, k));
            col_offset += 1;
        }
        row_offset += 1;
    }
    proof {
        lemma_scanned_all(w, h, i);
    }
    found
}

/// The hint of the tile at `index`: how many of the tiles around it have a
/// mine, hidden or revealed.
pub fn calculate_hint(state: &GameState, index: usize) -> (count: u32)
    requires
        state@.wf(),
        index < state@.tiles.len(),
    ensures
        count == hint(state@.tiles, state@.width as int, state@.height as int, index as int),
        count <= 8,
{
    let found = find_neighbors(state, index);
    let ghost around = neighbors(state@.width as int, state@.height as int, index as int);
    proof {
        if state@.width == 0 {
            assert(state@.width * state@.height == 0) by (nonlinear_arith)
                requires
                    state@.width == 0,
            ;
        }
        lemma_neighbors_on_board(state@.width as int, state@.height as int, index as int);
    }

    let mut count: u32 = 0;
    let mut k: usize = 0;
    while k < found.len()
        invariant
            k <= found.len(),
            indices(found@) == around,
            around.len() <= 8,
            forall|j: int| 0 <= j < around.len() ==> 0 <= #[trigger] around[j] < state@.tiles.len(),
            count == count_mines(state@.tiles, around.take(k as int)),
            count <= k,
        decreases found.len() - k,
    {
        let neighbor_index: usize = found[k];
        assert(around[k as int] == neighbor_index);
        assert(around.take(k + 1).drop_last() == around.take(k as int));
        if state.get_tile(neighbor_index).has_mine() {
            count += 1;
        }
        k += 1;
    }
    assert(around.take(k as int) == around);
    count
}

/// Cell `c` waits in `work` for the cascade to spread on from it.
spec fn pending(work: Seq<usize>, c: int) -> bool {
    exists|k: int| 0 <= k < work.len() && #[trigger] work[k] == c
}

proof fn lemma_pending_push(work: Seq<usize>, n: usize, c: int)
    ensures
        pending(work.push(n), c) <==> pending(work, c) || c == n,
{
    let more = work.push(n);
    if pending(work, c) {
        let k = choose|k: int| 0 <= k < work.len() && #[trigger] work[k] == c;
        assert(more[k] == c);
    }
    if c == n {
        assert(more[work.len() as int] == c);
    }
    if pending(more, c) {
        let k = choose|k: int| 0 <= k < more.len() && #[trigger] more[k] == c;
        if k < work.len() {
            assert(work[k] == c);
        }
    }
}

proof fn lemma_pending_pop(work: Seq<usize>, c: int)
    requires
        work.len() > 0,
    ensures
        pending(work, c) <==> pending(work.drop_last(), c) || c == work.last(),
{
    let fewer = work.drop_last();
    if pending(fewer, c) {
        let k = choose|k: int| 0 <= k < fewer.len() && #[trigger] fewer[k] == c;
        assert(work[k] == c);
    }
    if c == work.last() {
        assert(work[work.len() - 1] == c);
    }
    if pending(work, c) {
        let k = choose|k: int| 0 <= k < work.len() && #[trigger] work[k] == c;
        if k < fewer.len() {
            assert(fewer[k] == c);
        }
    }
}

/// Uncovering a tile leaves closed what was closed.
proof fn lemma_closed_stays(tiles: Seq<Tile>, n: int, tile: Tile, w: int, h: int, c: int)
    requires
        closed(tiles, w, h, c),
        !tile.clearable(),
        0 <= n < tiles.len(),
    ensures
        closed(tiles.update(n, tile), w, h, c),
{
    let after = tiles.update(n, tile);
    assert forall|m: int| #[trigger] neighbors(w, h, c).contains(m) implies !clearable_at(
        after,
        m,
    ) by {
        assert(!clearable_at(tiles, m));
    }
}

/// Where a cascade stands while it runs: the board came from `before` by
/// uncovering tiles the cascade reaches, every cell in `work` is one to
/// spread on from, and around every other such cell, but for `busy`, nothing
/// is left to uncover.
#[verifier::opaque]
spec fn sweeping(
    before: Seq<Tile>,
    now: Seq<Tile>,
    work: Seq<usize>,
    w: int,
    h: int,
    start: int,
    busy: int,
) -> bool {
    &&& spread(before, now, w, h, start)
    &&& forall|j: int|
        0 <= j < work.len() ==> center(before, now, w, h, start, #[trigger] work[j] as int)
    &&& forall|c: int|
        #[trigger] center(before, now, w, h, start, c) && !pending(work, c) && c != busy ==> closed(
            now,
            w,
            h,
            c,
        )
}

proof fn lemma_sweep_begins(before: Seq<Tile>, w: int, h: int, start: usize)
    requires
        start < before.len(),
    ensures
        sweeping(before, before, seq![start], w, h, start as int, -1),
{
    reveal(sweeping);
    let work = seq![start];
    assert forall|c: int|
        #[trigger] center(before, before, w, h, start as int, c) && !pending(work, c) && c
            != -1 implies closed(before, w, h, c) by {
        assert(work[0] == start);
    }
}

proof fn lemma_sweep_takes(
    before: Seq<Tile>,
    now: Seq<Tile>,
    work: Seq<usize>,
    w: int,
    h: int,
    start: int,
)
    requires
        sweeping(before, now, work, w, h, start, -1),
        work.len() > 0,
    ensures
        sweeping(before, now, work.drop_last(), w, h, start, work.last() as int),
        center(before, now, w, h, start, work.last() as int),
        now.len() == before.len(),
{
    reveal(sweeping);
    let fewer = work.drop_last();
    assert(center(before, now, w, h, start, work[work.len() - 1] as int));
    assert forall|j: int| 0 <= j < fewer.len() implies center(
        before,
        now,
        w,
        h,
        start,
        #[trigger] fewer[j] as int,
    ) by {
        assert(center(before, now, w, h, start, work[j] as int));
    }
    assert forall|c: int|
        #[trigger] center(before, now, w, h, start, c) && !pending(fewer, c) && c
            != work.last() as int implies closed(now, w, h, c) by {
        lemma_pending_pop(work, c);
    }
}

/// Uncovering a tile next to the busy cell: the tile shows its hint, and
/// joins the work when the hint is zero.
proof fn lemma_sweep_uncovers(
    before: Seq<Tile>,
    now: Seq<Tile>,
    work: Seq<usize>,
    w: int,
    h: int,
    start: int,
    busy: int,
    n: usize,
)
    requires
        sweeping(before, now, work, w, h, start, busy),
        center(before, now, w, h, start, busy),
        neighbors(w, h, busy).contains(n as int),
        clearable_at(now, n as int),
    ensures
        hint(now, w, h, n as int) == hint(before, w, h, n as int),
        sweeping(
            before,
            now.update(n as int, uncovered(before, w, h, n as int)),
            if hint(before, w, h, n as int) == 0 {
                work.push(n)
            } else {
                work
            },
            w,
            h,
            start,
            busy,
        ),
        center(before, now.update(n as int, uncovered(before, w, h, n as int)), w, h, start, busy),
        clearable_total(now.update(n as int, uncovered(before, w, h, n as int))) + 1
            == clearable_total(now),
        forall|m: int|
            !clearable_at(now, m) ==> !clearable_at(
                now.update(n as int, uncovered(before, w, h, n as int)),
                m,
            ),
        !clearable_at(now.update(n as int, uncovered(before, w, h, n as int)), n as int),
{
    reveal(sweeping);
    let tile = uncovered(before, w, h, n as int);
    let after = now.update(n as int, tile);
    let more = if hint(before, w, h, n as int) == 0 {
        work.push(n)
    } else {
        work
    };
    assert(now[n as int] == before[n as int]);
    if busy == start {
        lemma_reach_first(before, w, h, start, n as int);
    } else {
        lemma_reach_next(before, w, h, start, busy, n as int);
    }
    assert(same_mines(before, now)) by {
        assert forall|k: int| 0 <= k < before.len() implies before[k].mined()
            == now[k].mined() by {
            assert(now[k] == before[k] || now[k] == uncovered(before, w, h, k));
        }
    }
    lemma_hint_depends_on_mines_only(before, now, w, h, n as int);
    lemma_uncover_one(now, n as int, tile);
    assert(spread(before, after, w, h, start)) by {
        assert forall|c: int| 0 <= c < before.len() implies #[trigger] after[c] == before[c] || (
        before[c].clearable() && cascade_reaches(before, w, h, start, c) && after[c] == uncovered(
            before,
            w,
            h,
            c,
        )) by {
            if c != n {
                assert(now[c] == before[c] || (before[c].clearable() && cascade_reaches(
                    before,
                    w,
                    h,
                    start,
                    c,
                ) && now[c] == uncovered(before, w, h, c)));
            }
        }
    }
    assert forall|j: int| 0 <= j < more.len() implies center(
        before,
        after,
        w,
        h,
        start,
        #[trigger] more[j] as int,
    ) by {
        if j < work.len() {
            assert(center(before, now, w, h, start, work[j] as int));
        }
    }
    assert forall|c: int|
        #[trigger] center(before, after, w, h, start, c) && !pending(more, c) && c
            != busy implies closed(after, w, h, c) by {
        if hint(before, w, h, n as int) == 0 {
            lemma_pending_push(work, n, c);
        }
        assert(center(before, now, w, h, start, c));
        lemma_closed_stays(now, n as int, tile, w, h, c);
    }
}

proof fn lemma_sweep_leaves(
    before: Seq<Tile>,
    now: Seq<Tile>,
    work: Seq<usize>,
    w: int,
    h: int,
    start: int,
    busy: int,
)
    requires
        sweeping(before, now, work, w, h, start, busy),
        closed(now, w, h, busy),
    ensures
        sweeping(before, now, work, w, h, start, -1),
{
    reveal(sweeping);
}

proof fn lemma_sweep_ends(before: Seq<Tile>, now: Seq<Tile>, w: int, h: int, start: int)
    requires
        sweeping(before, now, Seq::<usize>::empty(), w, h, start, -1),
        0 <= start < before.len(),
    ensures
        now == cascade(before, w, h, start),
{
    reveal(sweeping);
    assert forall|c: int| #[trigger] center(before, now, w, h, start, c) implies closed(
        now,
        w,
        h,
        c,
    ) by {
        assert(!pending(Seq::<usize>::empty(), c));
    }
    lemma_spread_to_the_end(before, now, w, h, start);
}

/// Uncovers every tile that a cascade from `index` reaches: the hidden tiles
/// around `index` that have neither mine nor flag, and so on from each tile
/// uncovered that shows no mine around it. Each tile uncovered shows its
/// hint. Flagged tiles, mines and tiles already revealed stay as they are.
pub fn reveal_neighbors(state: &mut GameState, index: usize)
    requires
        old(state)@.wf(),
        index < old(state)@.tiles.len(),
    ensures
        final(state)@ == old(state)@.with_tiles(
            cascade(
                old(state)@.tiles,
                old(state)@.width as int,
                old(state)@.height as int,
                index as int,
            ),
        ),
{
    let ghost before = state@.tiles;
    let ghost w = state@.width as int;
    let ghost h = state@.height as int;
    let ghost start = index as int;
    proof {
        if w == 0 {
            assert(w * h == 0) by (nonlinear_arith)
                requires
                    w == 0,
            ;
        }
        lemma_sweep_begins(before, w, h, index);
    }
    let mut work: Vec<usize> = Vec::new();
    work.push(index);
    assert(work@ == seq![index]);
    while work.len() > 0
        invariant
            state@ == old(state)@.with_tiles(state@.tiles),
            old(state)@.wf(),
            before == old(state)@.tiles,
            state@.tiles.len() == before.len(),
            w == old(state)@.width,
            h == old(state)@.height,
            0 < w,
            0 <= start < before.len(),
            sweeping(before, state@.tiles, work@, w, h, start, -1),
        decreases clearable_total(state@.tiles), work.len(),
    {
        let ghost total_at_pop = clearable_total(state@.tiles);
        let ghost work_at_pop = work@;
        let popped = work.pop();
        let v: usize = popped.unwrap();
        proof {
            assert(work@ == work_at_pop.drop_last());
            lemma_sweep_takes(before, state@.tiles, work_at_pop, w, h, start);
            lemma_neighbors_on_board(w, h, v as int);
        }
        let around = find_neighbors(state, v);
        let ghost touching = neighbors(w, h, v as int);
        let mut k: usize = 0;
        while k < around.len()
            invariant
                k <= around.len(),
                state@ == old(state)@.with_tiles(state@.tiles),
                old(state)@.wf(),
                before == old(state)@.tiles,
                state@.tiles.len() == before.len(),
                w == old(state)@.width,
                h == old(state)@.height,
                0 < w,
                0 <= start < before.len(),
                indices(around@) == touching,
                touching == neighbors(w, h, v as int),
                forall|j: int| 0 <= j < touching.len() ==> 0 <= #[trigger] touching[j] < w * h,
                sweeping(before, state@.tiles, work@, w, h, start, v as int),
                center(before, state@.tiles, w, h, start, v as int),
                forall|j: int| 0 <= j < k ==> !clearable_at(state@.tiles, #[trigger] touching[j]),
                clearable_total(state@.tiles) <= total_at_pop,
                clearable_total(state@.tiles) < total_at_pop || work@.len() == work_at_pop.len() - 1,
            decreases around.len() - k,
        {
            let n: usize = around[k];
            let ghost now = state@.tiles;
            assert(touching[k as int] == n);
            assert(touching.contains(n as int));
            if state.get_tile(n).is_clearable() {
                let hint_found: u32 = calculate_hint(state, n);
                proof {
                    lemma_sweep_uncovers(before, now, work@, w, h, start, v as int, n);
                }
                state.set_tile(n, Tile::Revealed { has_mine: false, hint: hint_found });
                if hint_found == 0 {
                    work.push(n);
                }
            }
            k += 1;
        }
        proof {
            let now = state@.tiles;
            assert(closed(now, w, h, v as int)) by {
                assert forall|m: int| #[trigger] touching.contains(m) implies !clearable_at(
                    now,
                    m,
                ) by {
                    let j = choose|j: int| 0 <= j < touching.len() && touching[j] == m;
                    assert(!clearable_at(now, touching[j]));
                }
            }
            lemma_sweep_leaves(before, now, work@, w, h, start, v as int);
        }
    }
    proof {
        assert(work@ == Seq::<usize>::empty());
        lemma_sweep_ends(before, state@.tiles, w, h, start);
    }
}

/// Lays a mine under the first cells of `order`, one for each mine of the
/// budget, or under all of them if the budget is larger. A cell that is
/// revealed or has a mine already stays as it is; flags stay where they are.
pub fn lay_mines(state: &mut GameState, order: &Vec<usize>)
    requires
        on_board(order@, old(state)@.tiles.len()),
    ensures
        final(state)@ == old(state)@.with_tiles(
            lay(
                old(state)@.tiles,
                order@.take(lesser(old(state)@.starting_mines, order@.len()) as int),
            ),
        ),
{
    let num_mines: usize = state.get_mines() as usize;
    let ghost before = state@.tiles;
    let mut k: usize = 0;
    assert(lay(before, order@.take(0)) =~= before) by {
        assert forall|c: int| !listed(order@.take(0), c) by {}
    }
    while k < order.len() && k < num_mines
        invariant
            k <= order.len(),
            k <= num_mines,
            num_mines == old(state)@.starting_mines,
            before == old(state)@.tiles,
            on_board(order@, before.len()),
            state@ == old(state)@.with_tiles(lay(before, order@.take(k as int))),
        decreases order.len() - k,
    {
        let mine_index: usize = order[k];
        let tile: Tile = *state.get_tile(mine_index);
        proof {
            let chosen = order@.take(k as int);
            let more = order@.take(k + 1);
            assert(more == chosen.push(mine_index));
            assert forall|c: int| 0 <= c < before.len() implies #[trigger] lay(before, more)[c] == (
            if c == mine_index {
                lay(before, chosen)[c].with_mine()
            } else {
                lay(before, chosen)[c]
            }) by {
                if listed(chosen, c) {
                    let a = choose|a: int| 0 <= a < chosen.len() && #[trigger] chosen[a] == c;
                    assert(more[a] == c);
                }
                if c == mine_index {
                    assert(more[k as int] == c);
                }
                if listed(more, c) && c != mine_index {
                    let a = choose|a: int| 0 <= a < more.len() && #[trigger] more[a] == c;
                    assert(chosen[a] == c);
                }
            }
            assert(lay(before, more) =~= lay(before, chosen).update(
                mine_index as int,
                tile.with_mine(),
            ));
        }
        if let Tile::Hidden { has_mine: false, flagged } = tile {
            state.set_tile(mine_index, Tile::Hidden { has_mine: true, flagged });
        } else {
            assert(tile.with_mine() == tile);
            assert(state@.tiles.update(mine_index as int, tile) =~= state@.tiles);
        }
        k += 1;
    }
}

/// Lays the mines of the budget under tiles chosen at random, no tile
/// twice; if the budget is larger than the board, under every tile. On a
/// board of hidden tiles without mines, the board then has exactly that many
/// mines.
pub fn place_mines(state: &mut GameState)
    ensures
        final(state)@ == old(state)@.with_tiles(final(state)@.tiles),
        placement(
            old(state)@.tiles,
            final(state)@.tiles,
            lesser(old(state)@.starting_mines, old(state)@.tiles.len()),
        ),
{
    let total_tiles: usize = state.tile_count();
    let order = shuffled_indices(total_tiles);
    lay_mines(state, &order);
    proof {
        let count = lesser(old(state)@.starting_mines, total_tiles as nat) as int;
        let cells = order@.take(count);
        assert(distinct(cells));
        assert(on_board(cells, old(state)@.tiles.len()));
        assert(final(state)@.tiles == lay(old(state)@.tiles, cells));
    }
}

/// Starts a game of the given difficulty: the board is set up and the mines
/// are laid. What is selected, the input mode and the game mode stay.
pub fn setup(state: &mut GameState, difficulty: &Difficulty)
    ensures
        final(state)@.fresh(difficulty.size().0, difficulty.size().1, difficulty.size().2),
        final(state)@.game_mode == old(state)@.game_mode,
        final(state)@.selected == old(state)@.selected,
        final(state)@.input_mode == old(state)@.input_mode,
{
    let (width, height, num_mines) = difficulty.dimensions();
    state.board_setup(width, height, num_mines);
    place_mines(state);
}

/// A game about to begin on a board of `width` by `height` tiles with
/// `num_mines` mines laid at random, or the error that says that there are
/// more mines than tiles.
pub fn new_game(width: u32, height: u32, num_mines: u32) -> (outcome: Result<GameState, GameError>)
    requires
        width * height <= usize::MAX,
    ensures
        num_mines > width * height ==> outcome == Err::<GameState, GameError>(
            GameError::ConfigurationError,
        ),
        num_mines <= width * height ==> outcome is Ok && outcome.unwrap()@.fresh(
            width as nat,
            height as nat,
            num_mines as nat,
        ) && outcome.unwrap()@.game_mode == GameView::initial().game_mode
            && outcome.unwrap()@.selected == GameView::initial().selected
            && outcome.unwrap()@.input_mode == GameView::initial().input_mode,
{
    let total: usize = (width as usize) * (height as usize);
    if num_mines as usize > total {
        return Err(GameError::ConfigurationError);
    }
    let mut state = GameState::new();
    state.board_setup(width, height, num_mines);
    place_mines(&mut state);
    Ok(state)
}

/// Marks the game as won if every safe tile is uncovered and every mine is
/// still hidden. A game once won stays won.
pub fn check_for_win(state: &mut GameState)
    ensures
        final(state)@ == (GameView {
            game_won: old(state)@.game_won || all_settled(old(state)@.tiles),
            ..old(state)@
        }),
{
    let mut winner = true;
    let total: usize = state.tile_count();
    let mut k: usize = 0;
    while k < total && winner
        invariant
            k <= total,
            total == state@.tiles.len(),
            state@ == old(state)@,
            winner ==> forall|c: int| 0 <= c < k ==> #[trigger] state@.tiles[c].settled(),
            !winner ==> !all_settled(state@.tiles),
        decreases total - k + if winner { 1int } else { 0int },
    {
        if !state.get_tile(k).is_settled() {
            winner = false;
        } else {
            k += 1;
        }
    }
    if winner {
        state.set_won(winner);
    }
}

/// Whether the player has to confirm `action` on the tile at `index`: the
/// tile is to be uncovered and carries a flag.
pub fn needs_confirmation(state: &GameState, index: usize, action: Action) -> (needed: bool)
    ensures
        needed == (index < state@.tiles.len() && action == Action::Reveal
            && state@.tiles[index as int].flagged()),
{
    if index >= state.tile_count() {
        return false;
    }
    match action {
        Action::Reveal => state.get_tile(index).is_flagged(),
        Action::ToggleFlag => false,
    }
}

/// Selects the tile at `index` and does `action` to it.
///
/// A flag is set on an unflagged tile or cleared from a flagged one, and the
/// mines remaining go down or up by one, within zero and the mine budget. A
/// tile to uncover is revealed: with its hint, or as an exploded mine. A
/// flagged tile is uncovered only when `confirmed`.
///
/// The selection is turned down, and nothing changes, when `index` is not on
/// the board, when the tile is already revealed, and when a flagged tile is
/// to be uncovered without confirmation.
pub fn process_input(state: &mut GameState, index: usize, action: Action, confirmed: bool) -> (outcome:
    Result<(), GameError>)
    requires
        old(state)@.wf(),
    ensures
        old(state)@.refuses(index as int, action, confirmed) ==> outcome == Err::<(), GameError>(
            GameError::InvalidSelection,
        ) && final(state)@ == old(state)@,
        !old(state)@.refuses(index as int, action, confirmed) ==> outcome == Ok::<(), GameError>(())
            && final(state)@ == old(state)@.select(index as int, action),
{
    if index >= state.tile_count() {
        return Err(GameError::InvalidSelection);
    }
    let tile: Tile = *state.get_tile(index);
    match tile {
        Tile::Revealed { .. } => Err(GameError::InvalidSelection),
        Tile::Hidden { has_mine, flagged } => {
            match action {
                Action::ToggleFlag => {
                    let mine_count: u32 = state.get_mine_count();
                    let max_mines: u32 = state.get_mines();
                    state.set_input_mode(InputMode::Flag);
                    state.select_tile(index);
                    state.set_tile(index, Tile::Hidden { has_mine, flagged: !flagged });
                    if flagged {
                        if mine_count < max_mines {
                            state.increment_mine_count();
                        }
                    } else {
                        if mine_count > 0 {
                            state.decrement_mine_count();
                        }
                    }
                    Ok(())
                },
                Action::Reveal => {
                    if flagged && !confirmed {
                        return Err(GameError::InvalidSelection);
                    }
                    let stored_hint: u32 = calculate_hint(state, index);
                    state.set_input_mode(InputMode::Clear);
                    state.select_tile(index);
                    state.set_tile(
                        index,
                        Tile::Revealed {
                            has_mine,
                            hint: if has_mine {
                                EXPLODED_HINT
                            } else {
                                stored_hint
                            },
                        },
                    );
                    Ok(())
                },
            }
        },
    }
}

/// Finishes the turn after a selection: the turn is counted; if the selected
/// tile is an uncovered mine the game is lost and every hidden mine is
/// uncovered; if it was uncovered and shows no mine around it, the region
/// around it is opened; and the game is checked for a win.
pub fn update(state: &mut GameState)
    requires
        old(state)@.wf(),
        old(state)@.turn_count < u32::MAX,
        old(state)@.selected matches Some(index) && index < old(state)@.tiles.len(),
    ensures
        final(state)@ == old(state)@.update(),
{
    state.increment_turn_count();

    let index: usize = state.get_selected();
    let stored_hint: u32 = calculate_hint(state, index);
    let exploded: bool = match state.get_tile(index) {
        Tile::Revealed { has_mine: true, .. } => true,
        _ => false,
    };

    if exploded {
        state.set_game_over(true);

        let ghost before = state@.tiles;
        let total: usize = state.tile_count();
        let mut k: usize = 0;
        while k < total
            invariant
                k <= total,
                total == before.len(),
                state@ == (GameView {
                    turn_count: old(state)@.turn_count + 1,
                    game_over: true,
                    tiles: state@.tiles,
                    ..old(state)@
                }),
                before == old(state)@.tiles,
                state@.tiles.len() == before.len(),
                forall|c: int| 0 <= c < k ==> #[trigger] state@.tiles[c] == before[c].exposed(),
                forall|c: int| k <= c < total ==> #[trigger] state@.tiles[c] == before[c],
            decreases total - k,
        {
            let tile: Tile = *state.get_tile(k);
            if let Tile::Hidden { has_mine: true, .. } = tile {
                state.set_tile(k, Tile::Revealed { has_mine: true, hint: EXPLODED_HINT });
            }
            k += 1;
        }
        assert(state@.tiles =~= expose_mines(before));
    } else if state.get_input_mode() == InputMode::Clear && stored_hint == 0 {
        reveal_neighbors(state, index);
    }

    check_for_win(state);
}

/// Plays one turn: does `action` to the tile at `index`.
///
/// Nothing happens to a game that is lost or won, nor when the selection is
/// turned down (see [`process_input`]); the outcome says which. Otherwise
/// the tile is flagged, unflagged or uncovered, and the turn is finished as
/// [`update`] says.
pub fn apply(state: &mut GameState, index: usize, action: Action, confirmed: bool) -> (outcome: Result<
    (),
    GameError,
>)
    requires
        old(state)@.wf(),
        old(state)@.turn_count < u32::MAX,
    ensures
        old(state)@.phase() != Phase::Playing ==> outcome == Err::<(), GameError>(
            GameError::InvalidPhase,
        ) && final(state)@ == old(state)@,
        old(state)@.phase() == Phase::Playing && old(state)@.refuses(index as int, action, confirmed)
            ==> outcome == Err::<(), GameError>(GameError::InvalidSelection) && final(state)@ == old(
            state,
        )@,
        old(state)@.phase() == Phase::Playing && !old(state)@.refuses(
            index as int,
            action,
            confirmed,
        ) ==> outcome == Ok::<(), GameError>(()) && final(state)@ == old(state)@.play(
            index as int,
            action,
        ),
        final(state)@.wf(),
        final(state)@.mine_count <= final(state)@.starting_mines,
{
    match state.phase() {
        Phase::Playing => {},
        _ => {
            return Err(GameError::InvalidPhase);
        },
    }
    match process_input(state, index, action, confirmed) {
        Err(error) => Err(error),
        Ok(()) => {
            proof {
                lemma_turn_keeps_count_in_range(old(state)@, index as int, action);
            }
            update(state);
            Ok(())
        },
    }
}

/// What the choice made at the menu leads to: to play on the easy board, to
/// quit, or, after the difficulty is asked for with `config`, to play on the
/// board of that difficulty. `config` is called only when the choice is to
/// configure.
pub fn menu<F: FnOnce() -> Difficulty>(game_mode: GameMode, config: F) -> (choice: (
    GameMode,
    Difficulty,
))
    requires
        game_mode == GameMode::Config ==> config.requires(()),
    ensures
        game_mode != GameMode::Config ==> choice == (game_mode, Difficulty::Easy),
        game_mode == GameMode::Config ==> choice.0 == GameMode::Play && config.ensures(
            (),
            choice.1,
        ),
{
    match game_mode {
        GameMode::Play | GameMode::Quit => (game_mode, Difficulty::Easy),
        GameMode::Config => {
            let difficulty = config();
            (GameMode::Play, difficulty)
        },
    }
}

/// The letter that names column `col`: `A` for the first, `B` for the next,
/// and so on through the characters that follow. Only the low eight bits of
/// `col` count, and they must leave room for the step from `A`.
pub fn column_to_letter(col: u32) -> (letter: char)
    requires
        col % 256 <= 190,
    ensures
        letter as int == 'A' as int + col % 256,
{
    assert((col as u8) as u32 == col % 256) by (bit_vector);
    ((col as u8) + ('A' as u8)) as char
}

} // verus!
