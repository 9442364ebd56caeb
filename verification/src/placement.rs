//! Choosing where the mines go.
//!
//! The cells of the board are put in a random order, and the mines go under
//! the first cells of that order, one for each mine of the budget.

use vstd::prelude::*;
use crate::grid::mine_total;
use crate::random::random_up_to;
use crate::tile::Tile;

verus! {

/// Cell `c` is one of `cells`.
pub open spec fn listed(cells: Seq<usize>, c: int) -> bool {
    exists|k: int| 0 <= k < cells.len() && #[trigger] cells[k] == c
}

/// No cell occurs twice in `cells`.
pub open spec fn distinct(cells: Seq<usize>) -> bool {
    forall|a: int, b: int| 0 <= a < b < cells.len() ==> cells[a] != cells[b]
}

/// Every one of `cells` is a cell of a board of `n` tiles.
pub open spec fn on_board(cells: Seq<usize>, n: nat) -> bool {
    forall|a: int| 0 <= a < cells.len() ==> #[trigger] cells[a] < n
}

/// `order` holds each of the cells `0` to `n - 1` once.
pub open spec fn is_shuffle(order: Seq<usize>, n: nat) -> bool {
    &&& order.len() == n
    &&& on_board(order, n)
    &&& distinct(order)
}

/// The board with a mine laid under each of `cells` that is hidden and has
/// none yet. Flags stay where they are.
pub open spec fn lay(tiles: Seq<Tile>, cells: Seq<usize>) -> Seq<Tile> {
    Seq::new(
        tiles.len(),
        |c: int|
            if listed(cells, c) {
                tiles[c].with_mine()
            } else {
                tiles[c]
            },
    )
}

/// Every tile is hidden and has no mine.
pub open spec fn unmined(tiles: Seq<Tile>) -> bool {
    forall|c: int| 0 <= c < tiles.len() ==> #[trigger] tiles[c] is Hidden && !tiles[c].mined()
}

/// `after` is `before` with mines laid under `count` different cells.
pub open spec fn placement(before: Seq<Tile>, after: Seq<Tile>, count: nat) -> bool {
    exists|cells: Seq<usize>|
        cells.len() == count && distinct(cells) && on_board(cells, before.len())
            && after == #[trigger] lay(before, cells)
}

/// The smaller of two numbers.
pub open spec fn lesser(a: nat, b: nat) -> nat {
    if a <= b {
        a
    } else {
        b
    }
}

proof fn lemma_listed_push(cells: Seq<usize>, n: usize, c: int)
    ensures
        listed(cells.push(n), c) <==> listed(cells, c) || c == n,
{
    let more = cells.push(n);
    if listed(cells, c) {
        let k = choose|k: int| 0 <= k < cells.len() && #[trigger] cells[k] == c;
        assert(more[k] == c);
    }
    if c == n {
        assert(more[cells.len() as int] == c);
    }
    if listed(more, c) {
        let k = choose|k: int| 0 <= k < more.len() && #[trigger] more[k] == c;
        if k < cells.len() {
            assert(cells[k] == c);
        }
    }
}

/// Giving one tile a mine that had none makes one mine more.
proof fn lemma_one_more_mine(tiles: Seq<Tile>, n: int, tile: Tile)
    requires
        0 <= n < tiles.len(),
        !tiles[n].mined(),
        tile.mined(),
    ensures
        mine_total(tiles.update(n, tile)) == mine_total(tiles) + 1,
    decreases tiles.len(),
{
    let after = tiles.update(n, tile);
    if n == tiles.len() - 1 {
        assert(after.drop_last() == tiles.drop_last());
    } else {
        assert(after.drop_last() == tiles.drop_last().update(n, tile));
        lemma_one_more_mine(tiles.drop_last(), n, tile);
    }
}

/// Laying one mine more: the board with mines under `cells` and then under
/// `n` is the board with mines under `cells.push(n)`.
proof fn lemma_lay_push(tiles: Seq<Tile>, cells: Seq<usize>, n: usize)
    requires
        n < tiles.len(),
        !listed(cells, n as int),
    ensures
        lay(tiles, cells.push(n)) == lay(tiles, cells).update(n as int, tiles[n as int].with_mine()),
{
    let more = lay(tiles, cells.push(n));
    let step = lay(tiles, cells).update(n as int, tiles[n as int].with_mine());
    assert forall|c: int| 0 <= c < tiles.len() implies more[c] == step[c] by {
        lemma_listed_push(cells, n, c);
    }
    assert(more =~= step);
}

/// A board without mines has none.
pub proof fn lemma_unmined_total(tiles: Seq<Tile>)
    requires
        unmined(tiles),
    ensures
        mine_total(tiles) == 0,
    decreases tiles.len(),
{
    if tiles.len() > 0 {
        let fewer = tiles.drop_last();
        assert forall|c: int| 0 <= c < fewer.len() implies #[trigger] fewer[c] is Hidden
            && !fewer[c].mined() by {
            assert(fewer[c] == tiles[c]);
        }
        lemma_unmined_total(fewer);
        assert(tiles.last() == tiles[tiles.len() - 1]);
    }
}

/// Mines laid under different cells of a board that had none are as many as
/// the cells chosen.
pub proof fn lemma_lay_total(tiles: Seq<Tile>, cells: Seq<usize>)
    requires
        unmined(tiles),
        distinct(cells),
        on_board(cells, tiles.len()),
    ensures
        mine_total(lay(tiles, cells)) == cells.len(),
    decreases cells.len(),
{
    if cells.len() == 0 {
        assert(lay(tiles, cells) =~= tiles);
        lemma_unmined_total(tiles);
    } else {
        let fewer = cells.drop_last();
        let n = cells.last();
        assert(cells == fewer.push(n));
        assert(!listed(fewer, n as int)) by {
            if listed(fewer, n as int) {
                let k = choose|k: int| 0 <= k < fewer.len() && #[trigger] fewer[k] == n as int;
                assert(cells[k] == cells[cells.len() - 1]);
            }
        }
        assert(distinct(fewer) && on_board(fewer, tiles.len())) by {
            assert forall|a: int| 0 <= a < fewer.len() implies #[trigger] fewer[a] < tiles.len() by {
                assert(cells[a] < tiles.len());
            }
        }
        lemma_lay_total(tiles, fewer);
        lemma_lay_push(tiles, fewer, n);
        assert(tiles[n as int] is Hidden && !tiles[n as int].mined());
        assert(lay(tiles, fewer)[n as int] == tiles[n as int]);
        lemma_one_more_mine(lay(tiles, fewer), n as int, tiles[n as int].with_mine());
    }
}

/// After a placement on a board that had no mines, the board has as many
/// mines as were asked for, each under a hidden tile, and the flags are
/// where they were.
pub proof fn lemma_placement_total(before: Seq<Tile>, after: Seq<Tile>, count: nat)
    requires
        unmined(before),
        placement(before, after, count),
    ensures
        mine_total(after) == count,
        after.len() == before.len(),
        forall|c: int|
            0 <= c < after.len() ==> #[trigger] after[c] is Hidden && after[c].flagged()
                == before[c].flagged(),
{
    let cells = choose|cells: Seq<usize>|
        cells.len() == count && distinct(cells) && on_board(cells, before.len()) && after
            == #[trigger] lay(before, cells);
    lemma_lay_total(before, cells);
    assert forall|c: int| 0 <= c < after.len() implies #[trigger] after[c] is Hidden
        && after[c].flagged() == before[c].flagged() by {
        assert(before[c] is Hidden);
    }
}

/// The cells `0` to `total - 1` in a random order.
///
/// The order is drawn by the Fisher-Yates shuffle: from the last position
/// down to the second, the cell there changes places with the cell at a
/// position drawn at random from those not past it.
pub fn shuffled_indices(total: usize) -> (order: Vec<usize>)
    ensures
        is_shuffle(order@, total as nat),
{
    let mut order: Vec<usize> = Vec::new();
    let mut next: usize = 0;
    while next < total
        invariant
            next <= total,
            order@.len() == next,
            forall|a: int| 0 <= a < next ==> order@[a] == a,
        decreases total - next,
    {
        order.push(next);
        next += 1;
    }
    let mut rng = rand::thread_rng();
    let mut i: usize = total;
    while i > 1
        invariant
            i <= total,
            is_shuffle(order@, total as nat),
        decreases i,
    {
        i -= 1;
        let j: usize = random_up_to(&mut rng, i);
        let at_i: usize = order[i];
        let at_j: usize = order[j];
        let ghost unswapped = order@;
        order.set(i, at_j);
        order.set(j, at_i);
        proof {
            assert forall|a: int, b: int| 0 <= a < b < order@.len() implies order@[a]
                != order@[b] by {
                let from_a = if a == i { j as int } else if a == j { i as int } else { a };
                let from_b = if b == i { j as int } else if b == j { i as int } else { b };
                assert(order@[a] == unswapped[from_a]);
                assert(order@[b] == unswapped[from_b]);
                if from_a < from_b {
                    assert(unswapped[from_a] != unswapped[from_b]);
                } else {
                    assert(unswapped[from_b] != unswapped[from_a]);
                }
            }
        }
    }
    order
}

} // verus!
