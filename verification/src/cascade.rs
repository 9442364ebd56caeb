//! What a cascade uncovers.
//!
//! Uncovering a tile that shows no mine around it opens the tiles around it,
//! and so on from every tile opened that shows none either. Which tiles end
//! up uncovered does not depend on the order in which they are visited: it is
//! the set of tiles that a path of such steps leads to.

use vstd::prelude::*;
use crate::grid::{hint, lemma_count_mines_bound, lemma_neighbors_on_board, neighbors, same_mines};
use crate::tile::Tile;

verus! {

/// Cell `n` exists and a cascade may uncover it: hidden, no mine, no flag.
pub open spec fn clearable_at(tiles: Seq<Tile>, n: int) -> bool {
    0 <= n < tiles.len() && tiles[n].clearable()
}

/// The cascade spreads from `path[k - 1]` to `path[k]`: the two touch, the
/// second may be uncovered, and the first is where the cascade began or
/// shows no mine around it.
pub open spec fn spreads_to(tiles: Seq<Tile>, w: int, h: int, path: Seq<int>, k: int) -> bool {
    &&& neighbors(w, h, path[k - 1]).contains(path[k])
    &&& clearable_at(tiles, path[k])
    &&& k >= 2 ==> hint(tiles, w, h, path[k - 1]) == 0
}

/// `path` is a way a cascade takes from its first cell to its last.
pub open spec fn cascade_path(tiles: Seq<Tile>, w: int, h: int, path: Seq<int>) -> bool {
    &&& path.len() >= 2
    &&& forall|k: int| 1 <= k < path.len() ==> #[trigger] spreads_to(tiles, w, h, path, k)
}

/// A cascade that begins at `start` uncovers cell `c`.
pub open spec fn cascade_reaches(tiles: Seq<Tile>, w: int, h: int, start: int, c: int) -> bool {
    exists|path: Seq<int>|
        #[trigger] cascade_path(tiles, w, h, path) && path[0] == start && path.last() == c
}

/// Cell `c` once uncovered: no mine, and the number of mines around it.
pub open spec fn uncovered(tiles: Seq<Tile>, w: int, h: int, c: int) -> Tile {
    Tile::Revealed { has_mine: false, hint: hint(tiles, w, h, c) as u32 }
}

/// The board after a cascade that begins at `start`: every tile the cascade
/// reaches is uncovered and shows its hint, every other tile is as before.
pub open spec fn cascade(tiles: Seq<Tile>, w: int, h: int, start: int) -> Seq<Tile> {
    Seq::new(
        tiles.len(),
        |c: int|
            if cascade_reaches(tiles, w, h, start, c) {
                uncovered(tiles, w, h, c)
            } else {
                tiles[c]
            },
    )
}

/// No tile around `c` is left that a cascade could uncover.
pub open spec fn closed(tiles: Seq<Tile>, w: int, h: int, c: int) -> bool {
    forall|n: int| #[trigger] neighbors(w, h, c).contains(n) ==> !clearable_at(tiles, n)
}

/// `now` came from `before` by uncovering tiles that a cascade from `start`
/// reaches, and by nothing else.
pub open spec fn spread(before: Seq<Tile>, now: Seq<Tile>, w: int, h: int, start: int) -> bool {
    &&& now.len() == before.len()
    &&& forall|c: int|
        0 <= c < before.len() ==> #[trigger] now[c] == before[c] || (before[c].clearable()
            && cascade_reaches(before, w, h, start, c) && now[c] == uncovered(before, w, h, c))
}

/// The cascade spreads on from `c`: it began there, or it uncovered `c` and
/// found no mine around it.
pub open spec fn center(before: Seq<Tile>, now: Seq<Tile>, w: int, h: int, start: int, c: int) -> bool {
    &&& 0 <= c < before.len()
    &&& c == start || (before[c].clearable() && !now[c].clearable() && hint(before, w, h, c) == 0)
}

/// The number of tiles that a cascade could still uncover.
pub open spec fn clearable_total(tiles: Seq<Tile>) -> nat
    decreases tiles.len(),
{
    if tiles.len() == 0 {
        0
    } else {
        clearable_total(tiles.drop_last()) + if tiles.last().clearable() {
            1nat
        } else {
            0nat
        }
    }
}

/// Uncovering one tile leaves one tile less to uncover.
pub proof fn lemma_uncover_one(tiles: Seq<Tile>, n: int, tile: Tile)
    requires
        clearable_at(tiles, n),
        !tile.clearable(),
    ensures
        clearable_total(tiles.update(n, tile)) + 1 == clearable_total(tiles),
    decreases tiles.len(),
{
    let after = tiles.update(n, tile);
    if n == tiles.len() - 1 {
        assert(after.drop_last() == tiles.drop_last());
    } else {
        assert(after.drop_last() == tiles.drop_last().update(n, tile));
        lemma_uncover_one(tiles.drop_last(), n, tile);
    }
}

/// The cascade reaches every tile that touches its start and may be
/// uncovered.
pub proof fn lemma_reach_first(tiles: Seq<Tile>, w: int, h: int, start: int, n: int)
    requires
        neighbors(w, h, start).contains(n),
        clearable_at(tiles, n),
    ensures
        cascade_reaches(tiles, w, h, start, n),
{
    let path = seq![start, n];
    assert forall|k: int| 1 <= k < path.len() implies #[trigger] spreads_to(tiles, w, h, path, k) by {
        assert(path[0] == start && path[1] == n);
    }
    assert(cascade_path(tiles, w, h, path) && path[0] == start && path.last() == n);
}

/// From a tile it reaches that shows no mine around it, the cascade reaches
/// every tile that touches it and may be uncovered.
pub proof fn lemma_reach_next(tiles: Seq<Tile>, w: int, h: int, start: int, v: int, n: int)
    requires
        cascade_reaches(tiles, w, h, start, v),
        hint(tiles, w, h, v) == 0,
        neighbors(w, h, v).contains(n),
        clearable_at(tiles, n),
    ensures
        cascade_reaches(tiles, w, h, start, n),
{
    let to_v = choose|path: Seq<int>|
        #[trigger] cascade_path(tiles, w, h, path) && path[0] == start && path.last() == v;
    let path = to_v.push(n);
    assert forall|k: int| 1 <= k < path.len() implies #[trigger] spreads_to(tiles, w, h, path, k) by {
        if k < to_v.len() {
            assert(spreads_to(tiles, w, h, to_v, k));
            assert(path[k] == to_v[k] && path[k - 1] == to_v[k - 1]);
        } else {
            assert(path[k] == n && path[k - 1] == v);
        }
    }
    assert(cascade_path(tiles, w, h, path) && path[0] == start && path.last() == n);
}

/// Once nothing is left to uncover around any cell the cascade spreads from,
/// every cell on a path of the cascade is uncovered.
proof fn lemma_path_uncovered(
    before: Seq<Tile>,
    now: Seq<Tile>,
    w: int,
    h: int,
    path: Seq<int>,
    k: int,
)
    requires
        cascade_path(before, w, h, path),
        spread(before, now, w, h, path[0]),
        forall|c: int| #[trigger] center(before, now, w, h, path[0], c) ==> closed(now, w, h, c),
        1 <= k < path.len(),
        0 <= path[0] < before.len(),
    ensures
        now[path[k]] == uncovered(before, w, h, path[k]),
    decreases k,
{
    assert(spreads_to(before, w, h, path, k));
    if k == 1 {
        assert(center(before, now, w, h, path[0], path[0]));
    } else {
        lemma_path_uncovered(before, now, w, h, path, k - 1);
        assert(spreads_to(before, w, h, path, k - 1));
        assert(center(before, now, w, h, path[0], path[k - 1]));
    }
    assert(closed(now, w, h, path[k - 1]));
    assert(neighbors(w, h, path[k - 1]).contains(path[k]));
    assert(!clearable_at(now, path[k]));
    assert(now[path[k]] == before[path[k]] || now[path[k]] == uncovered(before, w, h, path[k]));
}

/// A board on which the cascade has spread as far as it goes is the board
/// that [`cascade`] describes.
pub proof fn lemma_spread_to_the_end(before: Seq<Tile>, now: Seq<Tile>, w: int, h: int, start: int)
    requires
        0 <= start < before.len(),
        spread(before, now, w, h, start),
        forall|c: int| #[trigger] center(before, now, w, h, start, c) ==> closed(now, w, h, c),
    ensures
        now == cascade(before, w, h, start),
{
    let goal = cascade(before, w, h, start);
    assert forall|c: int| 0 <= c < now.len() implies now[c] == goal[c] by {
        if cascade_reaches(before, w, h, start, c) {
            let path = choose|path: Seq<int>|
                #[trigger] cascade_path(before, w, h, path) && path[0] == start && path.last() == c;
            lemma_path_uncovered(before, now, w, h, path, path.len() - 1);
        } else {
            assert(now[c] == before[c] || (before[c].clearable() && cascade_reaches(
                before,
                w,
                h,
                start,
                c,
            ) && now[c] == uncovered(before, w, h, c)));
        }
    }
    assert(now =~= goal);
}

/// A cascade uncovers only tiles that were hidden without a mine and without
/// a flag: mines stay where they are, flags stay, and nothing that was
/// revealed changes.
pub proof fn lemma_cascade_spares_mines_and_flags(tiles: Seq<Tile>, w: int, h: int, start: int)
    ensures
        same_mines(tiles, cascade(tiles, w, h, start)),
        forall|c: int|
            0 <= c < tiles.len() && !tiles[c].clearable() ==> #[trigger] cascade(
                tiles,
                w,
                h,
                start,
            )[c] == tiles[c],
{
    let after = cascade(tiles, w, h, start);
    assert forall|c: int|
        #![trigger after[c]]
        0 <= c < tiles.len() implies (after[c].mined() == tiles[c].mined() && (
        !tiles[c].clearable() ==> after[c] == tiles[c])) by {
        if cascade_reaches(tiles, w, h, start, c) {
            let path = choose|path: Seq<int>|
                #[trigger] cascade_path(tiles, w, h, path) && path[0] == start && path.last() == c;
            assert(spreads_to(tiles, w, h, path, path.len() - 1));
        }
    }
}

/// A cascade leaves nothing to uncover around the tile it began at, nor
/// around any tile it uncovered that shows no mine around it: the region it
/// opens cannot be made larger.
pub proof fn lemma_cascade_is_maximal(tiles: Seq<Tile>, w: int, h: int, start: int, c: int)
    requires
        c == start || (cascade_reaches(tiles, w, h, start, c) && hint(tiles, w, h, c) == 0),
    ensures
        closed(cascade(tiles, w, h, start), w, h, c),
{
    let after = cascade(tiles, w, h, start);
    assert forall|n: int| #[trigger] neighbors(w, h, c).contains(n) implies !clearable_at(after, n) by {
        if 0 <= n < tiles.len() {
            if tiles[n].clearable() {
                if c == start {
                    lemma_reach_first(tiles, w, h, start, n);
                } else {
                    lemma_reach_next(tiles, w, h, start, c, n);
                }
            } else {
                lemma_cascade_spares_mines_and_flags(tiles, w, h, start);
            }
        }
    }
}

/// A hint is a number from 0 to 8.
pub proof fn lemma_hint_bound(tiles: Seq<Tile>, w: int, h: int, c: int)
    requires
        0 < w,
        0 <= c < w * h,
    ensures
        hint(tiles, w, h, c) <= 8,
{
    lemma_neighbors_on_board(w, h, c);
    lemma_count_mines_bound(tiles, neighbors(w, h, c));
}

} // verus!
