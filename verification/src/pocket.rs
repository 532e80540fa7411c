//! The cascade seen from the board: opening a square that no mine touches
//! opens the pocket of such squares around it and the ring of squares that
//! touch the pocket, and nothing else.

use vstd::prelude::*;
use crate::board::{laid_out, Board};
use crate::edge::{lemma_neighbourhood, lemma_touch_is_mutual, neighbours};
use crate::flood::{carries, flooded, lemma_reach_on, reached, surrounded, touches_next, trail};
use crate::numbering::placed;
use crate::play::{lemma_index_on_board, PlayerAction};
use crate::square::{Mine, Square};

verus! {

/// `path` is a chain from `start`: it begins there, each of its squares
/// touches the one before, and no mine touches any of them.
pub open spec fn chain(squares: Seq<Square>, width: int, start: int, path: Seq<int>) -> bool {
    &&& path.len() >= 1
    &&& path[0] == start
    &&& forall|k: int| 0 <= k < path.len() ==> 0 <= #[trigger] path[k] < squares.len()
    &&& forall|k: int| 0 <= k < path.len() - 1 ==> #[trigger] touches_next(squares, width, path, k)
    &&& forall|k: int| 0 <= k < path.len() ==> squares[#[trigger] path[k]].mine == Mine::Count(0)
}

/// The square `z` lies in the pocket of `start`: a chain of squares that no
/// mine touches joins the two.
pub open spec fn in_pocket(squares: Seq<Square>, width: int, start: int, z: int) -> bool {
    exists|path: Seq<int>| #[trigger] chain(squares, width, start, path) && path.last() == z
}

/// The square `c` lies in the ring of `start`: it touches a square of the
/// pocket.
pub open spec fn in_ring(squares: Seq<Square>, width: int, start: int, c: int) -> bool {
    exists|z: int|
        #[trigger] in_pocket(squares, width, start, z) && neighbours(
            z,
            squares[z].edge,
            width,
        ).contains(c)
}

/// Around every opened square that no mine touches, every square is
/// opened: the state of a board on which every cascade has run.
pub open spec fn settled(squares: Seq<Square>, width: int) -> bool {
    forall|z: int|
        0 <= z < squares.len() && (#[trigger] squares[z]).opened && squares[z].mine == Mine::Count(
            0,
        ) ==> surrounded(squares, squares, width, z)
}

/// A square that another lists touches it on the board, and lists it too.
proof fn lemma_listed_back(squares: Seq<Square>, width: int, height: int, z: int, n: int)
    requires
        placed(squares, width, height),
        0 <= z < squares.len(),
        neighbours(z, squares[z].edge, width).contains(n),
    ensures
        0 <= n < squares.len(),
        neighbours(n, squares[n].edge, width).contains(z),
{
    lemma_neighbourhood(z, width, height);
    let near = neighbours(z, squares[z].edge, width);
    let i = choose|i: int| 0 <= i < near.len() && near[i] == n;
    assert(0 <= near[i] < squares.len());
    lemma_touch_is_mutual(z, n, width, height);
}

/// On a settled board, a square listed by an opened square that no mine
/// touches is opened.
proof fn lemma_settled_opens(squares: Seq<Square>, width: int, z: int, n: int)
    requires
        settled(squares, width),
        0 <= z < squares.len(),
        squares[z].opened,
        squares[z].mine == Mine::Count(0),
        neighbours(z, squares[z].edge, width).contains(n),
    ensures
        squares[n].opened,
{
    assert(surrounded(squares, squares, width, z));
    let near = neighbours(z, squares[z].edge, width);
    let i = choose|i: int| 0 <= i < near.len() && near[i] == n;
    assert(squares[near[i]].opened);
}

/// On a settled board the pocket of a closed square is closed.
proof fn lemma_closed_pocket(
    squares: Seq<Square>,
    width: int,
    height: int,
    start: int,
    path: Seq<int>,
    j: int,
)
    requires
        placed(squares, width, height),
        settled(squares, width),
        chain(squares, width, start, path),
        !squares[start].opened,
        0 <= j < path.len(),
    ensures
        !squares[path[j]].opened,
    decreases j,
{
    if j > 0 {
        lemma_closed_pocket(squares, width, height, start, path, j - 1);
        let z = path[j - 1];
        let n = path[j];
        assert(touches_next(squares, width, path, j - 1));
        lemma_listed_back(squares, width, height, z, n);
        if squares[n].opened {
            lemma_settled_opens(squares, width, n, z);
        }
    }
}

/// On a settled board the pocket of an opened square is opened.
proof fn lemma_opened_pocket(
    squares: Seq<Square>,
    width: int,
    start: int,
    path: Seq<int>,
    j: int,
)
    requires
        settled(squares, width),
        chain(squares, width, start, path),
        squares[start].opened,
        0 <= j < path.len(),
    ensures
        squares[path[j]].opened,
    decreases j,
{
    if j > 0 {
        lemma_opened_pocket(squares, width, start, path, j - 1);
        assert(touches_next(squares, width, path, j - 1));
        lemma_settled_opens(squares, width, path[j - 1], path[j]);
    }
}

/// The cascade from a square just opened reaches every other square of
/// its pocket.
proof fn lemma_pocket_is_reached(
    before: Seq<Square>,
    marked: Seq<Square>,
    width: int,
    height: int,
    start: int,
    path: Seq<int>,
    j: int,
)
    requires
        placed(before, width, height),
        settled(before, width),
        0 <= start < before.len(),
        !before[start].opened,
        marked == before.update(start, Square { opened: true, ..before[start] }),
        chain(before, width, start, path),
        0 <= j < path.len(),
    ensures
        path[j] == start || (carries(marked[path[j]]) && reached(marked, width, start, path[j])),
    decreases j,
{
    if j > 0 {
        lemma_pocket_is_reached(before, marked, width, height, start, path, j - 1);
        lemma_closed_pocket(before, width, height, start, path, j);
        let z = path[j - 1];
        let n = path[j];
        assert(touches_next(before, width, path, j - 1));
        let near = neighbours(z, marked[z].edge, width);
        let i = choose|i: int| 0 <= i < near.len() && near[i] == n;
        assert(placed(marked, width, height));
        lemma_reach_on(marked, width, height, start, z, i);
    }
}

/// A trail without its last square is a chain.
proof fn lemma_trail_is_chain(
    before: Seq<Square>,
    marked: Seq<Square>,
    width: int,
    start: int,
    path: Seq<int>,
)
    requires
        0 <= start < before.len(),
        before[start].mine == Mine::Count(0),
        marked == before.update(start, Square { opened: true, ..before[start] }),
        trail(marked, width, start, path),
    ensures
        chain(before, width, start, path.drop_last()),
        in_ring(before, width, start, path.last()),
{
    let front = path.drop_last();
    assert forall|k: int| 0 <= k < front.len() - 1 implies #[trigger] touches_next(
        before,
        width,
        front,
        k,
    ) by {
        assert(touches_next(marked, width, path, k));
    }
    assert forall|k: int| 0 <= k < front.len() implies before[#[trigger] front[k]].mine
        == Mine::Count(0) by {
        if k > 0 {
            assert(carries(marked[path[k]]));
        }
    }
    assert(chain(before, width, start, front));
    let last = path.len() - 2;
    assert(front.last() == path[last]);
    assert(in_pocket(before, width, start, path[last]));
    assert(touches_next(marked, width, path, last));
}

/// Opening a square that no mine touches, on a settled board, opens its
/// pocket and its ring and nothing else: a square is open afterwards
/// exactly if it was open before, or lies in the pocket or the ring of the
/// square; and no square changes but by being opened.
pub proof fn lemma_cascade_is_pocket_and_ring(board: Board, start: int, c: int)
    requires
        board.wf(),
        settled(board.squares, board.width),
        0 <= start < board.squares.len(),
        board.squares[start].mine == Mine::Count(0),
        0 <= c < board.squares.len(),
    ensures
        board.opened_at(start).squares[c].opened <==> board.squares[c].opened || in_pocket(
            board.squares,
            board.width,
            start,
            c,
        ) || in_ring(board.squares, board.width, start, c),
        board.opened_at(start).squares[c] == (Square {
            opened: board.opened_at(start).squares[c].opened,
            ..board.squares[c]
        }),
{
    let before = board.squares;
    let w = board.width;
    let h = board.height;
    let marked = board.uncovered(start).squares;
    let after = board.opened_at(start).squares;
    assert(placed(before, w, h));
    assert(placed(marked, w, h));
    assert(after == flooded(marked, w, start));
    assert(after[c].opened == (marked[c].opened || reached(marked, w, start, c)));
    if reached(marked, w, start, c) {
        let path = choose|path: Seq<int>| #[trigger]
            trail(marked, w, start, path) && path.last() == c;
        lemma_trail_is_chain(before, marked, w, start, path);
    }
    if c == start {
        let alone = seq![start];
        assert(chain(before, w, start, alone));
        assert(alone.last() == start);
    }
    if in_pocket(before, w, start, c) {
        let path = choose|path: Seq<int>| #[trigger]
            chain(before, w, start, path) && path.last() == c;
        if before[start].opened {
            lemma_opened_pocket(before, w, start, path, path.len() - 1);
        } else {
            lemma_pocket_is_reached(before, marked, w, h, start, path, path.len() - 1);
        }
    }
    if in_ring(before, w, start, c) {
        let z = choose|z: int|
            #[trigger] in_pocket(before, w, start, z) && neighbours(z, before[z].edge, w).contains(
                c,
            );
        let path = choose|path: Seq<int>| #[trigger]
            chain(before, w, start, path) && path.last() == z;
        assert(0 <= path[path.len() - 1] < before.len());
        if before[start].opened {
            lemma_opened_pocket(before, w, start, path, path.len() - 1);
            lemma_settled_opens(before, w, z, c);
        } else {
            lemma_pocket_is_reached(before, marked, w, h, start, path, path.len() - 1);
            let near = neighbours(z, marked[z].edge, w);
            let i = choose|i: int| 0 <= i < near.len() && near[i] == c;
            lemma_reach_on(marked, w, h, start, z, i);
        }
    }
}

/// Opening a square that a mine touches opens that square alone.
pub proof fn lemma_numbered_opens_alone(board: Board, i: int)
    requires
        0 <= i < board.squares.len(),
        board.squares[i].mine is Count,
        board.squares[i].mine != Mine::Count(0),
    ensures
        board.opened_at(i).squares == board.squares.update(
            i,
            Square { opened: true, ..board.squares[i] },
        ),
{
}

/// A fresh board is settled: nothing on it is opened.
pub proof fn lemma_fresh_is_settled(width: int, height: int, mines: Seq<usize>)
    ensures
        settled(laid_out(width, height, mines).squares, width),
{
}

/// A move leaves a settled board settled.
pub proof fn lemma_step_keeps_settled(board: Board, action: PlayerAction)
    requires
        board.wf(),
        board.admits(action),
        settled(board.squares, board.width),
    ensures
        settled(board.step(action).0.squares, board.width),
{
    let before = board.squares;
    let after = board.step(action).0.squares;
    let w = board.width;
    let h = board.height;
    assert(placed(before, w, h));
    if after != before {
        let i = match action {
            PlayerAction::ToggleFlag(position) => board.index_of(position),
            PlayerAction::OpenSquare(position) => board.index_of(position),
            PlayerAction::Quit => 0,
        };
        match action {
            PlayerAction::ToggleFlag(position) => {
                lemma_index_on_board(board, position);
            },
            PlayerAction::OpenSquare(position) => {
                lemma_index_on_board(board, position);
            },
            PlayerAction::Quit => {},
        }
        let marked = board.uncovered(i).squares;
        assert(placed(marked, w, h));
        assert forall|z: int|
            0 <= z < after.len() && (#[trigger] after[z]).opened && after[z].mine == Mine::Count(
                0,
            ) implies surrounded(after, after, w, z) by {
            lemma_neighbourhood(z, w, h);
            let near = neighbours(z, after[z].edge, w);
            assert(near == neighbours(z, before[z].edge, w));
            assert forall|k: int| 0 <= k < near.len() implies after[#[trigger] near[k]].opened by {
                let n = near[k];
                assert(0 <= n < before.len());
                if before[z].opened {
                    assert(surrounded(before, before, w, z));
                    assert(before[near[k]].opened);
                } else {
                    assert(action is OpenSquare);
                    assert(after == flooded(marked, w, i));
                    assert(z == i || reached(marked, w, i, z));
                    lemma_reach_on(marked, w, h, i, z, k);
                }
            }
        }
    }
}

} // verus!
