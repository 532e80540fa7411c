//! Writing the numbers on a board: how the counts stand while the mines
//! are taken one by one.

use vstd::prelude::*;
use crate::board::{
    counted, lemma_mines_listed_grows, lemma_mines_listed_is_among, mines_among, mines_listed,
};
use crate::edge::{class_of, lemma_neighbourhood, lemma_touch_is_mutual, neighbours};
use crate::square::{Mine, Square};

verus! {

/// Every square of `squares` knows its place on a board of this width and
/// height.
pub open spec fn placed(squares: Seq<Square>, width: int, height: int) -> bool {
    &&& 2 <= width
    &&& 2 <= height
    &&& squares.len() == width * height
    &&& forall|i: int|
        0 <= i < squares.len() ==> (#[trigger] squares[i]).edge == class_of(i, width, height)
}

/// Every count of `squares` has room for the mines that touch its square.
pub open spec fn roomy(squares: Seq<Square>, width: int) -> bool {
    forall|i: int|
        0 <= i < squares.len() ==> match (#[trigger] squares[i]).mine {
            Mine::Explode => true,
            Mine::Count(count) => count + mines_among(
                squares,
                neighbours(i, squares[i].edge, width),
            ) <= usize::MAX,
        }
}

/// `now` is `start` after the mines before `upto` have been counted: each
/// square without a mine has had added the mines before `upto` that touch
/// it.
pub open spec fn counted_upto(start: Seq<Square>, now: Seq<Square>, width: int, upto: int) -> bool {
    &&& now.len() == start.len()
    &&& forall|c: int|
        0 <= c < start.len() ==> #[trigger] now[c] == (Square {
            mine: match start[c].mine {
                Mine::Explode => Mine::Explode,
                Mine::Count(count) => Mine::Count(
                    (count + mines_listed(start, neighbours(c, start[c].edge, width), upto)) as usize,
                ),
            },
            ..start[c]
        })
}

/// `now` is `before` with one added to the count of each square of `list`
/// that has no mine.
pub open spec fn bumped(before: Seq<Square>, now: Seq<Square>, list: Seq<int>) -> bool {
    &&& now.len() == before.len()
    &&& forall|c: int|
        0 <= c < before.len() ==> #[trigger] now[c] == (Square {
            mine: match before[c].mine {
                Mine::Explode => Mine::Explode,
                Mine::Count(count) => Mine::Count(
                    (count + if list.contains(c) {
                        1int
                    } else {
                        0int
                    }) as usize,
                ),
            },
            ..before[c]
        })
}

/// What `increment_count` makes of a square.
pub open spec fn bump(square: Square) -> Square {
    Square {
        mine: match square.mine {
            Mine::Explode => Mine::Explode,
            Mine::Count(count) => Mine::Count((count + 1) as usize),
        },
        ..square
    }
}

/// One more entry of a list holds what the entries before held, and the
/// new entry.
proof fn lemma_take_one_more(list: Seq<int>, k: int, c: int)
    requires
        0 <= k < list.len(),
    ensures
        list.take(k + 1).contains(c) <==> list.take(k).contains(c) || list[k] == c,
{
    let more = list.take(k + 1);
    let less = list.take(k);
    if less.contains(c) {
        let n = choose|n: int| 0 <= n < less.len() && less[n] == c;
        assert(more[n] == c);
    }
    if list[k] == c {
        assert(more[k] == c);
    }
    if more.contains(c) {
        let n = choose|n: int| 0 <= n < more.len() && more[n] == c;
        if n < k {
            assert(less[n] == c);
        }
    }
}

/// While the mines are counted one by one, the count of a square stays
/// within the number of mines that touch it.
proof fn lemma_step_fits(squares: Seq<Square>, c: int, upto: int, width: int, height: int)
    requires
        placed(squares, width, height),
        0 <= c < squares.len(),
        0 <= upto <= squares.len(),
    ensures
        mines_listed(squares, neighbours(c, squares[c].edge, width), upto) <= mines_among(
            squares,
            neighbours(c, squares[c].edge, width),
        ),
{
    let near = neighbours(c, squares[c].edge, width);
    lemma_neighbourhood(c, width, height);
    lemma_mines_listed_is_among(squares, near);
    lemma_mines_listed_grows(squares, near, upto, squares.len() as int);
}

/// The squares listed for a square of the board lie on the board.
pub proof fn lemma_around_on_board(index: int, width: int, height: int)
    requires
        2 <= width,
        2 <= height,
        0 <= index < width * height,
    ensures
        forall|k: int|
            0 <= k < neighbours(index, class_of(index, width, height), width).len() ==> 0 <= (
            #[trigger] neighbours(index, class_of(index, width, height), width)[k]) < width
                * height,
{
    lemma_neighbourhood(index, width, height);
}

/// Before any square around a mine has been taken, nothing is bumped.
pub proof fn lemma_bumped_none(before: Seq<Square>, list: Seq<int>)
    ensures
        bumped(before, before, list.take(0)),
{
    assert(list.take(0).len() == 0);
}

/// The next square around a mine has room for one more in its count.
pub proof fn lemma_bump_fits(
    start: Seq<Square>,
    before: Seq<Square>,
    sofar: Seq<Square>,
    index: int,
    k: int,
    width: int,
    height: int,
)
    requires
        placed(start, width, height),
        roomy(start, width),
        0 <= index < start.len(),
        start[index].mine is Explode,
        counted_upto(start, before, width, index),
        0 <= k < neighbours(index, class_of(index, width, height), width).len(),
        bumped(
            before,
            sofar,
            neighbours(index, class_of(index, width, height), width).take(k),
        ),
    ensures
        0 <= neighbours(index, class_of(index, width, height), width)[k] < start.len(),
        sofar[neighbours(index, class_of(index, width, height), width)[k]].mine != Mine::Count(
            usize::MAX,
        ),
        sofar[neighbours(index, class_of(index, width, height), width)[k]]
            == before[neighbours(index, class_of(index, width, height), width)[k]],
{
    let here = neighbours(index, class_of(index, width, height), width);
    let c = here[k];
    lemma_neighbourhood(index, width, height);
    assert(!here.take(k).contains(c)) by {
        if here.take(k).contains(c) {
            let n = choose|n: int| 0 <= n < here.take(k).len() && here.take(k)[n] == c;
            assert(here[n] == here[k]);
        }
    }
    assert(here.contains(c));
    lemma_touch_is_mutual(index, c, width, height);
    let near = neighbours(c, start[c].edge, width);
    assert(near.contains(index));
    lemma_step_fits(start, c, index, width, height);
    lemma_step_fits(start, c, index + 1, width, height);
    assert(mines_listed(start, near, index + 1) == mines_listed(start, near, index) + 1);
    assert(sofar[c] == before[c]);
}

/// After the next square around a mine has been bumped, the squares taken
/// so far are bumped.
pub proof fn lemma_bump_one(before: Seq<Square>, sofar: Seq<Square>, list: Seq<int>, k: int)
    requires
        list.no_duplicates(),
        0 <= k < list.len(),
        0 <= list[k] < before.len(),
        bumped(before, sofar, list.take(k)),
    ensures
        bumped(before, sofar.update(list[k], bump(sofar[list[k]])), list.take(k + 1)),
{
    let x = list[k];
    let now = sofar.update(x, bump(sofar[x]));
    assert(!list.take(k).contains(x)) by {
        if list.take(k).contains(x) {
            let n = choose|n: int| 0 <= n < list.take(k).len() && list.take(k)[n] == x;
            assert(list[n] == list[k]);
        }
    }
    assert forall|c: int| 0 <= c < before.len() implies #[trigger] now[c] == (Square {
        mine: match before[c].mine {
            Mine::Explode => Mine::Explode,
            Mine::Count(count) => Mine::Count(
                (count + if list.take(k + 1).contains(c) {
                    1int
                } else {
                    0int
                }) as usize,
            ),
        },
        ..before[c]
    }) by {
        lemma_take_one_more(list, k, c);
        assert(sofar[c] == (Square {
            mine: match before[c].mine {
                Mine::Explode => Mine::Explode,
                Mine::Count(count) => Mine::Count(
                    (count + if list.take(k).contains(c) {
                        1int
                    } else {
                        0int
                    }) as usize,
                ),
            },
            ..before[c]
        }));
    }
}

/// Once the squares around a mine are bumped, or the square has no mine,
/// the mines up to and with that square are counted.
pub proof fn lemma_counted_next(
    start: Seq<Square>,
    before: Seq<Square>,
    now: Seq<Square>,
    index: int,
    width: int,
    height: int,
)
    requires
        placed(start, width, height),
        roomy(start, width),
        0 <= index < start.len(),
        counted_upto(start, before, width, index),
        if start[index].mine is Explode {
            bumped(before, now, neighbours(index, class_of(index, width, height), width))
        } else {
            now == before
        },
    ensures
        counted_upto(start, now, width, index + 1),
{
    let here = neighbours(index, class_of(index, width, height), width);
    assert forall|c: int| 0 <= c < start.len() implies #[trigger] now[c] == (Square {
        mine: match start[c].mine {
            Mine::Explode => Mine::Explode,
            Mine::Count(count) => Mine::Count(
                (count + mines_listed(start, neighbours(c, start[c].edge, width), index + 1)) as usize,
            ),
        },
        ..start[c]
    }) by {
        let near = neighbours(c, start[c].edge, width);
        lemma_touch_is_mutual(index, c, width, height);
        lemma_step_fits(start, c, index, width, height);
        lemma_step_fits(start, c, index + 1, width, height);
        assert(here.contains(c) == near.contains(index));
        assert(before[c] == (Square {
            mine: match start[c].mine {
                Mine::Explode => Mine::Explode,
                Mine::Count(count) => Mine::Count(
                    (count + mines_listed(start, near, index)) as usize,
                ),
            },
            ..start[c]
        }));
        if start[index].mine is Explode {
            assert(now[c] == (Square {
                mine: match before[c].mine {
                    Mine::Explode => Mine::Explode,
                    Mine::Count(count) => Mine::Count(
                        (count + if here.contains(c) {
                            1int
                        } else {
                            0int
                        }) as usize,
                    ),
                },
                ..before[c]
            }));
        }
    }
}

/// Nothing is counted before the first square.
pub proof fn lemma_counted_none(start: Seq<Square>, width: int)
    ensures
        counted_upto(start, start, width, 0),
{
}

/// Once the mines of the whole board are counted, every square without a
/// mine has had added the number of mines among the squares that touch it.
pub proof fn lemma_counted_all(start: Seq<Square>, now: Seq<Square>, width: int, height: int)
    requires
        placed(start, width, height),
        counted_upto(start, now, width, start.len() as int),
    ensures
        now == counted(start, width),
{
    let goal = counted(start, width);
    assert forall|c: int| 0 <= c < start.len() implies now[c] == goal[c] by {
        lemma_neighbourhood(c, width, height);
        lemma_mines_listed_is_among(start, neighbours(c, start[c].edge, width));
    }
    assert(now =~= goal);
}

} // verus!
