//! The board as a mathematical value, and what is counted on it.

use vstd::prelude::*;
use crate::edge::{class_of, neighbours};
use crate::square::{Mine, Square};

verus! {

/// The number of squares of `squares` of which `what` holds.
pub open spec fn tally(squares: Seq<Square>, what: spec_fn(Square) -> bool) -> nat
    decreases squares.len(),
{
    if squares.len() == 0 {
        0
    } else {
        tally(squares.drop_last(), what) + if what(squares.last()) {
            1nat
        } else {
            0nat
        }
    }
}

/// Whether a square hides a mine.
pub open spec fn is_mine() -> spec_fn(Square) -> bool {
    |s: Square| s.mine is Explode
}

/// Whether a square is opened.
pub open spec fn is_opened() -> spec_fn(Square) -> bool {
    |s: Square| s.opened
}

/// Whether a square has a flag.
pub open spec fn is_flagged() -> spec_fn(Square) -> bool {
    |s: Square| s.flagged
}

/// The number of squares that hide a mine.
pub open spec fn count_mines(squares: Seq<Square>) -> nat {
    tally(squares, is_mine())
}

/// The number of opened squares.
pub open spec fn count_opened(squares: Seq<Square>) -> nat {
    tally(squares, is_opened())
}

/// The number of squares with a flag.
pub open spec fn count_flagged(squares: Seq<Square>) -> nat {
    tally(squares, is_flagged())
}

/// The number of entries of `list` that name a square with a mine.
pub open spec fn mines_among(squares: Seq<Square>, list: Seq<int>) -> nat
    decreases list.len(),
{
    if list.len() == 0 {
        0
    } else {
        mines_among(squares, list.drop_last()) + if squares[list.last()].mine is Explode {
            1nat
        } else {
            0nat
        }
    }
}

/// The number of squares before `upto` that hide a mine and stand in `list`.
pub open spec fn mines_listed(squares: Seq<Square>, list: Seq<int>, upto: int) -> nat
    decreases upto,
{
    if upto <= 0 {
        0
    } else {
        mines_listed(squares, list, upto - 1) + if squares[upto - 1].mine is Explode
            && list.contains(upto - 1) {
            1nat
        } else {
            0nat
        }
    }
}

/// A tally never exceeds the number of squares.
pub proof fn lemma_tally_bound(squares: Seq<Square>, what: spec_fn(Square) -> bool)
    ensures
        tally(squares, what) <= squares.len(),
    decreases squares.len(),
{
    if squares.len() > 0 {
        lemma_tally_bound(squares.drop_last(), what);
    }
}

/// Adding a square at the end adds it to the tally if `what` holds of it.
pub proof fn lemma_tally_push(squares: Seq<Square>, square: Square, what: spec_fn(Square) -> bool)
    ensures
        tally(squares.push(square), what) == tally(squares, what) + if what(square) {
            1nat
        } else {
            0nat
        },
{
    assert(squares.push(square).drop_last() =~= squares);
}

/// Replacing one square changes the tally by what the old square gave and
/// what the new one gives.
pub proof fn lemma_tally_update(
    squares: Seq<Square>,
    i: int,
    square: Square,
    what: spec_fn(Square) -> bool,
)
    requires
        0 <= i < squares.len(),
    ensures
        tally(squares.update(i, square), what) + (if what(squares[i]) {
            1nat
        } else {
            0nat
        }) == tally(squares, what) + (if what(square) {
            1nat
        } else {
            0nat
        }),
    decreases squares.len(),
{
    let changed = squares.update(i, square);
    if i == squares.len() - 1 {
        assert(changed.drop_last() =~= squares.drop_last());
    } else {
        lemma_tally_update(squares.drop_last(), i, square, what);
        assert(changed.drop_last() =~= squares.drop_last().update(i, square));
    }
}

/// Two rows of squares that agree on `what`, square by square, have the
/// same tally.
pub proof fn lemma_tally_same(a: Seq<Square>, b: Seq<Square>, what: spec_fn(Square) -> bool)
    requires
        a.len() == b.len(),
        forall|i: int| 0 <= i < a.len() ==> what(#[trigger] a[i]) == what(b[i]),
    ensures
        tally(a, what) == tally(b, what),
    decreases a.len(),
{
    if a.len() > 0 {
        assert(what(a[a.len() - 1]) == what(b[a.len() - 1]));
        lemma_tally_same(a.drop_last(), b.drop_last(), what);
    }
}

/// No more mines are among the squares of a list than the list is long.
pub proof fn lemma_mines_among_bound(squares: Seq<Square>, list: Seq<int>)
    ensures
        mines_among(squares, list) <= list.len(),
    decreases list.len(),
{
    if list.len() > 0 {
        lemma_mines_among_bound(squares, list.drop_last());
    }
}

/// The mines among the squares of a list depend only on where the mines
/// are.
pub proof fn lemma_mines_among_same(a: Seq<Square>, b: Seq<Square>, list: Seq<int>)
    requires
        forall|k: int|
            0 <= k < list.len() ==> (a[#[trigger] list[k]].mine is Explode) == (
            b[list[k]].mine is Explode),
    ensures
        mines_among(a, list) == mines_among(b, list),
    decreases list.len(),
{
    if list.len() > 0 {
        assert(list.last() == list[list.len() - 1]);
        assert forall|k: int| 0 <= k < list.drop_last().len() implies (a[#[trigger] list.drop_last()[k]].mine is Explode)
            == (b[list.drop_last()[k]].mine is Explode) by {
            assert(list.drop_last()[k] == list[k]);
        }
        lemma_mines_among_same(a, b, list.drop_last());
    }
}

/// Adding to a list a square that it lacks adds that square to the count of
/// listed mines, if it hides a mine and comes before `upto`.
proof fn lemma_mines_listed_push(squares: Seq<Square>, list: Seq<int>, x: int, upto: int)
    requires
        !list.contains(x),
    ensures
        mines_listed(squares, list.push(x), upto) == mines_listed(squares, list, upto) + if 0 <= x
            < upto && squares[x].mine is Explode {
            1nat
        } else {
            0nat
        },
    decreases upto,
{
    if upto > 0 {
        lemma_mines_listed_push(squares, list, x, upto - 1);
        let m = upto - 1;
        if list.contains(m) {
            let k = choose|k: int| 0 <= k < list.len() && list[k] == m;
            assert(list.push(x)[k] == m);
        }
        if list.push(x).contains(m) && m != x {
            let k = choose|k: int| 0 <= k < list.push(x).len() && list.push(x)[k] == m;
            assert(list[k] == m);
        }
        if m == x {
            assert(list.push(x)[list.len() as int] == x);
        }
    }
}

/// Counting the mines of a list square by square, or entry by entry, gives
/// the same number when the list names squares of the board once each.
pub proof fn lemma_mines_listed_is_among(squares: Seq<Square>, list: Seq<int>)
    requires
        list.no_duplicates(),
        forall|k: int| 0 <= k < list.len() ==> 0 <= #[trigger] list[k] < squares.len(),
    ensures
        mines_listed(squares, list, squares.len() as int) == mines_among(squares, list),
    decreases list.len(),
{
    if list.len() == 0 {
        lemma_mines_listed_none(squares, list, squares.len() as int);
    } else {
        let front = list.drop_last();
        let x = list.last();
        assert(list =~= front.push(x));
        if front.contains(x) {
            let k = choose|k: int| 0 <= k < front.len() && front[k] == x;
            assert(list[k] == list[list.len() - 1]);
        }
        assert forall|k: int| 0 <= k < front.len() implies 0 <= #[trigger] front[k]
            < squares.len() by {
            assert(front[k] == list[k]);
        }
        lemma_mines_listed_is_among(squares, front);
        lemma_mines_listed_push(squares, front, x, squares.len() as int);
    }
}

/// An empty list names no mine.
proof fn lemma_mines_listed_none(squares: Seq<Square>, list: Seq<int>, upto: int)
    requires
        list.len() == 0,
    ensures
        mines_listed(squares, list, upto) == 0,
    decreases upto,
{
    if upto > 0 {
        lemma_mines_listed_none(squares, list, upto - 1);
    }
}

/// The count of listed mines grows with the part of the board counted.
pub proof fn lemma_mines_listed_grows(squares: Seq<Square>, list: Seq<int>, from: int, upto: int)
    requires
        from <= upto,
    ensures
        mines_listed(squares, list, from) <= mines_listed(squares, list, upto),
    decreases upto - from,
{
    if from < upto {
        lemma_mines_listed_grows(squares, list, from, upto - 1);
    }
}

/// The squares of a fresh board before any number is written: a mine at
/// each position of `mines`, a zero elsewhere, all closed and without flags.
pub open spec fn planted(width: int, height: int, mines: Seq<usize>) -> Seq<Square> {
    Seq::new(
        (width * height) as nat,
        |i: int|
            Square {
                mine: if mines.contains(i as usize) {
                    Mine::Explode
                } else {
                    Mine::Count(0)
                },
                opened: false,
                flagged: false,
                edge: class_of(i, width, height),
            },
    )
}

/// The squares after each square without a mine has had added to its count
/// the number of mines among the squares that touch it.
pub open spec fn counted(squares: Seq<Square>, width: int) -> Seq<Square> {
    Seq::new(
        squares.len(),
        |i: int|
            Square {
                mine: match squares[i].mine {
                    Mine::Explode => Mine::Explode,
                    Mine::Count(count) => Mine::Count(
                        (count + mines_among(squares, neighbours(i, squares[i].edge, width))) as usize,
                    ),
                },
                ..squares[i]
            },
    )
}

/// The fresh board of the given width and height with its mines at the
/// positions of `mines`: every flag in stock, every safe square to open.
pub open spec fn laid_out(width: int, height: int, mines: Seq<usize>) -> Board {
    Board {
        squares: counted(planted(width, height, mines), width),
        width,
        height,
        target_to_open: width * height - mines.len(),
        flags: mines.len() as int,
    }
}

/// The board as a value: its squares in row-major order, its width and
/// height, the number of squares to open, and the stock of flags.
pub struct Board {
    pub squares: Seq<Square>,
    pub width: int,
    pub height: int,
    pub target_to_open: int,
    pub flags: int,
}

impl Board {
    /// The board has at least two rows and two columns, every square knows
    /// its place, the squares to open are those without a mine, and every
    /// flag is either planted or in stock.
    pub open spec fn shaped(self) -> bool {
        &&& 2 <= self.width
        &&& 2 <= self.height
        &&& self.squares.len() == self.width * self.height
        &&& self.width * self.height <= usize::MAX
        &&& forall|i: int|
            0 <= i < self.squares.len() ==> (#[trigger] self.squares[i]).edge == class_of(
                i,
                self.width,
                self.height,
            )
        &&& 0 <= self.target_to_open
        &&& 0 <= self.flags
        &&& self.target_to_open + count_mines(self.squares) == self.squares.len()
        &&& self.flags + count_flagged(self.squares) == count_mines(self.squares)
    }

    /// Every square without a mine carries the number of mines among the
    /// squares that touch it.
    pub open spec fn numbered(self) -> bool {
        forall|i: int|
            0 <= i < self.squares.len() ==> match (#[trigger] self.squares[i]).mine {
                Mine::Explode => true,
                Mine::Count(count) => count == mines_among(
                    self.squares,
                    neighbours(i, self.squares[i].edge, self.width),
                ),
            }
    }

    /// The player has won: as many squares are opened as must be, and no
    /// flag is left in stock.
    pub open spec fn solved(self) -> bool {
        count_opened(self.squares) == self.target_to_open && self.flags == 0
    }

    /// The board is well formed: it is shaped and numbered.
    pub open spec fn wf(self) -> bool {
        self.shaped() && self.numbered()
    }
}

} // verus!
