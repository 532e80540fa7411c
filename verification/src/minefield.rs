//! The minefield: laying out a board, and reading it.

use std::collections::VecDeque;
use vstd::prelude::*;
use vstd::seq_lib::to_multiset_contains;
use vstd::seq_lib::to_multiset_len;
use crate::board::{
    count_flagged, count_mines, count_opened, counted, is_flagged, is_mine, is_opened, laid_out,
    lemma_mines_among_bound, lemma_mines_among_same, lemma_tally_bound, lemma_tally_push,
    lemma_tally_same, lemma_tally_update, mines_among, planted, Board,
};
use crate::edge::{class_of, lemma_neighbourhood, neighbours, Edge};
use crate::flood::{
    flooded, lemma_no_mine_among, lemma_reached_is_safe, lemma_sweep_begins, lemma_sweep_done, lemma_sweep_ends,
    lemma_sweep_open, lemma_sweep_pop, lemma_sweep_skip, partly_surrounded, reached, sweep,
    waiting,
};
use crate::play::{
    is_blast, lemma_index_on_board, lemma_opened_wf, lemma_toggled_wf, End, PlayerAction, Refusal,
};
use crate::position::Position;
use crate::numbering::{
    bump, bumped, counted_upto, lemma_around_on_board, lemma_bump_fits, lemma_bump_one,
    lemma_bumped_none, lemma_counted_all, lemma_counted_next, lemma_counted_none, placed, roomy,
};
use crate::square::{Mine, Square};

verus! {

/// A board in play. Its squares lie in row-major order; `target_to_open` is
/// the number of squares without a mine, and `flags` the number of flags
/// the player may still plant.
pub struct Minefield {
    squares: Vec<Square>,
    width: usize,
    height: usize,
    target_to_open: usize,
    flags: usize,
}

impl View for Minefield {
    type V = Board;

    closed spec fn view(&self) -> Board {
        Board {
            squares: self.squares@,
            width: self.width as int,
            height: self.height as int,
            target_to_open: self.target_to_open as int,
            flags: self.flags as int,
        }
    }
}

/// Sorts positions in ascending order, by `sort_unstable` of slices. The
/// standard library promises that the slice is then in ascending order and
/// holds the values it held before; this is taken on trust.
#[verifier::external_body]
fn sort_positions(positions: &mut Vec<usize>)
    ensures
        final(positions)@.to_multiset() == old(positions)@.to_multiset(),
        forall|i: int, j: int|
            0 <= i <= j < final(positions)@.len() ==> final(positions)@[i] <= final(positions)@[j],
{
    positions.sort_unstable();
}

/// Two lists with the same entries, each as often in one as in the other,
/// are equally long and hold the same values, and if one names nothing
/// twice, neither does the other.
proof fn lemma_same_entries(a: Seq<usize>, b: Seq<usize>)
    requires
        a.to_multiset() == b.to_multiset(),
    ensures
        a.len() == b.len(),
        forall|x: usize| a.contains(x) == b.contains(x),
        a.no_duplicates() ==> b.no_duplicates(),
{
    to_multiset_len(a);
    to_multiset_len(b);
    assert forall|x: usize| a.contains(x) == b.contains(x) by {
        to_multiset_contains(a, x);
        to_multiset_contains(b, x);
    }
    if a.no_duplicates() {
        a.lemma_multiset_has_no_duplicates();
        b.lemma_multiset_has_no_duplicates_conv();
    }
}

impl Minefield {
    /// The number of columns.
    pub fn width(&self) -> (width: usize)
        ensures
            width == self@.width,
    {
        self.width
    }

    /// The number of rows.
    pub fn height(&self) -> (height: usize)
        ensures
            height == self@.height,
    {
        self.height
    }

    /// The number of flags that the player may still plant.
    pub fn flags(&self) -> (flags: usize)
        ensures
            flags == self@.flags,
    {
        self.flags
    }

    /// The number of squares that must be opened to win.
    pub fn target_to_open(&self) -> (target: usize)
        ensures
            target == self@.target_to_open,
    {
        self.target_to_open
    }

    /// The squares of the board, in row-major order.
    pub fn squares(&self) -> (squares: &Vec<Square>)
        ensures
            squares@ == self@.squares,
    {
        &self.squares
    }

    /// Lays out a fresh board with its mines at the given positions, which
    /// are distinct and lie on the board.
    pub fn with_mines(width: usize, height: usize, mines: Vec<usize>) -> (field: Minefield)
        requires
            2 <= width,
            2 <= height,
            width * height <= usize::MAX,
            mines@.no_duplicates(),
            forall|k: int| 0 <= k < mines@.len() ==> mines@[k] < width * height,
        ensures
            field@ == laid_out(width as int, height as int, mines@),
            field@.wf(),
            count_mines(field@.squares) == mines@.len(),
    {
        let total: usize = width * height;
        let ghost given = mines@;
        let ghost fresh = planted(width as int, height as int, given);
        let mut mines = mines;
        sort_positions(&mut mines);
        proof {
            lemma_same_entries(given, mines@);
            assert forall|k: int| 0 <= k < mines@.len() implies mines@[k] < total by {
                assert(mines@.contains(mines@[k]));
                assert(given.contains(mines@[k]));
            }
        }
        let mines_total: usize = mines.len();
        let mut mines_index: usize = 0;
        let mut squares: Vec<Square> = Vec::with_capacity(total);
        let mut each: usize = 0;
        while each < total
            invariant
                each <= total,
                total == width * height,
                0 < width,
                squares@.len() == each,
                mines_total == mines@.len(),
                mines_index <= mines_total,
                mines@.no_duplicates(),
                forall|i: int, j: int| 0 <= i <= j < mines@.len() ==> mines@[i] <= mines@[j],
                forall|x: usize| given.contains(x) == mines@.contains(x),
                forall|k: int| 0 <= k < mines_index ==> mines@[k] < each,
                forall|k: int| mines_index <= k < mines_total ==> mines@[k] >= each,
                fresh == planted(width as int, height as int, given),
                forall|i: int| 0 <= i < each ==> squares@[i] == fresh[i],
                mines_index == count_mines(squares@),
            decreases total - each,
        {
            let ghost before = squares@;
            let mine = if mines_total == mines_index {
                Mine::Count(0)
            } else if each == mines[mines_index] {
                proof {
                    assert(mines@.contains(each));
                }
                mines_index += 1;
                Mine::Explode
            } else {
                Mine::Count(0)
            };
            proof {
                if mines@.contains(each) && mine != Mine::Explode {
                    let k = choose|k: int| 0 <= k < mines@.len() && mines@[k] == each;
                    assert(mines@[mines_index as int] <= mines@[k]);
                }
            }
            let edge = Edge::classify(each, width, height);
            squares.push(Square::new(mine, edge));
            proof {
                lemma_tally_push(before, Square { mine, opened: false, flagged: false, edge }, is_mine());
            }
            each += 1;
        }
        proof {
            if mines_index < mines_total {
                assert(mines@[mines_index as int] >= total);
            }
            lemma_tally_bound(squares@, is_mine());
            assert(squares@ =~= fresh);
            lemma_no_flags(fresh);
        }
        let mut minefield = Minefield {
            squares,
            width,
            height,
            target_to_open: total - mines_total,
            flags: mines_total,
        };
        proof {
            assert forall|i: int| 0 <= i < fresh.len() implies match (#[trigger] fresh[i]).mine {
                Mine::Explode => true,
                Mine::Count(count) => count + mines_among(
                    fresh,
                    neighbours(i, fresh[i].edge, width as int),
                ) <= usize::MAX,
            } by {
                lemma_mines_among_bound(fresh, neighbours(i, fresh[i].edge, width as int));
            }
        }
        minefield.populate_numbers();
        proof {
            let done = minefield@.squares;
            assert forall|i: int| 0 <= i < done.len() implies match (#[trigger] done[i]).mine {
                Mine::Explode => true,
                Mine::Count(count) => count == mines_among(
                    done,
                    neighbours(i, done[i].edge, width as int),
                ),
            } by {
                let near = neighbours(i, fresh[i].edge, width as int);
                lemma_mines_among_bound(fresh, near);
                lemma_neighbourhood(i, width as int, height as int);
                lemma_mines_among_same(fresh, done, near);
            }
            lemma_tally_same(fresh, done, is_mine());
            lemma_tally_same(fresh, done, is_flagged());
        }
        minefield
    }

    /// Adds to the count of every square without a mine the number of mines
    /// among the squares that touch it.
    pub fn populate_numbers(&mut self)
        requires
            old(self)@.shaped(),
            roomy(old(self)@.squares, old(self)@.width),
        ensures
            final(self)@ == (Board {
                squares: counted(old(self)@.squares, old(self)@.width),
                ..old(self)@
            }),
    {
        let total: usize = self.width * self.height;
        let ghost start = self.squares@;
        let ghost w = self.width as int;
        let ghost h = self.height as int;
        proof {
            lemma_counted_none(start, w);
        }
        let mut index: usize = 0;
        while index < total
            invariant
                index <= total,
                total == start.len(),
                self.width == w,
                self.height == h,
                self.target_to_open == old(self).target_to_open,
                self.flags == old(self).flags,
                start == old(self).squares@,
                placed(start, w, h),
                roomy(start, w),
                counted_upto(start, self.squares@, w, index as int),
            decreases total - index,
        {
            let ghost before = self.squares@;
            let ghost here = neighbours(index as int, class_of(index as int, w, h), w);
            proof {
                assert(before[index as int].edge == start[index as int].edge);
                assert((before[index as int].mine is Explode) == (
                start[index as int].mine is Explode));
                lemma_around_on_board(index as int, w, h);
                lemma_neighbourhood(index as int, w, h);
            }
            if let Mine::Explode = self.squares[index].mine {
                let around = self.squares[index].edge.get_index_offsets(index, self.width);
                proof {
                    lemma_bumped_none(before, here);
                }
                let mut k: usize = 0;
                while k < around.len()
                    invariant
                        k <= around@.len(),
                        index < total,
                        total == start.len(),
                        self.width == w,
                        self.height == h,
                        self.target_to_open == old(self).target_to_open,
                        self.flags == old(self).flags,
                        placed(start, w, h),
                        roomy(start, w),
                        start[index as int].mine is Explode,
                        counted_upto(start, before, w, index as int),
                        here == neighbours(index as int, class_of(index as int, w, h), w),
                        here.no_duplicates(),
                        around@.len() == here.len(),
                        forall|n: int| 0 <= n < here.len() ==> around@[n] == #[trigger] here[n],
                        bumped(before, self.squares@, here.take(k as int)),
                    decreases around@.len() - k,
                {
                    let i: usize = around[k];
                    let ghost sofar = self.squares@;
                    proof {
                        assert(here[k as int] == i);
                        lemma_bump_fits(start, before, sofar, index as int, k as int, w, h);
                    }
                    self.squares[i].mine.increment_count();
                    proof {
                        lemma_bump_one(before, sofar, here, k as int);
                        assert(self.squares@ =~= sofar.update(i as int, bump(sofar[i as int])));
                    }
                    k += 1;
                }
                proof {
                    assert(here.take(k as int) =~= here);
                }
            }
            proof {
                lemma_counted_next(start, before, self.squares@, index as int, w, h);
            }
            index += 1;
        }
        proof {
            lemma_counted_all(start, self.squares@, w, h);
        }
    }

    /// Whether the player has won: every square to open is opened, and no
    /// flag is left in stock.
    pub fn is_solved(&self) -> (solved: bool)
        ensures
            solved == self@.solved(),
    {
        let mut opened: usize = 0;
        let mut i: usize = 0;
        while i < self.squares.len()
            invariant
                i <= self.squares@.len(),
                opened == count_opened(self.squares@.take(i as int)),
                opened <= i,
            decreases self.squares@.len() - i,
        {
            proof {
                lemma_tally_push(self.squares@.take(i as int), self.squares@[i as int], is_opened());
                assert(self.squares@.take(i + 1) =~= self.squares@.take(i as int).push(
                    self.squares@[i as int],
                ));
            }
            if self.squares[i].opened {
                opened += 1;
            }
            i += 1;
        }
        proof {
            assert(self.squares@.take(i as int) =~= self.squares@);
        }
        opened == self.target_to_open && self.flags == 0
    }

    /// Whether a mine has been opened.
    pub fn has_exploded(&self) -> (exploded: bool)
        ensures
            exploded == self@.exploded(),
    {
        let mut i: usize = 0;
        while i < self.squares.len()
            invariant
                i <= self.squares@.len(),
                forall|j: int| 0 <= j < i ==> !is_blast()(#[trigger] self.squares@[j]),
            decreases self.squares@.len() - i,
        {
            if self.squares[i].opened {
                if let Mine::Explode = self.squares[i].mine {
                    assert(is_blast()(self@.squares[i as int]));
                    return true;
                }
            }
            i += 1;
        }
        false
    }

    /// The index of the square that `position` names.
    pub fn get_square_index(&self, position: Position) -> (index: usize)
        requires
            self@.shaped(),
            self@.holds(position),
        ensures
            index == self@.index_of(position),
            index < self@.squares.len(),
    {
        let row: usize = usize::from(position.lower);
        let col: usize = usize::from(position.upper);
        proof {
            lemma_index_on_board(self@, position);
            assert(self.width * row == self.width * (row - 1) + self.width) by (nonlinear_arith);
        }
        let offset: usize = self.width - col;
        ((self.width * row) - offset) - 1
    }

    /// Runs the cascade from the square at `index`, which is opened and
    /// touched by no mine: opens the squares around it, and goes on from
    /// each square opened in this way that no mine touches either.
    pub fn reveal_from(&mut self, index: usize)
        requires
            old(self)@.wf(),
            index < old(self)@.squares.len(),
            old(self)@.squares[index as int].opened,
            old(self)@.squares[index as int].mine == Mine::Count(0),
        ensures
            final(self)@ == (Board {
                squares: flooded(old(self)@.squares, old(self)@.width, index as int),
                ..old(self)@
            }),
            final(self)@.wf(),
            forall|c: int|
                0 <= c < old(self)@.squares.len() && (
                #[trigger] old(self)@.squares[c]).mine is Explode ==> final(self)@.squares[c]
                    == old(self)@.squares[c],
    {
        let ghost base = self.squares@;
        let ghost w = self.width as int;
        let ghost h = self.height as int;
        let ghost mut done: Set<int> = Set::empty();
        let mut next_squares: VecDeque<usize> = VecDeque::new();
        next_squares.push_front(index);
        proof {
            lemma_sweep_begins(base, w, index as int, next_squares@);
            lemma_tally_bound(self.squares@, is_opened());
        }
        while next_squares.len() > 0
            invariant
                self.width == w,
                self.height == h,
                self.target_to_open == old(self).target_to_open,
                self.flags == old(self).flags,
                base == old(self)@.squares,
                w == old(self)@.width,
                h == old(self)@.height,
                old(self)@.wf(),
                placed(base, w, h),
                sweep(base, self.squares@, w, index as int, waiting(next_squares@), done),
                count_opened(self.squares@) <= self.squares@.len(),
            decreases self.squares@.len() - count_opened(self.squares@) + next_squares@.len(),
        {
            let ghost fuel = self.squares@.len() - count_opened(self.squares@) + next_squares@.len();
            let ghost queue = next_squares@;
            let i: usize = next_squares.pop_front().unwrap();
            proof {
                lemma_sweep_pop(base, self.squares@, w, index as int, queue, done);
                lemma_around_on_board(i as int, w, h);
                lemma_neighbourhood(i as int, w, h);
                assert(self.squares@[i as int].edge == base[i as int].edge);
                assert(old(self)@.squares[i as int].mine == Mine::Count(0));
            }
            let ghost near = neighbours(i as int, base[i as int].edge, w);
            assert(mines_among(base, near) == 0);
            let surrounding_indicies = self.squares[i].edge.get_index_offsets(i, self.width);
            let mut k: usize = 0;
            while k < surrounding_indicies.len()
                invariant
                    k <= surrounding_indicies@.len(),
                    self.width == w,
                    self.height == h,
                    self.target_to_open == old(self).target_to_open,
                    self.flags == old(self).flags,
                    base == old(self)@.squares,
                w == old(self)@.width,
                h == old(self)@.height,
                    old(self)@.wf(),
                    placed(base, w, h),
                    0 <= i < base.len(),
                    base[i as int].mine == Mine::Count(0),
                    near == neighbours(i as int, base[i as int].edge, w),
                    mines_among(base, near) == 0,
                    surrounding_indicies@.len() == near.len(),
                    forall|n: int|
                        0 <= n < near.len() ==> surrounding_indicies@[n] == #[trigger] near[n],
                    forall|n: int| 0 <= n < near.len() ==> 0 <= #[trigger] near[n] < base.len(),
                    sweep(
                        base,
                        self.squares@,
                        w,
                        index as int,
                        waiting(next_squares@).insert(i as int),
                        done,
                    ),
                    partly_surrounded(base, self.squares@, w, i as int, k as int),
                    count_opened(self.squares@) <= self.squares@.len(),
                    self.squares@.len() - count_opened(self.squares@) + next_squares@.len() < fuel,
                decreases surrounding_indicies@.len() - k,
            {
                let square: usize = surrounding_indicies[k];
                let ghost now = self.squares@;
                proof {
                    assert(near[k as int] == square);
                }
                if !self.squares[square].opened {
                    proof {
                        lemma_sweep_open(
                            base,
                            now,
                            w,
                            h,
                            index as int,
                            next_squares@,
                            done,
                            i as int,
                            k as int,
                        );
                        lemma_no_mine_among(base, near, k as int);
                        lemma_tally_update(
                            now,
                            square as int,
                            Square { opened: true, ..now[square as int] },
                            is_opened(),
                        );
                        assert(now[square as int].mine == base[square as int].mine);
                    }
                    self.squares[square].opened = true;
                    proof {
                        assert(self.squares@ =~= now.update(
                            square as int,
                            Square { opened: true, ..now[square as int] },
                        ));
                        lemma_tally_bound(self.squares@, is_opened());
                    }
                    if self.squares[square].mine.get_count() == 0 {
                        next_squares.push_back(square);
                    }
                } else {
                    proof {
                        lemma_sweep_skip(base, now, w, i as int, k as int);
                    }
                }
                k += 1;
            }
            proof {
                lemma_sweep_done(base, self.squares@, w, index as int, next_squares@, done, i as int);
                done = done.insert(i as int);
            }
        }
        proof {
            lemma_sweep_ends(base, self.squares@, w, index as int, next_squares@, done);
            lemma_opened_wf(old(self)@, self@);
            assert forall|c: int|
                0 <= c < base.len() && (#[trigger] base[c]).mine is Explode implies self.squares@[c]
                == base[c] by {
                if reached(base, w, index as int, c) {
                    lemma_reached_is_safe(base, w, h, index as int, c);
                }
            }
        }
    }

    /// Why the flag of the square that `position` names cannot be toggled,
    /// if it cannot: a move that asks for it would leave the board
    /// unchanged.
    pub fn refusal(&self, position: Position) -> (why: Option<Refusal>)
        requires
            self@.shaped(),
            self@.holds(position),
        ensures
            why == self@.refusal(self@.index_of(position)),
            why is Some <==> self@.refuses_flag(self@.index_of(position)),
    {
        let index: usize = self.get_square_index(position);
        if self.squares[index].opened {
            Some(Refusal::Opened)
        } else if self.flags == 0 && !self.squares[index].flagged {
            Some(Refusal::NoFlags)
        } else {
            None
        }
    }

    /// Makes a move. Once the game is lost or won, every move is refused:
    /// the board stays as it is and the move ends as the game has ended.
    /// Until then, to quit changes nothing; a flag is planted on or taken
    /// from a closed square, unless none is in stock for a square without
    /// one; and a square is opened, with the cascade if no mine touches
    /// it, which is death if it hides a mine.
    pub fn update(&mut self, action: PlayerAction) -> (end: End)
        requires
            old(self)@.wf(),
            old(self)@.admits(action),
        ensures
            (final(self)@, end) == old(self)@.step(action),
            final(self)@.wf(),
    {
        if self.has_exploded() {
            return End::Death;
        }
        if self.is_solved() {
            return End::Victory;
        }
        match action {
            PlayerAction::ToggleFlag(position) => {
                let index: usize = self.get_square_index(position);
                if self.squares[index].opened {
                    return End::Unchanged;
                }
                if self.flags == 0 && !self.squares[index].flagged {
                    return End::Unchanged;
                }
                proof {
                    lemma_toggled_wf(old(self)@, index as int);
                }
                if self.squares[index].toggle_flag() {
                    self.flags -= 1;
                } else {
                    self.flags += 1;
                }
                proof {
                    assert(self.squares@ =~= old(self)@.toggled(index as int).squares);
                    assert(self@ == old(self)@.toggled(index as int));
                }
            },
            PlayerAction::OpenSquare(position) => {
                let index: usize = self.get_square_index(position);
                self.squares[index].opened = true;
                proof {
                    assert(self.squares@ =~= old(self)@.uncovered(index as int).squares);
                    assert(self@ == old(self)@.uncovered(index as int));
                    lemma_opened_wf(old(self)@, self@);
                }
                match self.squares[index].mine {
                    Mine::Explode => {
                        return End::Death;
                    },
                    Mine::Count(count) => {
                        if count == 0 {
                            self.reveal_from(index);
                        }
                    },
                }
            },
            PlayerAction::Quit => {
                return End::Quit;
            },
        }
        if self.is_solved() {
            End::Victory
        } else {
            End::Unfinished
        }
    }
}

/// A fresh board has no flag planted.
proof fn lemma_no_flags(squares: Seq<Square>)
    requires
        forall|i: int| 0 <= i < squares.len() ==> !(#[trigger] squares[i]).flagged,
    ensures
        count_flagged(squares) == 0,
    decreases squares.len(),
{
    if squares.len() > 0 {
        assert(!squares[squares.len() - 1].flagged);
        lemma_no_flags(squares.drop_last());
    }
}

} // verus!
