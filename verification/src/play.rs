//! The rules of play: what each move makes of a board, and how a game
//! ends.

use vstd::prelude::*;
use crate::board::{
    count_flagged, count_mines, is_flagged, is_mine, lemma_mines_among_same, lemma_tally_same,
    lemma_tally_update, Board,
};
use crate::edge::{lemma_neighbourhood, neighbours};
use crate::flood::{flooded, lemma_reached_is_safe, reached};
use crate::position::Position;
use crate::square::{Mine, Square};

verus! {

/// How a move ended.
#[derive(Clone, Copy, Debug, PartialEq, Eq, Structural)]
pub enum End {
    /// The move was made and the game goes on.
    Unfinished,
    /// The move was refused and the board is as it was.
    Unchanged,
    /// A mine was opened: the game is lost.
    Death,
    /// Every safe square is opened and every flag planted: the game is won.
    Victory,
    /// The player left the game.
    Quit,
}

/// A move of the player.
#[derive(Clone, Copy, Debug, PartialEq, Eq, Structural)]
pub enum PlayerAction {
    Quit,
    ToggleFlag(Position),
    OpenSquare(Position),
}

/// Why no flag can be planted on a square or taken from it.
#[derive(Clone, Copy, Debug, PartialEq, Eq, Structural)]
pub enum Refusal {
    /// The square is opened.
    Opened,
    /// The square has no flag and none is left in stock.
    NoFlags,
}

/// A mine that has been opened.
pub open spec fn is_blast() -> spec_fn(Square) -> bool {
    |s: Square| s.opened && s.mine is Explode
}

impl Board {
    /// The square named by `position` lies on the board.
    pub open spec fn holds(self, position: Position) -> bool {
        position.lower.number() <= self.height && position.upper.number() <= self.width
    }

    /// The move names no square, or one that lies on the board.
    pub open spec fn admits(self, action: PlayerAction) -> bool {
        match action {
            PlayerAction::Quit => true,
            PlayerAction::ToggleFlag(position) => self.holds(position),
            PlayerAction::OpenSquare(position) => self.holds(position),
        }
    }

    /// The index of the square named by `position`.
    pub open spec fn index_of(self, position: Position) -> int {
        self.width * (position.lower.number() - 1) + (position.upper.number() - 1)
    }

    /// A mine has been opened.
    pub open spec fn exploded(self) -> bool {
        exists|i: int| 0 <= i < self.squares.len() && is_blast()(#[trigger] self.squares[i])
    }

    /// The game is over: lost or won.
    pub open spec fn over(self) -> bool {
        self.exploded() || self.solved()
    }

    /// How a game that is over has ended.
    pub open spec fn outcome(self) -> End {
        if self.exploded() {
            End::Death
        } else {
            End::Victory
        }
    }

    /// How a move that was made ends, on the board that it leaves.
    pub open spec fn verdict(self) -> End {
        if self.solved() {
            End::Victory
        } else {
            End::Unfinished
        }
    }

    /// No flag may be planted on or taken from the square at `i`: it is
    /// opened, or it has no flag and none is in stock.
    pub open spec fn refuses_flag(self, i: int) -> bool {
        self.squares[i].opened || (self.flags == 0 && !self.squares[i].flagged)
    }

    /// Why the flag of the square at `i` cannot be toggled, if it cannot.
    pub open spec fn refusal(self, i: int) -> Option<Refusal> {
        if self.squares[i].opened {
            Some(Refusal::Opened)
        } else if self.flags == 0 && !self.squares[i].flagged {
            Some(Refusal::NoFlags)
        } else {
            None
        }
    }

    /// The board after the flag of the square at `i` has been planted or
    /// taken back: a planted flag leaves the stock, one taken back
    /// returns to it.
    pub open spec fn toggled(self, i: int) -> Board {
        Board {
            squares: self.squares.update(
                i,
                Square { flagged: !self.squares[i].flagged, ..self.squares[i] },
            ),
            flags: if self.squares[i].flagged {
                self.flags + 1
            } else {
                self.flags - 1
            },
            ..self
        }
    }

    /// The board after the square at `i` has been marked as opened.
    pub open spec fn uncovered(self, i: int) -> Board {
        Board { squares: self.squares.update(i, Square { opened: true, ..self.squares[i] }), ..self }
    }

    /// The board after the square at `i` has been opened: if no mine
    /// touches it, the cascade from it has run.
    pub open spec fn opened_at(self, i: int) -> Board {
        let marked = self.uncovered(i);
        if marked.squares[i].mine == Mine::Count(0) {
            Board { squares: flooded(marked.squares, self.width, i), ..marked }
        } else {
            marked
        }
    }

    /// What a move makes of the board, and how it ends. Once the game is
    /// over, no move changes the board or the end.
    pub open spec fn step(self, action: PlayerAction) -> (Board, End) {
        if self.over() {
            (self, self.outcome())
        } else {
            match action {
                PlayerAction::Quit => (self, End::Quit),
                PlayerAction::ToggleFlag(position) => {
                    let i = self.index_of(position);
                    if self.refuses_flag(i) {
                        (self, End::Unchanged)
                    } else {
                        (self.toggled(i), self.toggled(i).verdict())
                    }
                },
                PlayerAction::OpenSquare(position) => {
                    let i = self.index_of(position);
                    if self.squares[i].mine is Explode {
                        (self.uncovered(i), End::Death)
                    } else {
                        (self.opened_at(i), self.opened_at(i).verdict())
                    }
                },
            }
        }
    }
}

/// A square named on the board has its index on the board.
pub proof fn lemma_index_on_board(board: Board, position: Position)
    requires
        board.shaped(),
        board.holds(position),
    ensures
        0 <= board.index_of(position) < board.squares.len(),
        board.width * position.lower.number() <= board.squares.len(),
{
    let row = position.lower.number();
    let col = position.upper.number();
    assert(board.width * (row - 1) + board.width <= board.width * board.height)
        by (nonlinear_arith)
        requires
            1 <= row <= board.height,
            0 < board.width,
    ;
    assert(0 <= board.width * (row - 1)) by (nonlinear_arith)
        requires
            1 <= row,
            0 < board.width,
    ;
    assert(board.width * row == board.width * (row - 1) + board.width) by (nonlinear_arith);
}

/// A board stays well formed when its mines and places stay as they are
/// and every flag is still either planted or in stock.
pub proof fn lemma_wf_kept(before: Board, after: Board)
    requires
        before.wf(),
        after.width == before.width,
        after.height == before.height,
        after.target_to_open == before.target_to_open,
        after.squares.len() == before.squares.len(),
        forall|i: int|
            0 <= i < before.squares.len() ==> (#[trigger] after.squares[i]).mine
                == before.squares[i].mine && after.squares[i].edge == before.squares[i].edge,
        0 <= after.flags,
        after.flags + count_flagged(after.squares) == count_mines(before.squares),
    ensures
        after.wf(),
        count_mines(after.squares) == count_mines(before.squares),
{
    assert forall|i: int| 0 <= i < before.squares.len() implies is_mine()(
        #[trigger] before.squares[i],
    ) == is_mine()(after.squares[i]) by {
        assert(after.squares[i].mine == before.squares[i].mine);
    }
    lemma_tally_same(before.squares, after.squares, is_mine());
    assert forall|i: int| 0 <= i < after.squares.len() implies match (
    #[trigger] after.squares[i]).mine {
        Mine::Explode => true,
        Mine::Count(count) => count == crate::board::mines_among(
            after.squares,
            neighbours(i, after.squares[i].edge, after.width),
        ),
    } by {
        let near = neighbours(i, before.squares[i].edge, before.width);
        assert(before.squares[i].edge == crate::edge::class_of(i, before.width, before.height));
        lemma_neighbourhood(i, before.width, before.height);
        assert forall|k: int| 0 <= k < near.len() implies (
        before.squares[#[trigger] near[k]].mine is Explode) == (
        after.squares[near[k]].mine is Explode) by {
            assert(after.squares[near[k]].mine == before.squares[near[k]].mine);
        }
        lemma_mines_among_same(before.squares, after.squares, near);
        assert(after.squares[i].mine == before.squares[i].mine);
    }
}

/// Planting or taking back a flag that the board does not refuse leaves a
/// well-formed board.
pub proof fn lemma_toggled_wf(board: Board, i: int)
    requires
        board.wf(),
        0 <= i < board.squares.len(),
        !board.refuses_flag(i),
    ensures
        board.toggled(i).wf(),
        0 <= board.toggled(i).flags <= board.squares.len(),
{
    let after = board.toggled(i);
    lemma_tally_update(
        board.squares,
        i,
        Square { flagged: !board.squares[i].flagged, ..board.squares[i] },
        is_flagged(),
    );
    crate::board::lemma_tally_bound(board.squares, is_mine());
    lemma_wf_kept(board, after);
}

/// Opening squares leaves a well-formed board.
pub proof fn lemma_opened_wf(before: Board, after: Board)
    requires
        before.wf(),
        after.width == before.width,
        after.height == before.height,
        after.target_to_open == before.target_to_open,
        after.flags == before.flags,
        after.squares.len() == before.squares.len(),
        forall|i: int|
            0 <= i < before.squares.len() ==> (#[trigger] after.squares[i]) == (Square {
                opened: after.squares[i].opened,
                ..before.squares[i]
            }),
    ensures
        after.wf(),
{
    assert forall|i: int| 0 <= i < before.squares.len() implies is_flagged()(
        #[trigger] before.squares[i],
    ) == is_flagged()(after.squares[i]) by {
        assert(after.squares[i].flagged == before.squares[i].flagged);
    }
    lemma_tally_same(before.squares, after.squares, is_flagged());
    lemma_wf_kept(before, after);
}

/// Every move that the board admits leaves a well-formed board.
pub proof fn lemma_step_wf(board: Board, action: PlayerAction)
    requires
        board.wf(),
        board.admits(action),
    ensures
        board.step(action).0.wf(),
{
    if !board.over() {
        match action {
            PlayerAction::Quit => {},
            PlayerAction::ToggleFlag(position) => {
                let i = board.index_of(position);
                lemma_index_on_board(board, position);
                if !board.refuses_flag(i) {
                    lemma_toggled_wf(board, i);
                }
            },
            PlayerAction::OpenSquare(position) => {
                let i = board.index_of(position);
                lemma_index_on_board(board, position);
                lemma_opened_wf(board, board.uncovered(i));
                lemma_opened_wf(board, board.opened_at(i));
            },
        }
    }
}

/// On a well-formed board every count is the number of mines among at most
/// eight squares, so none exceeds eight.
pub proof fn lemma_count_at_most_eight(board: Board, i: int)
    requires
        board.wf(),
        0 <= i < board.squares.len(),
    ensures
        board.squares[i].mine matches Mine::Count(count) ==> count <= 8,
{
    crate::board::lemma_mines_among_bound(
        board.squares,
        neighbours(i, board.squares[i].edge, board.width),
    );
}

/// The cascade opens no mine: on a well-formed board, a mine that was
/// closed before the square at `i` was opened is closed afterwards, unless
/// it is that square itself.
pub proof fn lemma_cascade_spares_mines(board: Board, i: int, c: int)
    requires
        board.wf(),
        0 <= i < board.squares.len(),
        0 <= c < board.squares.len(),
        c != i,
        board.squares[c].mine is Explode,
    ensures
        board.opened_at(i).squares[c].opened == board.squares[c].opened,
{
    let marked = board.uncovered(i);
    if marked.squares[i].mine == Mine::Count(0) {
        lemma_opened_wf(board, marked);
        if reached(marked.squares, board.width, i, c) {
            lemma_reached_is_safe(marked.squares, board.width, board.height, i, c);
        }
    }
}

/// A move opens a mine only when it opens the very square of that mine:
/// whatever else it opens, by the cascade or not at all, hides no mine.
pub proof fn lemma_mines_open_only_directly(board: Board, action: PlayerAction, c: int)
    requires
        board.wf(),
        board.admits(action),
        0 <= c < board.squares.len(),
        board.squares[c].mine is Explode,
        !board.squares[c].opened,
        board.step(action).0.squares[c].opened,
    ensures
        action matches PlayerAction::OpenSquare(position) && board.index_of(position) == c,
{
    if !board.over() {
        match action {
            PlayerAction::Quit => {},
            PlayerAction::ToggleFlag(position) => {
                lemma_index_on_board(board, position);
            },
            PlayerAction::OpenSquare(position) => {
                let i = board.index_of(position);
                lemma_index_on_board(board, position);
                if i != c {
                    lemma_cascade_spares_mines(board, i, c);
                }
            },
        }
    }
}

/// Toggling the flag of a closed square twice gives the board back as it
/// was, flags in stock and all; a square that had no flag has none again.
/// This holds unless the first toggle wins the game, after which the
/// second is not played.
pub proof fn lemma_toggle_twice(board: Board, position: Position)
    requires
        board.wf(),
        board.holds(position),
        !board.squares[board.index_of(position)].opened,
        board.over() || board.step(PlayerAction::ToggleFlag(position)).1 != End::Victory,
    ensures
        ({
            let once = board.step(PlayerAction::ToggleFlag(position)).0;
            let twice = once.step(PlayerAction::ToggleFlag(position)).0;
            &&& twice == board
            &&& twice.flags == board.flags
            &&& !board.squares[board.index_of(position)].flagged ==> !twice.squares[board.index_of(
                position,
            )].flagged
        }),
{
    let i = board.index_of(position);
    let action = PlayerAction::ToggleFlag(position);
    let once = board.step(action).0;
    let twice = once.step(action).0;
    lemma_index_on_board(board, position);
    if !board.over() && !board.refuses_flag(i) {
        lemma_toggled_wf(board, i);
        assert(once == board.toggled(i));
        assert(!once.solved());
        assert(!once.exploded()) by {
            if once.exploded() {
                let j = choose|j: int|
                    0 <= j < once.squares.len() && is_blast()(#[trigger] once.squares[j]);
                assert(is_blast()(board.squares[j]));
            }
        }
        assert(once.index_of(position) == i);
        assert(!once.refuses_flag(i));
        assert(twice == once.toggled(i));
        assert(twice.squares =~= board.squares);
    }
}

/// Once the game is over, no move changes the board, and every move ends
/// as the game has ended.
pub proof fn lemma_over_is_final(board: Board, action: PlayerAction)
    requires
        board.over(),
    ensures
        board.step(action) == (board, board.outcome()),
        board.outcome() == End::Death || board.outcome() == End::Victory,
{
}

/// A move that ends in death or in victory leaves a board on which the
/// game is over, and every move after it leaves that board as it is and
/// ends in the same way.
pub proof fn lemma_end_is_final(board: Board, action: PlayerAction, later: PlayerAction)
    requires
        board.wf(),
        board.admits(action),
        board.step(action).1 == End::Death || board.step(action).1 == End::Victory,
    ensures
        board.step(action).0.over(),
        board.step(action).0.step(later) == board.step(action),
{
    let after = board.step(action).0;
    let end = board.step(action).1;
    if !board.over() {
        match action {
            PlayerAction::Quit => {},
            PlayerAction::ToggleFlag(position) => {
                let i = board.index_of(position);
                lemma_index_on_board(board, position);
                assert(after == board.toggled(i));
                assert(after.solved());
                assert(!after.exploded()) by {
                    if after.exploded() {
                        let j = choose|j: int|
                            0 <= j < after.squares.len() && is_blast()(#[trigger] after.squares[j]);
                        assert(is_blast()(board.squares[j]));
                    }
                }
            },
            PlayerAction::OpenSquare(position) => {
                let i = board.index_of(position);
                lemma_index_on_board(board, position);
                if board.squares[i].mine is Explode {
                    assert(is_blast()(after.squares[i]));
                } else {
                    assert(after == board.opened_at(i));
                    assert(after.solved());
                    assert(!after.exploded()) by {
                        if after.exploded() {
                            let j = choose|j: int|
                                0 <= j < after.squares.len() && is_blast()(
                                    #[trigger] after.squares[j],
                                );
                            lemma_cascade_spares_mines(board, i, j);
                            assert(is_blast()(board.squares[j]));
                        }
                    }
                }
            },
        }
    }
}

} // verus!
