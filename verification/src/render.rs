//! Drawing the board as text: a row of column letters above and below, a
//! row letter at both ends of every row, and the stock of flags beneath.

use vstd::prelude::*;
use crate::board::{lemma_mines_among_bound, Board};
use crate::edge::{class_of, lemma_cell, lemma_row_col, neighbours, Edge};
use crate::minefield::Minefield;
use crate::position::{Lower, Upper};
use crate::square::{Mine, Square};

verus! {

/// `String::push` appends the character to the end of the text.
pub assume_specification[ String::push ](text: &mut String, ch: char)
    ensures
        final(text)@ == old(text)@.push(ch),
;

/// `String::push_str` appends the string slice to the end of the text.
pub assume_specification[ String::push_str ](text: &mut String, string: &str)
    ensures
        final(text)@ == old(text)@ + string@,
;

/// The character for a count from 0 to 9.
pub open spec fn digit_symbol(n: int) -> char {
    if n == 0 {
        '0'
    } else if n == 1 {
        '1'
    } else if n == 2 {
        '2'
    } else if n == 3 {
        '3'
    } else if n == 4 {
        '4'
    } else if n == 5 {
        '5'
    } else if n == 6 {
        '6'
    } else if n == 7 {
        '7'
    } else if n == 8 {
        '8'
    } else {
        '9'
    }
}

/// How a square is drawn: `!` with a flag; else, once opened, `*` for a
/// mine and its count for any other square; else a blank.
pub open spec fn symbol_of(square: Square) -> char {
    if square.flagged {
        '!'
    } else if square.opened {
        match square.mine {
            Mine::Explode => '*',
            Mine::Count(count) => digit_symbol(count as int),
        }
    } else {
        ' '
    }
}

/// The number `n` in decimal digits.
pub open spec fn decimal(n: nat) -> Seq<char>
    decreases n,
{
    if n < 10 {
        seq![digit_symbol(n as int)]
    } else {
        decimal(n / 10).push(digit_symbol((n % 10) as int))
    }
}

/// The letters of the first `width` columns, each followed by a blank;
/// columns past the last letter have none.
pub open spec fn column_names(width: int) -> Seq<char>
    decreases width,
{
    if width <= 0 {
        Seq::empty()
    } else if width > 26 {
        column_names(width - 1)
    } else {
        column_names(width - 1).push(Upper::numbered(width).letter()).push(' ')
    }
}

/// `-+` for each of the first `width` columns.
pub open spec fn dashes(width: int) -> Seq<char>
    decreases width,
{
    if width <= 0 {
        Seq::empty()
    } else {
        dashes(width - 1) + "-+"@
    }
}

/// The line of column letters.
pub open spec fn top_row(width: int) -> Seq<char> {
    ("  "@ + column_names(width)).push('\n')
}

/// The line that parts two rows of the board.
pub open spec fn dash_row(width: int) -> Seq<char> {
    (" +"@ + dashes(width)).push('\n')
}

/// What a square adds to the drawing, given the letter of its row and the
/// line that parts two rows: its symbol and a bar; at the left end of a row
/// the row's letter and a bar before it, with a parting line above the
/// first row; at the right end the row's letter after it, the end of the
/// line, and a parting line.
pub open spec fn piece_of(square: Square, name: char, parting: Seq<char>) -> Seq<char> {
    let symbol = symbol_of(square);
    match square.edge {
        Edge::TopLeft => parting + seq![name, '|', symbol, '|'],
        Edge::Left | Edge::BottomLeft => seq![name, '|', symbol, '|'],
        Edge::TopRight | Edge::Right | Edge::BottomRight => seq![symbol, '|', name, '\n']
            + parting,
        _ => seq![symbol, '|'],
    }
}

/// Whether a square of this place ends its row.
pub open spec fn ends_row(edge: Edge) -> bool {
    edge == Edge::TopRight || edge == Edge::Right || edge == Edge::BottomRight
}

/// What the square at `i` adds to the drawing of the board.
pub open spec fn piece(board: Board, i: int) -> Seq<char> {
    piece_of(
        board.squares[i],
        Lower::numbered(i / board.width + 1).letter(),
        dash_row(board.width),
    )
}

/// The drawing of the squares before `upto`.
pub open spec fn pieces(board: Board, upto: int) -> Seq<char>
    decreases upto,
{
    if upto <= 0 {
        Seq::empty()
    } else {
        pieces(board, upto - 1) + piece(board, upto - 1)
    }
}

/// The drawing of the board.
pub open spec fn rendered(board: Board) -> Seq<char> {
    top_row(board.width) + pieces(board, board.squares.len() as int) + top_row(board.width)
        + "Flags remaining: "@ + decimal(board.flags as nat)
}

/// The character for a count from 0 to 9.
pub fn digit_char(n: usize) -> (digit: char)
    requires
        n <= 9,
    ensures
        digit == digit_symbol(n as int),
{
    match n {
        0 => '0',
        1 => '1',
        2 => '2',
        3 => '3',
        4 => '4',
        5 => '5',
        6 => '6',
        7 => '7',
        8 => '8',
        _ => '9',
    }
}

/// Appends the number `n` in decimal digits.
pub fn push_decimal(text: &mut String, n: usize)
    ensures
        final(text)@ == old(text)@ + decimal(n as nat),
    decreases n,
{
    let ghost before = text@;
    if n >= 10 {
        push_decimal(text, n / 10);
    }
    text.push(digit_char(n % 10));
    proof {
        if n >= 10 {
            assert((before + decimal((n / 10) as nat)).push(digit_symbol((n % 10) as int)) =~= before
                + decimal(n as nat));
        } else {
            assert(before.push(digit_symbol(n as int)) =~= before + decimal(n as nat));
        }
    }
}

/// The line of column letters for a board of the given width.
pub fn top_row_text(width: usize) -> (text: String)
    ensures
        text@ == top_row(width as int),
{
    let mut text = String::new();
    text.push_str("  ");
    let ghost lead = text@;
    let mut col: usize = 0;
    while col < width && col < 26
        invariant
            col <= width,
            col <= 26,
            text@ == lead + column_names(col as int),
        decreases width - col,
    {
        let ghost before = text@;
        col += 1;
        text.push(Upper::from_number(col).to_letter());
        text.push(' ');
        proof {
            assert(before.push(Upper::numbered(col as int).letter()).push(' ') =~= lead
                + column_names(col as int));
        }
    }
    proof {
        if col < width {
            lemma_names_end(col as int, width as int);
        }
    }
    text.push('\n');
    text
}

/// Columns past the last letter add nothing to the line of letters.
proof fn lemma_names_end(col: int, width: int)
    requires
        26 <= col <= width,
    ensures
        column_names(width) == column_names(col),
    decreases width - col,
{
    if col < width {
        lemma_names_end(col, width - 1);
    }
}

/// The line that parts two rows of a board of the given width.
pub fn dash_row_text(width: usize) -> (text: String)
    ensures
        text@ == dash_row(width as int),
{
    let mut text = String::new();
    text.push_str(" +");
    let ghost lead = text@;
    let mut col: usize = 0;
    while col < width
        invariant
            col <= width,
            text@ == lead + dashes(col as int),
        decreases width - col,
    {
        let ghost before = text@;
        text.push_str("-+");
        col += 1;
        proof {
            assert(before + "-+"@ =~= lead + dashes(col as int));
        }
    }
    text.push('\n');
    text
}

impl Square {
    /// The character that draws the square.
    pub fn symbol(&self) -> (symbol: char)
        requires
            !self.flagged && self.opened ==> (self.mine matches Mine::Count(count) ==> count <= 9),
        ensures
            symbol == symbol_of(*self),
    {
        if self.flagged {
            '!'
        } else if self.opened {
            match self.mine {
                Mine::Explode => '*',
                Mine::Count(count) => digit_char(count),
            }
        } else {
            ' '
        }
    }
}

/// The square after one that ends its row lies in the next row, and the
/// square after any other in the same row.
proof fn lemma_next_row(i: int, width: int, height: int)
    requires
        2 <= width,
        2 <= height,
        0 <= i < width * height,
    ensures
        1 <= i / width + 1 <= height,
        ends_row(class_of(i, width, height)) <==> i % width == width - 1,
        i + 1 < width * height ==> (i + 1) / width == i / width + if ends_row(
            class_of(i, width, height),
        ) {
            1int
        } else {
            0int
        },
{
    lemma_row_col(i, width, height);
    let r = i / width;
    let c = i % width;
    if c < width - 1 {
        lemma_cell(r, c + 1, width, height);
    } else {
        assert((r + 1) * width == r * width + width) by (nonlinear_arith);
        if r + 1 < height {
            lemma_cell(r + 1, 0, width, height);
        } else {
            assert(i + 1 == height * width);
            assert(height * width == width * height) by (nonlinear_arith);
        }
    }
}

/// Appends what a square adds to the drawing.
pub fn push_piece(text: &mut String, square: &Square, name: char, parting: &str)
    requires
        !square.flagged && square.opened ==> (square.mine matches Mine::Count(count) ==> count
            <= 9),
    ensures
        final(text)@ == old(text)@ + piece_of(*square, name, parting@),
{
    let ghost before = text@;
    let symbol = square.symbol();
    match square.edge {
        Edge::TopLeft | Edge::Left | Edge::BottomLeft => {
            if let Edge::TopLeft = square.edge {
                text.push_str(parting);
            }
            text.push(name);
            text.push('|');
            text.push(symbol);
            text.push('|');
        },
        Edge::TopRight | Edge::Right | Edge::BottomRight => {
            text.push(symbol);
            text.push('|');
            text.push(name);
            text.push('\n');
            text.push_str(parting);
        },
        _ => {
            text.push(symbol);
            text.push('|');
        },
    }
    proof {
        assert(text@ =~= before + piece_of(*square, name, parting@));
    }
}

impl Minefield {
    /// Draws the board, whose rows letters can name.
    pub fn render(&self) -> (text: String)
        requires
            self@.wf(),
            self@.height <= 26,
        ensures
            text@ == rendered(self@),
    {
        let width: usize = self.width();
        let squares = self.squares();
        let ghost board = self@;
        let top = top_row_text(width);
        let parting = dash_row_text(width);
        let mut text = String::new();
        text.push_str(top.as_str());
        let mut row: usize = 1;
        let mut i: usize = 0;
        proof {
            assert(text@ =~= top_row(board.width) + pieces(board, 0));
            lemma_cell(0, 0, board.width, board.height);
        }
        while i < squares.len()
            invariant
                i <= squares@.len(),
                board.wf(),
                board.height <= 26,
                squares@ == board.squares,
                top@ == top_row(board.width),
                parting@ == dash_row(board.width),
                i < squares@.len() ==> row == (i as int) / board.width + 1,
                text@ == top_row(board.width) + pieces(board, i as int),
            decreases squares@.len() - i,
        {
            let ghost before = text@;
            proof {
                lemma_next_row(i as int, board.width, board.height);
                lemma_mines_among_bound(
                    board.squares,
                    neighbours(i as int, board.squares[i as int].edge, board.width),
                );
                assert(board.squares[i as int].edge == class_of(
                    i as int,
                    board.width,
                    board.height,
                ));
            }
            let name = Lower::from_number(row).to_letter();
            push_piece(&mut text, &squares[i], name, parting.as_str());
            match squares[i].edge {
                Edge::TopRight | Edge::Right | Edge::BottomRight => {
                    row += 1;
                },
                _ => {},
            }
            proof {
                assert(text@ == before + piece(board, i as int));
                assert(text@ =~= top_row(board.width) + pieces(board, i + 1));
            }
            i += 1;
        }
        text.push_str(top.as_str());
        text.push_str("Flags remaining: ");
        push_decimal(&mut text, self.flags());
        text
    }
}

} // verus!
