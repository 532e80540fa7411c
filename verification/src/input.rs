//! Reading a move from a line of text: `q` to quit, `o aA` to open the
//! square in row `a` and column `A`, `f aA` to toggle its flag.

use vstd::prelude::*;
use crate::play::PlayerAction;
use crate::position::{Lower, Position, Upper};

verus! {

/// The smallest width and height of a board.
pub const SMALLEST_SIDE: usize = 2;

/// The largest width and height of a board whose squares letters can name.
pub const LARGEST_SIDE: usize = 26;

/// Why a line of text is no move.
#[derive(Clone, Copy, Debug, PartialEq, Eq, Structural)]
pub enum InputError {
    /// The line is empty.
    Empty,
    /// The line begins with none of `q`, `o` and `f`.
    FirstCharacter,
    /// The line has two or three characters.
    Incomplete,
    /// The second character is no space.
    SecondCharacter,
    /// The third character is no small letter.
    ThirdCharacter,
    /// The board has no row of that letter.
    InvalidRow,
    /// The fourth character is no capital letter.
    FourthCharacter,
    /// The board has no column of that letter.
    InvalidColumn,
    /// The line has more than four characters.
    TooMuch,
}

/// The move that a line of text asks for on a board of the given width and
/// height, or why it asks for none.
pub open spec fn parsed(input: Seq<char>, width: int, height: int) -> Result<
    PlayerAction,
    InputError,
> {
    if input.len() == 0 {
        Err(InputError::Empty)
    } else if input.len() == 1 {
        if input[0] == 'q' {
            Ok(PlayerAction::Quit)
        } else {
            Err(InputError::FirstCharacter)
        }
    } else if input.len() <= 3 {
        Err(InputError::Incomplete)
    } else if input.len() > 4 {
        Err(InputError::TooMuch)
    } else if input[0] != 'o' && input[0] != 'f' {
        Err(InputError::FirstCharacter)
    } else if input[1] != ' ' {
        Err(InputError::SecondCharacter)
    } else if !('a' <= input[2] <= 'z') {
        Err(InputError::ThirdCharacter)
    } else if Lower::named(input[2]).number() > height {
        Err(InputError::InvalidRow)
    } else if !('A' <= input[3] <= 'Z') {
        Err(InputError::FourthCharacter)
    } else if Upper::named(input[3]).number() > width {
        Err(InputError::InvalidColumn)
    } else {
        let position = Position { lower: Lower::named(input[2]), upper: Upper::named(input[3]) };
        if input[0] == 'o' {
            Ok(PlayerAction::OpenSquare(position))
        } else {
            Ok(PlayerAction::ToggleFlag(position))
        }
    }
}

/// Whether a board may be `side` squares wide or high: at least two, and
/// no more than there are letters to name its rows and columns.
pub fn is_valid_side(side: usize) -> (valid: bool)
    ensures
        valid == (SMALLEST_SIDE <= side <= LARGEST_SIDE),
{
    SMALLEST_SIDE <= side && side <= LARGEST_SIDE
}

/// Reads a move from the characters of a line, for a board of the given
/// width and height.
pub fn parse_action(input: &Vec<char>, width: usize, height: usize) -> (read: Result<
    PlayerAction,
    InputError,
>)
    ensures
        read == parsed(input@, width as int, height as int),
        read matches Ok(PlayerAction::OpenSquare(position)) ==> position.lower.number() <= height
            && position.upper.number() <= width,
        read matches Ok(PlayerAction::ToggleFlag(position)) ==> position.lower.number() <= height
            && position.upper.number() <= width,
{
    let len: usize = input.len();
    if len == 0 {
        Err(InputError::Empty)
    } else if len == 1 {
        if input[0] == 'q' {
            Ok(PlayerAction::Quit)
        } else {
            Err(InputError::FirstCharacter)
        }
    } else if len <= 3 {
        Err(InputError::Incomplete)
    } else if len > 4 {
        Err(InputError::TooMuch)
    } else {
        if input[0] != 'o' && input[0] != 'f' {
            return Err(InputError::FirstCharacter);
        }
        if input[1] != ' ' {
            return Err(InputError::SecondCharacter);
        }
        let lower = if 'a' <= input[2] && input[2] <= 'z' {
            if usize::from(Lower::from_letter(input[2])) > height {
                return Err(InputError::InvalidRow);
            }
            Lower::from_letter(input[2])
        } else {
            return Err(InputError::ThirdCharacter);
        };
        let upper = if 'A' <= input[3] && input[3] <= 'Z' {
            if usize::from(Upper::from_letter(input[3])) > width {
                return Err(InputError::InvalidColumn);
            }
            Upper::from_letter(input[3])
        } else {
            return Err(InputError::FourthCharacter);
        };
        if input[0] == 'o' {
            Ok(PlayerAction::OpenSquare(Position::new(lower, upper)))
        } else {
            Ok(PlayerAction::ToggleFlag(Position::new(lower, upper)))
        }
    }
}

} // verus!
