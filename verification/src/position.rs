//! Naming a square by letters: a small letter for its row and a capital
//! letter for its column.

use vstd::prelude::*;
use vstd::std_specs::convert::FromSpecImpl;

verus! {

/// The name of a row: `a` is the first row from the top.
#[allow(non_camel_case_types)]
#[derive(Clone, Copy, Debug, PartialEq, Eq, Structural)]
pub enum Lower {
    a,
    b,
    c,
    d,
    e,
    f,
    g,
    h,
    i,
    j,
    k,
    l,
    m,
    n,
    o,
    p,
    q,
    r,
    s,
    t,
    u,
    v,
    w,
    x,
    y,
    z,
}

impl Lower {
    /// The number of the row, counted from one.
    pub open spec fn number(self) -> int {
        match self {
            Lower::a => 1,
            Lower::b => 2,
            Lower::c => 3,
            Lower::d => 4,
            Lower::e => 5,
            Lower::f => 6,
            Lower::g => 7,
            Lower::h => 8,
            Lower::i => 9,
            Lower::j => 10,
            Lower::k => 11,
            Lower::l => 12,
            Lower::m => 13,
            Lower::n => 14,
            Lower::o => 15,
            Lower::p => 16,
            Lower::q => 17,
            Lower::r => 18,
            Lower::s => 19,
            Lower::t => 20,
            Lower::u => 21,
            Lower::v => 22,
            Lower::w => 23,
            Lower::x => 24,
            Lower::y => 25,
            Lower::z => 26,
        }
    }

    /// The letter that names the row.
    pub open spec fn letter(self) -> char {
        match self {
            Lower::a => 'a',
            Lower::b => 'b',
            Lower::c => 'c',
            Lower::d => 'd',
            Lower::e => 'e',
            Lower::f => 'f',
            Lower::g => 'g',
            Lower::h => 'h',
            Lower::i => 'i',
            Lower::j => 'j',
            Lower::k => 'k',
            Lower::l => 'l',
            Lower::m => 'm',
            Lower::n => 'n',
            Lower::o => 'o',
            Lower::p => 'p',
            Lower::q => 'q',
            Lower::r => 'r',
            Lower::s => 's',
            Lower::t => 't',
            Lower::u => 'u',
            Lower::v => 'v',
            Lower::w => 'w',
            Lower::x => 'x',
            Lower::y => 'y',
            Lower::z => 'z',
        }
    }

    /// The row with the number `num`, for a number from 1 to 26.
    pub open spec fn numbered(num: int) -> Lower {
        if num == 1 {
            Lower::a
        } else if num == 2 {
            Lower::b
        } else if num == 3 {
            Lower::c
        } else if num == 4 {
            Lower::d
        } else if num == 5 {
            Lower::e
        } else if num == 6 {
            Lower::f
        } else if num == 7 {
            Lower::g
        } else if num == 8 {
            Lower::h
        } else if num == 9 {
            Lower::i
        } else if num == 10 {
            Lower::j
        } else if num == 11 {
            Lower::k
        } else if num == 12 {
            Lower::l
        } else if num == 13 {
            Lower::m
        } else if num == 14 {
            Lower::n
        } else if num == 15 {
            Lower::o
        } else if num == 16 {
            Lower::p
        } else if num == 17 {
            Lower::q
        } else if num == 18 {
            Lower::r
        } else if num == 19 {
            Lower::s
        } else if num == 20 {
            Lower::t
        } else if num == 21 {
            Lower::u
        } else if num == 22 {
            Lower::v
        } else if num == 23 {
            Lower::w
        } else if num == 24 {
            Lower::x
        } else if num == 25 {
            Lower::y
        } else {
            Lower::z
        }
    }

    /// The row that `letter` names, for a letter from `a` to `z`.
    pub open spec fn named(letter: char) -> Lower {
        if letter == 'a' {
            Lower::a
        } else if letter == 'b' {
            Lower::b
        } else if letter == 'c' {
            Lower::c
        } else if letter == 'd' {
            Lower::d
        } else if letter == 'e' {
            Lower::e
        } else if letter == 'f' {
            Lower::f
        } else if letter == 'g' {
            Lower::g
        } else if letter == 'h' {
            Lower::h
        } else if letter == 'i' {
            Lower::i
        } else if letter == 'j' {
            Lower::j
        } else if letter == 'k' {
            Lower::k
        } else if letter == 'l' {
            Lower::l
        } else if letter == 'm' {
            Lower::m
        } else if letter == 'n' {
            Lower::n
        } else if letter == 'o' {
            Lower::o
        } else if letter == 'p' {
            Lower::p
        } else if letter == 'q' {
            Lower::q
        } else if letter == 'r' {
            Lower::r
        } else if letter == 's' {
            Lower::s
        } else if letter == 't' {
            Lower::t
        } else if letter == 'u' {
            Lower::u
        } else if letter == 'v' {
            Lower::v
        } else if letter == 'w' {
            Lower::w
        } else if letter == 'x' {
            Lower::x
        } else if letter == 'y' {
            Lower::y
        } else {
            Lower::z
        }
    }

    /// The row with the given number, counted from one.
    pub fn from_number(num: usize) -> (row: Lower)
        requires
            1 <= num <= 26,
        ensures
            row == Lower::numbered(num as int),
            row.number() == num,
    {
        match num {
            1 => Lower::a,
            2 => Lower::b,
            3 => Lower::c,
            4 => Lower::d,
            5 => Lower::e,
            6 => Lower::f,
            7 => Lower::g,
            8 => Lower::h,
            9 => Lower::i,
            10 => Lower::j,
            11 => Lower::k,
            12 => Lower::l,
            13 => Lower::m,
            14 => Lower::n,
            15 => Lower::o,
            16 => Lower::p,
            17 => Lower::q,
            18 => Lower::r,
            19 => Lower::s,
            20 => Lower::t,
            21 => Lower::u,
            22 => Lower::v,
            23 => Lower::w,
            24 => Lower::x,
            25 => Lower::y,
            _ => Lower::z,
        }
    }

    /// The row that the given letter names.
    pub fn from_letter(letter: char) -> (row: Lower)
        requires
            'a' <= letter <= 'z',
        ensures
            row == Lower::named(letter),
            row.letter() == letter,
    {
        match letter {
            'a' => Lower::a,
            'b' => Lower::b,
            'c' => Lower::c,
            'd' => Lower::d,
            'e' => Lower::e,
            'f' => Lower::f,
            'g' => Lower::g,
            'h' => Lower::h,
            'i' => Lower::i,
            'j' => Lower::j,
            'k' => Lower::k,
            'l' => Lower::l,
            'm' => Lower::m,
            'n' => Lower::n,
            'o' => Lower::o,
            'p' => Lower::p,
            'q' => Lower::q,
            'r' => Lower::r,
            's' => Lower::s,
            't' => Lower::t,
            'u' => Lower::u,
            'v' => Lower::v,
            'w' => Lower::w,
            'x' => Lower::x,
            'y' => Lower::y,
            _ => Lower::z,
        }
    }

    /// The letter that names the row.
    pub fn to_letter(self) -> (letter: char)
        ensures
            letter == self.letter(),
    {
        match self {
            Lower::a => 'a',
            Lower::b => 'b',
            Lower::c => 'c',
            Lower::d => 'd',
            Lower::e => 'e',
            Lower::f => 'f',
            Lower::g => 'g',
            Lower::h => 'h',
            Lower::i => 'i',
            Lower::j => 'j',
            Lower::k => 'k',
            Lower::l => 'l',
            Lower::m => 'm',
            Lower::n => 'n',
            Lower::o => 'o',
            Lower::p => 'p',
            Lower::q => 'q',
            Lower::r => 'r',
            Lower::s => 's',
            Lower::t => 't',
            Lower::u => 'u',
            Lower::v => 'v',
            Lower::w => 'w',
            Lower::x => 'x',
            Lower::y => 'y',
            Lower::z => 'z',
        }
    }
}

impl From<Lower> for usize {
    fn from(row: Lower) -> (num: usize) {
        match row {
            Lower::a => 1,
            Lower::b => 2,
            Lower::c => 3,
            Lower::d => 4,
            Lower::e => 5,
            Lower::f => 6,
            Lower::g => 7,
            Lower::h => 8,
            Lower::i => 9,
            Lower::j => 10,
            Lower::k => 11,
            Lower::l => 12,
            Lower::m => 13,
            Lower::n => 14,
            Lower::o => 15,
            Lower::p => 16,
            Lower::q => 17,
            Lower::r => 18,
            Lower::s => 19,
            Lower::t => 20,
            Lower::u => 21,
            Lower::v => 22,
            Lower::w => 23,
            Lower::x => 24,
            Lower::y => 25,
            Lower::z => 26,
        }
    }
}

impl FromSpecImpl<Lower> for usize {
    open spec fn obeys_from_spec() -> bool {
        true
    }

    open spec fn from_spec(row: Lower) -> usize {
        row.number() as usize
    }
}

/// The name of a column: `A` is the first column from the left.
#[allow(non_camel_case_types)]
#[derive(Clone, Copy, Debug, PartialEq, Eq, Structural)]
pub enum Upper {
    A,
    B,
    C,
    D,
    E,
    F,
    G,
    H,
    I,
    J,
    K,
    L,
    M,
    N,
    O,
    P,
    Q,
    R,
    S,
    T,
    U,
    V,
    W,
    X,
    Y,
    Z,
}

impl Upper {
    /// The number of the column, counted from one.
    pub open spec fn number(self) -> int {
        match self {
            Upper::A => 1,
            Upper::B => 2,
            Upper::C => 3,
            Upper::D => 4,
            Upper::E => 5,
            Upper::F => 6,
            Upper::G => 7,
            Upper::H => 8,
            Upper::I => 9,
            Upper::J => 10,
            Upper::K => 11,
            Upper::L => 12,
            Upper::M => 13,
            Upper::N => 14,
            Upper::O => 15,
            Upper::P => 16,
            Upper::Q => 17,
            Upper::R => 18,
            Upper::S => 19,
            Upper::T => 20,
            Upper::U => 21,
            Upper::V => 22,
            Upper::W => 23,
            Upper::X => 24,
            Upper::Y => 25,
            Upper::Z => 26,
        }
    }

    /// The letter that names the column.
    pub open spec fn letter(self) -> char {
        match self {
            Upper::A => 'A',
            Upper::B => 'B',
            Upper::C => 'C',
            Upper::D => 'D',
            Upper::E => 'E',
            Upper::F => 'F',
            Upper::G => 'G',
            Upper::H => 'H',
            Upper::I => 'I',
            Upper::J => 'J',
            Upper::K => 'K',
            Upper::L => 'L',
            Upper::M => 'M',
            Upper::N => 'N',
            Upper::O => 'O',
            Upper::P => 'P',
            Upper::Q => 'Q',
            Upper::R => 'R',
            Upper::S => 'S',
            Upper::T => 'T',
            Upper::U => 'U',
            Upper::V => 'V',
            Upper::W => 'W',
            Upper::X => 'X',
            Upper::Y => 'Y',
            Upper::Z => 'Z',
        }
    }

    /// The column with the number `num`, for a number from 1 to 26.
    pub open spec fn numbered(num: int) -> Upper {
        if num == 1 {
            Upper::A
        } else if num == 2 {
            Upper::B
        } else if num == 3 {
            Upper::C
        } else if num == 4 {
            Upper::D
        } else if num == 5 {
            Upper::E
        } else if num == 6 {
            Upper::F
        } else if num == 7 {
            Upper::G
        } else if num == 8 {
            Upper::H
        } else if num == 9 {
            Upper::I
        } else if num == 10 {
            Upper::J
        } else if num == 11 {
            Upper::K
        } else if num == 12 {
            Upper::L
        } else if num == 13 {
            Upper::M
        } else if num == 14 {
            Upper::N
        } else if num == 15 {
            Upper::O
        } else if num == 16 {
            Upper::P
        } else if num == 17 {
            Upper::Q
        } else if num == 18 {
            Upper::R
        } else if num == 19 {
            Upper::S
        } else if num == 20 {
            Upper::T
        } else if num == 21 {
            Upper::U
        } else if num == 22 {
            Upper::V
        } else if num == 23 {
            Upper::W
        } else if num == 24 {
            Upper::X
        } else if num == 25 {
            Upper::Y
        } else {
            Upper::Z
        }
    }

    /// The column that `letter` names, for a letter from `A` to `Z`.
    pub open spec fn named(letter: char) -> Upper {
        if letter == 'A' {
            Upper::A
        } else if letter == 'B' {
            Upper::B
        } else if letter == 'C' {
            Upper::C
        } else if letter == 'D' {
            Upper::D
        } else if letter == 'E' {
            Upper::E
        } else if letter == 'F' {
            Upper::F
        } else if letter == 'G' {
            Upper::G
        } else if letter == 'H' {
            Upper::H
        } else if letter == 'I' {
            Upper::I
        } else if letter == 'J' {
            Upper::J
        } else if letter == 'K' {
            Upper::K
        } else if letter == 'L' {
            Upper::L
        } else if letter == 'M' {
            Upper::M
        } else if letter == 'N' {
            Upper::N
        } else if letter == 'O' {
            Upper::O
        } else if letter == 'P' {
            Upper::P
        } else if letter == 'Q' {
            Upper::Q
        } else if letter == 'R' {
            Upper::R
        } else if letter == 'S' {
            Upper::S
        } else if letter == 'T' {
            Upper::T
        } else if letter == 'U' {
            Upper::U
        } else if letter == 'V' {
            Upper::V
        } else if letter == 'W' {
            Upper::W
        } else if letter == 'X' {
            Upper::X
        } else if letter == 'Y' {
            Upper::Y
        } else {
            Upper::Z
        }
    }

    /// The column with the given number, counted from one.
    pub fn from_number(num: usize) -> (column: Upper)
        requires
            1 <= num <= 26,
        ensures
            column == Upper::numbered(num as int),
            column.number() == num,
    {
        match num {
            1 => Upper::A,
            2 => Upper::B,
            3 => Upper::C,
            4 => Upper::D,
            5 => Upper::E,
            6 => Upper::F,
            7 => Upper::G,
            8 => Upper::H,
            9 => Upper::I,
            10 => Upper::J,
            11 => Upper::K,
            12 => Upper::L,
            13 => Upper::M,
            14 => Upper::N,
            15 => Upper::O,
            16 => Upper::P,
            17 => Upper::Q,
            18 => Upper::R,
            19 => Upper::S,
            20 => Upper::T,
            21 => Upper::U,
            22 => Upper::V,
            23 => Upper::W,
            24 => Upper::X,
            25 => Upper::Y,
            _ => Upper::Z,
        }
    }

    /// The column that the given letter names.
    pub fn from_letter(letter: char) -> (column: Upper)
        requires
            'A' <= letter <= 'Z',
        ensures
            column == Upper::named(letter),
            column.letter() == letter,
    {
        match letter {
            'A' => Upper::A,
            'B' => Upper::B,
            'C' => Upper::C,
            'D' => Upper::D,
            'E' => Upper::E,
            'F' => Upper::F,
            'G' => Upper::G,
            'H' => Upper::H,
            'I' => Upper::I,
            'J' => Upper::J,
            'K' => Upper::K,
            'L' => Upper::L,
            'M' => Upper::M,
            'N' => Upper::N,
            'O' => Upper::O,
            'P' => Upper::P,
            'Q' => Upper::Q,
            'R' => Upper::R,
            'S' => Upper::S,
            'T' => Upper::T,
            'U' => Upper::U,
            'V' => Upper::V,
            'W' => Upper::W,
            'X' => Upper::X,
            'Y' => Upper::Y,
            _ => Upper::Z,
        }
    }

    /// The letter that names the column.
    pub fn to_letter(self) -> (letter: char)
        ensures
            letter == self.letter(),
    {
        match self {
            Upper::A => 'A',
            Upper::B => 'B',
            Upper::C => 'C',
            Upper::D => 'D',
            Upper::E => 'E',
            Upper::F => 'F',
            Upper::G => 'G',
            Upper::H => 'H',
            Upper::I => 'I',
            Upper::J => 'J',
            Upper::K => 'K',
            Upper::L => 'L',
            Upper::M => 'M',
            Upper::N => 'N',
            Upper::O => 'O',
            Upper::P => 'P',
            Upper::Q => 'Q',
            Upper::R => 'R',
            Upper::S => 'S',
            Upper::T => 'T',
            Upper::U => 'U',
            Upper::V => 'V',
            Upper::W => 'W',
            Upper::X => 'X',
            Upper::Y => 'Y',
            Upper::Z => 'Z',
        }
    }
}

impl From<Upper> for usize {
    fn from(column: Upper) -> (num: usize) {
        match column {
            Upper::A => 1,
            Upper::B => 2,
            Upper::C => 3,
            Upper::D => 4,
            Upper::E => 5,
            Upper::F => 6,
            Upper::G => 7,
            Upper::H => 8,
            Upper::I => 9,
            Upper::J => 10,
            Upper::K => 11,
            Upper::L => 12,
            Upper::M => 13,
            Upper::N => 14,
            Upper::O => 15,
            Upper::P => 16,
            Upper::Q => 17,
            Upper::R => 18,
            Upper::S => 19,
            Upper::T => 20,
            Upper::U => 21,
            Upper::V => 22,
            Upper::W => 23,
            Upper::X => 24,
            Upper::Y => 25,
            Upper::Z => 26,
        }
    }
}

impl FromSpecImpl<Upper> for usize {
    open spec fn obeys_from_spec() -> bool {
        true
    }

    open spec fn from_spec(column: Upper) -> usize {
        column.number() as usize
    }
}

/// The name of a square: its row and its column.
#[derive(Clone, Copy, Debug, PartialEq, Eq, Structural)]
pub struct Position {
    pub lower: Lower,
    pub upper: Upper,
}

impl Position {
    /// The square in the given row and column.
    pub fn new(lower: Lower, upper: Upper) -> (position: Position)
        ensures
            position == (Position { lower, upper }),
    {
        Position { lower, upper }
    }
}

/// Every row has a number from 1 to 26, the letters of the rows run in
/// that order from `a`, and a row is found again by its number and by its
/// letter.
pub proof fn lemma_rows(row: Lower)
    ensures
        1 <= row.number() <= 26,
        row.letter() as int == 'a' as int + row.number() - 1,
        Lower::numbered(row.number()) == row,
        Lower::named(row.letter()) == row,
{
}

/// Every column has a number from 1 to 26, the letters of the columns run
/// in that order from `A`, and a column is found again by its number and by
/// its letter.
pub proof fn lemma_columns(column: Upper)
    ensures
        1 <= column.number() <= 26,
        column.letter() as int == 'A' as int + column.number() - 1,
        Upper::numbered(column.number()) == column,
        Upper::named(column.letter()) == column,
{
}

} // verus!
