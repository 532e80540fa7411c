//! The shape of the grid: which of nine places a square takes on the board,
//! and which squares touch it.

use vstd::prelude::*;
use vstd::arithmetic::div_mod::lemma_fundamental_div_mod;
use vstd::arithmetic::div_mod::lemma_fundamental_div_mod_converse;
use vstd::arithmetic::div_mod::lemma_mod_pos_bound;

verus! {

/// The place of a square: one of the four corners, one of the four sides, or
/// the inside of the board.
#[derive(Clone, Copy, Debug, PartialEq, Eq, Structural)]
pub enum Edge {
    TopLeft,
    Top,
    TopRight,
    Left,
    Middle,
    Right,
    BottomLeft,
    Bottom,
    BottomRight,
}

/// The place of the square at `index` on a row-major board of the given
/// width and height.
pub open spec fn class_of(index: int, width: int, height: int) -> Edge {
    let row = index / width;
    let col = index % width;
    if row == 0 {
        if col == 0 {
            Edge::TopLeft
        } else if col == width - 1 {
            Edge::TopRight
        } else {
            Edge::Top
        }
    } else if row == height - 1 {
        if col == 0 {
            Edge::BottomLeft
        } else if col == width - 1 {
            Edge::BottomRight
        } else {
            Edge::Bottom
        }
    } else if col == 0 {
        Edge::Left
    } else if col == width - 1 {
        Edge::Right
    } else {
        Edge::Middle
    }
}

/// The squares that touch the square at `index`, for a square of the place
/// `edge` on a board `width` squares wide: three for a corner, five for a
/// side, eight inside.
pub open spec fn neighbours(index: int, edge: Edge, width: int) -> Seq<int> {
    let up_left = index - width - 1;
    let up = index - width;
    let up_right = index - width + 1;
    let left = index - 1;
    let right = index + 1;
    let down_left = index + width - 1;
    let down = index + width;
    let down_right = index + width + 1;
    match edge {
        Edge::TopLeft => seq![right, down_right, down],
        Edge::Top => seq![left, right, down_right, down, down_left],
        Edge::TopRight => seq![down, down_left, left],
        Edge::Left => seq![up, up_right, right, down_right, down],
        Edge::Middle => seq![up, up_right, right, down_right, down, down_left, left, up_left],
        Edge::Right => seq![up, down, down_left, left, up_left],
        Edge::BottomLeft => seq![up, up_right, right],
        Edge::Bottom => seq![up, up_right, right, left, up_left],
        Edge::BottomRight => seq![up, left, up_left],
    }
}

/// Two distinct squares of the board touch: their rows differ by at most
/// one, and so do their columns.
pub open spec fn adjacent(a: int, b: int, width: int, height: int) -> bool {
    &&& 0 <= a < width * height
    &&& 0 <= b < width * height
    &&& a != b
    &&& -1 <= a / width - b / width <= 1
    &&& -1 <= a % width - b % width <= 1
}

/// The row and the column of a square on the board lie on the board, and
/// give the square back.
pub proof fn lemma_row_col(index: int, width: int, height: int)
    requires
        0 < width,
        0 <= index < width * height,
    ensures
        0 <= index / width < height,
        0 <= index % width < width,
        index == (index / width) * width + index % width,
{
    lemma_fundamental_div_mod(index, width);
    lemma_mod_pos_bound(index, width);
    let r = index / width;
    let c = index % width;
    assert(width * r == r * width) by (nonlinear_arith);
    assert(r >= 0) by (nonlinear_arith)
        requires
            width > 0,
            r * width + c >= 0,
            c < width,
    ;
    assert(r < height) by (nonlinear_arith)
        requires
            width > 0,
            r * width + c < width * height,
            c >= 0,
    ;
}

/// The square in a given row and column of the board has an index on the
/// board, and that index has this row and this column.
pub proof fn lemma_cell(row: int, col: int, width: int, height: int)
    requires
        0 <= row < height,
        0 <= col < width,
    ensures
        0 <= row * width + col < width * height,
        (row * width + col) / width == row,
        (row * width + col) % width == col,
{
    lemma_fundamental_div_mod_converse(row * width + col, width, row, col);
    assert(0 <= row * width) by (nonlinear_arith)
        requires
            0 <= row,
            0 < width,
    ;
    assert(row * width + width <= width * height) by (nonlinear_arith)
        requires
            row + 1 <= height,
            0 < width,
    ;
}

/// A short list holds a value exactly when one of its entries is that value.
proof fn lemma_listed(list: Seq<int>, j: int)
    requires
        list.len() <= 8,
    ensures
        list.contains(j) <==> {
            ||| (list.len() > 0 && list[0] == j)
            ||| (list.len() > 1 && list[1] == j)
            ||| (list.len() > 2 && list[2] == j)
            ||| (list.len() > 3 && list[3] == j)
            ||| (list.len() > 4 && list[4] == j)
            ||| (list.len() > 5 && list[5] == j)
            ||| (list.len() > 6 && list[6] == j)
            ||| (list.len() > 7 && list[7] == j)
        },
{
    if list.contains(j) {
        let k = choose|k: int| 0 <= k < list.len() && list[k] == j;
        assert(0 <= k < 8);
    }
}

/// On a board of at least two rows and two columns, the squares listed for a
/// square are exactly the squares of the board that touch it.
pub proof fn lemma_touch(index: int, j: int, width: int, height: int)
    requires
        2 <= width,
        2 <= height,
        0 <= index < width * height,
    ensures
        neighbours(index, class_of(index, width, height), width).contains(j) <==> adjacent(
            index,
            j,
            width,
            height,
        ),
{
    let r = index / width;
    let c = index % width;
    let near = neighbours(index, class_of(index, width, height), width);
    lemma_row_col(index, width, height);
    lemma_listed(near, j);
    assert((r + 1) * width == r * width + width) by (nonlinear_arith);
    assert((r - 1) * width == r * width - width) by (nonlinear_arith);
    if r > 0 {
        if c > 0 {
            lemma_cell(r - 1, c - 1, width, height);
        }
        lemma_cell(r - 1, c, width, height);
        if c < width - 1 {
            lemma_cell(r - 1, c + 1, width, height);
        }
    }
    if c > 0 {
        lemma_cell(r, c - 1, width, height);
    }
    if c < width - 1 {
        lemma_cell(r, c + 1, width, height);
    }
    if r < height - 1 {
        if c > 0 {
            lemma_cell(r + 1, c - 1, width, height);
        }
        lemma_cell(r + 1, c, width, height);
        if c < width - 1 {
            lemma_cell(r + 1, c + 1, width, height);
        }
    }
    if adjacent(index, j, width, height) {
        lemma_row_col(j, width, height);
    }
}

/// On a board of at least two rows and two columns, the squares listed for a
/// square lie on the board, touch it, and are listed once each.
pub proof fn lemma_neighbourhood(index: int, width: int, height: int)
    requires
        2 <= width,
        2 <= height,
        0 <= index < width * height,
    ensures
        neighbours(index, class_of(index, width, height), width).no_duplicates(),
        forall|k: int|
            0 <= k < neighbours(index, class_of(index, width, height), width).len() ==> adjacent(
                index,
                #[trigger] neighbours(index, class_of(index, width, height), width)[k],
                width,
                height,
            ),
{
    let near = neighbours(index, class_of(index, width, height), width);
    lemma_row_col(index, width, height);
    assert forall|k: int| 0 <= k < near.len() implies adjacent(
        index,
        #[trigger] near[k],
        width,
        height,
    ) by {
        assert(near.contains(near[k]));
        lemma_touch(index, near[k], width, height);
    }
}

/// Touching is mutual: a square lists another exactly when the other lists
/// it.
pub proof fn lemma_touch_is_mutual(a: int, b: int, width: int, height: int)
    requires
        2 <= width,
        2 <= height,
        0 <= a < width * height,
        0 <= b < width * height,
    ensures
        neighbours(a, class_of(a, width, height), width).contains(b) <==> neighbours(
            b,
            class_of(b, width, height),
            width,
        ).contains(a),
{
    lemma_touch(a, b, width, height);
    lemma_touch(b, a, width, height);
}

impl Edge {
    /// Finds the place of the square at `index`.
    pub fn classify(index: usize, width: usize, height: usize) -> (edge: Edge)
        requires
            width > 0,
        ensures
            edge == class_of(index as int, width as int, height as int),
    {
        let row: usize = index / width;
        let col: usize = index % width;
        if row == 0 {
            if col == 0 {
                Edge::TopLeft
            } else if col == width - 1 {
                Edge::TopRight
            } else {
                Edge::Top
            }
        } else if height > 0 && row == height - 1 {
            if col == 0 {
                Edge::BottomLeft
            } else if col == width - 1 {
                Edge::BottomRight
            } else {
                Edge::Bottom
            }
        } else if col == 0 {
            Edge::Left
        } else if col == width - 1 {
            Edge::Right
        } else {
            Edge::Middle
        }
    }

    /// Lists the squares that touch the square at `index`, which has the
    /// place `self` on a board `offset` squares wide.
    pub fn get_index_offsets(&self, index: usize, offset: usize) -> (around: Vec<usize>)
        requires
            forall|k: int|
                0 <= k < neighbours(index as int, *self, offset as int).len() ==> 0 <= (
                #[trigger] neighbours(index as int, *self, offset as int)[k]) <= usize::MAX,
        ensures
            around@.len() == neighbours(index as int, *self, offset as int).len(),
            forall|k: int|
                0 <= k < around@.len() ==> around@[k] as int == neighbours(
                    index as int,
                    *self,
                    offset as int,
                )[k],
    {
        let ghost near = neighbours(index as int, *self, offset as int);
        match self {
            Edge::TopLeft => {
                assert(near[0] <= usize::MAX && near[1] <= usize::MAX && near[2] <= usize::MAX);
                let right: usize = index + 1;
                let down: usize = index + offset;
                let down_right: usize = down + 1;
                vec![right, down_right, down]
            },
            Edge::Top => {
                assert(0 <= near[0] && near[2] <= usize::MAX && 0 <= near[4]);
                let left: usize = index - 1;
                let right: usize = index + 1;
                let down: usize = index + offset;
                let down_right: usize = down + 1;
                let down_left: usize = down - 1;
                vec![left, right, down_right, down, down_left]
            },
            Edge::TopRight => {
                assert(near[0] <= usize::MAX && 0 <= near[1] && 0 <= near[2]);
                let left: usize = index - 1;
                let down: usize = index + offset;
                let down_left: usize = down - 1;
                vec![down, down_left, left]
            },
            Edge::Left => {
                assert(0 <= near[0] && near[2] <= usize::MAX && near[3] <= usize::MAX);
                let up: usize = index - offset;
                let up_right: usize = up + 1;
                let right: usize = index + 1;
                let down: usize = index + offset;
                let down_right: usize = down + 1;
                vec![up, up_right, right, down_right, down]
            },
            Edge::Middle => {
                assert(0 <= near[0] && near[3] <= usize::MAX && 0 <= near[6] && 0 <= near[7]);
                let up: usize = index - offset;
                let up_right: usize = up + 1;
                let up_left: usize = up - 1;
                let left: usize = index - 1;
                let right: usize = index + 1;
                let down: usize = index + offset;
                let down_right: usize = down + 1;
                let down_left: usize = down - 1;
                vec![up, up_right, right, down_right, down, down_left, left, up_left]
            },
            Edge::Right => {
                assert(0 <= near[0] && near[1] <= usize::MAX && 0 <= near[3] && 0 <= near[4]);
                let up: usize = index - offset;
                let up_left: usize = up - 1;
                let left: usize = index - 1;
                let down: usize = index + offset;
                let down_left: usize = down - 1;
                vec![up, down, down_left, left, up_left]
            },
            Edge::BottomLeft => {
                assert(0 <= near[0] && near[1] <= usize::MAX && near[2] <= usize::MAX);
                let up: usize = index - offset;
                let up_right: usize = up + 1;
                let right: usize = index + 1;
                vec![up, up_right, right]
            },
            Edge::Bottom => {
                assert(0 <= near[0] && near[2] <= usize::MAX && 0 <= near[3] && 0 <= near[4]);
                let up: usize = index - offset;
                let up_right: usize = up + 1;
                let up_left: usize = up - 1;
                let left: usize = index - 1;
                let right: usize = index + 1;
                vec![up, up_right, right, left, up_left]
            },
            Edge::BottomRight => {
                assert(0 <= near[0] && 0 <= near[1] && 0 <= near[2]);
                let up: usize = index - offset;
                let up_left: usize = up - 1;
                let left: usize = index - 1;
                vec![up, left, up_left]
            },
        }
    }
}

} // verus!
