use minesweeper::minefield::Minefield;
use minesweeper::play::{End, PlayerAction};
use minesweeper::position::{Lower, Position, Upper};
use minesweeper::square::Mine;

fn at(field: &Minefield, index: usize) -> Position {
    let row = index / field.width();
    let col = index % field.width();
    Position::new(Lower::from_number(row + 1), Upper::from_number(col + 1))
}

fn open(field: &mut Minefield, index: usize) -> End {
    let position = at(field, index);
    field.update(PlayerAction::OpenSquare(position))
}

fn flag(field: &mut Minefield, index: usize) -> End {
    let position = at(field, index);
    field.update(PlayerAction::ToggleFlag(position))
}

fn opened(field: &Minefield) -> Vec<usize> {
    let squares = field.squares();
    (0..squares.len()).filter(|&i| squares[i].opened).collect()
}

#[test]
fn positions_name_rows_and_columns() {
    assert_eq!(usize::from(Lower::a), 1);
    assert_eq!(usize::from(Lower::z), 26);
    assert_eq!(usize::from(Upper::A), 1);
    assert_eq!(usize::from(Upper::M), 13);
    assert_eq!(Lower::from_letter('c'), Lower::c);
    assert_eq!(Upper::from_letter('Z'), Upper::Z);
    assert_eq!(Lower::from_number(5), Lower::e);
    assert_eq!(Upper::from_number(26), Upper::Z);
    for n in 1..=26usize {
        assert_eq!(usize::from(Lower::from_number(n)), n);
        assert_eq!(usize::from(Upper::from_number(n)), n);
    }
    for (n, letter) in ('a'..='z').enumerate() {
        assert_eq!(usize::from(Lower::from_letter(letter)), n + 1);
    }
    for (n, letter) in ('A'..='Z').enumerate() {
        assert_eq!(usize::from(Upper::from_letter(letter)), n + 1);
    }
    let position = Position::new(Lower::b, Upper::D);
    assert_eq!(position.lower, Lower::b);
    assert_eq!(position.upper, Upper::D);
}

#[test]
fn square_index_is_row_major() {
    let field = Minefield::with_mines(5, 4, vec![0]);
    assert_eq!(field.get_square_index(Position::new(Lower::a, Upper::A)), 0);
    assert_eq!(field.get_square_index(Position::new(Lower::a, Upper::E)), 4);
    assert_eq!(field.get_square_index(Position::new(Lower::b, Upper::A)), 5);
    assert_eq!(field.get_square_index(Position::new(Lower::c, Upper::D)), 13);
    assert_eq!(field.get_square_index(Position::new(Lower::d, Upper::E)), 19);
    for index in 0..20 {
        assert_eq!(field.get_square_index(at(&field, index)), index);
    }
}

#[test]
fn scenario_cascade_opens_pocket_and_ring() {
    // 5x5 with mines at 0, 12, 24: the zeros are 2, 3, 4, 9, 14 in the top
    // right and 10, 15, 20, 21, 22 in the bottom left
    let mut field = Minefield::with_mines(5, 5, vec![0, 12, 24]);
    assert_eq!(open(&mut field, 4), End::Unfinished);
    // the pocket 2, 3, 4, 9, 14 and its ring 1, 6, 7, 8, 13, 18, 19
    assert_eq!(opened(&field), vec![1, 2, 3, 4, 6, 7, 8, 9, 13, 14, 18, 19]);
    for closed in [0usize, 5, 10, 11, 12, 15, 16, 17, 20, 21, 22, 23, 24] {
        assert!(!field.squares()[closed].opened);
    }
    assert_eq!(open(&mut field, 20), End::Unfinished);
    let safe: Vec<usize> = (0..25).filter(|i| ![0usize, 12, 24].contains(i)).collect();
    assert_eq!(opened(&field), safe);
    assert!(!field.has_exploded());
}

#[test]
fn cascade_leaves_the_far_side_closed() {
    // a wall of numbers between two pockets: mines down the middle column
    let mut field = Minefield::with_mines(5, 3, vec![2, 7, 12]);
    assert_eq!(open(&mut field, 0), End::Unfinished);
    assert_eq!(opened(&field), vec![0, 1, 5, 6, 10, 11]);
    assert_eq!(open(&mut field, 14), End::Unfinished);
    assert_eq!(opened(&field), vec![0, 1, 3, 4, 5, 6, 8, 9, 10, 11, 13, 14]);
}

#[test]
fn cascade_stops_at_numbers() {
    // one mine in a corner of a 4x4 board
    let mut field = Minefield::with_mines(4, 4, vec![0]);
    assert_eq!(open(&mut field, 15), End::Unfinished);
    // everything but the mine is opened
    assert_eq!(opened(&field), (1..16).collect::<Vec<usize>>());
    assert!(!field.squares()[0].opened);
    assert!(!field.is_solved());
    assert_eq!(flag(&mut field, 0), End::Victory);
}

#[test]
fn opening_a_numbered_square_opens_it_alone() {
    let mut field = Minefield::with_mines(5, 5, vec![0, 12, 24]);
    assert_eq!(open(&mut field, 6), End::Unfinished);
    assert_eq!(opened(&field), vec![6]);
    assert_eq!(open(&mut field, 6), End::Unfinished);
    assert_eq!(opened(&field), vec![6]);
}

#[test]
fn cascade_never_opens_a_mine() {
    for mines in [vec![0, 12, 24], vec![7], vec![2, 10, 14, 22], vec![6, 8, 16, 18]] {
        for start in 0..25usize {
            let mut field = Minefield::with_mines(5, 5, mines.clone());
            if field.squares()[start].mine == Mine::Explode {
                continue;
            }
            let end = open(&mut field, start);
            assert!(end == End::Unfinished || end == End::Victory);
            for &m in &mines {
                assert!(!field.squares()[m].opened, "mine {m} opened from {start}");
            }
            assert!(!field.has_exploded());
        }
    }
}

#[test]
fn cascade_opens_flagged_squares_and_keeps_their_flags() {
    let mut field = Minefield::with_mines(4, 4, vec![0, 3]);
    assert_eq!(flag(&mut field, 10), End::Unfinished);
    assert_eq!(field.flags(), 1);
    assert_eq!(open(&mut field, 15), End::Unfinished);
    assert_eq!(opened(&field), (4..16).collect::<Vec<usize>>());
    assert!(field.squares()[10].opened);
    assert!(field.squares()[10].flagged);
    assert_eq!(field.flags(), 1);
    // the flag cannot be taken back from the opened square
    assert_eq!(flag(&mut field, 10), End::Unchanged);
    assert!(field.squares()[10].flagged);
    assert_eq!(field.flags(), 1);
}

#[test]
fn victory_counts_the_flags_not_their_places() {
    let mut field = Minefield::with_mines(4, 4, vec![0]);
    assert_eq!(flag(&mut field, 10), End::Unfinished);
    assert_eq!(field.flags(), 0);
    // the cascade opens every safe square, and the one flag is planted
    assert_eq!(open(&mut field, 15), End::Victory);
    assert!(field.is_solved());
}

#[test]
fn scenario_flagging_all_mines_wins() {
    let mut field = Minefield::with_mines(5, 5, vec![0, 12, 24]);
    let safe: Vec<usize> = (0..25).filter(|i| ![0usize, 12, 24].contains(i)).collect();
    for &index in &safe {
        if !field.squares()[index].opened {
            assert_eq!(open(&mut field, index), End::Unfinished);
        }
    }
    assert_eq!(opened(&field), safe);
    assert!(!field.is_solved());
    assert_eq!(flag(&mut field, 0), End::Unfinished);
    assert_eq!(flag(&mut field, 12), End::Unfinished);
    assert_eq!(field.flags(), 1);
    assert_eq!(flag(&mut field, 24), End::Victory);
    assert_eq!(field.flags(), 0);
    assert!(field.is_solved());
    for m in [0usize, 12, 24] {
        assert!(field.squares()[m].flagged);
    }
}

#[test]
fn flags_first_then_last_opening_wins() {
    let mut field = Minefield::with_mines(2, 2, vec![3]);
    assert_eq!(flag(&mut field, 3), End::Unfinished);
    assert_eq!(open(&mut field, 0), End::Unfinished);
    assert_eq!(open(&mut field, 1), End::Unfinished);
    assert_eq!(open(&mut field, 2), End::Victory);
}

#[test]
fn scenario_opening_a_mine_is_death() {
    let mut field = Minefield::with_mines(5, 5, vec![0, 12, 24]);
    assert_eq!(open(&mut field, 12), End::Death);
    assert!(field.squares()[12].opened);
    assert!(field.has_exploded());

    // with flags planted elsewhere
    let mut field = Minefield::with_mines(5, 5, vec![0, 12, 24]);
    assert_eq!(flag(&mut field, 0), End::Unfinished);
    assert_eq!(flag(&mut field, 5), End::Unfinished);
    assert_eq!(open(&mut field, 24), End::Death);

    // with a flag on the mine itself
    let mut field = Minefield::with_mines(5, 5, vec![0, 12, 24]);
    assert_eq!(flag(&mut field, 12), End::Unfinished);
    assert_eq!(open(&mut field, 12), End::Death);

    // with every flag planted
    let mut field = Minefield::with_mines(5, 5, vec![0, 12, 24]);
    for m in [0, 12, 24] {
        assert_eq!(flag(&mut field, m), End::Unfinished);
    }
    assert_eq!(field.flags(), 0);
    assert_eq!(open(&mut field, 0), End::Death);
}

#[test]
fn toggling_twice_restores_the_board() {
    let mut field = Minefield::with_mines(5, 5, vec![0, 12, 24]);
    let before: Vec<_> = field.squares().clone();
    assert_eq!(flag(&mut field, 7), End::Unfinished);
    assert!(field.squares()[7].flagged);
    assert_eq!(field.flags(), 2);
    assert_eq!(flag(&mut field, 7), End::Unfinished);
    assert!(!field.squares()[7].flagged);
    assert_eq!(field.flags(), 3);
    assert_eq!(field.squares(), &before);
}

#[test]
fn toggling_twice_without_stock_changes_nothing() {
    let mut field = Minefield::with_mines(3, 3, vec![4]);
    assert_eq!(flag(&mut field, 0), End::Unfinished);
    assert_eq!(field.flags(), 0);
    assert_eq!(flag(&mut field, 1), End::Unchanged);
    assert_eq!(flag(&mut field, 1), End::Unchanged);
    assert!(!field.squares()[1].flagged);
    assert_eq!(field.flags(), 0);
    // a planted flag can still be taken back
    assert_eq!(flag(&mut field, 0), End::Unfinished);
    assert_eq!(field.flags(), 1);
    assert!(!field.squares()[0].flagged);
}

#[test]
fn flagging_an_opened_square_is_refused() {
    let mut field = Minefield::with_mines(5, 5, vec![0, 12, 24]);
    assert_eq!(open(&mut field, 6), End::Unfinished);
    let before = field.squares().clone();
    assert_eq!(flag(&mut field, 6), End::Unchanged);
    assert_eq!(field.squares(), &before);
    assert_eq!(field.flags(), 3);
}

#[test]
fn quit_changes_nothing() {
    let mut field = Minefield::with_mines(5, 5, vec![0, 12, 24]);
    let before = field.squares().clone();
    assert_eq!(field.update(PlayerAction::Quit), End::Quit);
    assert_eq!(field.squares(), &before);
    assert_eq!(field.flags(), 3);
    assert_eq!(field.target_to_open(), 22);
}

#[test]
fn after_death_every_move_is_death_and_changes_nothing() {
    let mut field = Minefield::with_mines(5, 5, vec![0, 12, 24]);
    assert_eq!(open(&mut field, 6), End::Unfinished);
    assert_eq!(open(&mut field, 0), End::Death);
    let before = field.squares().clone();
    let flags = field.flags();
    assert_eq!(open(&mut field, 4), End::Death);
    assert_eq!(flag(&mut field, 7), End::Death);
    assert_eq!(open(&mut field, 12), End::Death);
    assert_eq!(field.update(PlayerAction::Quit), End::Death);
    assert_eq!(field.squares(), &before);
    assert_eq!(field.flags(), flags);
}

#[test]
fn after_victory_every_move_is_victory_and_changes_nothing() {
    let mut field = Minefield::with_mines(2, 2, vec![0]);
    for index in 1..4 {
        assert_eq!(open(&mut field, index), End::Unfinished);
    }
    assert_eq!(flag(&mut field, 0), End::Victory);
    let before = field.squares().clone();
    assert_eq!(flag(&mut field, 0), End::Victory);
    assert_eq!(open(&mut field, 0), End::Victory);
    assert_eq!(field.update(PlayerAction::Quit), End::Victory);
    assert_eq!(field.squares(), &before);
    assert_eq!(field.flags(), 0);
    assert!(field.is_solved());
    assert!(!field.has_exploded());
}

#[test]
fn not_solved_until_flags_are_spent() {
    let mut field = Minefield::with_mines(2, 2, vec![0]);
    for index in 1..4 {
        assert_eq!(open(&mut field, index), End::Unfinished);
    }
    assert!(!field.is_solved());
    assert_eq!(field.flags(), 1);
}

fn touch(a: usize, b: usize, width: usize) -> bool {
    a != b && (a / width).abs_diff(b / width) <= 1 && (a % width).abs_diff(b % width) <= 1
}

fn pocket_and_ring(field: &Minefield, start: usize) -> Vec<usize> {
    let squares = field.squares();
    let total = squares.len();
    let width = field.width();
    let mut pocket = vec![false; total];
    pocket[start] = true;
    let mut grew = true;
    while grew {
        grew = false;
        for z in 0..total {
            if !pocket[z] && squares[z].mine == Mine::Count(0) {
                if (0..total).any(|y| pocket[y] && touch(y, z, width)) {
                    pocket[z] = true;
                    grew = true;
                }
            }
        }
    }
    (0..total)
        .filter(|&c| pocket[c] || (0..total).any(|z| pocket[z] && touch(z, c, width)))
        .collect()
}

#[test]
fn cascade_opens_exactly_pocket_and_ring() {
    let boards = [
        vec![0usize, 12, 24],
        vec![7],
        vec![2, 8, 14, 20, 26],
        vec![5, 11, 17, 23, 29],
        vec![0, 5, 24, 29],
        vec![13, 14, 15, 16],
        vec![],
    ];
    for mines in boards {
        for start in 0..30usize {
            let mut field = Minefield::with_mines(6, 5, mines.clone());
            match field.squares()[start].mine {
                Mine::Explode => continue,
                Mine::Count(0) => {
                    let expected = pocket_and_ring(&field, start);
                    open(&mut field, start);
                    assert_eq!(opened(&field), expected, "mines {mines:?}, from {start}");
                }
                Mine::Count(_) => {
                    open(&mut field, start);
                    assert_eq!(opened(&field), vec![start]);
                }
            }
        }
    }
}

#[test]
fn second_cascade_adds_its_pocket_and_ring() {
    let mut field = Minefield::with_mines(6, 5, vec![2, 8, 14, 20, 26]);
    let left = pocket_and_ring(&field, 0);
    let right = pocket_and_ring(&field, 29);
    assert_eq!(open(&mut field, 0), End::Unfinished);
    assert_eq!(opened(&field), left);
    open(&mut field, 29);
    let mut both: Vec<usize> = left.iter().chain(right.iter()).copied().collect();
    both.sort_unstable();
    both.dedup();
    assert_eq!(opened(&field), both);
    // opening an opened square of the pocket again changes nothing
    open(&mut field, 0);
    assert_eq!(opened(&field), both);
}
