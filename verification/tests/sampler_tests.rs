use minesweeper::minefield::Minefield;
use minesweeper::sampler::{NoMines, Progress, DRAW_LIMIT};

#[test]
fn digits_come_last_first() {
    assert_eq!(Minefield::digits(0), vec![0]);
    assert_eq!(Minefield::digits(7), vec![7]);
    assert_eq!(Minefield::digits(10), vec![0, 1]);
    assert_eq!(Minefield::digits(1234567890), vec![0, 9, 8, 7, 6, 5, 4, 3, 2, 1]);
    assert_eq!(Minefield::digits(u128::MAX).len(), 39);
}

#[test]
fn seed_from_reads_windows_of_three() {
    assert_eq!(
        Minefield::seed_from(1234567890, 3),
        vec![98, 987, 876, 765, 654, 543, 432, 321]
    );
    assert_eq!(Minefield::seed_from(100, 3), vec![1]);
    assert_eq!(Minefield::seed_from(4321, 3), vec![123, 234]);
}

#[test]
fn seed_from_short_reading_gives_nothing() {
    assert_eq!(Minefield::seed_from(0, 3), Vec::<usize>::new());
    assert_eq!(Minefield::seed_from(99, 3), Vec::<usize>::new());
}

#[test]
fn seed_from_longer_runs_use_their_first_three_digits() {
    // digits from the last: 0 9 8 7 6 5 4 3 2 1; runs of five start at places 0..=5
    assert_eq!(Minefield::seed_from(1234567890, 5), vec![98, 987, 876, 765, 654, 543]);
    assert_eq!(Minefield::seed_from(1234567890, 10), vec![98]);
    assert_eq!(Minefield::seed_from(1234567890, 11), Vec::<usize>::new());
}

#[test]
fn seed_reads_the_clock() {
    let drawn = Minefield::seed(3).expect("the clock can be read");
    // the clock stands after 2001, so its reading has at least 18 digits
    assert!(drawn.len() >= 16);
    assert!(drawn.iter().all(|&n| n < 1000));
}

#[test]
fn is_kept_finds_members_only() {
    let numbers = vec![4, 8, 15];
    assert!(Minefield::is_kept(&numbers, 8));
    assert!(Minefield::is_kept(&numbers, 15));
    assert!(!Minefield::is_kept(&numbers, 16));
    assert!(!Minefield::is_kept(&Vec::new(), 0));
}

#[test]
fn keep_takes_distinct_candidates_on_the_board() {
    let mut numbers = Vec::new();
    Minefield::keep(&mut numbers, &vec![98, 987, 3, 3, 24, 25, 7, 0], 5, 25);
    assert_eq!(numbers, vec![3, 24, 7, 0]);
    Minefield::keep(&mut numbers, &vec![7, 12, 13], 5, 25);
    assert_eq!(numbers, vec![3, 24, 7, 0, 12]);
    Minefield::keep(&mut numbers, &vec![1, 2], 5, 25);
    assert_eq!(numbers, vec![3, 24, 7, 0, 12]);
}

#[test]
fn keep_with_nothing_to_keep() {
    let mut numbers = vec![1];
    Minefield::keep(&mut numbers, &Vec::new(), 3, 10);
    assert_eq!(numbers, vec![1]);
    Minefield::keep(&mut numbers, &vec![5, 6], 0, 10);
    assert_eq!(numbers, vec![1]);
}

#[test]
fn randomise_mines_gives_distinct_positions_on_the_board() {
    for total in [4usize, 6, 9, 25, 100, 676] {
        let mines = Minefield::randomise_mines(total).expect("the clock can be read");
        let quota = std::cmp::max(1, total / 5);
        assert_eq!(mines.len(), quota);
        assert!(mines.iter().all(|&m| m < total));
        let mut sorted = mines.clone();
        sorted.sort_unstable();
        sorted.dedup();
        assert_eq!(sorted.len(), quota);
    }
}

#[test]
fn randomise_mines_small_boards_get_one_mine() {
    for total in 1..5usize {
        let mines = Minefield::randomise_mines(total).expect("the clock can be read");
        assert_eq!(mines.len(), 1);
        assert!(mines[0] < total);
    }
}

#[test]
fn randomise_mines_refuses_what_cannot_be_had() {
    assert_eq!(Minefield::randomise_mines(0), Err(NoMines::NoRoom));
    assert_eq!(Minefield::randomise_mines(5005), Err(NoMines::NoRoom));
    assert_eq!(Minefield::randomise_mines(usize::MAX), Err(NoMines::NoRoom));
}

#[test]
fn randomise_mines_fills_the_largest_quota() {
    // 5004 squares need 1000 mines: every candidate from 0 to 999
    let mut mines = Minefield::randomise_mines(5004).expect("the clock can be read");
    mines.sort_unstable();
    assert_eq!(mines, (0..1000).collect::<Vec<usize>>());
}

#[test]
fn new_refuses_a_board_with_too_many_mines() {
    assert!(matches!(Minefield::new(100, 100), Err(NoMines::NoRoom)));
    assert!(matches!(Minefield::new(5, 1001), Err(NoMines::NoRoom)));
    assert!(Minefield::new(5, 1000).is_ok());
}

#[test]
fn after_reading_decides() {
    assert_eq!(Minefield::after_reading(5, 5, 0), Progress::Done);
    assert_eq!(Minefield::after_reading(5, 5, DRAW_LIMIT), Progress::Done);
    assert_eq!(Minefield::after_reading(0, 5, 0), Progress::Again);
    assert_eq!(Minefield::after_reading(4, 5, DRAW_LIMIT - 1), Progress::Again);
    assert_eq!(Minefield::after_reading(4, 5, DRAW_LIMIT), Progress::GiveUp);
    assert_eq!(Minefield::after_reading(0, 1, DRAW_LIMIT), Progress::GiveUp);
    assert_eq!(DRAW_LIMIT, 1 << 20);
}
