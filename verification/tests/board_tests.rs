use minesweeper::edge::Edge;
use minesweeper::minefield::Minefield;
use minesweeper::square::{Mine, Square};

fn mines_of(field: &Minefield) -> Vec<usize> {
    let squares = field.squares();
    (0..squares.len()).filter(|&i| squares[i].mine == Mine::Explode).collect()
}

fn recount(field: &Minefield, index: usize) -> usize {
    let squares = field.squares();
    let edge = Edge::classify(index, field.width(), field.height());
    edge.get_index_offsets(index, field.width())
        .into_iter()
        .filter(|&n| squares[n].mine == Mine::Explode)
        .count()
}

fn assert_numbered(field: &Minefield) {
    let squares = field.squares();
    for index in 0..squares.len() {
        assert_eq!(squares[index].edge, Edge::classify(index, field.width(), field.height()));
        if let Mine::Count(count) = squares[index].mine {
            assert_eq!(count, recount(field, index), "square {index}");
            assert!(count <= 8);
        }
    }
}

#[test]
fn classify_corners_sides_and_inside() {
    // 4 columns, 3 rows
    let expected = [
        Edge::TopLeft, Edge::Top, Edge::Top, Edge::TopRight,
        Edge::Left, Edge::Middle, Edge::Middle, Edge::Right,
        Edge::BottomLeft, Edge::Bottom, Edge::Bottom, Edge::BottomRight,
    ];
    for (index, edge) in expected.iter().enumerate() {
        assert_eq!(Edge::classify(index, 4, 3), *edge, "square {index}");
    }
}

#[test]
fn classify_two_by_two_is_all_corners() {
    assert_eq!(Edge::classify(0, 2, 2), Edge::TopLeft);
    assert_eq!(Edge::classify(1, 2, 2), Edge::TopRight);
    assert_eq!(Edge::classify(2, 2, 2), Edge::BottomLeft);
    assert_eq!(Edge::classify(3, 2, 2), Edge::BottomRight);
}

#[test]
fn neighbours_of_each_place() {
    // on a board 5 wide; index 12 is the centre of a 5x5 board
    assert_eq!(Edge::TopLeft.get_index_offsets(0, 5), vec![1, 6, 5]);
    assert_eq!(Edge::Top.get_index_offsets(2, 5), vec![1, 3, 8, 7, 6]);
    assert_eq!(Edge::TopRight.get_index_offsets(4, 5), vec![9, 8, 3]);
    assert_eq!(Edge::Left.get_index_offsets(10, 5), vec![5, 6, 11, 16, 15]);
    assert_eq!(Edge::Middle.get_index_offsets(12, 5), vec![7, 8, 13, 18, 17, 16, 11, 6]);
    assert_eq!(Edge::Right.get_index_offsets(14, 5), vec![9, 19, 18, 13, 8]);
    assert_eq!(Edge::BottomLeft.get_index_offsets(20, 5), vec![15, 16, 21]);
    assert_eq!(Edge::Bottom.get_index_offsets(22, 5), vec![17, 18, 23, 21, 16]);
    assert_eq!(Edge::BottomRight.get_index_offsets(24, 5), vec![19, 23, 18]);
}

#[test]
fn neighbour_counts_are_three_five_eight() {
    for index in 0..25usize {
        let edge = Edge::classify(index, 5, 5);
        let around = edge.get_index_offsets(index, 5);
        let expected = match edge {
            Edge::TopLeft | Edge::TopRight | Edge::BottomLeft | Edge::BottomRight => 3,
            Edge::Middle => 8,
            _ => 5,
        };
        assert_eq!(around.len(), expected);
        for n in around {
            assert!(n < 25);
            assert_ne!(n, index);
            let (r, c) = (index / 5, index % 5);
            let (nr, nc) = (n / 5, n % 5);
            assert!(r.abs_diff(nr) <= 1 && c.abs_diff(nc) <= 1);
        }
    }
}

#[test]
fn neighbourhood_is_mutual() {
    for a in 0..12usize {
        for b in 0..12usize {
            let from_a = Edge::classify(a, 4, 3).get_index_offsets(a, 4).contains(&b);
            let from_b = Edge::classify(b, 4, 3).get_index_offsets(b, 4).contains(&a);
            assert_eq!(from_a, from_b);
        }
    }
}

#[test]
fn mine_increment_and_count() {
    let mut mine = Mine::Count(0);
    mine.increment_count();
    assert_eq!(mine, Mine::Count(1));
    assert_eq!(mine.get_count(), 1);
    mine.increment_count();
    assert_eq!(mine.get_count(), 2);
    let mut bomb = Mine::Explode;
    bomb.increment_count();
    assert_eq!(bomb, Mine::Explode);
}

#[test]
fn square_starts_closed_and_toggles() {
    let mut square = Square::new(Mine::Count(3), Edge::Middle);
    assert_eq!(square, Square { mine: Mine::Count(3), opened: false, flagged: false, edge: Edge::Middle });
    assert!(square.toggle_flag());
    assert!(square.flagged);
    assert!(!square.toggle_flag());
    assert!(!square.flagged);
    assert!(!square.opened);
}

#[test]
fn scenario_two_by_two_generated() {
    let field = Minefield::new(2, 2).expect("the clock can be read");
    assert_eq!(mines_of(&field).len(), 1);
    let empty = field.squares().iter().filter(|s| matches!(s.mine, Mine::Count(_))).count();
    assert_eq!(empty, 3);
    assert_eq!(field.target_to_open(), 3);
    assert_eq!(field.flags(), 1);
    assert_eq!(field.width(), 2);
    assert_eq!(field.height(), 2);
    // every safe square touches the one mine
    for square in field.squares() {
        if let Mine::Count(count) = square.mine {
            assert_eq!(count, 1);
        }
        assert!(!square.opened && !square.flagged);
    }
    assert!(!field.is_solved());
    assert!(!field.has_exploded());
}

#[test]
fn scenario_five_by_five_fixed_mines() {
    let field = Minefield::with_mines(5, 5, vec![0, 12, 24]);
    let squares = field.squares();
    assert_eq!(squares.len(), 25);
    assert_eq!(mines_of(&field), vec![0, 12, 24]);
    assert_eq!(squares[6].mine, Mine::Count(2));
    assert_eq!(squares[18].mine, Mine::Count(2));
    assert_eq!(squares[4].mine, Mine::Count(0));
    assert_eq!(squares[20].mine, Mine::Count(0));
    assert_eq!(squares[2].mine, Mine::Count(0));
    assert_eq!(squares[1].mine, Mine::Count(1));
    assert_eq!(squares[7].mine, Mine::Count(1));
    assert_eq!(squares[23].mine, Mine::Count(1));
    assert_eq!(field.flags(), 3);
    assert_eq!(field.target_to_open(), 22);
    assert_numbered(&field);
}

#[test]
fn mines_given_out_of_order_are_placed() {
    let field = Minefield::with_mines(5, 5, vec![24, 0, 12]);
    assert_eq!(mines_of(&field), vec![0, 12, 24]);
    let sorted = Minefield::with_mines(5, 5, vec![0, 12, 24]);
    assert_eq!(field.squares(), sorted.squares());
    let more = Minefield::with_mines(4, 3, vec![11, 3, 7, 0, 5]);
    assert_eq!(mines_of(&more), vec![0, 3, 5, 7, 11]);
    assert_eq!(more.flags(), 5);
    assert_eq!(more.target_to_open(), 7);
    assert_numbered(&more);
}

#[test]
fn board_without_mines_is_all_zero() {
    let field = Minefield::with_mines(3, 3, vec![]);
    assert!(field.squares().iter().all(|s| s.mine == Mine::Count(0)));
    assert_eq!(field.flags(), 0);
    assert_eq!(field.target_to_open(), 9);
}

#[test]
fn a_mine_in_the_middle_counts_eight_times() {
    let field = Minefield::with_mines(3, 3, vec![0, 1, 2, 3, 5, 6, 7, 8]);
    assert_eq!(field.squares()[4].mine, Mine::Count(8));
    assert_eq!(field.target_to_open(), 1);
    assert_eq!(field.flags(), 8);
}

#[test]
fn populate_numbers_adds_to_the_counts() {
    let mut field = Minefield::with_mines(5, 5, vec![0, 12, 24]);
    field.populate_numbers();
    let squares = field.squares();
    assert_eq!(squares[6].mine, Mine::Count(4));
    assert_eq!(squares[18].mine, Mine::Count(4));
    assert_eq!(squares[1].mine, Mine::Count(2));
    assert_eq!(squares[4].mine, Mine::Count(0));
    assert_eq!(squares[12].mine, Mine::Explode);
}

#[test]
fn generated_boards_have_a_fifth_mined() {
    for (width, height) in [(2usize, 2usize), (2, 3), (3, 3), (5, 5), (7, 4), (10, 10), (26, 26)] {
        let field = Minefield::new(width, height).expect("the clock can be read");
        let total = width * height;
        let quota = std::cmp::max(1, total / 5);
        assert_eq!(mines_of(&field).len(), quota, "{width}x{height}");
        assert_eq!(field.flags(), quota);
        assert_eq!(field.target_to_open(), total - quota);
        assert_eq!(field.squares().len(), total);
        assert_numbered(&field);
        assert!(field.squares().iter().all(|s| !s.opened && !s.flagged));
    }
}
