use minesweeper::edge::Edge;
use minesweeper::input::{is_valid_side, parse_action, InputError};
use minesweeper::minefield::Minefield;
use minesweeper::play::{End, PlayerAction, Refusal};
use minesweeper::position::{Lower, Position, Upper};
use minesweeper::render::{dash_row_text, digit_char, push_decimal, push_piece, top_row_text};
use minesweeper::square::{Mine, Square};

fn chars(text: &str) -> Vec<char> {
    text.chars().collect()
}

#[test]
fn sides_from_two_to_twenty_six() {
    assert!(!is_valid_side(0));
    assert!(!is_valid_side(1));
    assert!(is_valid_side(2));
    assert!(is_valid_side(26));
    assert!(!is_valid_side(27));
}

#[test]
fn parse_quit() {
    assert_eq!(parse_action(&chars("q"), 5, 5), Ok(PlayerAction::Quit));
}

#[test]
fn parse_open_and_flag() {
    assert_eq!(
        parse_action(&chars("o aA"), 5, 5),
        Ok(PlayerAction::OpenSquare(Position::new(Lower::a, Upper::A)))
    );
    assert_eq!(
        parse_action(&chars("f cE"), 5, 5),
        Ok(PlayerAction::ToggleFlag(Position::new(Lower::c, Upper::E)))
    );
    assert_eq!(
        parse_action(&chars("o zZ"), 26, 26),
        Ok(PlayerAction::OpenSquare(Position::new(Lower::z, Upper::Z)))
    );
    assert_eq!(
        parse_action(&chars("f eB"), 2, 5),
        Ok(PlayerAction::ToggleFlag(Position::new(Lower::e, Upper::B)))
    );
}

#[test]
fn parse_each_refusal() {
    assert_eq!(parse_action(&chars(""), 5, 5), Err(InputError::Empty));
    assert_eq!(parse_action(&chars("x"), 5, 5), Err(InputError::FirstCharacter));
    assert_eq!(parse_action(&chars("o"), 5, 5), Err(InputError::FirstCharacter));
    assert_eq!(parse_action(&chars("oa"), 5, 5), Err(InputError::Incomplete));
    assert_eq!(parse_action(&chars("q a"), 5, 5), Err(InputError::Incomplete));
    assert_eq!(parse_action(&chars("q aA"), 5, 5), Err(InputError::FirstCharacter));
    assert_eq!(parse_action(&chars("x aA"), 5, 5), Err(InputError::FirstCharacter));
    assert_eq!(parse_action(&chars("oaaA"), 5, 5), Err(InputError::SecondCharacter));
    assert_eq!(parse_action(&chars("o AA"), 5, 5), Err(InputError::ThirdCharacter));
    assert_eq!(parse_action(&chars("o 1A"), 5, 5), Err(InputError::ThirdCharacter));
    assert_eq!(parse_action(&chars("o fA"), 5, 5), Err(InputError::InvalidRow));
    assert_eq!(parse_action(&chars("o aa"), 5, 5), Err(InputError::FourthCharacter));
    assert_eq!(parse_action(&chars("o a!"), 5, 5), Err(InputError::FourthCharacter));
    assert_eq!(parse_action(&chars("o aF"), 5, 5), Err(InputError::InvalidColumn));
    assert_eq!(parse_action(&chars("o aAA"), 5, 5), Err(InputError::TooMuch));
    assert_eq!(parse_action(&chars("quit now"), 5, 5), Err(InputError::TooMuch));
}

#[test]
fn parse_names_the_first_fault() {
    // the row is looked at before the column
    assert_eq!(parse_action(&chars("o zz"), 5, 5), Err(InputError::InvalidRow));
    assert_eq!(parse_action(&chars("o Az"), 5, 5), Err(InputError::ThirdCharacter));
    // the first character before the space
    assert_eq!(parse_action(&chars("xxxx"), 5, 5), Err(InputError::FirstCharacter));
    assert_eq!(parse_action(&chars("oxxx"), 5, 5), Err(InputError::SecondCharacter));
}

#[test]
fn refusal_says_why() {
    let mut field = Minefield::with_mines(3, 3, vec![4]);
    let corner = Position::new(Lower::a, Upper::A);
    let side = Position::new(Lower::a, Upper::B);
    assert_eq!(field.refusal(corner), None);
    assert_eq!(field.update(PlayerAction::OpenSquare(corner)), End::Unfinished);
    assert_eq!(field.refusal(corner), Some(Refusal::Opened));
    assert_eq!(field.update(PlayerAction::ToggleFlag(side)), End::Unfinished);
    assert_eq!(field.refusal(side), None);
    assert_eq!(field.refusal(Position::new(Lower::c, Upper::C)), Some(Refusal::NoFlags));
}

#[test]
fn digits_zero_to_nine() {
    let drawn: String = (0..10).map(digit_char).collect();
    assert_eq!(drawn, "0123456789");
}

#[test]
fn decimal_numbers() {
    for n in [0usize, 7, 10, 42, 135, 1000, 9_999_999] {
        let mut text = String::from("x");
        push_decimal(&mut text, n);
        assert_eq!(text, format!("x{n}"));
    }
}

#[test]
fn square_symbols() {
    let mut square = Square::new(Mine::Count(3), Edge::Middle);
    assert_eq!(square.symbol(), ' ');
    square.opened = true;
    assert_eq!(square.symbol(), '3');
    square.flagged = true;
    assert_eq!(square.symbol(), '!');
    let mut bomb = Square::new(Mine::Explode, Edge::Top);
    assert_eq!(bomb.symbol(), ' ');
    bomb.flagged = true;
    assert_eq!(bomb.symbol(), '!');
    bomb.flagged = false;
    bomb.opened = true;
    assert_eq!(bomb.symbol(), '*');
    let mut zero = Square::new(Mine::Count(0), Edge::Left);
    zero.opened = true;
    assert_eq!(zero.symbol(), '0');
}

#[test]
fn header_and_parting_lines() {
    assert_eq!(top_row_text(3), "  A B C \n");
    assert_eq!(dash_row_text(3), " +-+-+-+\n");
    assert_eq!(top_row_text(0), "  \n");
    assert_eq!(dash_row_text(0), " +\n");
    assert_eq!(top_row_text(26), "  A B C D E F G H I J K L M N O P Q R S T U V W X Y Z \n");
    // letters run out after the 26th column
    assert_eq!(top_row_text(30), top_row_text(26));
    assert_eq!(dash_row_text(30).len(), 63);
}

#[test]
fn pieces_by_place() {
    let parting = " +-+\n";
    let mut opened = Square::new(Mine::Count(2), Edge::TopLeft);
    opened.opened = true;
    let mut text = String::new();
    push_piece(&mut text, &opened, 'a', parting);
    assert_eq!(text, " +-+\na|2|");
    opened.edge = Edge::Left;
    let mut text = String::new();
    push_piece(&mut text, &opened, 'b', parting);
    assert_eq!(text, "b|2|");
    opened.edge = Edge::Middle;
    let mut text = String::new();
    push_piece(&mut text, &opened, 'b', parting);
    assert_eq!(text, "2|");
    opened.edge = Edge::BottomRight;
    let mut text = String::from(">");
    push_piece(&mut text, &opened, 'c', parting);
    assert_eq!(text, ">2|c\n +-+\n");
}

#[test]
fn fresh_board_is_drawn_blank() {
    let field = Minefield::with_mines(3, 2, vec![0]);
    let expected = "  A B C \n +-+-+-+\na| | | |a\n +-+-+-+\nb| | | |b\n +-+-+-+\n  A B C \nFlags remaining: 1";
    assert_eq!(field.render(), expected);
}

#[test]
fn board_in_play_is_drawn() {
    let mut field = Minefield::with_mines(3, 3, vec![0, 8]);
    assert_eq!(
        field.update(PlayerAction::OpenSquare(Position::new(Lower::a, Upper::C))),
        End::Unfinished
    );
    assert_eq!(
        field.update(PlayerAction::ToggleFlag(Position::new(Lower::a, Upper::A))),
        End::Unfinished
    );
    let expected = "  A B C \n +-+-+-+\na|!|1|0|a\n +-+-+-+\nb| |2|1|b\n +-+-+-+\nc| | | |c\n +-+-+-+\n  A B C \nFlags remaining: 1";
    assert_eq!(field.render(), expected);
    assert_eq!(
        field.update(PlayerAction::OpenSquare(Position::new(Lower::c, Upper::C))),
        End::Death
    );
    let expected = "  A B C \n +-+-+-+\na|!|1|0|a\n +-+-+-+\nb| |2|1|b\n +-+-+-+\nc| | |*|c\n +-+-+-+\n  A B C \nFlags remaining: 1";
    assert_eq!(field.render(), expected);
}

#[test]
fn cascade_is_drawn_with_its_ring() {
    let mut field = Minefield::with_mines(4, 4, vec![0, 3]);
    assert_eq!(
        field.update(PlayerAction::OpenSquare(Position::new(Lower::d, Upper::D))),
        End::Unfinished
    );
    let expected = "  A B C D \n +-+-+-+-+\na| | | | |a\n +-+-+-+-+\nb|1|1|1|1|b\n +-+-+-+-+\nc|0|0|0|0|c\n +-+-+-+-+\nd|0|0|0|0|d\n +-+-+-+-+\n  A B C D \nFlags remaining: 2";
    assert_eq!(field.render(), expected);
}
