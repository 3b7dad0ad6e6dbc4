use minesweeper::text::{digit, push_decimal};
use minesweeper::{Cell, CellKind, GameState, Pos};

const STATES: [GameState; 4] = [
    GameState::Unstarted,
    GameState::Playing,
    GameState::Win,
    GameState::Lose,
];

#[test]
fn cell_constructors() {
    assert_eq!(CellKind::new_closed(), CellKind::Closed { flagged: false });
    assert_eq!(CellKind::new_mine(), CellKind::Mine { flagged: false });
    assert_eq!(CellKind::new_open(0), CellKind::Open { neighbor_mines: 0 });
    assert_eq!(CellKind::new_open(8), CellKind::Open { neighbor_mines: 8 });
}

#[test]
fn cell_tests() {
    let open = CellKind::new_open(3);
    let closed = CellKind::Closed { flagged: true };
    let mine = CellKind::Mine { flagged: true };
    assert!(open.is_open() && !open.is_closed() && !open.is_mine() && !open.is_flagged());
    assert!(!closed.is_open() && closed.is_closed() && !closed.is_mine() && closed.is_flagged());
    assert!(!mine.is_open() && !mine.is_closed() && mine.is_mine() && mine.is_flagged());
    assert!(!CellKind::new_closed().is_flagged());
    assert!(!CellKind::new_mine().is_flagged());
}

#[test]
fn cell_characters() {
    for state in STATES {
        for n in 0..=8u8 {
            assert_eq!(
                CellKind::new_open(n).as_char(state),
                char::from(b'0' + n)
            );
        }
        assert_eq!(CellKind::new_closed().as_char(state), 'x');
        assert_eq!(CellKind::Closed { flagged: true }.as_char(state), '!');
        assert_eq!(CellKind::Mine { flagged: true }.as_char(state), '!');
    }
    assert_eq!(CellKind::new_mine().as_char(GameState::Unstarted), 'x');
    assert_eq!(CellKind::new_mine().as_char(GameState::Playing), 'x');
    assert_eq!(CellKind::new_mine().as_char(GameState::Lose), '!');
}

#[test]
fn cell_icons_and_classes() {
    for state in STATES {
        assert_eq!(
            CellKind::Closed { flagged: true }.as_icon_and_hl(state),
            ("🚩", "flagged")
        );
        assert_eq!(
            CellKind::Mine { flagged: true }.as_icon_and_hl(state),
            ("🚩", "flagged")
        );
        assert_eq!(CellKind::new_closed().as_icon_and_hl(state), ("", "closed"));
        assert_eq!(CellKind::new_open(0).as_icon_and_hl(state), ("", "open"));
        assert_eq!(CellKind::new_open(9).as_icon_and_hl(state), ("", "open"));
        assert_eq!(CellKind::new_open(1).as_icon_and_hl(state), ("1", "open open-1"));
        assert_eq!(CellKind::new_open(2).as_icon_and_hl(state), ("2", "open open-2"));
        assert_eq!(CellKind::new_open(3).as_icon_and_hl(state), ("3", "open open-3"));
        assert_eq!(CellKind::new_open(4).as_icon_and_hl(state), ("4", "open open-4"));
        assert_eq!(CellKind::new_open(5).as_icon_and_hl(state), ("5", "open open-5"));
        assert_eq!(CellKind::new_open(6).as_icon_and_hl(state), ("6", "open open-6"));
        assert_eq!(CellKind::new_open(7).as_icon_and_hl(state), ("7", "open open-7"));
        assert_eq!(CellKind::new_open(8).as_icon_and_hl(state), ("8", "open open-8"));
    }
    let mine = CellKind::new_mine();
    assert_eq!(mine.as_icon_and_hl(GameState::Lose), ("💣", "mine"));
    assert_eq!(mine.as_icon_and_hl(GameState::Win), ("🚩", "flagged"));
    assert_eq!(mine.as_icon_and_hl(GameState::Playing), ("", "closed"));
    assert_eq!(mine.as_icon_and_hl(GameState::Unstarted), ("", "closed"));
}

#[test]
fn cell_snapshot() {
    let cell = Cell::new(
        Pos { row: 2, col: 7 },
        CellKind::new_open(5),
        GameState::Playing,
    );
    assert_eq!(cell.pos, Pos { row: 2, col: 7 });
    assert_eq!(cell.kind, CellKind::Open { neighbor_mines: 5 });
    assert_eq!(cell.icon, "5");
    assert_eq!(cell.class, "open open-5");
}

#[test]
fn pos_key() {
    assert_eq!(Pos { row: 0, col: 0 }.key(), "00");
    assert_eq!(Pos { row: 1, col: 12 }.key(), "112");
    assert_eq!(Pos { row: 11, col: 2 }.key(), "112");
    assert_eq!(Pos { row: 255, col: 100 }.key(), "255100");
    assert_eq!(Pos { row: 9, col: 10 }.key(), "910");
    for row in [0u8, 7, 10, 99, 100, 101, 200, 255] {
        for col in [0u8, 5, 19, 110, 255] {
            assert_eq!(Pos { row, col }.key(), format!("{}{}", row, col));
        }
    }
}

#[test]
fn decimal_text() {
    for n in 0..=255u8 {
        let mut out = String::from("n=");
        push_decimal(&mut out, n);
        assert_eq!(out, format!("n={}", n));
    }
    for d in 0..10u8 {
        assert_eq!(digit(d), char::from(b'0' + d));
    }
}

#[test]
fn written_out() {
    let mut out = String::from("> ");
    Pos { row: 3, col: 40 }.write_to(&mut out);
    assert_eq!(out, "> Pos { row: 3, col: 40 }");
    for kind in [
        CellKind::new_open(0),
        CellKind::new_open(8),
        CellKind::new_closed(),
        CellKind::Closed { flagged: true },
        CellKind::new_mine(),
        CellKind::Mine { flagged: true },
    ] {
        let mut out = String::new();
        kind.write_to(&mut out);
        assert_eq!(out, format!("{:?}", kind));
    }
}
