use minesweeper::board::Census;
use minesweeper::{Board, BoardError, CellKind, Pos};
use std::collections::HashSet;

fn assert_board(actual: Board, expect: Vec<Vec<CellKind>>) {
    assert_eq!(expect.len(), actual.height as usize);
    for (i, row) in expect.iter().enumerate() {
        for (j, cellkind) in row.iter().enumerate() {
            assert_eq!(cellkind, &actual.b[i][j]);
        }
    }
}

#[test]
fn init_board() {
    let b = Board::new(4, 3);
    let expect = vec![
        vec![
            CellKind::new_closed(),
            CellKind::new_closed(),
            CellKind::new_closed(),
        ],
        vec![
            CellKind::new_closed(),
            CellKind::new_closed(),
            CellKind::new_closed(),
        ],
        vec![
            CellKind::new_closed(),
            CellKind::new_closed(),
            CellKind::new_closed(),
        ],
        vec![
            CellKind::new_closed(),
            CellKind::new_closed(),
            CellKind::new_closed(),
        ],
    ];
    assert_board(b, expect);
}

#[test]
fn init_from_matrix() {
    let board = vec![vec![0, 1, 0, 1], vec![1, 0, 1, 0]];
    let expect = vec![
        vec![
            CellKind::new_closed(),
            CellKind::new_mine(),
            CellKind::new_closed(),
            CellKind::new_mine(),
        ],
        vec![
            CellKind::new_mine(),
            CellKind::new_closed(),
            CellKind::new_mine(),
            CellKind::new_closed(),
        ],
    ];
    let b = Board::from_matrix(board);
    assert_board(b, expect);
}

#[test]
fn board_get_inbounds() {
    let mut b = Board::new(4, 3);
    b.b[0][1] = CellKind::new_mine();
    assert!(b.get(Pos { row: 0, col: 1 }).unwrap().is_mine());
}

#[test]
fn board_get_outbounds() {
    let b = Board::new(4, 3);
    assert_eq!(b.get(Pos { row: 10, col: 1 }), None);
}

#[test]
fn board_set_inbounds() {
    let mut b = Board::new(4, 3);
    let pos = Pos { row: 0, col: 0 };
    assert!(b.get(pos).unwrap().is_closed());
    assert!(b.set(pos, CellKind::new_mine()).is_ok());
    assert!(b.get(pos).unwrap().is_mine());
}

#[test]
fn board_set_outbounds() {
    let mut b = Board::new(4, 3);
    let pos = Pos { row: 100, col: 0 };
    let res = b.set(pos, CellKind::new_mine());
    assert!(res.is_err());
    assert_eq!(
        res.unwrap_err(),
        BoardError::SetCellError {
            pos,
            kind: CellKind::new_mine()
        }
    );
}

#[test]
fn board_board_corner_iter_neighbors() {
    let b = Board::new(4, 3);
    let ret: HashSet<_> = b
        .iter_neighbors(Pos { row: 0, col: 0 })
        .into_iter()
        .collect();
    let expect = HashSet::from([
        Pos { row: 0, col: 1 },
        Pos { row: 1, col: 0 },
        Pos { row: 1, col: 1 },
    ]);
    assert_eq!(ret, expect);
}

#[test]
fn board_board_edge_iter_neighbors() {
    let b = Board::new(4, 3);
    let ret: HashSet<_> = b
        .iter_neighbors(Pos { row: 1, col: 0 })
        .into_iter()
        .collect();
    let expect = HashSet::from([
        Pos { row: 0, col: 0 },
        Pos { row: 0, col: 1 },
        Pos { row: 1, col: 1 },
        Pos { row: 2, col: 0 },
        Pos { row: 2, col: 1 },
    ]);
    assert_eq!(ret, expect);
}

#[test]
fn board_board_center_iter_neighbors() {
    let b = Board::new(4, 3);
    let ret: HashSet<_> = b
        .iter_neighbors(Pos { row: 1, col: 1 })
        .into_iter()
        .collect();
    let expect = HashSet::from([
        Pos { row: 0, col: 0 },
        Pos { row: 0, col: 1 },
        Pos { row: 0, col: 2 },
        Pos { row: 1, col: 0 },
        Pos { row: 1, col: 2 },
        Pos { row: 2, col: 0 },
        Pos { row: 2, col: 1 },
        Pos { row: 2, col: 2 },
    ]);
    assert_eq!(ret, expect);
}

#[test]
fn board_dimensions_follow_the_matrix() {
    let b = Board::from_matrix(vec![vec![0, 1, 0, 1], vec![1, 0, 1, 0]]);
    assert_eq!(b.height, 2);
    assert_eq!(b.width, 4);
    let empty = Board::from_matrix(Vec::new());
    assert_eq!(empty.height, 0);
    assert_eq!(empty.width, 0);
    assert!(empty.iter_pos().is_empty());
    assert_eq!(empty.get(Pos { row: 0, col: 0 }), None);
}

#[test]
fn board_from_matrix_takes_any_nonzero_as_a_mine() {
    let b = Board::from_matrix(vec![vec![-3, 0, 7]]);
    assert_eq!(b.get(Pos { row: 0, col: 0 }), Some(&CellKind::Mine { flagged: false }));
    assert_eq!(b.get(Pos { row: 0, col: 1 }), Some(&CellKind::Closed { flagged: false }));
    assert_eq!(b.get(Pos { row: 0, col: 2 }), Some(&CellKind::Mine { flagged: false }));
}

#[test]
fn board_get_just_outside() {
    let b = Board::new(4, 3);
    assert_eq!(b.get(Pos { row: 4, col: 0 }), None);
    assert_eq!(b.get(Pos { row: 0, col: 3 }), None);
    assert_eq!(b.get(Pos { row: 255, col: 255 }), None);
    assert_eq!(b.get(Pos { row: 3, col: 2 }), Some(&CellKind::Closed { flagged: false }));
}

#[test]
fn board_set_outside_leaves_the_board() {
    let mut b = Board::from_matrix(vec![vec![0, 1], vec![1, 0]]);
    let before: Vec<Vec<CellKind>> = b.iter().cloned().collect();
    let res = b.set(Pos { row: 0, col: 2 }, CellKind::new_open(3));
    assert_eq!(
        res,
        Err(BoardError::SetCellError {
            pos: Pos { row: 0, col: 2 },
            kind: CellKind::Open { neighbor_mines: 3 }
        })
    );
    let after: Vec<Vec<CellKind>> = b.iter().cloned().collect();
    assert_eq!(before, after);
    assert_eq!(b.height, 2);
    assert_eq!(b.width, 2);
}

#[test]
fn board_set_changes_one_cell() {
    let mut b = Board::new(2, 3);
    let pos = Pos { row: 1, col: 2 };
    assert_eq!(b.set(pos, CellKind::Open { neighbor_mines: 2 }), Ok(()));
    for p in b.iter_pos() {
        let expect = if p == pos {
            CellKind::Open { neighbor_mines: 2 }
        } else {
            CellKind::Closed { flagged: false }
        };
        assert_eq!(b.get(p), Some(&expect));
    }
}

#[test]
fn board_iter_gives_the_rows() {
    let b = Board::from_matrix(vec![vec![0, 1, 0], vec![1, 0, 0]]);
    let rows: Vec<&Vec<CellKind>> = b.iter().collect();
    assert_eq!(rows.len(), 2);
    assert_eq!(
        rows[0],
        &vec![
            CellKind::new_closed(),
            CellKind::new_mine(),
            CellKind::new_closed()
        ]
    );
    assert_eq!(
        rows[1],
        &vec![
            CellKind::new_mine(),
            CellKind::new_closed(),
            CellKind::new_closed()
        ]
    );
}

#[test]
fn board_iter_pos_is_row_major() {
    let b = Board::new(2, 3);
    assert_eq!(
        b.iter_pos(),
        vec![
            Pos { row: 0, col: 0 },
            Pos { row: 0, col: 1 },
            Pos { row: 0, col: 2 },
            Pos { row: 1, col: 0 },
            Pos { row: 1, col: 1 },
            Pos { row: 1, col: 2 },
        ]
    );
    assert!(Board::new(0, 5).iter_pos().is_empty());
    assert!(Board::new(5, 0).iter_pos().is_empty());
    assert_eq!(Board::new(255, 255).iter_pos().len(), 255 * 255);
}

#[test]
fn board_iter_neighbors_order() {
    let b = Board::new(3, 3);
    assert_eq!(
        b.iter_neighbors(Pos { row: 1, col: 1 }),
        vec![
            Pos { row: 0, col: 0 },
            Pos { row: 0, col: 1 },
            Pos { row: 0, col: 2 },
            Pos { row: 1, col: 0 },
            Pos { row: 1, col: 2 },
            Pos { row: 2, col: 0 },
            Pos { row: 2, col: 1 },
            Pos { row: 2, col: 2 },
        ]
    );
    assert_eq!(
        b.iter_neighbors(Pos { row: 2, col: 2 }),
        vec![
            Pos { row: 1, col: 1 },
            Pos { row: 1, col: 2 },
            Pos { row: 2, col: 1 },
        ]
    );
}

#[test]
fn board_neighbor_counts() {
    let b = Board::new(4, 5);
    for p in b.iter_pos() {
        let around = b.iter_neighbors(p);
        let row_edge = p.row == 0 || p.row == 3;
        let col_edge = p.col == 0 || p.col == 4;
        let expect = if row_edge && col_edge {
            3
        } else if row_edge || col_edge {
            5
        } else {
            8
        };
        assert_eq!(around.len(), expect);
        assert!(!around.contains(&p));
        let distinct: HashSet<Pos> = around.iter().copied().collect();
        assert_eq!(distinct.len(), around.len());
        for q in around {
            assert!(q.row < 4 && q.col < 5);
            assert!((q.row as i16 - p.row as i16).abs() <= 1);
            assert!((q.col as i16 - p.col as i16).abs() <= 1);
        }
    }
}

#[test]
fn board_neighbors_on_narrow_boards() {
    let line = Board::new(1, 3);
    assert_eq!(
        line.iter_neighbors(Pos { row: 0, col: 0 }),
        vec![Pos { row: 0, col: 1 }]
    );
    assert_eq!(
        line.iter_neighbors(Pos { row: 0, col: 1 }),
        vec![Pos { row: 0, col: 0 }, Pos { row: 0, col: 2 }]
    );
    let single = Board::new(1, 1);
    assert!(single.iter_neighbors(Pos { row: 0, col: 0 }).is_empty());
    let none = Board::new(0, 0);
    assert!(none.iter_neighbors(Pos { row: 0, col: 0 }).is_empty());
}

#[test]
fn board_neighbors_of_a_position_off_the_board() {
    let b = Board::new(4, 3);
    assert_eq!(
        b.iter_neighbors(Pos { row: 4, col: 1 }),
        vec![
            Pos { row: 3, col: 0 },
            Pos { row: 3, col: 1 },
            Pos { row: 3, col: 2 },
        ]
    );
    assert!(b.iter_neighbors(Pos { row: 10, col: 1 }).is_empty());
    assert!(b.iter_neighbors(Pos { row: 255, col: 255 }).is_empty());
}

#[test]
fn board_neighbors_on_the_largest_board() {
    let b = Board::new(255, 255);
    assert_eq!(b.iter_neighbors(Pos { row: 254, col: 254 }).len(), 3);
    assert_eq!(b.iter_neighbors(Pos { row: 200, col: 200 }).len(), 8);
    assert_eq!(b.iter_neighbors(Pos { row: 254, col: 100 }).len(), 5);
}

#[test]
fn board_counts() {
    let mut b = Board::from_matrix(vec![vec![0, 1, 0, 1], vec![1, 0, 1, 0]]);
    assert_eq!(b.count_mines(), 4);
    assert_eq!(b.count_closed(), 4);
    b.set(Pos { row: 0, col: 0 }, CellKind::new_open(2)).unwrap();
    b.set(Pos { row: 0, col: 1 }, CellKind::Mine { flagged: true })
        .unwrap();
    assert_eq!(b.count_mines(), 4);
    assert_eq!(b.count_closed(), 3);
    assert_eq!(b.count_flagged(), 1);
    b.set(Pos { row: 1, col: 1 }, CellKind::Closed { flagged: true })
        .unwrap();
    assert_eq!(b.count_flagged(), 2);
    assert_eq!(b.count(Census::Mines), 4);
    assert_eq!(b.count(Census::Closed), 3);
    assert_eq!(b.count(Census::Flagged), 2);
    assert_eq!(Board::new(0, 0).count_mines(), 0);
    assert_eq!(Board::new(255, 255).count_closed(), 65025);
    assert!(Census::Mines.test(&CellKind::Mine { flagged: true }));
    assert!(!Census::Mines.test(&CellKind::new_closed()));
    assert!(Census::Closed.test(&CellKind::Closed { flagged: true }));
    assert!(!Census::Closed.test(&CellKind::new_open(0)));
    assert!(Census::Flagged.test(&CellKind::Mine { flagged: true }));
    assert!(!Census::Flagged.test(&CellKind::new_mine()));
}

#[test]
fn board_mines_around() {
    let b = Board::from_matrix(vec![vec![1, 1, 0], vec![1, 0, 1], vec![1, 0, 1]]);
    assert_eq!(b.mines_around(Pos { row: 1, col: 1 }), 6);
    assert_eq!(b.mines_around(Pos { row: 0, col: 2 }), 2);
    assert_eq!(b.mines_around(Pos { row: 2, col: 1 }), 4);
    assert_eq!(b.mines_around(Pos { row: 0, col: 0 }), 2);
    let full = Board::from_matrix(vec![vec![1, 1, 1], vec![1, 0, 1], vec![1, 1, 1]]);
    assert_eq!(full.mines_around(Pos { row: 1, col: 1 }), 8);
}

#[test]
fn board_mines_around_counts_flagged_mines() {
    let mut b = Board::from_matrix(vec![vec![1, 0], vec![0, 1]]);
    b.set(Pos { row: 0, col: 0 }, CellKind::Mine { flagged: true })
        .unwrap();
    b.set(Pos { row: 1, col: 0 }, CellKind::Closed { flagged: true })
        .unwrap();
    assert_eq!(b.mines_around(Pos { row: 0, col: 1 }), 2);
}

#[test]
fn board_disclose_opens_a_region_and_its_border() {
    let mut b = Board::from_matrix(vec![
        vec![1, 1, 0, 0],
        vec![1, 0, 0, 0],
        vec![1, 0, 0, 0],
    ]);
    b.disclose(vec![Pos { row: 2, col: 3 }]);
    let expect = vec![
        vec![
            CellKind::new_mine(),
            CellKind::new_mine(),
            CellKind::new_open(1),
            CellKind::new_open(0),
        ],
        vec![
            CellKind::new_mine(),
            CellKind::new_open(4),
            CellKind::new_open(1),
            CellKind::new_open(0),
        ],
        vec![
            CellKind::new_mine(),
            CellKind::new_open(2),
            CellKind::new_open(0),
            CellKind::new_open(0),
        ],
    ];
    let rows: Vec<Vec<CellKind>> = b.iter().cloned().collect();
    assert_eq!(rows, expect);
}

#[test]
fn board_disclose_stops_at_flags_and_counts() {
    let mut b = Board::from_matrix(vec![vec![0, 0, 0, 0, 1]]);
    b.set(Pos { row: 0, col: 1 }, CellKind::Closed { flagged: true })
        .unwrap();
    b.disclose(vec![Pos { row: 0, col: 0 }]);
    let rows: Vec<Vec<CellKind>> = b.iter().cloned().collect();
    assert_eq!(
        rows,
        vec![vec![
            CellKind::new_open(0),
            CellKind::Closed { flagged: true },
            CellKind::new_closed(),
            CellKind::new_closed(),
            CellKind::new_mine(),
        ]]
    );
    b.disclose(vec![Pos { row: 0, col: 3 }]);
    assert_eq!(
        b.get(Pos { row: 0, col: 3 }),
        Some(&CellKind::new_open(1))
    );
    assert_eq!(b.get(Pos { row: 0, col: 2 }), Some(&CellKind::new_closed()));
}

#[test]
fn board_disclose_ignores_what_cannot_be_opened() {
    let mut b = Board::from_matrix(vec![vec![1, 0], vec![0, 0]]);
    b.set(Pos { row: 1, col: 1 }, CellKind::new_open(1)).unwrap();
    let before: Vec<Vec<CellKind>> = b.iter().cloned().collect();
    b.disclose(vec![
        Pos { row: 0, col: 0 },
        Pos { row: 1, col: 1 },
        Pos { row: 9, col: 9 },
    ]);
    b.disclose(Vec::new());
    let after: Vec<Vec<CellKind>> = b.iter().cloned().collect();
    assert_eq!(before, after);
}

#[test]
fn board_disclose_from_several_seeds() {
    let mut b = Board::from_matrix(vec![vec![0, 0, 1, 0, 0]]);
    b.disclose(vec![Pos { row: 0, col: 0 }, Pos { row: 0, col: 4 }]);
    let rows: Vec<Vec<CellKind>> = b.iter().cloned().collect();
    assert_eq!(
        rows,
        vec![vec![
            CellKind::new_open(0),
            CellKind::new_open(1),
            CellKind::new_mine(),
            CellKind::new_open(1),
            CellKind::new_open(0),
        ]]
    );
}

#[test]
fn board_disclose_a_large_empty_board() {
    let mut b = Board::new(255, 255);
    b.disclose(vec![Pos { row: 128, col: 17 }]);
    assert_eq!(b.count_closed(), 0);
    assert_eq!(b.get(Pos { row: 254, col: 254 }), Some(&CellKind::new_open(0)));
}

#[test]
fn board_open_empty_neighbors_lists_them_only_for_zero() {
    let b = Board::new(2, 2);
    let mut work = vec![Pos { row: 1, col: 1 }];
    b.open_empty_neighbors(Pos { row: 0, col: 0 }, 2, &mut work);
    assert_eq!(work, vec![Pos { row: 1, col: 1 }]);
    b.open_empty_neighbors(Pos { row: 0, col: 0 }, 0, &mut work);
    assert_eq!(
        work,
        vec![
            Pos { row: 1, col: 1 },
            Pos { row: 0, col: 1 },
            Pos { row: 1, col: 0 },
            Pos { row: 1, col: 1 },
        ]
    );
}

#[test]
fn board_error_text() {
    let err = BoardError::SetCellError {
        pos: Pos { row: 100, col: 0 },
        kind: CellKind::new_mine(),
    };
    assert_eq!(
        err.to_string(),
        "failed to set Mine { flagged: false } at Pos { row: 100, col: 0 }"
    );
    assert_eq!(err.to_string(), format!("failed to set {:?} at {:?}", CellKind::new_mine(), Pos { row: 100, col: 0 }));
    let err = BoardError::SetCellError {
        pos: Pos { row: 7, col: 255 },
        kind: CellKind::Open { neighbor_mines: 8 },
    };
    assert_eq!(
        err.to_string(),
        "failed to set Open { neighbor_mines: 8 } at Pos { row: 7, col: 255 }"
    );
    let err = BoardError::SetCellError {
        pos: Pos { row: 12, col: 34 },
        kind: CellKind::Closed { flagged: true },
    };
    assert_eq!(
        err.to_string(),
        format!("failed to set {:?} at {:?}", CellKind::Closed { flagged: true }, Pos { row: 12, col: 34 })
    );
}

#[test]
fn board_allowable_mine_pos() {
    let b = Board::new(2, 2);
    assert_eq!(b.allowable_mine_pos(None), b.iter_pos());
    assert_eq!(
        b.allowable_mine_pos(Some(Pos { row: 0, col: 1 })),
        vec![
            Pos { row: 0, col: 0 },
            Pos { row: 1, col: 0 },
            Pos { row: 1, col: 1 },
        ]
    );
    assert_eq!(b.allowable_mine_pos(Some(Pos { row: 5, col: 5 })).len(), 4);
}
