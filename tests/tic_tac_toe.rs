use boardgames::tic_tac_toe::{Board, Cell, PlaceError, Player, Pos};

#[test]
fn player_toggle() {
    assert_eq!(Player::Nought, Player::Cross.toggle());
    assert_eq!(Player::Cross, Player::Nought.toggle());
}

#[test]
fn player_display() {
    assert_eq!("O", Player::Nought.to_string());
    assert_eq!("X", Player::Cross.to_string());
}

#[test]
fn player_parse() {
    assert_eq!(Ok(Player::Nought), "O".parse());
    assert_eq!(Ok(Player::Cross), "X".parse());

    assert!("".parse::<Player>().is_err());
    assert!("a".parse::<Player>().is_err());
    assert!("o".parse::<Player>().is_err());
    assert!("XXX".parse::<Player>().is_err());
}

#[test]
fn cell() {
    assert!(Cell::Occupied(Player::Nought).is_occupied());
    assert!(Cell::Occupied(Player::Cross).is_occupied());
    assert!(!Cell::Vacant.is_occupied());

    assert!(!Cell::Occupied(Player::Nought).is_vacant());
    assert!(!Cell::Occupied(Player::Cross).is_vacant());
    assert!(Cell::Vacant.is_vacant());
}

#[test]
fn cell_display() {
    assert_eq!("O", Cell::Occupied(Player::Nought).to_string());
    assert_eq!("X", Cell::Occupied(Player::Cross).to_string());
    assert_eq!(" ", Cell::Vacant.to_string());
}

#[test]
fn pos() {
    assert_eq!(1, Pos::new(1).unwrap().get());
    assert_eq!(4, Pos::new(4).unwrap().get());
    assert_eq!(9, Pos::new(9).unwrap().get());

    assert!(Pos::new(0).is_none());
    assert!(Pos::new(10).is_none());
    assert!(Pos::new(usize::MAX).is_none());
}

#[test]
fn board_new() {
    let board = Board::new();
    assert_eq!([Cell::Vacant; 9], board.cells);
}

#[test]
fn board_place() {
    let mut board = Board::new();

    board.place(Pos::new(1).unwrap(), Player::Nought).unwrap();
    assert_eq!(
        [
            Cell::Occupied(Player::Nought),
            Cell::Vacant,
            Cell::Vacant,
            Cell::Vacant,
            Cell::Vacant,
            Cell::Vacant,
            Cell::Vacant,
            Cell::Vacant,
            Cell::Vacant,
        ],
        board.cells
    );
    board.place(Pos::new(5).unwrap(), Player::Cross).unwrap();
    board.place(Pos::new(9).unwrap(), Player::Nought).unwrap();
    assert_eq!(
        [
            Cell::Occupied(Player::Nought),
            Cell::Vacant,
            Cell::Vacant,
            Cell::Vacant,
            Cell::Occupied(Player::Cross),
            Cell::Vacant,
            Cell::Vacant,
            Cell::Vacant,
            Cell::Occupied(Player::Nought),
        ],
        board.cells
    );

    assert_eq!(
        PlaceError {
            pos: Pos::new(1).unwrap(),
            occupied_by: Player::Nought,
        },
        board
            .place(Pos::new(1).unwrap(), Player::Cross)
            .unwrap_err()
    );
}

#[test]
fn board_display() {
    assert_eq!(
        "\
        +---+---+---+\n\
        |   |   |   |\n\
        +---+---+---+\n\
        |   |   |   |\n\
        +---+---+---+\n\
        |   |   |   |\n\
        +---+---+---+\n\
        ",
        Board::new().to_string(),
    );
}

#[test]
fn board_rows() {
    let board = Board {
        cells: [
            Cell::Occupied(Player::Nought),
            Cell::Occupied(Player::Cross),
            Cell::Vacant,
            Cell::Occupied(Player::Cross),
            Cell::Vacant,
            Cell::Occupied(Player::Nought),
            Cell::Vacant,
            Cell::Occupied(Player::Nought),
            Cell::Occupied(Player::Cross),
        ],
    };

    let mut rows = board.rows().into_iter();

    let mut row = rows.next().unwrap().into_iter();
    assert_eq!(Cell::Occupied(Player::Nought), row.next().unwrap());
    assert_eq!(Cell::Occupied(Player::Cross), row.next().unwrap());
    assert_eq!(Cell::Vacant, row.next().unwrap());
    assert!(row.next().is_none());

    let mut row = rows.next().unwrap().into_iter();
    assert_eq!(Cell::Occupied(Player::Cross), row.next().unwrap());
    assert_eq!(Cell::Vacant, row.next().unwrap());
    assert_eq!(Cell::Occupied(Player::Nought), row.next().unwrap());
    assert!(row.next().is_none());

    let mut row = rows.next().unwrap().into_iter();
    assert_eq!(Cell::Vacant, row.next().unwrap());
    assert_eq!(Cell::Occupied(Player::Nought), row.next().unwrap());
    assert_eq!(Cell::Occupied(Player::Cross), row.next().unwrap());
    assert!(row.next().is_none());

    assert!(rows.next().is_none());
}

#[test]
fn board_columns() {
    let board = Board {
        cells: [
            Cell::Occupied(Player::Nought),
            Cell::Occupied(Player::Cross),
            Cell::Vacant,
            Cell::Occupied(Player::Cross),
            Cell::Vacant,
            Cell::Occupied(Player::Nought),
            Cell::Vacant,
            Cell::Occupied(Player::Nought),
            Cell::Occupied(Player::Cross),
        ],
    };

    let mut columns = board.columns().into_iter();

    let mut column = columns.next().unwrap().into_iter();
    assert_eq!(Cell::Occupied(Player::Nought), column.next().unwrap());
    assert_eq!(Cell::Occupied(Player::Cross), column.next().unwrap());
    assert_eq!(Cell::Vacant, column.next().unwrap());
    assert!(column.next().is_none());

    let mut column = columns.next().unwrap().into_iter();
    assert_eq!(Cell::Occupied(Player::Cross), column.next().unwrap());
    assert_eq!(Cell::Vacant, column.next().unwrap());
    assert_eq!(Cell::Occupied(Player::Nought), column.next().unwrap());
    assert!(column.next().is_none());

    let mut column = columns.next().unwrap().into_iter();
    assert_eq!(Cell::Vacant, column.next().unwrap());
    assert_eq!(Cell::Occupied(Player::Nought), column.next().unwrap());
    assert_eq!(Cell::Occupied(Player::Cross), column.next().unwrap());
    assert!(column.next().is_none());

    assert!(columns.next().is_none());
}

#[test]
fn board_diagonals() {
    let board = Board {
        cells: [
            Cell::Occupied(Player::Nought),
            Cell::Occupied(Player::Cross),
            Cell::Vacant,
            Cell::Occupied(Player::Cross),
            Cell::Vacant,
            Cell::Occupied(Player::Nought),
            Cell::Vacant,
            Cell::Occupied(Player::Nought),
            Cell::Occupied(Player::Cross),
        ],
    };

    let mut diagonals = board.diagonals().into_iter();

    let mut diagonal = diagonals.next().unwrap().into_iter();
    assert_eq!(Cell::Occupied(Player::Nought), diagonal.next().unwrap());
    assert_eq!(Cell::Vacant, diagonal.next().unwrap());
    assert_eq!(Cell::Occupied(Player::Cross), diagonal.next().unwrap());
    assert!(diagonal.next().is_none());

    let mut diagonal = diagonals.next().unwrap().into_iter();
    assert_eq!(Cell::Vacant, diagonal.next().unwrap());
    assert_eq!(Cell::Vacant, diagonal.next().unwrap());
    assert_eq!(Cell::Vacant, diagonal.next().unwrap());
    assert!(diagonal.next().is_none());

    assert!(diagonals.next().is_none());
}

#[test]
fn board_is_complete() {
    let board = Board {
        cells: [Cell::Occupied(Player::Cross); 9],
    };
    assert!(board.is_complete());

    let board = Board {
        cells: [Cell::Vacant; 9],
    };
    assert!(!board.is_complete());

    let board = Board {
        cells: [
            Cell::Occupied(Player::Cross),
            Cell::Occupied(Player::Nought),
            Cell::Occupied(Player::Cross),
            Cell::Occupied(Player::Nought),
            Cell::Vacant,
            Cell::Occupied(Player::Nought),
            Cell::Occupied(Player::Cross),
            Cell::Occupied(Player::Nought),
            Cell::Occupied(Player::Cross),
        ],
    };
    assert!(!board.is_complete());
}

#[test]
fn board_wins() {
    let board = Board {
        cells: [
            Cell::Occupied(Player::Nought),
            Cell::Occupied(Player::Cross),
            Cell::Vacant,
            Cell::Occupied(Player::Cross),
            Cell::Vacant,
            Cell::Occupied(Player::Nought),
            Cell::Vacant,
            Cell::Occupied(Player::Nought),
            Cell::Occupied(Player::Cross),
        ],
    };
    assert!(!board.wins(Player::Nought));
    assert!(!board.wins(Player::Cross));

    let board = Board {
        cells: [
            Cell::Occupied(Player::Nought),
            Cell::Occupied(Player::Cross),
            Cell::Occupied(Player::Cross),
            Cell::Occupied(Player::Cross),
            Cell::Occupied(Player::Nought),
            Cell::Occupied(Player::Nought),
            Cell::Occupied(Player::Cross),
            Cell::Occupied(Player::Nought),
            Cell::Occupied(Player::Nought),
        ],
    };
    assert!(board.wins(Player::Nought));
    assert!(!board.wins(Player::Cross));
}

#[test]
fn board_is_draw() {
    let board = Board {
        cells: [
            Cell::Occupied(Player::Nought),
            Cell::Occupied(Player::Cross),
            Cell::Vacant,
            Cell::Occupied(Player::Cross),
            Cell::Vacant,
            Cell::Occupied(Player::Nought),
            Cell::Vacant,
            Cell::Occupied(Player::Nought),
            Cell::Occupied(Player::Cross),
        ],
    };
    assert!(!board.is_draw());

    let board = Board {
        cells: [
            Cell::Occupied(Player::Nought),
            Cell::Occupied(Player::Cross),
            Cell::Occupied(Player::Cross),
            Cell::Occupied(Player::Cross),
            Cell::Occupied(Player::Nought),
            Cell::Occupied(Player::Nought),
            Cell::Occupied(Player::Cross),
            Cell::Occupied(Player::Nought),
            Cell::Occupied(Player::Nought),
        ],
    };
    assert!(!board.is_draw());

    let board = Board {
        cells: [
            Cell::Occupied(Player::Nought),
            Cell::Occupied(Player::Cross),
            Cell::Occupied(Player::Cross),
            Cell::Occupied(Player::Cross),
            Cell::Occupied(Player::Nought),
            Cell::Occupied(Player::Nought),
            Cell::Occupied(Player::Cross),
            Cell::Occupied(Player::Nought),
            Cell::Occupied(Player::Cross),
        ],
    };
    println!("{}", board.to_string());
    assert!(board.is_draw());
}

#[test]
fn player_from_symbol() {
    assert_eq!(Ok(Player::Nought), Player::from_symbol("O"));
    assert_eq!(Ok(Player::Cross), Player::from_symbol("X"));
    assert!(Player::from_symbol("OX").is_err());
    assert!(Player::from_symbol(" ").is_err());
}

#[test]
fn board_display_with_moves() {
    let mut board = Board::new();
    board.place(Pos::new(1).unwrap(), Player::Cross).unwrap();
    board.place(Pos::new(5).unwrap(), Player::Nought).unwrap();
    board.place(Pos::new(9).unwrap(), Player::Cross).unwrap();
    assert_eq!(
        "\
        +---+---+---+\n\
        | X |   |   |\n\
        +---+---+---+\n\
        |   | O |   |\n\
        +---+---+---+\n\
        |   |   | X |\n\
        +---+---+---+\n\
        ",
        board.to_string(),
    );
}

#[test]
fn board_place_keeps_occupied_cell() {
    let mut board = Board::new();
    board.place(Pos::new(3).unwrap(), Player::Cross).unwrap();
    let before = board.cells;
    assert_eq!(
        Err(PlaceError {
            pos: Pos::new(3).unwrap(),
            occupied_by: Player::Cross,
        }),
        board.place(Pos::new(3).unwrap(), Player::Nought)
    );
    assert_eq!(before, board.cells);
}

#[test]
fn board_wins_by_column_and_diagonal() {
    let mut board = Board::new();
    for n in [2, 5, 8] {
        board.place(Pos::new(n).unwrap(), Player::Cross).unwrap();
    }
    assert!(board.wins(Player::Cross));
    assert!(!board.wins(Player::Nought));

    let mut board = Board::new();
    for n in [3, 5, 7] {
        board.place(Pos::new(n).unwrap(), Player::Nought).unwrap();
    }
    assert!(board.wins(Player::Nought));
    assert!(!board.wins(Player::Cross));
    assert!(!board.is_draw());
}
