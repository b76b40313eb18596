use gameboard::coords::{Coords, CoordsError, NumberError};
use gameboard::state::{Entity, GameGrid, GameState, BOARD_SIZE, CELL_SPACING};

#[test]
fn coords_text() {
    assert_eq!(Coords(4, 8).to_string(), "4,8");
    assert_eq!(Coords(0, 1234567).to_string(), "0,1234567");
    assert_eq!(Coords(usize::MAX, 10).to_string(), format!("{},10", usize::MAX));
}

#[test]
fn coords_parse_ok() {
    assert_eq!(Coords::parse("4,8"), Ok(Coords(4, 8)));
    assert_eq!(Coords::parse(" 12 ,\t+7\n"), Ok(Coords(12, 7)));
    assert_eq!(Coords::parse("007,0"), Ok(Coords(7, 0)));
    assert_eq!("3,5".parse::<Coords>(), Ok(Coords(3, 5)));
}

#[test]
fn coords_round_trip() {
    for c in [Coords(0, 0), Coords(9, 81), Coords(usize::MAX, 1)] {
        assert_eq!(Coords::parse(&c.to_string()), Ok(c));
    }
}

#[test]
fn coords_parse_format_errors() {
    assert_eq!(Coords::parse("48"), Err(CoordsError::Format));
    assert_eq!(Coords::parse("1,2,3"), Err(CoordsError::Format));
    assert_eq!(Coords::parse(""), Err(CoordsError::Format));
    assert_eq!(Coords::parse(",,"), Err(CoordsError::Format));
}

#[test]
fn coords_parse_field_errors() {
    assert_eq!(Coords::parse(",8"), Err(CoordsError::InvalidX(NumberError::Empty)));
    assert_eq!(Coords::parse("  ,8"), Err(CoordsError::InvalidX(NumberError::Empty)));
    assert_eq!(Coords::parse("a,8"), Err(CoordsError::InvalidX(NumberError::InvalidDigit)));
    assert_eq!(Coords::parse("-1,8"), Err(CoordsError::InvalidX(NumberError::InvalidDigit)));
    assert_eq!(Coords::parse("+,8"), Err(CoordsError::InvalidX(NumberError::InvalidDigit)));
    assert_eq!(Coords::parse("4,"), Err(CoordsError::InvalidY(NumberError::Empty)));
    assert_eq!(Coords::parse("4,1 2"), Err(CoordsError::InvalidY(NumberError::InvalidDigit)));
    let big = format!("1,{}0", usize::MAX);
    assert_eq!(Coords::parse(&big), Err(CoordsError::InvalidY(NumberError::PosOverflow)));
    let big_then_bad = format!("{}0x,1", usize::MAX);
    assert_eq!(Coords::parse(&big_then_bad), Err(CoordsError::InvalidX(NumberError::PosOverflow)));
}

#[test]
fn coords_parse_agrees_with_std_numbers() {
    for field in ["", "+", "-", "+5", "12", " 3", "1a", "99999999999999999999999", "١"] {
        let text = format!("{},0", field);
        let ours = Coords::parse(&text).map(|c| c.0);
        let std = field.trim().parse::<usize>();
        assert_eq!(ours.is_ok(), std.is_ok(), "{:?}", field);
        if let (Ok(a), Ok(b)) = (&ours, &std) {
            assert_eq!(a, b);
        }
        if let (Err(CoordsError::InvalidX(e)), Err(s)) = (&ours, &std) {
            assert_eq!(format!("Invalid x: {}", s), CoordsError::InvalidX(*e).message());
        }
    }
}

#[test]
fn coords_error_messages() {
    assert_eq!(CoordsError::Format.message(), "Input must be in format `x,y`");
    assert_eq!(CoordsError::InvalidX(NumberError::Empty).message(), "Invalid x: cannot parse integer from empty string");
    assert_eq!(CoordsError::InvalidY(NumberError::InvalidDigit).message(), "Invalid y: invalid digit found in string");
    assert_eq!(NumberError::PosOverflow.message(), "number too large to fit in target type");
}

#[test]
fn game_state_places_player() {
    let state = GameState::new();
    assert_eq!(state.entity_at(Coords(4, 8)), Entity::Player);
    assert_eq!(state.entity_at(Coords(8, 4)), Entity::Empty);
    assert_eq!(GameState::empty().entity_at(Coords(4, 8)), Entity::Empty);
}

#[test]
fn game_grid_seeds_cells_row_by_row() {
    let grid = GameGrid::new(&GameState::new());
    assert_eq!(grid.cells.len(), BOARD_SIZE * BOARD_SIZE);
    for (k, e) in grid.cells.iter().enumerate() {
        let expected = if k == 8 * BOARD_SIZE + 4 { Entity::Player } else { Entity::Empty };
        assert_eq!(*e, expected, "cell {}", k);
    }
    assert_eq!(grid.grid.rows, BOARD_SIZE);
    assert_eq!(grid.grid.cols, BOARD_SIZE);
    assert_eq!(grid.grid.spacing, (CELL_SPACING, CELL_SPACING));
}

#[test]
fn from_str_matches_parse() {
    assert_eq!(" 4 , 8 ".parse::<Coords>(), Ok(Coords(4, 8)));
    assert_eq!("1,2,3".parse::<Coords>(), Err(CoordsError::Format));
    assert_eq!("1".parse::<Coords>(), Err(CoordsError::Format));
    assert_eq!("a,1".parse::<Coords>(), Err(CoordsError::InvalidX(NumberError::InvalidDigit)));
    assert_eq!("1,b".parse::<Coords>(), Err(CoordsError::InvalidY(NumberError::InvalidDigit)));
}

#[test]
fn game_state_insert_replaces_or_appends() {
    let mut state = GameState::new();
    state.insert(Coords(4, 8).to_string(), Entity::Empty);
    assert_eq!(state.sprites.len(), 1);
    assert_eq!(state.entity_at(Coords(4, 8)), Entity::Empty);
    state.insert(Coords(0, 0).to_string(), Entity::Player);
    assert_eq!(state.sprites.len(), 2);
    assert_eq!(state.entity_at(Coords(0, 0)), Entity::Player);
    assert_eq!(state.sprites[1].0, "0,0");
}
