use quadratic_core::{Cell, CellKind, TypeMismatch};

#[test]
fn an_empty_cell_is_no_number() {
    assert_eq!(
        Cell::Empty.to_integer(),
        Err(TypeMismatch { expected: CellKind::Integer, found: CellKind::Empty })
    );
}

#[test]
fn an_integer_cell_converts_to_its_value() {
    assert_eq!(Cell::Integer(-720).to_integer(), Ok(-720));
    assert_eq!(Cell::Integer(0).to_integer(), Ok(0));
    assert_eq!(Cell::Integer(i64::MAX).to_integer(), Ok(i64::MAX));
    assert_eq!(Cell::Integer(i64::MIN).to_integer(), Ok(i64::MIN));
}

#[test]
fn cells_know_their_kind() {
    assert_eq!(Cell::Empty.kind(), CellKind::Empty);
    assert_eq!(Cell::Integer(3).kind(), CellKind::Integer);
    assert!(Cell::Empty.is_empty());
    assert!(!Cell::Integer(0).is_empty());
    assert_eq!(Cell::default(), Cell::Empty);
}
