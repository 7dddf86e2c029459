use turing::tm_cell::TMCell;

#[test]
fn test_prepend() {
    let mut cells: Vec<TMCell> = Vec::new();
    cells.push(TMCell::from('a'));
    cells.push(TMCell::from('b'));
    let a: usize = 0;
    let b: usize = 1;

    // fresh cells point to nothing else yet
    assert!(cells[a].prev.is_none());
    assert!(cells[a].next.is_none());

    // prepend
    TMCell::prepend(&mut cells, a, b);

    // check if b <-> a
    assert!(cells[a].prev == Some(b));
    assert!(cells[b].next == Some(a));
}

#[test]
fn test_append() {
    let mut cells: Vec<TMCell> = Vec::new();
    cells.push(TMCell::from('a'));
    cells.push(TMCell::from('b'));
    let a: usize = 0;
    let b: usize = 1;

    // fresh cells point to nothing else yet
    assert!(cells[a].prev.is_none());
    assert!(cells[a].next.is_none());

    // append
    TMCell::append(&mut cells, a, b);

    // check if a <-> b
    assert!(cells[a].next == Some(b));
    assert!(cells[b].prev == Some(a));
}

#[test]
fn blank_is_blank() {
    let cell = TMCell::blank();
    assert_eq!(cell.value, 'B');
    assert!(cell.prev.is_none());
    assert!(cell.next.is_none());
}
