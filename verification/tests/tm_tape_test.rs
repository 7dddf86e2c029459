use turing::tm_cell::TMCell;
use turing::tm_tape::TMTape;
use turing::util::TMDirection;

fn collect(tape: &TMTape) -> Vec<(char, bool)> {
    let mut entries: Vec<(char, bool)> = Vec::new();
    let mut it = tape.iter();
    while let Some(entry) = it.next() {
        entries.push(entry);
    }
    entries
}

#[test]
fn test_from() {
    let tape = TMTape::from("abc");

    let a: usize = tape.first;
    let b: usize = tape.cells[a].next.unwrap();
    let c: usize = tape.last;

    // check values
    assert_eq!(tape.cells[a].value, 'a');
    assert_eq!(tape.cells[b].value, 'b');
    assert_eq!(tape.cells[c].value, 'c');

    // check next pointers
    assert!(tape.cells[a].next == Some(b));
    assert!(tape.cells[b].next == Some(c));
    assert!(tape.cells[c].next.is_none());

    // check prev pointers
    assert!(tape.cells[a].prev.is_none());
    assert!(tape.cells[b].prev == Some(a));
    assert!(tape.cells[c].prev == Some(b));

    // check head
    assert_eq!(tape.head, a);
}

#[test]
fn no_blanks() {
    let mut tape = TMTape::from("a");

    // check default head position
    assert_eq!(tape.cells[tape.head].value, 'a');

    //
    // cleanup should do nothing, as first and last dont point to blanks
    //

    let old_first: usize = tape.first;
    let old_last: usize = tape.last;
    tape.cleanup();
    assert_eq!(tape.first, old_first);
    assert_eq!(tape.last, old_last);
    assert!(tape.cells[tape.head].prev.is_none());
    assert!(tape.cells[tape.head].next.is_none());
}

#[test]
fn first_not_head() {
    //
    // cleanup should remove blank on first, when not head
    //

    let mut tape = TMTape::from("a");

    // fake left movement to create blank
    let blank: usize = tape.cells.len();
    tape.cells.push(TMCell::blank());
    TMCell::prepend(&mut tape.cells, tape.head, blank);
    tape.first = blank;

    let old_first: usize = tape.first;

    tape.cleanup();
    assert_ne!(tape.first, old_first);
    assert_eq!(tape.first, tape.head);
    assert!(tape.cells[tape.head].prev.is_none());
}

#[test]
fn last_not_head() {
    //
    // cleanup should remove blank on last, when not head
    //

    let mut tape = TMTape::from("a");

    // fake right movement to create blank
    let blank: usize = tape.cells.len();
    tape.cells.push(TMCell::blank());
    TMCell::append(&mut tape.cells, tape.head, blank);
    tape.last = blank;

    let old_last: usize = tape.last;

    tape.cleanup();
    assert_ne!(tape.last, old_last);
    assert_eq!(tape.last, tape.head);
    assert!(tape.cells[tape.head].next.is_none());
}

#[test]
fn first_head() {
    //
    // cleanup should not remove blank on first, when head
    //

    let mut tape = TMTape::from("a");

    // fake left movement to create blank
    let blank: usize = tape.cells.len();
    tape.cells.push(TMCell::blank());
    TMCell::prepend(&mut tape.cells, tape.head, blank);
    tape.first = blank;
    tape.head = blank;

    let old_first: usize = tape.first;

    tape.cleanup();
    assert_eq!(tape.first, old_first);
    assert_eq!(tape.first, tape.head);
}

#[test]
fn last_head() {
    //
    // cleanup should not remove blank on last, when head
    //

    let mut tape = TMTape::from("a");

    // fake right movement to create blank
    let blank: usize = tape.cells.len();
    tape.cells.push(TMCell::blank());
    TMCell::append(&mut tape.cells, tape.head, blank);
    tape.last = blank;
    tape.head = blank;

    let old_last: usize = tape.last;

    tape.cleanup();
    assert_eq!(tape.last, old_last);
    assert_eq!(tape.last, tape.head);
}

#[test]
fn n() {
    // should not move when Direction::N

    let mut tape = TMTape::from("abc");

    let old_head: usize = tape.head;
    let old_first: usize = tape.first;
    let old_last: usize = tape.last;

    tape.move_head(&TMDirection::N);

    assert_eq!(tape.head, old_head);
    assert_eq!(tape.first, old_first);
    assert_eq!(tape.last, old_last);
}

#[test]
fn r_with_next() {
    // should move to next when Direction::R

    let mut tape = TMTape::from("abc");

    let old_next: usize = tape.cells[tape.head].next.unwrap();
    let old_first: usize = tape.first;
    let old_last: usize = tape.last;

    tape.move_head(&TMDirection::R);

    assert_eq!(tape.head, old_next);
    assert_eq!(tape.first, old_first);
    assert_eq!(tape.last, old_last);
}

#[test]
fn r_without_next() {
    // should create Blank and move there

    let mut tape = TMTape::from("a");

    let old_head: usize = tape.head;
    let old_first: usize = tape.first;
    let old_last: usize = tape.last;

    tape.move_head(&TMDirection::R);

    assert_eq!(tape.cells[tape.head].value, 'B');
    assert!(tape.cells[old_head].next.is_some());
    assert!(tape.cells[tape.cells[old_head].next.unwrap()].prev == Some(old_head));
    assert_ne!(tape.head, old_head);
    assert_eq!(tape.first, old_first);
    assert_eq!(tape.last, tape.head);
    assert_ne!(tape.last, old_last);
}

#[test]
fn l_with_prev() {
    // should move to prev when Direction::L

    let mut tape = TMTape::from("abc");
    tape.move_head(&TMDirection::R);

    let old_prev: usize = tape.cells[tape.head].prev.unwrap();
    let old_first: usize = tape.first;
    let old_last: usize = tape.last;

    tape.move_head(&TMDirection::L);

    assert_eq!(tape.head, old_prev);
    assert_eq!(tape.first, old_first);
    assert_eq!(tape.last, old_last);
}

#[test]
fn l_without_prev() {
    // should create Blank and move there

    let mut tape = TMTape::from("a");

    let old_head: usize = tape.head;
    let old_first: usize = tape.first;
    let old_last: usize = tape.last;

    tape.move_head(&TMDirection::L);

    assert_eq!(tape.cells[tape.head].value, 'B');
    assert!(tape.cells[old_head].prev.is_some());
    assert!(tape.cells[tape.cells[old_head].prev.unwrap()].next == Some(old_head));
    assert_ne!(tape.head, old_head);
    assert_ne!(tape.first, old_first);
    assert_eq!(tape.first, tape.head);
    assert_eq!(tape.last, old_last);
}

#[test]
fn iterate_word_in_order() {
    // a tape built from a word yields the word's characters in order,
    // flagging the head on the leftmost cell
    let tape = TMTape::from("abc");
    let entries = collect(&tape);
    assert_eq!(entries, vec![('a', true), ('b', false), ('c', false)]);
}

#[test]
fn iterate_empty_word_single_blank() {
    // an empty word yields a single blank cell, which carries the head
    let tape = TMTape::from("");
    let entries = collect(&tape);
    assert_eq!(entries, vec![('B', true)]);
}

#[test]
fn right_then_left_round_trip() {
    // moving right and then left returns the head to the original cell and
    // symbol without touching the boundaries
    let mut tape = TMTape::from("abc");
    tape.move_head(&TMDirection::R);
    let old_first: usize = tape.first;
    let old_last: usize = tape.last;

    tape.move_head(&TMDirection::R);
    tape.move_head(&TMDirection::L);

    assert_eq!(tape.cells[tape.head].value, 'b');
    assert_eq!(tape.first, old_first);
    assert_eq!(tape.last, old_last);
    assert_eq!(collect(&tape), vec![('a', false), ('b', true), ('c', false)]);
}

#[test]
fn cleanup_twice_is_idempotent() {
    // after one cleanup pass, a second pass with no movement in between
    // changes nothing at all
    let mut tape = TMTape::from("a");

    // fake left movement to create a reclaimable blank
    let blank: usize = tape.cells.len();
    tape.cells.push(TMCell::blank());
    TMCell::prepend(&mut tape.cells, tape.head, blank);
    tape.first = blank;

    tape.cleanup();
    let first_after: usize = tape.first;
    let last_after: usize = tape.last;
    let head_after: usize = tape.head;
    let entries_after = collect(&tape);

    tape.cleanup();
    assert_eq!(tape.first, first_after);
    assert_eq!(tape.last, last_after);
    assert_eq!(tape.head, head_after);
    assert_eq!(collect(&tape), entries_after);
}

#[test]
fn grow_right_then_reclaim() {
    // moving right from the rightmost cell lengthens the range by exactly
    // one blank, the new head and new last; moving back left reclaims it
    let mut tape = TMTape::from("a");

    tape.move_head(&TMDirection::R);
    assert_eq!(collect(&tape), vec![('a', false), ('B', true)]);
    assert_eq!(tape.last, tape.head);

    tape.move_head(&TMDirection::L);
    assert_eq!(collect(&tape), vec![('a', true)]);
    assert_eq!(tape.last, tape.head);
    assert_eq!(tape.first, tape.head);
}

#[test]
fn grow_left_five_blanks() {
    // left-ward unbounded growth: five left moves from a single cell make
    // five blanks, each link-symmetric with its neighbour, and first tracks
    // the leftmost live cell
    let mut tape = TMTape::from("a");
    for _ in 0..5 {
        tape.move_head(&TMDirection::L);
        assert_eq!(tape.first, tape.head);
    }

    let entries = collect(&tape);
    assert_eq!(
        entries,
        vec![('B', true), ('B', false), ('B', false), ('B', false), ('B', false), ('a', false)]
    );

    // walk the chain and check link symmetry cell by cell
    let mut idx: usize = tape.first;
    while let Some(next) = tape.cells[idx].next {
        assert!(tape.cells[next].prev == Some(idx));
        idx = next;
    }
    assert_eq!(idx, tape.last);
}

#[test]
fn read_and_write_under_head() {
    let mut tape = TMTape::from("abc");
    assert_eq!(tape.read_value(), 'a');
    tape.set_value('z');
    assert_eq!(tape.read_value(), 'z');
    assert_eq!(collect(&tape), vec![('z', true), ('b', false), ('c', false)]);
}
