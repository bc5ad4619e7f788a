use game_of_life::Cell;

#[test]
fn three_neighbors_give_life() {
    assert_eq!(Cell::Dead.next(3), Cell::Live);
    assert_eq!(Cell::Live.next(3), Cell::Live);
}

#[test]
fn two_neighbors_keep_the_cell() {
    assert_eq!(Cell::Dead.next(2), Cell::Dead);
    assert_eq!(Cell::Live.next(2), Cell::Live);
}

#[test]
fn any_other_count_leaves_the_cell_dead() {
    for n in [0u8, 1, 4, 5, 6, 7, 8] {
        assert_eq!(Cell::Dead.next(n), Cell::Dead);
        assert_eq!(Cell::Live.next(n), Cell::Dead);
    }
}

#[test]
fn cells_compare_and_copy() {
    let c = Cell::Live;
    let d = c;
    assert_eq!(c, d);
    assert_ne!(Cell::Live, Cell::Dead);
    assert_eq!(format!("{:?}", Cell::Dead), "Dead");
}
