use asset_cli::Selection;

#[test]
fn selection_starts_at_zero() {
    let s = Selection::initial();
    assert_eq!(s.index, 0);
}

#[test]
fn navigate_down_wraps_past_last_row() {
    let mut s = Selection::initial();
    s.on_navigate_down(3);
    assert_eq!(s.index, 1);
    s.on_navigate_down(3);
    assert_eq!(s.index, 2);
    s.on_navigate_down(3);
    assert_eq!(s.index, 0);
}

#[test]
fn navigate_down_full_cycle_returns_to_start() {
    let mut s = Selection::initial();
    s.on_navigate_down(5);
    assert_eq!(s.index, 1);
    for _ in 0..5 {
        s.on_navigate_down(5);
    }
    assert_eq!(s.index, 1);
}

#[test]
fn navigate_up_wraps_to_last_row() {
    let mut s = Selection::initial();
    assert_eq!(s.index, 0);
    s.on_navigate_up(3);
    assert_eq!(s.index, 2);
}

#[test]
fn navigate_up_then_down_is_identity() {
    let mut s = Selection::initial();
    s.on_navigate_down(4);
    s.on_navigate_down(4);
    assert_eq!(s.index, 2);
    s.on_navigate_up(4);
    s.on_navigate_down(4);
    assert_eq!(s.index, 2);
    s.on_navigate_down(4);
    s.on_navigate_up(4);
    assert_eq!(s.index, 2);
}

#[test]
fn navigation_on_empty_collection_is_a_no_op() {
    let mut s = Selection::initial();
    s.on_navigate_down(0);
    assert_eq!(s.index, 0);
    s.on_navigate_up(0);
    assert_eq!(s.index, 0);
}

#[test]
fn remove_moves_selection_to_previous_row() {
    let mut s = Selection::initial();
    s.on_remove(2);
    assert_eq!(s.index, 1);
    s.on_remove(0);
    assert_eq!(s.index, 0);
}

#[test]
fn add_keeps_selection() {
    let mut s = Selection::initial();
    s.on_navigate_down(3);
    s.on_add();
    assert_eq!(s.index, 1);
}
