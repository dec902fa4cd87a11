use tui_tree_widget::TreeItem;
use tui_tree_widget::TreeState;

const BRAVO: u64 = 2;
const DELTA: u64 = 4;
const FOXTROT: u64 = 6;

fn leaf(identifier: u64, lines: usize) -> TreeItem {
    TreeItem::new_leaf(identifier, vec!["x".to_string(); lines])
}

/// The fully opened example tree shows eight rows of height one.
fn example_all_open() -> (Vec<TreeItem>, TreeState) {
    let items = TreeItem::example();
    let mut state = TreeState::default();
    state.open(vec![BRAVO]);
    state.open(vec![BRAVO, DELTA]);
    (items, state)
}

#[test]
fn selecting_below_the_window_scrolls_just_enough() {
    // Eight visible rows of height one, three fit. Selecting Foxtrot, the
    // sixth row, moves the offset forward until it is the last visible row.
    let (items, mut state) = example_all_open();
    state.select(vec![BRAVO, DELTA, FOXTROT]);
    let visible = state.flatten(&items);
    let (start, end) = state.update_viewport(&visible, 3);
    assert_eq!((start, end), (3, 6));
    assert_eq!(state.offset, 3);
    assert!(!state.ensure_selected_in_view_on_next_render);
}

#[test]
fn reveal_keeps_the_selection_inside_the_window() {
    // Rows of height two, a window of two lines: after the reveal the
    // selected row alone fills the window.
    let items = vec![leaf(1, 2), leaf(2, 2), leaf(3, 2)];
    let mut state = TreeState::default();
    state.select(vec![3]);
    let visible = state.flatten(&items);
    let (start, end) = state.update_viewport(&visible, 2);
    assert_eq!((start, end), (2, 3));
    assert_eq!(state.offset, 2);
}

#[test]
fn offset_is_clamped_to_the_rows() {
    let items = TreeItem::example();
    let mut state = TreeState::default();
    state.offset = 100;
    let visible = state.flatten(&items);
    let (start, end) = state.update_viewport(&visible, 10);
    assert_eq!((start, end), (2, 3));
    assert_eq!(state.offset, 2);
}

#[test]
fn empty_rows_leave_the_state_untouched() {
    let items: Vec<TreeItem> = Vec::new();
    let mut state = TreeState::default();
    state.offset = 5;
    state.select(vec![BRAVO]);
    let visible = state.flatten(&items);
    let window = state.update_viewport(&visible, 10);
    assert_eq!(window, (0, 0));
    assert_eq!(state.offset, 5);
    assert!(state.ensure_selected_in_view_on_next_render);
}

#[test]
fn zero_height_leaves_the_state_untouched() {
    let (items, mut state) = example_all_open();
    state.offset = 4;
    let visible = state.flatten(&items);
    let window = state.update_viewport(&visible, 0);
    assert_eq!(window, (0, 0));
    assert_eq!(state.offset, 4);
}

#[test]
fn stale_selection_defaults_to_the_top_row() {
    let items = TreeItem::example();
    let mut state = TreeState::default();
    // Select a row that is not visible while Bravo stays closed.
    state.select(vec![BRAVO, DELTA]);
    state.offset = 2;
    let visible = state.flatten(&items);
    let (start, end) = state.update_viewport(&visible, 2);
    assert_eq!((start, end), (0, 2));
    assert_eq!(state.offset, 0);
}

#[test]
fn empty_selection_is_treated_as_the_top_row() {
    let items = TreeItem::example();
    let mut state = TreeState::default();
    state.offset = 1;
    let visible = state.flatten(&items);
    let (start, end) = state.update_viewport(&visible, 2);
    assert_eq!((start, end), (1, 3));
    assert_eq!(state.offset, 1);
}

#[test]
fn window_fills_greedily_with_mixed_heights() {
    // Heights 1, 2, 3: with four lines only the first two rows fit whole.
    let items = vec![leaf(1, 1), leaf(2, 2), leaf(3, 3)];
    let state_rows = TreeState::default().flatten(&items);
    let mut state = TreeState::default();
    let (start, end) = state.update_viewport(&state_rows, 4);
    assert_eq!((start, end), (0, 2));
    assert_eq!(state.offset, 0);
}

#[test]
fn scrolling_down_then_rendering_moves_the_window() {
    let (items, mut state) = example_all_open();
    state.scroll_down();
    state.scroll_down();
    let visible = state.flatten(&items);
    let (start, end) = state.update_viewport(&visible, 3);
    assert_eq!((start, end), (2, 5));
    assert_eq!(state.offset, 2);
}
