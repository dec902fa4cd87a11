use tui_tree_widget::TreeItem;
use tui_tree_widget::TreeState;
use tui_tree_widget::append;
use tui_tree_widget::contains_path;
use tui_tree_widget::get_without_leaf;
use tui_tree_widget::path_eq;

const BRAVO: u64 = 2;
const DELTA: u64 = 4;

fn last_ids(state: &TreeState, items: &Vec<TreeItem>) -> Vec<u64> {
    state
        .flatten(items)
        .iter()
        .map(|row| *row.identifier.last().unwrap())
        .collect()
}

#[test]
fn open_and_close_are_idempotent() {
    let mut state = TreeState::default();
    assert!(state.open(vec![BRAVO]));
    assert!(!state.open(vec![BRAVO]));
    assert_eq!(state.opened.len(), 1);
    assert!(state.close(&vec![BRAVO]));
    assert!(!state.close(&vec![BRAVO]));
    assert!(state.opened.is_empty());
}

#[test]
fn toggle_is_its_own_inverse() {
    let mut state = TreeState::default();
    state.toggle(vec![BRAVO, DELTA]);
    assert_eq!(state.opened, vec![vec![BRAVO, DELTA]]);
    state.toggle(vec![BRAVO, DELTA]);
    assert!(state.opened.is_empty());
}

#[test]
fn close_after_open_flattens_as_never_opened() {
    let items = TreeItem::example();
    let mut state = TreeState::default();
    state.open(vec![DELTA]);
    let before = last_ids(&state, &items);
    state.open(vec![BRAVO]);
    state.close(&vec![BRAVO]);
    assert_eq!(last_ids(&state, &items), before);
}

#[test]
fn select_arms_the_reveal_flag() {
    let mut state = TreeState::default();
    assert!(!state.ensure_selected_in_view_on_next_render);
    state.select(vec![BRAVO, DELTA]);
    assert_eq!(state.selected, vec![BRAVO, DELTA]);
    assert!(state.ensure_selected_in_view_on_next_render);
}

#[test]
fn scrolling_moves_the_offset_one_row_without_touching_the_flag() {
    let mut state = TreeState::default();
    state.scroll_up();
    assert_eq!(state.offset, 0);
    state.scroll_down();
    state.scroll_down();
    assert_eq!(state.offset, 2);
    state.scroll_up();
    assert_eq!(state.offset, 1);
    assert!(!state.ensure_selected_in_view_on_next_render);
}

#[test]
fn state_flatten_follows_the_opened_set() {
    let items = TreeItem::example();
    let mut state = TreeState::default();
    assert_eq!(last_ids(&state, &items), [1, 2, 8]);
    state.open(vec![BRAVO]);
    assert_eq!(last_ids(&state, &items), [1, 2, 3, 4, 7, 8]);
    state.open(vec![BRAVO, DELTA]);
    assert_eq!(last_ids(&state, &items), [1, 2, 3, 4, 5, 6, 7, 8]);
}

#[test]
fn path_utilities_work() {
    let path = vec![BRAVO, DELTA];
    assert!(path_eq(&path, &vec![BRAVO, DELTA]));
    assert!(!path_eq(&path, &vec![BRAVO]));
    assert!(!path_eq(&path, &vec![BRAVO, BRAVO]));
    assert_eq!(append(&path, 6), vec![BRAVO, DELTA, 6]);
    assert_eq!(get_without_leaf(&path), Some(vec![BRAVO]));
    assert_eq!(get_without_leaf(&vec![BRAVO]), None);
    assert_eq!(get_without_leaf(&Vec::new()), None);
    assert!(contains_path(&vec![vec![BRAVO], path.clone()], &path));
    assert!(!contains_path(&vec![vec![BRAVO]], &path));
}
