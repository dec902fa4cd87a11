use tui_tree_widget::Flattened;
use tui_tree_widget::TreeItem;
use tui_tree_widget::flatten;
use tui_tree_widget::flatten_works;

/// Identifiers of the example tree, in order: Alfa 1, Bravo 2, Charlie 3,
/// Delta 4, Echo 5, Foxtrot 6, Golf 7, Hotel 8.
const ALFA: u64 = 1;
const BRAVO: u64 = 2;
const CHARLIE: u64 = 3;
const DELTA: u64 = 4;
const ECHO: u64 = 5;
const FOXTROT: u64 = 6;
const GOLF: u64 = 7;
const HOTEL: u64 = 8;

#[test]
fn depth_works() {
    let open = vec![vec![BRAVO], vec![BRAVO, DELTA]];
    let items = TreeItem::example();
    let depths = flatten(&open, &items, &Vec::new())
        .iter()
        .map(Flattened::depth)
        .collect::<Vec<_>>();
    assert_eq!(depths, [0, 0, 1, 1, 2, 2, 1, 0]);
}

#[test]
fn flatten_nothing_open_is_top_level() {
    let open = Vec::new();
    assert!(flatten_works(&open, &vec![ALFA, BRAVO, HOTEL]));
}

#[test]
fn flatten_wrong_open_is_only_top_level() {
    let open = vec![vec![ALFA], vec![BRAVO, DELTA]];
    assert!(flatten_works(&open, &vec![ALFA, BRAVO, HOTEL]));
}

#[test]
fn flatten_one_is_open() {
    let open = vec![vec![BRAVO]];
    assert!(flatten_works(&open, &vec![ALFA, BRAVO, CHARLIE, DELTA, GOLF, HOTEL]));
}

#[test]
fn flatten_all_open() {
    let open = vec![vec![BRAVO], vec![BRAVO, DELTA]];
    assert!(flatten_works(
        &open,
        &vec![ALFA, BRAVO, CHARLIE, DELTA, ECHO, FOXTROT, GOLF, HOTEL],
    ));
}

#[test]
fn flatten_rows_carry_full_paths() {
    let open = vec![vec![BRAVO]];
    let items = TreeItem::example();
    let rows = flatten(&open, &items, &Vec::new());
    let paths = rows.iter().map(|row| row.identifier.clone()).collect::<Vec<_>>();
    assert_eq!(
        paths,
        [
            vec![ALFA],
            vec![BRAVO],
            vec![BRAVO, CHARLIE],
            vec![BRAVO, DELTA],
            vec![BRAVO, GOLF],
            vec![HOTEL],
        ],
    );
}

#[test]
fn flatten_rows_reference_their_items() {
    let open = Vec::new();
    let items = TreeItem::example();
    let rows = flatten(&open, &items, &Vec::new());
    assert_eq!(rows.len(), 3);
    assert_eq!(*rows[0].item.identifier(), ALFA);
    assert_eq!(rows[0].item.content(), &vec!["Alfa".to_string()]);
    assert_eq!(*rows[1].item.identifier(), BRAVO);
    assert_eq!(rows[1].item.children().len(), 3);
    assert_eq!(*rows[2].item.identifier(), HOTEL);
}

#[test]
fn flatten_mismatched_expectation_is_rejected() {
    let open = Vec::new();
    assert!(!flatten_works(&open, &vec![ALFA, BRAVO]));
    assert!(!flatten_works(&open, &vec![ALFA, BRAVO, GOLF]));
}

#[test]
fn flatten_empty_tree_is_empty() {
    let open = vec![vec![BRAVO]];
    let items: Vec<TreeItem> = Vec::new();
    let rows = flatten(&open, &items, &Vec::new());
    assert!(rows.is_empty());
}

#[test]
fn flatten_open_leaf_adds_nothing() {
    // A path in the opened set whose node has no children is a harmless no-op.
    let open = vec![vec![ALFA]];
    assert!(flatten_works(&open, &vec![ALFA, BRAVO, HOTEL]));
}
