use tui_tree_widget::Tree;
use tui_tree_widget::TreeError;
use tui_tree_widget::TreeItem;

fn leaf(identifier: u64, text: &str) -> TreeItem {
    TreeItem::new_leaf(identifier, vec![text.to_string()])
}

const SAME: u64 = 11;
const ROOT: u64 = 12;

#[test]
#[should_panic]
fn tree_new_errors_with_duplicate_identifiers() {
    let a = leaf(SAME, "text");
    let b = a.clone();
    Tree::new(vec![a, b]).unwrap();
}

#[test]
#[should_panic]
fn tree_item_new_errors_with_duplicate_identifiers() {
    let item = leaf(SAME, "text");
    let another = item.clone();
    TreeItem::new(ROOT, vec!["Root".to_string()], vec![item, another]).unwrap();
}

#[test]
#[should_panic]
fn tree_item_add_child_errors_with_duplicate_identifiers() {
    let item = leaf(SAME, "text");
    let another = item.clone();
    let mut root = TreeItem::new(ROOT, vec!["Root".to_string()], vec![item]).unwrap();
    root.add_child(another).unwrap();
}

#[test]
fn tree_item_new_with_duplicates_reports_the_error() {
    let item = leaf(SAME, "text");
    let another = item.clone();
    let result = TreeItem::new(ROOT, vec!["Root".to_string()], vec![item, another]);
    assert!(matches!(result, Err(TreeError::DuplicateIdentifier)));
}

#[test]
fn tree_item_add_child_rejection_leaves_children_unchanged() {
    let item = leaf(SAME, "text");
    let another = leaf(SAME, "other");
    let mut root = TreeItem::new(ROOT, vec!["Root".to_string()], vec![item]).unwrap();
    let result = root.add_child(another);
    assert!(matches!(result, Err(TreeError::DuplicateIdentifier)));
    assert_eq!(root.children().len(), 1);
    assert_eq!(*root.children()[0].identifier(), SAME);
    assert_eq!(root.children()[0].content(), &vec!["text".to_string()]);
}

#[test]
fn tree_item_add_child_appends_in_order() {
    let mut root = TreeItem::new(ROOT, vec!["Root".to_string()], vec![leaf(1, "one")]).unwrap();
    root.add_child(leaf(2, "two")).unwrap();
    root.add_child(leaf(3, "three")).unwrap();
    let ids = root.children().iter().map(|c| *c.identifier()).collect::<Vec<_>>();
    assert_eq!(ids, [1, 2, 3]);
}

#[test]
fn tree_item_accessors_work() {
    let mut item = TreeItem::new(
        ROOT,
        vec!["first line".to_string(), "second line".to_string()],
        vec![leaf(1, "one"), leaf(2, "two")],
    )
    .unwrap();
    assert_eq!(*item.identifier(), ROOT);
    assert_eq!(item.content().len(), 2);
    assert_eq!(item.height(), 2);
    assert_eq!(item.children().len(), 2);
    assert_eq!(*item.child(0).unwrap().identifier(), 1);
    assert_eq!(*item.child(1).unwrap().identifier(), 2);
    assert!(item.child(2).is_none());
    assert_eq!(leaf(1, "one").height(), 1);

    item.child_mut(0).unwrap().add_child(leaf(3, "three")).unwrap();
    assert_eq!(item.child(0).unwrap().children().len(), 1);
    assert!(item.child_mut(9).is_none());
}

#[test]
fn tree_new_keeps_items_and_default_symbols() {
    let tree = Tree::new(vec![leaf(1, "one"), leaf(2, "two")]).unwrap();
    assert_eq!(tree.items.len(), 2);
    assert_eq!(tree.highlight_symbol, "");
    assert_eq!(tree.node_closed_symbol, "\u{25b6} ");
    assert_eq!(tree.node_open_symbol, "\u{25bc} ");
    assert_eq!(tree.node_no_children_symbol, "  ");
}

#[test]
fn tree_builders_replace_symbols() {
    let tree = Tree::new(vec![leaf(1, "one")])
        .unwrap()
        .highlight_symbol(">> ")
        .node_closed_symbol("+ ")
        .node_open_symbol("- ")
        .node_no_children_symbol(". ");
    assert_eq!(tree.highlight_symbol, ">> ");
    assert_eq!(tree.node_closed_symbol, "+ ");
    assert_eq!(tree.node_open_symbol, "- ");
    assert_eq!(tree.node_no_children_symbol, ". ");
    assert_eq!(tree.items.len(), 1);
}

#[test]
fn tree_item_clone_keeps_the_subtree() {
    let mut root = TreeItem::new(ROOT, vec!["Root".to_string()], vec![leaf(1, "one")]).unwrap();
    root.add_child(leaf(2, "two")).unwrap();
    let copy = root.clone();
    assert_eq!(copy.identifier(), root.identifier());
    assert_eq!(copy.content(), root.content());
    assert_eq!(copy.children().len(), 2);
    assert_eq!(*copy.children()[0].identifier(), 1);
    assert_eq!(copy.children()[1].content(), &vec!["two".to_string()]);
}
