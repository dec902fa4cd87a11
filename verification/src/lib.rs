//! A widget-independent core for showing tree data as a scrollable list.
//!
//! A tree of [`TreeItem`]s, together with the set of opened branches kept in a
//! [`TreeState`], is flattened into the ordered sequence of currently visible
//! rows; a viewport computation then picks the contiguous slice of that
//! sequence that fits in the available height while keeping the selected row
//! visible.

use vstd::prelude::*;

mod flatten;
mod identifier;
mod state;
mod tree_item;
mod viewport;

pub use state::TreeState;
pub use state::lemma_close_after_open;
pub use state::lemma_close_idempotent;
pub use state::lemma_open_idempotent;
pub use state::lemma_toggle_involutive;
pub use state::toggled;
pub use viewport::grow_end;
pub use viewport::height_sum;
pub use viewport::lemma_grow_end_fits;
pub use viewport::lemma_selected_index_bounds;
pub use viewport::lemma_shrink_start_least;
pub use viewport::position_from;
pub use viewport::selected_index;
pub use viewport::shrink_start;
pub use viewport::viewport_window;

pub use flatten::FlatRow;
pub use flatten::Flattened;
pub use flatten::flatten;
pub use flatten::flatten_rows;
pub use flatten::flatten_works;
pub use flatten::last_ids;
pub use flatten::lemma_flatten_nothing_open;
pub use flatten::lemma_flatten_paths_extend;
pub use flatten::lemma_flatten_rows_concat;
pub use flatten::rows_of;

pub use identifier::append;
pub use identifier::contains_path;
pub use identifier::get_without_leaf;
pub use identifier::get_without_leaf as get_identifier_without_leaf;
pub use identifier::path_eq;
pub use tree_item::NodeView;
pub use tree_item::TreeError;
pub use tree_item::TreeItem;
pub use tree_item::distinct_identifiers;
pub use tree_item::example_view;
pub use tree_item::forest_wf;
pub use tree_item::has_identifier;
pub use tree_item::lemma_views_of;
pub use tree_item::views_of;

verus! {

/// A tree ready to be shown: the root items and the symbols drawn in front
/// of each row. A renderer combines it with a [`TreeState`] to paint one
/// render pass.
pub struct Tree<'a> {
    pub items: Vec<TreeItem>,
    /// Symbol in front of the selected item.
    pub highlight_symbol: &'a str,
    /// Symbol in front of a closed node: children currently not visible.
    pub node_closed_symbol: &'a str,
    /// Symbol in front of an open node: children currently visible.
    pub node_open_symbol: &'a str,
    /// Symbol in front of a node without children.
    pub node_no_children_symbol: &'a str,
}

impl<'a> Tree<'a> {
    /// Create a new `Tree` from its root items, with the default symbols.
    ///
    /// Fails with [`TreeError::DuplicateIdentifier`] when two of the items
    /// share an identifier.
    pub fn new(items: Vec<TreeItem>) -> (r: Result<Self, TreeError>)
        ensures
            r is Ok <==> tree_item::distinct_identifiers(items.deep_view()),
            r is Ok ==> r->Ok_0.items == items && r->Ok_0.highlight_symbol@ == ""@
                && r->Ok_0.node_closed_symbol@ == "\u{25b6} "@ && r->Ok_0.node_open_symbol@
                == "\u{25bc} "@ && r->Ok_0.node_no_children_symbol@ == "  "@,
            r is Err ==> r->Err_0 == TreeError::DuplicateIdentifier,
    {
        if tree_item::contains_duplicate(&items) {
            Err(TreeError::DuplicateIdentifier)
        } else {
            Ok(Self {
                items,
                highlight_symbol: "",
                node_closed_symbol: "\u{25b6} ",  // Arrow to right
                node_open_symbol: "\u{25bc} ",  // Arrow down
                node_no_children_symbol: "  ",
            })
        }
    }

    /// Replace the symbol drawn in front of the selected item.
    pub fn highlight_symbol(self, highlight_symbol: &'a str) -> (r: Self)
        ensures
            r == (Tree { highlight_symbol, ..self }),
    {
        Self { highlight_symbol, ..self }
    }

    /// Replace the symbol drawn in front of a closed node.
    pub fn node_closed_symbol(self, symbol: &'a str) -> (r: Self)
        ensures
            r == (Tree { node_closed_symbol: symbol, ..self }),
    {
        Self { node_closed_symbol: symbol, ..self }
    }

    /// Replace the symbol drawn in front of an open node.
    pub fn node_open_symbol(self, symbol: &'a str) -> (r: Self)
        ensures
            r == (Tree { node_open_symbol: symbol, ..self }),
    {
        Self { node_open_symbol: symbol, ..self }
    }

    /// Replace the symbol drawn in front of a node without children.
    pub fn node_no_children_symbol(self, symbol: &'a str) -> (r: Self)
        ensures
            r == (Tree { node_no_children_symbol: symbol, ..self }),
    {
        Self { node_no_children_symbol: symbol, ..self }
    }
}

} // verus!
