//! The user interaction state of a tree: the opened branches, the selected
//! row, and the scroll position, kept across render passes.

use vstd::prelude::*;

use crate::flatten::Flattened;
use crate::flatten::flatten_rows;
use crate::flatten::rows_of;
use crate::identifier::contains_path;
use crate::identifier::path_eq;
use crate::tree_item::TreeItem;

verus! {

/// Keeps the state of what is opened, selected and scrolled. Created once by
/// the host and handed to every render pass; only explicit operations and the
/// viewport computation change it.
pub struct TreeState {
    /// The paths whose children are currently shown, without repetition.
    pub opened: Vec<Vec<u64>>,
    /// The path of the selected row; empty when nothing is selected.
    pub selected: Vec<u64>,
    /// Index into the flattened sequence of the topmost visible row.
    pub offset: usize,
    /// Forces the next viewport computation to scroll until the selected row
    /// is visible.
    pub ensure_selected_in_view_on_next_render: bool,
}

/// What toggling does to the set of opened paths: an opened path is closed,
/// a closed one is opened.
pub open spec fn toggled(expanded: Set<Seq<u64>>, path: Seq<u64>) -> Set<Seq<u64>> {
    if expanded.contains(path) {
        expanded.remove(path)
    } else {
        expanded.insert(path)
    }
}

/// Opening a branch twice is the same as opening it once.
pub proof fn lemma_open_idempotent(expanded: Set<Seq<u64>>, path: Seq<u64>)
    ensures
        expanded.insert(path).insert(path) == expanded.insert(path),
{
    assert(expanded.insert(path).insert(path) =~= expanded.insert(path));
}

/// Closing a branch twice is the same as closing it once.
pub proof fn lemma_close_idempotent(expanded: Set<Seq<u64>>, path: Seq<u64>)
    ensures
        expanded.remove(path).remove(path) == expanded.remove(path),
{
    assert(expanded.remove(path).remove(path) =~= expanded.remove(path));
}

/// Toggling a branch twice returns the opened set to where it started.
pub proof fn lemma_toggle_involutive(expanded: Set<Seq<u64>>, path: Seq<u64>)
    ensures
        toggled(toggled(expanded, path), path) == expanded,
{
    if expanded.contains(path) {
        assert(toggled(toggled(expanded, path), path) =~= expanded);
    } else {
        assert(toggled(toggled(expanded, path), path) =~= expanded);
    }
}

/// Opening a branch that was not open and closing it again flattens every
/// tree as if it had never been opened.
pub proof fn lemma_close_after_open(
    items: Seq<crate::tree_item::NodeView>,
    expanded: Set<Seq<u64>>,
    path: Seq<u64>,
    prefix: Seq<u64>,
)
    requires
        !expanded.contains(path),
    ensures
        flatten_rows(items, expanded.insert(path).remove(path), prefix) == flatten_rows(
            items,
            expanded,
            prefix,
        ),
{
    assert(expanded.insert(path).remove(path) =~= expanded);
}

/// Appending a path to a sequence of paths inserts it into the path set.
proof fn lemma_to_set_push(paths: Seq<Seq<u64>>, p: Seq<u64>)
    ensures
        paths.push(p).to_set() == paths.to_set().insert(p),
{
    assert forall|x: Seq<u64>| #[trigger] paths.push(p).to_set().contains(x) implies paths.to_set().insert(p).contains(x) by {
        let i = choose|i: int| 0 <= i < paths.push(p).len() && paths.push(p)[i] == x;
        if i < paths.len() {
            assert(paths[i] == x);
        }
    }
    assert forall|x: Seq<u64>| #[trigger] paths.to_set().insert(p).contains(x) implies paths.push(p).to_set().contains(x) by {
        if x == p {
            assert(paths.push(p)[paths.len() as int] == x);
        } else {
            let i = choose|i: int| 0 <= i < paths.len() && paths[i] == x;
            assert(paths.push(p)[i] == x);
        }
    }
    assert(paths.push(p).to_set() =~= paths.to_set().insert(p));
}

/// Removing the only occurrence of a path from a sequence of paths removes it
/// from the path set and keeps the remaining paths free of repetition.
proof fn lemma_to_set_remove(paths: Seq<Seq<u64>>, i: int)
    requires
        0 <= i < paths.len(),
        forall|p: int, q: int| 0 <= p < q < paths.len() ==> paths[p] != paths[q],
    ensures
        paths.remove(i).to_set() == paths.to_set().remove(paths[i]),
        forall|p: int, q: int|
            0 <= p < q < paths.remove(i).len() ==> paths.remove(i)[p] != paths.remove(i)[q],
{
    let removed = paths.remove(i);
    assert forall|x: Seq<u64>| #[trigger] removed.to_set().contains(x) implies paths.to_set().remove(paths[i]).contains(x) by {
        let j = choose|j: int| 0 <= j < removed.len() && removed[j] == x;
        if j < i {
            assert(paths[j] == x);
        } else {
            assert(paths[j + 1] == x);
        }
    }
    assert forall|x: Seq<u64>| #[trigger] paths.to_set().remove(paths[i]).contains(x) implies removed.to_set().contains(x) by {
        let j = choose|j: int| 0 <= j < paths.len() && paths[j] == x;
        if j < i {
            assert(removed[j] == x);
        } else {
            assert(j != i);
            assert(removed[j - 1] == x);
        }
    }
    assert(removed.to_set() =~= paths.to_set().remove(paths[i]));
}

impl TreeState {
    /// The set of opened paths: the branches whose children are shown.
    pub open spec fn expanded(self) -> Set<Seq<u64>> {
        self.opened.deep_view().to_set()
    }

    /// The opened paths hold no repetition, so removing one occurrence of a
    /// path removes the path from the set.
    pub open spec fn wf(self) -> bool {
        forall|i: int, j: int|
            0 <= i < j < self.opened.deep_view().len() ==> self.opened.deep_view()[i]
                != self.opened.deep_view()[j]
    }

    /// A fresh state: nothing opened, nothing selected, scrolled to the top.
    pub fn new() -> (r: Self)
        ensures
            r.wf(),
            r.expanded() == Set::<Seq<u64>>::empty(),
            r.selected@.len() == 0,
            r.offset == 0,
            !r.ensure_selected_in_view_on_next_render,
    {
        let r = Self {
            opened: Vec::new(),
            selected: Vec::new(),
            offset: 0,
            ensure_selected_in_view_on_next_render: false,
        };
        proof {
            assert(r.expanded() =~= Set::<Seq<u64>>::empty());
        }
        r
    }

    /// Open the branch at `path`: its children become visible. Opening an
    /// already open branch changes nothing. Returns whether the set changed.
    pub fn open(&mut self, path: Vec<u64>) -> (changed: bool)
        requires
            old(self).wf(),
        ensures
            final(self).wf(),
            final(self).expanded() == old(self).expanded().insert(path@),
            changed <==> !old(self).expanded().contains(path@),
            final(self).selected == old(self).selected,
            final(self).offset == old(self).offset,
            final(self).ensure_selected_in_view_on_next_render == old(
                self,
            ).ensure_selected_in_view_on_next_render,
    {
        if contains_path(&self.opened, &path) {
            proof {
                assert(old(self).expanded().insert(path@) =~= old(self).expanded());
            }
            false
        } else {
            self.opened.push(path);
            proof {
                assert(self.opened.deep_view() =~~= old(self).opened.deep_view().push(path@));
                lemma_to_set_push(old(self).opened.deep_view(), path@);
            }
            true
        }
    }

    /// Close the branch at `path`: its children are hidden. Closing a branch
    /// that is not open changes nothing. Returns whether the set changed.
    pub fn close(&mut self, path: &Vec<u64>) -> (changed: bool)
        requires
            old(self).wf(),
        ensures
            final(self).wf(),
            final(self).expanded() == old(self).expanded().remove(path@),
            changed <==> old(self).expanded().contains(path@),
            final(self).selected == old(self).selected,
            final(self).offset == old(self).offset,
            final(self).ensure_selected_in_view_on_next_render == old(
                self,
            ).ensure_selected_in_view_on_next_render,
    {
        let n = self.opened.len();
        for i in 0..n
            invariant
                n == self.opened@.len(),
                *self == *old(self),
                old(self).wf(),
                forall|k: int| 0 <= k < i ==> self.opened.deep_view()[k] != path@,
        {
            if path_eq(&self.opened[i], path) {
                proof {
                    assert(self.opened.deep_view()[i as int] == path@);
                }
                self.opened.remove(i);
                proof {
                    assert(self.opened.deep_view() =~~= old(self).opened.deep_view().remove(
                        i as int,
                    ));
                    lemma_to_set_remove(old(self).opened.deep_view(), i as int);
                }
                return true;
            }
            proof {
                assert(self.opened.deep_view()[i as int] == self.opened@[i as int]@);
            }
        }
        proof {
            assert(!old(self).opened.deep_view().contains(path@));
            assert(old(self).expanded().remove(path@) =~= old(self).expanded());
        }
        false
    }

    /// Open the branch at `path` when it is closed, close it when it is open.
    pub fn toggle(&mut self, path: Vec<u64>)
        requires
            old(self).wf(),
        ensures
            final(self).wf(),
            final(self).expanded() == toggled(old(self).expanded(), path@),
            final(self).selected == old(self).selected,
            final(self).offset == old(self).offset,
            final(self).ensure_selected_in_view_on_next_render == old(
                self,
            ).ensure_selected_in_view_on_next_render,
    {
        if contains_path(&self.opened, &path) {
            self.close(&path);
        } else {
            self.open(path);
        }
    }

    /// Select the row at `path`; an empty path clears the selection. Arms the
    /// reveal flag: the next viewport computation scrolls until the selected
    /// row is visible.
    pub fn select(&mut self, path: Vec<u64>)
        ensures
            final(self).selected == path,
            final(self).ensure_selected_in_view_on_next_render,
            final(self).opened == old(self).opened,
            final(self).offset == old(self).offset,
    {
        self.selected = path;
        self.ensure_selected_in_view_on_next_render = true;
    }

    /// Move the viewport up one row, saturating at the top. The reveal flag
    /// is left as it is.
    pub fn scroll_up(&mut self)
        ensures
            old(self).offset == 0 ==> final(self).offset == 0,
            old(self).offset > 0 ==> final(self).offset == old(self).offset - 1,
            final(self).opened == old(self).opened,
            final(self).selected == old(self).selected,
            final(self).ensure_selected_in_view_on_next_render == old(
                self,
            ).ensure_selected_in_view_on_next_render,
    {
        self.offset = if self.offset > 0 {
            self.offset - 1
        } else {
            0
        };
    }

    /// Move the viewport down one row; the viewport computation clamps the
    /// offset to the flattened sequence. The reveal flag is left as it is.
    pub fn scroll_down(&mut self)
        ensures
            old(self).offset == usize::MAX ==> final(self).offset == usize::MAX,
            old(self).offset < usize::MAX ==> final(self).offset == old(self).offset + 1,
            final(self).opened == old(self).opened,
            final(self).selected == old(self).selected,
            final(self).ensure_selected_in_view_on_next_render == old(
                self,
            ).ensure_selected_in_view_on_next_render,
    {
        self.offset = if self.offset < usize::MAX {
            self.offset + 1
        } else {
            usize::MAX
        };
    }

    /// Get a flat list of all visible [`TreeItem`]s under this state's opened
    /// paths.
    pub fn flatten<'a>(&self, items: &'a Vec<TreeItem>) -> (r: Vec<Flattened<'a>>)
        ensures
            rows_of(r@) == flatten_rows(items.deep_view(), self.expanded(), Seq::<u64>::empty()),
    {
        let current: Vec<u64> = Vec::new();
        crate::flatten::flatten(&self.opened, items, &current)
    }
}

impl Default for TreeState {
    /// A fresh state, as [`TreeState::new`] builds it.
    fn default() -> (r: Self)
        ensures
            r.wf(),
            r.expanded() == Set::<Seq<u64>>::empty(),
            r.selected@.len() == 0,
            r.offset == 0,
            !r.ensure_selected_in_view_on_next_render,
    {
        Self::new()
    }
}

} // verus!
