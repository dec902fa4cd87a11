//! Flattening: turning a tree plus the set of opened paths into the ordered
//! sequence of currently visible rows.

use vstd::prelude::*;

use crate::identifier::append;
use crate::identifier::contains_path;
use crate::tree_item::NodeView;
use crate::tree_item::TreeItem;
use crate::tree_item::example_view;
use crate::tree_item::lemma_views_of;

verus! {

/// A flattened item of all visible [`TreeItem`]s: the item's full path and a
/// reference to the item itself.
pub struct Flattened<'a> {
    pub identifier: Vec<u64>,
    pub item: &'a TreeItem,
}

/// The abstract value of a visible row: its path and the node it shows.
pub struct FlatRow {
    pub path: Seq<u64>,
    pub node: NodeView,
}

impl FlatRow {
    /// The number of text lines the row occupies on screen.
    pub open spec fn height(self) -> nat {
        self.node.height()
    }
}

impl<'a> View for Flattened<'a> {
    type V = FlatRow;

    open spec fn view(&self) -> FlatRow {
        FlatRow { path: self.identifier@, node: self.item.as_view() }
    }
}

/// The abstract values of a sequence of visible rows.
pub open spec fn rows_of<'a>(visible: Seq<Flattened<'a>>) -> Seq<FlatRow> {
    visible.map_values(|f: Flattened<'a>| f@)
}

impl<'a> Flattened<'a> {
    /// Zero based depth. Depth 0 means top level with 0 indentation.
    pub fn depth(&self) -> (r: usize)
        requires
            self@.path.len() >= 1,
        ensures
            r == self@.path.len() - 1,
    {
        self.identifier.len() - 1
    }
}

/// The visible rows of the trees `items` under the opened paths `expanded`,
/// in depth-first, pre-order: each node's row, then — only when its path is
/// opened — the rows of its children, then its later siblings. `prefix` is
/// the path leading to `items`.
pub open spec fn flatten_rows(
    items: Seq<NodeView>,
    expanded: Set<Seq<u64>>,
    prefix: Seq<u64>,
) -> Seq<FlatRow>
    decreases items,
{
    if items.len() == 0 {
        Seq::empty()
    } else {
        let node = items[0];
        let path = prefix.push(node.id);
        let below = if expanded.contains(path) {
            flatten_rows(node.children, expanded, path)
        } else {
            Seq::empty()
        };
        seq![FlatRow { path, node }] + below + flatten_rows(items.drop_first(), expanded, prefix)
    }
}

/// Flattening a concatenation of forests flattens each in turn.
pub proof fn lemma_flatten_rows_concat(
    s1: Seq<NodeView>,
    s2: Seq<NodeView>,
    expanded: Set<Seq<u64>>,
    prefix: Seq<u64>,
)
    ensures
        flatten_rows(s1 + s2, expanded, prefix) == flatten_rows(s1, expanded, prefix)
            + flatten_rows(s2, expanded, prefix),
    decreases s1.len(),
{
    if s1.len() == 0 {
        assert(s1 + s2 =~= s2);
        assert(flatten_rows(s1, expanded, prefix) + flatten_rows(s2, expanded, prefix) =~= flatten_rows(
            s2,
            expanded,
            prefix,
        ));
    } else {
        assert((s1 + s2).drop_first() =~= s1.drop_first() + s2);
        lemma_flatten_rows_concat(s1.drop_first(), s2, expanded, prefix);
        assert(flatten_rows(s1 + s2, expanded, prefix) =~= flatten_rows(s1, expanded, prefix)
            + flatten_rows(s2, expanded, prefix));
    }
}

/// With nothing opened, flattening shows exactly the root-level nodes, in
/// input order, each under the path `prefix` plus its own identifier — with
/// an empty prefix, each at depth 0.
pub proof fn lemma_flatten_nothing_open(items: Seq<NodeView>, prefix: Seq<u64>)
    ensures
        flatten_rows(items, Set::empty(), prefix).len() == items.len(),
        forall|i: int|
            0 <= i < items.len() ==> flatten_rows(items, Set::empty(), prefix)[i] == (FlatRow {
                path: prefix.push(items[i].id),
                node: items[i],
            }),
    decreases items.len(),
{
    if items.len() > 0 {
        lemma_flatten_nothing_open(items.drop_first(), prefix);
        let head = FlatRow { path: prefix.push(items[0].id), node: items[0] };
        assert(!Set::<Seq<u64>>::empty().contains(prefix.push(items[0].id)));
        assert(flatten_rows(items, Set::empty(), prefix) =~= seq![head] + flatten_rows(
            items.drop_first(),
            Set::empty(),
            prefix,
        ));
        assert forall|i: int| 0 <= i < items.len() implies flatten_rows(items, Set::empty(), prefix)[i]
            == (FlatRow { path: prefix.push(items[i].id), node: items[i] }) by {
            if i > 0 {
                assert(items.drop_first()[i - 1] == items[i]);
            }
        }
    }
}

/// Every flattened row's path strictly extends the prefix, so each row's
/// depth — its path's length less one — is defined, and rows keep the prefix
/// they were flattened under.
pub proof fn lemma_flatten_paths_extend(items: Seq<NodeView>, expanded: Set<Seq<u64>>, prefix: Seq<u64>)
    ensures
        forall|i: int|
            0 <= i < flatten_rows(items, expanded, prefix).len() ==> (#[trigger] flatten_rows(
                items,
                expanded,
                prefix,
            )[i]).path.len() > prefix.len() && flatten_rows(items, expanded, prefix)[i].path.subrange(
                0,
                prefix.len() as int,
            ) == prefix,
    decreases items,
{
    if items.len() > 0 {
        let node = items[0];
        let path = prefix.push(node.id);
        let rows = flatten_rows(items, expanded, prefix);
        let below = if expanded.contains(path) {
            flatten_rows(node.children, expanded, path)
        } else {
            Seq::<FlatRow>::empty()
        };
        let tail = flatten_rows(items.drop_first(), expanded, prefix);
        lemma_flatten_paths_extend(node.children, expanded, path);
        lemma_flatten_paths_extend(items.drop_first(), expanded, prefix);
        assert(path.subrange(0, prefix.len() as int) =~= prefix);
        assert forall|i: int| 0 <= i < rows.len() implies (#[trigger] rows[i]).path.len()
            > prefix.len() && rows[i].path.subrange(0, prefix.len() as int) == prefix by {
            if i == 0 {
                assert(rows[0].path == path);
            } else if i <= below.len() {
                assert(rows[i] == below[i - 1]);
                assert(below[i - 1].path.subrange(0, path.len() as int) == path);
                assert(below[i - 1].path.subrange(0, prefix.len() as int) =~= below[i
                    - 1].path.subrange(0, path.len() as int).subrange(0, prefix.len() as int));
            } else {
                assert(rows[i] == tail[i - 1 - below.len()]);
            }
        }
    }
}

/// Get a flat list of all visible [`TreeItem`]s.
///
/// `current` starts empty: `&Vec::new()`
pub fn flatten<'a>(
    open_identifiers: &Vec<Vec<u64>>,
    items: &'a Vec<TreeItem>,
    current: &Vec<u64>,
) -> (r: Vec<Flattened<'a>>)
    ensures
        rows_of(r@) == flatten_rows(items.deep_view(), open_identifiers.deep_view().to_set(), current@),
    decreases items@,
{
    let ghost expanded = open_identifiers.deep_view().to_set();
    let mut result: Vec<Flattened<'a>> = Vec::new();
    let n = items.len();
    for i in 0..n
        invariant
            n == items@.len(),
            rows_of(result@) == flatten_rows(items.deep_view().take(i as int), expanded, current@),
            expanded == open_identifiers.deep_view().to_set(),
    {
        let item = &items[i];
        proof {
            assert(items.deep_view()[i as int] == items@[i as int].as_view());
            lemma_views_of(item.children@);
            assert(item.children.deep_view() =~= items.deep_view()[i as int].children);
        }
        let child_identifier = append(current, item.identifier);
        let below = if contains_path(open_identifiers, &child_identifier) {
            proof {
                assert(decreases_to!(items@ => items@[i as int]));
                assert(decreases_to!(items@[i as int] => item.children@));
            }
            Some(flatten(open_identifiers, &item.children, &child_identifier))
        } else {
            None
        };
        let ghost result_before = result@;
        result.push(Flattened { identifier: child_identifier, item });
        let ghost pushed = result@;
        if let Some(mut rows) = below {
            result.append(&mut rows);
        }
        proof {
            let node = items.deep_view()[i as int];
            let path = current@.push(node.id);
            let head = FlatRow { path, node };
            let kids = if expanded.contains(path) {
                flatten_rows(node.children, expanded, path)
            } else {
                Seq::<FlatRow>::empty()
            };
            assert(rows_of(result@) =~= rows_of(result_before) + seq![head] + kids);
            assert(items.deep_view().take(i + 1) =~= items.deep_view().take(i as int)
                + seq![node]);
            lemma_flatten_rows_concat(
                items.deep_view().take(i as int),
                seq![node],
                expanded,
                current@,
            );
            assert(seq![node][0] == node);
            assert(seq![node].drop_first() =~= Seq::<NodeView>::empty());
            assert(flatten_rows(Seq::<NodeView>::empty(), expanded, current@)
                == Seq::<FlatRow>::empty());
            assert(flatten_rows(seq![node], expanded, current@) == seq![head] + kids
                + Seq::<FlatRow>::empty());
            assert(seq![head] + kids + Seq::<FlatRow>::empty() =~= seq![head] + kids);
            assert(rows_of(result@) =~= flatten_rows(
                items.deep_view().take(i + 1),
                expanded,
                current@,
            ));
        }
    }
    proof {
        assert(items.deep_view().take(n as int) =~= items.deep_view());
    }
    result
}

/// The last identifier of each row's path, in order: the rows' own
/// identifiers, without the paths leading to them.
pub open spec fn last_ids(rows: Seq<FlatRow>) -> Seq<u64> {
    rows.map_values(|r: FlatRow| r.path.last())
}

/// Flatten the example tree of [`TreeItem::example`] under the opened paths
/// `open` and compare the rows, by the last identifier of each row's path,
/// against `expected`.
pub fn flatten_works(open: &Vec<Vec<u64>>, expected: &Vec<u64>) -> (r: bool)
    ensures
        r <==> last_ids(flatten_rows(example_view(), open.deep_view().to_set(), Seq::empty()))
            == expected@,
{
    let items = TreeItem::example();
    let current: Vec<u64> = Vec::new();
    let result = flatten(open, &items, &current);
    let ghost spec_rows = flatten_rows(example_view(), open.deep_view().to_set(), Seq::empty());
    proof {
        assert(current@ =~= Seq::<u64>::empty());
        assert(rows_of(result@) == spec_rows);
        lemma_flatten_paths_extend(example_view(), open.deep_view().to_set(), Seq::empty());
    }
    if result.len() != expected.len() {
        proof {
            assert(last_ids(spec_rows).len() == spec_rows.len());
            assert(spec_rows.len() == result@.len());
            if last_ids(spec_rows) == expected@ {
                assert(last_ids(spec_rows).len() == expected@.len());
                assert(false);
            }
        }
        return false;
    }
    let n = result.len();
    for i in 0..n
        invariant
            n == result@.len(),
            n == expected@.len(),
            rows_of(result@) == spec_rows,
            spec_rows == flatten_rows(example_view(), open.deep_view().to_set(), Seq::empty()),
            forall|k: int| 0 <= k < i ==> last_ids(spec_rows)[k] == expected@[k],
            forall|k: int| 0 <= k < spec_rows.len() ==> (#[trigger] spec_rows[k]).path.len() > 0,
    {
        let row = &result[i];
        proof {
            assert(spec_rows[i as int] == result@[i as int]@);
            assert(row.identifier@.len() > 0);
        }
        let last = row.identifier[row.identifier.len() - 1];
        proof {
            assert(last_ids(spec_rows)[i as int] == spec_rows[i as int].path.last());
        }
        if last != expected[i] {
            proof {
                if last_ids(spec_rows) == expected@ {
                    assert(last_ids(spec_rows)[i as int] == expected@[i as int]);
                    assert(false);
                }
            }
            return false;
        }
    }
    proof {
        assert(last_ids(spec_rows) =~= expected@);
    }
    true
}

} // verus!
