//! The tree data model: nodes with an identifier, multi-line content and
//! child nodes, where no two siblings may share an identifier.

use vstd::prelude::*;

verus! {

/// The single failure of this library: two sibling nodes with the same
/// identifier.
#[derive(Debug, Clone, Copy, PartialEq, Eq)]
pub enum TreeError {
    DuplicateIdentifier,
}

/// One item of the tree.
///
/// The `identifier` must be unique among the item's direct siblings; it may
/// appear again elsewhere in the tree. `content` is the text the item shows,
/// one entry per rendered line, so the item's height is `content.len()`.
#[derive(Debug)]
pub struct TreeItem {
    pub identifier: u64,
    pub content: Vec<String>,
    pub children: Vec<TreeItem>,
}

/// The mathematical shape of a [`TreeItem`]: the same data with every
/// container replaced by its abstract value.
pub struct NodeView {
    pub id: u64,
    pub content: Seq<Seq<char>>,
    pub children: Seq<NodeView>,
}

impl NodeView {
    /// The number of text lines this node occupies on screen.
    pub open spec fn height(self) -> nat {
        self.content.len()
    }
}

impl TreeItem {
    /// The abstract value of this item, its whole subtree included.
    pub open spec fn as_view(self) -> NodeView
        decreases self, 1int,
    {
        NodeView {
            id: self.identifier,
            content: self.content.deep_view(),
            children: views_of(self.children@),
        }
    }
}

/// The abstract values of a sequence of items, in order.
pub open spec fn views_of(items: Seq<TreeItem>) -> Seq<NodeView>
    decreases items, 0int,
{
    if items.len() == 0 {
        Seq::empty()
    } else {
        seq![items[0].as_view()] + views_of(items.drop_first())
    }
}

impl DeepView for TreeItem {
    type V = NodeView;

    open spec fn deep_view(&self) -> NodeView {
        self.as_view()
    }
}

/// No two of `items` share an identifier.
pub open spec fn distinct_identifiers(items: Seq<NodeView>) -> bool {
    forall|i: int, j: int| 0 <= i < j < items.len() ==> items[i].id != items[j].id
}

/// Sibling identifiers are distinct at every level of every tree in `items`.
pub open spec fn forest_wf(items: Seq<NodeView>) -> bool
    decreases items,
{
    &&& distinct_identifiers(items)
    &&& forall|i: int| 0 <= i < items.len() ==> forest_wf(#[trigger] items[i].children)
}

/// Some item of `items` carries the identifier `id`.
pub open spec fn has_identifier(items: Seq<NodeView>, id: u64) -> bool {
    exists|i: int| 0 <= i < items.len() && items[i].id == id
}

/// `views_of` is the pointwise abstraction of its argument.
pub proof fn lemma_views_of(items: Seq<TreeItem>)
    ensures
        views_of(items).len() == items.len(),
        forall|i: int| 0 <= i < items.len() ==> views_of(items)[i] == items[i].as_view(),
    decreases items.len(),
{
    if items.len() > 0 {
        lemma_views_of(items.drop_first());
    }
}

impl TreeItem {
    /// Create a new item without children. A leaf is well-formed on its own.
    pub fn new_leaf(identifier: u64, content: Vec<String>) -> (r: Self)
        ensures
            r.identifier == identifier,
            r.content == content,
            r.children@.len() == 0,
            forest_wf(seq![r.as_view()]),
    {
        let r = Self { identifier, content, children: Vec::new() };
        proof {
            assert(r.as_view().children =~= Seq::<NodeView>::empty());
            assert(forest_wf(Seq::<NodeView>::empty()));
            assert(forall|i: int| 0 <= i < 1 ==> seq![r.as_view()][i] == r.as_view());
        }
        r
    }

    /// Create a new item with the given children.
    ///
    /// Fails with [`TreeError::DuplicateIdentifier`], and creates nothing,
    /// when two of the children share an identifier. Well-formed children
    /// make a well-formed item.
    pub fn new(identifier: u64, content: Vec<String>, children: Vec<TreeItem>) -> (r: Result<
        Self,
        TreeError,
    >)
        ensures
            r is Ok <==> distinct_identifiers(children.deep_view()),
            r is Ok ==> r->Ok_0 == (TreeItem { identifier, content, children }),
            r is Ok && forest_wf(children.deep_view()) ==> forest_wf(seq![r->Ok_0.as_view()]),
            r is Err ==> r->Err_0 == TreeError::DuplicateIdentifier,
    {
        if contains_duplicate(&children) {
            Err(TreeError::DuplicateIdentifier)
        } else {
            let item = Self { identifier, content, children };
            proof {
                lemma_views_of(item.children@);
                assert(item.as_view().children =~= item.children.deep_view());
                if forest_wf(item.children.deep_view()) {
                    assert(forall|i: int| 0 <= i < 1 ==> seq![item.as_view()][i]
                        == item.as_view());
                    assert(forest_wf(item.as_view().children));
                }
            }
            Ok(item)
        }
    }

    /// The identifier of this item.
    pub fn identifier(&self) -> (r: &u64)
        ensures
            *r == self.identifier,
    {
        &self.identifier
    }

    /// The text lines of this item.
    pub fn content(&self) -> (r: &Vec<String>)
        ensures
            *r == self.content,
    {
        &self.content
    }

    /// The direct children of this item.
    pub fn children(&self) -> (r: &Vec<TreeItem>)
        ensures
            *r == self.children,
    {
        &self.children
    }

    /// A child by index; `None` when the index is out of bounds.
    pub fn child(&self, index: usize) -> (r: Option<&TreeItem>)
        ensures
            index < self.children@.len() ==> (r matches Some(c) && *c == self.children@[index as int]),
            index >= self.children@.len() ==> r is None,
    {
        if index < self.children.len() {
            Some(&self.children[index])
        } else {
            None
        }
    }

    /// A mutable child by index; `None` when the index is out of bounds.
    pub fn child_mut(&mut self, index: usize) -> (r: Option<&mut TreeItem>)
        ensures
            index < old(self).children@.len() ==> (r matches Some(c)
                && *c == old(self).children@[index as int]
                && final(self).identifier == old(self).identifier
                && final(self).content == old(self).content
                && final(self).children@ == old(self).children@.update(index as int, *final(c))),
            index >= old(self).children@.len() ==> r is None && *final(self) == *old(self),
    {
        if index < self.children.len() {
            Some(&mut self.children[index])
        } else {
            None
        }
    }

    /// The number of text lines this item occupies on screen.
    pub fn height(&self) -> (r: usize)
        ensures
            r == self.as_view().height(),
    {
        self.content.len()
    }

    /// Append `child` to this item's children, keeping their order.
    ///
    /// Fails with [`TreeError::DuplicateIdentifier`], and leaves the item
    /// unchanged, when a child with the same identifier is already present.
    /// Appending a well-formed child to well-formed children keeps them
    /// well-formed.
    pub fn add_child(&mut self, child: TreeItem) -> (r: Result<(), TreeError>)
        ensures
            r is Ok <==> !has_identifier(old(self).children.deep_view(), child.identifier),
            r is Ok ==> final(self).identifier == old(self).identifier && final(self).content
                == old(self).content && final(self).children@ == old(self).children@.push(child),
            r is Ok && forest_wf(old(self).children.deep_view()) && forest_wf(
                seq![child.as_view()],
            ) ==> forest_wf(final(self).children.deep_view()),
            r is Err ==> *final(self) == *old(self) && r->Err_0 == TreeError::DuplicateIdentifier,
    {
        let n = self.children.len();
        for i in 0..n
            invariant
                n == self.children@.len(),
                forall|k: int|
                    0 <= k < i ==> self.children.deep_view()[k].id != child.identifier,
        {
            if self.children[i].identifier == child.identifier {
                proof {
                    assert(self.children.deep_view()[i as int] == self.children@[i as int].as_view());
                }
                return Err(TreeError::DuplicateIdentifier);
            }
        }
        self.children.push(child);
        proof {
            let views = self.children.deep_view();
            let olds = old(self).children.deep_view();
            assert(views =~= olds.push(child.as_view()));
            if forest_wf(olds) && forest_wf(seq![child.as_view()]) {
                assert(forest_wf(seq![child.as_view()][0].children));
                assert(seq![child.as_view()][0] == child.as_view());
                assert(forest_wf(child.as_view().children));
                assert forall|p: int, q: int| 0 <= p < q < views.len() implies views[p].id
                    != views[q].id by {
                    if q == olds.len() {
                        assert(!has_identifier(olds, child.identifier));
                        assert(views[p] == olds[p]);
                    }
                }
                assert forall|i: int| 0 <= i < views.len() implies forest_wf(
                    #[trigger] views[i].children,
                ) by {
                    if i < olds.len() {
                        assert(views[i] == olds[i]);
                        assert(forest_wf(olds[i].children));
                    }
                }
            }
        }
        Ok(())
    }
}

/// The abstract value of the tree that the examples and tests of this crate
/// use: `[Alfa, Bravo[Charlie, Delta[Echo, Foxtrot], Golf], Hotel]`, with the
/// identifiers numbered in the same order.
pub open spec fn example_view() -> Seq<NodeView> {
    seq![
        NodeView { id: 1, content: seq!["Alfa"@], children: Seq::<NodeView>::empty() },
        NodeView {
            id: 2,
            content: seq!["Bravo"@],
            children: seq![
                NodeView { id: 3, content: seq!["Charlie"@], children: Seq::<NodeView>::empty() },
                NodeView {
                    id: 4,
                    content: seq!["Delta"@],
                    children: seq![
                        NodeView { id: 5, content: seq!["Echo"@], children: Seq::<NodeView>::empty() },
                        NodeView {
                            id: 6,
                            content: seq!["Foxtrot"@],
                            children: Seq::<NodeView>::empty(),
                        },
                    ],
                },
                NodeView { id: 7, content: seq!["Golf"@], children: Seq::<NodeView>::empty() },
            ],
        },
        NodeView { id: 8, content: seq!["Hotel"@], children: Seq::<NodeView>::empty() },
    ]
}

/// A leaf's abstract value is its identifier and single content line.
proof fn lemma_leaf_view(t: TreeItem)
    requires
        t.children@.len() == 0,
        t.content@.len() == 1,
    ensures
        t.as_view() == (NodeView {
            id: t.identifier,
            content: seq![t.content@[0]@],
            children: Seq::<NodeView>::empty(),
        }),
{
    assert(t.content.deep_view() =~= seq![t.content@[0]@]);
    assert(views_of(t.children@) =~= Seq::<NodeView>::empty());
    assert(t.as_view().content =~= seq![t.content@[0]@]);
}

impl TreeItem {
    /// Build the example tree `[Alfa, Bravo[Charlie, Delta[Echo, Foxtrot],
    /// Golf], Hotel]` with identifiers 1 through 8 in that order.
    pub fn example() -> (r: Vec<TreeItem>)
        ensures
            r.deep_view() == example_view(),
    {
        let alfa = TreeItem::new_leaf(1, vec!["Alfa".to_owned()]);
        let charlie = TreeItem::new_leaf(3, vec!["Charlie".to_owned()]);
        let echo = TreeItem::new_leaf(5, vec!["Echo".to_owned()]);
        let foxtrot = TreeItem::new_leaf(6, vec!["Foxtrot".to_owned()]);
        let golf = TreeItem::new_leaf(7, vec!["Golf".to_owned()]);
        let hotel = TreeItem::new_leaf(8, vec!["Hotel".to_owned()]);
        proof {
            lemma_leaf_view(alfa);
            lemma_leaf_view(charlie);
            lemma_leaf_view(echo);
            lemma_leaf_view(foxtrot);
            lemma_leaf_view(golf);
            lemma_leaf_view(hotel);
        }
        let delta_children = vec![echo, foxtrot];
        proof {
            assert(delta_children.deep_view()[0] == delta_children@[0].as_view());
            assert(delta_children.deep_view()[1] == delta_children@[1].as_view());
        }
        let delta = match TreeItem::new(4, vec!["Delta".to_owned()], delta_children) {
            Ok(item) => item,
            Err(_) => unreached(),
        };
        proof {
            lemma_views_of(delta.children@);
            assert(delta.as_view().content =~= seq!["Delta"@]);
            assert(delta.as_view().children =~= example_view()[1].children[1].children);
            assert(delta.as_view() == example_view()[1].children[1]);
        }
        let bravo_children = vec![charlie, delta, golf];
        proof {
            assert(bravo_children.deep_view()[0] == bravo_children@[0].as_view());
            assert(bravo_children.deep_view()[1] == bravo_children@[1].as_view());
            assert(bravo_children.deep_view()[2] == bravo_children@[2].as_view());
        }
        let bravo = match TreeItem::new(2, vec!["Bravo".to_owned()], bravo_children) {
            Ok(item) => item,
            Err(_) => unreached(),
        };
        proof {
            lemma_views_of(bravo.children@);
            assert(bravo.as_view().content =~= seq!["Bravo"@]);
            assert(bravo.as_view().children =~= example_view()[1].children);
            assert(bravo.as_view() == example_view()[1]);
        }
        let items = vec![alfa, bravo, hotel];
        proof {
            assert(items.deep_view() =~= example_view());
        }
        items
    }
}

impl Clone for TreeItem {
    /// A clone shows the same tree: the identifiers, text lines and
    /// structure of the whole subtree are kept.
    fn clone(&self) -> (r: Self)
        ensures
            r.as_view() == self.as_view(),
        decreases *self,
    {
        let mut children: Vec<TreeItem> = Vec::new();
        let n = self.children.len();
        for i in 0..n
            invariant
                n == self.children@.len(),
                children@.len() == i,
                forall|k: int|
                    0 <= k < i ==> (#[trigger] children@[k]).as_view()
                        == self.children@[k].as_view(),
        {
            proof {
                assert(decreases_to!(*self => self.children));
                assert(decreases_to!(self.children => self.children@));
                assert(decreases_to!(self.children@ => self.children@[i as int]));
            }
            children.push(self.children[i].clone());
        }
        let content = self.content.clone();
        proof {
            assert forall|k: int| 0 <= k < content@.len() implies #[trigger] content@[k]
                == self.content@[k] by {
                assert(cloned::<String>(self.content@[k], content@[k]));
            }
            assert(content.deep_view() =~~= self.content.deep_view());
        }
        let r = Self { identifier: self.identifier, content, children };
        proof {
            lemma_views_of(r.children@);
            lemma_views_of(self.children@);
            assert(views_of(r.children@) =~= views_of(self.children@));
        }
        r
    }
}

/// Whether two items of `items` share an identifier.
pub(crate) fn contains_duplicate(items: &Vec<TreeItem>) -> (r: bool)
    ensures
        r <==> !distinct_identifiers(items.deep_view()),
{
    let n = items.len();
    for i in 0..n
        invariant
            n == items@.len(),
            forall|p: int, q: int|
                0 <= p < q < items@.len() && p < i ==> items.deep_view()[p].id
                    != items.deep_view()[q].id,
    {
        let id = items[i].identifier;
        for j in (i + 1)..n
            invariant
                n == items@.len(),
                i < n,
                id == items.deep_view()[i as int].id,
                forall|p: int, q: int|
                    0 <= p < q < items@.len() && p < i ==> items.deep_view()[p].id
                        != items.deep_view()[q].id,
                forall|q: int|
                    i < q < j ==> items.deep_view()[i as int].id != items.deep_view()[q].id,
        {
            if items[j].identifier == id {
                proof {
                    assert(items.deep_view()[j as int] == items@[j as int].as_view());
                }
                return true;
            }
        }
    }
    false
}

} // verus!
