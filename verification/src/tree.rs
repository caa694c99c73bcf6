//! The tree-node model the matcher runs on: what the matcher reads of an
//! externally produced syntax tree, held as plain values — a kind name, the
//! node's source text, the ordered named children, and the named fields
//! (each a name pointing at one of the children).

use vstd::prelude::*;

verus! {

/// A named field of a node: the field name and the index (into the node's
/// named children) of the child it designates.
#[derive(Debug)]
pub struct FieldEntry {
    pub name: Vec<u8>,
    pub child: usize,
}

/// One syntax-tree node, as the matcher sees it.
#[derive(Debug)]
pub struct TreeNode {
    pub kind: Vec<u8>,
    pub text: Vec<u8>,
    pub children: Vec<TreeNode>,
    pub fields: Vec<FieldEntry>,
}

/// Ghost mirror of `TreeNode`.
pub struct TreeV {
    pub kind: Seq<u8>,
    pub text: Seq<u8>,
    pub children: Seq<TreeV>,
    pub fields: Seq<(Seq<u8>, int)>,
}

/// Views of the elements of `vs` from index `i` on.
pub open spec fn spec_view_trees(vs: Vec<TreeNode>, i: int) -> Seq<TreeV>
    decreases vs, vs@.len() - i,
        via spec_view_trees_decreases
{
    if i < 0 || i >= vs@.len() {
        Seq::empty()
    } else {
        seq![spec_view_tree(vs@[i])] + spec_view_trees(vs, i + 1)
    }
}

#[via_fn]
proof fn spec_view_trees_decreases(vs: Vec<TreeNode>, i: int) {
    if 0 <= i < vs@.len() {
        vstd::std_specs::vec::axiom_vec_index_decreases(vs, i);
    }
}

pub open spec fn spec_view_tree(t: TreeNode) -> TreeV
    decreases t,
{
    TreeV {
        kind: t.kind@,
        text: t.text@,
        children: spec_view_trees(t.children, 0),
        fields: Seq::new(t.fields@.len(), |k: int| (t.fields@[k].name@, t.fields@[k].child as int)),
    }
}

/// `spec_view_trees` is the element-wise view.
pub proof fn lemma_view_trees(vs: Vec<TreeNode>, i: int)
    requires
        0 <= i <= vs@.len(),
    ensures
        spec_view_trees(vs, i).len() == vs@.len() - i,
        forall|k: int|
            0 <= k < vs@.len() - i ==> #[trigger] spec_view_trees(vs, i)[k] == spec_view_tree(
                vs@[i + k],
            ),
    decreases vs@.len() - i,
{
    if i < vs@.len() {
        lemma_view_trees(vs, i + 1);
    }
}

impl View for TreeNode {
    type V = TreeV;

    open spec fn view(&self) -> TreeV {
        spec_view_tree(*self)
    }
}

impl TreeV {
    /// First field with the given name, if any: the index it points at,
    /// or `None` when the node lacks that field.
    pub open spec fn field_index(self, name: Seq<u8>, i: int) -> Option<int>
        decreases self.fields.len() - i,
    {
        if i < 0 || i >= self.fields.len() {
            None
        } else if self.fields[i].0 == name {
            Some(self.fields[i].1)
        } else {
            self.field_index(name, i + 1)
        }
    }

    /// The child designated by field `name`: `None` when the field is
    /// absent or its index is out of range — a missing lookup is an
    /// ordinary non-match, never an error.
    pub open spec fn field_child(self, name: Seq<u8>) -> Option<TreeV> {
        match self.field_index(name, 0) {
            None => None,
            Some(i) => if 0 <= i < self.children.len() {
                Some(self.children[i])
            } else {
                None
            },
        }
    }
}

impl TreeNode {
    /// A leaf node with no children and no fields.
    pub fn leaf(kind: Vec<u8>, text: Vec<u8>) -> (r: TreeNode)
        ensures
            r@.kind == kind@,
            r@.text == text@,
            r@.children.len() == 0,
            r@.fields.len() == 0,
    {
        TreeNode { kind, text, children: Vec::new(), fields: Vec::new() }
    }

    /// How many named children the node has.
    pub fn named_child_count(&self) -> (r: usize)
        ensures
            r == self@.children.len(),
    {
        proof {
            lemma_view_trees(self.children, 0);
        }
        self.children.len()
    }

    /// The node's kind name.
    pub fn kind_name(&self) -> (r: &Vec<u8>)
        ensures
            r@ == self@.kind,
    {
        &self.kind
    }

    /// The `i`-th named child; `None` when out of range.
    pub fn named_child(&self, i: usize) -> (r: Option<&TreeNode>)
        ensures
            match r {
                Some(ch) => i < self@.children.len() && ch@ == self@.children[i as int],
                None => i >= self@.children.len(),
            },
    {
        proof {
            lemma_view_trees(self.children, 0);
        }
        if i < self.children.len() {
            Some(&self.children[i])
        } else {
            None
        }
    }
}

} // verus!
