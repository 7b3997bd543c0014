//! The value of a tree, and the two capabilities that connect a tree type to it.
use vstd::prelude::*;

verus! {

/// A tree as a mathematical value: the root node with everything below it.
///
/// A node without children is a leaf. The name is the empty sequence for an
/// unnamed node. The length is the text of the number that stands behind `:`,
/// kept as it is written.
pub struct Node {
    /// The name; empty for an unnamed node.
    pub name: Seq<char>,
    /// The length of the branch that leads to the node, if it has one.
    pub length: Option<Seq<char>>,
    /// The children in their order; none for a leaf.
    pub children: Seq<Node>,
}

/// The view of an optional text.
pub open spec fn text_of(t: Option<String>) -> Option<Seq<char>> {
    match t {
        Some(s) => Some(s@),
        None => None,
    }
}

/// The values of the trees in `trees`, in order.
pub open spec fn nodes_of<T: FromNewick>(trees: Seq<T>) -> Seq<Node> {
    Seq::new(trees.len(), |i: int| trees[i].node())
}

/// A tree type that can be built while Newick text is read.
///
/// The reader builds the children of a node before the node itself, and sets
/// the length of every node once, right after the node is built.
pub trait FromNewick: Sized {
    /// The value of the tree below and including this node. An implementation
    /// states it, and proves the contracts of the other methods for it.
    open spec fn node(&self) -> Node {
        arbitrary()
    }

    /// A node without children.
    fn leaf(name: String) -> (tree: Self)
        ensures
            tree.node() == (Node { name: name@, length: None, children: Seq::empty() }),
    ;

    /// A node above the given children, which keep their order.
    fn internal(name: String, children: Vec<Self>) -> (tree: Self)
        requires
            children@.len() > 0,
        ensures
            tree.node().name == name@,
            tree.node().length is None,
            tree.node().children.len() == children@.len(),
            forall|i: int|
                0 <= i < children@.len() ==> #[trigger] tree.node().children[i]
                    == children@[i].node(),
    ;

    /// The same node with the given length in place of its own.
    fn update_length(self, length: Option<String>) -> (tree: Self)
        ensures
            tree.node() == (Node {
                name: self.node().name,
                length: crate::tree::text_of(length),
                children: self.node().children,
            }),
    ;
}

/// A tree type that can be written as Newick text.
pub trait ToNewick {
    /// The value of the tree below and including this node. An implementation
    /// states it, and proves the contracts of the other methods for it.
    open spec fn node(&self) -> Node {
        arbitrary()
    }

    /// The name of this node, empty if it has none.
    fn get_name(&self) -> (name: String)
        ensures
            name@ == self.node().name,
    ;

    /// The children of this node in order, none for a leaf.
    fn get_children<'a>(&'a self) -> (children: Vec<&'a Self>)
        ensures
            children@.len() == self.node().children.len(),
            forall|i: int|
                0 <= i < children@.len() ==> (#[trigger] children@[i]).node()
                    == self.node().children[i],
    ;

    /// The length of the branch that leads to this node, if it has one.
    fn get_length(&self) -> (length: Option<String>)
        ensures
            crate::tree::text_of(length) == self.node().length,
    ;
}

} // verus!
