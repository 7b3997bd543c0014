//! A plain owned tree.
use crate::tree::{FromNewick, ToNewick};
use vstd::prelude::*;

verus! {

/// A node that owns its children.
#[derive(Debug, PartialEq)]
pub struct SimpleTree {
    /// The name; empty for an unnamed node.
    pub name: String,
    /// The length of the branch that leads to the node: the text of a number.
    pub length: Option<String>,
    /// The children in their order; none for a leaf.
    pub children: Vec<SimpleTree>,
}

impl SimpleTree {
    /// The value of this tree.
    pub open spec fn model(&self) -> crate::tree::Node
        decreases self,
    {
        crate::tree::Node {
            name: self.name@,
            length: crate::tree::text_of(self.length),
            children: Seq::new(
                self.children@.len(),
                |i: int|
                    if 0 <= i < self.children@.len() {
                        self.children@[i].model()
                    } else {
                        arbitrary()
                    },
            ),
        }
    }

    /// A node from its three parts.
    pub fn new(name: String, length: Option<String>, children: Vec<SimpleTree>) -> (tree: Self)
        ensures
            tree.name == name,
            tree.length == length,
            tree.children == children,
    {
        Self { name, length, children }
    }
}

impl FromNewick for SimpleTree {
    open spec fn node(&self) -> crate::tree::Node {
        self.model()
    }

    fn leaf(name: String) -> (tree: Self) {
        let tree = Self::new(name, None, Vec::new());
        assert(tree.model().children =~= Seq::empty());
        tree
    }

    fn internal(name: String, children: Vec<Self>) -> (tree: Self) {
        let tree = Self::new(name, None, children);
        tree
    }

    fn update_length(self, length: Option<String>) -> (tree: Self) {
        let ghost before = self.model();
        let tree = Self::new(self.name, length, self.children);
        assert(tree.model().children =~= before.children);
        tree
    }
}

impl ToNewick for SimpleTree {
    open spec fn node(&self) -> crate::tree::Node {
        self.model()
    }

    fn get_name(&self) -> (name: String) {
        self.name.clone()
    }

    fn get_children<'a>(&'a self) -> (children: Vec<&'a SimpleTree>) {
        let mut out: Vec<&'a SimpleTree> = Vec::new();
        let n: usize = self.children.len();
        let mut i: usize = 0;
        while i < n
            invariant
                n == self.children@.len(),
                i <= n,
                out@.len() == i,
                forall|k: int| 0 <= k < i ==> *out@[k] == self.children@[k],
            decreases n - i,
        {
            out.push(&self.children[i]);
            i = i + 1;
        }
        out
    }

    fn get_length(&self) -> (length: Option<String>) {
        match &self.length {
            Some(length) => Some(length.clone()),
            None => None,
        }
    }
}

impl Clone for SimpleTree {
    /// A copy of the whole tree.
    fn clone(&self) -> (tree: Self)
        ensures
            tree.model() == self.model(),
        decreases self,
    {
        let mut children: Vec<SimpleTree> = Vec::new();
        let n: usize = self.children.len();
        let mut i: usize = 0;
        while i < n
            invariant
                n == self.children@.len(),
                i <= n,
                children@.len() == i,
                forall|k: int| 0 <= k < i ==> (#[trigger] children@[k]).model() == self.children@[k].model(),
            decreases n - i,
        {
            let child = self.children[i].clone();
            children.push(child);
            i = i + 1;
        }
        let tree = SimpleTree { name: self.name.clone(), length: self.get_length(), children };
        assert(tree.model().children =~= self.model().children);
        tree
    }
}

} // verus!
