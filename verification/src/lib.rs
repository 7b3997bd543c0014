//! Reading and writing trees in the Newick format.
//!
//! A Newick text such as `(A:0.1,B:0.2,(C:0.3,D:0.4)E:0.5)F;` describes a tree by
//! nested parentheses; every node may carry a name and the length of the branch
//! that leads to it. [`from_newick`] reads such a text into any tree type that
//! implements [`FromNewick`], and [`to_newick`] writes any tree type that
//! implements [`ToNewick`].
//!
//! The meaning of both directions is fixed by the functions of [`grammar`], which
//! work on sequences of characters and on [`Node`], the mathematical value of a
//! tree. The contracts of the executable functions in [`newick`] refer to them,
//! and [`laws`] proves how reading and writing relate.
//!
//! A length is kept as the text of its number, so that a tree is written with
//! the numbers it was read with. [`SimpleTree`] is a plain tree type that can be
//! read and written.
pub mod grammar;
pub mod laws;
pub mod lemmas;
pub mod newick;
pub mod simple_tree;
pub mod text;
pub mod tree;

pub use crate::grammar::SyntaxErrorKind;
pub use crate::newick::{
    branch, branch_set, from_newick, internal, leaf, length, name, quoted_string, string, sub_tree,
    to_newick, tree, SyntaxError,
};
pub use crate::simple_tree::SimpleTree;
pub use crate::tree::{FromNewick, Node, ToNewick};
