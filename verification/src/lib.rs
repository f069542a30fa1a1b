//! Typed, read-only views over an arena-allocated signature syntax tree,
//! together with the schema that names its node kinds and drives traversal.
//!
//! The tree is what a foreign parser produces: tagged records linked by
//! index, owned by one arena. [`parse`] turns the parser's outcome into a
//! [`SignatureNode`], which owns the arena; every other view borrows from
//! it and none outlives it.

pub mod arena;
pub mod names;
pub mod node;
pub mod schema;

use vstd::prelude::*;
use vstd::string::*;
use crate::arena::Arena;
use crate::node::{Node, NodeModel};

verus! {

/// The root of a parsed signature.
///
/// It owns the arena, which is released once, when the root is dropped.
pub struct SignatureNode {
    arena: Arena,
    root: usize,
}

impl View for SignatureNode {
    type V = NodeModel;

    closed spec fn view(&self) -> NodeModel {
        NodeModel { tree: self.arena@, id: self.root }
    }
}

/// What [`parse`] says of a signature that the parser could not read.
pub open spec fn failure_message() -> Seq<char> {
    "Failed to parse RBS signature"@
}

/// Ends a parse: gives the root of the tree where the parser succeeded,
/// and an error where it did not.
///
/// `success` is the parser's answer, `arena` what it built, and `root` the
/// node that it names as the signature. Where the parser failed, or names a
/// root that is not in the arena, the arena is released here and no view
/// of it is handed out.
pub fn parse(success: bool, arena: Arena, root: usize) -> (r: Result<SignatureNode, String>)
    ensures
        match r {
            Ok(signature) => {
                &&& success
                &&& root < arena@.nodes.len()
                &&& signature@ == (NodeModel { tree: arena@, id: root })
            },
            Err(message) => {
                &&& !success || root >= arena@.nodes.len()
                &&& message@ == failure_message()
            },
        },
{
    if success && root < arena.len() {
        Ok(SignatureNode { arena, root })
    } else {
        Err(String::from_str("Failed to parse RBS signature"))
    }
}

impl SignatureNode {
    #[verifier::type_invariant]
    spec fn inv(self) -> bool {
        self.root < self.arena@.nodes.len()
    }

    /// The arena that the root owns.
    pub fn arena(&self) -> (arena: &Arena)
        ensures
            arena@ == self@.tree,
    {
        &self.arena
    }

    /// The root as a node.
    pub fn as_node(&self) -> (node: Node<'_>)
        ensures
            node@ == self@,
    {
        proof {
            use_type_invariant(self);
        }
        match self.arena.node(self.root) {
            Some(node) => node,
            None => vstd::pervasive::unreached(),
        }
    }
}

} // verus!
