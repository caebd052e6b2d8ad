//! Errors of walking a record tree with positions.
use vstd::prelude::*;
use crate::text::{decimal, push_decimal, push_str, string_from_str};

verus! {

/// Errors of walking a record tree.
#[derive(Debug, Clone, Copy, PartialEq, Eq, Structural)]
pub enum TraversalError {
    /// An illegal move at a node, with its ply from the initial position.
    IllegalMove { node_id: usize, ply: usize },
}

impl TraversalError {
    /// The message of the error.
    pub open spec fn message(self) -> Seq<char> {
        match self {
            TraversalError::IllegalMove { node_id, ply } => "illegal move at node "@ + decimal(node_id as nat)
                + " (ply "@ + decimal(ply as nat) + ")"@,
        }
    }

    /// The message of the error (see [`TraversalError::message`]).
    pub fn to_string(&self) -> (r: String)
        ensures
            r@ == self.message(),
    {
        match *self {
            TraversalError::IllegalMove { node_id, ply } => {
                let mut s = string_from_str("illegal move at node ");
                push_decimal(&mut s, node_id as u64);
                push_str(&mut s, " (ply ");
                push_decimal(&mut s, ply as u64);
                push_str(&mut s, ")");
                s
            },
        }
    }
}

} // verus!
