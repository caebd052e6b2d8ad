//! Errors of building and editing records.
use vstd::prelude::*;
use crate::text::{decimal, push_decimal, push_str, string_from_str};

verus! {

/// Errors of building and editing records.
#[derive(Debug, Clone, Copy, PartialEq, Eq, Structural)]
pub enum RecordError {
    /// The SFEN of the initial position is empty.
    EmptyInitPosition,
    /// A node id is outside the record's slot table.
    InvalidNodeId(usize),
    /// A node id names a removed slot.
    RemovedNode(usize),
    /// A terminal special node cannot have children.
    TerminalNode(usize),
    /// The node is not a child of the given parent.
    NotChild { parent: usize, child: usize },
    /// A child index is outside the parent's children.
    InvalidChildIndex { parent: usize, index: usize },
    /// The move is illegal at the editor's current position.
    IllegalMove,
}

impl RecordError {
    /// The message of the error.
    pub open spec fn message(self) -> Seq<char> {
        match self {
            RecordError::EmptyInitPosition => "initial position SFEN cannot be empty"@,
            RecordError::InvalidNodeId(n) => "invalid record node id "@ + decimal(n as nat),
            RecordError::RemovedNode(n) => "record node "@ + decimal(n as nat) + " has been removed"@,
            RecordError::TerminalNode(n) => "cannot append a child under terminal node "@ + decimal(n as nat),
            RecordError::NotChild { parent, child } => "node "@ + decimal(child as nat) + " is not a child of parent "@
                + decimal(parent as nat),
            RecordError::InvalidChildIndex { parent, index } => "child index "@ + decimal(index as nat)
                + " is out of range for parent "@ + decimal(parent as nat),
            RecordError::IllegalMove => "illegal move at current editor position"@,
        }
    }

    /// The message of the error (see [`RecordError::message`]).
    pub fn to_string(&self) -> (r: String)
        ensures
            r@ == self.message(),
    {
        match *self {
            RecordError::EmptyInitPosition => string_from_str("initial position SFEN cannot be empty"),
            RecordError::InvalidNodeId(n) => {
                let mut s = string_from_str("invalid record node id ");
                push_decimal(&mut s, n as u64);
                s
            },
            RecordError::RemovedNode(n) => {
                let mut s = string_from_str("record node ");
                push_decimal(&mut s, n as u64);
                push_str(&mut s, " has been removed");
                s
            },
            RecordError::TerminalNode(n) => {
                let mut s = string_from_str("cannot append a child under terminal node ");
                push_decimal(&mut s, n as u64);
                s
            },
            RecordError::NotChild { parent, child } => {
                let mut s = string_from_str("node ");
                push_decimal(&mut s, child as u64);
                push_str(&mut s, " is not a child of parent ");
                push_decimal(&mut s, parent as u64);
                s
            },
            RecordError::InvalidChildIndex { parent, index } => {
                let mut s = string_from_str("child index ");
                push_decimal(&mut s, index as u64);
                push_str(&mut s, " is out of range for parent ");
                push_decimal(&mut s, parent as u64);
                s
            },
            RecordError::IllegalMove => string_from_str("illegal move at current editor position"),
        }
    }
}

} // verus!
