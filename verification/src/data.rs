//! The values exchanged between peers.

use vstd::prelude::*;
use vstd::std_specs::cmp::PartialEqSpecImpl;

verus! {

/// A collaborative document as seen at the application boundary.
#[derive(Debug)]
pub struct Document {
    pub id: String,
    pub content: String,
}

/// The mathematical value of a [`Document`].
pub struct DocumentView {
    pub id: Seq<char>,
    pub content: Seq<char>,
}

impl View for Document {
    type V = DocumentView;

    open spec fn view(&self) -> DocumentView {
        DocumentView { id: self.id@, content: self.content@ }
    }
}

impl Clone for Document {
    fn clone(&self) -> (r: Self)
        ensures
            r == *self,
    {
        Document { id: self.id.clone(), content: self.content.clone() }
    }
}

/// One positional edit of the shared character sequence.
#[derive(Debug)]
pub enum Operation {
    /// Place `value` at position `index`.
    Insert { index: usize, value: char, id: String },
    /// Mark the element at position `index` invisible.
    Delete { index: usize, id: String },
}

/// The mathematical value of an [`Operation`]: the position is a natural
/// number and the identifier a sequence of characters.
pub enum OperationView {
    Insert { index: nat, value: char, id: Seq<char> },
    Delete { index: nat, id: Seq<char> },
}

impl OperationView {
    /// The position the edit applies at.
    pub open spec fn index(self) -> nat {
        match self {
            OperationView::Insert { index, .. } => index,
            OperationView::Delete { index, .. } => index,
        }
    }

    /// The identifier carried by the edit.
    pub open spec fn id(self) -> Seq<char> {
        match self {
            OperationView::Insert { id, .. } => id,
            OperationView::Delete { id, .. } => id,
        }
    }

    /// The same edit moved to position `index`.
    pub open spec fn at(self, index: nat) -> OperationView {
        match self {
            OperationView::Insert { value, id, .. } => OperationView::Insert { index, value, id },
            OperationView::Delete { id, .. } => OperationView::Delete { index, id },
        }
    }
}

impl View for Operation {
    type V = OperationView;

    open spec fn view(&self) -> OperationView {
        match self {
            Operation::Insert { index, value, id } => OperationView::Insert {
                index: *index as nat,
                value: *value,
                id: id@,
            },
            Operation::Delete { index, id } => OperationView::Delete {
                index: *index as nat,
                id: id@,
            },
        }
    }
}

impl Operation {
    /// The identifier carried by the operation.
    pub fn id(&self) -> (r: &String)
        ensures
            r@ == self@.id(),
    {
        match self {
            Operation::Insert { id, .. } => id,
            Operation::Delete { id, .. } => id,
        }
    }

    /// The position the operation applies at.
    pub fn index(&self) -> (r: usize)
        ensures
            r as nat == self@.index(),
    {
        match self {
            Operation::Insert { index, .. } => *index,
            Operation::Delete { index, .. } => *index,
        }
    }
}

impl Clone for Operation {
    fn clone(&self) -> (r: Self)
        ensures
            r == *self,
    {
        match self {
            Operation::Insert { index, value, id } => Operation::Insert {
                index: *index,
                value: *value,
                id: id.clone(),
            },
            Operation::Delete { index, id } => Operation::Delete { index: *index, id: id.clone() },
        }
    }
}

impl PartialEq for Operation {
    fn eq(&self, other: &Self) -> (r: bool) {
        match (self, other) {
            (
                Operation::Insert { index: i1, value: v1, id: d1 },
                Operation::Insert { index: i2, value: v2, id: d2 },
            ) => *i1 == *i2 && *v1 == *v2 && *d1 == *d2,
            (Operation::Delete { index: i1, id: d1 }, Operation::Delete { index: i2, id: d2 }) => {
                *i1 == *i2 && *d1 == *d2
            },
            _ => false,
        }
    }
}

impl PartialEqSpecImpl for Operation {
    open spec fn obeys_eq_spec() -> bool {
        true
    }

    open spec fn eq_spec(&self, other: &Self) -> bool {
        self@ == other@
    }
}

/// An operation together with the user who issued it.
#[derive(Debug)]
pub struct UserAction {
    pub user_id: String,
    pub operation: Operation,
}

/// The mathematical value of a [`UserAction`].
pub struct UserActionView {
    pub user_id: Seq<char>,
    pub operation: OperationView,
}

impl View for UserAction {
    type V = UserActionView;

    open spec fn view(&self) -> UserActionView {
        UserActionView { user_id: self.user_id@, operation: self.operation@ }
    }
}

impl Clone for UserAction {
    fn clone(&self) -> (r: Self)
        ensures
            r == *self,
    {
        UserAction { user_id: self.user_id.clone(), operation: self.operation.clone() }
    }
}

} // verus!
