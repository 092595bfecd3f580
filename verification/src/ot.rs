//! Operational transformation: rewriting one positional edit against a
//! concurrent one.

use vstd::prelude::*;
use crate::data::{Operation, OperationView};
use crate::ident::{id_lt, id_precedes, lemma_id_lt_asymmetric, lemma_id_lt_total};

verus! {

/// By how many positions `b` moves the target of `a`.
///
/// An insert by `b` pushes `a` one to the right when it lands before `a`:
/// at a smaller position, or at the same position when both are inserts and
/// the identifier of `b` is the smaller one. A delete by `b` pulls `a` one to
/// the left when it removes a position before that of `a`.
pub open spec fn shift(a: OperationView, b: OperationView) -> int {
    match b {
        OperationView::Insert { index, id, .. } => {
            if index < a.index() || (index == a.index() && a is Insert && id_lt(id, a.id())) {
                1
            } else {
                0
            }
        },
        OperationView::Delete { index, .. } => {
            if index < a.index() {
                -1
            } else {
                0
            }
        },
    }
}

/// `a` rewritten so that it applies on top of the effect of `b`: the same
/// edit, moved by [`shift`].
pub open spec fn transform_spec(a: OperationView, b: OperationView) -> OperationView {
    a.at((a.index() + shift(a, b)) as nat)
}

/// Algorithms that rewrite an operation against a concurrent one.
pub trait OperationalTransform {
    /// What `op_a` becomes when rewritten against `op_b`.
    spec fn rewritten(&self, op_a: OperationView, op_b: OperationView) -> OperationView;

    /// Rewrites `op_a` so that it applies on top of `op_b`.
    fn transform(&self, op_a: &Operation, op_b: &Operation) -> (r: Operation)
        requires
            self.rewritten(op_a@, op_b@).index() <= usize::MAX,
        ensures
            r@ == self.rewritten(op_a@, op_b@),
    ;
}

/// The index-shifting transform with identifier tie-break.
#[derive(Debug, Clone, Copy)]
pub struct OT;

impl OT {
    /// Transforms operation `op_a` against the concurrent operation `op_b`.
    ///
    /// The result is `op_a` with its position moved by at most one; kind,
    /// value and identifier are kept.
    pub fn transform(op_a: &Operation, op_b: &Operation) -> (r: Operation)
        requires
            transform_spec(op_a@, op_b@).index() <= usize::MAX,
        ensures
            r@ == transform_spec(op_a@, op_b@),
            r@ is Insert == op_a@ is Insert,
            r@.id() == op_a@.id(),
    {
        match op_a {
            Operation::Insert { index: idx_a, value, id } => {
                match op_b {
                    Operation::Insert { index: idx_b, id: id_b, .. } => {
                        if *idx_b < *idx_a || (*idx_b == *idx_a && id_precedes(
                            id_b.as_str(),
                            id.as_str(),
                        )) {
                            Operation::Insert { index: *idx_a + 1, value: *value, id: id.clone() }
                        } else {
                            op_a.clone()
                        }
                    },
                    Operation::Delete { index: idx_b, .. } => {
                        if *idx_b < *idx_a {
                            Operation::Insert { index: *idx_a - 1, value: *value, id: id.clone() }
                        } else {
                            op_a.clone()
                        }
                    },
                }
            },
            Operation::Delete { index: idx_a, id } => {
                match op_b {
                    Operation::Insert { index: idx_b, .. } => {
                        if *idx_b < *idx_a {
                            Operation::Delete { index: *idx_a + 1, id: id.clone() }
                        } else {
                            op_a.clone()
                        }
                    },
                    Operation::Delete { index: idx_b, .. } => {
                        if *idx_b < *idx_a {
                            Operation::Delete { index: *idx_a - 1, id: id.clone() }
                        } else {
                            op_a.clone()
                        }
                    },
                }
            },
        }
    }

    /// Transforms `op_a` against `op_b` unless the rewritten position would
    /// not fit the machine's index type, in which case `None` is returned.
    pub fn checked_transform(op_a: &Operation, op_b: &Operation) -> (r: Option<Operation>)
        ensures
            match r {
                Some(op) => op@ == transform_spec(op_a@, op_b@),
                None => transform_spec(op_a@, op_b@).index() > usize::MAX,
            },
    {
        if op_a.index() == usize::MAX {
            // Only a shift to the right can leave the index type.
            let moved = match op_b {
                Operation::Insert { index: idx_b, id: id_b, .. } => {
                    *idx_b < usize::MAX || match op_a {
                        Operation::Insert { id, .. } => id_precedes(id_b.as_str(), id.as_str()),
                        Operation::Delete { .. } => false,
                    }
                },
                Operation::Delete { .. } => false,
            };
            if moved {
                return None;
            }
        }
        Some(OT::transform(op_a, op_b))
    }
}

impl OperationalTransform for OT {
    open spec fn rewritten(&self, op_a: OperationView, op_b: OperationView) -> OperationView {
        transform_spec(op_a, op_b)
    }

    fn transform(&self, op_a: &Operation, op_b: &Operation) -> (r: Operation) {
        OT::transform(op_a, op_b)
    }
}

/// The transform keeps the kind of edit, its value and its identifier, and
/// moves its position by at most one; the position never becomes negative.
pub proof fn lemma_transform_total(a: OperationView, b: OperationView)
    ensures
        transform_spec(a, b) is Insert == a is Insert,
        transform_spec(a, b) == a.at(transform_spec(a, b).index()),
        transform_spec(a, b).id() == a.id(),
        a.index() - 1 <= transform_spec(a, b).index() <= a.index() + 1,
        transform_spec(a, b).index() == a.index() + shift(a, b),
{
}

/// Two inserts at the same position with different identifiers: the one with
/// the smaller identifier keeps its position and the other moves one to the
/// right, whichever of the two is transformed first.
pub proof fn lemma_transform_tie_break(a: OperationView, b: OperationView)
    requires
        a is Insert,
        b is Insert,
        a.index() == b.index(),
        a.id() != b.id(),
    ensures
        id_lt(a.id(), b.id()) || id_lt(b.id(), a.id()),
        id_lt(a.id(), b.id()) ==> transform_spec(a, b) == a && transform_spec(b, a) == b.at(
            b.index() + 1,
        ),
        id_lt(b.id(), a.id()) ==> transform_spec(b, a) == b && transform_spec(a, b) == a.at(
            a.index() + 1,
        ),
{
    lemma_id_lt_total(a.id(), b.id());
    lemma_id_lt_asymmetric(a.id(), b.id());
    lemma_id_lt_asymmetric(b.id(), a.id());
}

/// A delete transformed against a delete at the same position is unchanged.
pub proof fn lemma_transform_delete_delete_same_index(a: OperationView, b: OperationView)
    requires
        a is Delete,
        b is Delete,
        a.index() == b.index(),
    ensures
        transform_spec(a, b) == a,
{
}

} // verus!
