//! The replicated growable array: the per-participant document state.
//!
//! A replica is a sequence of elements, each carrying the identifier of the
//! insert that created it. Deleting an element only hides it, so identifiers
//! are never lost and two replicas can be merged whatever order their edits
//! arrived in.

use vstd::assert_by_contradiction;
use vstd::prelude::*;
use crate::data::{Operation, OperationView};
use crate::errors::CollaboriError;
use crate::ident::{
    id_lt, id_precedes, lemma_id_lt_asymmetric, lemma_id_lt_total, lemma_id_lt_transitive, same_id,
};
use crate::utils::{generate_unique_id, is_uuid_text};

verus! {

/// One stored character with the identifier of the insert that created it.
#[derive(Debug)]
pub struct Element {
    pub id: String,
    pub value: char,
    pub visible: bool,
}

/// The mathematical value of an [`Element`].
pub struct ElementView {
    pub id: Seq<char>,
    pub value: char,
    pub visible: bool,
}

impl View for Element {
    type V = ElementView;

    open spec fn view(&self) -> ElementView {
        ElementView { id: self.id@, value: self.value, visible: self.visible }
    }
}

impl Clone for Element {
    fn clone(&self) -> (r: Self)
        ensures
            r == *self,
    {
        Element { id: self.id.clone(), value: self.value, visible: self.visible }
    }
}

/// The values of a sequence of elements, in the same order.
pub open spec fn views(s: Seq<Element>) -> Seq<ElementView> {
    s.map_values(|e: Element| e@)
}

/// Whether some element of `s` carries the identifier `id`.
pub open spec fn has_id(s: Seq<ElementView>, id: Seq<char>) -> bool {
    exists|i: int| 0 <= i < s.len() && (#[trigger] s[i]).id == id
}

/// Whether no identifier occurs twice in `s`.
pub open spec fn unique_ids(s: Seq<ElementView>) -> bool {
    forall|i: int, j: int| 0 <= i < j < s.len() ==> (#[trigger] s[i]).id != (#[trigger] s[j]).id
}

/// The observable document: the characters of the visible elements in
/// sequence order.
pub open spec fn visible_text(s: Seq<ElementView>) -> Seq<char> {
    s.filter(|e: ElementView| e.visible).map_values(|e: ElementView| e.value)
}

/// A fresh, visible element.
pub open spec fn fresh(id: Seq<char>, value: char) -> ElementView {
    ElementView { id, value, visible: true }
}

/// `s` with the element at position `i` hidden.
pub open spec fn tombstone(s: Seq<ElementView>, i: int) -> Seq<ElementView>
    recommends
        0 <= i < s.len(),
{
    s.update(i, ElementView { id: s[i].id, value: s[i].value, visible: false })
}

/// What a replica holding `mine` stores once it has taken in `theirs` from
/// first to last: each element whose identifier is not stored yet is appended,
/// every other one is skipped.
pub open spec fn absorb(mine: Seq<ElementView>, theirs: Seq<ElementView>) -> Seq<ElementView>
    decreases theirs.len(),
{
    if theirs.len() == 0 {
        mine
    } else {
        let sofar = absorb(mine, theirs.drop_last());
        if has_id(sofar, theirs.last().id) {
            sofar
        } else {
            sofar.push(theirs.last())
        }
    }
}

/// The first position at or after `from` whose element has an identifier
/// greater than `id`, or the length of `s` when there is none.
pub open spec fn slot(s: Seq<ElementView>, id: Seq<char>, from: int) -> int
    decreases s.len() - from,
{
    if from < 0 || from >= s.len() {
        s.len() as int
    } else if id_lt(id, s[from].id) {
        from
    } else {
        slot(s, id, from + 1)
    }
}

/// `s` with `e` placed behind every element whose identifier is not greater
/// than its own.
pub open spec fn insert_in_order(s: Seq<ElementView>, e: ElementView) -> Seq<ElementView> {
    s.insert(slot(s, e.id, 0), e)
}

/// The elements of `s` arranged by identifier, smallest first; elements with
/// the same identifier keep their relative order.
pub open spec fn sort_by_id(s: Seq<ElementView>) -> Seq<ElementView>
    decreases s.len(),
{
    if s.len() == 0 {
        s
    } else {
        insert_in_order(sort_by_id(s.drop_last()), s.last())
    }
}

/// Whether the identifiers in `s` never go down from one element to a later
/// one.
pub open spec fn ascending(s: Seq<ElementView>) -> bool {
    forall|i: int, j: int|
        0 <= i < j < s.len() ==> !id_lt((#[trigger] s[j]).id, (#[trigger] s[i]).id)
}

/// The state of a replica holding `mine` after merging in `theirs`: the new
/// elements are taken in, then everything is arranged by identifier.
pub open spec fn merge_spec(mine: Seq<ElementView>, theirs: Seq<ElementView>) -> Seq<
    ElementView,
> {
    sort_by_id(absorb(mine, theirs))
}

/// Replicated Growable Array: an ordered sequence of elements, hidden ones
/// included.
#[derive(Debug)]
pub struct RGA {
    pub elements: Vec<Element>,
}

impl View for RGA {
    type V = Seq<ElementView>;

    open spec fn view(&self) -> Seq<ElementView> {
        views(self.elements@)
    }
}

impl Clone for RGA {
    fn clone(&self) -> (r: Self)
        ensures
            r@ == self@,
    {
        let elements = self.elements.clone();
        assert(elements@ =~= self.elements@);
        RGA { elements }
    }
}

impl Default for RGA {
    fn default() -> (r: Self)
        ensures
            r@ == Seq::<ElementView>::empty(),
    {
        RGA::new()
    }
}

/// Replicated sequences of characters that are edited by position and
/// reconciled by merging whole states.
pub trait CRDT: Sized {
    /// The number of stored elements, hidden ones included.
    spec fn size(&self) -> nat;

    /// Inserts `value` at position `index`, which may be one past the end.
    fn insert(&mut self, index: usize, value: char) -> (r: Result<Operation, CollaboriError>)
        ensures
            r is Ok <==> index <= old(self).size(),
            match r {
                Ok(op) => {
                    &&& op@ is Insert
                    &&& op@.index() == index
                    &&& op@->Insert_value == value
                    &&& final(self).size() == old(self).size() + 1
                },
                Err(e) => {
                    &&& e == CollaboriError::IndexOutOfRange
                    &&& final(self).size() == old(self).size()
                },
            },
    ;

    /// Hides the element at position `index`.
    fn delete(&mut self, index: usize) -> (r: Result<Operation, CollaboriError>)
        ensures
            r is Ok <==> index < old(self).size(),
            final(self).size() == old(self).size(),
            match r {
                Ok(op) => op@ is Delete && op@.index() == index,
                Err(e) => e == CollaboriError::IndexOutOfRange,
            },
    ;

    /// Takes in the state of another replica; nothing stored is dropped.
    fn merge(&mut self, other: Self)
        ensures
            old(self).size() <= final(self).size() <= old(self).size() + other.size(),
    ;
}

impl CRDT for RGA {
    open spec fn size(&self) -> nat {
        self@.len()
    }

    fn insert(&mut self, index: usize, value: char) -> (r: Result<Operation, CollaboriError>) {
        RGA::insert(self, index, value)
    }

    fn delete(&mut self, index: usize) -> (r: Result<Operation, CollaboriError>) {
        RGA::delete(self, index)
    }

    fn merge(&mut self, other: Self)
        ensures
            final(self)@ == merge_spec(old(self)@, other@),
            ascending(final(self)@),
            forall|e: ElementView|
                #![trigger old(self)@.contains(e)]
                #![trigger final(self)@.contains(e)]
                old(self)@.contains(e) ==> final(self)@.contains(e),
            forall|id: Seq<char>|
                #![trigger has_id(final(self)@, id)]
                #![trigger has_id(old(self)@, id)]
                #![trigger has_id(other@, id)]
                has_id(final(self)@, id) <==> has_id(old(self)@, id) || has_id(other@, id),
            old(self).wf() ==> final(self).wf(),
    {
        proof {
            lemma_absorb(self@, other@);
            lemma_sort_by_id(absorb(self@, other@));
        }
        RGA::merge(self, other)
    }
}

impl RGA {
    /// Whether the replica is valid: no identifier occurs twice.
    pub open spec fn wf(&self) -> bool {
        unique_ids(self@)
    }

    /// Creates an empty replica.
    pub fn new() -> (r: Self)
        ensures
            r@ == Seq::<ElementView>::empty(),
            r.wf(),
    {
        let r = RGA { elements: Vec::new() };
        assert(r@ =~= Seq::<ElementView>::empty());
        r
    }

    /// The observable document: the characters of the visible elements, in
    /// sequence order.
    pub fn visible_text(&self) -> (text: String)
        ensures
            text@ == visible_text(self@),
    {
        let mut text = String::new();
        let mut i: usize = 0;
        assert(self@.take(0) =~= Seq::<ElementView>::empty());
        assert(visible_text(Seq::<ElementView>::empty()) =~= Seq::<char>::empty());
        while i < self.elements.len()
            invariant
                i <= self.elements.len(),
                text@ == visible_text(self@.take(i as int)),
            decreases self.elements.len() - i,
        {
            proof {
                assert(self@.take(i + 1) =~= self@.take(i as int).push(self@[i as int]));
                lemma_visible_text_push(self@.take(i as int), self@[i as int]);
            }
            if self.elements[i].visible {
                text.push(self.elements[i].value);
            }
            i += 1;
        }
        assert(self@.take(i as int) =~= self@);
        text
    }

    /// Whether an element with identifier `id` is stored in the replica.
    pub fn contains_id(&self, id: &str) -> (r: bool)
        ensures
            r == has_id(self@, id@),
    {
        let mut i: usize = 0;
        while i < self.elements.len()
            invariant
                i <= self.elements.len(),
                forall|j: int| 0 <= j < i ==> (#[trigger] self@[j]).id != id@,
            decreases self.elements.len() - i,
        {
            if same_id(self.elements[i].id.as_str(), id) {
                assert(self@[i as int].id == id@);
                return true;
            }
            i += 1;
        }
        false
    }

    /// Splices a fresh visible element with the given identifier into the
    /// sequence at position `index`, which counts hidden elements too and may
    /// be one past the end.
    ///
    /// Fails with `IndexOutOfRange`, leaving the replica untouched, exactly
    /// when `index` is greater than the number of stored elements.
    pub fn insert_with_id(&mut self, index: usize, value: char, id: String) -> (r: Result<
        Operation,
        CollaboriError,
    >)
        ensures
            r is Ok <==> index <= old(self)@.len(),
            match r {
                Ok(op) => {
                    &&& op@ == (OperationView::Insert { index: index as nat, value, id: id@ })
                    &&& final(self)@ == old(self)@.insert(index as int, fresh(id@, value))
                },
                Err(e) => e == CollaboriError::IndexOutOfRange && final(self)@ == old(self)@,
            },
            old(self).wf() && !has_id(old(self)@, id@) && r is Ok ==> final(self).wf(),
    {
        if index > self.elements.len() {
            return Err(CollaboriError::IndexOutOfRange);
        }
        let element = Element { id: id.clone(), value, visible: true };
        self.elements.insert(index, element);
        proof {
            assert(self@ =~= old(self)@.insert(index as int, fresh(id@, value)));
            if old(self).wf() && !has_id(old(self)@, id@) {
                lemma_insert_keeps_unique(old(self)@, index as int, fresh(id@, value));
            }
        }
        Ok(Operation::Insert { index, value, id })
    }

    /// Inserts a character at position `index` under a freshly generated
    /// identifier and returns the operation that describes the edit.
    ///
    /// Fails with `IndexOutOfRange`, leaving the replica untouched, exactly
    /// when `index` is greater than the number of stored elements.
    pub fn insert(&mut self, index: usize, value: char) -> (r: Result<Operation, CollaboriError>)
        ensures
            r is Ok <==> index <= old(self)@.len(),
            match r {
                Ok(op) => {
                    &&& op@ == (OperationView::Insert { index: index as nat, value, id: op@.id() })
                    &&& is_uuid_text(op@.id())
                    &&& final(self)@ == old(self)@.insert(index as int, fresh(op@.id(), value))
                },
                Err(e) => e == CollaboriError::IndexOutOfRange && final(self)@ == old(self)@,
            },
            old(self).wf() && r is Ok && !has_id(old(self)@, r->Ok_0@.id()) ==> final(self).wf(),
    {
        let id = generate_unique_id();
        self.insert_with_id(index, value, id)
    }

    /// Hides the element at position `index` and returns the operation that
    /// describes the edit, carrying the identifier of that element. Hiding an
    /// element that is already hidden changes nothing and still succeeds.
    ///
    /// Fails with `IndexOutOfRange`, leaving the replica untouched, exactly
    /// when `index` is not the position of a stored element.
    pub fn delete(&mut self, index: usize) -> (r: Result<Operation, CollaboriError>)
        ensures
            r is Ok <==> index < old(self)@.len(),
            match r {
                Ok(op) => {
                    &&& op@ == (OperationView::Delete {
                        index: index as nat,
                        id: old(self)@[index as int].id,
                    })
                    &&& final(self)@ == tombstone(old(self)@, index as int)
                },
                Err(e) => e == CollaboriError::IndexOutOfRange && final(self)@ == old(self)@,
            },
            old(self).wf() ==> final(self).wf(),
    {
        if index >= self.elements.len() {
            return Err(CollaboriError::IndexOutOfRange);
        }
        let id = self.elements[index].id.clone();
        let value = self.elements[index].value;
        self.elements.set(index, Element { id: id.clone(), value, visible: false });
        proof {
            assert(self@ =~= tombstone(old(self)@, index as int));
            if old(self).wf() {
                assert forall|i: int, j: int| 0 <= i < j < self@.len() implies (#[trigger] self@[i]).id
                    != (#[trigger] self@[j]).id by {
                    assert(self@[i].id == old(self)@[i].id);
                    assert(self@[j].id == old(self)@[j].id);
                }
            }
        }
        Ok(Operation::Delete { index, id })
    }

    /// Merges the state of another replica into this one: every element of
    /// `other` whose identifier is not stored here yet is taken in, and the
    /// whole sequence is then arranged by identifier, smallest first.
    ///
    /// Nothing stored is lost, and a valid replica stays valid.
    pub fn merge(&mut self, other: RGA)
        ensures
            final(self)@ == merge_spec(old(self)@, other@),
            ascending(final(self)@),
            forall|e: ElementView|
                #![trigger old(self)@.contains(e)]
                #![trigger final(self)@.contains(e)]
                old(self)@.contains(e) ==> final(self)@.contains(e),
            forall|e: ElementView| #[trigger]
                final(self)@.contains(e) ==> old(self)@.contains(e) || other@.contains(e),
            forall|id: Seq<char>|
                #![trigger has_id(final(self)@, id)]
                #![trigger has_id(old(self)@, id)]
                #![trigger has_id(other@, id)]
                has_id(final(self)@, id) <==> has_id(old(self)@, id) || has_id(other@, id),
            old(self).wf() ==> final(self).wf(),
    {
        let mut k: usize = 0;
        while k < other.elements.len()
            invariant
                k <= other.elements.len(),
                self@ == absorb(old(self)@, other@.take(k as int)),
            decreases other.elements.len() - k,
        {
            let elem = &other.elements[k];
            let known = self.contains_id(elem.id.as_str());
            proof {
                assert(other@.take(k + 1).drop_last() =~= other@.take(k as int));
                assert(other@.take(k + 1).last() == elem@);
            }
            if !known {
                let ghost before = self@;
                self.elements.push(elem.clone());
                assert(self@ =~= before.push(elem@));
            }
            k += 1;
        }
        assert(other@.take(k as int) =~= other@);
        let sorted = sorted_by_id(&self.elements);
        self.elements = sorted;
        proof {
            lemma_merge_spec(old(self)@, other@);
        }
    }
}

/// The position at which an element with identifier `id` goes into `v`.
fn find_slot(v: &Vec<Element>, id: &str) -> (p: usize)
    ensures
        p == slot(views(v@), id@, 0),
        p <= v.len(),
{
    let mut p: usize = 0;
    while p < v.len() && !id_precedes(id, v[p].id.as_str())
        invariant
            p <= v.len(),
            slot(views(v@), id@, 0) == slot(views(v@), id@, p as int),
        decreases v.len() - p,
    {
        p += 1;
    }
    p
}

/// The elements of `v` arranged by identifier.
fn sorted_by_id(v: &Vec<Element>) -> (out: Vec<Element>)
    ensures
        views(out@) == sort_by_id(views(v@)),
{
    let mut out: Vec<Element> = Vec::new();
    let mut k: usize = 0;
    assert(views(v@).take(0) =~= Seq::<ElementView>::empty());
    assert(views(out@) =~= Seq::<ElementView>::empty());
    while k < v.len()
        invariant
            k <= v.len(),
            views(out@) == sort_by_id(views(v@).take(k as int)),
        decreases v.len() - k,
    {
        let e = v[k].clone();
        let p = find_slot(&out, e.id.as_str());
        let ghost before = views(out@);
        out.insert(p, e);
        proof {
            assert(views(out@) =~= before.insert(p as int, e@));
            assert(views(v@).take(k + 1).drop_last() =~= views(v@).take(k as int));
            assert(views(v@).take(k + 1).last() == e@);
        }
        k += 1;
    }
    assert(views(v@).take(k as int) =~= views(v@));
    out
}

/// Where [`slot`] lands: every element it passes over has an identifier that
/// is not greater than `id`, and the element it stops at has a greater one.
pub proof fn lemma_slot(s: Seq<ElementView>, id: Seq<char>, from: int)
    requires
        0 <= from <= s.len(),
    ensures
        from <= slot(s, id, from) <= s.len(),
        forall|i: int| from <= i < slot(s, id, from) ==> !id_lt(id, (#[trigger] s[i]).id),
        slot(s, id, from) < s.len() ==> id_lt(id, s[slot(s, id, from)].id),
    decreases s.len() - from,
{
    if from < s.len() && !id_lt(id, s[from].id) {
        lemma_slot(s, id, from + 1);
    }
}

/// The members of a sequence after one more element was spliced in.
pub proof fn lemma_insert_members(s: Seq<ElementView>, p: int, e: ElementView)
    requires
        0 <= p <= s.len(),
    ensures
        forall|x: ElementView|
            #![trigger s.insert(p, e).contains(x)]
            #![trigger s.contains(x)]
            s.insert(p, e).contains(x) <==> x == e || s.contains(x),
{
    let t = s.insert(p, e);
    assert forall|x: ElementView| t.contains(x) <==> x == e || s.contains(x) by {
        if t.contains(x) {
            let k = choose|k: int| 0 <= k < t.len() && t[k] == x;
            if k < p {
                assert(s[k] == x);
            } else if k > p {
                assert(s[k - 1] == x);
            }
        }
        if x == e {
            assert(t[p] == x);
        }
        if s.contains(x) {
            let k = choose|k: int| 0 <= k < s.len() && s[k] == x;
            if k < p {
                assert(t[k] == x);
            } else {
                assert(t[k + 1] == x);
            }
        }
    }
}

/// A sequence that holds every member of another holds every identifier of it.
pub proof fn lemma_members_carry_ids(s: Seq<ElementView>, t: Seq<ElementView>)
    requires
        forall|x: ElementView| #[trigger] s.contains(x) ==> t.contains(x),
    ensures
        forall|id: Seq<char>| #[trigger] has_id(s, id) ==> has_id(t, id),
{
    assert forall|id: Seq<char>| has_id(s, id) implies has_id(t, id) by {
        let i = choose|i: int| 0 <= i < s.len() && (#[trigger] s[i]).id == id;
        assert(s.contains(s[i]));
        let k = choose|k: int| 0 <= k < t.len() && t[k] == s[i];
        assert(t[k].id == id);
    }
}

/// Placing an element in order keeps an ascending sequence ascending.
pub proof fn lemma_insert_in_order_ascending(s: Seq<ElementView>, e: ElementView)
    requires
        ascending(s),
    ensures
        ascending(insert_in_order(s, e)),
{
    let p = slot(s, e.id, 0);
    lemma_slot(s, e.id, 0);
    let t = insert_in_order(s, e);
    assert forall|i: int, j: int| 0 <= i < j < t.len() implies !id_lt(
        (#[trigger] t[j]).id,
        (#[trigger] t[i]).id,
    ) by {
        if j == p {
            assert(t[i] == s[i]);
        } else if i == p {
            assert(t[j] == s[j - 1]);
            lemma_id_lt_asymmetric(e.id, s[p].id);
            if j - 1 > p {
                assert(!id_lt(s[j - 1].id, s[p].id));
                lemma_id_lt_transitive(s[j - 1].id, e.id, s[p].id);
            }
        } else {
            let oi = if i < p { i } else { i - 1 };
            let oj = if j < p { j } else { j - 1 };
            assert(t[i] == s[oi]);
            assert(t[j] == s[oj]);
        }
    }
}

/// Arranging by identifier gives an ascending sequence with the same members
/// and the same length, and keeps identifiers unique.
pub proof fn lemma_sort_by_id(s: Seq<ElementView>)
    ensures
        ascending(sort_by_id(s)),
        sort_by_id(s).len() == s.len(),
        forall|x: ElementView|
            #![trigger sort_by_id(s).contains(x)]
            #![trigger s.contains(x)]
            sort_by_id(s).contains(x) <==> s.contains(x),
        forall|id: Seq<char>|
            #![trigger has_id(sort_by_id(s), id)]
            #![trigger has_id(s, id)]
            has_id(sort_by_id(s), id) <==> has_id(s, id),
        unique_ids(s) ==> unique_ids(sort_by_id(s)),
    decreases s.len(),
{
    if s.len() > 0 {
        let front = s.drop_last();
        let e = s.last();
        let sorted = sort_by_id(front);
        lemma_sort_by_id(front);
        lemma_slot(sorted, e.id, 0);
        lemma_insert_in_order_ascending(sorted, e);
        lemma_insert_members(sorted, slot(sorted, e.id, 0), e);
        assert forall|x: ElementView| sort_by_id(s).contains(x) <==> s.contains(x) by {
            if s.contains(x) {
                let k = choose|k: int| 0 <= k < s.len() && s[k] == x;
                if k < s.len() - 1 {
                    assert(front[k] == x);
                }
            }
            if front.contains(x) {
                let k = choose|k: int| 0 <= k < front.len() && front[k] == x;
                assert(s[k] == x);
            }
            if x == e {
                assert(s[s.len() - 1] == x);
            }
        }
        lemma_members_carry_ids(sort_by_id(s), s);
        lemma_members_carry_ids(s, sort_by_id(s));
        if unique_ids(s) {
            assert(unique_ids(front));
            if has_id(sorted, e.id) {
                assert(has_id(front, e.id));
                let i = choose|i: int| 0 <= i < front.len() && (#[trigger] front[i]).id == e.id;
                assert(front[i] == s[i]);
                assert(s[i].id == s[s.len() - 1].id);
            }
            lemma_insert_keeps_unique(sorted, slot(sorted, e.id, 0), e);
        }
    }
}

/// What taking in another replica's elements does: the elements held before
/// stay in front, nothing comes from elsewhere, the identifiers are those of
/// both sides, and unique identifiers stay unique.
pub proof fn lemma_absorb(mine: Seq<ElementView>, theirs: Seq<ElementView>)
    ensures
        mine.len() <= absorb(mine, theirs).len() <= mine.len() + theirs.len(),
        absorb(mine, theirs).take(mine.len() as int) == mine,
        forall|x: ElementView|
            #![trigger mine.contains(x)]
            #![trigger absorb(mine, theirs).contains(x)]
            mine.contains(x) ==> absorb(mine, theirs).contains(x),
        forall|x: ElementView| #[trigger]
            absorb(mine, theirs).contains(x) ==> mine.contains(x) || theirs.contains(x),
        forall|id: Seq<char>|
            #![trigger has_id(absorb(mine, theirs), id)]
            #![trigger has_id(mine, id)]
            #![trigger has_id(theirs, id)]
            has_id(absorb(mine, theirs), id) <==> has_id(mine, id) || has_id(theirs, id),
        unique_ids(mine) ==> unique_ids(absorb(mine, theirs)),
    decreases theirs.len(),
{
    let all = absorb(mine, theirs);
    if theirs.len() == 0 {
        assert(mine.take(mine.len() as int) =~= mine);
    } else {
        let front = theirs.drop_last();
        let e = theirs.last();
        let sofar = absorb(mine, front);
        lemma_absorb(mine, front);
        assert(all.take(mine.len() as int) =~= sofar.take(mine.len() as int));
        lemma_insert_members(sofar, sofar.len() as int, e);
        assert(sofar.push(e) =~= sofar.insert(sofar.len() as int, e));
        assert forall|x: ElementView| all.contains(x) implies mine.contains(x) || theirs.contains(
            x,
        ) by {
            if x == e {
                assert(theirs[theirs.len() - 1] == x);
            } else if !mine.contains(x) {
                assert(sofar.contains(x));
                let k = choose|k: int| 0 <= k < front.len() && front[k] == x;
                assert(theirs[k] == x);
            }
        }
        assert forall|id: Seq<char>| has_id(all, id) <==> has_id(mine, id) || has_id(
            theirs,
            id,
        ) by {
            if has_id(all, id) && !has_id(sofar, id) {
                let i = choose|i: int| 0 <= i < all.len() && (#[trigger] all[i]).id == id;
                assert(i == sofar.len());
                assert(theirs[theirs.len() - 1].id == id);
            }
            if has_id(sofar, id) {
                let i = choose|i: int| 0 <= i < sofar.len() && (#[trigger] sofar[i]).id == id;
                assert(all[i].id == id);
            }
            if has_id(front, id) {
                let i = choose|i: int| 0 <= i < front.len() && (#[trigger] front[i]).id == id;
                assert(theirs[i].id == id);
            }
            if has_id(theirs, id) && !has_id(front, id) {
                let i = choose|i: int| 0 <= i < theirs.len() && (#[trigger] theirs[i]).id == id;
                if i < front.len() {
                    assert(front[i].id == id);
                }
                assert(e.id == id);
                if !has_id(sofar, id) {
                    assert(all[sofar.len() as int].id == id);
                }
            }
        }
        if unique_ids(mine) && !has_id(sofar, e.id) {
            lemma_insert_keeps_unique(sofar, sofar.len() as int, e);
        }
    }
}

/// What [`merge_spec`] guarantees for every pair of states.
pub proof fn lemma_merge_spec(mine: Seq<ElementView>, theirs: Seq<ElementView>)
    ensures
        ascending(merge_spec(mine, theirs)),
        forall|x: ElementView|
            #![trigger mine.contains(x)]
            #![trigger merge_spec(mine, theirs).contains(x)]
            mine.contains(x) ==> merge_spec(mine, theirs).contains(x),
        forall|x: ElementView| #[trigger]
            merge_spec(mine, theirs).contains(x) ==> mine.contains(x) || theirs.contains(x),
        forall|id: Seq<char>|
            #![trigger has_id(merge_spec(mine, theirs), id)]
            #![trigger has_id(mine, id)]
            #![trigger has_id(theirs, id)]
            has_id(merge_spec(mine, theirs), id) <==> has_id(mine, id) || has_id(theirs, id),
        unique_ids(mine) ==> unique_ids(merge_spec(mine, theirs)),
{
    lemma_absorb(mine, theirs);
    lemma_sort_by_id(absorb(mine, theirs));
}

/// Whether two states tell the same story about every identifier that both
/// of them hold.
pub open spec fn agree_on_shared_ids(a: Seq<ElementView>, b: Seq<ElementView>) -> bool {
    forall|i: int, j: int|
        0 <= i < a.len() && 0 <= j < b.len() && (#[trigger] a[i]).id == (#[trigger] b[j]).id
            ==> a[i] == b[j]
}

/// Whether two states have no identifier in common.
pub open spec fn disjoint_ids(a: Seq<ElementView>, b: Seq<ElementView>) -> bool {
    forall|i: int, j: int|
        0 <= i < a.len() && 0 <= j < b.len() ==> (#[trigger] a[i]).id != (#[trigger] b[j]).id
}

/// An ascending sequence without repeated identifiers is determined by its
/// members: two such sequences with the same members are the same sequence.
pub proof fn lemma_ascending_unique(a: Seq<ElementView>, b: Seq<ElementView>)
    requires
        ascending(a),
        ascending(b),
        unique_ids(a),
        unique_ids(b),
        forall|x: ElementView|
            #![trigger a.contains(x)]
            #![trigger b.contains(x)]
            a.contains(x) <==> b.contains(x),
    ensures
        a == b,
    decreases a.len(),
{
    if a.len() == 0 {
        if b.len() > 0 {
            assert(b.contains(b[0]));
        }
        assert(a =~= b);
    } else if b.len() == 0 {
        assert(a.contains(a[0]));
    } else {
        assert(a.contains(a[0]));
        assert(b.contains(b[0]));
        let k = choose|k: int| 0 <= k < b.len() && b[k] == a[0];
        let m = choose|m: int| 0 <= m < a.len() && a[m] == b[0];
        assert_by_contradiction!(k == 0, {
            // b[0] comes first in b, so it is smaller than a[0], which sits
            // at k; yet in a it stands at or behind a[0]
            assert(!id_lt(b[k].id, b[0].id));
            assert(b[0].id != b[k].id);
            lemma_id_lt_total(b[0].id, b[k].id);
            if m > 0 {
                assert(!id_lt(a[m].id, a[0].id));
            }
        });
        assert(a[0] == b[0]);
        let ta = a.drop_first();
        let tb = b.drop_first();
        assert forall|x: ElementView| ta.contains(x) <==> tb.contains(x) by {
            if ta.contains(x) {
                let i = choose|i: int| 0 <= i < ta.len() && ta[i] == x;
                assert(a[i + 1] == x);
                assert(a[0].id != a[i + 1].id);
                assert(b.contains(x));
                let j = choose|j: int| 0 <= j < b.len() && b[j] == x;
                assert(tb[j - 1] == x);
            }
            if tb.contains(x) {
                let i = choose|i: int| 0 <= i < tb.len() && tb[i] == x;
                assert(b[i + 1] == x);
                assert(b[0].id != b[i + 1].id);
                assert(a.contains(x));
                let j = choose|j: int| 0 <= j < a.len() && a[j] == x;
                assert(ta[j - 1] == x);
            }
        }
        assert forall|i: int, j: int| 0 <= i < j < ta.len() implies !id_lt(
            (#[trigger] ta[j]).id,
            (#[trigger] ta[i]).id,
        ) && ta[i].id != ta[j].id by {
            assert(ta[i] == a[i + 1]);
            assert(ta[j] == a[j + 1]);
        }
        assert forall|i: int, j: int| 0 <= i < j < tb.len() implies !id_lt(
            (#[trigger] tb[j]).id,
            (#[trigger] tb[i]).id,
        ) && tb[i].id != tb[j].id by {
            assert(tb[i] == b[i + 1]);
            assert(tb[j] == b[j + 1]);
        }
        lemma_ascending_unique(ta, tb);
        assert(a =~= seq![a[0]] + ta);
        assert(b =~= seq![b[0]] + tb);
    }
}

/// When no identifier occurs twice in `theirs` and both sides agree on the
/// identifiers they share, taking in `theirs` yields exactly the members of
/// both sides.
pub proof fn lemma_absorb_union(mine: Seq<ElementView>, theirs: Seq<ElementView>)
    requires
        unique_ids(theirs),
        agree_on_shared_ids(mine, theirs),
    ensures
        forall|x: ElementView|
            #![trigger absorb(mine, theirs).contains(x)]
            #![trigger mine.contains(x)]
            #![trigger theirs.contains(x)]
            absorb(mine, theirs).contains(x) <==> mine.contains(x) || theirs.contains(x),
    decreases theirs.len(),
{
    let all = absorb(mine, theirs);
    lemma_absorb(mine, theirs);
    if theirs.len() > 0 {
        let front = theirs.drop_last();
        let e = theirs.last();
        let sofar = absorb(mine, front);
        assert forall|i: int, j: int| 0 <= i < j < front.len() implies (#[trigger] front[i]).id != (
        #[trigger] front[j]).id by {
            assert(front[i] == theirs[i]);
            assert(front[j] == theirs[j]);
        }
        assert forall|i: int, j: int|
            0 <= i < mine.len() && 0 <= j < front.len() && (#[trigger] mine[i]).id == (
            #[trigger] front[j]).id implies mine[i] == front[j] by {
            assert(front[j] == theirs[j]);
        }
        lemma_absorb_union(mine, front);
        lemma_absorb(mine, front);
        lemma_insert_members(sofar, sofar.len() as int, e);
        assert(sofar.push(e) =~= sofar.insert(sofar.len() as int, e));
        assert forall|x: ElementView| theirs.contains(x) implies all.contains(x) by {
            let k = choose|k: int| 0 <= k < theirs.len() && theirs[k] == x;
            if k < front.len() {
                assert(front[k] == x);
                assert(front.contains(x));
                assert(sofar.contains(x));
                if !has_id(sofar, e.id) {
                    assert(sofar.insert(sofar.len() as int, e).contains(x));
                }
            } else if has_id(sofar, e.id) {
                // the identifier is known already, and only this side can know it
                assert(x == e);
                assert(all == sofar);
                if has_id(front, e.id) {
                    let i = choose|i: int| 0 <= i < front.len() && (#[trigger] front[i]).id == e.id;
                    assert(front[i] == theirs[i]);
                    assert(theirs[i].id == theirs[theirs.len() - 1].id);
                }
                assert(has_id(mine, e.id));
                let i = choose|i: int| 0 <= i < mine.len() && (#[trigger] mine[i]).id == e.id;
                assert(mine[i].id == theirs[theirs.len() - 1].id);
                assert(mine[i] == theirs[theirs.len() - 1]);
                assert(mine.contains(x));
                assert(sofar.contains(x));
            } else {
                assert(x == e);
                assert(sofar.insert(sofar.len() as int, e).contains(x));
            }
        }
    }
}

/// Merging is symmetric for valid replicas that agree on the identifiers they
/// share: whichever of the two takes in the other, both end up with the same
/// sequence.
pub proof fn lemma_merge_commutes_when_agreeing(r1: Seq<ElementView>, r2: Seq<ElementView>)
    requires
        unique_ids(r1),
        unique_ids(r2),
        agree_on_shared_ids(r1, r2),
    ensures
        merge_spec(r1, r2) == merge_spec(r2, r1),
{
    assert(agree_on_shared_ids(r2, r1));
    lemma_absorb_union(r1, r2);
    lemma_absorb_union(r2, r1);
    lemma_absorb(r1, r2);
    lemma_absorb(r2, r1);
    lemma_sort_by_id(absorb(r1, r2));
    lemma_sort_by_id(absorb(r2, r1));
    assert forall|x: ElementView| merge_spec(r1, r2).contains(x) <==> merge_spec(r2, r1).contains(
        x,
    ) by {
        assert(merge_spec(r1, r2).contains(x) <==> absorb(r1, r2).contains(x));
        assert(absorb(r1, r2).contains(x) <==> r1.contains(x) || r2.contains(x));
        assert(absorb(r2, r1).contains(x) <==> r1.contains(x) || r2.contains(x));
        assert(merge_spec(r2, r1).contains(x) <==> absorb(r2, r1).contains(x));
    }
    lemma_ascending_unique(merge_spec(r1, r2), merge_spec(r2, r1));
}

/// Merging is symmetric for valid replicas whose histories share no
/// identifier: `r1` merged with `r2` and `r2` merged with `r1` are the same
/// sequence, element for element.
pub proof fn lemma_merge_commutes(r1: Seq<ElementView>, r2: Seq<ElementView>)
    requires
        unique_ids(r1),
        unique_ids(r2),
        disjoint_ids(r1, r2),
    ensures
        merge_spec(r1, r2) == merge_spec(r2, r1),
{
    lemma_merge_commutes_when_agreeing(r1, r2);
}

/// Merging the same state in a second time changes nothing.
pub proof fn lemma_merge_idempotent(mine: Seq<ElementView>, theirs: Seq<ElementView>)
    requires
        unique_ids(mine),
    ensures
        merge_spec(merge_spec(mine, theirs), theirs) == merge_spec(mine, theirs),
{
    let once = merge_spec(mine, theirs);
    lemma_merge_spec(mine, theirs);
    lemma_absorb_known(once, theirs);
    lemma_sort_by_id(once);
    lemma_ascending_unique(sort_by_id(once), once);
}

/// Taking in elements whose identifiers are all stored already changes
/// nothing.
pub proof fn lemma_absorb_known(mine: Seq<ElementView>, theirs: Seq<ElementView>)
    requires
        forall|id: Seq<char>| #[trigger] has_id(theirs, id) ==> has_id(mine, id),
    ensures
        absorb(mine, theirs) == mine,
    decreases theirs.len(),
{
    if theirs.len() > 0 {
        let front = theirs.drop_last();
        assert forall|id: Seq<char>| has_id(front, id) implies has_id(mine, id) by {
            let i = choose|i: int| 0 <= i < front.len() && (#[trigger] front[i]).id == id;
            assert(theirs[i].id == id);
            assert(has_id(theirs, id));
        }
        lemma_absorb_known(mine, front);
        assert(theirs[theirs.len() - 1].id == theirs.last().id);
        assert(has_id(theirs, theirs.last().id));
    }
}

/// Inserting into an empty replica at position zero leaves exactly one
/// element: visible, with the inserted character, so the document reads as
/// that one character.
pub proof fn lemma_insert_into_empty(id: Seq<char>, value: char)
    ensures
        Seq::<ElementView>::empty().insert(0, fresh(id, value)) == seq![fresh(id, value)],
        fresh(id, value).visible,
        fresh(id, value).value == value,
        visible_text(seq![fresh(id, value)]) == seq![value],
{
    let one = seq![fresh(id, value)];
    assert(Seq::<ElementView>::empty().insert(0, fresh(id, value)) =~= one);
    lemma_visible_text_push(Seq::<ElementView>::empty(), fresh(id, value));
    assert(Seq::<ElementView>::empty().push(fresh(id, value)) =~= one);
    assert(visible_text(Seq::<ElementView>::empty()) =~= Seq::<char>::empty());
    assert(Seq::<char>::empty().push(value) =~= seq![value]);
}

/// Hiding an element a second time changes nothing, and a hidden element
/// stays hidden.
pub proof fn lemma_delete_idempotent(s: Seq<ElementView>, i: int)
    requires
        0 <= i < s.len(),
    ensures
        !tombstone(s, i)[i].visible,
        tombstone(s, i).len() == s.len(),
        tombstone(tombstone(s, i), i) == tombstone(s, i),
{
    assert(tombstone(tombstone(s, i), i) =~= tombstone(s, i));
}

/// The document after one more element was appended to the sequence.
pub proof fn lemma_visible_text_push(s: Seq<ElementView>, e: ElementView)
    ensures
        visible_text(s.push(e)) == if e.visible {
            visible_text(s).push(e.value)
        } else {
            visible_text(s)
        },
{
    let keep = |x: ElementView| x.visible;
    assert(s.push(e).drop_last() =~= s);
    reveal(Seq::filter);
    assert(s.push(e).filter(keep) == if keep(e) {
        s.filter(keep).push(e)
    } else {
        s.filter(keep)
    });
    if e.visible {
        assert(visible_text(s.push(e)) =~= visible_text(s).push(e.value));
    }
}

/// Splicing in an element whose identifier is new keeps identifiers unique.
pub proof fn lemma_insert_keeps_unique(s: Seq<ElementView>, index: int, e: ElementView)
    requires
        0 <= index <= s.len(),
        unique_ids(s),
        !has_id(s, e.id),
    ensures
        unique_ids(s.insert(index, e)),
{
    let t = s.insert(index, e);
    assert forall|i: int, j: int| 0 <= i < j < t.len() implies (#[trigger] t[i]).id != (
    #[trigger] t[j]).id by {
        let oi = if i < index { i } else { i - 1 };
        let oj = if j < index { j } else { j - 1 };
        if i == index {
            assert(t[j] == s[oj]);
        } else if j == index {
            assert(t[i] == s[oi]);
        } else {
            assert(t[i] == s[oi]);
            assert(t[j] == s[oj]);
        }
    }
}

} // verus!
