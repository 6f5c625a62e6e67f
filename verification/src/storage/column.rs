use vstd::prelude::*;
use crate::storage::component::{Component, TypeId, TypeInfo, Value};

verus! {

/// The capacity a column has after it grew from `cap`: one slot at first, then twice as many.
pub open spec fn grown_capacity(cap: nat) -> nat {
    if cap == 0 {
        1
    } else {
        2 * cap
    }
}

/// What is left of `s` when row `i` is taken out and the last row moves into its place.
pub open spec fn swap_removed<A>(s: Seq<A>, i: int) -> Seq<A>
    recommends
        0 <= i < s.len(),
{
    s.update(i, s.last()).drop_last()
}

/// Taking a row out shortens the sequence by one. The last row takes the place of the
/// row that left, unless that was the last row itself, and every other row stays.
pub proof fn lemma_swap_removed<A>(s: Seq<A>, i: int)
    requires
        0 <= i < s.len(),
    ensures
        swap_removed(s, i).len() == s.len() - 1,
        i < s.len() - 1 ==> swap_removed(s, i)[i] == s.last(),
        forall|j: int| 0 <= j < s.len() - 1 && j != i ==> (#[trigger] swap_removed(s, i)[j]) == s[j],
{
}

/// One step in the life of a column: a value is pushed, the last row is popped, or the
/// row at a place is removed.
pub enum ColumnStep {
    Push(Value),
    Pop,
    Remove(nat),
}

/// Whether `step` changes a column whose rows are `rows`. A push always does; a pop and
/// a removal do where there is a row to take.
pub open spec fn step_takes_effect(rows: Seq<Value>, step: ColumnStep) -> bool {
    match step {
        ColumnStep::Push(_) => true,
        ColumnStep::Pop => rows.len() > 0,
        ColumnStep::Remove(i) => i < rows.len(),
    }
}

/// The rows of a column after `step`, where they were `rows` before.
pub open spec fn after_step(rows: Seq<Value>, step: ColumnStep) -> Seq<Value> {
    if !step_takes_effect(rows, step) {
        rows
    } else {
        match step {
            ColumnStep::Push(value) => rows.push(value),
            ColumnStep::Pop => rows.drop_last(),
            ColumnStep::Remove(i) => swap_removed(rows, i as int),
        }
    }
}

/// The rows of a column that started empty and went through `steps`.
pub open spec fn after_steps(steps: Seq<ColumnStep>) -> Seq<Value>
    decreases steps.len(),
{
    if steps.len() == 0 {
        Seq::empty()
    } else {
        after_step(after_steps(steps.drop_last()), steps.last())
    }
}

/// How many of `steps` were pushes.
pub open spec fn pushes_in(steps: Seq<ColumnStep>) -> nat
    decreases steps.len(),
{
    if steps.len() == 0 {
        0
    } else {
        pushes_in(steps.drop_last()) + if steps.last() is Push {
            1nat
        } else {
            0nat
        }
    }
}

/// How many of `steps` took a row out of the column.
pub open spec fn removals_in(steps: Seq<ColumnStep>) -> nat
    decreases steps.len(),
{
    if steps.len() == 0 {
        0
    } else {
        removals_in(steps.drop_last()) + if !(steps.last() is Push) && step_takes_effect(
            after_steps(steps.drop_last()),
            steps.last(),
        ) {
            1nat
        } else {
            0nat
        }
    }
}

/// After any run of steps a column has as many rows as values were pushed, less the
/// rows that were taken out.
pub proof fn lemma_length_counts_steps(steps: Seq<ColumnStep>)
    ensures
        after_steps(steps).len() == pushes_in(steps) - removals_in(steps),
    decreases steps.len(),
{
    if steps.len() > 0 {
        lemma_length_counts_steps(steps.drop_last());
    }
}

/// What a step does to each row. A push writes the new last row; a pop takes the last
/// row; a removal puts the last row where the removed one was. Every other row keeps
/// the value that was written to it last.
pub proof fn lemma_step_keeps_other_rows(rows: Seq<Value>, step: ColumnStep, row: int)
    requires
        0 <= row < after_step(rows, step).len(),
    ensures
        after_step(rows, step)[row] == match step {
            ColumnStep::Push(value) => if row == rows.len() {
                value
            } else {
                rows[row]
            },
            ColumnStep::Pop => rows[row],
            ColumnStep::Remove(i) => if row == i && i < rows.len() {
                rows.last()
            } else {
                rows[row]
            },
        },
{
}

/// A growable array of values of one component type. The first `len` slots hold values,
/// the slots from `len` up to the capacity hold none.
#[derive(Debug)]
pub struct Column {
    slots: Vec<Option<Value>>,
    type_info: TypeInfo,
    len: usize,
    cap: usize,
}

impl Column {
    /// The slots agree with `len` and `cap`, and every value is of the column's type.
    pub closed spec fn wf(&self) -> bool {
        &&& self.cap == self.slots@.len()
        &&& self.len <= self.cap
        &&& forall|i: int|
            0 <= i < self.len ==> (#[trigger] self.slots@[i]) is Some
                && self.slots@[i]->0.spec_type_id() == self.type_info.id
        &&& forall|i: int| self.len <= i < self.cap ==> (#[trigger] self.slots@[i]) is None
    }

    /// The rows of the column, first to last.
    pub closed spec fn view(&self) -> Seq<Value> {
        Seq::new(self.len as nat, |i: int| self.slots@[i]->0)
    }

    /// The descriptor the column was made for.
    pub closed spec fn spec_type_info(&self) -> TypeInfo {
        self.type_info
    }

    /// The identity of the component type the column holds.
    pub open spec fn spec_type_id(&self) -> TypeId {
        self.spec_type_info().id
    }

    /// The number of slots the column has room for.
    pub closed spec fn spec_capacity(&self) -> nat {
        self.cap as nat
    }

    /// In a well-formed column the rows fit the capacity and are all of the column's type.
    pub proof fn lemma_rows(&self)
        requires
            self.wf(),
        ensures
            self@.len() <= self.spec_capacity(),
            self.spec_capacity() <= usize::MAX,
            forall|i: int| 0 <= i < self@.len() ==> (#[trigger] self@[i]).spec_type_id() == self.spec_type_id(),
    {
    }

    /// An empty column for `type_info`: no rows and no capacity.
    pub fn new(type_info: TypeInfo) -> (r: Self)
        ensures
            r.wf(),
            r@ == Seq::<Value>::empty(),
            r.spec_capacity() == 0,
            r.spec_type_info() == type_info,
    {
        Column { slots: Vec::new(), type_info, len: 0, cap: 0 }
    }

    /// The number of rows.
    pub fn len(&self) -> (r: usize)
        requires
            self.wf(),
        ensures
            r == self@.len(),
    {
        self.len
    }

    /// The number of slots the column has room for.
    pub fn capacity(&self) -> (r: usize)
        requires
            self.wf(),
        ensures
            r == self.spec_capacity(),
    {
        self.cap
    }

    /// The descriptor the column was made for.
    pub fn type_info(&self) -> (r: TypeInfo)
        ensures
            r == self.spec_type_info(),
    {
        self.type_info
    }

    /// Makes room: the first growth gives one slot, each later one doubles the capacity.
    /// The rows stay as they are.
    fn grow(&mut self)
        requires
            old(self).wf(),
        ensures
            final(self).wf(),
            final(self)@ == old(self)@,
            final(self).spec_type_info() == old(self).spec_type_info(),
            final(self).spec_capacity() == grown_capacity(old(self).spec_capacity()),
    {
        let old_cap = self.cap;
        if old_cap == 0 {
            self.slots.push(None);
        } else {
            let mut added: usize = 0;
            while added < old_cap
                invariant
                    added <= old_cap,
                    old_cap == old(self).cap,
                    self.len == old(self).len,
                    self.type_info == old(self).type_info,
                    self.slots@.len() == old_cap + added,
                    forall|i: int| 0 <= i < old_cap ==> self.slots@[i] == old(self).slots@[i],
                    forall|i: int| old_cap <= i < old_cap + added ==> (#[trigger] self.slots@[i]) is None,
                decreases old_cap - added,
            {
                self.slots.push(None);
                added = added + 1;
            }
        }
        self.cap = self.slots.len();
        assert(self@ =~= old(self)@);
    }

    /// Puts `value` behind the last row, growing first when the column is full.
    fn push_raw(&mut self, value: Value)
        requires
            old(self).wf(),
            value.spec_type_id() == old(self).spec_type_id(),
        ensures
            final(self).wf(),
            final(self)@ == old(self)@.push(value),
            final(self).spec_type_info() == old(self).spec_type_info(),
            final(self).spec_capacity() == if old(self)@.len() == old(self).spec_capacity() {
                grown_capacity(old(self).spec_capacity())
            } else {
                old(self).spec_capacity()
            },
    {
        if self.len == self.cap {
            self.grow();
        }
        assert(self@.len() == old(self)@.len());
        let index = self.len;
        self.slots[index] = Some(value);
        self.len = index + 1;
        assert(self@ =~= old(self)@.push(value));
    }

    /// Appends a typed value.
    pub fn push<T: Component>(&mut self, component: T)
        requires
            old(self).wf(),
            T::spec_type_id() == old(self).spec_type_id(),
        ensures
            final(self).wf(),
            final(self)@ == old(self)@.push(component.erased()),
            final(self)@ == after_step(old(self)@, ColumnStep::Push(component.erased())),
            final(self).spec_type_info() == old(self).spec_type_info(),
            final(self).spec_capacity() == if old(self)@.len() == old(self).spec_capacity() {
                grown_capacity(old(self).spec_capacity())
            } else {
                old(self).spec_capacity()
            },
    {
        proof {
            component.erased_has_type();
        }
        self.push_raw(component.to_component_ref());
    }

    /// Appends a value whose type was erased. The column takes the value over.
    pub fn push_component(&mut self, component: Value)
        requires
            old(self).wf(),
            component.spec_type_id() == old(self).spec_type_id(),
        ensures
            final(self).wf(),
            final(self)@ == old(self)@.push(component),
            final(self)@ == after_step(old(self)@, ColumnStep::Push(component)),
            final(self).spec_type_info() == old(self).spec_type_info(),
            final(self).spec_capacity() == if old(self)@.len() == old(self).spec_capacity() {
                grown_capacity(old(self).spec_capacity())
            } else {
                old(self).spec_capacity()
            },
    {
        self.push_raw(component);
    }

    /// The rows as typed values, first to last.
    pub fn get_slice<T: Component>(&self) -> (r: Vec<&T>)
        requires
            self.wf(),
            T::spec_type_id() == self.spec_type_id(),
        ensures
            r@.len() == self@.len(),
            forall|i: int| 0 <= i < r@.len() ==> (#[trigger] r@[i]).erased() == self@[i],
    {
        let mut out: Vec<&T> = Vec::new();
        let mut index: usize = 0;
        while index < self.len
            invariant
                self.wf(),
                T::spec_type_id() == self.spec_type_id(),
                index <= self.len,
                out@.len() == index,
                forall|i: int| 0 <= i < index ==> (#[trigger] out@[i]).erased() == self@[i],
            decreases self.len - index,
        {
            match self.get::<T>(index) {
                Some(x) => {
                    out.push(x);
                },
                None => {},
            }
            index = index + 1;
        }
        out
    }

    /// The row at `index` as a typed value, or `None` where the column has no such row.
    pub fn get<T: Component>(&self, index: usize) -> (r: Option<&T>)
        requires
            self.wf(),
            T::spec_type_id() == self.spec_type_id(),
        ensures
            match r {
                Some(x) => index < self@.len() && x.erased() == self@[index as int],
                None => index >= self@.len(),
            },
    {
        if index >= self.len {
            None
        } else {
            match &self.slots[index] {
                Some(v) => T::downcast_ref(v),
                None => None,
            }
        }
    }

    /// The row at `index` for writing, or `None` where the column has no such row.
    /// What the caller writes becomes the row; the other rows stay.
    pub fn get_mut<T: Component>(&mut self, index: usize) -> (r: Option<&mut T>)
        requires
            old(self).wf(),
            T::spec_type_id() == old(self).spec_type_id(),
        ensures
            match r {
                Some(x) => index < old(self)@.len() && x.erased() == old(self)@[index as int]
                    && final(self).wf() && final(self)@ == old(self)@.update(
                    index as int,
                    (*final(x)).erased(),
                ) && final(self).spec_type_info() == old(self).spec_type_info()
                    && final(self).spec_capacity() == old(self).spec_capacity(),
                None => index >= old(self)@.len() && *final(self) == *old(self),
            },
    {
        if index >= self.len {
            None
        } else {
            match &mut self.slots[index] {
                Some(v) => T::downcast_mut(v),
                None => None,
            }
        }
    }

    /// Every row for writing, first to last. What the caller writes through the item at
    /// place `i` becomes row `i`.
    pub fn get_mut_slice<'a, T: Component>(&'a mut self) -> (r: Vec<&'a mut T>)
        requires
            old(self).wf(),
            T::spec_type_id() == old(self).spec_type_id(),
        ensures
            r@.len() == old(self)@.len(),
            forall|i: int| 0 <= i < r@.len() ==> (*(#[trigger] r@[i])).erased() == old(self)@[i],
            final(self).wf(),
            final(self)@.len() == old(self)@.len(),
            forall|i: int| 0 <= i < r@.len() ==> (#[trigger] final(self)@[i]) == (*final(r@[i])).erased(),
            final(self).spec_type_info() == old(self).spec_type_info(),
            final(self).spec_capacity() == old(self).spec_capacity(),
    {
        let len = self.len;
        let ghost id = self.type_info.id;
        let ghost rows = self@;
        let (live, spare) = self.slots.as_mut_slice().split_at_mut(len);
        let ghost start = live@;
        let ghost end = final(live)@;
        let mut out: Vec<&'a mut T> = Vec::new();
        let mut rest: &'a mut [Option<Value>] = live;
        while rest.len() > 0
            invariant
                T::spec_type_id() == id,
                start.len() == len,
                out@.len() + rest@.len() == len,
                rest@ == start.subrange(out@.len() as int, len as int),
                forall|i: int| 0 <= i < len ==> (#[trigger] start[i]) is Some && start[i]->0.spec_type_id() == id,
                forall|i: int| 0 <= i < out@.len() ==> (*(#[trigger] out@[i])).erased() == start[i]->0,
                forall|i: int|
                    0 <= i < out@.len() ==> (*final(#[trigger] out@[i])).erased().spec_type_id() == id,
                end == Seq::new(out@.len(), |i: int| Some((*final(out@[i])).erased())) + final(rest)@,
            decreases rest@.len(),
        {
            let whole = rest;
            let (head, tail) = whole.split_at_mut(1);
            rest = tail;
            assert(head@[0] == start[out@.len() as int]);
            match head.first_mut() {
                Some(slot) => match slot.as_mut() {
                    Some(value) => match T::downcast_mut(value) {
                        Some(typed) => {
                            out.push(typed);
                        },
                        None => {},
                    },
                    None => {},
                },
                None => {},
            }
        }
        proof {
            assert forall|i: int| 0 <= i < out@.len() implies (*(#[trigger] out@[i])).erased() == rows[i] by {
                assert(start[i] == old(self).slots@[i]);
            }
        }
        out
    }

    /// Drops the last row. Returns `false`, and changes nothing, where the column is empty.
    pub fn pop(&mut self) -> (r: bool)
        requires
            old(self).wf(),
        ensures
            final(self).wf(),
            r == (old(self)@.len() > 0),
            final(self)@ == if r {
                old(self)@.drop_last()
            } else {
                old(self)@
            },
            final(self)@ == after_step(old(self)@, ColumnStep::Pop),
            final(self).spec_type_info() == old(self).spec_type_info(),
            final(self).spec_capacity() == old(self).spec_capacity(),
    {
        if self.len == 0 {
            false
        } else {
            let last = self.len - 1;
            let dropped = self.slots[last].take();
            self.len = last;
            assert(self@ =~= old(self)@.drop_last());
            true
        }
    }

    /// Takes the row at `index` out and hands it to the caller. Where it was not the last
    /// row, the last row moves into its place, so the order of the rows is not kept.
    pub fn remove_component(&mut self, index: usize) -> (r: Value)
        requires
            old(self).wf(),
            index < old(self)@.len(),
        ensures
            final(self).wf(),
            r == old(self)@[index as int],
            final(self)@ == swap_removed(old(self)@, index as int),
            final(self)@ == after_step(old(self)@, ColumnStep::Remove(index as nat)),
            final(self).spec_type_info() == old(self).spec_type_info(),
            final(self).spec_capacity() == old(self).spec_capacity(),
    {
        let last = self.len - 1;
        let mut removed = self.slots[last].take();
        if index != last {
            core::mem::swap(&mut self.slots[index], &mut removed);
        }
        self.len = last;
        assert(self@ =~= swap_removed(old(self)@, index as int));
        removed.unwrap()
    }
}

} // verus!
