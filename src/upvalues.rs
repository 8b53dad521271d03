//! Upvalue handling, shared by thunks (delayed computations for lazy evaluation)
//! and closures (lambdas that capture variables from the surrounding scope).

use crate::value::{UpvalueIdx, Value};
use vstd::prelude::*;

verus! {

/// The upvalues of a thunk or closure: the captured values, and the captured
/// `with` stack, if any.
#[derive(Clone, Debug, PartialEq)]
pub struct Upvalues {
    upvalues: Vec<Value>,
    with_stack: Option<Vec<Value>>,
}

/// `v`, or the stack slot it was deferred to.
pub open spec fn resolved(v: Value, stack: Seq<Value>) -> Value {
    match v {
        Value::DeferredUpvalue(idx) => stack[idx.0 as int],
        _ => v,
    }
}

/// Every deferred value among `values` refers to a slot of `stack`.
pub open spec fn deferred_in_range(values: Seq<Value>, stack: Seq<Value>) -> bool {
    forall|i: int|
        0 <= i < values.len() ==> (#[trigger] values[i] matches Value::DeferredUpvalue(idx) ==> idx.0
            < stack.len())
}

impl Upvalues {
    /// The captured values, in order.
    pub closed spec fn values(&self) -> Seq<Value> {
        self.upvalues@
    }

    /// The captured `with` stack.
    pub closed spec fn captured_with_stack(&self) -> Option<Seq<Value>> {
        match self.with_stack {
            Some(s) => Some(s@),
            None => None,
        }
    }

    pub fn with_capacity(count: usize) -> (r: Self)
        ensures
            r.values() == Seq::<Value>::empty(),
            r.captured_with_stack() is None,
    {
        Upvalues { upvalues: Vec::with_capacity(count), with_stack: None }
    }

    /// Pushes an upvalue at the end of the upvalue list.
    pub fn push(&mut self, value: Value)
        ensures
            final(self).values() == old(self).values().push(value),
            final(self).captured_with_stack() == old(self).captured_with_stack(),
    {
        self.upvalues.push(value);
    }

    /// Sets the captured `with` stack.
    pub fn set_with_stack(&mut self, with_stack: Vec<Value>)
        ensures
            final(self).values() == old(self).values(),
            final(self).captured_with_stack() == Some(with_stack@),
    {
        self.with_stack = Some(with_stack);
    }

    pub fn with_stack(&self) -> (r: Option<&Vec<Value>>)
        ensures
            match r {
                Some(s) => self.captured_with_stack() == Some(s@),
                None => self.captured_with_stack() is None,
            },
    {
        self.with_stack.as_ref()
    }

    /// The length of the captured `with` stack; 0 where there is none.
    pub fn with_stack_len(&self) -> (r: usize)
        ensures
            r == match self.captured_with_stack() {
                Some(s) => s.len(),
                None => 0,
            },
    {
        match &self.with_stack {
            None => 0,
            Some(stack) => stack.len(),
        }
    }

    /// The number of captured values.
    pub fn len(&self) -> (r: usize)
        ensures
            r == self.values().len(),
    {
        self.upvalues.len()
    }

    /// The upvalue at `index`.
    pub fn index(&self, index: UpvalueIdx) -> (r: &Value)
        requires
            index.0 < self.values().len(),
        ensures
            *r == self.values()[index.0 as int],
    {
        &self.upvalues[index.0]
    }

    /// Resolves the deferred upvalues from the provided stack slice, in place.
    pub fn resolve_deferred_upvalues(&mut self, stack: &[Value])
        requires
            deferred_in_range(old(self).values(), stack@),
        ensures
            final(self).values().len() == old(self).values().len(),
            forall|i: int|
                0 <= i < old(self).values().len() ==> #[trigger] final(self).values()[i] == resolved(
                    old(self).values()[i],
                    stack@,
                ),
            final(self).captured_with_stack() == old(self).captured_with_stack(),
    {
        let mut i: usize = 0;
        while i < self.upvalues.len()
            invariant
                i <= self.upvalues@.len(),
                self.upvalues@.len() == old(self).upvalues@.len(),
                self.with_stack == old(self).with_stack,
                deferred_in_range(old(self).values(), stack@),
                forall|m: int|
                    0 <= m < i ==> #[trigger] self.upvalues@[m] == resolved(
                        old(self).upvalues@[m],
                        stack@,
                    ),
                forall|m: int| i <= m < self.upvalues@.len() ==> #[trigger] self.upvalues@[m] == old(self).upvalues@[m],
            decreases self.upvalues@.len() - i,
        {
            let idx = match &self.upvalues[i] {
                Value::DeferredUpvalue(idx) => Some(idx.0),
                _ => None,
            };
            if let Some(slot) = idx {
                assert(old(self).upvalues@[i as int] matches Value::DeferredUpvalue(d) && d.0 == slot);
                let v = stack[slot].clone();
                self.upvalues.set(i, v);
            }
            i = i + 1;
        }
    }
}

/// Implemented by all types that carry upvalues.
pub trait UpvalueCarrier {
    fn upvalue_count(&self) -> usize;

    /// Read-only accessor for the stored upvalues.
    fn upvalues(&self) -> &Upvalues;

    /// Mutable accessor for the stored upvalues.
    fn upvalues_mut(&mut self) -> &mut Upvalues;
}

} // verus!
