use vstd::prelude::*;

verus! {

/// The outcome of a promised value: the value, or a cancellation.
#[derive(Debug, Clone, PartialEq, Eq)]
pub enum ValuePromiseResult<V> {
    /// The value (`Ok` on the Dart side).
    Value { value: V },
    Cancelled,
}

/// The slot of a promised value: empty until the value or a cancellation is
/// put in, emptied again when it is taken out. Threads share it behind a lock;
/// a reader that must block waits for the slot to fill.
pub struct ValuePromise<V> {
    data: Option<ValuePromiseResult<V>>,
}

impl<V> ValuePromise<V> {
    pub closed spec fn slot(&self) -> Option<ValuePromiseResult<V>> {
        self.data
    }

    pub fn new() -> (res: Self)
        ensures
            res.slot() is None,
    {
        ValuePromise { data: None }
    }

    /// Takes the outcome out, if there is one.
    pub fn try_take(&mut self) -> (res: Option<ValuePromiseResult<V>>)
        ensures
            (res, final(self).slot()) == taken(old(self).slot()),
    {
        self.data.take()
    }

    /// Puts a cancellation in, in place of whatever was there.
    pub fn cancel(&mut self)
        ensures
            final(self).slot() == filled(ValuePromiseResult::<V>::Cancelled),
    {
        self.data = Some(ValuePromiseResult::Cancelled);
    }

    /// Puts an outcome in, in place of whatever was there.
    pub fn set(&mut self, res: ValuePromiseResult<V>)
        ensures
            final(self).slot() == filled(res),
    {
        self.data = Some(res);
    }

    /// Puts a value in, in place of whatever was there.
    pub fn set_value(&mut self, value: V)
        ensures
            final(self).slot() == filled(ValuePromiseResult::Value { value }),
    {
        self.data = Some(ValuePromiseResult::Value { value });
    }
}

/// The slot after an outcome is put in.
pub open spec fn filled<V>(outcome: ValuePromiseResult<V>) -> Option<ValuePromiseResult<V>> {
    Some(outcome)
}

/// What taking gives, and the slot it leaves.
pub open spec fn taken<V>(slot: Option<ValuePromiseResult<V>>) -> (
    Option<ValuePromiseResult<V>>,
    Option<ValuePromiseResult<V>>,
) {
    (slot, None)
}

/// What is put in is what is taken out, once: after an outcome is put in,
/// taking gives it and empties the slot, so taking again gives nothing.
pub proof fn lemma_taken_once<V>(outcome: ValuePromiseResult<V>)
    ensures
        taken(filled(outcome)) == (Some(outcome), None::<ValuePromiseResult<V>>),
        taken(taken(filled(outcome)).1).0 is None,
{
}

} // verus!
