//! Values that come from background tasks: what is shown while a task runs.
//!
//! Before the first result the value is pending. Later the last good value
//! stays while a newer computation runs, and is told to be a stale one.
use vstd::prelude::*;

verus! {

/// The state of a computation, as its readers see it.
#[derive(Debug)]
pub enum AsyncValue<T> {
    /// No result has come yet.
    Pending,
    /// The last result.
    Ready(T),
}

impl<T> AsyncValue<T> {
    /// The result, if one has come.
    pub open spec fn content(self) -> Option<T> {
        match self {
            AsyncValue::Pending => None,
            AsyncValue::Ready(v) => Some(v),
        }
    }

    pub fn ready(&self) -> (r: Option<&T>)
        ensures
            match *self {
                AsyncValue::Pending => r is None,
                AsyncValue::Ready(v) => r == Some(&v),
            },
    {
        match self {
            AsyncValue::Ready(value) => Some(value),
            AsyncValue::Pending => None,
        }
    }
}

/// What a render sees: the value, which may be a stale one, and whether a
/// newer computation is running.
pub struct AsyncView<'a, T> {
    pub value: &'a AsyncValue<T>,
    pub refreshing: bool,
}

impl<'a, T> AsyncView<'a, T> {
    pub fn ready(&self) -> (r: Option<&'a T>)
        ensures
            match *self.value {
                AsyncValue::Pending => r is None,
                AsyncValue::Ready(v) => r == Some(&v),
            },
    {
        self.value.ready()
    }
}

/// A value and the task that will replace it, if one is running. Launching a
/// task drops the one before it, so no superseded result can arrive.
pub struct AsyncSlot<T> {
    pub value: AsyncValue<T>,
    pub in_flight: bool,
}

impl<T> AsyncSlot<T> {
    pub fn new() -> (r: AsyncSlot<T>)
        ensures
            r == (AsyncSlot { value: AsyncValue::<T>::Pending, in_flight: false }),
    {
        AsyncSlot { value: AsyncValue::Pending, in_flight: false }
    }

    /// A task was started.
    pub fn launch(&mut self)
        ensures
            *final(self) == launched(*old(self)),
    {
        self.in_flight = true;
    }

    /// The task was polled: a result takes the place of the value and ends the
    /// task, no result changes nothing. Is the task done?
    pub fn polled(&mut self, result: Option<T>) -> (done: bool)
        ensures
            done == (!old(self).in_flight || result is Some),
            *final(self) == after_poll(*old(self), result),
    {
        if !self.in_flight {
            return true;
        }
        match result {
            Some(value) => {
                self.value = AsyncValue::Ready(value);
                self.in_flight = false;
                true
            },
            None => false,
        }
    }

    /// What a render is shown.
    pub fn view(&self) -> (r: AsyncView<'_, T>)
        ensures
            *r.value == self.value,
            r.refreshing == (self.in_flight && self.value is Ready),
    {
        let refreshing = self.in_flight && self.value.ready().is_some();
        AsyncView { value: &self.value, refreshing }
    }
}

/// The slot after a launch, and after a poll with this result.
pub open spec fn launched<T>(slot: AsyncSlot<T>) -> AsyncSlot<T> {
    AsyncSlot { value: slot.value, in_flight: true }
}

pub open spec fn after_poll<T>(slot: AsyncSlot<T>, result: Option<T>) -> AsyncSlot<T> {
    if slot.in_flight && result is Some {
        AsyncSlot { value: AsyncValue::Ready(result->0), in_flight: false }
    } else {
        slot
    }
}

/// The last good value stays while a newer computation runs: a launch and a
/// poll without a result leave it, and it is told to be stale.
pub proof fn the_last_good_value_stays<T>(slot: AsyncSlot<T>)
    ensures
        after_poll(launched(slot), None).value == slot.value,
        after_poll(launched(slot), None).in_flight,
{
}

/// The next result replaces the value, and nothing is refreshing any more.
pub proof fn the_next_result_replaces_it<T>(slot: AsyncSlot<T>, result: T)
    ensures
        after_poll(launched(slot), Some(result)) == (AsyncSlot {
            value: AsyncValue::Ready(result),
            in_flight: false,
        }),
{
}

/// Once a value has come, nothing makes it pending again.
pub proof fn ready_is_for_good<T>(slot: AsyncSlot<T>, result: Option<T>)
    requires
        slot.value is Ready,
    ensures
        launched(slot).value is Ready,
        after_poll(slot, result).value is Ready,
{
}

} // verus!
