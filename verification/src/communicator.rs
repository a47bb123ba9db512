//! Traits for the exchange of tasks and reports between a judge and its
//! server.
use vstd::prelude::*;
use crate::mtp;

verus! {

/// The text that ends a stream of tasks.
pub const EOF: &'static str = "EOF";

/// Why a task could not be received or a report sent.
#[derive(PartialEq, Eq, Structural, Debug, Clone, Copy)]
pub enum Error {
    Network,
    Data,
    EOF,
}

/// Receives judge tasks.
pub trait Receiver {
    /// Blocks until a task comes, and returns it.
    fn receive(&self) -> Result<mtp::JudgeTask, Error>;
}

/// Sends judge reports.
pub trait Sender {
    fn send(&self, report: mtp::JudgeReport) -> Result<(), Error>;
}

/// A receiver of tasks that wraps another.
pub struct TaskReceiver<T: Receiver>(T);

impl<T: Receiver> TaskReceiver<T> {
    pub closed spec fn inner(&self) -> T {
        self.0
    }

    pub fn new(inner: T) -> (r: TaskReceiver<T>)
        ensures
            r.inner() == inner,
    {
        TaskReceiver(inner)
    }

    /// The wrapped receiver.
    pub fn get_ref(&self) -> (r: &T)
        ensures
            *r == self.inner(),
    {
        &self.0
    }
}

impl<T: Receiver> Receiver for TaskReceiver<T> {
    /// Receives from the wrapped receiver: the result is one that the
    /// wrapped receiver's `receive` can give.
    fn receive(&self) -> (r: Result<mtp::JudgeTask, Error>)
        ensures
            call_ensures(T::receive, (&self.inner(),), r),
    {
        self.0.receive()
    }
}

} // verus!
