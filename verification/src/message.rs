//! What travels on a pool's channel.

use vstd::prelude::*;

verus! {

/// One unit on the pool's channel: a job for whichever worker dequeues it, or
/// the marker that tells exactly one worker to stop.
pub enum Message<T> {
    NewJob(T),
    Terminate,
}

impl<T> Message<T> {
    /// Whether this message is the stop marker.
    pub fn is_terminate(&self) -> (stop: bool)
        ensures
            stop == (*self is Terminate),
    {
        match self {
            Message::NewJob(_) => false,
            Message::Terminate => true,
        }
    }

    /// The job that this message carries, if it carries one.
    pub fn into_job(self) -> (job: Option<T>)
        ensures
            job == match self {
                Message::NewJob(j) => Some(j),
                Message::Terminate => None,
            },
    {
        match self {
            Message::NewJob(j) => Some(j),
            Message::Terminate => None,
        }
    }
}

} // verus!
