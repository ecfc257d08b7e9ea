//! A value of which only the newest is kept.

use std::sync::Arc;

use vstd::prelude::*;

use tokio::sync::watch;

verus! {

/// The sending half of a watch channel of the tokio crate.
#[verifier::external_type_specification]
#[verifier::external_body]
#[verifier::reject_recursive_types(T)]
pub struct ExWatchSender<T>(tokio::sync::watch::Sender<T>);

/// A watch channel whose one sender stays here, so that only [`replace`] changes
/// its value.
#[verifier::reject_recursive_types(T)]
pub struct Watched<T> {
    sender: watch::Sender<Arc<T>>,
    newest: Ghost<Arc<T>>,
}

impl<T> View for Watched<T> {
    type V = T;

    closed spec fn view(&self) -> T {
        *self.newest@
    }
}

/// Calls `send_replace` of tokio's watch sender: the value takes the place of the
/// one before, whether or not anybody receives it.
#[verifier::external_body]
pub(crate) fn replace<T>(watched: &mut Watched<T>, value: Arc<T>)
    ensures
        final(watched)@ == *value,
{
    watched.sender.send_replace(value);
}

/// Calls `borrow` of tokio's watch sender: the value that was sent last.
#[verifier::external_body]
pub(crate) fn newest<T>(watched: &Watched<T>) -> (value: Arc<T>)
    ensures
        *value == watched@,
{
    Arc::clone(&watched.sender.borrow())
}

impl<T> Watched<T> {
    /// Calls `channel` of tokio's watch, and keeps its sender: the channel holds the
    /// given value.
    #[verifier::external_body]
    pub(crate) fn new(initial: Arc<T>) -> (watched: Self)
        ensures
            watched@ == *initial,
    {
        let newest = Ghost(initial);
        Watched { sender: watch::channel(initial).0, newest }
    }
}

} // verus!
