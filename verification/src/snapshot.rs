//! A latest-wins channel for desired state: the writer replaces, the renderer takes
//! the newest, and a mark says which revision was rendered.

use std::sync::atomic::AtomicU64;
use std::sync::Arc;

use vstd::prelude::*;

use crate::counter::{load, store, Counter, Reading};
use crate::spaces::RenderState;
use crate::watched::{newest, replace, Watched};

verus! {

/// A complete desired state with a revision.
pub trait VersionedSnapshot {
    fn revision(&self) -> u64;
}

impl VersionedSnapshot for RenderState {
    fn revision(&self) -> (revision: u64)
        ensures
            revision == self.application_revision,
    {
        self.application_revision
    }
}

/// The slot between the one that decides and the one that renders.
#[verifier::reject_recursive_types(T)]
pub struct SnapshotChannel<T> {
    desired: Watched<T>,
    rendered: Counter,
}

/// Tells which revision a channel rendered last: zero before the first one. It is
/// taken once, and follows the channel from then on.
#[derive(Debug)]
pub struct PublicationMarker {
    rendered: Reading,
}

impl Clone for PublicationMarker {
    fn clone(&self) -> (marker: Self)
        ensures
            marker.place() == self.place(),
    {
        PublicationMarker { rendered: self.rendered.clone() }
    }
}

impl PublicationMarker {
    /// Where the revision lies that it reads.
    pub closed spec fn place(&self) -> Arc<AtomicU64> {
        self.rendered.place()
    }

    /// The revision that `channel` rendered last, however often it rendered since the
    /// marker was taken from it. The channel is borrowed: no render comes in between.
    pub fn rendered_revision<T>(&self, channel: &SnapshotChannel<T>) -> (revision: u64)
        requires
            self.place() == channel.place(),
        ensures
            revision == channel.rendered(),
    {
        load(&self.rendered, &channel.rendered)
    }
}

impl<T> SnapshotChannel<T> {
    /// What is to be rendered next.
    pub closed spec fn desired(&self) -> T {
        self.desired@
    }

    /// The revision that was rendered last.
    pub closed spec fn rendered(&self) -> u64 {
        self.rendered@
    }

    /// Where that revision lies.
    pub closed spec fn place(&self) -> Arc<AtomicU64> {
        self.rendered.place()
    }

    /// Replaces the desired state. What it replaces is not queued.
    pub fn publish(&mut self, snapshot: Arc<T>)
        ensures
            final(self).desired() == *snapshot,
            final(self).rendered() == old(self).rendered(),
            final(self).place() == old(self).place(),
    {
        replace(&mut self.desired, snapshot);
    }

    /// The desired state, without a mark.
    pub fn current(&self) -> (snapshot: Arc<T>)
        ensures
            *snapshot == self.desired(),
    {
        newest(&self.desired)
    }

    /// A marker that follows this channel.
    pub fn publication_marker(&self) -> (marker: PublicationMarker)
        ensures
            marker.place() == self.place(),
    {
        PublicationMarker { rendered: self.rendered.reading() }
    }
}

impl<T: VersionedSnapshot> SnapshotChannel<T> {
    /// Takes the newest state to render it, and marks the revision that it gives.
    pub fn latest(&mut self) -> (snapshot: Arc<T>)
        ensures
            *snapshot == old(self).desired(),
            final(self).desired() == old(self).desired(),
            call_ensures(T::revision, (&old(self).desired(),), final(self).rendered()),
            final(self).place() == old(self).place(),
    {
        let snapshot = newest(&self.desired);
        store(&mut self.rendered, snapshot.revision());
        snapshot
    }
}

/// What a channel holds once each of `states` was published, in turn.
pub open spec fn last_published<T>(desired: T, states: Seq<T>) -> T
    decreases states.len(),
{
    if states.len() == 0 {
        desired
    } else {
        last_published(states[0], states.drop_first())
    }
}

/// However many states are published, only the newest one is left to render.
pub proof fn only_the_newest_state_is_rendered<T>(desired: T, states: Seq<T>)
    requires
        states.len() > 0,
    ensures
        last_published(desired, states) == states.last(),
    decreases states.len(),
{
    if states.len() > 1 {
        only_the_newest_state_is_rendered(states[0], states.drop_first());
    } else {
        assert(last_published(states[0], states.drop_first()) == states[0]);
    }
}

/// A channel with a first state, none of which is rendered yet.
pub fn snapshot_channel<T: VersionedSnapshot>(initial: Arc<T>) -> (channel: SnapshotChannel<T>)
    ensures
        channel.desired() == *initial,
        channel.rendered() == 0,
{
    SnapshotChannel { desired: Watched::new(initial), rendered: Counter::new(0) }
}

} // verus!
