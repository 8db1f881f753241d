//! The two ends of a `std::sync::mpsc` channel, each with a ghost record of
//! what passed through it on this side, and the channel it belongs to.
use crate::worker::Msg;
use std::sync::mpsc::{Receiver, Sender};
use vstd::prelude::*;

verus! {

#[verifier::external_type_specification]
#[verifier::external_body]
#[verifier::reject_recursive_types(T)]
pub struct ExSender<T>(Sender<T>);

#[verifier::external_type_specification]
#[verifier::external_body]
#[verifier::reject_recursive_types(T)]
pub struct ExReceiver<T>(Receiver<T>);

/// The sending end of a channel.
#[verifier::reject_recursive_types(T)]
pub struct ChannelSender<T> {
    tx: Sender<T>,
    channel: Ghost<int>,
    log: Ghost<Seq<T>>,
}

/// The receiving end of a channel.
#[verifier::reject_recursive_types(T)]
pub struct ChannelReceiver<T> {
    rx: Receiver<T>,
    channel: Ghost<int>,
    log: Ghost<Seq<T>>,
    drains: Ghost<nat>,
}

impl<T> ChannelSender<T> {
    /// The channel this end belongs to.
    pub closed spec fn channel(&self) -> int {
        self.channel@
    }

    /// Every message handed to `send` through this end, in order.
    pub closed spec fn log(&self) -> Seq<T> {
        self.log@
    }

    /// The underlying `std` sender, for the thread that uses it directly.
    pub fn into_inner(self) -> Sender<T> {
        self.tx
    }
}

impl<T> ChannelReceiver<T> {
    /// The channel this end belongs to.
    pub closed spec fn channel(&self) -> int {
        self.channel@
    }

    /// Every message taken out through this end by `drain`, in arrival
    /// order.
    pub closed spec fn log(&self) -> Seq<T> {
        self.log@
    }

    /// How many times `drain` has emptied this end.
    pub closed spec fn drains(&self) -> nat {
        self.drains@
    }

    /// The underlying `std` receiver, for the thread that uses it directly.
    pub fn into_inner(self) -> Receiver<T> {
        self.rx
    }

    /// Calls `Receiver::try_iter` and collects what it yields: every message
    /// already queued, in arrival order, without blocking. Claims that the
    /// messages returned are appended to this end's record, that one more
    /// drain is counted, and that the end stays on its channel. Which
    /// messages were queued depends on other threads, so nothing is claimed
    /// of how many there are.
    #[verifier::external_body]
    pub(crate) fn drain(&mut self) -> (r: Vec<T>)
        ensures
            final(self).log() == old(self).log() + r@,
            final(self).drains() == old(self).drains() + 1,
            final(self).channel() == old(self).channel(),
    {
        self.rx.try_iter().collect()
    }
}

impl<R> ChannelSender<Msg<R>> {
    /// Calls `Sender::send` with a message for the worker, reporting whether
    /// it was handed over (`false` once the receiving end is gone). Claims
    /// that `m` is appended to this end's record and that the end stays on
    /// its channel; whether the message is delivered depends on another
    /// thread, so nothing is claimed of the result. `send` never blocks and
    /// does not panic; an undelivered message is dropped here, and dropping
    /// a `Shutdown` runs no code of the caller's, so sending one does not
    /// unwind.
    #[verifier::external_body]
    pub(crate) fn send(&mut self, m: Msg<R>) -> (delivered: bool)
        ensures
            final(self).log() == old(self).log().push(m),
            final(self).channel() == old(self).channel(),
        opens_invariants none
        no_unwind when m is Shutdown
    {
        self.tx.send(m).is_ok()
    }
}

/// Calls `std::sync::mpsc::channel`. Claims that both ends belong to the
/// same channel and that nothing has passed through either yet. What later
/// flows through them depends on other threads.
#[verifier::external_body]
pub(crate) fn open_channel<T>() -> (r: (ChannelSender<T>, ChannelReceiver<T>))
    ensures
        r.0.channel() == r.1.channel(),
        r.0.log() == Seq::<T>::empty(),
        r.1.log() == Seq::<T>::empty(),
        r.1.drains() == 0,
{
    let (tx, rx) = std::sync::mpsc::channel();
    (
        ChannelSender { tx, channel: Ghost(0), log: Ghost(Seq::empty()) },
        ChannelReceiver { rx, channel: Ghost(0), log: Ghost(Seq::empty()), drains: Ghost(0) },
    )
}

} // verus!
