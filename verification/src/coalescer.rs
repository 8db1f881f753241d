use crate::channel::{open_channel, ChannelReceiver, ChannelSender};
use crate::output::{newest, newest_of, Output};
use crate::worker::{Msg, Worker};
use vstd::prelude::*;

verus! {

/// Coalescing dispatcher around a [`Worker`] running on its own thread.
///
/// Every submitted request gets the next generation number; `poll` keeps
/// only the newest of the responses that have arrived.
pub struct Coalescer<W: Worker> {
    tx: ChannelSender<Msg<W::Request>>,
    rx: ChannelReceiver<Output<W::Response>>,
    generation: u64,
}

impl<W: Worker> View for Coalescer<W> {
    /// The generation counter: the number last assigned by `submit`, or 0.
    type V = u64;

    closed spec fn view(&self) -> u64 {
        self.generation
    }
}

impl<W: Worker> Coalescer<W> {
    /// Every response this dispatcher has taken from the worker so far
    /// (by `poll` or `flush_pending`), in arrival order.
    pub closed spec fn taken(&self) -> Seq<Output<W::Response>> {
        self.rx.log()
    }

    /// Every message this dispatcher has handed to the worker's channel so
    /// far (by `submit` and on drop), in sending order.
    pub closed spec fn sent(&self) -> Seq<Msg<W::Request>> {
        self.tx.log()
    }

    /// How many times this dispatcher has emptied its response channel (by
    /// `poll` or `flush_pending`).
    pub closed spec fn drains(&self) -> nat {
        self.rx.drains()
    }

    /// The channel on which this dispatcher sends requests.
    pub closed spec fn request_channel(&self) -> int {
        self.tx.channel()
    }

    /// The channel from which this dispatcher takes responses.
    pub closed spec fn response_channel(&self) -> int {
        self.rx.channel()
    }


    /// A dispatcher with generation 0, together with the worker thread's
    /// ends of its two channels: the receiver on which the dispatcher's
    /// requests arrive and the sender on which the dispatcher takes
    /// responses. Whoever starts the worker thread hands it these ends.
    pub fn open() -> (r: (
        Self,
        ChannelReceiver<Msg<W::Request>>,
        ChannelSender<Output<W::Response>>,
    ))
        ensures
            r.0@ == 0,
            r.0.taken() == Seq::<Output<W::Response>>::empty(),
            r.0.sent() == Seq::<Msg<W::Request>>::empty(),
            r.0.drains() == 0,
            r.1.channel() == r.0.request_channel(),
            r.1.log() == Seq::<Msg<W::Request>>::empty(),
            r.2.channel() == r.0.response_channel(),
            r.2.log() == Seq::<Output<W::Response>>::empty(),
    {
        let (req_tx, req_rx) = open_channel();
        let (res_tx, res_rx) = open_channel();
        let coalescer = Coalescer { tx: req_tx, rx: res_rx, generation: 0 };
        (coalescer, req_rx, res_tx)
    }

    /// Submits a new request. Older requests queued but not yet started are
    /// discarded by the worker.
    ///
    /// Hands the worker one `Run` with the new generation and `request`, and
    /// returns that generation: one more than the previous one.
    /// Non-blocking: a send error means the worker has exited, and the
    /// returned generation will never produce a response.
    pub fn submit(&mut self, request: W::Request) -> (generation: u64)
        requires
            old(self)@ < u64::MAX,
        ensures
            generation == old(self)@ + 1,
            final(self)@ == generation,
            final(self).taken() == old(self).taken(),
            final(self).drains() == old(self).drains(),
            final(self).sent() == old(self).sent().push((Msg::Run { generation, request })),
            final(self).request_channel() == old(self).request_channel(),
            final(self).response_channel() == old(self).response_channel(),
    {
        self.generation = self.generation + 1;
        let _ = self.tx.send(Msg::Run { generation: self.generation, request });
        self.generation
    }

    /// Polls for the newest completed response.
    ///
    /// Takes every response that has arrived and returns the one with the
    /// highest generation (see `newest`), dropping the older ones. Returns
    /// `None` if no response is ready. Sends nothing to the worker.
    pub fn poll(&mut self) -> (r: Option<Output<W::Response>>)
        ensures
            final(self)@ == old(self)@,
            final(self).sent() == old(self).sent(),
            final(self).drains() == old(self).drains() + 1,
            final(self).request_channel() == old(self).request_channel(),
            final(self).response_channel() == old(self).response_channel(),
            final(self).taken().len() >= old(self).taken().len(),
            final(self).taken().subrange(0, old(self).taken().len() as int) == old(self).taken(),
            r is None <==> final(self).taken().len() == old(self).taken().len(),
            r == newest_of(
                final(self).taken().subrange(
                    old(self).taken().len() as int,
                    final(self).taken().len() as int,
                ),
            ),
    {
        let ghost before = self.rx.log();
        let arrived = self.rx.drain();
        assert(self.rx.log().subrange(0, before.len() as int) =~= before);
        assert(self.rx.log().subrange(before.len() as int, self.rx.log().len() as int)
            =~= arrived@);
        newest(arrived)
    }

    /// Discards all pending results. Does not cancel in-flight worker
    /// computation; only discards what has already been sent back. Sends
    /// nothing to the worker.
    pub fn flush_pending(&mut self)
        ensures
            final(self)@ == old(self)@,
            final(self).sent() == old(self).sent(),
            final(self).drains() == old(self).drains() + 1,
            final(self).request_channel() == old(self).request_channel(),
            final(self).response_channel() == old(self).response_channel(),
            final(self).taken().len() >= old(self).taken().len(),
            final(self).taken().subrange(0, old(self).taken().len() as int) == old(self).taken(),
    {
        let ghost before = self.rx.log();
        let _ = self.rx.drain();
        assert(self.rx.log().subrange(0, before.len() as int) =~= before);
    }

    /// Current generation counter: the number last assigned by `submit`,
    /// or 0 if nothing has been submitted.
    pub fn current_generation(&self) -> (generation: u64)
        ensures
            generation == self@,
    {
        self.generation
    }
}

impl<W: Worker> Drop for Coalescer<W> {
    /// Tells the worker to exit, by handing it a `Shutdown`; does not wait
    /// for it.
    fn drop(&mut self)
        ensures
            final(self).sent() == old(self).sent().push(Msg::Shutdown),
            final(self).taken() == old(self).taken(),
        opens_invariants none
        no_unwind
    {
        let _ = self.tx.send(Msg::Shutdown);
    }
}

} // verus!
