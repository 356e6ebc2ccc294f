//! The job channel: one unbounded first-in, first-out queue between the
//! submitters and the workers.
use std::collections::VecDeque;
use vstd::prelude::*;

verus! {

/// The state of a channel.
pub struct ChannelState<J> {
    /// Every job that was ever sent, in the order of sending.
    pub sent: Seq<J>,
    /// How many of them have been received.
    pub received: nat,
    /// How many holders of the receiving end are left.
    pub receivers: nat,
}

impl<J> ChannelState<J> {
    /// The jobs that wait in the channel, oldest first.
    pub open spec fn pending(self) -> Seq<J> {
        self.sent.skip(self.received as int)
    }

    /// Whether the receiving end still has a holder.
    pub open spec fn is_open(self) -> bool {
        self.receivers > 0
    }
}

/// An unbounded first-in, first-out channel of jobs.
///
/// The sending side never waits. The receiving side is shared by a number of
/// holders; once the last of them is gone the channel is closed, and a job
/// sent to it comes back.
pub struct JobChannel<J> {
    queue: VecDeque<J>,
    receivers: usize,
    sent: Ghost<Seq<J>>,
    received: Ghost<nat>,
}

impl<J> View for JobChannel<J> {
    type V = ChannelState<J>;

    closed spec fn view(&self) -> ChannelState<J> {
        ChannelState {
            sent: self.sent@,
            received: self.received@,
            receivers: self.receivers as nat,
        }
    }
}

impl<J> JobChannel<J> {
    /// Whether the channel is well formed: it holds exactly the jobs that
    /// were sent and not yet received, in the order of sending.
    pub closed spec fn wf(&self) -> bool {
        &&& self.received@ <= self.sent@.len()
        &&& self.queue@ == self@.pending()
    }

    /// In a well-formed channel no more jobs were received than sent.
    pub proof fn lemma_wf(&self)
        requires
            self.wf(),
        ensures
            self@.received <= self@.sent.len(),
            self@.pending().len() == self@.sent.len() - self@.received,
    {
    }

    /// An empty channel whose receiving end has `receivers` holders.
    pub fn new(receivers: usize) -> (channel: JobChannel<J>)
        ensures
            channel.wf(),
            channel@ == (ChannelState { sent: Seq::<J>::empty(), received: 0, receivers: receivers as nat }),
    {
        let channel = JobChannel {
            queue: VecDeque::new(),
            receivers,
            sent: Ghost(Seq::empty()),
            received: Ghost(0),
        };
        assert(channel@.pending() =~= Seq::<J>::empty());
        channel
    }

    /// The number of jobs that wait in the channel.
    pub fn len(&self) -> (len: usize)
        requires
            self.wf(),
        ensures
            len == self@.pending().len(),
    {
        self.queue.len()
    }

    /// The number of holders of the receiving end that are left.
    pub fn receivers(&self) -> (receivers: usize)
        ensures
            receivers == self@.receivers,
    {
        self.receivers
    }

    /// Whether the receiving end still has a holder.
    pub fn is_open(&self) -> (open: bool)
        ensures
            open == self@.is_open(),
    {
        self.receivers > 0
    }

    /// Sends a job. On an open channel the job joins the end of the queue,
    /// however many jobs already wait. On a closed channel the job comes back
    /// and nothing changes.
    pub fn send(&mut self, job: J) -> (result: Result<(), J>)
        requires
            old(self).wf(),
        ensures
            final(self).wf(),
            match result {
                Ok(()) => {
                    &&& old(self)@.is_open()
                    &&& final(self)@ == (ChannelState {
                        sent: old(self)@.sent.push(job),
                        ..old(self)@
                    })
                    &&& final(self)@.pending() == old(self)@.pending().push(job)
                },
                Err(back) => !old(self)@.is_open() && back == job && final(self)@ == old(self)@,
            },
    {
        if self.receivers == 0 {
            return Err(job);
        }
        self.sent = Ghost(self.sent@.push(job));
        self.queue.push_back(job);
        assert(self@.pending() =~= old(self)@.pending().push(job));
        Ok(())
    }

    /// Receives the oldest job that waits, if any. With nothing waiting the
    /// result is `None` and nothing changes.
    pub fn try_recv(&mut self) -> (job: Option<J>)
        requires
            old(self).wf(),
        ensures
            final(self).wf(),
            match job {
                Some(j) => {
                    &&& old(self)@.pending().len() > 0
                    &&& j == old(self)@.pending()[0]
                    &&& j == old(self)@.sent[old(self)@.received as int]
                    &&& final(self)@ == (ChannelState {
                        received: old(self)@.received + 1,
                        ..old(self)@
                    })
                    &&& final(self)@.pending() == old(self)@.pending().drop_first()
                },
                None => old(self)@.pending().len() == 0 && final(self)@ == old(self)@,
            },
    {
        match self.queue.pop_front() {
            None => None,
            Some(job) => {
                self.received = Ghost(self.received@ + 1);
                assert(self@.pending() =~= old(self)@.pending().drop_first());
                Some(job)
            },
        }
    }

    /// One holder of the receiving end is gone. What waits in the channel
    /// stays there.
    pub fn drop_receiver(&mut self)
        requires
            old(self).wf(),
            old(self)@.receivers > 0,
        ensures
            final(self).wf(),
            final(self)@ == (ChannelState {
                receivers: (old(self)@.receivers - 1) as nat,
                ..old(self)@
            }),
    {
        self.receivers = self.receivers - 1;
    }
}

} // verus!
