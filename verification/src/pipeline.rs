use vstd::prelude::*;
use crate::digits::{signed_dec_digits, i32_to_decimal, is_decimal_rendering};
use crate::message::{lower_hex_text, Message};
use crate::worker::WorkerState;

verus! {

/// What travels through the aggregator channel: a decoded item, or the single
/// terminal marker that ends the run.
pub enum ChannelMessage {
    Item(Message),
    Shutdown,
}

/// One persisted record: the timestamp at processing, the item's identifier
/// in decimal, and the content fingerprint of the transformed item.
pub struct OutputRow {
    pub timestamp: String,
    pub index_text: String,
    pub fingerprint: String,
}

/// The outcome of one sink iteration.
pub enum SinkStep {
    Empty,
    Processed,
    Finished,
}

/// How many terminal markers a channel content holds.
pub open spec fn shutdown_count(s: Seq<ChannelMessage>) -> int
    decreases s.len(),
{
    if s.len() == 0 {
        0
    } else {
        (if s[0] is Shutdown {
            1int
        } else {
            0int
        }) + shutdown_count(s.skip(1))
    }
}

pub open spec fn all_terminated(ws: Seq<WorkerState>) -> bool {
    forall|i: int| 0 <= i < ws.len() ==> ws[i] is Terminated
}

proof fn lemma_shutdown_count_bounds(s: Seq<ChannelMessage>)
    ensures
        0 <= shutdown_count(s) <= s.len(),
    decreases s.len(),
{
    if s.len() > 0 {
        lemma_shutdown_count_bounds(s.skip(1));
    }
}

proof fn lemma_shutdown_count_push(s: Seq<ChannelMessage>, m: ChannelMessage)
    ensures
        shutdown_count(s.push(m)) == shutdown_count(s) + (if m is Shutdown {
            1int
        } else {
            0int
        }),
    decreases s.len(),
{
    let t = s.push(m);
    assert(t.len() == s.len() + 1);
    assert(shutdown_count(t) == (if t[0] is Shutdown {
        1int
    } else {
        0int
    }) + shutdown_count(t.skip(1)));
    if s.len() == 0 {
        assert(t[0] == m);
        assert(t.skip(1) =~= Seq::<ChannelMessage>::empty());
        assert(shutdown_count(t.skip(1)) == 0);
    } else {
        assert(t[0] == s[0]);
        assert(t.skip(1) =~= s.skip(1).push(m));
        lemma_shutdown_count_push(s.skip(1), m);
        assert(shutdown_count(t.skip(1)) == shutdown_count(s.skip(1)) + (if m is Shutdown {
            1int
        } else {
            0int
        }));
    }
}

proof fn lemma_count_zero_no_shutdown(s: Seq<ChannelMessage>)
    requires
        shutdown_count(s) == 0,
    ensures
        forall|i: int| 0 <= i < s.len() ==> !(#[trigger] s[i] is Shutdown),
    decreases s.len(),
{
    if s.len() > 0 {
        lemma_shutdown_count_bounds(s.skip(1));
        lemma_count_zero_no_shutdown(s.skip(1));
        assert forall|i: int| 0 <= i < s.len() implies !(#[trigger] s[i] is Shutdown) by {
            if i > 0 {
                assert(s.skip(1)[i - 1] == s[i]);
            }
        }
    }
}

/// A whole run of the system, seen as one state: the pool of workers, the
/// bounded aggregator channel, the supervisor's terminal marker, and the
/// records the sink has persisted. Each method is one atomic step of one
/// component; any interleaving of steps preserves `inv`.
pub struct Pipeline {
    pub workers: Vec<WorkerState>,
    pub channel: Vec<ChannelMessage>,
    pub capacity: usize,
    pub shutdown_sent: bool,
    pub shutdown_received: bool,
    pub records: Vec<OutputRow>,
    /// How many items workers have successfully handed to the channel.
    pub delivered: Ghost<int>,
}

impl Pipeline {
    /// The protocol invariant:
    /// - the channel never outgrows its capacity;
    /// - the terminal marker exists in the channel exactly while it has been
    ///   sent and not yet received, and only as the last element;
    /// - the marker is sent only once every worker has terminated;
    /// - every queued item satisfies the transform's precondition;
    /// - every delivered item is still queued or already persisted.
    pub open spec fn inv(self) -> bool {
        &&& 1 <= self.workers@.len()
        &&& 1 <= self.capacity
        &&& self.channel@.len() <= self.capacity
        &&& (self.shutdown_received ==> self.shutdown_sent)
        &&& shutdown_count(self.channel@) == (if self.shutdown_sent && !self.shutdown_received {
            1int
        } else {
            0int
        })
        &&& (self.shutdown_sent ==> all_terminated(self.workers@))
        &&& (forall|i: int|
            0 <= i < self.channel@.len() - 1 ==> !(#[trigger] self.channel@[i] is Shutdown))
        &&& (forall|i: int|
            0 <= i < self.channel@.len() ==> ((#[trigger] self.channel@[i]) matches
                ChannelMessage::Item(m) ==> m.wf()))
        &&& self.delivered@ == self.channel@.len() - shutdown_count(self.channel@)
            + self.records@.len()
    }

    /// A fresh run: every worker running, the channel empty, nothing sent,
    /// nothing persisted.
    pub fn new(worker_count: usize, capacity: usize) -> (p: Pipeline)
        requires
            1 <= worker_count,
            1 <= capacity,
        ensures
            p.inv(),
            p.workers@.len() == worker_count,
            forall|i: int| 0 <= i < worker_count ==> p.workers@[i] is Running,
            p.capacity == capacity,
            p.channel@.len() == 0,
            !p.shutdown_sent,
            !p.shutdown_received,
            p.records@.len() == 0,
            p.delivered@ == 0,
    {
        let mut workers: Vec<WorkerState> = Vec::new();
        let mut i: usize = 0;
        while i < worker_count
            invariant
                i <= worker_count,
                workers@.len() == i,
                forall|j: int| 0 <= j < i ==> workers@[j] is Running,
            decreases worker_count - i,
        {
            workers.push(WorkerState::Running);
            i += 1;
        }
        Pipeline {
            workers,
            channel: Vec::new(),
            capacity,
            shutdown_sent: false,
            shutdown_received: false,
            records: Vec::new(),
            delivered: Ghost(0),
        }
    }

    /// A running worker hands a decoded item to the aggregator. With room the
    /// item is enqueued; against a full channel it comes straight back to the
    /// caller — backpressure stalls the worker but never drops an item.
    pub fn try_deliver(&mut self, worker: usize, m: Message) -> (r: Option<Message>)
        requires
            old(self).inv(),
            worker < old(self).workers@.len(),
            old(self).workers@[worker as int] is Running,
            m.wf(),
        ensures
            final(self).inv(),
            final(self).workers@ == old(self).workers@,
            final(self).capacity == old(self).capacity,
            final(self).records@ == old(self).records@,
            final(self).shutdown_sent == old(self).shutdown_sent,
            final(self).shutdown_received == old(self).shutdown_received,
            old(self).channel@.len() < old(self).capacity ==> r is None && final(self).channel@
                == old(self).channel@.push(ChannelMessage::Item(m)) && final(self).delivered@
                == old(self).delivered@ + 1,
            old(self).channel@.len() >= old(self).capacity ==> r == Some(m) && *final(self)
                == *old(self),
    {
        proof {
            // A running worker means the terminal marker is not out yet.
            assert(!self.shutdown_sent);
            lemma_count_zero_no_shutdown(self.channel@);
        }
        if self.channel.len() < self.capacity {
            proof {
                lemma_shutdown_count_push(self.channel@, ChannelMessage::Item(m));
            }
            self.channel.push(ChannelMessage::Item(m));
            self.delivered = Ghost(self.delivered@ + 1);
            None
        } else {
            Some(m)
        }
    }

    /// Marks one worker terminated: its idle expiry, decode failure, refused
    /// send, or a task fault — the supervisor counts them all the same way.
    pub fn worker_finished(&mut self, worker: usize)
        requires
            old(self).inv(),
            worker < old(self).workers@.len(),
        ensures
            final(self).inv(),
            final(self).workers@ == old(self).workers@.update(
                worker as int,
                WorkerState::Terminated,
            ),
            final(self).channel@ == old(self).channel@,
            final(self).capacity == old(self).capacity,
            final(self).records@ == old(self).records@,
            final(self).shutdown_sent == old(self).shutdown_sent,
            final(self).shutdown_received == old(self).shutdown_received,
            final(self).delivered@ == old(self).delivered@,
    {
        let _ = self.workers.remove(worker);
        self.workers.insert(worker, WorkerState::Terminated);
        proof {
            assert(self.workers@ =~= old(self).workers@.update(
                worker as int,
                WorkerState::Terminated,
            ));
        }
    }

    /// Once every worker has finished — and only then — the supervisor
    /// publishes the single terminal marker. With a full channel nothing
    /// changes and the caller retries after the sink has drained.
    pub fn supervisor_send_shutdown(&mut self) -> (sent: bool)
        requires
            old(self).inv(),
            all_terminated(old(self).workers@),
            !old(self).shutdown_sent,
        ensures
            final(self).inv(),
            final(self).workers@ == old(self).workers@,
            final(self).capacity == old(self).capacity,
            final(self).records@ == old(self).records@,
            final(self).shutdown_received == old(self).shutdown_received,
            final(self).delivered@ == old(self).delivered@,
            old(self).channel@.len() < old(self).capacity ==> sent && final(self).shutdown_sent
                && final(self).channel@ == old(self).channel@.push(ChannelMessage::Shutdown),
            old(self).channel@.len() >= old(self).capacity ==> !sent && *final(self) == *old(self),
    {
        proof {
            lemma_count_zero_no_shutdown(self.channel@);
        }
        if self.channel.len() < self.capacity {
            proof {
                lemma_shutdown_count_push(self.channel@, ChannelMessage::Shutdown);
            }
            self.channel.push(ChannelMessage::Shutdown);
            self.shutdown_sent = true;
            true
        } else {
            false
        }
    }

    /// One sink iteration: take the message at the head of the channel. An
    /// item is transformed, fingerprinted and appended to the records under
    /// the given timestamp; the terminal marker closes the run and nothing
    /// further is persisted.
    #[verifier::rlimit(50)]
    pub fn sink_step(&mut self, timestamp: String) -> (r: SinkStep)
        requires
            old(self).inv(),
            !old(self).shutdown_received,
        ensures
            final(self).inv(),
            final(self).workers@ == old(self).workers@,
            final(self).capacity == old(self).capacity,
            final(self).shutdown_sent == old(self).shutdown_sent,
            final(self).delivered@ == old(self).delivered@,
            old(self).channel@.len() == 0 ==> r is Empty && *final(self) == *old(self),
            old(self).channel@.len() > 0 ==> final(self).channel@ == old(self).channel@.skip(1),
            old(self).channel@.len() > 0 ==> (old(self).channel@[0] matches ChannelMessage::Item(m)
                ==> {
                &&& r is Processed
                &&& !final(self).shutdown_received
                &&& final(self).records@.len() == old(self).records@.len() + 1
                &&& (forall|j: int|
                    0 <= j < old(self).records@.len() ==> final(self).records@[j] == old(
                        self,
                    ).records@[j])
                &&& final(self).records@.last().timestamp@ == timestamp@
                &&& final(self).records@.last().index_text@ == signed_dec_digits(m.index as int)
                &&& final(self).records@.last().fingerprint@
                    == m.transformed().fingerprint_spec()
                &&& lower_hex_text(final(self).records@.last().fingerprint@)
            }),
            old(self).channel@.len() > 0 ==> (old(self).channel@[0] is Shutdown ==> r is Finished
                && final(self).shutdown_received && final(self).records@ == old(self).records@),
    {
        if self.channel.len() == 0 {
            return SinkStep::Empty;
        }
        let msg = self.channel.remove(0);
        proof {
            assert(self.channel@ =~= old(self).channel@.skip(1));
        }
        match msg {
            ChannelMessage::Item(mut m) => {
                proof {
                    assert(shutdown_count(old(self).channel@) == (if old(self).channel@[0]
                        is Shutdown {
                        1int
                    } else {
                        0int
                    }) + shutdown_count(old(self).channel@.skip(1)));
                    assert forall|i: int| 0 <= i < self.channel@.len() - 1 implies !(
                    #[trigger] self.channel@[i] is Shutdown) by {
                        assert(self.channel@[i] == old(self).channel@[i + 1]);
                    }
                    assert forall|i: int|
                        0 <= i < self.channel@.len() implies ((#[trigger] self.channel@[i]) matches
                        ChannelMessage::Item(q) ==> q.wf()) by {
                        assert(self.channel@[i] == old(self).channel@[i + 1]);
                    }
                }
                m.update_discount();
                let index_text = i32_to_decimal(m.index);
                let fingerprint = m.signature();
                let row = OutputRow { timestamp, index_text, fingerprint };
                self.records.push(row);
                proof {
                    assert(!self.shutdown_received);
                    assert(self.inv());
                }
                SinkStep::Processed
            },
            ChannelMessage::Shutdown => {
                self.shutdown_received = true;
                SinkStep::Finished
            },
        }
    }

    /// Once the terminal marker has been sent, the sink drains in finitely
    /// many steps: each remaining item, in channel order, is transformed and
    /// persisted as one record carrying a decimal timestamp, the item's
    /// identifier in decimal, and the transformed item's fingerprint; the run
    /// stops at the marker with the channel empty and the earlier records
    /// untouched.
    pub fn drain(&mut self)
        requires
            old(self).inv(),
            old(self).shutdown_sent,
            !old(self).shutdown_received,
        ensures
            final(self).inv(),
            final(self).shutdown_received,
            final(self).channel@.len() == 0,
            final(self).records@.len() == old(self).records@.len() + old(self).channel@.len() - 1,
            final(self).workers@ == old(self).workers@,
            final(self).capacity == old(self).capacity,
            forall|j: int|
                0 <= j < old(self).records@.len() ==> final(self).records@[j] == old(
                    self,
                ).records@[j],
            forall|i: int|
                0 <= i < old(self).channel@.len() - 1 ==> ((#[trigger] old(self).channel@[i])
                    matches ChannelMessage::Item(m) ==> {
                    &&& final(self).records@[old(self).records@.len() + i].index_text@
                        == signed_dec_digits(m.index as int)
                    &&& final(self).records@[old(self).records@.len() + i].fingerprint@
                        == m.transformed().fingerprint_spec()
                    &&& lower_hex_text(
                        final(self).records@[old(self).records@.len() + i].fingerprint@,
                    )
                    &&& is_decimal_rendering(
                        final(self).records@[old(self).records@.len() + i].timestamp@,
                    )
                }),
    {
        let ghost ochan = old(self).channel@;
        let ghost olen = old(self).records@.len() as int;
        proof {
            assert(ochan.skip(0) =~= ochan);
        }
        let mut done = false;
        while !done
            invariant
                self.inv(),
                self.shutdown_sent == true,
                ochan == old(self).channel@,
                olen == old(self).records@.len(),
                done ==> self.shutdown_received && self.channel@.len() == 0,
                !done ==> !self.shutdown_received,
                !done ==> self.channel@ == ochan.skip(ochan.len() - self.channel@.len()),
                self.channel@.len() <= ochan.len(),
                self.records@.len() == olen + (ochan.len() - self.channel@.len()) - (if done {
                    1int
                } else {
                    0int
                }),
                self.workers@ == old(self).workers@,
                self.capacity == old(self).capacity,
                forall|j: int| 0 <= j < olen ==> self.records@[j] == old(self).records@[j],
                forall|i: int|
                    0 <= i < self.records@.len() - olen ==> ((#[trigger] ochan[i]) matches
                        ChannelMessage::Item(m) ==> {
                        &&& self.records@[olen + i].index_text@ == signed_dec_digits(
                            m.index as int,
                        )
                        &&& self.records@[olen + i].fingerprint@
                            == m.transformed().fingerprint_spec()
                        &&& lower_hex_text(self.records@[olen + i].fingerprint@)
                        &&& is_decimal_rendering(self.records@[olen + i].timestamp@)
                    }),
            decreases self.channel@.len(),
        {
            proof {
                lemma_shutdown_count_bounds(self.channel@);
            }
            let ghost pre = *self;
            let ghost p = ochan.len() - pre.channel@.len();
            let timestamp = crate::clock::now();
            let step = self.sink_step(timestamp);
            proof {
                assert(pre.channel@.len() >= 1);
                assert(pre.channel@[0] == ochan[p]);
            }
            match step {
                SinkStep::Finished => {
                    proof {
                        // only the marker itself reaches the sink as `Finished`
                        if !(pre.channel@[0] is Shutdown) {
                            assert(pre.channel@[0] matches ChannelMessage::Item(_));
                            assert(false);
                        }
                        // the marker stands last, so it was the only element left
                        assert(pre.channel@.len() == 1);
                    }
                    done = true;
                },
                _ => {
                    proof {
                        if pre.channel@[0] is Shutdown {
                            assert(false);
                        }
                        assert(pre.channel@[0] matches ChannelMessage::Item(_));
                        assert(self.channel@ =~= ochan.skip(p + 1));
                        assert forall|i: int|
                            0 <= i < self.records@.len() - olen implies ((#[trigger] ochan[i])
                                matches ChannelMessage::Item(m) ==> {
                                &&& self.records@[olen + i].index_text@ == signed_dec_digits(
                                    m.index as int,
                                )
                                &&& self.records@[olen + i].fingerprint@
                                    == m.transformed().fingerprint_spec()
                                &&& lower_hex_text(self.records@[olen + i].fingerprint@)
                                &&& is_decimal_rendering(self.records@[olen + i].timestamp@)
                            }) by {
                            if i < p {
                                assert(self.records@[olen + i] == pre.records@[olen + i]);
                            } else {
                                assert(i == p);
                                assert(self.records@[olen + i] == self.records@.last());
                            }
                        }
                    }
                },
            }
        }
    }
}

/// A whole run, for any pool size, any capacity and any batch that fits the
/// channel: the items are delivered in order, the pool winds down, the
/// supervisor publishes the single marker, and the sink drains — exactly one
/// record per item, in delivery order, carrying a decimal timestamp, the
/// item's identifier in decimal and the transformed item's fingerprint.
pub fn run_batch(items: Vec<Message>, worker_count: usize, capacity: usize) -> (p: Pipeline)
    requires
        1 <= worker_count,
        1 <= capacity,
        items@.len() < capacity,
        forall|i: int| 0 <= i < items@.len() ==> (#[trigger] items@[i]).wf(),
    ensures
        p.inv(),
        p.shutdown_sent,
        p.shutdown_received,
        p.channel@.len() == 0,
        p.records@.len() == items@.len(),
        forall|i: int|
            0 <= i < items@.len() ==> {
                &&& (#[trigger] p.records@[i]).index_text@ == signed_dec_digits(
                    items@[i].index as int,
                )
                &&& p.records@[i].fingerprint@ == items@[i].transformed().fingerprint_spec()
                &&& lower_hex_text(p.records@[i].fingerprint@)
                &&& is_decimal_rendering(p.records@[i].timestamp@)
            },
{
    let ghost all = items@;
    let mut batch = items;
    let mut p = Pipeline::new(worker_count, capacity);
    let mut delivered: usize = 0;
    while batch.len() > 0
        invariant
            p.inv(),
            p.capacity == capacity,
            p.workers@.len() == worker_count,
            forall|j: int| 0 <= j < worker_count ==> p.workers@[j] is Running,
            !p.shutdown_sent,
            !p.shutdown_received,
            p.records@.len() == 0,
            all.len() < capacity,
            forall|i: int| 0 <= i < all.len() ==> (#[trigger] all[i]).wf(),
            delivered + batch@.len() == all.len(),
            batch@ == all.skip(delivered as int),
            p.channel@.len() == delivered,
            forall|j: int|
                0 <= j < delivered ==> (#[trigger] p.channel@[j]) == ChannelMessage::Item(all[j]),
        decreases batch@.len(),
    {
        let m = batch.remove(0);
        proof {
            assert(m == all[delivered as int]);
            assert(batch@ =~= all.skip(delivered as int + 1));
        }
        let back = p.try_deliver(0, m);
        proof {
            assert(back is None);
        }
        delivered = delivered + 1;
    }
    let mut k: usize = 0;
    while k < worker_count
        invariant
            p.inv(),
            p.capacity == capacity,
            p.workers@.len() == worker_count,
            k <= worker_count,
            all.len() < capacity,
            forall|j: int| 0 <= j < k ==> p.workers@[j] is Terminated,
            !p.shutdown_sent,
            !p.shutdown_received,
            p.records@.len() == 0,
            p.channel@.len() == all.len(),
            forall|j: int|
                0 <= j < all.len() ==> (#[trigger] p.channel@[j]) == ChannelMessage::Item(all[j]),
        decreases worker_count - k,
    {
        p.worker_finished(k);
        k = k + 1;
    }
    let sent = p.supervisor_send_shutdown();
    proof {
        assert(sent);
    }
    let ghost before = p;
    p.drain();
    proof {
        assert forall|i: int|
            0 <= i < all.len() implies {
                &&& (#[trigger] p.records@[i]).index_text@ == signed_dec_digits(all[i].index as int)
                &&& p.records@[i].fingerprint@ == all[i].transformed().fingerprint_spec()
                &&& lower_hex_text(p.records@[i].fingerprint@)
                &&& is_decimal_rendering(p.records@[i].timestamp@)
            } by {
            assert(before.channel@[i] == ChannelMessage::Item(all[i]));
        }
    }
    p
}

/// The terminal marker is unique per run and arrives last: over channel and
/// sink together there is at most one marker — exactly one once it is sent —
/// it can only exist once every worker has terminated, and within the channel
/// it only ever stands behind every remaining item.
pub proof fn lemma_single_shutdown(p: Pipeline)
    requires
        p.inv(),
    ensures
        shutdown_count(p.channel@) + (if p.shutdown_received {
            1int
        } else {
            0int
        }) == (if p.shutdown_sent {
            1int
        } else {
            0int
        }),
        shutdown_count(p.channel@) > 0 ==> all_terminated(p.workers@),
        forall|i: int|
            0 <= i < p.channel@.len() && (#[trigger] p.channel@[i]) is Shutdown ==> i
                == p.channel@.len() - 1,
{
}

/// Backpressure bounds and conservation: the channel never holds more than
/// its capacity, and every item a worker delivered is still in the channel or
/// already persisted as a record — none is dropped.
pub proof fn lemma_capacity_and_conservation(p: Pipeline)
    requires
        p.inv(),
    ensures
        p.channel@.len() <= p.capacity,
        p.delivered@ == p.channel@.len() - shutdown_count(p.channel@) + p.records@.len(),
        p.shutdown_sent && !p.shutdown_received ==> p.delivered@ == p.channel@.len() - 1
            + p.records@.len(),
{
}

} // verus!
