//! Model of one named broker queue: first-in-first-out delivery, an optional
//! length cap that drops the oldest message, and acknowledgment with one
//! message in flight per consumer — the names and limits the pipeline runs
//! with.

use vstd::prelude::*;

verus! {

/// Backlog cap of the jobs queue.
pub const JOBS_QUEUE_MAX_LENGTH: usize = 1000;

/// Unacknowledged messages each consumer holds at once.
pub const CONSUMER_PREFETCH: u16 = 1;

/// Delivery mode under which published messages survive a broker restart.
pub const PERSISTENT_DELIVERY_MODE: u8 = 2;

/// Pause between jobs, respecting the remote backend's rate limit.
pub const WORKER_RATE_LIMIT_SECS: u64 = 5;

/// The queue the coordinator publishes jobs on.
pub fn jobs_queue_name() -> (s: &'static str)
    ensures
        s@ == "experience_code-v1"@,
{
    "experience_code-v1"
}

/// The queue the harvesters report status on.
pub fn status_queue_name() -> (s: &'static str)
    ensures
        s@ == "experience_workerstatuscollector-v1"@,
{
    "experience_workerstatuscollector-v1"
}

/// The backlog after a publish: the message goes to the back, and a full
/// capped queue lets its oldest message go.
pub open spec fn enqueued(q: Seq<String>, m: String, cap: Option<usize>) -> Seq<String> {
    match cap {
        Some(c) => if q.len() < c {
            q.push(m)
        } else {
            q.drop_first().push(m)
        },
        None => q.push(m),
    }
}

/// One durable queue with at most one delivery in flight.
pub struct WorkQueue {
    pub messages: Vec<String>,
    pub in_flight: Option<String>,
    pub max_length: Option<usize>,
}

impl WorkQueue {
    /// The backlog never exceeds a declared cap.
    pub open spec fn wf(self) -> bool {
        self.max_length matches Some(c) ==> c > 0 && self.messages@.len() <= c
    }

    /// Declares an empty queue, capped or not.
    pub fn new(max_length: Option<usize>) -> (q: WorkQueue)
        requires
            max_length matches Some(c) ==> c > 0,
        ensures
            q.messages@.len() == 0,
            q.in_flight is None,
            q.max_length == max_length,
            q.wf(),
    {
        WorkQueue { messages: Vec::new(), in_flight: None, max_length }
    }

    /// Publishes a payload at the back; a capped queue at its limit drops the
    /// oldest message.
    pub fn publish(&mut self, payload: String)
        requires
            old(self).wf(),
        ensures
            final(self).messages@ == enqueued(
                old(self).messages@,
                payload,
                old(self).max_length,
            ),
            final(self).in_flight == old(self).in_flight,
            final(self).max_length == old(self).max_length,
            final(self).wf(),
    {
        let at_cap: bool = match self.max_length {
            Some(c) => self.messages.len() >= c,
            None => false,
        };
        if at_cap {
            self.messages.remove(0);
            proof {
                assert(self.messages@ =~= old(self).messages@.drop_first());
            }
        }
        self.messages.push(payload);
    }

    /// Delivers the oldest message, holding it in flight until acknowledged;
    /// with one delivery per consumer, nothing is delivered before the
    /// previous acknowledgment.
    pub fn consume(&mut self) -> (m: Option<String>)
        requires
            old(self).wf(),
            old(self).in_flight is None,
        ensures
            final(self).max_length == old(self).max_length,
            final(self).wf(),
            old(self).messages@.len() == 0 ==> m is None && *final(self) == *old(self),
            old(self).messages@.len() > 0 ==> m == Some(old(self).messages@[0])
                && final(self).messages@ == old(self).messages@.drop_first()
                && final(self).in_flight == Some(old(self).messages@[0]),
    {
        if self.messages.len() == 0 {
            return None;
        }
        let msg: String = self.messages.remove(0);
        proof {
            assert(self.messages@ =~= old(self).messages@.drop_first());
        }
        self.in_flight = Some(msg.clone());
        Some(msg)
    }

    /// Acknowledges the delivery in flight.
    pub fn ack(&mut self)
        requires
            old(self).in_flight is Some,
        ensures
            final(self).messages@ == old(self).messages@,
            final(self).max_length == old(self).max_length,
            final(self).in_flight is None,
            old(self).wf() ==> final(self).wf(),
    {
        self.in_flight = None;
    }

    /// Puts an unacknowledged delivery back at the front, as the broker does
    /// when its consumer dies.
    pub fn requeue_unacked(&mut self)
        requires
            old(self).wf(),
            old(self).in_flight is Some ==> (old(self).max_length matches Some(c)
                ==> old(self).messages@.len() < c),
        ensures
            final(self).max_length == old(self).max_length,
            final(self).wf(),
            final(self).in_flight is None,
            old(self).in_flight matches Some(m)
                ==> final(self).messages@ == seq![m] + old(self).messages@,
            old(self).in_flight is None ==> final(self).messages@ == old(self).messages@,
    {
        match &self.in_flight {
            Some(m) => {
                let msg: String = m.clone();
                self.in_flight = None;
                self.messages.insert(0, msg);
                proof {
                    assert(self.messages@ =~= seq![old(self).in_flight->0] + old(self).messages@);
                }
            },
            None => {},
        }
    }

    /// Empties the queue, dropping backlog and unacknowledged work alike, as
    /// deleting and redeclaring it does.
    pub fn reset(&mut self)
        ensures
            final(self).messages@.len() == 0,
            final(self).in_flight is None,
            final(self).max_length == old(self).max_length,
            old(self).wf() ==> final(self).wf(),
    {
        self.messages.clear();
        self.in_flight = None;
    }

    /// How many messages wait in the backlog.
    pub fn len(&self) -> (n: usize)
        ensures
            n == self.messages@.len(),
    {
        self.messages.len()
    }
}

} // verus!
