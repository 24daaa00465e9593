//! Ring buffer of recent node events for the activity feed.

use vstd::prelude::*;

verus! {

/// At most this many events are kept.
pub const MAX_EVENTS: usize = 200;

/// An event the node emits; quantities in micro-units.
#[derive(Debug)]
pub enum NodeEvent {
    /// A heartbeat was admitted.
    HeartbeatReceived { timestamp: u64, device_pubkey: String, heart_rate: u16, weight: u64 },
    /// A block was formed or accepted.
    BlockCreated {
        timestamp: u64,
        index: u64,
        block_hash: String,
        n_live: usize,
        total_weight: u64,
        security: u64,
        rewards_distributed: u64,
    },
    /// A transaction entered the pool.
    TransactionReceived {
        timestamp: u64,
        tx_id: String,
        sender: String,
        recipient: String,
        amount: u64,
    },
    /// The node came up.
    NodeStarted { timestamp: u64, version: String, chain_height: u64 },
}

/// The events of `s` newer than `t`, in order.
pub open spec fn events_after(s: Seq<NodeEvent>, t: u64) -> Seq<NodeEvent>
    decreases s.len(),
{
    if s.len() == 0 {
        Seq::empty()
    } else {
        events_after(s.drop_last(), t) + (if event_ts(&s.last()) > t {
            seq![s.last()]
        } else {
            Seq::empty()
        })
    }
}

/// The timestamp carried by an event.
pub open spec fn event_ts(e: &NodeEvent) -> u64 {
    match e {
        NodeEvent::HeartbeatReceived { timestamp, .. } => *timestamp,
        NodeEvent::BlockCreated { timestamp, .. } => *timestamp,
        NodeEvent::TransactionReceived { timestamp, .. } => *timestamp,
        NodeEvent::NodeStarted { timestamp, .. } => *timestamp,
    }
}

impl NodeEvent {
    /// The event's timestamp.
    pub fn timestamp(&self) -> (r: u64)
        ensures
            r == event_ts(self),
    {
        match self {
            NodeEvent::HeartbeatReceived { timestamp, .. } => *timestamp,
            NodeEvent::BlockCreated { timestamp, .. } => *timestamp,
            NodeEvent::TransactionReceived { timestamp, .. } => *timestamp,
            NodeEvent::NodeStarted { timestamp, .. } => *timestamp,
        }
    }

    /// An equal copy, with a specification (unlike the derived `clone`).
    pub fn duplicate(&self) -> (r: NodeEvent)
        ensures
            r == *self,
    {
        match self {
            NodeEvent::HeartbeatReceived { timestamp, device_pubkey, heart_rate, weight } => {
                NodeEvent::HeartbeatReceived {
                    timestamp: *timestamp,
                    device_pubkey: device_pubkey.clone(),
                    heart_rate: *heart_rate,
                    weight: *weight,
                }
            },
            NodeEvent::BlockCreated {
                timestamp,
                index,
                block_hash,
                n_live,
                total_weight,
                security,
                rewards_distributed,
            } => {
                NodeEvent::BlockCreated {
                    timestamp: *timestamp,
                    index: *index,
                    block_hash: block_hash.clone(),
                    n_live: *n_live,
                    total_weight: *total_weight,
                    security: *security,
                    rewards_distributed: *rewards_distributed,
                }
            },
            NodeEvent::TransactionReceived { timestamp, tx_id, sender, recipient, amount } => {
                NodeEvent::TransactionReceived {
                    timestamp: *timestamp,
                    tx_id: tx_id.clone(),
                    sender: sender.clone(),
                    recipient: recipient.clone(),
                    amount: *amount,
                }
            },
            NodeEvent::NodeStarted { timestamp, version, chain_height } => {
                NodeEvent::NodeStarted {
                    timestamp: *timestamp,
                    version: version.clone(),
                    chain_height: *chain_height,
                }
            },
        }
    }
}

/// A bounded log of recent events, oldest first.
pub struct EventLog {
    events: Vec<NodeEvent>,
}

impl EventLog {
    /// The logged events, oldest first.
    pub closed spec fn view_events(&self) -> Seq<NodeEvent> {
        self.events@
    }

    /// The log never outgrows its bound.
    pub open spec fn wf(&self) -> bool {
        self.view_events().len() <= MAX_EVENTS
    }

    /// A fresh, empty log.
    pub fn new() -> (r: EventLog)
        ensures
            r.wf(),
            r.view_events().len() == 0,
    {
        EventLog { events: Vec::new() }
    }

    /// Append an event, dropping the oldest when full.
    pub fn push(&mut self, event: NodeEvent)
        requires
            old(self).wf(),
        ensures
            final(self).wf(),
            final(self).view_events() == (if old(self).view_events().len() >= MAX_EVENTS {
                old(self).view_events().subrange(
                    1,
                    old(self).view_events().len() as int,
                ).push(event)
            } else {
                old(self).view_events().push(event)
            }),
    {
        if self.events.len() >= MAX_EVENTS {
            self.events.remove(0);
            self.events.push(event);
            proof {
                assert(self.events@ =~= old(self).events@.subrange(
                    1,
                    old(self).events@.len() as int,
                ).push(event));
            }
        } else {
            self.events.push(event);
        }
    }

    /// The newest events, newest first, at most `limit` of them.
    pub fn latest(&self, limit: usize) -> (r: Vec<NodeEvent>)
        ensures
            r@.len() == (if limit < self.view_events().len() {
                limit as int
            } else {
                self.view_events().len() as int
            }),
            forall|i: int|
                0 <= i < r@.len() ==> #[trigger] r@[i] == self.view_events()[
                    self.view_events().len() - 1 - i
                ],
    {
        let mut out: Vec<NodeEvent> = Vec::new();
        let n = self.events.len();
        let take = if limit < n {
            limit
        } else {
            n
        };
        for i in 0..take
            invariant
                take <= n,
                n == self.events@.len(),
                out@.len() == i,
                forall|j: int|
                    0 <= j < i ==> #[trigger] out@[j] == self.events@[self.events@.len() - 1 - j],
        {
            out.push(self.events[n - 1 - i].duplicate());
        }
        out
    }

    /// The events newer than a timestamp: exactly the buffered events with a
    /// later timestamp, in buffer order.
    pub fn since(&self, timestamp: u64) -> (r: Vec<NodeEvent>)
        ensures
            r@ == events_after(self.view_events(), timestamp),
    {
        let mut out: Vec<NodeEvent> = Vec::new();
        for i in 0..self.events.len()
            invariant
                out@ == events_after(self.events@.take(i as int), timestamp),
        {
            proof {
                assert(self.events@.take(i + 1).drop_last() =~= self.events@.take(i as int));
                assert(self.events@.take(i + 1).last() == self.events@[i as int]);
            }
            if self.events[i].timestamp() > timestamp {
                out.push(self.events[i].duplicate());
            }
            proof {
                assert(out@ =~= events_after(self.events@.take(i + 1), timestamp));
            }
        }
        proof {
            assert(self.events@.take(self.events@.len() as int) =~= self.events@);
        }
        out
    }
}

} // verus!
