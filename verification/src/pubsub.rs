//! Best-effort change fan-out.
//!
//! Publishes append to a per-type broadcast log; subscribers each hold a
//! cursor into that log, created at its current end, so an event
//! published before a subscriber existed is never delivered to it. A
//! subscriber that lags more than the channel capacity behind skips
//! forward, dropping its oldest unread events rather than holding
//! publishers back; publishing itself is total — it never blocks and
//! never fails, whether or not anyone subscribed.

use vstd::prelude::*;

use crate::records::{Electricity, FinalElectricity, PlaceCondition};

verus! {

/// Whether an event from a device passes a subscriber's filter.
pub open spec fn delivers(device_filter: Option<Seq<char>>, device: Seq<char>) -> bool {
    match device_filter {
        None => true,
        Some(f) => f == device,
    }
}

/// Where a subscriber resumes reading: its own cursor, unless it has
/// lagged more than `cap` events behind the end of the log.
pub open spec fn resume_at(log_len: int, cap: int, next: int) -> int {
    if log_len - next > cap {
        log_len - cap
    } else {
        next
    }
}

/// The first index at or past `from` whose event passes the filter, or
/// the log's length when none does.
pub open spec fn first_match<T>(
    log: Seq<(String, T)>,
    device_filter: Option<Seq<char>>,
    from: int,
) -> int
    decreases log.len() - from,
    when 0 <= from <= log.len()
{
    if from >= log.len() {
        log.len() as int
    } else if delivers(device_filter, log[from].0@) {
        from
    } else {
        first_match(log, device_filter, from + 1)
    }
}

/// The first match lies between `from` and the end of the log.
pub proof fn lemma_first_match_bounds<T>(
    log: Seq<(String, T)>,
    device_filter: Option<Seq<char>>,
    from: int,
)
    requires
        0 <= from <= log.len(),
    ensures
        from <= first_match(log, device_filter, from) <= log.len(),
    decreases log.len() - from,
{
    if from < log.len() && !delivers(device_filter, log[from].0@) {
        lemma_first_match_bounds(log, device_filter, from + 1);
    }
}

/// A subscriber never reaches back before its creation position: reading
/// resumes at or past its cursor, so an event published before the
/// subscriber existed is never delivered to it.
pub proof fn lemma_subscriber_skips_history<T>(
    log: Seq<(String, T)>,
    device_filter: Option<Seq<char>>,
    cap: int,
    next: int,
)
    requires
        0 <= next <= log.len(),
        cap >= 1,
    ensures
        first_match(log, device_filter, resume_at(log.len() as int, cap, next)) >= next,
{
    let from = resume_at(log.len() as int, cap, next);
    lemma_first_match_bounds(log, device_filter, from);
}

/// One broadcast channel: the log of events published so far, and the
/// capacity by which a subscriber may lag before it drops events.
pub struct Broker<T> {
    pub log: Vec<(String, T)>,
    pub cap: usize,
}

/// One subscriber's state: its device filter and its cursor into the
/// channel's log.
#[derive(Debug)]
pub struct Subscriber {
    pub device_filter: Option<String>,
    pub next: usize,
}

/// The view of a subscriber's filter.
pub open spec fn filter_view(device_filter: Option<String>) -> Option<Seq<char>> {
    match device_filter {
        Some(f) => Some(f@),
        None => None,
    }
}

impl<T> Broker<T> {
    /// A fresh channel with the given lag capacity.
    pub fn new(cap: usize) -> (r: Broker<T>)
        requires
            cap >= 1,
        ensures
            r.log@ =~= Seq::<(String, T)>::empty(),
            r.cap == cap,
    {
        Broker { log: Vec::new(), cap }
    }

    /// Publishes one event. Fire-and-forget: total, never blocks, never
    /// errors, whether or not any subscriber exists.
    pub fn publish(&mut self, device: String, value: T)
        ensures
            final(self).log@ == old(self).log@.push((device, value)),
            final(self).cap == old(self).cap,
    {
        self.log.push((device, value));
    }

    /// Creates a subscriber at the current end of the log: it will see
    /// only events published after this call.
    pub fn subscribe(&self, device_filter: Option<String>) -> (r: Subscriber)
        ensures
            r.next == self.log@.len(),
            r.device_filter == device_filter,
    {
        Subscriber { device_filter, next: self.log.len() }
    }

    /// Hands the subscriber its next matching event, if one has been
    /// published: skips ahead first when the subscriber has lagged past
    /// the capacity (dropping its oldest unread events), then returns
    /// the first event passing the filter and advances the cursor past
    /// it. Events from other devices are dropped silently.
    pub fn poll<'a>(&'a self, sub: &mut Subscriber) -> (r: Option<&'a T>)
        requires
            self.cap >= 1,
            old(sub).next <= self.log@.len(),
        ensures
            final(sub).device_filter == old(sub).device_filter,
            final(sub).next <= self.log@.len(),
            ({
                let i = first_match(
                    self.log@,
                    filter_view(old(sub).device_filter),
                    resume_at(
                        self.log@.len() as int,
                        self.cap as int,
                        old(sub).next as int,
                    ),
                );
                match r {
                    Some(v) => i < self.log@.len() && *v == self.log@[i].1 && final(sub).next == i
                        + 1,
                    None => i == self.log@.len() && final(sub).next == self.log@.len(),
                }
            }),
    {
        let len = self.log.len();
        if len - sub.next > self.cap {
            sub.next = len - self.cap;
        }
        let ghost from0 = resume_at(len as int, self.cap as int, old(sub).next as int);
        let mut i: usize = sub.next;
        while i < len
            invariant
                len == self.log@.len(),
                from0 == resume_at(
                    self.log@.len() as int,
                    self.cap as int,
                    old(sub).next as int,
                ),
                from0 <= i <= len,
                first_match(self.log@, filter_view(old(sub).device_filter), from0) == first_match(
                    self.log@,
                    filter_view(old(sub).device_filter),
                    i as int,
                ),
                sub.device_filter == old(sub).device_filter,
            decreases len - i,
        {
            let hit = match &sub.device_filter {
                None => true,
                Some(f) => crate::keys::str_eq(f.as_str(), self.log[i].0.as_str()),
            };
            if hit {
                proof {
                    assert(delivers(
                        filter_view(old(sub).device_filter),
                        self.log@[i as int].0@,
                    ));
                    assert(first_match(
                        self.log@,
                        filter_view(old(sub).device_filter),
                        i as int,
                    ) == i as int);
                }
                sub.next = i + 1;
                return Some(&self.log[i].1);
            }
            i = i + 1;
        }
        sub.next = len;
        None
    }
}

/// The in-process fan-out: one independent broadcast channel per record
/// type capable of live updates.
pub struct PubSub {
    pub electricity_sender: Broker<Electricity>,
    pub final_electricity_sender: Broker<FinalElectricity>,
    pub place_condition_sender: Broker<PlaceCondition>,
}

/// The per-channel lag capacity of the fan-out.
pub const CHANNEL_CAPACITY: usize = 100;

impl PubSub {
    /// A fresh fan-out with empty channels.
    pub fn new() -> (r: PubSub)
        ensures
            r.electricity_sender.log@ =~= Seq::<(String, Electricity)>::empty(),
            r.final_electricity_sender.log@ =~= Seq::<(String, FinalElectricity)>::empty(),
            r.place_condition_sender.log@ =~= Seq::<(String, PlaceCondition)>::empty(),
            r.electricity_sender.cap == CHANNEL_CAPACITY,
            r.final_electricity_sender.cap == CHANNEL_CAPACITY,
            r.place_condition_sender.cap == CHANNEL_CAPACITY,
    {
        PubSub {
            electricity_sender: Broker::new(CHANNEL_CAPACITY),
            final_electricity_sender: Broker::new(CHANNEL_CAPACITY),
            place_condition_sender: Broker::new(CHANNEL_CAPACITY),
        }
    }

    /// Publishes an electricity reading; fire-and-forget.
    pub fn publish_electricity(&mut self, e: Electricity)
        ensures
            final(self).electricity_sender.log@ == old(self).electricity_sender.log@.push(
                (e.device, e),
            ),
            final(self).electricity_sender.cap == old(self).electricity_sender.cap,
            final(self).final_electricity_sender == old(self).final_electricity_sender,
            final(self).place_condition_sender == old(self).place_condition_sender,
    {
        let device = e.device.clone();
        self.electricity_sender.publish(device, e);
    }

    /// Publishes a finalized reading; fire-and-forget.
    pub fn publish_final_electricity(&mut self, e: FinalElectricity)
        ensures
            final(self).final_electricity_sender.log@ == old(
                self,
            ).final_electricity_sender.log@.push((e.device, e)),
            final(self).final_electricity_sender.cap == old(self).final_electricity_sender.cap,
            final(self).electricity_sender == old(self).electricity_sender,
            final(self).place_condition_sender == old(self).place_condition_sender,
    {
        let device = e.device.clone();
        self.final_electricity_sender.publish(device, e);
    }

    /// Publishes an environment reading; fire-and-forget.
    pub fn publish_place_condition(&mut self, e: PlaceCondition)
        ensures
            final(self).place_condition_sender.log@ == old(
                self,
            ).place_condition_sender.log@.push((e.device, e)),
            final(self).place_condition_sender.cap == old(self).place_condition_sender.cap,
            final(self).electricity_sender == old(self).electricity_sender,
            final(self).final_electricity_sender == old(self).final_electricity_sender,
    {
        let device = e.device.clone();
        self.place_condition_sender.publish(device, e);
    }

    /// Subscribes to electricity readings, unfiltered.
    pub fn subscribe_electricity(&self) -> (r: Subscriber)
        ensures
            r.next == self.electricity_sender.log@.len(),
            r.device_filter is None,
    {
        self.electricity_sender.subscribe(None)
    }

    /// Subscribes to finalized readings, unfiltered.
    pub fn subscribe_final_electricity(&self) -> (r: Subscriber)
        ensures
            r.next == self.final_electricity_sender.log@.len(),
            r.device_filter is None,
    {
        self.final_electricity_sender.subscribe(None)
    }

    /// Subscribes to environment readings, unfiltered.
    pub fn subscribe_place_condition(&self) -> (r: Subscriber)
        ensures
            r.next == self.place_condition_sender.log@.len(),
            r.device_filter is None,
    {
        self.place_condition_sender.subscribe(None)
    }
}

} // verus!
