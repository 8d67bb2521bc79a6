//! A verified alert classification, deduplication and dispatch pipeline.
//!
//! Structured events are classified by severity and field content; events
//! flagged as alerts are deduplicated by a hashed identity within a
//! time-to-live window; surviving alerts are queued, without blocking the
//! emitting context, for serialized delivery to a pluggable handler.

use vstd::prelude::*;

pub mod cache;
pub mod handler;
pub mod laws;
pub mod level;
pub mod queue;
pub mod visitor;

use crate::cache::{spec_admit, spec_admitted, spec_purge, DedupCache};
use crate::handler::{format_alert_message, formatted_message, AlertHandler};
use crate::level::Level;
use crate::queue::AlertQueue;
use crate::visitor::{
    classify, identity_of, input_flag, input_map, message_of, sha256_of, AlertVisitor, FieldValue,
};

verus! {

/// True iff the event with field list `s` is an alert: a boolean `alert`
/// field set it, or a field named `alert` is present under any value.
pub open spec fn event_is_alert(s: Seq<(String, FieldValue)>) -> bool {
    input_flag(s) || input_map(s).contains_key("alert"@)
}

/// The deduplication identity of the event with field list `s`.
pub open spec fn event_identity(s: Seq<(String, FieldValue)>) -> Seq<char> {
    identity_of(input_map(s))
}

/// What became of one event offered to the pipeline.
#[derive(Clone, Copy, PartialEq, Eq, Structural, Debug)]
pub enum Outcome {
    /// Filtered by severity, or not flagged as an alert.
    Dropped,
    /// A repeat of a recently admitted identity within its window.
    Suppressed,
    /// Admitted and waiting in the queue for delivery.
    Enqueued,
    /// Admitted, but dropped because the queue was full.
    DroppedBackpressure,
}

/// The alert pipeline: classification, deduplication and a bounded
/// hand-off queue, owned by one instance and driven synchronously by the
/// emitting context; a separate worker drains the queue and purges the
/// cache.
pub struct AlertLayer {
    max_level: Level,
    dedup_time: u64,
    dedup: DedupCache,
    queue: AlertQueue,
}

impl AlertLayer {
    /// The cache and the queue are each well formed.
    pub closed spec fn wf(self) -> bool {
        self.dedup.wf() && self.queue.wf()
    }

    /// The least severity an event must reach to be considered.
    pub closed spec fn spec_max_level(self) -> Level {
        self.max_level
    }

    /// The suppression window applied to each admitted identity.
    pub closed spec fn spec_dedup_time(self) -> u64 {
        self.dedup_time
    }

    /// The deduplication entries: identity digest to expiry time.
    pub closed spec fn cache_view(self) -> Map<Seq<u8>, u64> {
        self.dedup@
    }

    /// The alerts waiting for delivery, oldest first.
    pub closed spec fn queue_view(self) -> Seq<AlertVisitor> {
        self.queue@
    }

    /// The capacity of the hand-off queue.
    pub closed spec fn spec_capacity(self) -> int {
        self.queue.spec_capacity()
    }

    /// True iff `self` keeps the configuration of `other` and its cache
    /// and queue are unchanged.
    pub open spec fn same_state(self, other: AlertLayer) -> bool {
        &&& self.spec_max_level() == other.spec_max_level()
        &&& self.spec_dedup_time() == other.spec_dedup_time()
        &&& self.spec_capacity() == other.spec_capacity()
        &&& self.cache_view() == other.cache_view()
        &&& self.queue_view() == other.queue_view()
    }

    /// True iff `self` keeps the configuration of `other`.
    pub open spec fn same_config(self, other: AlertLayer) -> bool {
        &&& self.spec_max_level() == other.spec_max_level()
        &&& self.spec_dedup_time() == other.spec_dedup_time()
        &&& self.spec_capacity() == other.spec_capacity()
    }

    /// A fresh pipeline: events below `max_level` are ignored, admitted
    /// identities are suppressed for `dedup_time` after admission, and at
    /// most `buffer` alerts wait for delivery at once.
    pub fn new(max_level: Level, dedup_time: u64, buffer: usize) -> (r: AlertLayer)
        ensures
            r.wf(),
            r.spec_max_level() == max_level,
            r.spec_dedup_time() == dedup_time,
            r.spec_capacity() == buffer,
            r.cache_view() == Map::<Seq<u8>, u64>::empty(),
            r.queue_view() == Seq::<AlertVisitor>::empty(),
    {
        AlertLayer {
            max_level,
            dedup_time,
            dedup: DedupCache::new(),
            queue: AlertQueue::new(buffer),
        }
    }

    /// Runs one event through the pipeline at time `now`: events below
    /// the severity bound or not flagged as alerts are dropped with no
    /// change of state; a repeat of a live identity is suppressed; an
    /// admitted alert is stamped into the cache and enqueued, or dropped
    /// when the queue is full.
    pub fn on_event(&mut self, level: Level, fields: Vec<(String, FieldValue)>, now: u64) -> (r:
        Outcome)
        requires
            old(self).wf(),
            now + old(self).spec_dedup_time() <= u64::MAX,
        ensures
            final(self).wf(),
            final(self).same_config(*old(self)),
            level.severity() < old(self).spec_max_level().severity() || !event_is_alert(fields@)
                ==> r == Outcome::Dropped && final(self).same_state(*old(self)),
            level.severity() >= old(self).spec_max_level().severity() && event_is_alert(fields@)
                ==> {
                let key = sha256_of(event_identity(fields@));
                let m = old(self).cache_view();
                &&& !spec_admitted(m, key, now) ==> r == Outcome::Suppressed && final(self).same_state(*old(self))
                &&& spec_admitted(m, key, now) ==> {
                    &&& final(self).cache_view() == spec_admit(
                        m,
                        key,
                        now,
                        old(self).spec_dedup_time(),
                    )
                    &&& old(self).queue_view().len() < old(self).spec_capacity() ==> {
                        &&& r == Outcome::Enqueued
                        &&& final(self).queue_view().len() == old(self).queue_view().len() + 1
                        &&& final(self).queue_view().drop_last() == old(self).queue_view()
                        &&& final(self).queue_view().last().wf()
                        &&& final(self).queue_view().last().spec_level() == level
                        &&& final(self).queue_view().last().field_map() == input_map(fields@)
                        &&& final(self).queue_view().last().spec_flag() == input_flag(fields@)
                    }
                    &&& old(self).queue_view().len() >= old(self).spec_capacity() ==> r == Outcome::DroppedBackpressure
                        && final(self).queue_view() == old(self).queue_view()
                }
            },
    {
        match classify(level, self.max_level, fields) {
            None => Outcome::Dropped,
            Some(visitor) => {
                if visitor.is_alert() {
                    let key = visitor.dedup_key();
                    if self.dedup.try_admit(&key, now, self.dedup_time) {
                        let ghost q = self.queue@;
                        if self.queue.try_push(visitor) {
                            proof {
                                assert(self.queue@.drop_last() =~= q);
                            }
                            Outcome::Enqueued
                        } else {
                            Outcome::DroppedBackpressure
                        }
                    } else {
                        Outcome::Suppressed
                    }
                } else {
                    Outcome::Dropped
                }
            },
        }
    }

    /// Takes the oldest queued alert, if any, as the severity and the
    /// formatted message to hand to the delivery capability.
    pub fn pop_next(&mut self) -> (r: Option<(Level, String)>)
        requires
            old(self).wf(),
        ensures
            final(self).wf(),
            final(self).same_config(*old(self)),
            final(self).cache_view() == old(self).cache_view(),
            old(self).queue_view().len() == 0 ==> r is None
                && final(self).queue_view() == old(self).queue_view(),
            old(self).queue_view().len() > 0 ==> {
                let first = old(self).queue_view().first();
                &&& final(self).queue_view() == old(self).queue_view().drop_first()
                &&& r matches Some(next) && next.0 == first.spec_level() && next.1@
                    == formatted_message(first.spec_level(), message_of(first.field_map()))
            },
    {
        match self.queue.pop() {
            None => None,
            Some(visitor) => {
                let msg = format_alert_message(*visitor.level(), visitor.message());
                Some((*visitor.level(), msg))
            },
        }
    }

    /// Delivers the oldest queued alert, if any, through the handler:
    /// the alert leaves the queue whatever the delivery result, and the
    /// result is reported for diagnostics, never retried.
    pub fn dispatch_next<H: AlertHandler>(&mut self, handler: &H) -> (r: Option<
        Result<(), H::Error>,
    >)
        requires
            old(self).wf(),
        ensures
            final(self).wf(),
            final(self).same_config(*old(self)),
            final(self).cache_view() == old(self).cache_view(),
            old(self).queue_view().len() == 0 ==> r is None
                && final(self).queue_view() == old(self).queue_view(),
            old(self).queue_view().len() > 0 ==> r is Some
                && final(self).queue_view() == old(self).queue_view().drop_first(),
    {
        match self.queue.pop() {
            None => None,
            Some(visitor) => {
                let msg = format_alert_message(*visitor.level(), visitor.message());
                Some(handler.handle_alert(visitor.level(), msg.as_str()))
            },
        }
    }

    /// Purges the deduplication cache: removes exactly the entries whose
    /// expiry has passed at `now` and leaves all others unchanged.
    pub fn purge_expired_entries(&mut self, now: u64)
        requires
            old(self).wf(),
        ensures
            final(self).wf(),
            final(self).same_config(*old(self)),
            final(self).cache_view() == spec_purge(old(self).cache_view(), now),
            final(self).queue_view() == old(self).queue_view(),
    {
        self.dedup.purge(now);
    }

    /// The number of alerts waiting for delivery.
    pub fn queue_len(&self) -> (r: usize)
        ensures
            r == self.queue_view().len(),
    {
        self.queue.len()
    }
}

} // verus!
