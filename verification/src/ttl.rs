//! Time-to-live: the deadline a value gets when it is stored, and the sweep
//! that drops the values whose deadline has passed.

use std::time::Duration;

use tokio::time::Instant;
use vstd::prelude::*;

use crate::protocol::DbValue;
use crate::store::Store;

verus! {

/// A point on the runtime's monotonic clock.
#[verifier::external_type_specification]
#[verifier::external_body]
pub struct ExInstant(Instant);

/// `start` moved forward by `ttl`, or `None` where that point cannot be
/// represented.
pub uninterp spec fn instant_after(start: Instant, ttl: Duration) -> Option<Instant>;

/// Whether `now` is at or after `deadline`.
pub uninterp spec fn instant_reached(now: Instant, deadline: Instant) -> bool;

/// Calls `tokio::time::Instant::checked_add`; the result depends on the two
/// arguments alone and is named `instant_after`.
#[verifier::external_body]
fn checked_deadline(start: Instant, ttl: Duration) -> (r: Option<Instant>)
    ensures
        r == instant_after(start, ttl),
{
    start.checked_add(ttl)
}

/// Compares two instants with `tokio::time::Instant`'s derived `>=`; the
/// result is named `instant_reached`.
#[verifier::external_body]
fn at_or_after(now: Instant, deadline: Instant) -> (r: bool)
    ensures
        r == instant_reached(now, deadline),
{
    now >= deadline
}

/// The deadline of `value` when it is stored at `now`: `now` moved forward
/// by its time-to-live; `None` for a value without one, and where that point
/// lies beyond what the clock can represent.
pub open spec fn deadline_from(value: DbValue, now: Instant) -> Option<Instant> {
    match value.expires_in {
        Some(ttl) => instant_after(now, ttl),
        None => None,
    }
}

impl DbValue {
    /// When this value expires if the clock reads `now`.
    pub fn expires_at(&self, now: Instant) -> (r: Option<Instant>)
        ensures
            r == deadline_from(*self, now),
    {
        match self.expires_in {
            Some(ttl) => checked_deadline(now, ttl),
            None => None,
        }
    }
}

/// A value as the database keeps it: the data and the instant at which it
/// expires, fixed when it was stored.
pub struct Entry {
    /// The value that was stored.
    pub(crate) data: DbValue,
    /// When the value expires; `None` keeps it until it is deleted.
    pub(crate) deadline: Option<Instant>,
}

/// The entry of `data` stored at `now`.
pub closed spec fn stored(data: DbValue, now: Instant) -> Entry {
    Entry { data, deadline: deadline_from(data, now) }
}

/// The entry of `data` stored at `now` holds `data`, with the deadline
/// `deadline_from(data, now)`.
pub broadcast proof fn lemma_stored(data: DbValue, now: Instant)
    ensures
        (#[trigger] stored(data, now)).spec_data() == data,
        stored(data, now).spec_deadline() == deadline_from(data, now),
{
}

impl Entry {
    /// A value without a time-to-live has no deadline.
    #[verifier::type_invariant]
    spec fn permanent_has_no_deadline(self) -> bool {
        self.data.expires_in is None ==> self.deadline is None
    }

    /// The value that was stored.
    pub closed spec fn spec_data(self) -> DbValue {
        self.data
    }

    /// When the value expires; `None` keeps it until it is deleted.
    pub closed spec fn spec_deadline(self) -> Option<Instant> {
        self.deadline
    }

    /// The value that was stored.
    pub fn data(&self) -> (r: &DbValue)
        ensures
            *r == self.spec_data(),
    {
        &self.data
    }

    /// When the value expires.
    pub fn deadline(&self) -> (r: Option<Instant>)
        ensures
            r == self.spec_deadline(),
    {
        self.deadline
    }

    /// Stores `data` at the clock reading `now`.
    pub fn new(data: DbValue, now: Instant) -> (e: Entry)
        ensures
            e == stored(data, now),
    {
        let deadline = data.expires_at(now);
        Entry { data, deadline }
    }
}

/// Whether an entry with deadline `deadline` is still alive at `now`.
pub open spec fn survives(now: Instant, deadline: Option<Instant>) -> bool {
    match deadline {
        Some(d) => !instant_reached(now, d),
        None => true,
    }
}

/// Decides whether an entry with deadline `deadline` is still alive at `now`.
pub fn keeps(now: Instant, deadline: Option<Instant>) -> (r: bool)
    ensures
        r == survives(now, deadline),
{
    match deadline {
        Some(d) => !at_or_after(now, d),
        None => true,
    }
}

/// The entries of `db` that are still alive at `now`.
pub open spec fn unexpired(db: Map<Seq<char>, Entry>, now: Instant) -> Map<Seq<char>, Entry> {
    Map::new(|k: Seq<char>| db.contains_key(k) && survives(now, db[k].spec_deadline()), |k: Seq<char>| db[k])
}

impl Store<Entry> {
    /// Drops every entry whose deadline `now` has reached, and keeps the others.
    pub fn sweep_expired(&mut self, now: Instant)
        requires
            old(self).wf(),
        ensures
            final(self).wf(),
            final(self)@ == unexpired(old(self)@, now),
            forall|k: Seq<char>| #[trigger]
                old(self)@.contains_key(k) && old(self)@[k].spec_data().expires_in is None
                    ==> final(self)@.contains_key(k),
    {
        let mut i: usize = 0;
        while i < self.len()
            invariant
                self.wf(),
                i <= self.size(),
                forall|k: Seq<char>| #[trigger]
                    self@.contains_key(k) ==> old(self)@.contains_key(k) && self@[k] == old(self)@[k],
                forall|k: Seq<char>| #[trigger]
                    old(self)@.contains_key(k) && !self@.contains_key(k) ==> !survives(
                        now,
                        old(self)@[k].spec_deadline(),
                    ),
                forall|j: int|
                    0 <= j < i ==> survives(now, self@[#[trigger] self.key_order()[j]].spec_deadline()),
                forall|k: Seq<char>| #[trigger]
                    old(self)@.contains_key(k) && survives(now, old(self)@[k].spec_deadline())
                        ==> self@.contains_key(k),
                forall|k: Seq<char>| #[trigger]
                    old(self)@.contains_key(k) && !self@.contains_key(k)
                        ==> old(self)@[k].spec_data().expires_in is Some,
            decreases self.size() - i,
        {
            let ghost before = *self;
            proof {
                before.lemma_key_order();
            }
            let entry = self.value_at(i);
            proof {
                use_type_invariant(entry);
            }
            let deadline = entry.deadline;
            if keeps(now, deadline) {
                i = i + 1;
            } else {
                let _ = self.remove_at(i);
                assert forall|j: int| 0 <= j < i implies survives(
                    now,
                    self@[#[trigger] self.key_order()[j]].spec_deadline(),
                ) by {
                    assert(self.key_order()[j] == before.key_order()[j]);
                    assert(before.key_order().contains(before.key_order()[j]));
                    self.lemma_key_order();
                    assert(self.key_order().contains(self.key_order()[j]));
                }
            }
        }
        proof {
            self.lemma_key_order();
            assert forall|k: Seq<char>| #[trigger] self@.contains_key(k) implies survives(
                now,
                self@[k].spec_deadline(),
            ) by {
                assert(self.key_order().to_set().contains(k));
                let j = choose|j: int| 0 <= j < self.key_order().len() && self.key_order()[j] == k;
                assert(survives(now, self@[self.key_order()[j]].spec_deadline()));
            }
            assert(self@ =~= unexpired(old(self)@, now));
        }
    }
}

} // verus!
