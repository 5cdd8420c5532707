//! What is known of the messages that were delivered of late.
use crate::ids::Key;
use crate::table::{KeySet, Table};
use crate::time::{Duration, Moment};
use libp2p_identity::PeerId;
use vstd::prelude::*;

verus! {

/// What has become of a message.
#[derive(Clone, Copy, PartialEq, Eq, Structural, Debug)]
pub enum DeliveryStatus {
    /// It is not known yet whether the message is valid.
    Unknown,
    /// The message is valid, together with the time of its validation.
    Valid(Moment),
    /// The message is invalid.
    Invalid,
    /// The validator asked to ignore the message.
    Ignored,
}

/// What is known of one message.
pub struct DeliveryRecord {
    pub status: DeliveryStatus,
    /// When the message was first heard of.
    pub first_seen: Moment,
    /// The peers that have delivered the message, beside the first one.
    pub peers: KeySet<PeerId>,
}

/// What a [`DeliveryRecord`] says.
#[verifier::ext_equal]
pub struct RecordView {
    pub status: DeliveryStatus,
    pub first_seen: Moment,
    pub peers: Set<PeerId>,
}

impl View for DeliveryRecord {
    type V = RecordView;

    open spec fn view(&self) -> RecordView {
        RecordView { status: self.status, first_seen: self.first_seen, peers: self.peers@.dom() }
    }
}

impl RecordView {
    /// A message that was first heard of at `now`.
    pub open spec fn fresh(now: Moment) -> Self {
        RecordView { status: DeliveryStatus::Unknown, first_seen: now, peers: Set::empty() }
    }

    /// The message is valid as of `now`.
    pub open spec fn validated(self, now: Moment) -> Self {
        RecordView { status: DeliveryStatus::Valid(now), ..self }
    }

    /// The message is settled, and nobody is remembered to have delivered it.
    pub open spec fn settled(self, status: DeliveryStatus) -> Self {
        RecordView { status, peers: Set::empty(), ..self }
    }

    /// `peer` has delivered the message.
    pub open spec fn delivered_by(self, peer: PeerId) -> Self {
        RecordView { peers: self.peers.insert(peer), ..self }
    }

    /// Nobody is remembered to have delivered a message that was rejected.
    pub open spec fn inv(self) -> bool {
        (self.status is Invalid || self.status is Ignored) ==> self.peers == Set::<PeerId>::empty()
    }
}

impl DeliveryRecord {
    /// The set is a set.
    pub open spec fn wf(&self) -> bool {
        self.peers.wf()
    }

    /// The record of a message that was first heard of at `now`.
    pub fn new(now: Moment) -> (r: DeliveryRecord)
        ensures
            r.wf(),
            r@ == RecordView::fresh(now),
    {
        let r = DeliveryRecord {
            status: DeliveryStatus::Unknown,
            first_seen: now,
            peers: Table::new(),
        };
        assert(r@.peers =~= Set::empty());
        r
    }

    /// The peers that have delivered the message.
    pub(crate) fn list_peers(&self) -> (r: Vec<PeerId>)
        requires
            self.wf(),
        ensures
            r@.no_duplicates(),
            r@.to_set() == self@.peers,
    {
        let mut list: Vec<PeerId> = Vec::new();
        let n: usize = self.peers.len();
        let mut i: usize = 0;
        while i < n
            invariant
                self.wf(),
                i <= n,
                n == self.peers.keys().len(),
                list@ == self.peers.keys().take(i as int),
            decreases n - i,
        {
            list.push(*self.peers.key_at(i));
            assert(list@ =~= self.peers.keys().take(i + 1));
            i = i + 1;
        }
        proof {
            self.peers.keys_enumerate();
            assert(list@ =~= self.peers.keys());
        }
        list
    }
}

/// An entry of a [`TimeCache`].
pub struct Cached<V> {
    pub value: V,
    /// From when on the entry is gone.
    pub expires: Moment,
}

/// The entries of a cache that are not gone at `now`.
pub open spec fn live<I, V>(entries: Map<I, Cached<V>>, now: Moment) -> Map<I, Cached<V>> {
    Map::new(
        |id: I| entries.contains_key(id) && now.nanos < entries[id].expires.nanos,
        |id: I| entries[id],
    )
}

/// A map whose entries are gone when their time is up. An entry's time starts when its key comes
/// to the cache, and is not prolonged by using the entry.
pub struct TimeCache<K: Key, V> {
    entries: Table<K, Cached<V>>,
    ttl: Duration,
}

impl<K: Key, V> TimeCache<K, V> {
    /// What the cache holds, whether its time is up or not.
    pub closed spec fn view(&self) -> Map<K::Id, Cached<V>> {
        self.entries@
    }

    /// How long an entry lasts.
    pub closed spec fn lifetime(&self) -> Duration {
        self.ttl
    }

    /// The table is a table.
    pub closed spec fn wf(&self) -> bool {
        self.entries.wf()
    }

    /// A cache whose entries last for `ttl`.
    pub fn new(ttl: Duration) -> (r: Self)
        ensures
            r.wf(),
            r@ == Map::<K::Id, Cached<V>>::empty(),
            r.lifetime() == ttl,
    {
        TimeCache { entries: Table::new(), ttl }
    }

    /// Throws away the entries whose time is up.
    fn remove_expired_keys(&mut self, now: Moment)
        requires
            old(self).wf(),
        ensures
            final(self).wf(),
            final(self)@ == live(old(self)@, now),
            final(self).lifetime() == old(self).lifetime(),
    {
        let ghost before = self.entries@;
        let mut i: usize = 0;
        while i < self.entries.len()
            invariant
                self.entries.wf(),
                self.ttl == old(self).ttl,
                before == old(self).entries@,
                i <= self.entries.keys().len(),
                forall|id: K::Id| #[trigger]
                    self.entries@.contains_key(id) ==> before.contains_key(id)
                        && self.entries@[id] == before[id],
                forall|id: K::Id| #[trigger]
                    before.contains_key(id) && now.nanos < before[id].expires.nanos
                        ==> self.entries@.contains_key(id),
                forall|j: int|
                    0 <= j < i ==> now.nanos
                        < self.entries@[#[trigger] self.entries.keys()[j]].expires.nanos,
            decreases self.entries.keys().len() - i,
        {
            proof {
                self.entries.keys_enumerate();
            }
            if self.entries.value_at(i).expires.nanos <= now.nanos {
                let ghost prior = self.entries;
                let _ = self.entries.remove_at(i);
                proof {
                    assert forall|j: int| 0 <= j < i implies now.nanos
                        < self.entries@[#[trigger] self.entries.keys()[j]].expires.nanos by {
                        assert(self.entries.keys()[j] == prior.keys()[j]);
                        assert(prior.keys()[j] != prior.keys()[i as int]);
                    }
                }
            } else {
                i = i + 1;
            }
        }
        proof {
            self.entries.keys_enumerate();
            assert forall|id: K::Id| self.entries@.contains_key(id) == live(
                before,
                now,
            ).contains_key(id) by {
                if self.entries@.contains_key(id) {
                    assert(self.entries.keys().contains(id));
                    assert(self.entries.keys()[self.entries.keys().index_of(id)] == id);
                }
            }
            assert(self.entries@ =~= live(before, now));
        }
    }

    /// The entry under `key`, to be changed. Entries whose time is up at `now` are thrown away
    /// first; where the key then has no entry, `fresh` is put there.
    pub fn entry_or(&mut self, key: K, fresh: V, now: Moment) -> (r: &mut V)
        requires
            old(self).wf(),
            now.has_room(old(self).lifetime()),
        ensures
            final(self).wf(),
            final(self).lifetime() == old(self).lifetime(),
            *r == (if live(old(self)@, now).contains_key(key.id()) {
                old(self)@[key.id()].value
            } else {
                fresh
            }),
            final(self)@ == live(old(self)@, now).insert(
                key.id(),
                Cached {
                    value: *final(r),
                    expires: if live(old(self)@, now).contains_key(key.id()) {
                        old(self)@[key.id()].expires
                    } else {
                        now.after(old(self).lifetime())
                    },
                },
            ),
    {
        self.remove_expired_keys(now);
        let expires = Moment { nanos: now.nanos + self.ttl.nanos };
        let cached = self.entries.get_or_insert_mut(key, Cached { value: fresh, expires });
        &mut cached.value
    }
}

} // verus!
