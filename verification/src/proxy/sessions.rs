//! UDP sessions: which datagram belongs to which session, which session may open,
//! and what is dropped.

use vstd::prelude::*;

use super::queue::{
    after_batch, batch_end, next_capsule_batch, total_len, CapsuleBatch, DatagramQueue,
    DatagramTrySendError, QueueModel,
};
use crate::bytebuf::frozen_bytes;
use crate::capsule::{datagram_stream, CapsuleError};
use crate::net::SocketAddr;

verus! {

/// A flow of datagrams: where they come from and where they were sent to.
#[derive(Clone, Copy, Debug, PartialEq, Eq, Hash, Structural)]
pub struct FlowKey {
    pub source: SocketAddr,
    pub destination: SocketAddr,
}

/// A session of a flow.
pub struct SessionEntry {
    pub key: FlowKey,
    pub id: u64,
    pub queue: DatagramQueue,
}

/// A session, as a plain value.
pub struct Session {
    pub id: u64,
    pub queue: QueueModel,
}

impl View for SessionEntry {
    type V = Session;

    open spec fn view(&self) -> Session {
        Session { id: self.id, queue: self.queue@ }
    }
}

/// The sessions, at most one for a flow and no more than a limit.
pub struct SessionTable {
    entries: Vec<SessionEntry>,
    max_sessions: usize,
    next_id: u64,
}

spec fn at_key(entries: Seq<SessionEntry>, key: FlowKey, i: int) -> bool {
    0 <= i < entries.len() && entries[i].key == key
}

spec fn unique(entries: Seq<SessionEntry>) -> bool {
    forall|i: int, j: int|
        #![trigger entries[i], entries[j]]
        0 <= i < j < entries.len() ==> entries[i].key != entries[j].key
}

spec fn table(entries: Seq<SessionEntry>) -> Map<FlowKey, Session>
    decreases entries.len(),
{
    if entries.len() == 0 {
        Map::empty()
    } else {
        table(entries.drop_last()).insert(entries.last().key, entries.last()@)
    }
}

proof fn lemma_table(entries: Seq<SessionEntry>)
    requires
        unique(entries),
    ensures
        forall|k: FlowKey|
            #[trigger] table(entries).dom().contains(k) == exists|i: int| at_key(entries, k, i),
        forall|i: int|
            0 <= i < entries.len() ==> table(entries).dom().contains(entries[i].key) && table(
                entries,
            )[entries[i].key] == (#[trigger] entries[i])@,
        table(entries).dom().finite(),
        table(entries).dom().len() == entries.len(),
    decreases entries.len(),
{
    if entries.len() > 0 {
        let short = entries.drop_last();
        let last = entries.last();
        assert forall|i: int, j: int|
            #![trigger short[i], short[j]]
            0 <= i < j < short.len() implies short[i].key != short[j].key by {
            assert(entries[i].key != entries[j].key);
        }
        lemma_table(short);
        assert(entries[entries.len() - 1] == last);
        assert forall|k: FlowKey| #[trigger] table(entries).dom().contains(k) == exists|i: int|
            at_key(entries, k, i) by {
            if exists|i: int| at_key(short, k, i) {
                let i = choose|i: int| at_key(short, k, i);
                assert(at_key(entries, k, i));
            }
            if exists|i: int| at_key(entries, k, i) {
                let i = choose|i: int| at_key(entries, k, i);
                if i < short.len() {
                    assert(at_key(short, k, i));
                }
            }
            if k == last.key {
                assert(at_key(entries, k, entries.len() - 1));
            }
        }
        assert forall|i: int| 0 <= i < entries.len() implies table(entries).dom().contains(
            entries[i].key,
        ) && table(entries)[entries[i].key] == (#[trigger] entries[i])@ by {
            if i < short.len() {
                assert(short[i] == entries[i]);
                assert(entries[i].key != entries[entries.len() - 1].key);
            }
        }
        assert(!table(short).dom().contains(last.key)) by {
            if table(short).dom().contains(last.key) {
                let i = choose|i: int| at_key(short, last.key, i);
                assert(entries[i].key != entries[entries.len() - 1].key);
            }
        }
    }
}

/// Tables with the same entries under the same keys are the same.
proof fn lemma_table_is(entries: Seq<SessionEntry>, wanted: Map<FlowKey, Session>)
    requires
        unique(entries),
        forall|i: int|
            0 <= i < entries.len() ==> wanted.dom().contains((#[trigger] entries[i]).key)
                && wanted[entries[i].key] == entries[i]@,
        forall|k: FlowKey| #[trigger]
            wanted.dom().contains(k) ==> exists|i: int| at_key(entries, k, i),
    ensures
        table(entries) == wanted,
{
    lemma_table(entries);
    assert forall|k: FlowKey| #[trigger] table(entries).dom().contains(k) implies wanted.dom().contains(
        k,
    ) && wanted[k] == table(entries)[k] by {
        let i = choose|i: int| at_key(entries, k, i);
        assert(entries[i].key == k);
    }
    assert forall|k: FlowKey| #[trigger] wanted.dom().contains(k) implies table(
        entries,
    ).dom().contains(k) by {
        let i = choose|i: int| at_key(entries, k, i);
        assert(entries[i].key == k);
    }
    assert(table(entries) =~= wanted);
}

/// Another entry under the same key takes the place of the one that was there.
proof fn lemma_table_update(entries: Seq<SessionEntry>, i: int, entry: SessionEntry)
    requires
        unique(entries),
        0 <= i < entries.len(),
        entries[i].key == entry.key,
    ensures
        unique(entries.update(i, entry)),
        table(entries.update(i, entry)) == table(entries).insert(entry.key, entry@),
{
    let all = entries.update(i, entry);
    let wanted = table(entries).insert(entry.key, entry@);
    lemma_table(entries);
    assert forall|a: int, b: int|
        #![trigger all[a], all[b]]
        0 <= a < b < all.len() implies all[a].key != all[b].key by {
        assert(entries[a].key != entries[b].key);
    }
    assert forall|a: int| 0 <= a < all.len() implies wanted.dom().contains((#[trigger] all[a]).key)
        && wanted[all[a].key] == all[a]@ by {
        if a != i {
            assert(all[a] == entries[a]);
            assert(all[a].key != all[i].key);
        }
    }
    assert forall|k: FlowKey| #[trigger] wanted.dom().contains(k) implies exists|a: int|
        at_key(all, k, a) by {
        if k == entry.key {
            assert(at_key(all, k, i));
        } else {
            let a = choose|a: int| at_key(entries, k, a);
            assert(at_key(all, k, a));
        }
    }
    lemma_table_is(all, wanted);
}

impl View for SessionTable {
    type V = Map<FlowKey, Session>;

    closed spec fn view(&self) -> Map<FlowKey, Session> {
        table(self.entries@)
    }
}

impl SessionTable {
    /// No flow has two sessions, and every queue is in order.
    pub closed spec fn wf(self) -> bool {
        &&& unique(self.entries@)
        &&& forall|i: int| 0 <= i < self.entries@.len() ==> (#[trigger] self.entries@[i]).queue@.wf()
    }

    /// How many sessions may be open.
    pub closed spec fn limit(self) -> nat {
        self.max_sessions as nat
    }

    /// The number of the next session.
    pub closed spec fn next(self) -> u64 {
        self.next_id
    }

    /// A table without sessions.
    pub fn new(max_sessions: usize) -> (r: Self)
        ensures
            r.wf(),
            r@ == Map::<FlowKey, Session>::empty(),
            r.limit() == max_sessions,
            r.next() == 0,
    {
        SessionTable { entries: Vec::new(), max_sessions, next_id: 0 }
    }

    /// Where the flow's session stands.
    fn position(&self, key: &FlowKey) -> (r: Option<usize>)
        requires
            self.wf(),
        ensures
            r.is_some() == self@.dom().contains(*key),
            r matches Some(i) ==> i < self.entries@.len() && self.entries@[i as int].key == *key
                && self@[*key] == self.entries@[i as int]@,
    {
        proof {
            lemma_table(self.entries@);
        }
        let mut i: usize = 0;
        while i < self.entries.len()
            invariant
                self.wf(),
                i <= self.entries@.len(),
                forall|k: int| 0 <= k < i ==> !at_key(self.entries@, *key, k),
            decreases self.entries@.len() - i,
        {
            if self.entries[i].key == *key {
                proof {
                    lemma_table(self.entries@);
                    assert(at_key(self.entries@, *key, i as int));
                }
                return Some(i);
            }
            i = i + 1;
        }
        None
    }

    /// Opens a session for a flow, in place of one that it has, unless the limit
    /// is reached.
    pub fn insert(&mut self, key: FlowKey, queue: DatagramQueue) -> (r: Option<u64>)
        requires
            old(self).wf(),
            queue@.wf(),
        ensures
            final(self).wf(),
            final(self).limit() == old(self).limit(),
            old(self)@.dom().len() >= old(self).limit() ==> r.is_none() && final(self)@ == old(
                self,
            )@ && final(self).next() == old(self).next(),
            old(self)@.dom().len() < old(self).limit() ==> {
                &&& r == Some(old(self).next())
                &&& final(self)@ == old(self)@.insert(
                    key,
                    Session { id: old(self).next(), queue: queue@ },
                )
                &&& final(self).next() == (if old(self).next() == u64::MAX {
                    0
                } else {
                    old(self).next() + 1
                })
            },
    {
        proof {
            lemma_table(self.entries@);
        }
        if self.entries.len() >= self.max_sessions {
            return None;
        }
        let id: u64 = self.next_id;
        self.next_id = self.next_id.wrapping_add(1);
        let ghost before = self.entries@;
        let entry: SessionEntry = SessionEntry { key, id, queue };
        let ghost wanted = table(before).insert(key, entry@);
        match self.position(&key) {
            Some(i) => {
                proof {
                    lemma_table_update(before, i as int, entry);
                }
                self.entries.set(i, entry);
            },
            None => {
                self.entries.push(entry);
                proof {
                    let all = self.entries@;
                    assert forall|a: int, b: int|
                        #![trigger all[a], all[b]]
                        0 <= a < b < all.len() implies all[a].key != all[b].key by {
                        if b == before.len() {
                            if all[a].key == key {
                                assert(at_key(before, key, a));
                            }
                        } else {
                            assert(before[a].key != before[b].key);
                        }
                    }
                    assert forall|k: FlowKey| #[trigger] wanted.dom().contains(k) implies exists|n: int|
                        at_key(all, k, n) by {
                        if k == key {
                            assert(at_key(all, k, before.len() as int));
                        } else {
                            let n = choose|n: int| at_key(before, k, n);
                            assert(at_key(all, k, n));
                        }
                    }
                    assert forall|n: int| 0 <= n < all.len() implies wanted.dom().contains(
                        (#[trigger] all[n]).key,
                    ) && wanted[all[n].key] == all[n]@ by {
                        if n < before.len() {
                            assert(all[n] == before[n]);
                            assert(all[n].key != all[before.len() as int].key);
                        }
                    }
                    lemma_table_is(all, wanted);
                }
            },
        }
        Some(id)
    }

    /// Ends a session, unless the flow has another one by now.
    pub fn complete(&mut self, key: FlowKey, id: u64)
        requires
            old(self).wf(),
        ensures
            final(self).wf(),
            final(self).limit() == old(self).limit(),
            final(self).next() == old(self).next(),
            final(self)@ == completed(old(self)@, key, id),
    {
        match self.position(&key) {
            Some(i) => {
                if self.entries[i].id == id {
                    let ghost before = self.entries@;
                    let ghost wanted = table(before).remove(key);
                    proof {
                        lemma_table(before);
                    }
                    let _gone: SessionEntry = self.entries.remove(i);
                    proof {
                        let all = self.entries@;
                        let n = i as int;
                        assert forall|a: int| 0 <= a < all.len() implies (#[trigger] all[a]) == (
                        if a < n {
                            before[a]
                        } else {
                            before[a + 1]
                        }) by {}
                        assert forall|a: int| 0 <= a < all.len() implies wanted.dom().contains(
                            (#[trigger] all[a]).key,
                        ) && wanted[all[a].key] == all[a]@ by {
                            let b = if a < n {
                                a
                            } else {
                                a + 1
                            };
                            assert(all[a] == before[b]);
                            assert(before[b].key != before[n].key);
                        }
                        assert forall|k: FlowKey| #[trigger] wanted.dom().contains(k) implies exists|a: int|
                            at_key(all, k, a) by {
                            let b = choose|b: int| at_key(before, k, b);
                            let a = if b < n {
                                b
                            } else {
                                b - 1
                            };
                            assert(at_key(all, k, a));
                        }
                        lemma_table_is(all, wanted);
                    }
                }
            },
            None => {},
        }
    }

    /// The number of the flow's session.
    pub fn get(&self, key: &FlowKey) -> (r: Option<u64>)
        requires
            self.wf(),
        ensures
            r == (if self@.dom().contains(*key) {
                Some(self@[*key].id)
            } else {
                None
            }),
    {
        match self.position(key) {
            Some(i) => Some(self.entries[i].id),
            None => None,
        }
    }

    /// How many sessions are open.
    pub fn len(&self) -> (r: usize)
        requires
            self.wf(),
        ensures
            r == self@.dom().len(),
    {
        proof {
            lemma_table(self.entries@);
        }
        self.entries.len()
    }

    /// Offers a datagram to the queue of the flow's session.
    pub fn try_send(&mut self, key: &FlowKey, payload: bytes::Bytes) -> (r: Result<
        (),
        DatagramTrySendError,
    >)
        requires
            old(self).wf(),
            old(self)@.dom().contains(*key),
        ensures
            final(self).wf(),
            final(self).limit() == old(self).limit(),
            final(self).next() == old(self).next(),
            ({
                let session = old(self)@[*key];
                let bytes = frozen_bytes(payload);
                &&& final(self)@ == old(self)@.insert(
                    *key,
                    Session { id: session.id, queue: session.queue.offered(bytes) },
                )
                &&& match r {
                    Ok(()) => session.queue.offer(bytes.len()) is Queued,
                    Err(DatagramTrySendError::Full) => session.queue.offer(bytes.len()) is Full,
                    Err(DatagramTrySendError::Closed(back)) => back == payload
                        && session.queue.offer(bytes.len()) is Closed,
                }
            }),
    {
        match self.position(key) {
            Some(i) => {
                let ghost before = self.entries@;
                let ghost session = self@[*key];
                let r: Result<(), DatagramTrySendError> = self.entries[i].queue.try_send(payload);
                proof {
                    lemma_table_update(before, i as int, self.entries@[i as int]);
                    assert(self.entries@ =~= before.update(i as int, self.entries@[i as int]));
                }
                r
            },
            None => Err(DatagramTrySendError::Full),
        }
    }

    /// Takes what the session's next write to its stream carries. Nothing, where
    /// no datagram waits or the flow has another session by now.
    pub fn next_batch(&mut self, key: FlowKey, id: u64) -> (r: Result<
        Option<CapsuleBatch>,
        CapsuleError,
    >)
        requires
            old(self).wf(),
        ensures
            final(self).wf(),
            final(self).limit() == old(self).limit(),
            final(self).next() == old(self).next(),
            !(old(self)@.dom().contains(key) && old(self)@[key].id == id) ==> (r matches Ok(None))
                && final(self)@ == old(self)@,
            old(self)@.dom().contains(key) && old(self)@[key].id == id ==> {
                let queue = old(self)@[key].queue;
                let (count, fits) = batch_end(queue.waiting, 0);
                &&& final(self)@ == old(self)@.insert(
                    key,
                    Session { id, queue: after_batch(queue) },
                )
                &&& match r {
                    Ok(None) => queue.waiting.len() == 0,
                    Ok(Some(batch)) => {
                        &&& queue.waiting.len() > 0
                        &&& fits
                        &&& frozen_bytes(batch.bytes) == datagram_stream(
                            queue.waiting.take(count as int),
                        )
                        &&& batch.datagrams == count
                        &&& batch.payload_bytes == total_len(queue.waiting.take(count as int))
                    },
                    Err(e) => !fits && e == CapsuleError::DatagramTooLarge,
                }
            },
    {
        match self.position(&key) {
            Some(i) => {
                if self.entries[i].id != id {
                    return Ok(None);
                }
                let ghost before = self.entries@;
                let r: Result<Option<CapsuleBatch>, CapsuleError> = next_capsule_batch(
                    &mut self.entries[i].queue,
                );
                proof {
                    lemma_table_update(before, i as int, self.entries@[i as int]);
                    assert(self.entries@ =~= before.update(i as int, self.entries@[i as int]));
                }
                r
            },
            None => Ok(None),
        }
    }

    /// Ends the taking of datagrams for a session: drops those that wait and says how
    /// many they were.
    pub fn close(&mut self, key: FlowKey, id: u64) -> (r: usize)
        requires
            old(self).wf(),
        ensures
            final(self).wf(),
            final(self).limit() == old(self).limit(),
            final(self).next() == old(self).next(),
            !(old(self)@.dom().contains(key) && old(self)@[key].id == id) ==> r == 0
                && final(self)@ == old(self)@,
            old(self)@.dom().contains(key) && old(self)@[key].id == id ==> {
                let queue = old(self)@[key].queue;
                &&& r == queue.waiting.len()
                &&& final(self)@ == old(self)@.insert(
                    key,
                    Session { id, queue: queue.ended() },
                )
            },
    {
        match self.position(&key) {
            Some(i) => {
                if self.entries[i].id != id {
                    return 0;
                }
                let ghost before = self.entries@;
                let r: usize = self.entries[i].queue.close();
                proof {
                    lemma_table_update(before, i as int, self.entries@[i as int]);
                    assert(self.entries@ =~= before.update(i as int, self.entries@[i as int]));
                }
                r
            },
            None => 0,
        }
    }
}

/// The sessions after one of them has ended, unless the flow has another one by
/// now.
pub open spec fn completed(sessions: Map<FlowKey, Session>, key: FlowKey, id: u64) -> Map<
    FlowKey,
    Session,
> {
    if sessions.dom().contains(key) && sessions[key].id == id {
        sessions.remove(key)
    } else {
        sessions
    }
}

/// The end of a session, noted after the flow has opened another one, does not
/// touch the new one; noted twice, it changes nothing more.
pub proof fn law_stale_completion(
    sessions: Map<FlowKey, Session>,
    key: FlowKey,
    id: u64,
    newer: Session,
)
    requires
        newer.id != id,
    ensures
        completed(completed(sessions, key, id).insert(key, newer), key, id) == completed(
            sessions,
            key,
            id,
        ).insert(key, newer),
        completed(completed(sessions, key, id), key, id) == completed(sessions, key, id),
{
}

/// A session that ends leaves its flow without one, where the flow still has that very
/// session, and touches no other flow.
pub proof fn law_completion(
    sessions: Map<FlowKey, Session>,
    key: FlowKey,
    id: u64,
    other: FlowKey,
)
    ensures
        completed(sessions, key, id).dom().contains(other) <==> sessions.dom().contains(other) && !(
        other == key && sessions[key].id == id),
        completed(sessions, key, id).dom().contains(other) ==> completed(sessions, key, id)[other]
            == sessions[other],
{
}

} // verus!
