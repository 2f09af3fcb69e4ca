//! The bounded queue between the receiver of UDP datagrams and one session.

use std::collections::VecDeque;

use vstd::prelude::*;

use crate::bytebuf::{buffer_bytes, frozen_bytes, frozen_slice};
use crate::capsule::{
    datagram_capsule, datagram_stream, drain, encode_datagram_into, law_stream_round_trip,
    lemma_varint_bytes_len, CapsuleError, Drained, DATAGRAM_CAPSULE_TYPE, DEFAULT_CONTEXT_ID,
    MAX_DATAGRAM_SIZE,
};

verus! {

/// How much of a queue is written to the stream at once. One datagram may exceed
/// this; those behind it wait for the next write.
pub const MAX_CAPSULE_BATCH_BYTES: usize = 16_384;

/// What a datagram takes of the byte limit: its length, at least one, and no more
/// than all there is, so that a datagram beyond the limit passes alone.
pub open spec fn permits_for(len: nat, max_bytes: nat) -> nat {
    if len == 0 {
        1
    } else if len > max_bytes {
        max_bytes
    } else {
        len
    }
}

/// A queue of datagrams with a limit on their number and one on their bytes.
pub struct DatagramQueue {
    waiting: VecDeque<bytes::Bytes>,
    held: u32,
    max_datagrams: usize,
    max_bytes: u32,
    closed: bool,
}

/// A queue, as a plain value.
#[verifier::ext_equal]
pub struct QueueModel {
    /// The datagrams that wait, the oldest first.
    pub waiting: Seq<Seq<u8>>,
    /// The bytes that waiting datagrams, and those handed out and not yet
    /// released, take of the limit.
    pub held: nat,
    pub max_datagrams: nat,
    pub max_bytes: nat,
    /// Nobody takes datagrams any more.
    pub closed: bool,
}

/// A datagram handed out; what it takes of the byte limit stays taken until it is
/// released.
pub struct QueuedDatagram {
    pub payload: bytes::Bytes,
    pub permits: u32,
}

/// Why a datagram was not queued.
#[derive(Debug)]
pub enum DatagramTrySendError {
    /// One of the limits is reached.
    Full,
    /// Nobody takes datagrams any more; the datagram comes back.
    Closed(bytes::Bytes),
}

/// The payloads, each as its bytes.
pub open spec fn payloads(v: Seq<bytes::Bytes>) -> Seq<Seq<u8>> {
    v.map_values(|b: bytes::Bytes| frozen_bytes(b))
}

/// What the datagrams take of the byte limit together.
pub open spec fn total_permits(waiting: Seq<Seq<u8>>, max_bytes: nat) -> nat
    decreases waiting.len(),
{
    if waiting.len() == 0 {
        0
    } else {
        total_permits(waiting.drop_last(), max_bytes) + permits_for(
            waiting.last().len(),
            max_bytes,
        )
    }
}

/// A queue with these limits, each of which is at least one.
pub open spec fn empty_queue(max_datagrams: nat, max_bytes: nat) -> QueueModel {
    QueueModel {
        waiting: Seq::empty(),
        held: 0,
        max_datagrams: if max_datagrams == 0 {
            1
        } else {
            max_datagrams
        },
        max_bytes: if max_bytes == 0 {
            1
        } else if max_bytes > u32::MAX {
            u32::MAX as nat
        } else {
            max_bytes
        },
        closed: false,
    }
}

/// What becomes of a datagram that is offered to a queue.
pub enum Offer {
    Queued,
    Full,
    Closed,
}

impl QueueModel {
    /// The limits are at least one, what waits is within them, and the bytes taken
    /// are at least those of what waits.
    pub open spec fn wf(self) -> bool {
        &&& 1 <= self.max_datagrams
        &&& 1 <= self.max_bytes <= u32::MAX
        &&& self.waiting.len() <= self.max_datagrams
        &&& total_permits(self.waiting, self.max_bytes) <= self.held <= self.max_bytes
    }

    /// Nothing is handed out: only what waits takes of the byte limit.
    pub open spec fn settled(self) -> bool {
        self.held == total_permits(self.waiting, self.max_bytes)
    }

    /// What becomes of a datagram of this length: the byte limit is asked first.
    pub open spec fn offer(self, len: nat) -> Offer {
        if self.held + permits_for(len, self.max_bytes) > self.max_bytes {
            Offer::Full
        } else if self.closed {
            Offer::Closed
        } else if self.waiting.len() >= self.max_datagrams {
            Offer::Full
        } else {
            Offer::Queued
        }
    }

    /// The queue after this datagram was offered.
    pub open spec fn offered(self, payload: Seq<u8>) -> QueueModel {
        if self.offer(payload.len()) is Queued {
            QueueModel {
                waiting: self.waiting.push(payload),
                held: self.held + permits_for(payload.len(), self.max_bytes),
                ..self
            }
        } else {
            self
        }
    }

    /// The queue after nobody takes datagrams any more: what waited is gone, and what
    /// it took of the byte limit is free again.
    pub open spec fn ended(self) -> QueueModel {
        QueueModel {
            waiting: Seq::empty(),
            held: (self.held - total_permits(self.waiting, self.max_bytes)) as nat,
            closed: true,
            ..self
        }
    }
}

impl View for DatagramQueue {
    type V = QueueModel;

    closed spec fn view(&self) -> QueueModel {
        QueueModel {
            waiting: payloads(self.waiting@),
            held: self.held as nat,
            max_datagrams: self.max_datagrams as nat,
            max_bytes: self.max_bytes as nat,
            closed: self.closed,
        }
    }
}

/// A queue with these limits, each of which counts as at least one.
pub fn datagram_channel_with_limits(max_datagrams: usize, max_bytes: usize) -> (r: DatagramQueue)
    ensures
        r@ == empty_queue(max_datagrams as nat, max_bytes as nat),
        r@.wf(),
{
    let most: usize = if max_datagrams == 0 {
        1
    } else {
        max_datagrams
    };
    let bytes: u32 = if max_bytes == 0 {
        1
    } else if max_bytes as u64 > u32::MAX as u64 {
        u32::MAX
    } else {
        max_bytes as u32
    };
    let queue: DatagramQueue = DatagramQueue {
        waiting: VecDeque::new(),
        held: 0,
        max_datagrams: most,
        max_bytes: bytes,
        closed: false,
    };
    assert(queue@.waiting =~= Seq::<Seq<u8>>::empty());
    queue
}

impl DatagramQueue {
    /// What a datagram of this length takes of the byte limit.
    fn permits(&self, len: usize) -> (r: u32)
        requires
            self@.wf(),
        ensures
            r == permits_for(len as nat, self@.max_bytes),
    {
        if len == 0 {
            1
        } else if len as u64 > self.max_bytes as u64 {
            self.max_bytes
        } else {
            len as u32
        }
    }

    /// Queues a datagram, unless a limit is reached or nobody takes datagrams any
    /// more.
    pub fn try_send(&mut self, payload: bytes::Bytes) -> (r: Result<(), DatagramTrySendError>)
        requires
            old(self)@.wf(),
        ensures
            final(self)@.wf(),
            final(self)@ == old(self)@.offered(frozen_bytes(payload)),
            match r {
                Ok(()) => old(self)@.offer(frozen_bytes(payload).len()) is Queued,
                Err(DatagramTrySendError::Full) => old(self)@.offer(
                    frozen_bytes(payload).len(),
                ) is Full,
                Err(DatagramTrySendError::Closed(back)) => back == payload && old(self)@.offer(
                    frozen_bytes(payload).len(),
                ) is Closed,
            },
    {
        let permits: u32 = self.permits(payload.len());
        if permits > self.max_bytes - self.held {
            return Err(DatagramTrySendError::Full);
        }
        if self.closed {
            return Err(DatagramTrySendError::Closed(payload));
        }
        if self.waiting.len() >= self.max_datagrams {
            return Err(DatagramTrySendError::Full);
        }
        let ghost before = self@;
        self.waiting.push_back(payload);
        self.held = self.held + permits;
        proof {
            let bytes = frozen_bytes(payload);
            assert(self@.waiting =~= before.waiting.push(bytes));
            assert(self@.waiting.drop_last() =~= before.waiting);
            assert(self@ =~= before.offered(bytes));
        }
        Ok(())
    }

    /// Takes the oldest datagram that waits.
    pub fn try_recv(&mut self) -> (r: Option<QueuedDatagram>)
        requires
            old(self)@.wf(),
        ensures
            final(self)@.wf(),
            r.is_some() == (old(self)@.waiting.len() > 0),
            r.is_none() ==> final(self)@ == old(self)@,
            r matches Some(datagram) ==> {
                &&& frozen_bytes(datagram.payload) == old(self)@.waiting[0]
                &&& datagram.permits == permits_for(
                    old(self)@.waiting[0].len(),
                    old(self)@.max_bytes,
                )
                &&& final(self)@ == (QueueModel {
                    waiting: old(self)@.waiting.drop_first(),
                    ..old(self)@
                })
                &&& total_permits(final(self)@.waiting, final(self)@.max_bytes) + datagram.permits
                    <= final(self)@.held
            },
    {
        let ghost before = self@;
        match self.waiting.pop_front() {
            None => {
                assert(self@ =~= before);
                None
            },
            Some(payload) => {
                proof {
                    assert(self@.waiting =~= before.waiting.drop_first());
                    assert(frozen_bytes(payload) == before.waiting[0]);
                    lemma_total_first(before.waiting, before.max_bytes);
                }
                let permits: u32 = if payload.len() == 0 {
                    1
                } else if payload.len() as u64 > self.max_bytes as u64 {
                    self.max_bytes
                } else {
                    payload.len() as u32
                };
                Some(QueuedDatagram { payload, permits })
            },
        }
    }

    /// Gives back what a datagram that was handed out takes of the byte limit.
    pub fn release(&mut self, permits: u32)
        requires
            old(self)@.wf(),
            total_permits(old(self)@.waiting, old(self)@.max_bytes) + permits <= old(self)@.held,
        ensures
            final(self)@.wf(),
            final(self)@ == (QueueModel { held: (old(self)@.held - permits) as nat, ..old(self)@ }),
    {
        self.held = self.held - permits;
    }

    /// Ends the taking of datagrams: drops those that wait and says how many they were.
    pub fn close(&mut self) -> (r: usize)
        requires
            old(self)@.wf(),
        ensures
            r == old(self)@.waiting.len(),
            final(self)@ == old(self)@.ended(),
            final(self)@.wf(),
    {
        let pending: usize = self.waiting.len();
        while self.waiting.len() > 0
            invariant
                self@.wf(),
                self@.ended() == old(self)@.ended(),
                self@.closed == old(self)@.closed,
            decreases self@.waiting.len(),
        {
            let ghost before = self@;
            if let Some(datagram) = self.try_recv() {
                self.release(datagram.permits);
                proof {
                    lemma_total_first(before.waiting, before.max_bytes);
                }
            }
        }
        self.closed = true;
        assert(self@.waiting =~= Seq::empty());
        assert(self@ =~= old(self)@.ended());
        pending
    }

    /// How many datagrams wait.
    pub fn len(&self) -> (r: usize)
        ensures
            r == self@.waiting.len(),
    {
        self.waiting.len()
    }
}

proof fn lemma_total_first(waiting: Seq<Seq<u8>>, max_bytes: nat)
    requires
        waiting.len() > 0,
    ensures
        total_permits(waiting, max_bytes) == permits_for(waiting[0].len(), max_bytes)
            + total_permits(waiting.drop_first(), max_bytes),
    decreases waiting.len(),
{
    let rest = waiting.drop_first();
    if waiting.len() == 1 {
        reveal_with_fuel(total_permits, 2);
        assert(waiting.drop_last() =~= Seq::empty());
        assert(rest =~= Seq::empty());
    } else {
        lemma_total_first(waiting.drop_last(), max_bytes);
        assert(waiting.drop_last().drop_first() =~= rest.drop_last());
        assert(rest.last() == waiting.last());
    }
}

/// What waits in a queue that ends is dropped once: ending it again drops nothing and
/// changes nothing.
pub proof fn law_a_queue_ends_once(queue: QueueModel)
    requires
        queue.wf(),
    ensures
        queue.ended().waiting.len() == 0,
        queue.ended().ended() == queue.ended(),
        queue.ended().wf(),
{
    assert(queue.ended().ended() =~= queue.ended());
}

/// A queue that has ended, and of which nothing is handed out, says of every datagram
/// that nobody takes it, and never that it is full.
pub proof fn law_an_ended_queue_is_closed(queue: QueueModel, len: nat)
    requires
        queue.wf(),
        queue.settled(),
    ensures
        queue.ended().settled(),
        queue.ended().offer(len) is Closed,
{
}

/// How many waiting datagrams the next write takes, given that it takes `k`: one
/// more as long as there is one and the write is not long enough yet. The second
/// part is false where the last one taken is too long for a capsule.
pub open spec fn batch_end(waiting: Seq<Seq<u8>>, k: nat) -> (nat, bool)
    decreases waiting.len() - k,
{
    if k >= waiting.len() || datagram_stream(waiting.take(k as int)).len()
        >= MAX_CAPSULE_BATCH_BYTES {
        (k, true)
    } else if waiting[k as int].len() > MAX_DATAGRAM_SIZE {
        (k + 1, false)
    } else {
        batch_end(waiting, k + 1)
    }
}

/// The lengths of the payloads together.
pub open spec fn total_len(datagrams: Seq<Seq<u8>>) -> nat
    decreases datagrams.len(),
{
    if datagrams.len() == 0 {
        0
    } else {
        total_len(datagrams.drop_last()) + datagrams.last().len()
    }
}

/// What one write to the stream carries.
pub struct CapsuleBatch {
    pub bytes: bytes::Bytes,
    pub datagrams: u64,
    pub payload_bytes: u64,
}

proof fn lemma_stream_push(datagrams: Seq<Seq<u8>>, last: Seq<u8>)
    ensures
        datagram_stream(datagrams.push(last)) == datagram_stream(datagrams) + datagram_capsule(
            last,
        ),
    decreases datagrams.len(),
{
    let all = datagrams.push(last);
    if datagrams.len() == 0 {
        reveal_with_fuel(datagram_stream, 2);
        assert(all.drop_first() =~= Seq::empty());
        assert(datagram_stream(all) =~= datagram_stream(datagrams) + datagram_capsule(last));
    } else {
        assert(all.drop_first() =~= datagrams.drop_first().push(last));
        lemma_stream_push(datagrams.drop_first(), last);
        assert(datagram_stream(all) =~= datagram_stream(datagrams) + datagram_capsule(last));
    }
}

proof fn lemma_capsule_len(payload: Seq<u8>)
    ensures
        payload.len() + 3 <= datagram_capsule(payload).len() <= payload.len() + 10,
{
    lemma_varint_bytes_len(DATAGRAM_CAPSULE_TYPE as nat);
    lemma_varint_bytes_len(payload.len() + 1);
    lemma_varint_bytes_len(DEFAULT_CONTEXT_ID as nat);
}

/// The queue after the next write to the stream has taken its datagrams.
pub open spec fn after_batch(queue: QueueModel) -> QueueModel {
    let count = batch_end(queue.waiting, 0).0 as int;
    QueueModel {
        waiting: queue.waiting.skip(count),
        held: (queue.held - total_permits(queue.waiting.take(count), queue.max_bytes)) as nat,
        ..queue
    }
}

/// Takes what the next write to the stream carries: the oldest waiting datagrams,
/// as capsules, until they are long enough. Nothing, where none waits.
pub fn next_capsule_batch(queue: &mut DatagramQueue) -> (r: Result<Option<CapsuleBatch>, CapsuleError>)
    requires
        old(queue)@.wf(),
    ensures
        final(queue)@.wf(),
        ({
            let waiting = old(queue)@.waiting;
            let (count, fits) = batch_end(waiting, 0);
            &&& final(queue)@ == after_batch(old(queue)@)
            &&& match r {
                Ok(None) => waiting.len() == 0,
                Ok(Some(batch)) => {
                    &&& waiting.len() > 0
                    &&& fits
                    &&& frozen_bytes(batch.bytes) == datagram_stream(waiting.take(count as int))
                    &&& batch.datagrams == count
                    &&& batch.payload_bytes == total_len(waiting.take(count as int))
                },
                Err(e) => !fits && e == CapsuleError::DatagramTooLarge,
            }
        }),
{
    let ghost start = queue@;
    let ghost waiting = queue@.waiting;
    let ghost most = queue@.max_bytes;
    let mut bytes: bytes::BytesMut = bytes::BytesMut::new();
    let mut datagrams: u64 = 0;
    let mut payload_bytes: u64 = 0;
    proof {
        assert(waiting.take(0) =~= Seq::empty());
        assert(waiting.skip(0) =~= waiting);
        assert(queue@ =~= start);
    }
    while bytes.len() < MAX_CAPSULE_BATCH_BYTES && queue.len() > 0
        invariant
            queue@.wf(),
            start == old(queue)@,
            start.wf(),
            waiting == start.waiting,
            most == start.max_bytes,
            datagrams <= waiting.len(),
            queue@ == (QueueModel {
                waiting: waiting.skip(datagrams as int),
                held: (start.held - total_permits(waiting.take(datagrams as int), most)) as nat,
                ..start
            }),
            total_permits(waiting.take(datagrams as int), most) <= start.held,
            buffer_bytes(bytes) == datagram_stream(waiting.take(datagrams as int)),
            buffer_bytes(bytes).len() <= MAX_CAPSULE_BATCH_BYTES + MAX_DATAGRAM_SIZE + 10,
            payload_bytes == total_len(waiting.take(datagrams as int)),
            payload_bytes + 3 * datagrams <= buffer_bytes(bytes).len(),
            batch_end(waiting, 0) == batch_end(waiting, datagrams as nat),
        decreases waiting.len() - datagrams,
    {
        let ghost k = datagrams as int;
        let ghost before = queue@;
        match queue.try_recv() {
            None => {},
            Some(datagram) => {
                let ghost payload = frozen_bytes(datagram.payload);
                proof {
                    assert(before.waiting[0] == waiting[k]);
                    assert(before.waiting.drop_first() =~= waiting.skip(k + 1));
                    assert(waiting.take(k + 1) =~= waiting.take(k).push(waiting[k]));
                    assert(waiting.take(k + 1).drop_last() =~= waiting.take(k));
                    lemma_stream_push(waiting.take(k), waiting[k]);
                    lemma_capsule_len(waiting[k]);
                }
                queue.release(datagram.permits);
                proof {
                    assert(queue@ =~= (QueueModel {
                        waiting: waiting.skip(k + 1),
                        held: (start.held - total_permits(waiting.take(k + 1), most)) as nat,
                        ..start
                    }));
                }
                match encode_datagram_into(frozen_slice(&datagram.payload), &mut bytes) {
                    Ok(()) => {},
                    Err(e) => return Err(e),
                }
                datagrams = datagrams + 1;
                payload_bytes = payload_bytes + datagram.payload.len() as u64;
            },
        }
    }
    if datagrams == 0 {
        return Ok(None);
    }
    Ok(Some(CapsuleBatch { bytes: bytes.freeze(), datagrams, payload_bytes }))
}

proof fn lemma_batch_fits(waiting: Seq<Seq<u8>>, k: nat)
    requires
        k <= waiting.len(),
        forall|i: int| 0 <= i < k ==> (#[trigger] waiting[i]).len() <= MAX_DATAGRAM_SIZE,
    ensures
        k <= batch_end(waiting, k).0 <= waiting.len(),
        batch_end(waiting, k).1 ==> forall|i: int|
            0 <= i < batch_end(waiting, k).0 ==> (#[trigger] waiting[i]).len() <= MAX_DATAGRAM_SIZE,
    decreases waiting.len() - k,
{
    if !(k >= waiting.len() || datagram_stream(waiting.take(k as int)).len()
        >= MAX_CAPSULE_BATCH_BYTES) && waiting[k as int].len() <= MAX_DATAGRAM_SIZE {
        lemma_batch_fits(waiting, k + 1);
    }
}

proof fn lemma_total_split(waiting: Seq<Seq<u8>>, k: int, max_bytes: nat)
    requires
        0 <= k <= waiting.len(),
    ensures
        total_permits(waiting, max_bytes) == total_permits(waiting.take(k), max_bytes)
            + total_permits(waiting.skip(k), max_bytes),
    decreases k,
{
    if k == 0 {
        assert(waiting.take(0) =~= Seq::empty());
        assert(waiting.skip(0) =~= waiting);
    } else {
        lemma_total_first(waiting, max_bytes);
        lemma_total_first(waiting.take(k), max_bytes);
        lemma_total_split(waiting.drop_first(), k - 1, max_bytes);
        assert(waiting.take(k).drop_first() =~= waiting.drop_first().take(k - 1));
        assert(waiting.skip(k) =~= waiting.drop_first().skip(k - 1));
    }
}

/// Where only what waits takes of the byte limit, it stays so, whether a datagram is
/// offered, the next write takes its datagrams, or the queue ends.
pub proof fn law_what_leaves_is_free_again(queue: QueueModel, payload: Seq<u8>)
    requires
        queue.wf(),
        queue.settled(),
    ensures
        queue.offered(payload).settled(),
        after_batch(queue).settled(),
        queue.ended().settled(),
{
    let more = queue.waiting.push(payload);
    assert(more.drop_last() =~= queue.waiting);
    lemma_batch_fits(queue.waiting, 0);
    lemma_total_split(queue.waiting, batch_end(queue.waiting, 0).0 as int, queue.max_bytes);
}

/// A write carries whole datagrams, in order: reading it gives back those that
/// were taken, and nothing is left over.
pub proof fn law_batch_reads_back(waiting: Seq<Seq<u8>>)
    requires
        batch_end(waiting, 0).1,
    ensures
        ({
            let taken = waiting.take(batch_end(waiting, 0).0 as int);
            drain(datagram_stream(taken)) == (Drained {
                datagrams: taken,
                dropped: 0,
                rest: Seq::empty(),
                skip: 0,
                failed: None,
            })
        }),
{
    lemma_batch_fits(waiting, 0);
    let taken = waiting.take(batch_end(waiting, 0).0 as int);
    assert forall|i: int| 0 <= i < taken.len() implies (#[trigger] taken[i]).len()
        <= MAX_DATAGRAM_SIZE by {
        assert(waiting[i] == taken[i]);
    }
    law_stream_round_trip(taken);
}

/// Where anything waits, a write takes at least one datagram.
pub proof fn law_batch_makes_progress(waiting: Seq<Seq<u8>>)
    requires
        waiting.len() > 0,
    ensures
        batch_end(waiting, 0).0 >= 1,
{
    assert(waiting.take(0) =~= Seq::empty());
    if waiting[0].len() <= MAX_DATAGRAM_SIZE {
        lemma_batch_fits(waiting, 1);
    }
}

/// A datagram takes its length of the byte limit, but at least one byte and at most all
/// there is.
pub proof fn law_what_a_datagram_takes(len: nat, more: nat, max_bytes: nat)
    requires
        max_bytes >= 1,
        len <= more,
    ensures
        1 <= permits_for(len, max_bytes) <= max_bytes,
        1 <= len <= max_bytes ==> permits_for(len, max_bytes) == len,
        permits_for(len, max_bytes) <= permits_for(more, max_bytes),
        len >= max_bytes ==> permits_for(len, max_bytes) == max_bytes,
{
}

/// A queue takes a datagram exactly where somebody takes its datagrams, fewer wait than
/// may and there is room for its bytes. Want of room for bytes is told before anything
/// else; a queue that nobody takes from is closed, however many wait.
pub proof fn law_room_in_a_queue(queue: QueueModel, payload: Seq<u8>)
    requires
        queue.wf(),
    ensures
        ({
            let takes = if payload.len() < 1 {
                1
            } else if payload.len() <= queue.max_bytes {
                payload.len()
            } else {
                queue.max_bytes
            };
            let room = queue.held + takes <= queue.max_bytes;
            let after = queue.offered(payload);
            &&& queue.offer(payload.len()) is Queued <==> room && !queue.closed
                && queue.waiting.len() < queue.max_datagrams
            &&& queue.offer(payload.len()) is Closed <==> room && queue.closed
            &&& queue.offer(payload.len()) is Queued ==> after.waiting == queue.waiting.push(payload)
                && after.held == queue.held + takes
            &&& !(queue.offer(payload.len()) is Queued) ==> after == queue
            &&& after.max_datagrams == queue.max_datagrams && after.max_bytes == queue.max_bytes
                && after.closed == queue.closed
        }),
{
}

/// A new queue is open and empty, with the limits that are asked for, each at least one
/// and the bytes at most as many as thirty-two bits count.
pub proof fn law_limits_of_a_queue(max_datagrams: nat, max_bytes: nat)
    ensures
        ({
            let queue = empty_queue(max_datagrams, max_bytes);
            &&& queue.wf() && queue.settled()
            &&& queue.waiting.len() == 0 && queue.held == 0 && !queue.closed
            &&& max_datagrams >= 1 ==> queue.max_datagrams == max_datagrams
            &&& queue.max_datagrams >= 1
            &&& 1 <= max_bytes <= 0xffff_ffff ==> queue.max_bytes == max_bytes
            &&& 1 <= queue.max_bytes <= 0xffff_ffff
            &&& max_bytes > 0xffff_ffff ==> queue.max_bytes == 0xffff_ffff
        }),
{
}

/// A write takes datagrams until it has 16384 bytes or nothing waits: before its last
/// datagram it was shorter than that, and it goes on while it is.
pub proof fn law_how_much_a_write_takes(waiting: Seq<Seq<u8>>, k: nat)
    requires
        k <= waiting.len(),
    ensures
        ({
            let (count, fits) = batch_end(waiting, k);
            &&& k <= count <= waiting.len()
            &&& forall|j: int|
                k <= j < count ==> datagram_stream(#[trigger] waiting.take(j)).len() < 16_384
            &&& fits ==> count == waiting.len() || datagram_stream(waiting.take(count as int)).len()
                >= 16_384
            &&& fits ==> forall|j: int| k <= j < count ==> (#[trigger] waiting[j]).len() <= 65_527
            &&& !fits ==> count > k && waiting[count - 1].len() > 65_527
        }),
    decreases waiting.len() - k,
{
    if k < waiting.len() && datagram_stream(waiting.take(k as int)).len() < 16_384
        && waiting[k as int].len() <= 65_527 {
        law_how_much_a_write_takes(waiting, k + 1);
        let count = batch_end(waiting, k).0;
        assert forall|j: int| k <= j < count implies datagram_stream(
            #[trigger] waiting.take(j),
        ).len() < 16_384 by {
            if j > k {
                assert(k + 1 <= j);
            }
        }
    }
}

/// The bytes of payloads are counted together, whichever come first.
pub proof fn law_lengths_add_up(a: Seq<Seq<u8>>, b: Seq<Seq<u8>>, one: Seq<u8>)
    ensures
        total_len(a + b) == total_len(a) + total_len(b),
        total_len(seq![one]) == one.len(),
    decreases b.len(),
{
    assert(seq![one].drop_last() =~= Seq::empty());
    reveal_with_fuel(total_len, 2);
    if b.len() == 0 {
        assert(a + b =~= a);
    } else {
        law_lengths_add_up(a, b.drop_last(), one);
        assert((a + b).drop_last() =~= a + b.drop_last());
    }
}

} // verus!
