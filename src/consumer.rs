use vstd::prelude::*;

use crate::array_string::ArrayString;
use crate::error::InletError;
use crate::inlet::{ids_unique, read_slot, ClientMeta, Inlet};

verus! {

/// Some consumer record carries exactly `id`.
pub open spec fn has_id(cs: Seq<ClientMeta>, id: Seq<u8>) -> bool {
    exists|i: int| 0 <= i < cs.len() && #[trigger] cs[i].id@ == id
}

/// `i` is the first consumer record carrying `id`.
pub open spec fn first_with_id(cs: Seq<ClientMeta>, id: Seq<u8>, i: int) -> bool {
    &&& 0 <= i < cs.len()
    &&& cs[i].id@ == id
    &&& forall|j: int| 0 <= j < i ==> #[trigger] cs[j].id@ != id
}

/// Some consumer record is unclaimed.
pub open spec fn has_unclaimed(cs: Seq<ClientMeta>) -> bool {
    exists|i: int| 0 <= i < cs.len() && !(#[trigger] cs[i].is_registered())
}

/// `i` is the first unclaimed consumer record.
pub open spec fn first_unclaimed(cs: Seq<ClientMeta>, i: int) -> bool {
    &&& 0 <= i < cs.len()
    &&& !cs[i].is_registered()
    &&& forall|j: int| 0 <= j < i ==> #[trigger] cs[j].is_registered()
}

/// Claiming `id` in table `cs` yields index `i` and table `after`: the first
/// record already carrying `id`, table unchanged; otherwise the first
/// unclaimed record, which takes `id` and keeps its sequence and timestamp.
pub open spec fn claims(cs: Seq<ClientMeta>, id: Seq<u8>, i: int, after: Seq<ClientMeta>) -> bool {
    if has_id(cs, id) {
        first_with_id(cs, id, i) && after == cs
    } else {
        &&& first_unclaimed(cs, i)
        &&& after.len() == cs.len()
        &&& after[i].id@ == id
        &&& after[i].sequence == cs[i].sequence
        &&& after[i].timestamp == cs[i].timestamp
        &&& forall|j: int| 0 <= j < cs.len() && j != i ==> #[trigger] after[j] == cs[j]
    }
}

/// Attaching twice with the same id lands on the same record, leaves the
/// table as the first attach left it, and resumes at the same sequence.
pub proof fn lemma_reattach_same_sequence(
    cs: Seq<ClientMeta>,
    id: Seq<u8>,
    i: int,
    first: Seq<ClientMeta>,
    j: int,
    second: Seq<ClientMeta>,
)
    requires
        claims(cs, id, i, first),
        claims(first, id, j, second),
    ensures
        j == i,
        second == first,
        second[j].sequence == first[i].sequence,
{
    assert(first[i].id@ == id);
    assert(has_id(first, id));
    if j < i {
        if !has_id(cs, id) {
            assert(first[j] == cs[j]);
            assert(has_id(cs, id));
        }
    }
    if i < j {
        assert(first[i].id@ == id);
    }
}

/// `after` is `before` with record `i` moved to sequence `seq`, its id and
/// timestamp kept, and every other record unchanged.
pub open spec fn moved_to(before: Seq<ClientMeta>, after: Seq<ClientMeta>, i: int, seq: int) -> bool {
    &&& after.len() == before.len()
    &&& after[i].id@ == before[i].id@
    &&& after[i].timestamp == before[i].timestamp
    &&& after[i].sequence == seq
    &&& forall|j: int| 0 <= j < before.len() && j != i ==> #[trigger] after[j] == before[j]
}

/// Where a consumer with a given id attaches.
#[derive(Debug, Clone, Copy, PartialEq, Eq, Structural)]
pub enum ClaimSlot {
    /// The record at this index already carries the id.
    Resume(usize),
    /// The record at this index is unclaimed and takes the id.
    Claim(usize),
}

/// Scans the consumer table in index order: the first record carrying
/// `name`, else the first unclaimed record, else `NoFreeConsumerSlot`.
pub fn find_consumer_slot(cs: &Vec<ClientMeta>, name: &ArrayString) -> (r: Result<
    ClaimSlot,
    InletError,
>)
    ensures
        has_id(cs@, name@) ==> (r matches Ok(ClaimSlot::Resume(i)) && first_with_id(
            cs@,
            name@,
            i as int,
        )),
        !has_id(cs@, name@) && has_unclaimed(cs@) ==> (r matches Ok(ClaimSlot::Claim(i))
            && first_unclaimed(cs@, i as int)),
        !has_id(cs@, name@) && !has_unclaimed(cs@) ==> r == Err::<ClaimSlot, InletError>(
            InletError::NoFreeConsumerSlot,
        ),
{
    let len = cs.len();
    let mut i: usize = 0;
    while i < len
        invariant
            len == cs@.len(),
            0 <= i <= len,
            forall|j: int| 0 <= j < i ==> #[trigger] cs@[j].id@ != name@,
        decreases len - i,
    {
        if cs[i].id.equals(name) {
            return Ok(ClaimSlot::Resume(i));
        }
        i += 1;
    }
    assert(!has_id(cs@, name@));
    let mut k: usize = 0;
    while k < len
        invariant
            len == cs@.len(),
            !has_id(cs@, name@),
            0 <= k <= len,
            forall|j: int| 0 <= j < k ==> #[trigger] cs@[j].is_registered(),
        decreases len - k,
    {
        if cs[k].id.is_empty() {
            return Ok(ClaimSlot::Claim(k));
        }
        k += 1;
    }
    assert(!has_unclaimed(cs@));
    Err(InletError::NoFreeConsumerSlot)
}

/// The reading side of a topic, bound to one consumer record.
pub struct Consumer {
    pub topic: ArrayString,
    pub consumer_index: usize,
}

impl Consumer {
    /// This consumer's record in the region.
    pub open spec fn record<E>(&self, inlet: &Inlet<E>) -> ClientMeta {
        inlet.consumers@[self.consumer_index as int]
    }

    /// The consumer is attached to the region.
    pub open spec fn attached<E>(&self, inlet: &Inlet<E>) -> bool {
        &&& self.topic@ == inlet.meta.topic@
        &&& self.consumer_index < inlet.consumers@.len()
    }

    /// Attaches a consumer named `consumer_id` to the region: it resumes the
    /// record that already carries that id, or claims the first unclaimed
    /// one. Fails with `NoFreeConsumerSlot` when neither exists.
    pub fn new<E>(inlet: &mut Inlet<E>, consumer_id: ArrayString) -> (r: Result<
        Consumer,
        InletError,
    >)
        requires
            old(inlet).wf(),
        ensures
            final(inlet).wf(),
            r is Ok <==> (has_id(old(inlet).consumers@, consumer_id@) || has_unclaimed(
                old(inlet).consumers@,
            )),
            r matches Ok(c) ==> {
                &&& c.attached(&*final(inlet))
                &&& claims(
                    old(inlet).consumers@,
                    consumer_id@,
                    c.consumer_index as int,
                    final(inlet).consumers@,
                )
                &&& final(inlet).meta == old(inlet).meta
                &&& final(inlet).data == old(inlet).data
                &&& final(inlet).producer == old(inlet).producer
                &&& final(inlet).history == old(inlet).history
            },
            r is Err ==> (r == Err::<Consumer, InletError>(InletError::NoFreeConsumerSlot)
                && *final(inlet) == *old(inlet)),
    {
        let topic = inlet.meta.topic.clone();
        match Self::claim_consumer_entry(inlet, consumer_id) {
            Ok(consumer_index) => Ok(Consumer { topic, consumer_index }),
            Err(e) => Err(e),
        }
    }

    /// Finds the record carrying `name`, or writes `name` into the first
    /// unclaimed record.
    fn claim_consumer_entry<E>(inlet: &mut Inlet<E>, name: ArrayString) -> (r: Result<
        usize,
        InletError,
    >)
        requires
            old(inlet).wf(),
        ensures
            final(inlet).wf(),
            r is Ok <==> (has_id(old(inlet).consumers@, name@) || has_unclaimed(
                old(inlet).consumers@,
            )),
            r matches Ok(i) ==> {
                &&& claims(old(inlet).consumers@, name@, i as int, final(inlet).consumers@)
                &&& final(inlet).meta == old(inlet).meta
                &&& final(inlet).data == old(inlet).data
                &&& final(inlet).producer == old(inlet).producer
                &&& final(inlet).history == old(inlet).history
            },
            r is Err ==> (r == Err::<usize, InletError>(InletError::NoFreeConsumerSlot)
                && *final(inlet) == *old(inlet)),
    {
        match find_consumer_slot(&inlet.consumers, &name) {
            Ok(ClaimSlot::Resume(i)) => Ok(i),
            Ok(ClaimSlot::Claim(k)) => {
                let ghost before = *inlet;
                let sequence = inlet.consumers[k].sequence;
                let timestamp = inlet.consumers[k].timestamp;
                inlet.consumers.set(k, ClientMeta { id: name, sequence, timestamp });
                proof {
                    let cs = inlet.consumers@;
                    assert forall|a: int, b: int|
                        0 <= a < cs.len() && 0 <= b < cs.len() && a != b && cs[a].is_registered()
                            && cs[b].is_registered() implies #[trigger] cs[a].id@
                        != #[trigger] cs[b].id@ by {
                        if a == k {
                            assert(before.consumers@[b].id@ != name@);
                        } else if b == k {
                            assert(before.consumers@[a].id@ != name@);
                        } else {
                            assert(before.consumers@[a] == cs[a]);
                            assert(before.consumers@[b] == cs[b]);
                        }
                    }
                    assert forall|j: int| 0 <= j < cs.len() implies #[trigger] cs[j].sequence
                        <= inlet.producer.sequence by {
                        assert(before.consumers@[j].sequence <= before.producer.sequence);
                    }
                    assert(forall|t: int| #[trigger] inlet.retained(t) ==> before.retained(t));
                    assert(ids_unique(cs));
                }
                Ok(k)
            },
            Err(e) => Err(e),
        }
    }

    /// The producer has published a record this consumer has not read.
    pub fn has_data_to_consume<E>(&self, inlet: &Inlet<E>) -> (r: bool)
        requires
            inlet.wf(),
            self.attached(inlet),
        ensures
            r == (inlet.producer.sequence > self.record(inlet).sequence),
    {
        let slot = read_slot(
            inlet.producer.sequence,
            inlet.consumers[self.consumer_index].sequence,
            inlet.meta.entry_count,
        );
        slot.is_some()
    }

    /// Reads the record at this consumer's sequence and advances the sequence
    /// by one; `None`, with nothing changed, when no unread record exists. The
    /// record read is the one published at that sequence unless the consumer
    /// has fallen more than a ring behind.
    pub fn process_current_entry<E: Copy>(&self, inlet: &mut Inlet<E>) -> (r: Option<E>)
        requires
            old(inlet).wf(),
            self.attached(old(inlet)),
        ensures
            final(inlet).wf(),
            self.attached(final(inlet)),
            final(inlet).meta == old(inlet).meta,
            final(inlet).data == old(inlet).data,
            final(inlet).producer == old(inlet).producer,
            final(inlet).history == old(inlet).history,
            ({
                let s = self.record(old(inlet)).sequence as int;
                let p = old(inlet).producer.sequence as int;
                &&& s < p ==> r == Some(old(inlet).slot(s)) && moved_to(
                    old(inlet).consumers@,
                    final(inlet).consumers@,
                    self.consumer_index as int,
                    s + 1,
                )
                &&& s < p && p - s <= old(inlet).capacity() ==> r == Some(old(inlet).history@[s])
                &&& s >= p ==> r is None && final(inlet).consumers == old(inlet).consumers
            }),
    {
        let idx = self.consumer_index;
        let sequence = inlet.consumers[idx].sequence;
        let slot = match read_slot(inlet.producer.sequence, sequence, inlet.meta.entry_count) {
            Some(i) => i,
            None => return None,
        };
        let ghost before = *inlet;
        let entry = inlet.data[slot];
        let id = inlet.consumers[idx].id.clone();
        let timestamp = inlet.consumers[idx].timestamp;
        inlet.consumers.set(idx, ClientMeta { id, sequence: sequence + 1, timestamp });
        proof {
            let cs = inlet.consumers@;
            assert(before.retained(sequence as int) ==> before.slot(sequence as int)
                == before.history@[sequence as int]);
            assert forall|a: int, b: int|
                0 <= a < cs.len() && 0 <= b < cs.len() && a != b && cs[a].is_registered()
                    && cs[b].is_registered() implies #[trigger] cs[a].id@ != #[trigger] cs[b].id@ by {
                assert(before.consumers@[a].id@ == cs[a].id@);
                assert(before.consumers@[b].id@ == cs[b].id@);
            }
            assert forall|j: int| 0 <= j < cs.len() implies #[trigger] cs[j].sequence
                <= inlet.producer.sequence by {
                assert(before.consumers@[j].sequence <= before.producer.sequence);
            }
            assert(forall|t: int| #[trigger] inlet.retained(t) ==> before.retained(t));
        }
        Some(entry)
    }

    /// Reads every record this consumer has not read yet, in sequence order,
    /// leaving its sequence equal to the producer's. They are the records
    /// published at those sequences unless the consumer started more than a
    /// ring behind.
    pub fn process_entries<E: Copy>(&self, inlet: &mut Inlet<E>) -> (r: Vec<E>)
        requires
            old(inlet).wf(),
            self.attached(old(inlet)),
        ensures
            final(inlet).wf(),
            self.attached(final(inlet)),
            final(inlet).meta == old(inlet).meta,
            final(inlet).data == old(inlet).data,
            final(inlet).producer == old(inlet).producer,
            final(inlet).history == old(inlet).history,
            ({
                let s = self.record(old(inlet)).sequence as int;
                let p = old(inlet).producer.sequence as int;
                &&& r@.len() == p - s
                &&& forall|k: int| 0 <= k < p - s ==> #[trigger] r@[k] == old(inlet).slot(s + k)
                &&& moved_to(
                    old(inlet).consumers@,
                    final(inlet).consumers@,
                    self.consumer_index as int,
                    p,
                )
                &&& p - s <= old(inlet).capacity() ==> r@ == old(inlet).history@.subrange(s, p)
            }),
    {
        let ghost s0 = self.record(inlet).sequence as int;
        let ghost p = inlet.producer.sequence as int;
        let ghost start = *inlet;
        let mut r: Vec<E> = Vec::new();
        while self.has_data_to_consume(inlet)
            invariant
                inlet.wf(),
                self.attached(inlet),
                inlet.meta == start.meta,
                inlet.data == start.data,
                inlet.producer == start.producer,
                inlet.history == start.history,
                p == start.producer.sequence,
                s0 == self.record(&start).sequence,
                s0 <= self.record(inlet).sequence <= p,
                r@.len() == self.record(inlet).sequence - s0,
                forall|k: int| 0 <= k < r@.len() ==> #[trigger] r@[k] == start.slot(s0 + k),
                moved_to(
                    start.consumers@,
                    inlet.consumers@,
                    self.consumer_index as int,
                    self.record(inlet).sequence as int,
                ),
            decreases p - self.record(inlet).sequence,
        {
            let ghost prev = *inlet;
            match self.process_current_entry(inlet) {
                Some(e) => {
                    r.push(e);
                },
                None => {},
            }
            assert(prev.slot(s0 + (r@.len() - 1)) == start.slot(s0 + (r@.len() - 1)));
        }
        proof {
            if p - s0 <= start.capacity() {
                assert forall|k: int| 0 <= k < p - s0 implies r@[k] == start.history@[s0 + k] by {
                    assert(start.retained(s0 + k));
                }
                assert(r@ =~= start.history@.subrange(s0, p));
            }
        }
        r
    }
}

/// Two consumers at the same sequence are handed the same record, and it is
/// the record published at that sequence unless they have fallen more than a
/// ring behind.
pub proof fn lemma_same_sequence_same_payload<E>(inlet: &Inlet<E>, a: &Consumer, b: &Consumer)
    requires
        inlet.wf(),
        a.attached(inlet),
        b.attached(inlet),
        a.record(inlet).sequence == b.record(inlet).sequence,
    ensures
        inlet.slot(a.record(inlet).sequence as int) == inlet.slot(b.record(inlet).sequence as int),
        inlet.retained(a.record(inlet).sequence as int) ==> inlet.slot(
            a.record(inlet).sequence as int,
        ) == inlet.history@[a.record(inlet).sequence as int],
{
}

} // verus!
