use vstd::prelude::*;

use crate::array_string::ArrayString;
use crate::inlet::{publish_slot, Inlet};

verus! {

/// Two sequences fewer than `n` apart map to different slots.
pub proof fn lemma_distinct_slots(s: int, p: int, n: int)
    requires
        0 <= s < p,
        p - s < n,
    ensures
        s % n != p % n,
{
    assert(s == n * (s / n) + s % n) by (nonlinear_arith)
        requires 0 <= s, n > 0;
    assert(p == n * (p / n) + p % n) by (nonlinear_arith)
        requires 0 <= p, n > 0;
    if s % n == p % n {
        assert(p - s == n * (p / n - s / n)) by (nonlinear_arith)
            requires s == n * (s / n) + s % n, p == n * (p / n) + p % n, s % n == p % n;
        assert(false) by (nonlinear_arith)
            requires p - s == n * (p / n - s / n), 0 < p - s < n, n > 0;
    }
}

/// While a registered consumer is a full ring behind the producer, no
/// publish is allowed.
pub proof fn lemma_backpressure<E>(inlet: &Inlet<E>, i: int)
    requires
        inlet.wf(),
        0 <= i < inlet.consumers@.len(),
        inlet.consumers@[i].is_registered(),
        inlet.consumers@[i].sequence + inlet.capacity() == inlet.producer.sequence,
    ensures
        !inlet.publish_allowed(),
{
    assert(crate::inlet::any_registered(inlet.consumers@));
}

/// The writing side of a topic.
pub struct Producer {
    pub topic: ArrayString,
}

impl Producer {
    /// A producer for the named topic.
    pub fn new(topic: ArrayString) -> (r: Producer)
        ensures
            r.topic@ == topic@,
    {
        Producer { topic }
    }

    /// The sequence the next published record will carry.
    fn get_next_publisher_sequence<E>(&self, inlet: &Inlet<E>) -> (r: u64)
        ensures
            r == inlet.producer.sequence,
    {
        inlet.producer.sequence
    }

    /// Publishes `entry` into slot `sequence % entry_count` and advances the
    /// producer's sequence by one, unless a registered consumer (or, with none
    /// registered, the ring itself) is a full ring behind: then nothing
    /// changes and `false` is returned.
    pub fn publish<E>(&mut self, inlet: &mut Inlet<E>, entry: E) -> (r: bool)
        requires
            old(inlet).wf(),
            old(self).topic@ == old(inlet).meta.topic@,
            old(inlet).producer.sequence < u64::MAX,
        ensures
            final(inlet).wf(),
            *final(self) == *old(self),
            r == old(inlet).publish_allowed(),
            r ==> {
                &&& final(inlet).producer.sequence == old(inlet).producer.sequence + 1
                &&& final(inlet).producer.id == old(inlet).producer.id
                &&& final(inlet).producer.timestamp == old(inlet).producer.timestamp
                &&& final(inlet).history@ == old(inlet).history@.push(entry)
                &&& final(inlet).data@ == old(inlet).data@.update(
                    old(inlet).producer.sequence as int % old(inlet).capacity(),
                    entry,
                )
                &&& final(inlet).meta == old(inlet).meta
                &&& final(inlet).consumers == old(inlet).consumers
            },
            !r ==> *final(inlet) == *old(inlet),
    {
        let next_sequence = self.get_next_publisher_sequence(inlet);
        let n = inlet.meta.entry_count;
        let idx = match publish_slot(next_sequence, &inlet.consumers, n) {
            Some(i) => i,
            None => return false,
        };
        let ghost old_inlet = *inlet;
        inlet.data.set(idx, entry);
        inlet.producer.sequence = next_sequence + 1;
        proof {
            inlet.history@ = inlet.history@.push(entry);
            assert forall|s: int| #[trigger] inlet.retained(s) implies inlet.slot(s)
                == inlet.history@[s] by {
                if s < next_sequence {
                    assert(old_inlet.retained(s));
                    lemma_distinct_slots(s, next_sequence as int, n as int);
                }
            }
            assert forall|i: int| 0 <= i < inlet.consumers@.len() implies
                #[trigger] inlet.consumers@[i].sequence <= inlet.producer.sequence by {
                assert(old_inlet.consumers@[i].sequence <= old_inlet.producer.sequence);
            }
        }
        true
    }
}

} // verus!
