use vstd::prelude::*;

use crate::array_string::{zeros, ArrayString};
use crate::error::InletError;

verus! {

/// Bytes of cache-line padding placed before each coordination record.
pub const PAD_SIZE: usize = 64;

/// Bytes of the meta header: topic, three 64-bit sizes, the flag and its
/// alignment padding.
pub const META_SIZE: usize = 160;

/// Bytes of one coordination record: padding, id, sequence and timestamp.
pub const CLIENT_META_SIZE: usize = 208;

/// Header of a shared region.
pub struct Meta {
    pub topic: ArrayString,
    pub type_size: usize,
    pub entry_count: usize,
    pub max_consumers: usize,
    pub initialised: bool,
}

impl Meta {
    /// The header records the caller's payload size, entry count and
    /// consumer count.
    pub open spec fn matches_layout(&self, type_size: usize, entry_count: usize, max_consumers: usize) -> bool {
        self.type_size == type_size && self.entry_count == entry_count && self.max_consumers
            == max_consumers
    }

    /// `Ok` iff the header matches the caller's layout; `IncompatibleLayout`
    /// otherwise.
    pub fn check_layout(&self, type_size: usize, entry_count: usize, max_consumers: usize) -> (r:
        Result<(), InletError>)
        ensures
            r == if self.matches_layout(type_size, entry_count, max_consumers) {
                Ok::<(), InletError>(())
            } else {
                Err(InletError::IncompatibleLayout)
            },
    {
        if self.type_size == type_size && self.entry_count == entry_count && self.max_consumers
            == max_consumers {
            Ok(())
        } else {
            Err(InletError::IncompatibleLayout)
        }
    }

    /// What an attacher that did not create the region does on reading this
    /// header: `Ok(false)` to keep waiting while it is not initialised,
    /// `Ok(true)` once it is and matches the caller's layout,
    /// `IncompatibleLayout` once it is and does not.
    pub fn ready_to_attach(&self, type_size: usize, entry_count: usize, max_consumers: usize) -> (r:
        Result<bool, InletError>)
        ensures
            r == if !self.initialised {
                Ok::<bool, InletError>(false)
            } else if self.matches_layout(type_size, entry_count, max_consumers) {
                Ok(true)
            } else {
                Err(InletError::IncompatibleLayout)
            },
    {
        if !self.initialised {
            return Ok(false);
        }
        match self.check_layout(type_size, entry_count, max_consumers) {
            Ok(()) => Ok(true),
            Err(e) => Err(e),
        }
    }
}

/// The data slot that `sequence` maps to.
pub fn slot_index(sequence: u64, entry_count: usize) -> (r: usize)
    requires
        entry_count > 0,
    ensures
        r == sequence as int % entry_count as int,
        r < entry_count,
{
    (sequence % (entry_count as u64)) as usize
}

/// The backpressure rule: a record may be published at `sequence` iff fewer
/// than `entry_count` records separate it from the slowest consumer's
/// `minimum`.
pub fn has_room(sequence: u64, minimum: u64, entry_count: usize) -> (r: bool)
    requires
        minimum <= sequence,
    ensures
        r == (sequence - minimum < entry_count),
{
    sequence - minimum < entry_count as u64
}

/// Coordination record of the producer or of one consumer.
pub struct ClientMeta {
    pub id: ArrayString,
    pub sequence: u64,
    pub timestamp: u64,
}

impl ClientMeta {
    /// A record whose id is non-empty belongs to a registered client.
    pub open spec fn is_registered(&self) -> bool {
        self.id@[0] != 0
    }

    /// An unclaimed record: empty id, sequence and timestamp zero.
    pub fn unclaimed() -> (r: ClientMeta)
        ensures
            r.id@ == zeros(128),
            r.sequence == 0,
            r.timestamp == 0,
    {
        ClientMeta { id: ArrayString::empty(), sequence: 0, timestamp: 0 }
    }
}

/// Registered consumers carry pairwise distinct ids.
pub open spec fn ids_unique(cs: Seq<ClientMeta>) -> bool {
    forall|i: int, j: int|
        0 <= i < cs.len() && 0 <= j < cs.len() && i != j && cs[i].is_registered()
            && cs[j].is_registered() ==> #[trigger] cs[i].id@ != #[trigger] cs[j].id@
}

/// Some consumer record is registered.
pub open spec fn any_registered(cs: Seq<ClientMeta>) -> bool {
    exists|i: int| 0 <= i < cs.len() && #[trigger] cs[i].is_registered()
}

/// `m` is the smallest sequence among registered consumers, or 0 when there
/// are none.
pub open spec fn is_min_sequence(cs: Seq<ClientMeta>, m: u64) -> bool {
    if any_registered(cs) {
        (exists|i: int| 0 <= i < cs.len() && #[trigger] cs[i].is_registered() && cs[i].sequence == m)
            && (forall|i: int|
            0 <= i < cs.len() && #[trigger] cs[i].is_registered() ==> m <= cs[i].sequence)
    } else {
        m == 0
    }
}

/// A record may be published at `sequence`: every registered consumer is
/// fewer than `n` records behind it, and with no registered consumer fewer
/// than `n` records were published.
pub open spec fn room_for(cs: Seq<ClientMeta>, sequence: int, n: int) -> bool {
    if any_registered(cs) {
        forall|i: int|
            0 <= i < cs.len() && #[trigger] cs[i].is_registered() ==> sequence - cs[i].sequence < n
    } else {
        sequence < n
    }
}

/// Round up to a multiple of 8.
pub open spec fn align8(x: int) -> int {
    ((x + 7) / 8) * 8
}

/// Total bytes of a region for the given payload size, entry count and
/// consumer count.
pub open spec fn region_size(type_size: int, entry_count: int, max_consumers: int) -> int {
    META_SIZE + PAD_SIZE + align8(entry_count * type_size) + CLIENT_META_SIZE * (max_consumers + 1)
        + PAD_SIZE
}

/// The byte size of a region, or `None` when it does not fit in `usize`.
pub fn expected_size(type_size: usize, entry_count: usize, max_consumers: usize) -> (r: Option<
    usize,
>)
    ensures
        region_size(type_size as int, entry_count as int, max_consumers as int) <= usize::MAX
            ==> r == Some(region_size(type_size as int, entry_count as int, max_consumers as int) as usize),
        region_size(type_size as int, entry_count as int, max_consumers as int) > usize::MAX
            ==> r is None,
{
    let ghost data = entry_count as int * type_size as int;
    proof {
        assert(data >= 0) by (nonlinear_arith)
            requires data == entry_count as int * type_size as int;
        assert(align8(data) >= data) by (nonlinear_arith)
            requires data >= 0;
    }
    let d = match entry_count.checked_mul(type_size) {
        Some(d) => d,
        None => return None,
    };
    let d7 = match d.checked_add(7) {
        Some(v) => v,
        None => return None,
    };
    let aligned = (d7 / 8) * 8;
    let m1 = match max_consumers.checked_add(1) {
        Some(v) => v,
        None => return None,
    };
    let clients = match m1.checked_mul(CLIENT_META_SIZE) {
        Some(v) => v,
        None => return None,
    };
    let fixed: usize = META_SIZE + PAD_SIZE + PAD_SIZE;
    let a = match aligned.checked_add(clients) {
        Some(v) => v,
        None => return None,
    };
    match a.checked_add(fixed) {
        Some(v) => Some(v),
        None => None,
    }
}

/// A shared region: header, `entry_count` data slots, the producer's record
/// and `max_consumers` consumer records. `history` holds every record ever
/// published, in order.
pub struct Inlet<E> {
    pub meta: Meta,
    pub data: Vec<E>,
    pub producer: ClientMeta,
    pub consumers: Vec<ClientMeta>,
    pub history: Ghost<Seq<E>>,
}

impl<E> Inlet<E> {
    /// Number of data slots.
    pub open spec fn capacity(&self) -> int {
        self.meta.entry_count as int
    }

    /// Sequence `s` was published and its slot has not been overwritten.
    pub open spec fn retained(&self, s: int) -> bool {
        0 <= s < self.producer.sequence && self.producer.sequence - self.capacity() <= s
    }

    /// The data slot that sequence `s` maps to.
    pub open spec fn slot(&self, s: int) -> E {
        self.data@[s % self.capacity()]
    }

    /// The region's invariant.
    pub open spec fn wf(&self) -> bool {
        &&& self.meta.initialised
        &&& self.meta.entry_count > 0
        &&& self.data@.len() == self.meta.entry_count
        &&& self.consumers@.len() == self.meta.max_consumers
        &&& self.history@.len() == self.producer.sequence
        &&& forall|i: int|
            0 <= i < self.consumers@.len() ==> #[trigger] self.consumers@[i].sequence
                <= self.producer.sequence
        &&& forall|s: int| #[trigger] self.retained(s) ==> self.slot(s) == self.history@[s]
        &&& ids_unique(self.consumers@)
    }

    /// The producer may publish at its current sequence.
    pub open spec fn publish_allowed(&self) -> bool {
        room_for(self.consumers@, self.producer.sequence as int, self.capacity())
    }

    /// A freshly initialised region with every data slot holding `blank`.
    pub fn construct(
        topic: ArrayString,
        type_size: usize,
        entry_count: usize,
        max_consumers: usize,
        blank: E,
    ) -> (r: Inlet<E>) where E: Copy
        requires
            entry_count > 0,
        ensures
            r.wf(),
            r.meta.topic@ == topic@,
            r.meta.type_size == type_size,
            r.meta.entry_count == entry_count,
            r.meta.max_consumers == max_consumers,
            r.producer.sequence == 0,
            r.producer.id@ == zeros(128),
            r.producer.timestamp == 0,
            r.history@ == Seq::<E>::empty(),
            forall|i: int| 0 <= i < entry_count ==> r.data@[i] == blank,
            forall|i: int|
                0 <= i < max_consumers ==> (#[trigger] r.consumers@[i]).id@ == zeros(128)
                    && r.consumers@[i].sequence == 0 && r.consumers@[i].timestamp == 0,
    {
        let mut data: Vec<E> = Vec::new();
        let mut i: usize = 0;
        while i < entry_count
            invariant
                0 <= i <= entry_count,
                data@.len() == i,
                forall|j: int| 0 <= j < i ==> data@[j] == blank,
            decreases entry_count - i,
        {
            data.push(blank);
            i += 1;
        }
        let mut consumers: Vec<ClientMeta> = Vec::new();
        let mut k: usize = 0;
        while k < max_consumers
            invariant
                0 <= k <= max_consumers,
                consumers@.len() == k,
                forall|j: int|
                    0 <= j < k ==> (#[trigger] consumers@[j]).id@ == zeros(128)
                        && consumers@[j].sequence == 0 && consumers@[j].timestamp == 0,
            decreases max_consumers - k,
        {
            consumers.push(ClientMeta::unclaimed());
            k += 1;
        }
        let meta = Meta { topic, type_size, entry_count, max_consumers, initialised: true };
        let r = Inlet {
            meta,
            data,
            producer: ClientMeta::unclaimed(),
            consumers,
            history: Ghost(Seq::empty()),
        };
        assert forall|i: int, j: int|
            0 <= i < r.consumers@.len() && 0 <= j < r.consumers@.len() && i != j
                && r.consumers@[i].is_registered() && r.consumers@[j].is_registered() implies
            #[trigger] r.consumers@[i].id@ != #[trigger] r.consumers@[j].id@ by {
            assert(r.consumers@[i].id@[0] == 0);
        }
        r
    }

    /// `Ok` iff the header records the caller's payload size, entry count and
    /// consumer count; `IncompatibleLayout` otherwise.
    pub fn check_layout(&self, type_size: usize, entry_count: usize, max_consumers: usize) -> (r:
        Result<(), InletError>)
        ensures
            r == if self.meta.matches_layout(type_size, entry_count, max_consumers) {
                Ok::<(), InletError>(())
            } else {
                Err(InletError::IncompatibleLayout)
            },
    {
        self.meta.check_layout(type_size, entry_count, max_consumers)
    }

    /// The smallest sequence among registered consumers, 0 when none is
    /// registered.
    pub fn get_minimum_consumer_sequence(&self) -> (r: u64)
        ensures
            is_min_sequence(self.consumers@, r),
    {
        minimum_sequence(&self.consumers)
    }
}

/// The smallest sequence among registered records of `cs`, 0 when none is
/// registered.
pub fn minimum_sequence(cs: &Vec<ClientMeta>) -> (r: u64)
    ensures
        is_min_sequence(cs@, r),
{
    let mut found = false;
    let mut best: u64 = 0;
    let mut i: usize = 0;
    while i < cs.len()
        invariant
            0 <= i <= cs@.len(),
            found == exists|j: int|
                0 <= j < i && #[trigger] cs@[j].is_registered(),
            found ==> exists|j: int|
                0 <= j < i && #[trigger] cs@[j].is_registered()
                    && cs@[j].sequence == best,
            forall|j: int|
                0 <= j < i && #[trigger] cs@[j].is_registered() ==> best
                    <= cs@[j].sequence,
            !found ==> best == 0,
        decreases cs@.len() - i,
    {
        let c = &cs[i];
        if !c.id.is_empty() {
            if !found || c.sequence < best {
                best = c.sequence;
            }
            found = true;
            assert(cs@[i as int].is_registered());
        }
        assert forall|j: int| 0 <= j < i + 1 && #[trigger] cs@[j].is_registered()
            implies 0 <= j < i || j == i by {}
        i += 1;
    }
    best
}

/// The producer's step: the slot to write the record at `sequence` into,
/// or `None` while the consumers in `cs` leave no room for it.
pub fn publish_slot(sequence: u64, cs: &Vec<ClientMeta>, entry_count: usize) -> (r: Option<usize>)
    requires
        entry_count > 0,
    ensures
        r is Some <==> room_for(cs@, sequence as int, entry_count as int),
        r matches Some(i) ==> i == sequence as int % entry_count as int,
{
    let minimum = minimum_sequence(cs);
    if minimum <= sequence && !has_room(sequence, minimum, entry_count) {
        proof {
            if any_registered(cs@) {
                let i = choose|i: int|
                    0 <= i < cs@.len() && #[trigger] cs@[i].is_registered() && cs@[i].sequence
                        == minimum;
                assert(!(sequence - cs@[i].sequence < entry_count));
            }
        }
        return None;
    }
    Some(slot_index(sequence, entry_count))
}

/// A consumer's step: the slot holding the record at `consumed`, or `None`
/// while the producer has published nothing past it.
pub fn read_slot(produced: u64, consumed: u64, entry_count: usize) -> (r: Option<usize>)
    requires
        entry_count > 0,
    ensures
        r is Some <==> produced > consumed,
        r matches Some(i) ==> i == consumed as int % entry_count as int,
{
    if produced > consumed {
        Some(slot_index(consumed, entry_count))
    } else {
        None
    }
}

} // verus!
