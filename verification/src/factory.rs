use vstd::prelude::*;

use crate::tsid::TSID;

verus! {

/// Width in bits of the timestamp field of an identifier.
pub const TIME_BITS: u8 = 42;

/// Width in bits of the non-timestamp portion, split between node and counter.
pub const RANDOM_BITS: u8 = 22;

/// Mask selecting the low `RANDOM_BITS` bits of a value.
pub const RANDOM_MASK: u64 = 0x3FFFFF;

/// Mask selecting the low `TIME_BITS` bits: the largest representable
/// timestamp value.
pub const TIME_MASK: u64 = 0x3FF_FFFF_FFFF;

/// Milliseconds from the Unix epoch to the identifier epoch,
/// 2020-01-01T00:00:00Z.
pub const TSID_EPOCH_MILLIS: u64 = 1577836800000;

/// Width of the counter field for a given node-field width: the two fields
/// split the non-timestamp bits between them.
pub open spec fn counter_bits_of(node_bits: u8) -> u8
    recommends
        node_bits <= RANDOM_BITS,
{
    (RANDOM_BITS - node_bits) as u8
}

/// Mask selecting the low `counter_bits_of(node_bits)` bits of a value.
pub open spec fn counter_mask_of(node_bits: u8) -> u64 {
    RANDOM_MASK >> (node_bits as u64)
}

/// Mask selecting the low `node_bits` bits of a value.
pub open spec fn node_mask_of(node_bits: u8) -> u64 {
    RANDOM_MASK >> (counter_bits_of(node_bits) as u64)
}

/// How the three fields of an identifier are packed into one 64-bit word:
/// the timestamp above the non-timestamp bits, the node (truncated to its
/// width) above the counter (truncated to its width).
pub open spec fn spec_pack(time_millis: u64, node_bits: u8, node: u32, counter: u64) -> u64 {
    (time_millis << (RANDOM_BITS as u64)) | (((node as u64) & node_mask_of(node_bits)) << (
    counter_bits_of(node_bits) as u64)) | (counter & counter_mask_of(node_bits))
}

/// The timestamp field of a packed identifier.
pub open spec fn time_of_id(id: u64) -> u64 {
    id >> (RANDOM_BITS as u64)
}

/// The node field of a packed identifier, under a given node-field width.
pub open spec fn node_of_id(id: u64, node_bits: u8) -> u64 {
    (id >> (counter_bits_of(node_bits) as u64)) & node_mask_of(node_bits)
}

/// The counter field of a packed identifier, under a given node-field width.
pub open spec fn counter_of_id(id: u64, node_bits: u8) -> u64 {
    id & counter_mask_of(node_bits)
}

/// A factory for time-sorted identifiers. The configuration (the bit split
/// and the node value) is fixed at construction; the generation state (the
/// last recorded timestamp and the current counter) advances on every call
/// to `create`. One instance is meant for one logical generator: calls on a
/// shared instance must be serialized externally.
#[derive(Debug)]
pub struct TsidFactory {
    pub node_bits: u8,
    pub counter_bits: u8,
    pub counter_mask: u64,
    pub node_mask: u64,
    pub last_time_value: u64,
    pub counter: u64,
    pub node: u32,
}

/// A fresh 64-bit random value. Relies on `rand::rng` (the thread-local
/// generator) and `rand::Rng::next_u64`; nothing is promised of the draw,
/// and the call aborts only if the operating system's entropy source fails
/// at first use.
#[verifier::external_body]
fn random_u64() -> u64 {
    let mut r = rand::rng();
    rand::Rng::next_u64(&mut r)
}

/// Milliseconds of the system clock since the identifier epoch. Relies on
/// `std::time::SystemTime::now`, read through `duration_since`; aborts if
/// the clock reads before the epoch, an unrecoverable environment fault.
/// Nothing is promised of the reading: callers state what holds of every
/// value.
#[verifier::external_body]
fn get_time_millis_in_tsid_epoch() -> u64 {
    let tsid_epoch = std::time::SystemTime::UNIX_EPOCH
        + std::time::Duration::from_millis(TSID_EPOCH_MILLIS);
    std::time::SystemTime::now()
        .duration_since(tsid_epoch)
        .expect("system clock reads before the identifier epoch")
        .as_millis() as u64
}

/// A bitwise and can only clear bits: the result never exceeds the mask.
proof fn lemma_and_le_mask(x: u64, m: u64)
    by (bit_vector)
    ensures
        x & m <= m,
{
}

/// The counter mask selects low bits only: a value within it is unchanged by
/// masking.
proof fn lemma_within_counter_mask(x: u64, nb: u8)
    by (bit_vector)
    requires
        nb <= RANDOM_BITS,
        x <= counter_mask_of(nb),
    ensures
        x & counter_mask_of(nb) == x,
{
}

/// Incrementing a counter at its mask and masking wraps it to zero.
proof fn lemma_counter_wraps(nb: u8)
    by (bit_vector)
    requires
        nb <= RANDOM_BITS,
    ensures
        ((counter_mask_of(nb) + 1) as u64) & counter_mask_of(nb) == 0,
{
}

/// The counter mask is a piece of the non-timestamp mask and never exceeds
/// it.
proof fn lemma_counter_mask_bound(nb: u8)
    by (bit_vector)
    ensures
        counter_mask_of(nb) <= RANDOM_MASK,
{
}

/// A timestamp within the 42-bit field is unchanged by masking.
proof fn lemma_within_time_mask(x: u64)
    by (bit_vector)
    requires
        x <= TIME_MASK,
    ensures
        x & TIME_MASK == x,
{
}

/// Packing is strictly monotone in the (timestamp, counter) pair under the
/// field bounds: a later timestamp, or the same timestamp with a larger
/// counter, packs to a strictly larger identifier.
proof fn lemma_pack_monotone(nb: u8, n: u32, t1: u64, c1: u64, t2: u64, c2: u64)
    by (bit_vector)
    requires
        nb <= RANDOM_BITS,
        t1 <= TIME_MASK,
        t2 <= TIME_MASK,
        c1 <= counter_mask_of(nb),
        c2 <= counter_mask_of(nb),
        t1 < t2 || (t1 == t2 && c1 < c2),
    ensures
        spec_pack(t1, nb, n, c1) < spec_pack(t2, nb, n, c2),
{
}

/// Monotonicity: one generation step on a well-formed factory — whatever the
/// clock reads and whatever random value is drawn — yields an identifier
/// strictly greater than the one the current state encodes, and never moves
/// the recorded time backwards, as long as that time has room to advance
/// within its 42-bit field. Identifiers from successive calls on one
/// instance therefore form an increasing sequence.
pub proof fn lemma_step_monotonic(f: TsidFactory, time_millis: u64, random: u64)
    requires
        f.wf(),
        f.last_time_value < TIME_MASK,
    ensures
        f.spec_step(time_millis, random).spec_id() > f.spec_id(),
        f.spec_step(time_millis, random).last_time_value >= f.last_time_value,
{
    let s = f.spec_step(time_millis, random);
    let t: u64 = time_millis & TIME_MASK;
    lemma_and_le_mask(time_millis, TIME_MASK);
    if t <= f.last_time_value {
        if f.counter + 1 > f.counter_mask {
            lemma_counter_wraps(f.node_bits);
            lemma_within_time_mask((f.last_time_value + 1) as u64);
            lemma_pack_monotone(
                f.node_bits,
                f.node,
                f.last_time_value,
                f.counter,
                s.last_time_value,
                s.counter,
            );
        } else {
            lemma_within_counter_mask((f.counter + 1) as u64, f.node_bits);
            lemma_pack_monotone(
                f.node_bits,
                f.node,
                f.last_time_value,
                f.counter,
                s.last_time_value,
                s.counter,
            );
        }
    } else {
        lemma_and_le_mask(random, f.counter_mask);
        lemma_pack_monotone(
            f.node_bits,
            f.node,
            f.last_time_value,
            f.counter,
            s.last_time_value,
            s.counter,
        );
    }
}

/// The states a factory passes through when stepped once for each (clock
/// reading, random draw) pair of `inputs`: entry `i` is the state after the
/// first `i` calls, so the sequence starts at `f` itself.
pub open spec fn run_states(f: TsidFactory, inputs: Seq<(u64, u64)>) -> Seq<TsidFactory>
    decreases inputs.len(),
{
    if inputs.len() == 0 {
        seq![f]
    } else {
        seq![f] + run_states(f.spec_step(inputs[0].0, inputs[0].1), inputs.drop_first())
    }
}

/// The identifiers those calls emit, in call order.
pub open spec fn run_ids(f: TsidFactory, inputs: Seq<(u64, u64)>) -> Seq<u64> {
    Seq::new(inputs.len() as nat, |i: int| run_states(f, inputs)[i + 1].spec_id())
}

/// Shape of a run: one state per call after the start, each obtained from
/// the previous by one generation step, all well formed, and each leaving
/// the remaining calls room to advance the recorded time within its field.
proof fn lemma_run_facts(f: TsidFactory, inputs: Seq<(u64, u64)>)
    requires
        f.wf(),
        f.last_time_value + inputs.len() <= TIME_MASK,
        forall|i: int|
            0 <= i < inputs.len() ==> ((#[trigger] inputs[i]).0 & TIME_MASK) + inputs.len()
                <= TIME_MASK,
    ensures
        run_states(f, inputs).len() == inputs.len() + 1,
        run_states(f, inputs)[0] == f,
        forall|i: int| 0 <= i <= inputs.len() ==> (#[trigger] run_states(f, inputs)[i]).wf(),
        forall|i: int|
            0 <= i <= inputs.len() ==> (#[trigger] run_states(f, inputs)[i]).last_time_value + (
            inputs.len() - i) <= TIME_MASK,
        forall|i: int|
            0 <= i < inputs.len() ==> #[trigger] run_states(f, inputs)[i + 1] == run_states(
                f,
                inputs,
            )[i].spec_step(inputs[i].0, inputs[i].1),
    decreases inputs.len(),
{
    if inputs.len() > 0 {
        let g = f.spec_step(inputs[0].0, inputs[0].1);
        let rest = inputs.drop_first();
        lemma_step_wf(f, inputs[0].0, inputs[0].1);
        lemma_and_le_mask(inputs[0].0, TIME_MASK);
        lemma_within_time_mask((f.last_time_value + 1) as u64);
        assert(g.last_time_value + rest.len() <= TIME_MASK);
        assert forall|i: int|
            0 <= i < rest.len() implies ((#[trigger] rest[i]).0 & TIME_MASK) + rest.len()
            <= TIME_MASK by {
            assert(rest[i] == inputs[i + 1]);
        }
        lemma_run_facts(g, rest);
        assert forall|i: int|
            0 <= i < inputs.len() implies #[trigger] run_states(f, inputs)[i + 1] == run_states(
            f,
            inputs,
        )[i].spec_step(inputs[i].0, inputs[i].1) by {
            if i > 0 {
                assert(run_states(f, inputs)[i + 1] == run_states(g, rest)[i]);
                assert(run_states(f, inputs)[i] == run_states(g, rest)[i - 1]);
                assert(inputs[i] == rest[i - 1]);
            }
        }
    }
}

/// In a strictly increasing chain, every earlier entry is below every later
/// one.
proof fn lemma_lt_chain(s: Seq<u64>, i: int, j: int)
    requires
        forall|k: int| 0 <= k < s.len() - 1 ==> #[trigger] s[k] < s[k + 1],
        0 <= i < j < s.len(),
    ensures
        s[i] < s[j],
    decreases j - i,
{
    if j > i + 1 {
        lemma_lt_chain(s, i, j - 1);
    }
}

/// Monotonicity over a whole run: for any sequence of calls on one factory
/// instance — whatever clock reading and random draw each call sees — the
/// emitted identifiers are strictly increasing in call order, as long as the
/// recorded timestamp keeps room in its 42-bit field for one synthetic
/// advance per call.
pub proof fn lemma_run_monotonic(f: TsidFactory, inputs: Seq<(u64, u64)>)
    requires
        f.wf(),
        f.last_time_value + inputs.len() <= TIME_MASK,
        forall|i: int|
            0 <= i < inputs.len() ==> ((#[trigger] inputs[i]).0 & TIME_MASK) + inputs.len()
                <= TIME_MASK,
    ensures
        run_ids(f, inputs).len() == inputs.len(),
        forall|i: int, j: int|
            0 <= i < j < inputs.len() ==> run_ids(f, inputs)[i] < run_ids(f, inputs)[j],
{
    lemma_run_facts(f, inputs);
    let ids = run_ids(f, inputs);
    assert forall|i: int| 0 <= i < ids.len() - 1 implies #[trigger] ids[i] < ids[i + 1] by {
        let s = run_states(f, inputs)[i + 1];
        assert(s.last_time_value + (inputs.len() - (i + 1)) <= TIME_MASK);
        lemma_step_monotonic(s, inputs[i + 1].0, inputs[i + 1].1);
    }
    assert forall|i: int, j: int| 0 <= i < j < inputs.len() implies ids[i] < ids[j] by {
        lemma_lt_chain(ids, i, j);
    }
}

/// For every valid node-field width, the counter width complements it to the
/// 22 non-timestamp bits, and each mask selects exactly the low bits of its
/// field: one below a power of two of the field's width.
pub proof fn lemma_bit_split(node_bits: u8)
    requires
        node_bits <= RANDOM_BITS,
    ensures
        counter_bits_of(node_bits) + node_bits == RANDOM_BITS,
        counter_mask_of(node_bits) == RANDOM_MASK >> (node_bits as u64),
        counter_mask_of(node_bits) + 1 == 1u64 << (counter_bits_of(node_bits) as u64),
        node_mask_of(node_bits) + 1 == 1u64 << (node_bits as u64),
{
    assert(counter_mask_of(node_bits) + 1 == 1u64 << (counter_bits_of(node_bits) as u64))
        by (bit_vector)
        requires
            node_bits <= RANDOM_BITS,
    ;
    assert(node_mask_of(node_bits) + 1 == 1u64 << (node_bits as u64)) by (bit_vector)
        requires
            node_bits <= RANDOM_BITS,
    ;
}

/// A generation step preserves the invariant and leaves the configuration —
/// the bit split, the masks and the node value — untouched.
pub proof fn lemma_step_wf(f: TsidFactory, time_millis: u64, random: u64)
    requires
        f.wf(),
    ensures
        f.spec_step(time_millis, random).wf(),
        f.spec_step(time_millis, random).node_bits == f.node_bits,
        f.spec_step(time_millis, random).counter_bits == f.counter_bits,
        f.spec_step(time_millis, random).counter_mask == f.counter_mask,
        f.spec_step(time_millis, random).node_mask == f.node_mask,
        f.spec_step(time_millis, random).node == f.node,
{
    lemma_and_le_mask(time_millis, TIME_MASK);
    lemma_and_le_mask((f.counter + 1) as u64, f.counter_mask);
    lemma_and_le_mask(random, f.counter_mask);
    lemma_and_le_mask((f.last_time_value + 1) as u64, TIME_MASK);
}

/// Field extraction round-trip: under the field bounds, each of the three
/// fields of a packed identifier reads back exactly as the value that was
/// packed, with the node truncated to its configured width.
pub proof fn lemma_field_round_trip(time_millis: u64, node_bits: u8, node: u32, counter: u64)
    by (bit_vector)
    requires
        node_bits <= RANDOM_BITS,
        time_millis <= TIME_MASK,
        counter <= counter_mask_of(node_bits),
    ensures
        time_of_id(spec_pack(time_millis, node_bits, node, counter)) == time_millis,
        node_of_id(spec_pack(time_millis, node_bits, node, counter), node_bits) == (node as u64)
            & node_mask_of(node_bits),
        counter_of_id(spec_pack(time_millis, node_bits, node, counter), node_bits) == counter,
{
}

/// Counter exhaustion: when the clock has not advanced past the recorded
/// time and the counter sits at its mask, the next step advances the
/// recorded time by exactly one millisecond, restarts the counter at zero,
/// and the emitted identifier's fields show both.
pub proof fn lemma_counter_exhaustion(f: TsidFactory, time_millis: u64, random: u64)
    requires
        f.wf(),
        f.last_time_value < TIME_MASK,
        time_millis & TIME_MASK <= f.last_time_value,
        f.counter == f.counter_mask,
    ensures
        f.spec_step(time_millis, random).last_time_value == f.last_time_value + 1,
        f.spec_step(time_millis, random).counter == 0,
        time_of_id(f.spec_step(time_millis, random).spec_id()) == f.last_time_value + 1,
        counter_of_id(f.spec_step(time_millis, random).spec_id(), f.node_bits) == 0,
        counter_of_id(f.spec_step(time_millis, random).spec_id(), f.node_bits)
            <= f.counter_mask,
{
    lemma_counter_wraps(f.node_bits);
    lemma_within_time_mask((f.last_time_value + 1) as u64);
    lemma_field_round_trip((f.last_time_value + 1) as u64, f.node_bits, f.node, 0);
}

/// Two factories with the same bit split but distinct (masked) node values,
/// stepped at the same instant from the same recorded time, emit identifiers
/// whose node fields differ and whose timestamp fields are at most one
/// millisecond apart.
pub proof fn lemma_distinct_nodes(
    f1: TsidFactory,
    f2: TsidFactory,
    time_millis: u64,
    r1: u64,
    r2: u64,
)
    requires
        f1.wf(),
        f2.wf(),
        f1.node_bits == f2.node_bits,
        (f1.node as u64) & f1.node_mask != (f2.node as u64) & f2.node_mask,
        f1.last_time_value == f2.last_time_value,
        f1.last_time_value < TIME_MASK,
    ensures
        node_of_id(f1.spec_step(time_millis, r1).spec_id(), f1.node_bits) != node_of_id(
            f2.spec_step(time_millis, r2).spec_id(),
            f2.node_bits,
        ),
        time_of_id(f1.spec_step(time_millis, r1).spec_id()) <= time_of_id(
            f2.spec_step(time_millis, r2).spec_id(),
        ) + 1,
        time_of_id(f2.spec_step(time_millis, r2).spec_id()) <= time_of_id(
            f1.spec_step(time_millis, r1).spec_id(),
        ) + 1,
{
    let s1 = f1.spec_step(time_millis, r1);
    let s2 = f2.spec_step(time_millis, r2);
    lemma_step_wf(f1, time_millis, r1);
    lemma_step_wf(f2, time_millis, r2);
    lemma_and_le_mask(time_millis, TIME_MASK);
    lemma_within_time_mask((f1.last_time_value + 1) as u64);
    lemma_field_round_trip(s1.last_time_value, s1.node_bits, s1.node, s1.counter);
    lemma_field_round_trip(s2.last_time_value, s2.node_bits, s2.node, s2.counter);
}

impl TsidFactory {
    /// The structural invariant: the derived widths and masks agree with
    /// `node_bits`, the counter stays within its mask, and the recorded
    /// timestamp fits its 42-bit field.
    pub open spec fn wf(self) -> bool {
        &&& self.node_bits <= RANDOM_BITS
        &&& self.counter_bits == counter_bits_of(self.node_bits)
        &&& self.counter_mask == counter_mask_of(self.node_bits)
        &&& self.node_mask == node_mask_of(self.node_bits)
        &&& self.counter <= self.counter_mask
        &&& self.last_time_value <= TIME_MASK
    }

    /// The identifier that the current state encodes: the one emitted by the
    /// most recent generation step.
    pub open spec fn spec_id(self) -> u64 {
        spec_pack(self.last_time_value, self.node_bits, self.node, self.counter)
    }

    /// One step of the generation algorithm, for an observed clock reading
    /// and a random draw. If the clock (truncated to the timestamp width)
    /// has not advanced past the recorded time, the counter is incremented;
    /// when that increment leaves the counter's field, the recorded time is
    /// advanced by one millisecond instead, so output keeps increasing. On a
    /// fresh millisecond the counter is reseeded from the random draw. The
    /// recorded time never decreases, whatever the clock reports.
    pub open spec fn spec_step(self, time_millis: u64, random: u64) -> TsidFactory {
        let t: u64 = time_millis & TIME_MASK;
        if t <= self.last_time_value {
            TsidFactory {
                last_time_value: if self.counter + 1 > self.counter_mask {
                    ((self.last_time_value + 1) as u64) & TIME_MASK
                } else {
                    self.last_time_value
                },
                counter: ((self.counter + 1) as u64) & self.counter_mask,
                ..self
            }
        } else {
            TsidFactory { last_time_value: t, counter: random & self.counter_mask, ..self }
        }
    }

    /// Advance the generation state for the given clock reading and random
    /// draw and pack the resulting identifier. The state afterwards is
    /// exactly one generation step, and the identifier is the one that state
    /// encodes.
    pub fn create_at(&mut self, time_millis: u64, random: u64) -> (id: TSID)
        requires
            old(self).wf(),
        ensures
            final(self).wf(),
            *final(self) == old(self).spec_step(time_millis, random),
            id@ == final(self).spec_id(),
    {
        let t: u64 = time_millis & TIME_MASK;
        proof {
            lemma_and_le_mask(time_millis, TIME_MASK);
        }
        if t <= self.last_time_value {
            proof {
                lemma_counter_mask_bound(self.node_bits);
            }
            let c: u64 = self.counter + 1;
            if c > self.counter_mask {
                // The counter's field is exhausted within this millisecond:
                // move the recorded time one tick ahead of the clock rather
                // than fail, at the cost of running slightly ahead of it.
                self.last_time_value = (self.last_time_value + 1) & TIME_MASK;
                proof {
                    lemma_and_le_mask((old(self).last_time_value + 1) as u64, TIME_MASK);
                }
            }
            self.counter = c & self.counter_mask;
            proof {
                lemma_and_le_mask(c, self.counter_mask);
            }
        } else {
            self.counter = random & self.counter_mask;
            self.last_time_value = t;
            proof {
                lemma_and_le_mask(random, self.counter_mask);
            }
        }
        let number: u64 = (self.last_time_value << (RANDOM_BITS as u64)) | (((self.node as u64)
            & self.node_mask) << (self.counter_bits as u64)) | (self.counter & self.counter_mask);
        TSID::new(number)
    }

    /// Generate the next identifier from the system clock and the
    /// thread-local random generator. The configuration is unchanged, the
    /// recorded time never decreases, and as long as the recorded time has
    /// room in its 42-bit field the new identifier is strictly greater than
    /// the one the previous state encodes.
    pub fn create(&mut self) -> (id: TSID)
        requires
            old(self).wf(),
        ensures
            final(self).wf(),
            final(self).node_bits == old(self).node_bits,
            final(self).counter_bits == old(self).counter_bits,
            final(self).counter_mask == old(self).counter_mask,
            final(self).node_mask == old(self).node_mask,
            final(self).node == old(self).node,
            exists|t: u64, r: u64| *final(self) == old(self).spec_step(t, r),
            id@ == final(self).spec_id(),
            old(self).last_time_value < TIME_MASK ==> final(self).last_time_value >= old(
                self,
            ).last_time_value,
            old(self).last_time_value < TIME_MASK ==> id@ > old(self).spec_id(),
    {
        let time_millis: u64 = get_time_millis_in_tsid_epoch();
        let random: u64 = random_u64();
        let id = self.create_at(time_millis, random);
        proof {
            assert(*self == old(self).spec_step(time_millis, random));
            if old(self).last_time_value < TIME_MASK {
                lemma_step_monotonic(*old(self), time_millis, random);
            }
        }
        id
    }

    /// A factory with a node field of `node_bits` bits holding `node`
    /// (truncated to that width at packing time). The counter starts at an
    /// unpredictable value within its mask and the recorded time at the
    /// current clock reading.
    pub fn with_node_bits(node_bits: u8, node: u32) -> (f: Self)
        requires
            node_bits <= RANDOM_BITS,
        ensures
            f.wf(),
            f.node_bits == node_bits,
            f.counter_bits == counter_bits_of(node_bits),
            f.counter_mask == counter_mask_of(node_bits),
            f.node_mask == node_mask_of(node_bits),
            f.node == node,
    {
        let counter_bits: u8 = RANDOM_BITS - node_bits;
        let counter_mask: u64 = RANDOM_MASK >> (node_bits as u64);
        let node_mask: u64 = RANDOM_MASK >> (counter_bits as u64);
        let seed: u64 = random_u64();
        let counter: u64 = seed & counter_mask;
        let now: u64 = get_time_millis_in_tsid_epoch();
        let last_time_value: u64 = now & TIME_MASK;
        proof {
            lemma_and_le_mask(seed, counter_mask);
            lemma_and_le_mask(now, TIME_MASK);
        }
        Self { node_bits, counter_bits, counter_mask, node_mask, last_time_value, counter, node }
    }

    /// A factory with no node discrimination: all non-timestamp bits go to
    /// the counter.
    pub fn new() -> (f: Self)
        ensures
            f.wf(),
            f.node_bits == 0,
            f.counter_bits == RANDOM_BITS,
            f.counter_mask == RANDOM_MASK,
            f.node_mask == 0,
            f.node == 0,
    {
        proof {
            assert(RANDOM_MASK >> 0u64 == RANDOM_MASK) by (bit_vector);
            assert(RANDOM_MASK >> 22u64 == 0u64) by (bit_vector);
        }
        Self::with_node_bits(0, 0)
    }
}

impl Default for TsidFactory {
    /// Equivalent to a factory with zero node bits and node zero.
    fn default() -> (f: Self)
        ensures
            f.wf(),
            f.node_bits == 0,
            f.node == 0,
    {
        Self::with_node_bits(0, 0)
    }
}

} // verus!
