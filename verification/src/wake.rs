//! No wake-up is lost between a side that parks and a side that publishes.
//!
//! Each side takes two steps, in its own order, and the steps of the two sides
//! may interleave in any way. A side that parks sets its flag and then looks
//! once more; a side that publishes moves its position and then takes the flag.
//! Whatever the interleaving, the parking side sees what was published or the
//! publishing side sees the flag.

use vstd::prelude::*;

verus! {

use crate::image::{lemma_beside, lemma_read_back};
use crate::le::{le_bytes, lemma_le_bytes_len};
use crate::ring::{
    advance, ahead, consumer_flag, consumer_marked, consumer_taken, data_seen, filled, head_of,
    law_pop_removes, law_push_appends, producer_flag, producer_marked, producer_taken, published,
    released, ring_ok, room, space_seen, tail_of, with_consumer_flag, with_producer_flag,
    RingSpan, OFF_CONSUMER_PARKED, OFF_HEAD, OFF_PRODUCER_PARKED, OFF_TAIL,
};
use crate::seg::lemma_cap_bounds;

/// The steps of the two sides.
pub enum Step {
    /// The parking side sets its flag.
    Mark,
    /// The parking side looks at the other position.
    Look,
    /// The publishing side moves its position.
    Publish,
    /// The publishing side takes the flag.
    Take,
}

/// The image, and what the two sides have seen.
pub struct Race {
    pub bytes: Seq<u8>,
    /// The parking side saw that it need not sleep.
    pub parker_saw: bool,
    /// The publishing side saw the flag and rings the doorbell.
    pub publisher_saw: bool,
}

/// All four steps, each side's in its own order.
pub open spec fn interleaving(steps: Seq<Step>) -> bool {
    &&& steps.len() == 4
    &&& exists|m: int, l: int, p: int, t: int|
        #![trigger steps[m], steps[l], steps[p], steps[t]]
        0 <= m < l < 4 && 0 <= p < t < 4 && steps[m] == Step::Mark && steps[l] == Step::Look
            && steps[p] == Step::Publish && steps[t] == Step::Take
}

/// A step where the consumer parks and the producer publishes the bytes `s`.
pub open spec fn data_step(r: Race, step: Step, span: RingSpan, s: Seq<u8>) -> Race {
    let b = r.bytes;
    match step {
        Step::Mark => Race { bytes: consumer_marked(b, span), ..r },
        Step::Look => Race { parker_saw: data_seen(b, span, head_of(b, span)), ..r },
        Step::Publish => Race { bytes: published(b, span, tail_of(b, span), s), ..r },
        Step::Take => Race {
            bytes: consumer_taken(b, span).0,
            publisher_saw: consumer_taken(b, span).1,
            ..r
        },
    }
}

/// A step where the producer parks and the consumer releases `n` bytes.
pub open spec fn space_step(r: Race, step: Step, span: RingSpan, n: nat) -> Race {
    let b = r.bytes;
    match step {
        Step::Mark => Race { bytes: producer_marked(b, span), ..r },
        Step::Look => Race { parker_saw: space_seen(b, span, tail_of(b, span)), ..r },
        Step::Publish => Race { bytes: released(b, span, head_of(b, span), n), ..r },
        Step::Take => Race {
            bytes: producer_taken(b, span).0,
            publisher_saw: producer_taken(b, span).1,
            ..r
        },
    }
}

/// What the steps lead to where the consumer parks.
pub open spec fn data_race(r: Race, steps: Seq<Step>, span: RingSpan, s: Seq<u8>) -> Race
    decreases steps.len(),
{
    if steps.len() == 0 {
        r
    } else {
        data_race(data_step(r, steps[0], span, s), steps.drop_first(), span, s)
    }
}

/// What the steps lead to where the producer parks.
pub open spec fn space_race(r: Race, steps: Seq<Step>, span: RingSpan, n: nat) -> Race
    decreases steps.len(),
{
    if steps.len() == 0 {
        r
    } else {
        space_race(space_step(r, steps[0], span, n), steps.drop_first(), span, n)
    }
}

/// The four fields of a ring header after a flag is written.
proof fn lemma_flag_write(b: Seq<u8>, span: RingSpan, v: u32)
    requires
        span.wf(),
        span.data + span.cap <= b.len(),
    ensures
        with_consumer_flag(b, span, v).len() == b.len(),
        consumer_flag(with_consumer_flag(b, span, v), span) == v,
        head_of(with_consumer_flag(b, span, v), span) == head_of(b, span),
        tail_of(with_consumer_flag(b, span, v), span) == tail_of(b, span),
        with_producer_flag(b, span, v).len() == b.len(),
        producer_flag(with_producer_flag(b, span, v), span) == v,
        head_of(with_producer_flag(b, span, v), span) == head_of(b, span),
        tail_of(with_producer_flag(b, span, v), span) == tail_of(b, span),
{
    let h = span.hdr as int;
    let w = le_bytes(v as nat, 4);
    lemma_le_bytes_len(v as nat, 4);
    lemma_cap_bounds(span.cap as int);
    lemma_read_back(b, h + OFF_CONSUMER_PARKED, 0, v);
    lemma_read_back(b, h + OFF_PRODUCER_PARKED, 0, v);
    lemma_beside(b, h + OFF_CONSUMER_PARKED, w, h + OFF_HEAD, h + OFF_HEAD + 8);
    lemma_beside(b, h + OFF_CONSUMER_PARKED, w, h + OFF_TAIL, h + OFF_TAIL + 8);
    lemma_beside(b, h + OFF_PRODUCER_PARKED, w, h + OFF_HEAD, h + OFF_HEAD + 8);
    lemma_beside(b, h + OFF_PRODUCER_PARKED, w, h + OFF_TAIL, h + OFF_TAIL + 8);
}

/// A ring that is in order, with the given positions in its header.
pub open spec fn data_state(b: Seq<u8>, span: RingSpan, head: u64, tail: u64) -> bool {
    &&& ring_ok(b, span)
    &&& head_of(b, span) == head
    &&& tail_of(b, span) == tail
}

proof fn lemma_data_step(r: Race, step: Step, span: RingSpan, s: Seq<u8>, head: u64, tail: u64)
    requires
        data_state(r.bytes, span, head, tail),
        step == Step::Publish ==> s.len() <= room(tail, head, span.cap),
    ensures
        ({
            let q = data_step(r, step, span, s);
            let tail2 = if step == Step::Publish { advance(tail, s.len()) } else { tail };
            &&& data_state(q.bytes, span, head, tail2)
            &&& step == Step::Mark ==> consumer_flag(q.bytes, span) == 1
            &&& step == Step::Look || step == Step::Publish ==> consumer_flag(q.bytes, span)
                == consumer_flag(r.bytes, span)
        }),
{
    match step {
        Step::Mark => lemma_flag_write(r.bytes, span, 1),
        Step::Look => {},
        Step::Publish => law_push_appends(r.bytes, span, s),
        Step::Take => lemma_flag_write(r.bytes, span, 0),
    }
}

proof fn lemma_space_step(r: Race, step: Step, span: RingSpan, n: nat, head: u64, tail: u64)
    requires
        data_state(r.bytes, span, head, tail),
        step == Step::Publish ==> n <= filled(tail, head, span.cap),
    ensures
        ({
            let q = space_step(r, step, span, n);
            let head2 = if step == Step::Publish { advance(head, n) } else { head };
            &&& data_state(q.bytes, span, head2, tail)
            &&& step == Step::Mark ==> producer_flag(q.bytes, span) == 1
            &&& step == Step::Look || step == Step::Publish ==> producer_flag(q.bytes, span)
                == producer_flag(r.bytes, span)
        }),
{
    match step {
        Step::Mark => lemma_flag_write(r.bytes, span, 1),
        Step::Look => {},
        Step::Publish => law_pop_removes(r.bytes, span, n),
        Step::Take => lemma_flag_write(r.bytes, span, 0),
    }
}

/// A consumer that parks on an empty ring is never left asleep beside bytes that
/// were published: in every interleaving it sees them, or the producer sees that
/// it must ring the doorbell.
pub proof fn law_no_lost_data_wakeup(b: Seq<u8>, steps: Seq<Step>, span: RingSpan, s: Seq<u8>)
    requires
        ring_ok(b, span),
        tail_of(b, span) == head_of(b, span),
        0 < s.len() <= span.cap,
        interleaving(steps),
    ensures
        ({
            let end = data_race(
                Race { bytes: b, parker_saw: false, publisher_saw: false },
                steps,
                span,
                s,
            );
            end.parker_saw || end.publisher_saw
        }),
{
    let head = head_of(b, span);
    let t0 = tail_of(b, span);
    let t1 = advance(t0, s.len());
    let r0 = Race { bytes: b, parker_saw: false, publisher_saw: false };
    let r1 = data_step(r0, steps[0], span, s);
    let r2 = data_step(r1, steps[1], span, s);
    let r3 = data_step(r2, steps[2], span, s);
    let r4 = data_step(r3, steps[3], span, s);
    lemma_cap_bounds(span.cap as int);
    assert(filled(t1, head, span.cap) > 0);
    lemma_data_step(r0, steps[0], span, s, head, t0);
    let a1 = if steps[0] == Step::Publish { t1 } else { t0 };
    lemma_data_step(r1, steps[1], span, s, head, a1);
    let a2 = if steps[1] == Step::Publish { t1 } else { a1 };
    lemma_data_step(r2, steps[2], span, s, head, a2);
    let a3 = if steps[2] == Step::Publish { t1 } else { a2 };
    lemma_data_step(r3, steps[3], span, s, head, a3);
    reveal_with_fuel(data_race, 5);
    assert(steps.drop_first()[0] == steps[1]);
    assert(steps.drop_first().drop_first()[0] == steps[2]);
    assert(steps.drop_first().drop_first().drop_first()[0] == steps[3]);
    assert(data_race(r0, steps, span, s) == r4);
}

/// A producer that parks on a full ring is never left asleep beside space that
/// was released: in every interleaving it sees it, or the consumer sees that it
/// must ring the doorbell.
pub proof fn law_no_lost_space_wakeup(b: Seq<u8>, steps: Seq<Step>, span: RingSpan, n: nat)
    requires
        ring_ok(b, span),
        ahead(tail_of(b, span), head_of(b, span)) == span.cap,
        0 < n <= span.cap,
        interleaving(steps),
    ensures
        ({
            let end = space_race(
                Race { bytes: b, parker_saw: false, publisher_saw: false },
                steps,
                span,
                n,
            );
            end.parker_saw || end.publisher_saw
        }),
{
    let tail = tail_of(b, span);
    let h0 = head_of(b, span);
    let h1 = advance(h0, n);
    let r0 = Race { bytes: b, parker_saw: false, publisher_saw: false };
    let r1 = space_step(r0, steps[0], span, n);
    let r2 = space_step(r1, steps[1], span, n);
    let r3 = space_step(r2, steps[2], span, n);
    let r4 = space_step(r3, steps[3], span, n);
    lemma_cap_bounds(span.cap as int);
    assert(room(tail, h1, span.cap) > 0);
    lemma_space_step(r0, steps[0], span, n, h0, tail);
    let a1 = if steps[0] == Step::Publish { h1 } else { h0 };
    lemma_space_step(r1, steps[1], span, n, a1, tail);
    let a2 = if steps[1] == Step::Publish { h1 } else { a1 };
    lemma_space_step(r2, steps[2], span, n, a2, tail);
    let a3 = if steps[2] == Step::Publish { h1 } else { a2 };
    lemma_space_step(r3, steps[3], span, n, a3, tail);
    reveal_with_fuel(space_race, 5);
    assert(steps.drop_first()[0] == steps[1]);
    assert(steps.drop_first().drop_first()[0] == steps[2]);
    assert(steps.drop_first().drop_first().drop_first()[0] == steps[3]);
    assert(space_race(r0, steps, span, n) == r4);
}

/// A side that is marked as parked has its flag set. Whoever takes a flag clears it, and is
/// told whether it was set: a second take finds nothing, so that one park is one doorbell.
/// Neither moves a position.
pub proof fn law_flags_are_set_and_taken_once(b: Seq<u8>, span: RingSpan)
    requires
        span.wf(),
        span.data + span.cap <= b.len(),
    ensures
        consumer_flag(consumer_marked(b, span), span) == 1,
        producer_flag(producer_marked(b, span), span) == 1,
        consumer_taken(b, span).1 <==> consumer_flag(b, span) == 1,
        producer_taken(b, span).1 <==> producer_flag(b, span) == 1,
        consumer_taken(consumer_marked(b, span), span).1,
        producer_taken(producer_marked(b, span), span).1,
        consumer_flag(consumer_taken(b, span).0, span) == 0,
        producer_flag(producer_taken(b, span).0, span) == 0,
        !consumer_taken(consumer_taken(b, span).0, span).1,
        !producer_taken(producer_taken(b, span).0, span).1,
        head_of(consumer_marked(b, span), span) == head_of(b, span),
        tail_of(consumer_marked(b, span), span) == tail_of(b, span),
        head_of(producer_marked(b, span), span) == head_of(b, span),
        tail_of(producer_marked(b, span), span) == tail_of(b, span),
        head_of(consumer_taken(b, span).0, span) == head_of(b, span),
        tail_of(consumer_taken(b, span).0, span) == tail_of(b, span),
        head_of(producer_taken(b, span).0, span) == head_of(b, span),
        tail_of(producer_taken(b, span).0, span) == tail_of(b, span),
{
    lemma_flag_write(b, span, 0);
    lemma_flag_write(b, span, 1);
}

/// What a side sees when it looks: bytes where the producer's position is ahead of its own,
/// and room where the consumer's is less than the capacity behind.
pub proof fn law_what_a_look_sees(b: Seq<u8>, span: RingSpan, head: u64, tail: u64)
    requires
        span.cap > 0,
    ensures
        data_seen(b, span, head) <==> tail_of(b, span) != head,
        space_seen(b, span, tail) <==> ahead(tail, head_of(b, span)) < span.cap,
{
}

} // verus!
