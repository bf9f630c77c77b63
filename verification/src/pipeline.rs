//! Producers, consumers, and the sentinel that ends the consumers.
//!
//! Payloads are integers drawn from `PAYLOAD_MIN ..= PAYLOAD_MAX`. One value
//! outside that range, `TERMINATION_SIGNAL`, is reserved: a consumer that
//! receives it stops. The orchestrator lets every producer finish before it
//! queues one sentinel per consumer, so that every payload stands before every
//! sentinel and no consumer stops early.

use crate::channel::{Channel, TryRecvError};
use crate::model::Stop;
use vstd::prelude::*;

verus! {

/// The reserved value that tells one consumer to stop.
pub const TERMINATION_SIGNAL: i32 = -1;

/// The smallest value a producer generates.
pub const PAYLOAD_MIN: i32 = 1;

/// The largest value a producer generates.
pub const PAYLOAD_MAX: i32 = 100;

/// Whether `value` is in the range that producers generate.
pub open spec fn is_payload(value: i32) -> bool {
    PAYLOAD_MIN <= value <= PAYLOAD_MAX
}

/// `n` sentinels in a row.
pub open spec fn sentinels(n: nat) -> Seq<i32> {
    Seq::new(n, |i: int| TERMINATION_SIGNAL)
}

/// How many values stand at the front of `queue`, before its first sentinel.
pub open spec fn leading_payloads(queue: Seq<i32>) -> nat
    decreases queue.len(),
{
    if queue.len() == 0 || queue[0] == TERMINATION_SIGNAL {
        0
    } else {
        1 + leading_payloads(queue.drop_first())
    }
}

/// The sentinel lies outside the range of payloads: no value that a producer
/// generates can be taken for the signal to stop.
pub proof fn lemma_sentinel_is_no_payload(value: i32)
    requires
        is_payload(value),
    ensures
        value != TERMINATION_SIGNAL,
{
}

/// The leading values of a queue are no sentinels; unless they are the whole
/// queue, a sentinel follows them.
pub proof fn lemma_leading_payloads(queue: Seq<i32>)
    ensures
        leading_payloads(queue) <= queue.len(),
        forall|i: int| 0 <= i < leading_payloads(queue) ==> queue[i] != TERMINATION_SIGNAL,
        leading_payloads(queue) < queue.len() ==> queue[leading_payloads(queue) as int]
            == TERMINATION_SIGNAL,
    decreases queue.len(),
{
    if queue.len() > 0 && queue[0] != TERMINATION_SIGNAL {
        let rest = queue.drop_first();
        lemma_leading_payloads(rest);
        assert forall|i: int| 0 <= i < leading_payloads(queue) implies queue[i]
            != TERMINATION_SIGNAL by {
            if i > 0 {
                assert(queue[i] == rest[i - 1]);
            }
        }
        if leading_payloads(queue) < queue.len() {
            assert(queue[leading_payloads(queue) as int] == rest[leading_payloads(rest) as int]);
        }
    }
}

/// Payloads followed by at least one sentinel: the leading values are exactly
/// the payloads.
pub proof fn lemma_payloads_lead(payloads: Seq<i32>, n: nat)
    requires
        forall|i: int| 0 <= i < payloads.len() ==> is_payload(payloads[i]),
    ensures
        leading_payloads(payloads + sentinels(n)) == payloads.len(),
    decreases payloads.len(),
{
    let queue = payloads + sentinels(n);
    if payloads.len() > 0 {
        let rest = payloads.drop_first();
        assert(queue[0] == payloads[0]);
        assert forall|i: int| 0 <= i < rest.len() implies is_payload(rest[i]) by {
            assert(rest[i] == payloads[i + 1]);
        }
        lemma_payloads_lead(rest, n);
        assert(queue.drop_first() =~= rest + sentinels(n));
    } else if n > 0 {
        assert(queue[0] == TERMINATION_SIGNAL);
    }
}

/// `rand::rngs::ThreadRng`, the generator that each thread keeps for itself.
/// It is carried through as it is: nothing is known of what it holds.
#[verifier::external_type_specification]
#[verifier::external_body]
pub struct ExThreadRng(rand::rngs::ThreadRng);

/// `rand::thread_rng`: a handle to the calling thread's generator. Nothing is
/// claimed of it. (It takes no argument, so nothing rules out the one way it
/// can fail: it gives up where the operating system has no entropy to seed it
/// with.)
pub assume_specification[ rand::thread_rng ]() -> rand::rngs::ThreadRng
;

/// `rand::Rng::gen_range` on an inclusive range of `i32`: for a range that is
/// not empty, the value drawn lies in the range, both ends included. Which
/// value it is depends on the generator, so nothing more is claimed.
#[verifier::external_body]
fn gen_range(rng: &mut rand::rngs::ThreadRng, low: i32, high: i32) -> (value: i32)
    requires
        low <= high,
    ensures
        low <= value <= high,
{
    rand::Rng::gen_range(rng, low..=high)
}

/// Draws one payload and sends it. The channel gains exactly that value at its
/// back.
pub fn produce(rng: &mut rand::rngs::ThreadRng, tx: &mut Channel<i32>) -> (value: i32)
    requires
        old(tx).is_open(),
    ensures
        is_payload(value),
        final(tx).is_open(),
        final(tx)@ == old(tx)@.push(value),
{
    let value = gen_range(rng, PAYLOAD_MIN, PAYLOAD_MAX);
    let sent = tx.send(value);
    assert(sent is Ok);
    value
}

/// A producer: draws `item_count` payloads and sends each in turn. It sends no
/// sentinel. What was in the channel stays in front, and everything behind it
/// is a payload. The `id` names the producer to whoever keeps a record; it has
/// no part in what is sent.
#[allow(unused_variables)]
pub fn producer(id: usize, tx: &mut Channel<i32>, item_count: usize)
    requires
        old(tx).is_open(),
    ensures
        final(tx).is_open(),
        final(tx)@.len() == old(tx)@.len() + item_count,
        final(tx)@.take(old(tx)@.len() as int) == old(tx)@,
        forall|i: int| old(tx)@.len() <= i < final(tx)@.len() ==> is_payload(final(tx)@[i]),
{
    let mut rng = rand::thread_rng();
    let mut produced: usize = 0;
    while produced < item_count
        invariant
            produced <= item_count,
            tx.is_open(),
            tx@.len() == old(tx)@.len() + produced,
            tx@.take(old(tx)@.len() as int) == old(tx)@,
            forall|i: int| old(tx)@.len() <= i < tx@.len() ==> is_payload(tx@[i]),
        decreases item_count - produced,
    {
        let ghost before = tx@;
        let value = produce(&mut rng, tx);
        produced = produced + 1;
        assert(tx@.take(old(tx)@.len() as int) =~= before.take(old(tx)@.len() as int));
    }
}

/// One receive step of a consumer: the oldest value leaves the channel, if
/// there is one. A payload is handed to the caller to process; the sentinel
/// says `Terminated`.
pub fn consume(rx: &mut Channel<i32>) -> (received: Result<i32, Stop>)
    ensures
        final(rx).is_open() == old(rx).is_open(),
        old(rx)@.len() == 0 ==> final(rx)@ == old(rx)@ && received == Err::<i32, Stop>(
            if old(rx).is_open() {
                Stop::Idle
            } else {
                Stop::Disconnected
            },
        ),
        old(rx)@.len() > 0 ==> final(rx)@ == old(rx)@.drop_first() && received == (if old(rx)@[0]
            == TERMINATION_SIGNAL {
            Err::<i32, Stop>(Stop::Terminated)
        } else {
            Ok::<i32, Stop>(old(rx)@[0])
        }),
{
    match rx.try_recv() {
        Ok(value) => {
            if value == TERMINATION_SIGNAL {
                Err(Stop::Terminated)
            } else {
                Ok(value)
            }
        },
        Err(TryRecvError::Empty) => Err(Stop::Idle),
        Err(TryRecvError::Disconnected) => Err(Stop::Disconnected),
    }
}

/// What one run of a consumer's loop did.
pub struct Consumption {
    /// The values the consumer took before it stopped, in the order it took
    /// them.
    pub payloads: Vec<i32>,
    /// Why the loop stopped.
    pub stop: Stop,
}

/// A consumer: takes value after value until it takes a sentinel or finds the
/// channel empty. It takes exactly the values that stood before the first
/// sentinel, and that sentinel. The `id` names the consumer to whoever keeps a
/// record; it has no part in what is taken.
#[allow(unused_variables)]
pub fn consumer(id: usize, rx: &mut Channel<i32>) -> (consumption: Consumption)
    ensures
        final(rx).is_open() == old(rx).is_open(),
        consumption.payloads@ == old(rx)@.take(leading_payloads(old(rx)@) as int),
        leading_payloads(old(rx)@) < old(rx)@.len() ==> {
            &&& consumption.stop == Stop::Terminated
            &&& final(rx)@ == old(rx)@.skip(leading_payloads(old(rx)@) as int + 1)
        },
        leading_payloads(old(rx)@) == old(rx)@.len() ==> {
            &&& consumption.stop == if old(rx).is_open() {
                Stop::Idle
            } else {
                Stop::Disconnected
            }
            &&& final(rx)@ == Seq::<i32>::empty()
        },
{
    let ghost queue = rx@;
    let mut payloads: Vec<i32> = Vec::new();
    proof {
        lemma_leading_payloads(queue);
    }
    loop
        invariant
            rx.is_open() == old(rx).is_open(),
            queue == old(rx)@,
            payloads@.len() <= leading_payloads(queue) <= queue.len(),
            payloads@ == queue.take(payloads@.len() as int),
            rx@ == queue.skip(payloads@.len() as int),
            leading_payloads(queue) == payloads@.len() + leading_payloads(rx@),
        decreases rx@.len(),
    {
        let ghost before = rx@;
        let ghost taken = payloads@.len() as int;
        match consume(rx) {
            Ok(value) => {
                payloads.push(value);
                proof {
                    assert(before[0] == queue[taken]);
                    assert(rx@ =~= queue.skip(taken + 1));
                    assert(payloads@ =~= queue.take(taken + 1));
                }
            },
            Err(stop) => {
                proof {
                    if before.len() > 0 {
                        assert(before[0] == queue[taken]);
                        assert(rx@ =~= queue.skip(taken + 1));
                    } else {
                        assert(rx@ =~= Seq::<i32>::empty());
                    }
                }
                return Consumption { payloads, stop };
            },
        }
    }
}

/// Releases the consumers: queues exactly one sentinel for each of them behind
/// everything already in flight.
pub fn release_consumers(tx: &mut Channel<i32>, consumers: usize)
    requires
        old(tx).is_open(),
    ensures
        final(tx).is_open(),
        final(tx)@ == old(tx)@ + sentinels(consumers as nat),
{
    let mut sent: usize = 0;
    while sent < consumers
        invariant
            sent <= consumers,
            tx.is_open(),
            tx@ == old(tx)@ + sentinels(sent as nat),
        decreases consumers - sent,
    {
        let queued = tx.send(TERMINATION_SIGNAL);
        assert(queued is Ok);
        sent = sent + 1;
        assert(tx@ =~= old(tx)@ + sentinels(sent as nat));
    }
}


/// Why a pipeline was not set up.
#[derive(Clone, Copy, Debug, PartialEq, Eq, Structural)]
pub enum PipelineError {
    /// The number of producers was zero.
    NoProducers,
    /// The number of consumers was zero.
    NoConsumers,
}

/// What a completed pipeline run did.
#[derive(Clone, Copy, Debug, PartialEq, Eq, Structural)]
pub struct PipelineReport {
    /// How many payloads the producers sent.
    pub produced: usize,
    /// How many payloads the consumers took, all of them together.
    pub consumed: usize,
    /// How many sentinels the orchestrator queued.
    pub sentinels_sent: usize,
    /// How many consumers stopped on a sentinel.
    pub consumers_terminated: usize,
}

/// The orchestrator, on the calling thread: every producer sends its
/// `items_each` payloads; only then one sentinel per consumer is queued; then
/// every consumer runs until it stops. A count of zero producers or zero
/// consumers is rejected before anything is sent. Otherwise every payload is
/// consumed and every consumer stops on a sentinel of its own.
pub fn run_pipeline(producers: usize, consumers: usize, items_each: usize) -> (outcome: Result<
    PipelineReport,
    PipelineError,
>)
    ensures
        producers == 0 ==> outcome == Err::<PipelineReport, PipelineError>(
            PipelineError::NoProducers,
        ),
        producers > 0 && consumers == 0 ==> outcome == Err::<PipelineReport, PipelineError>(
            PipelineError::NoConsumers,
        ),
        producers > 0 && consumers > 0 ==> outcome == Ok::<PipelineReport, PipelineError>(
            (PipelineReport {
                produced: (producers * items_each) as usize,
                consumed: (producers * items_each) as usize,
                sentinels_sent: consumers,
                consumers_terminated: consumers,
            }),
        ) && producers * items_each <= usize::MAX,
{
    if producers == 0 {
        return Err(PipelineError::NoProducers);
    }
    if consumers == 0 {
        return Err(PipelineError::NoConsumers);
    }
    let mut channel: Channel<i32> = Channel::new();
    let mut started: usize = 0;
    while started < producers
        invariant
            started <= producers,
            channel.is_open(),
            channel@.len() == started * items_each,
            forall|i: int| 0 <= i < channel@.len() ==> is_payload(channel@[i]),
        decreases producers - started,
    {
        let ghost before = channel@;
        producer(started, &mut channel, items_each);
        assert forall|i: int| 0 <= i < channel@.len() implies is_payload(channel@[i]) by {
            if i < before.len() {
                assert(channel@[i] == channel@.take(before.len() as int)[i]);
            }
        }
        assert((started + 1) * items_each == started * items_each + items_each)
            by (nonlinear_arith);
        started = started + 1;
    }
    let produced = channel.len();
    let ghost payloads = channel@;
    release_consumers(&mut channel, consumers);

    let mut consumed: usize = 0;
    let mut consumers_terminated: usize = 0;
    let mut id: usize = 0;
    while id < consumers
        invariant
            id <= consumers,
            consumers_terminated == id,
            produced == payloads.len(),
            forall|i: int| 0 <= i < payloads.len() ==> is_payload(payloads[i]),
            id == 0 ==> consumed == 0 && channel@ == payloads + sentinels(consumers as nat),
            id > 0 ==> consumed == produced && channel@ == sentinels((consumers - id) as nat),
        decreases consumers - id,
    {
        let ghost before = channel@;
        let ghost left = (consumers - id) as nat;
        proof {
            if id == 0 {
                lemma_payloads_lead(payloads, left);
            } else {
                lemma_payloads_lead(Seq::<i32>::empty(), left);
                assert(before =~= Seq::<i32>::empty() + sentinels(left));
            }
        }
        let consumption = consumer(id, &mut channel);
        proof {
            assert(channel@ =~= sentinels((left - 1) as nat));
            if id == 0 {
                assert(consumption.payloads@ =~= payloads);
            }
        }
        consumed = consumed + consumption.payloads.len();
        match consumption.stop {
            Stop::Terminated => {
                consumers_terminated = consumers_terminated + 1;
            },
            _ => {},
        }
        id = id + 1;
    }
    Ok(PipelineReport { produced, consumed, sentinels_sent: consumers, consumers_terminated })
}

} // verus!
