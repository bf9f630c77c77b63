use taskpool::channel::Channel;
use taskpool::model::Stop;
use taskpool::pipeline::{
    consume, consumer, produce, producer, release_consumers, run_pipeline, PipelineError,
    PipelineReport, PAYLOAD_MAX, PAYLOAD_MIN, TERMINATION_SIGNAL,
};

#[test]
fn two_producers_three_consumers() {
    let report = run_pipeline(2, 3, 10);
    assert_eq!(
        report,
        Ok(PipelineReport { produced: 20, consumed: 20, sentinels_sent: 3, consumers_terminated: 3 })
    );
}

#[test]
fn pipeline_counts_for_other_sizes() {
    assert_eq!(
        run_pipeline(1, 1, 0),
        Ok(PipelineReport { produced: 0, consumed: 0, sentinels_sent: 1, consumers_terminated: 1 })
    );
    assert_eq!(
        run_pipeline(7, 5, 13),
        Ok(PipelineReport { produced: 91, consumed: 91, sentinels_sent: 5, consumers_terminated: 5 })
    );
}

#[test]
fn pipeline_without_producers_is_rejected() {
    assert_eq!(run_pipeline(0, 3, 10), Err(PipelineError::NoProducers));
    assert_eq!(run_pipeline(0, 0, 10), Err(PipelineError::NoProducers));
}

#[test]
fn pipeline_without_consumers_is_rejected() {
    assert_eq!(run_pipeline(2, 0, 10), Err(PipelineError::NoConsumers));
}

#[test]
fn sentinel_lies_outside_the_payload_range() {
    assert_eq!(TERMINATION_SIGNAL, -1);
    assert_eq!(PAYLOAD_MIN, 1);
    assert_eq!(PAYLOAD_MAX, 100);
    assert!(!(PAYLOAD_MIN..=PAYLOAD_MAX).contains(&TERMINATION_SIGNAL));
    for value in PAYLOAD_MIN..=PAYLOAD_MAX {
        assert_ne!(value, TERMINATION_SIGNAL);
    }
}

#[test]
fn produced_values_are_payloads_and_vary() {
    let mut rng = rand::thread_rng();
    let mut channel = Channel::new();
    let mut drawn = Vec::new();
    for _ in 0..400 {
        let value = produce(&mut rng, &mut channel);
        assert!((PAYLOAD_MIN..=PAYLOAD_MAX).contains(&value));
        assert_ne!(value, TERMINATION_SIGNAL);
        drawn.push(value);
    }
    assert_eq!(channel.len(), 400);
    // The channel holds what was drawn, in the order it was drawn.
    for value in &drawn {
        assert_eq!(channel.try_recv(), Ok(*value));
    }
    // A generator that always answered with one end of the range would not
    // pass here.
    assert!(drawn.iter().any(|value| *value != PAYLOAD_MIN));
    assert!(drawn.iter().any(|value| *value != PAYLOAD_MAX));
    assert!(drawn.iter().any(|value| *value != drawn[0]));
}

#[test]
fn producer_appends_behind_what_is_queued() {
    let mut channel = Channel::new();
    assert!(channel.send(-7).is_ok());
    assert!(channel.send(1000).is_ok());
    producer(0, &mut channel, 10);
    assert_eq!(channel.len(), 12);
    assert_eq!(channel.try_recv(), Ok(-7));
    assert_eq!(channel.try_recv(), Ok(1000));
    let mut count = 0;
    while let Ok(value) = channel.try_recv() {
        assert!((PAYLOAD_MIN..=PAYLOAD_MAX).contains(&value));
        count += 1;
    }
    assert_eq!(count, 10);
}

#[test]
fn producer_of_nothing_sends_nothing() {
    let mut channel: Channel<i32> = Channel::new();
    producer(3, &mut channel, 0);
    assert!(channel.is_empty());
    assert!(channel.is_open());
}

#[test]
fn consume_tells_payload_from_sentinel() {
    let mut channel = Channel::new();
    assert_eq!(consume(&mut channel), Err(Stop::Idle));
    assert!(channel.send(42).is_ok());
    assert!(channel.send(TERMINATION_SIGNAL).is_ok());
    assert!(channel.send(17).is_ok());
    assert_eq!(consume(&mut channel), Ok(42));
    assert_eq!(consume(&mut channel), Err(Stop::Terminated));
    assert_eq!(channel.len(), 1);
    assert_eq!(consume(&mut channel), Ok(17));
    channel.close();
    assert_eq!(consume(&mut channel), Err(Stop::Disconnected));
}

#[test]
fn consumer_stops_at_the_first_sentinel() {
    let mut channel = Channel::new();
    for value in [5, 90, 1, TERMINATION_SIGNAL, 33, TERMINATION_SIGNAL] {
        assert!(channel.send(value).is_ok());
    }
    let first = consumer(0, &mut channel);
    assert_eq!(first.payloads, vec![5, 90, 1]);
    assert_eq!(first.stop, Stop::Terminated);
    assert_eq!(channel.len(), 2);
    let second = consumer(1, &mut channel);
    assert_eq!(second.payloads, vec![33]);
    assert_eq!(second.stop, Stop::Terminated);
    assert!(channel.is_empty());
    let third = consumer(2, &mut channel);
    assert_eq!(third.payloads, Vec::<i32>::new());
    assert_eq!(third.stop, Stop::Idle);
}

#[test]
fn consumer_without_sentinel_takes_everything_and_would_wait() {
    let mut channel = Channel::new();
    for value in [4, 8, 15] {
        assert!(channel.send(value).is_ok());
    }
    channel.close();
    let run = consumer(0, &mut channel);
    assert_eq!(run.payloads, vec![4, 8, 15]);
    assert_eq!(run.stop, Stop::Disconnected);
    assert!(channel.is_empty());
}

#[test]
fn release_queues_one_sentinel_per_consumer() {
    let mut channel = Channel::new();
    assert!(channel.send(12).is_ok());
    release_consumers(&mut channel, 3);
    assert_eq!(channel.len(), 4);
    assert_eq!(channel.try_recv(), Ok(12));
    for _ in 0..3 {
        assert_eq!(channel.try_recv(), Ok(TERMINATION_SIGNAL));
    }
    assert!(channel.is_empty());
    release_consumers(&mut channel, 0);
    assert!(channel.is_empty());
}

#[test]
fn consumers_in_any_order_share_the_payloads() {
    // Three consumers take turns one value at a time; together they see every
    // payload once, and each stops on a sentinel of its own.
    let mut channel = Channel::new();
    producer(0, &mut channel, 10);
    producer(1, &mut channel, 10);
    release_consumers(&mut channel, 3);
    let mut seen = [0usize; 3];
    let mut stopped = [false; 3];
    let mut turn = 0;
    while stopped.iter().any(|done| !done) {
        turn = (turn + 2) % 3;
        if stopped[turn] {
            continue;
        }
        match consume(&mut channel) {
            Ok(value) => {
                assert_ne!(value, TERMINATION_SIGNAL);
                seen[turn] += 1;
            }
            Err(Stop::Terminated) => stopped[turn] = true,
            Err(other) => panic!("unexpected {:?}", other),
        }
    }
    assert_eq!(seen.iter().sum::<usize>(), 20);
    assert!(channel.is_empty());
}
