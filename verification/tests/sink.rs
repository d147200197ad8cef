use tokio::sync::mpsc::Receiver;
use ys_coding_agent::channel::{ChannelSink, EmitStep, Envelope, EventError, LifecyclePolicy, Source};

fn rt() -> tokio::runtime::Runtime {
    tokio::runtime::Runtime::new().unwrap()
}

/// Sends an event waiting for room: the backlog first, then the event.
async fn emit(sink: &mut ChannelSink<String>, event: String) -> Result<(), EventError> {
    let mut op = ChannelSink::start_emit(event);
    loop {
        match sink.emit_next(&mut op) {
            EmitStep::Send(env) => {
                if let Err(e) = sink.sender().send(env).await {
                    return sink.emit_refused(e.0);
                }
            }
            EmitStep::Done => return Ok(()),
        }
    }
}

fn drain(rx: &mut Receiver<Envelope<String>>) -> Vec<(u32, String)> {
    let mut got = Vec::new();
    while let Ok(env) = rx.try_recv() {
        got.push((env.turn, env.event));
    }
    got
}

fn names(n: usize) -> Vec<String> {
    (0..n).map(|i| format!("e{i}")).collect()
}

#[test]
fn try_emit_delivers_envelope() {
    let (mut sink, mut rx) = ChannelSink::new(4, LifecyclePolicy::StopWhenConsumerGone);
    assert!(sink.try_emit("a".to_string()).is_ok());
    assert!(sink.try_emit("b".to_string()).is_ok());
    let env1 = rx.try_recv().unwrap();
    let env2 = rx.try_recv().unwrap();
    assert_eq!(env1.event, "a");
    assert_eq!(env2.event, "b");
    assert_eq!(env1.turn, 0);
    assert_eq!(env1.source, Source::agent());
    assert_eq!(env2.source, Source::agent());
}

#[test]
fn full_buffers_internally_without_loss() {
    let (mut sink, mut rx) = ChannelSink::new(2, LifecyclePolicy::StopWhenConsumerGone);
    let events = names(6);
    for ev in events.iter().take(5) {
        assert!(sink.try_emit(ev.clone()).is_ok());
    }
    assert_eq!(sink.stats().buffered, 3);
    let got = rt().block_on(async move {
        let collector = tokio::spawn(async move {
            let mut got = Vec::new();
            for _ in 0..6 {
                got.push(rx.recv().await.unwrap().event);
            }
            got
        });
        assert!(emit(&mut sink, events[5].clone()).await.is_ok());
        collector.await.unwrap()
    });
    assert_eq!(got, names(6));
}

#[test]
fn emit_flushes_overflow_first() {
    let (mut sink, rx) = ChannelSink::new(1, LifecyclePolicy::StopWhenConsumerGone);
    for ev in names(4) {
        assert!(sink.try_emit(ev).is_ok());
    }
    assert_eq!(sink.stats().buffered, 3);
    let got = rt().block_on(async move {
        let mut rx = rx;
        let collector = tokio::spawn(async move {
            let mut got = Vec::new();
            for _ in 0..5 {
                got.push(rx.recv().await.unwrap().event);
            }
            got
        });
        assert!(emit(&mut sink, "terminal".to_string()).await.is_ok());
        collector.await.unwrap()
    });
    let mut expected = names(4);
    expected.push("terminal".to_string());
    assert_eq!(got, expected);
}

#[test]
fn closed_stop_returns_event() {
    let (mut sink, rx) = ChannelSink::new(4, LifecyclePolicy::StopWhenConsumerGone);
    drop(rx);
    assert_eq!(sink.try_emit("gone".to_string()), Err("gone".to_string()));
    assert!(sink.stats().consumer_gone);
}

#[test]
fn closed_continue_swallows() {
    let (mut sink, rx) = ChannelSink::new(4, LifecyclePolicy::ContinueWithoutConsumer);
    drop(rx);
    assert!(sink.try_emit("gone".to_string()).is_ok());
    assert!(sink.stats().consumer_gone);
    assert_eq!(sink.stats().buffered, 0);
}

#[test]
fn begin_turn_sets_envelope_turn() {
    let (mut sink, mut rx) = ChannelSink::new(4, LifecyclePolicy::StopWhenConsumerGone);
    sink.begin_turn(3);
    assert!(sink.try_emit("t".to_string()).is_ok());
    assert_eq!(drain(&mut rx), vec![(3, "t".to_string())]);
}

#[test]
fn backpressure_waits_counted() {
    let (mut sink, _rx) = ChannelSink::new(1, LifecyclePolicy::StopWhenConsumerGone);
    for ev in names(4) {
        assert!(sink.try_emit(ev).is_ok());
    }
    let stats = sink.stats();
    assert_eq!(stats.backpressure_waits, 3);
    assert_eq!(stats.buffered, 3);
}

#[test]
fn overflow_preserves_turn_across_turns() {
    let (mut sink, mut rx) = ChannelSink::new(1, LifecyclePolicy::StopWhenConsumerGone);
    sink.begin_turn(1);
    assert!(sink.try_emit("A".to_string()).is_ok());
    assert!(sink.try_emit("B".to_string()).is_ok());
    assert_eq!(sink.stats().buffered, 1);
    sink.begin_turn(2);
    let got = rt().block_on(async move {
        let collector = tokio::spawn(async move {
            let mut got = Vec::new();
            for _ in 0..3 {
                let env = rx.recv().await.unwrap();
                got.push((env.turn, env.event));
            }
            got
        });
        assert!(emit(&mut sink, "C".to_string()).await.is_ok());
        collector.await.unwrap()
    });
    assert_eq!(got, vec![(1, "A".to_string()), (1, "B".to_string()), (2, "C".to_string())]);
}

#[test]
fn emit_flush_failure_retains_event() {
    let (mut sink, rx) = ChannelSink::new(1, LifecyclePolicy::ContinueWithoutConsumer);
    assert!(sink.try_emit("A".to_string()).is_ok());
    assert!(sink.try_emit("B".to_string()).is_ok());
    assert_eq!(sink.stats().buffered, 1);
    drop(rx);
    let r = rt().block_on(emit(&mut sink, "C".to_string()));
    assert!(r.is_ok());
    assert!(sink.stats().consumer_gone);
    assert_eq!(sink.stats().buffered, 1);
    // The envelope that failed to go out is the one kept.
    let mut op = ChannelSink::start_emit("D".to_string());
    match sink.emit_next(&mut op) {
        EmitStep::Send(env) => {
            assert_eq!(env.event, "B");
            assert_eq!(env.turn, 0);
        }
        EmitStep::Done => panic!("the backlog keeps the envelope"),
    }
}

#[test]
fn emit_to_gone_consumer_stops_by_policy() {
    let (mut sink, rx) = ChannelSink::new(1, LifecyclePolicy::StopWhenConsumerGone);
    drop(rx);
    let r = rt().block_on(emit(&mut sink, "X".to_string()));
    assert_eq!(r, Err(EventError::SendFailed));
    assert_eq!(sink.stats().buffered, 1);
}

fn assert_no_deadlock_at_capacity(capacity: usize, deltas: usize) {
    let (mut sink, mut rx) = ChannelSink::new(capacity, LifecyclePolicy::StopWhenConsumerGone);
    let got = rt().block_on(async move {
        let consumer = tokio::spawn(async move {
            let mut got = Vec::new();
            while let Some(env) = rx.recv().await {
                let done = env.event == "finished";
                got.push(env.event);
                if done {
                    break;
                }
            }
            got
        });
        let produce = async {
            for ev in names(deltas) {
                emit(&mut sink, ev).await.unwrap();
            }
            emit(&mut sink, "finished".to_string()).await.unwrap();
        };
        let produced = tokio::time::timeout(std::time::Duration::from_secs(5), produce).await;
        assert!(produced.is_ok(), "capacity={capacity}: emitting must not hang");
        tokio::time::timeout(std::time::Duration::from_secs(5), consumer).await.unwrap().unwrap()
    });
    let mut expected = names(deltas);
    expected.push("finished".to_string());
    assert_eq!(got, expected);
}

#[test]
fn small_channel_no_deadlock_capacity_1() {
    assert_no_deadlock_at_capacity(1, 5);
}

#[test]
fn small_channel_no_deadlock_capacity_2() {
    assert_no_deadlock_at_capacity(2, 6);
}

#[test]
fn try_emits_lose_nothing_while_the_consumer_reads() {
    let (mut sink, mut rx) = ChannelSink::new(2, LifecyclePolicy::StopWhenConsumerGone);
    let events = names(7);
    for ev in events.iter().take(5) {
        assert!(sink.try_emit(ev.clone()).is_ok());
    }
    let mut got: Vec<String> = drain(&mut rx).into_iter().map(|(_, e)| e).collect();
    assert_eq!(got, names(2));
    assert!(sink.try_emit(events[5].clone()).is_ok());
    got.extend(drain(&mut rx).into_iter().map(|(_, e)| e));
    assert_eq!(sink.stats().buffered, 2);
    assert!(sink.try_emit(events[6].clone()).is_ok());
    got.extend(drain(&mut rx).into_iter().map(|(_, e)| e));
    assert_eq!(got, names(6));
    assert_eq!(sink.stats().buffered, 1);
    assert_eq!(sink.stats().backpressure_waits, 5);
}
