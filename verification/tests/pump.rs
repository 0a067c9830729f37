use shaman_core::pump::{PumpAction, PumpEvent};
use shaman_core::{CoalesceConfig, Coalescer};

fn cfg(idle_gap: u64, max_delay: u64, max_bytes: usize) -> CoalesceConfig {
    CoalesceConfig { idle_gap, max_delay, max_bytes }
}

/// Feed events at the given times, collecting every delivered batch.
fn drive(c: &mut Coalescer, events: Vec<(PumpEvent, u64)>) -> (Vec<Vec<u8>>, Vec<String>) {
    let mut batches = Vec::new();
    let mut trace = Vec::new();
    for (e, now) in events {
        match c.step(e, now) {
            PumpAction::Receive => trace.push("receive".to_string()),
            PumpAction::ReceiveWithin(ms) => trace.push(format!("wait {ms}")),
            PumpAction::Deliver(b) => {
                trace.push("deliver".to_string());
                batches.push(b);
            }
            PumpAction::DeliverAndStop(b) => {
                trace.push("deliver+stop".to_string());
                batches.push(b);
            }
            PumpAction::Stop => trace.push("stop".to_string()),
        }
    }
    (batches, trace)
}

#[test]
fn the_defaults_are_a_few_milliseconds_and_a_frame() {
    let d = CoalesceConfig::default();
    assert_eq!((d.idle_gap, d.max_delay, d.max_bytes), (3, 16, 64 * 1024));
}

#[test]
fn many_small_writes_collapse_into_few_batches() {
    let mut c = Coalescer::new(CoalesceConfig::default());
    let mut events = Vec::new();
    for i in 0..500u64 {
        events.push((PumpEvent::Chunk(b"x".to_vec()), i / 100));
    }
    events.push((PumpEvent::Closed, 5));
    let (batches, _) = drive(&mut c, events);
    let total: usize = batches.iter().map(|b| b.len()).sum();
    assert_eq!(total, 500, "no bytes may be lost");
    assert!(batches.len() < 50, "expected heavy coalescing, got {} batches", batches.len());
}

#[test]
fn flushes_early_once_max_bytes_is_reached() {
    let mut c = Coalescer::new(cfg(30_000, 30_000, 1024));
    let events = vec![
        (PumpEvent::Chunk(vec![b'y'; 512]), 0),
        (PumpEvent::Chunk(vec![b'y'; 512]), 0),
        (PumpEvent::Chunk(vec![b'y'; 512]), 0),
        (PumpEvent::Chunk(vec![b'y'; 512]), 0),
        (PumpEvent::Closed, 0),
    ];
    let (batches, trace) = drive(&mut c, events);
    assert_eq!(trace, ["wait 30000", "deliver", "wait 30000", "deliver", "stop"]);
    let total: usize = batches.iter().map(|b| b.len()).sum();
    assert_eq!(total, 2048);
}

#[test]
fn a_quiet_stream_flushes_on_the_idle_gap() {
    let mut c = Coalescer::new(cfg(3, 30_000, 1024 * 1024));
    let (batches, trace) = drive(
        &mut c,
        vec![(PumpEvent::Chunk(b"$ ".to_vec()), 100), (PumpEvent::Quiet, 103)],
    );
    assert_eq!(trace, ["wait 3", "deliver"]);
    assert_eq!(batches.concat(), b"$ ".to_vec());
}

#[test]
fn a_lone_byte_still_arrives() {
    let mut c = Coalescer::new(CoalesceConfig::default());
    let (batches, trace) = drive(&mut c, vec![(PumpEvent::Chunk(b"q".to_vec()), 0), (PumpEvent::Closed, 1)]);
    assert_eq!(trace, ["wait 3", "deliver+stop"]);
    assert_eq!(batches.concat(), b"q".to_vec());
}

#[test]
fn a_flood_is_cut_at_the_deadline() {
    let mut c = Coalescer::new(cfg(3, 16, 1 << 20));
    let (batches, trace) = drive(
        &mut c,
        vec![
            (PumpEvent::Chunk(b"a".to_vec()), 0),
            (PumpEvent::Chunk(b"b".to_vec()), 14),
            (PumpEvent::Chunk(b"c".to_vec()), 16),
            (PumpEvent::Chunk(b"d".to_vec()), 17),
        ],
    );
    assert_eq!(trace, ["wait 3", "wait 2", "deliver", "wait 3"]);
    assert_eq!(batches, vec![b"abc".to_vec()]);
}

#[test]
fn once_stopped_nothing_more_happens() {
    let mut c = Coalescer::new(CoalesceConfig::default());
    let (_, trace) = drive(
        &mut c,
        vec![(PumpEvent::Closed, 0), (PumpEvent::Chunk(b"late".to_vec()), 1), (PumpEvent::Quiet, 2)],
    );
    assert_eq!(trace, ["stop", "stop", "stop"]);
}

#[test]
fn quiet_with_nothing_pending_just_waits() {
    let mut c = Coalescer::new(CoalesceConfig::default());
    let (_, trace) = drive(&mut c, vec![(PumpEvent::Quiet, 0)]);
    assert_eq!(trace, ["receive"]);
}

#[test]
fn a_wait_never_runs_past_the_deadline_nor_the_idle_gap() {
    let mut c = Coalescer::new(cfg(10, 16, 100));
    let (batches, trace) = drive(
        &mut c,
        vec![(PumpEvent::Chunk(b"ab".to_vec()), 0), (PumpEvent::Chunk(b"cd".to_vec()), 12)],
    );
    assert!(batches.is_empty());
    assert_eq!(trace, ["wait 10", "wait 4"]);
}
