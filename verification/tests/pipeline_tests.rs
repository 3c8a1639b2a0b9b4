use queue_drain::message::Message;
use queue_drain::pipeline::{run_batch, ChannelMessage, Pipeline, SinkStep};
use queue_drain::worker::{worker_step, WorkerAction, WorkerState, WorkerEvent};
use queue_drain::clock::now;

fn item(index: i32) -> Message {
    Message {
        index,
        wday: 2,
        payload: format!("payload-{}", index),
        price_cents: 500,
        user_id: 9,
        total_cents: 0,
    }
}

fn is_hex(s: &str) -> bool {
    s.chars().all(|c| c.is_ascii_hexdigit() && !c.is_ascii_uppercase())
}

#[test]
fn three_items_then_idle() {
    // Queue holds 3 items then goes idle; pool of 2, capacity 256.
    let mut p = Pipeline::new(2, 256);
    assert!(p.try_deliver(0, item(1)).is_none());
    assert!(p.try_deliver(1, item(2)).is_none());
    assert!(p.try_deliver(0, item(3)).is_none());
    // both workers then hit the idle expiry
    p.worker_finished(0);
    p.worker_finished(1);
    assert!(p.supervisor_send_shutdown());
    let mut finished = false;
    while !finished {
        match p.sink_step(now()) {
            SinkStep::Finished => finished = true,
            SinkStep::Processed => {}
            SinkStep::Empty => panic!("the channel drained before the marker"),
        }
    }
    assert_eq!(p.records.len(), 3);
    assert_eq!(p.records[0].index_text, "1");
    assert_eq!(p.records[1].index_text, "2");
    assert_eq!(p.records[2].index_text, "3");
    for row in &p.records {
        assert!(!row.timestamp.is_empty());
        assert!(row.timestamp.chars().all(|c| c.is_ascii_digit()));
        assert_eq!(row.fingerprint.len(), 32);
        assert!(is_hex(&row.fingerprint));
    }
    assert!(p.channel.is_empty());
}

#[test]
fn empty_queue_from_the_start() {
    let mut p = Pipeline::new(2, 256);
    p.worker_finished(0);
    p.worker_finished(1);
    assert!(p.supervisor_send_shutdown());
    match p.sink_step(now()) {
        SinkStep::Finished => {}
        _ => panic!("the marker should be first"),
    }
    assert_eq!(p.records.len(), 0);
}

#[test]
fn one_good_item_one_malformed() {
    // One item decodes; the next payload is malformed and ends that worker.
    let mut p = Pipeline::new(2, 256);
    assert!(p.try_deliver(0, item(5)).is_none());
    let (s, a) = worker_step(WorkerState::Running, WorkerEvent::BadPayload);
    assert!(matches!(s, WorkerState::Terminated));
    assert!(matches!(a, WorkerAction::Stop));
    p.worker_finished(0);
    p.worker_finished(1);
    assert!(p.supervisor_send_shutdown());
    assert!(matches!(p.sink_step(now()), SinkStep::Processed));
    assert!(matches!(p.sink_step(now()), SinkStep::Finished));
    assert_eq!(p.records.len(), 1);
    assert_eq!(p.records[0].index_text, "5");
}

#[test]
fn record_fingerprint_covers_derived_total() {
    // The sink transforms before fingerprinting: 500 less 10% is 450.
    let mut p = Pipeline::new(1, 8);
    assert!(p.try_deliver(0, item(4)).is_none());
    p.worker_finished(0);
    assert!(p.supervisor_send_shutdown());
    assert!(matches!(p.sink_step(now()), SinkStep::Processed));
    let expected = format!("{:x}", md5::compute("4,2,payload-4,500,9,450"));
    assert_eq!(p.records[0].fingerprint, expected);
}

#[test]
fn full_channel_hands_the_item_back() {
    let mut p = Pipeline::new(2, 1);
    assert!(p.try_deliver(0, item(1)).is_none());
    let back = p.try_deliver(1, item(2));
    let returned = back.expect("a full channel must refuse the item");
    assert_eq!(returned.index, 2);
    assert_eq!(p.channel.len(), 1);
    // once the sink drains, the send goes through
    assert!(matches!(p.sink_step(now()), SinkStep::Processed));
    assert!(p.try_deliver(1, returned).is_none());
    assert_eq!(p.records.len(), 1);
}

#[test]
fn shutdown_waits_for_room() {
    let mut p = Pipeline::new(1, 1);
    assert!(p.try_deliver(0, item(1)).is_none());
    p.worker_finished(0);
    // channel full: the supervisor cannot place the marker yet
    assert!(!p.supervisor_send_shutdown());
    assert!(matches!(p.sink_step(now()), SinkStep::Processed));
    assert!(p.supervisor_send_shutdown());
    assert!(matches!(p.sink_step(now()), SinkStep::Finished));
    assert_eq!(p.records.len(), 1);
}

#[test]
fn marker_is_last_in_channel() {
    let mut p = Pipeline::new(1, 8);
    assert!(p.try_deliver(0, item(1)).is_none());
    assert!(p.try_deliver(0, item(2)).is_none());
    p.worker_finished(0);
    assert!(p.supervisor_send_shutdown());
    assert_eq!(p.channel.len(), 3);
    assert!(matches!(p.channel[0], ChannelMessage::Item(_)));
    assert!(matches!(p.channel[1], ChannelMessage::Item(_)));
    assert!(matches!(p.channel[2], ChannelMessage::Shutdown));
}

#[test]
fn drain_runs_to_completion() {
    let mut p = Pipeline::new(3, 16);
    assert!(p.try_deliver(0, item(1)).is_none());
    assert!(p.try_deliver(1, item(2)).is_none());
    assert!(p.try_deliver(2, item(3)).is_none());
    assert!(p.try_deliver(0, item(4)).is_none());
    p.worker_finished(0);
    p.worker_finished(1);
    p.worker_finished(2);
    assert!(p.supervisor_send_shutdown());
    p.drain();
    assert!(p.shutdown_received);
    assert!(p.channel.is_empty());
    assert_eq!(p.records.len(), 4);
    // each item was persisted in channel order, transformed before hashing
    for (row, idx) in p.records.iter().zip([1, 2, 3, 4]) {
        assert_eq!(row.index_text, idx.to_string());
        let encoded = format!("{},2,payload-{},500,9,450", idx, idx);
        assert_eq!(row.fingerprint, format!("{:x}", md5::compute(encoded)));
        assert!(row.timestamp.chars().all(|c| c.is_ascii_digit()));
    }
}

#[test]
fn run_batch_whole_protocol() {
    let p = run_batch(vec![item(1), item(2), item(3)], 2, 256);
    assert!(p.shutdown_received);
    assert!(p.channel.is_empty());
    assert_eq!(p.records.len(), 3);
    for (row, idx) in p.records.iter().zip([1, 2, 3]) {
        assert_eq!(row.index_text, idx.to_string());
        let encoded = format!("{},2,payload-{},500,9,450", idx, idx);
        assert_eq!(row.fingerprint, format!("{:x}", md5::compute(encoded)));
        assert!(!row.timestamp.is_empty());
        assert!(row.timestamp.chars().all(|c| c.is_ascii_digit()));
    }
}

#[test]
fn run_batch_empty_queue() {
    let p = run_batch(Vec::new(), 4, 8);
    assert!(p.shutdown_received);
    assert_eq!(p.records.len(), 0);
    assert!(p.channel.is_empty());
}

#[test]
fn worker_terminates_on_idle() {
    let (s, a) = worker_step(WorkerState::Running, WorkerEvent::QueueIdle);
    assert!(matches!(s, WorkerState::Terminated));
    assert!(matches!(a, WorkerAction::Stop));
}

#[test]
fn worker_forwards_decoded_items() {
    let (s, a) = worker_step(WorkerState::Running, WorkerEvent::Decoded(item(3)));
    assert!(matches!(s, WorkerState::Running));
    match a {
        WorkerAction::Forward(m) => assert_eq!(m.index, 3),
        WorkerAction::Stop => panic!("a decoded item must be forwarded"),
    }
}

#[test]
fn worker_stays_terminated() {
    let (s, _) = worker_step(WorkerState::Terminated, WorkerEvent::Decoded(item(1)));
    assert!(matches!(s, WorkerState::Terminated));
    let (s, _) = worker_step(WorkerState::Terminated, WorkerEvent::SendRefused);
    assert!(matches!(s, WorkerState::Terminated));
}

#[test]
fn now_is_all_digits() {
    let t = now();
    assert!(!t.is_empty());
    assert!(t.chars().all(|c| c.is_ascii_digit()));
}
