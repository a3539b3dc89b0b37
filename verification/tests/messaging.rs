use std::sync::Arc;

use tracing_perfetto::emit::ProtoEmitter;
use tracing_perfetto::intern::Interned;
use tracing_perfetto::message::{Buffer, FinishedBuf, Message, MessagingState};
use tracing_perfetto::writer::{drain_pending, process_buffer};

fn enter(ts: u64, label: &'static str) -> Message {
    Message::Enter { ts, label, args: None }
}

fn read_varint(b: &[u8], pos: &mut usize) -> u64 {
    let mut value: u64 = 0;
    let mut shift = 0;
    loop {
        let byte = b[*pos];
        *pos += 1;
        value |= ((byte & 0x7f) as u64) << shift;
        shift += 7;
        if byte & 0x80 == 0 {
            return value;
        }
    }
}

/// Count the packets of a trace and collect each packet's
/// `trusted_packet_sequence_id` (field 10) and whether it carries a
/// track event (field 11) or a track descriptor (field 60).
fn packet_summaries(b: &[u8]) -> Vec<(u64, bool, bool)> {
    let mut pos = 0;
    let mut out = Vec::new();
    while pos < b.len() {
        assert_eq!(b[pos], 0x0a);
        pos += 1;
        let mut lenpos = pos;
        let len = read_varint(b, &mut lenpos) as usize;
        assert_eq!(lenpos - pos, 3);
        pos = lenpos;
        let body = &b[pos..pos + len];
        pos += len;
        let mut p = 0;
        let mut seq_id = 0;
        let mut has_event = false;
        let mut has_descr = false;
        while p < body.len() {
            let tag = read_varint(body, &mut p);
            match tag & 7 {
                0 => {
                    let v = read_varint(body, &mut p);
                    if tag >> 3 == 10 {
                        seq_id = v;
                    }
                }
                1 => p += 8,
                2 => {
                    let l = read_varint(body, &mut p) as usize;
                    if tag >> 3 == 11 {
                        has_event = true;
                    }
                    if tag >> 3 == 60 {
                        has_descr = true;
                    }
                    p += l;
                }
                other => panic!("unexpected wire type {other}"),
            }
        }
        out.push((seq_id, has_event, has_descr));
    }
    out
}

#[test]
fn rotation_under_bursts() {
    let (state, recv, _send, pending) = MessagingState::new(2);
    let mut slot: Option<Arc<Buffer>> = None;
    for i in 0..10u64 {
        slot = Some(state.send_message(slot.take(), enter(i, "work"), None));
    }
    // With capacity 2, ten sends (eleven messages with the synthetic
    // first one) finish five buffers; the eleventh message sits in the
    // still-registered buffer.
    let mut finished = Vec::new();
    while let Ok(f) = recv.try_recv() {
        finished.push(f);
    }
    assert_eq!(finished.len(), 5);

    let mut emitter = ProtoEmitter::new();
    let mut interned = Interned::new();
    let mut out: Vec<u8> = Vec::new();
    for f in finished {
        match f {
            FinishedBuf::Buf(buffer) => {
                process_buffer(&mut emitter, &mut out, &mut interned, 42, &buffer);
            }
            FinishedBuf::StopWriterThread => panic!("no stop sentinel was sent"),
        }
    }
    drain_pending(&mut emitter, &mut out, &mut interned, 42, &pending);

    let summaries = packet_summaries(&out);
    let events = summaries.iter().filter(|(_, ev, _)| *ev).count();
    let descriptors = summaries.iter().filter(|(_, _, d)| *d).count();
    assert_eq!(events, 10, "no message is lost or duplicated");
    assert_eq!(descriptors, 1, "one thread announcement");
    // Six processed buffers in all: five finished plus the drained one.
    let starts = summaries.iter().filter(|(_, ev, d)| !*ev && !*d).count();
    assert_eq!(starts, 6);
}

#[test]
fn two_threads_get_distinct_sequences() {
    let (state, recv, _send, pending) = MessagingState::new(16);
    let mut slot_a: Option<Arc<Buffer>> = None;
    let mut slot_b: Option<Arc<Buffer>> = None;
    slot_a = Some(state.send_message(slot_a.take(), enter(1, "work"), Some("alpha")));
    slot_b = Some(state.send_message(slot_b.take(), enter(2, "work"), Some("beta")));
    slot_a = Some(state.send_message(
        slot_a.take(),
        Message::Exit { ts: 3, label: "work", args: None },
        Some("alpha"),
    ));
    slot_b = Some(state.send_message(
        slot_b.take(),
        Message::Exit { ts: 4, label: "work", args: None },
        Some("beta"),
    ));
    assert_eq!(slot_a.as_ref().unwrap().thread_id, 0);
    assert_eq!(slot_b.as_ref().unwrap().thread_id, 1);
    assert!(recv.try_recv().is_err(), "nothing rotated yet");

    let mut emitter = ProtoEmitter::new();
    let mut interned = Interned::new();
    let mut out: Vec<u8> = Vec::new();
    drain_pending(&mut emitter, &mut out, &mut interned, 42, &pending);

    let summaries = packet_summaries(&out);
    let mut seq_ids: Vec<u64> = summaries.iter().map(|(s, _, _)| *s).collect();
    seq_ids.sort();
    seq_ids.dedup();
    assert_eq!(seq_ids, vec![1, 2], "sequence ids are 1 + thread id");
    let events = summaries.iter().filter(|(_, ev, _)| *ev).count();
    assert_eq!(events, 4);
    let descriptors = summaries.iter().filter(|(_, _, d)| *d).count();
    assert_eq!(descriptors, 2);
}

#[test]
fn messages_survive_only_before_shutdown_drain() {
    let (state, recv, _send, pending) = MessagingState::new(4);
    let mut slot: Option<Arc<Buffer>> = None;
    for i in 0..10u64 {
        slot = Some(state.send_message(slot.take(), enter(i, "work"), None));
    }
    // Shutdown: first the finished buffers from the channel, then the
    // registered remainder.
    let mut emitter = ProtoEmitter::new();
    let mut interned = Interned::new();
    let mut out: Vec<u8> = Vec::new();
    while let Ok(FinishedBuf::Buf(buffer)) = recv.try_recv() {
        process_buffer(&mut emitter, &mut out, &mut interned, 42, &buffer);
    }
    drain_pending(&mut emitter, &mut out, &mut interned, 42, &pending);
    let before = packet_summaries(&out).len();
    let events = packet_summaries(&out)
        .iter()
        .filter(|(_, ev, _)| *ev)
        .count();
    assert_eq!(events, 10, "everything sent before the drain is written");

    // A message sent after the drain lands in a fresh registered buffer
    // and does not disturb the producer.
    slot = Some(state.send_message(slot.take(), enter(99, "late"), None));
    assert!(slot.is_some());
    assert_eq!(packet_summaries(&out).len(), before);
}

#[test]
fn send_without_receiver_is_swallowed() {
    let (state, recv, _send, _pending) = MessagingState::new(2);
    drop(recv);
    let mut slot: Option<Arc<Buffer>> = None;
    for i in 0..10u64 {
        slot = Some(state.send_message(slot.take(), enter(i, "work"), None));
    }
    assert_eq!(slot.unwrap().thread_id, 0);
}

#[test]
fn rotation_with_capacity_four() {
    let (state, recv, _send, pending) = MessagingState::new(4);
    let mut slot: Option<Arc<Buffer>> = None;
    for i in 0..10u64 {
        slot = Some(state.send_message(slot.take(), enter(i, "work"), None));
    }
    for i in 0..10u64 {
        slot = Some(state.send_message(
            slot.take(),
            Message::Exit { ts: 100 + i, label: "work", args: None },
            None,
        ));
    }
    let mut finished = Vec::new();
    while let Ok(f) = recv.try_recv() {
        finished.push(f);
    }
    assert_eq!(finished.len(), 5, "twenty messages in rings of four");

    let mut emitter = ProtoEmitter::new();
    let mut interned = Interned::new();
    let mut out: Vec<u8> = Vec::new();
    for f in finished {
        if let FinishedBuf::Buf(buffer) = f {
            process_buffer(&mut emitter, &mut out, &mut interned, 42, &buffer);
        }
    }
    drain_pending(&mut emitter, &mut out, &mut interned, 42, &pending);
    let summaries = packet_summaries(&out);
    let events = summaries.iter().filter(|(_, ev, _)| *ev).count();
    assert_eq!(events, 20, "interning resets per buffer lose nothing");
    let starts = summaries.iter().filter(|(_, ev, d)| !*ev && !*d).count();
    assert_eq!(starts, 6, "five finished buffers and the drained one");
}
