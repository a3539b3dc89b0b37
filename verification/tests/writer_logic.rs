use std::sync::Arc;

use tracing_perfetto::annotations::{FieldValue, SpanValue};
use tracing_perfetto::emit::ProtoEmitter;
use tracing_perfetto::intern::Interned;
use tracing_perfetto::message::Message;
use tracing_perfetto::writer::process_messages;

// --- a tiny protobuf wire reader, used only to check the output ---

#[derive(Debug, Clone, PartialEq)]
enum FieldVal {
    Varint(u64),
    Bytes(Vec<u8>),
    Fixed64(u64),
}

fn read_varint(b: &[u8], pos: &mut usize) -> u64 {
    let mut value: u64 = 0;
    let mut shift = 0;
    loop {
        let byte = b[*pos];
        *pos += 1;
        value |= ((byte & 0x7f) as u64) << shift;
        shift += 7;
        if byte & 0x80 == 0 {
            return value;
        }
    }
}

fn fields(b: &[u8]) -> Vec<(u64, FieldVal)> {
    let mut pos = 0;
    let mut out = Vec::new();
    while pos < b.len() {
        let tag = read_varint(b, &mut pos);
        let id = tag >> 3;
        match tag & 7 {
            0 => {
                let v = read_varint(b, &mut pos);
                out.push((id, FieldVal::Varint(v)));
            }
            1 => {
                let mut v: u64 = 0;
                for k in 0..8 {
                    v |= (b[pos + k] as u64) << (8 * k);
                }
                pos += 8;
                out.push((id, FieldVal::Fixed64(v)));
            }
            2 => {
                let len = read_varint(b, &mut pos) as usize;
                out.push((id, FieldVal::Bytes(b[pos..pos + len].to_vec())));
                pos += len;
            }
            other => panic!("unexpected wire type {other}"),
        }
    }
    out
}

/// Split a trace byte string into its packets' field lists.
fn parse_trace(b: &[u8]) -> Vec<Vec<(u64, FieldVal)>> {
    let mut pos = 0;
    let mut packets = Vec::new();
    while pos < b.len() {
        assert_eq!(b[pos], 0x0a, "trace record must be field 1, length-delimited");
        pos += 1;
        let mut lenpos = pos;
        let len = read_varint(b, &mut lenpos) as usize;
        assert_eq!(lenpos - pos, 3, "packet length is a three-byte varint");
        pos = lenpos;
        packets.push(fields(&b[pos..pos + len]));
        pos += len;
    }
    packets
}

fn varint_of(packet: &[(u64, FieldVal)], id: u64) -> Option<u64> {
    packet.iter().find_map(|(fid, v)| match v {
        FieldVal::Varint(n) if *fid == id => Some(*n),
        _ => None,
    })
}

fn bytes_of(packet: &[(u64, FieldVal)], id: u64) -> Option<Vec<u8>> {
    packet.iter().find_map(|(fid, v)| match v {
        FieldVal::Bytes(b) if *fid == id => Some(b.clone()),
        _ => None,
    })
}

/// The interned event-name entries of a packet: `(iid, name)` pairs.
fn event_name_entries(packet: &[(u64, FieldVal)]) -> Vec<(u64, String)> {
    let mut out = Vec::new();
    if let Some(interned) = bytes_of(packet, 12) {
        for (fid, v) in fields(&interned) {
            if fid == 2 {
                if let FieldVal::Bytes(entry) = v {
                    let fs = fields(&entry);
                    let iid = varint_of(&fs, 1).unwrap();
                    let name = match bytes_of(&fs, 2) {
                        Some(n) => String::from_utf8(n).unwrap(),
                        None => String::new(),
                    };
                    out.push((iid, name));
                }
            }
        }
    }
    out
}

fn enter(ts: u64, label: &'static str) -> Message {
    Message::Enter { ts, label, args: None }
}

fn exit_msg(ts: u64, label: &'static str) -> Message {
    Message::Exit { ts, label, args: None }
}

fn run_writer(msgs: &Vec<Message>, tid: u64) -> (Vec<u8>, usize) {
    let mut emitter = ProtoEmitter::new();
    let mut interned = Interned::new();
    let mut out: Vec<u8> = Vec::new();
    let skipped = process_messages(&mut emitter, &mut out, &mut interned, 42, tid, msgs);
    (out, skipped)
}

#[test]
fn single_thread_span_sequence() {
    let msgs = vec![
        Message::NewThread(0, Box::new("thread 0".to_string())),
        enter(10, "fib"),
        enter(20, "fib"),
        enter(30, "fib"),
        exit_msg(40, "fib"),
        exit_msg(45, "fib"),
        exit_msg(50, "fib"),
    ];
    let (out, skipped) = run_writer(&msgs, 0);
    assert_eq!(skipped, 0);
    let packets = parse_trace(&out);
    assert_eq!(packets.len(), 8);

    // Sequence-start packet: cleared state, defaults, timestamp 1.
    let start = &packets[0];
    assert_eq!(varint_of(start, 8), Some(1));
    assert_eq!(varint_of(start, 13), Some(1));
    assert_eq!(varint_of(start, 10), Some(1));
    assert_eq!(varint_of(start, 3), Some(42));
    let defaults = bytes_of(start, 59).expect("packet defaults");
    let dfs = fields(&defaults);
    assert_eq!(varint_of(&dfs, 58), Some(6));
    let ted = bytes_of(&dfs, 11).expect("track event defaults");
    assert_eq!(varint_of(&fields(&ted), 11), Some(8765));

    // Thread descriptor packet.
    let descr = &packets[1];
    assert_eq!(varint_of(descr, 13), Some(2));
    let td = bytes_of(descr, 60).expect("track descriptor");
    let tdf = fields(&td);
    assert_eq!(varint_of(&tdf, 1), Some(8765));
    assert_eq!(bytes_of(&tdf, 2), Some(b"thread 0".to_vec()));

    // The six span packets.
    let expected = [
        (10u64, 1u64),
        (20, 1),
        (30, 1),
        (40, 2),
        (45, 2),
        (50, 2),
    ];
    for (k, (ts, typ)) in expected.iter().enumerate() {
        let p = &packets[2 + k];
        assert_eq!(varint_of(p, 8), Some(*ts), "timestamp order kept");
        assert_eq!(varint_of(p, 13), Some(2), "later packets need state");
        assert_eq!(varint_of(p, 10), Some(1), "sequence id is 1 + thread id");
        let ev = bytes_of(p, 11).expect("track event");
        let evf = fields(&ev);
        assert_eq!(varint_of(&evf, 9), Some(*typ));
        assert_eq!(varint_of(&evf, 10), Some(1), "label uses one interned id");
        let entries = event_name_entries(p);
        if k == 0 {
            assert_eq!(entries, vec![(1, "fib".to_string())]);
        } else {
            assert!(entries.is_empty(), "label is interned exactly once");
        }
    }
}

#[test]
fn interning_resets_between_buffers() {
    let msgs = vec![enter(5, "work"), exit_msg(6, "work")];
    let mut emitter = ProtoEmitter::new();
    let mut interned = Interned::new();
    let mut out: Vec<u8> = Vec::new();
    process_messages(&mut emitter, &mut out, &mut interned, 42, 3, &msgs);
    process_messages(&mut emitter, &mut out, &mut interned, 42, 3, &msgs);
    let packets = parse_trace(&out);
    assert_eq!(packets.len(), 6);
    // Each buffer re-interns the label at id 1 on its first event packet.
    assert_eq!(event_name_entries(&packets[1]), vec![(1, "work".to_string())]);
    assert!(event_name_entries(&packets[2]).is_empty());
    assert_eq!(event_name_entries(&packets[4]), vec![(1, "work".to_string())]);
    assert!(event_name_entries(&packets[5]).is_empty());
    // Both buffers use sequence id 4 and start with a cleared-state packet.
    assert_eq!(varint_of(&packets[0], 13), Some(1));
    assert_eq!(varint_of(&packets[3], 13), Some(1));
    assert_eq!(varint_of(&packets[0], 10), Some(4));
    assert_eq!(varint_of(&packets[3], 10), Some(4));
}

fn args_of(values: Vec<(&'static str, SpanValue)>) -> Option<Arc<Vec<FieldValue>>> {
    Some(Arc::new(
        values
            .into_iter()
            .map(|(name, value)| FieldValue { name, value })
            .collect(),
    ))
}

#[test]
fn args_toggle_changes_annotations_only() {
    let with_args = vec![
        Message::Enter {
            ts: 7,
            label: "step",
            args: args_of(vec![
                ("count", SpanValue::U64(7)),
                ("ok", SpanValue::Bool(true)),
                ("note", SpanValue::Str("x".to_string())),
            ]),
        },
        exit_msg(9, "step"),
    ];
    let without_args = vec![enter(7, "step"), exit_msg(9, "step")];

    let (out_with, _) = run_writer(&with_args, 0);
    let (out_without, _) = run_writer(&without_args, 0);
    let pw = parse_trace(&out_with);
    let pn = parse_trace(&out_without);
    assert_eq!(pw.len(), pn.len(), "same packet count either way");

    let ev_with = fields(&bytes_of(&pw[1], 11).unwrap());
    let ev_without = fields(&bytes_of(&pn[1], 11).unwrap());
    let anns_with: Vec<_> = ev_with.iter().filter(|(id, _)| *id == 4).collect();
    let anns_without: Vec<_> = ev_without.iter().filter(|(id, _)| *id == 4).collect();
    assert_eq!(anns_with.len(), 3);
    assert_eq!(anns_without.len(), 0);

    // The first annotation: interned name id 1, uint value 7.
    if let (_, FieldVal::Bytes(a0)) = &anns_with[0] {
        let af = fields(a0);
        assert_eq!(varint_of(&af, 1), Some(1));
        assert_eq!(varint_of(&af, 3), Some(7));
    } else {
        panic!("annotation is length-delimited");
    }
    // The second: bool value true.
    if let (_, FieldVal::Bytes(a1)) = &anns_with[1] {
        let af = fields(a1);
        assert_eq!(varint_of(&af, 1), Some(2));
        assert_eq!(varint_of(&af, 2), Some(1));
    } else {
        panic!("annotation is length-delimited");
    }
    // The new annotation names ride in the interned data, field 3.
    let interned = bytes_of(&pw[1], 12).expect("interned data");
    let name_entries: Vec<_> = fields(&interned)
        .into_iter()
        .filter(|(id, _)| *id == 3)
        .collect();
    assert_eq!(name_entries.len(), 3);
}

#[test]
fn oversize_annotation_is_skipped() {
    let big = "x".repeat((1 << 21) + 10);
    let msgs = vec![
        enter(1, "before"),
        Message::Event {
            ts: 2,
            label: "huge",
            args: args_of(vec![("blob", SpanValue::Str(big))]),
        },
        enter(3, "after"),
    ];
    let (out, skipped) = run_writer(&msgs, 0);
    assert_eq!(skipped, 1, "exactly the oversize packet is dropped");
    let packets = parse_trace(&out);
    assert_eq!(packets.len(), 3, "one fewer packet than expected");
    // The surrounding packets are intact and in order.
    assert_eq!(varint_of(&packets[1], 8), Some(1));
    assert_eq!(varint_of(&packets[2], 8), Some(3));
    let ev = fields(&bytes_of(&packets[2], 11).unwrap());
    // "after" still gets a fresh interned id; "huge" was interned by the
    // skipped packet, so the id is 3.
    assert_eq!(varint_of(&ev, 10), Some(3));
    assert_eq!(event_name_entries(&packets[2]), vec![(3, "after".to_string())]);
}

#[test]
fn empty_buffer_emits_nothing() {
    let msgs: Vec<Message> = Vec::new();
    let (out, skipped) = run_writer(&msgs, 0);
    assert!(out.is_empty());
    assert_eq!(skipped, 0);
}

#[test]
fn concatenated_buffers_parse_as_one_trace() {
    let mut emitter = ProtoEmitter::new();
    let mut interned = Interned::new();
    let mut out: Vec<u8> = Vec::new();
    for tid in 0..3u64 {
        let msgs = vec![
            Message::NewThread(tid, Box::new(format!("thread {tid}"))),
            enter(10 + tid, "work"),
            exit_msg(20 + tid, "work"),
        ];
        process_messages(&mut emitter, &mut out, &mut interned, 42, tid, &msgs);
    }
    let packets = parse_trace(&out);
    assert_eq!(packets.len(), 12);
    // Sequence ids follow 1 + thread id.
    assert_eq!(varint_of(&packets[0], 10), Some(1));
    assert_eq!(varint_of(&packets[4], 10), Some(2));
    assert_eq!(varint_of(&packets[8], 10), Some(3));
}
