//! The writer side: turning one finished buffer's messages into trace
//! bytes.
//!
//! Each processed buffer opens a fresh packet sequence: the interning
//! dictionary is reset and a sequence-start packet goes out first, then
//! one packet per message.  A packet whose submessage outgrows its
//! fixed-width length field is skipped; everything else of the buffer is
//! still written.  The embedding runtime receives finished buffers from
//! the channel, calls down here, and writes the returned bytes to the
//! output file.

use vstd::prelude::*;

use std::sync::Arc;

use crate::annotations::{FieldValue, FieldValueV, SpanValue, SpanValueV};
use crate::emit::{extend_bytes, nested_enc, varint_dec, ProtoEmitter};
use crate::intern::{
    has_name, intern_after, intern_empty, name_iid, InternView, Interned,
};
use crate::message::{Buffer, Message, Timestamp};
use crate::packet::{
    trace_packet_defaults_enc, trace_packet_enc, trace_packet_fits, track_event_defaults_enc,
    varint_field_enc, DebugAnnotation, DebugAnnotationName, DebugAnnotationNameV, DebugAnnotationV,
    DebugValue, DebugValueV, Emit, EventName, EventNameV, EventType, IString, IStringV,
    InternedData, InternedDataV, PacketData, PacketDataV, TracePacket, TracePacketDefaults,
    TracePacketV, TrackDescriptor, TrackDescriptorV, TrackEvent, TrackEventDefaults, TrackEventV,
    SEQ_INCREMENTAL_STATE_CLEARED, SEQ_NEEDS_INCREMENTAL_STATE,
};
use crate::shims::{queue_len, queue_pop};

verus! {

/// The fixed trusted uid stamped on every packet of a run.
pub const TRUSTED_UID: i32 = 42;

/// The clock id every sequence declares for its timestamps.
pub const TIMESTAMP_CLOCK_ID: u32 = 6;

/// The stable, nonzero multiplier that turns a thread id into the
/// track uuid of that thread's track.
pub const TRACK_UUID_STEP: u64 = 8765;

/// The track uuid of a thread's track.
pub open spec fn track_uuid_of(tid: u64) -> u64 {
    (8765 * (tid + 1)) as u64
}

/// The sequence id of a thread's packet sequence.
pub open spec fn seq_id_of(tid: u64) -> u32 {
    (1 + tid) as u32
}

/// The sequence-start packet of a buffer: carries no body, clears the
/// interning state, and declares the sequence defaults.
pub open spec fn start_packet(trusted_uid: i32, tid: u64) -> TracePacketV {
    TracePacketV {
        timestamp: 1,
        data: PacketDataV::Empty,
        sequence_flags: SEQ_INCREMENTAL_STATE_CLEARED,
        trusted_uid,
        trusted_packet_sequence_id: seq_id_of(tid),
        interned_data: None,
        trace_packet_defaults: Some(
            TracePacketDefaults {
                timestamp_clock_id: TIMESTAMP_CLOCK_ID,
                track_event_defaults: Some(TrackEventDefaults { track_uuid: track_uuid_of(tid) }),
            },
        ),
    }
}

/// The packet a `NewThread` message becomes: the thread's track
/// descriptor.
pub open spec fn new_thread_packet(
    trusted_uid: i32,
    seq_id: u32,
    tid: u64,
    name: Seq<char>,
) -> TracePacketV {
    TracePacketV {
        timestamp: 1,
        data: PacketDataV::TrackDescriptor(
            TrackDescriptorV { uuid: track_uuid_of(tid), name, counter: None },
        ),
        sequence_flags: SEQ_NEEDS_INCREMENTAL_STATE,
        trusted_uid,
        trusted_packet_sequence_id: seq_id,
        interned_data: None,
        trace_packet_defaults: None,
    }
}

/// The debug-annotation value a captured field value becomes.
pub open spec fn debug_value_of(v: SpanValueV) -> DebugValueV {
    match v {
        SpanValueV::Bool(b) => DebugValueV::Bool(b),
        SpanValueV::U64(n) => DebugValueV::Uint(n),
        SpanValueV::I64(n) => DebugValueV::Int(n),
        SpanValueV::Str(s) => DebugValueV::Str(s),
        SpanValueV::F64(bits) => DebugValueV::Double(bits),
    }
}

/// Fold the captured field values through the annotation-name
/// dictionary: the annotations to emit, the newly interned names, and
/// the grown dictionary.
pub open spec fn anns_build(args: Seq<FieldValueV>, st: Seq<Seq<char>>) -> (
    Seq<DebugAnnotationV>,
    Seq<DebugAnnotationNameV>,
    Seq<Seq<char>>,
)
    decreases args.len(),
{
    if args.len() == 0 {
        (Seq::empty(), Seq::empty(), st)
    } else {
        let f = args[0];
        let iid = name_iid(st, f.name);
        let is_new = !has_name(st, f.name);
        let st1 = intern_after(st, f.name);
        let (anns, names, st2) = anns_build(args.drop_first(), st1);
        (
            seq![
                DebugAnnotationV {
                    name: IStringV::Interned(iid as u64),
                    value: debug_value_of(f.value),
                },
            ] + anns,
            (if is_new {
                seq![DebugAnnotationNameV { iid: iid as u64, name: f.name }]
            } else {
                Seq::empty()
            }) + names,
            st2,
        )
    }
}

/// The spec image of an optional shared argument list.
pub open spec fn args_view(args: Option<Arc<Vec<FieldValue>>>) -> Option<Seq<FieldValueV>> {
    match args {
        Some(a) => Some((*a)@.map_values(|f: FieldValue| f@)),
        None => None,
    }
}

/// The packet a span or event message becomes.
pub open spec fn track_event_packet(
    event_type: EventType,
    ts: Timestamp,
    label: Seq<char>,
    args: Option<Seq<FieldValueV>>,
    trusted_uid: i32,
    seq_id: u32,
    st: InternView,
) -> TracePacketV {
    let iid = name_iid(st.events, label);
    let is_new = !has_name(st.events, label);
    let folded = match args {
        Some(a) => anns_build(a, st.anns),
        None => (Seq::<DebugAnnotationV>::empty(), Seq::<DebugAnnotationNameV>::empty(), st.anns),
    };
    let event_entries: Seq<EventNameV> = if is_new {
        seq![EventNameV { iid: iid as u64, name: label }]
    } else {
        Seq::empty()
    };
    let interned: Option<InternedDataV> = if is_new || folded.1.len() > 0 {
        Some(InternedDataV { event_names: event_entries, debug_annotation_names: folded.1 })
    } else {
        None
    };
    TracePacketV {
        timestamp: ts,
        data: PacketDataV::TrackEvent(
            TrackEventV {
                event_type,
                name: Some(IStringV::Interned(iid as u64)),
                debug_annotations: folded.0,
                counter_value: None,
            },
        ),
        sequence_flags: SEQ_NEEDS_INCREMENTAL_STATE,
        trusted_uid,
        trusted_packet_sequence_id: seq_id,
        interned_data: interned,
        trace_packet_defaults: None,
    }
}

/// The packet one message becomes, at a given interning state.
#[verifier::opaque]
pub open spec fn msg_packet(
    msg: Message,
    trusted_uid: i32,
    seq_id: u32,
    tid: u64,
    st: InternView,
) -> TracePacketV {
    match msg {
        Message::NewThread(_, name) => new_thread_packet(trusted_uid, seq_id, tid, (*name)@),
        Message::Enter { ts, label, args } => track_event_packet(
            EventType::SliceBegin,
            ts,
            label@,
            args_view(args),
            trusted_uid,
            seq_id,
            st,
        ),
        Message::Exit { ts, label, args: _ } => track_event_packet(
            EventType::SliceEnd,
            ts,
            label@,
            None,
            trusted_uid,
            seq_id,
            st,
        ),
        Message::Event { ts, label, args } => track_event_packet(
            EventType::Instant,
            ts,
            label@,
            args_view(args),
            trusted_uid,
            seq_id,
            st,
        ),
    }
}

/// The interning state after one message.
pub open spec fn st_after(msg: Message, st: InternView) -> InternView {
    match msg {
        Message::NewThread(_, _) => st,
        Message::Enter { ts: _, label, args } => InternView {
            events: intern_after(st.events, label@),
            anns: match args_view(args) {
                Some(a) => anns_build(a, st.anns).2,
                None => st.anns,
            },
        },
        Message::Exit { ts: _, label, args: _ } => InternView {
            events: intern_after(st.events, label@),
            anns: st.anns,
        },
        Message::Event { ts: _, label, args } => InternView {
            events: intern_after(st.events, label@),
            anns: match args_view(args) {
                Some(a) => anns_build(a, st.anns).2,
                None => st.anns,
            },
        },
    }
}

/// The interning state after a run of messages.
#[verifier::opaque]
pub open spec fn st_after_all(msgs: Seq<Message>, st: InternView) -> InternView
    decreases msgs.len(),
{
    if msgs.len() == 0 {
        st
    } else {
        st_after_all(msgs.drop_first(), st_after(msgs[0], st))
    }
}

/// The packets a run of messages becomes, threading the interning state.
#[verifier::opaque]
pub open spec fn packets_from(
    msgs: Seq<Message>,
    trusted_uid: i32,
    seq_id: u32,
    tid: u64,
    st: InternView,
) -> Seq<TracePacketV>
    decreases msgs.len(),
{
    if msgs.len() == 0 {
        Seq::empty()
    } else {
        seq![msg_packet(msgs[0], trusted_uid, seq_id, tid, st)] + packets_from(
            msgs.drop_first(),
            trusted_uid,
            seq_id,
            tid,
            st_after(msgs[0], st),
        )
    }
}

/// All packets of one processed buffer: the sequence-start packet, then
/// one packet per message.  An empty buffer yields nothing at all.
pub open spec fn buffer_packets(msgs: Seq<Message>, trusted_uid: i32, tid: u64) -> Seq<
    TracePacketV,
> {
    if msgs.len() == 0 {
        Seq::empty()
    } else {
        seq![start_packet(trusted_uid, tid)] + packets_from(
            msgs,
            trusted_uid,
            seq_id_of(tid),
            tid,
            intern_empty(),
        )
    }
}

/// Whether a packet fits both its own length fields and the trace-level
/// wrapping: exactly when the writer emits rather than skips it.
pub open spec fn full_fits(p: TracePacketV) -> bool {
    trace_packet_fits(p) && trace_packet_enc(p).len() < 0x20_0000
}

/// One packet as it stands in the file: a length-delimited field `1` of
/// the enclosing `Trace` message.
pub open spec fn packet_bytes(p: TracePacketV) -> Seq<u8> {
    nested_enc(1, trace_packet_enc(p))
}

/// The bytes a run of packets puts in the file; a packet that does not
/// fit is skipped.
#[verifier::opaque]
pub open spec fn emitted_bytes(ps: Seq<TracePacketV>) -> Seq<u8>
    decreases ps.len(),
{
    if ps.len() == 0 {
        Seq::empty()
    } else {
        (if full_fits(ps[0]) {
            packet_bytes(ps[0])
        } else {
            Seq::empty()
        }) + emitted_bytes(ps.drop_first())
    }
}

/// How many of a run of packets are skipped.
#[verifier::opaque]
pub open spec fn skipped_count(ps: Seq<TracePacketV>) -> nat
    decreases ps.len(),
{
    if ps.len() == 0 {
        0
    } else {
        (if full_fits(ps[0]) {
            0nat
        } else {
            1nat
        }) + skipped_count(ps.drop_first())
    }
}

/// The bytes one processed buffer appends to the file.
pub open spec fn buffer_bytes(msgs: Seq<Message>, trusted_uid: i32, tid: u64) -> Seq<u8> {
    emitted_bytes(buffer_packets(msgs, trusted_uid, tid))
}

pub proof fn lemma_emitted_bytes_push(ps: Seq<TracePacketV>, p: TracePacketV)
    ensures
        emitted_bytes(ps.push(p)) == emitted_bytes(ps) + (if full_fits(p) {
            packet_bytes(p)
        } else {
            Seq::<u8>::empty()
        }),
        skipped_count(ps.push(p)) == skipped_count(ps) + (if full_fits(p) {
            0nat
        } else {
            1nat
        }),
    decreases ps.len(),
{
    reveal_with_fuel(emitted_bytes, 3);
    reveal_with_fuel(skipped_count, 3);
    let whole = ps.push(p);
    assert(whole[0] == if ps.len() == 0 { p } else { ps[0] });
    if ps.len() == 0 {
        assert(whole.drop_first() =~= Seq::<TracePacketV>::empty());
        assert(emitted_bytes(whole) =~= emitted_bytes(ps) + (if full_fits(p) {
            packet_bytes(p)
        } else {
            Seq::<u8>::empty()
        }));
    } else {
        assert(whole.drop_first() =~= ps.drop_first().push(p));
        lemma_emitted_bytes_push(ps.drop_first(), p);
        assert(emitted_bytes(whole) =~= emitted_bytes(ps) + (if full_fits(p) {
            packet_bytes(p)
        } else {
            Seq::<u8>::empty()
        }));
    }
}

pub proof fn lemma_packets_from_push(
    msgs: Seq<Message>,
    m: Message,
    trusted_uid: i32,
    seq_id: u32,
    tid: u64,
    st: InternView,
)
    ensures
        packets_from(msgs.push(m), trusted_uid, seq_id, tid, st) == packets_from(
            msgs,
            trusted_uid,
            seq_id,
            tid,
            st,
        ) + seq![msg_packet(m, trusted_uid, seq_id, tid, st_after_all(msgs, st))],
        st_after_all(msgs.push(m), st) == st_after(m, st_after_all(msgs, st)),
    decreases msgs.len(),
{
    reveal_with_fuel(packets_from, 3);
    reveal_with_fuel(st_after_all, 3);
    let whole = msgs.push(m);
    assert(whole[0] == if msgs.len() == 0 { m } else { msgs[0] });
    if msgs.len() == 0 {
        assert(whole.drop_first() =~= Seq::<Message>::empty());
        assert(packets_from(whole, trusted_uid, seq_id, tid, st) =~= packets_from(
            msgs,
            trusted_uid,
            seq_id,
            tid,
            st,
        ) + seq![msg_packet(m, trusted_uid, seq_id, tid, st_after_all(msgs, st))]);
    } else {
        assert(whole.drop_first() =~= msgs.drop_first().push(m));
        lemma_packets_from_push(
            msgs.drop_first(),
            m,
            trusted_uid,
            seq_id,
            tid,
            st_after(msgs[0], st),
        );
        assert(packets_from(whole, trusted_uid, seq_id, tid, st) =~= packets_from(
            msgs,
            trusted_uid,
            seq_id,
            tid,
            st,
        ) + seq![msg_packet(m, trusted_uid, seq_id, tid, st_after_all(msgs, st))]);
    }
}


pub proof fn lemma_anns_build_push(args: Seq<FieldValueV>, f: FieldValueV, st: Seq<Seq<char>>)
    ensures
        ({
            let base = anns_build(args, st);
            let iid = name_iid(base.2, f.name);
            let is_new = !has_name(base.2, f.name);
            &&& anns_build(args.push(f), st).0 == base.0 + seq![
                DebugAnnotationV {
                    name: IStringV::Interned(iid as u64),
                    value: debug_value_of(f.value),
                },
            ]
            &&& anns_build(args.push(f), st).1 == base.1 + (if is_new {
                seq![DebugAnnotationNameV { iid: iid as u64, name: f.name }]
            } else {
                Seq::<DebugAnnotationNameV>::empty()
            })
            &&& anns_build(args.push(f), st).2 == intern_after(base.2, f.name)
        }),
    decreases args.len(),
{
    reveal_with_fuel(anns_build, 3);
    let whole = args.push(f);
    assert(whole[0] == if args.len() == 0 { f } else { args[0] });
    if args.len() == 0 {
        assert(whole.drop_first() =~= Seq::<FieldValueV>::empty());
        let base = anns_build(args, st);
        assert(base.2 == st);
        assert(anns_build(whole, st).0 =~= base.0 + seq![
            DebugAnnotationV {
                name: IStringV::Interned(name_iid(st, f.name) as u64),
                value: debug_value_of(f.value),
            },
        ]);
        assert(anns_build(whole, st).1 =~= base.1 + (if !has_name(st, f.name) {
            seq![DebugAnnotationNameV { iid: name_iid(st, f.name) as u64, name: f.name }]
        } else {
            Seq::<DebugAnnotationNameV>::empty()
        }));
    } else {
        assert(whole.drop_first() =~= args.drop_first().push(f));
        let st1 = intern_after(st, args[0].name);
        lemma_anns_build_push(args.drop_first(), f, st1);
        let base = anns_build(args, st);
        let tail = anns_build(args.drop_first(), st1);
        assert(base.2 == tail.2);
        assert(anns_build(whole, st).0 =~= base.0 + seq![
            DebugAnnotationV {
                name: IStringV::Interned(name_iid(base.2, f.name) as u64),
                value: debug_value_of(f.value),
            },
        ]);
        assert(anns_build(whole, st).1 =~= base.1 + (if !has_name(base.2, f.name) {
            seq![DebugAnnotationNameV { iid: name_iid(base.2, f.name) as u64, name: f.name }]
        } else {
            Seq::<DebugAnnotationNameV>::empty()
        }));
    }
}

/// Append one packet to the output, wrapped as field `1` of the `Trace`
/// container, or skip it when it does not fit.
fn emit_packet(emitter: &mut ProtoEmitter, out: &mut Vec<u8>, packet: &TracePacket) -> (skipped:
    bool)
    ensures
        final(out)@ == old(out)@ + (if full_fits(packet@) {
            packet_bytes(packet@)
        } else {
            Seq::<u8>::empty()
        }),
        skipped == !full_fits(packet@),
{
    emitter.clear();
    match packet.emit(emitter) {
        Err(_) => {
            proof {
                assert(old(out)@ + Seq::<u8>::empty() =~= old(out)@);
            }
            true
        },
        Ok(()) => {
            proof {
                assert(emitter@ =~= trace_packet_enc(packet@));
            }
            let mut outer = ProtoEmitter::new();
            match outer.nested(1, emitter.as_bytes()) {
                Ok(()) => {
                    proof {
                        assert(outer@ =~= packet_bytes(packet@));
                    }
                    extend_bytes(out, outer.as_bytes());
                    false
                },
                Err(_) => {
                    proof {
                        assert(!full_fits(packet@));
                        assert(old(out)@ + Seq::<u8>::empty() =~= old(out)@);
                    }
                    true
                },
            }
        },
    }
}

/// Every varint of a 64-bit quantity keeps a whole field under 21 bytes.
proof fn lemma_varint_field_len(field_id: u32, v: nat)
    requires
        field_id < 0x2000_0000,
        v < 0x1_0000_0000_0000_0000,
    ensures
        varint_field_enc(field_id, v).len() <= 20,
{
    crate::emit::lemma_varint_len10((field_id * 8) as u64);
    crate::emit::lemma_varint_len10(v as u64);
    assert(field_id as nat * 8 + 0 == ((field_id * 8) as u64) as nat);
    assert((v as u64) as nat == v);
}

/// The sequence-start packet always fits.
proof fn lemma_start_packet_fits(trusted_uid: i32, tid: u64)
    requires
        tid < 0xffff_ffff,
    ensures
        full_fits(start_packet(trusted_uid, tid)),
{
    let p = start_packet(trusted_uid, tid);
    let ted = TrackEventDefaults { track_uuid: track_uuid_of(tid) };
    let tpd = TracePacketDefaults {
        timestamp_clock_id: TIMESTAMP_CLOCK_ID,
        track_event_defaults: Some(ted),
    };
    lemma_varint_field_len(11, ted.track_uuid as nat);
    assert(track_event_defaults_enc(ted).len() <= 20);
    lemma_varint_field_len(58, TIMESTAMP_CLOCK_ID as nat);
    crate::emit::lemma_varint_len10((11 * 8 + 2) as u64);
    assert(nested_enc(11, track_event_defaults_enc(ted)).len() <= 10 + 3 + 20);
    assert(trace_packet_defaults_enc(tpd).len() <= 20 + 33);
    lemma_varint_field_len(8, 1);
    lemma_varint_field_len(3, (trusted_uid as u32) as nat);
    lemma_varint_field_len(13, SEQ_INCREMENTAL_STATE_CLEARED as nat);
    lemma_varint_field_len(10, seq_id_of(tid) as nat);
    crate::emit::lemma_varint_len10((59 * 8 + 2) as u64);
    assert(nested_enc(59, trace_packet_defaults_enc(tpd)).len() <= 10 + 3 + 53);
    assert(trace_packet_enc(p).len() <= 20 * 4 + 66);
}

/// Open a buffer's packet sequence: emit the sequence-start packet and
/// return the sequence id.
pub fn start_sequence(
    emitter: &mut ProtoEmitter,
    out: &mut Vec<u8>,
    trusted_uid: i32,
    thread_id: u64,
) -> (seq_id: u32)
    requires
        thread_id < 0xffff_ffff,
    ensures
        seq_id == seq_id_of(thread_id),
        final(out)@ == old(out)@ + packet_bytes(start_packet(trusted_uid, thread_id)),
{
    let seq_id = 1 + (thread_id as u32);
    let uuid = TRACK_UUID_STEP * (thread_id + 1);
    let msg0 = TracePacket {
        timestamp: 1,
        data: PacketData::Empty,
        sequence_flags: SEQ_INCREMENTAL_STATE_CLEARED,
        trusted_uid,
        trusted_packet_sequence_id: seq_id,
        interned_data: None,
        trace_packet_defaults: Some(
            TracePacketDefaults {
                timestamp_clock_id: TIMESTAMP_CLOCK_ID,
                track_event_defaults: Some(TrackEventDefaults { track_uuid: uuid }),
            },
        ),
    };
    proof {
        assert(msg0@ == start_packet(trusted_uid, thread_id));
        lemma_start_packet_fits(trusted_uid, thread_id);
    }
    let _skipped = emit_packet(emitter, out, &msg0);
    seq_id
}

/// Emit the track descriptor a `NewThread` message stands for.
pub fn new_thread(
    emitter: &mut ProtoEmitter,
    out: &mut Vec<u8>,
    trusted_uid: i32,
    trusted_packet_sequence_id: u32,
    thread_id: u64,
    thread_name: &str,
) -> (skipped: bool)
    requires
        thread_id < 0xffff_ffff,
    ensures
        final(out)@ == old(out)@ + (if full_fits(
            new_thread_packet(trusted_uid, trusted_packet_sequence_id, thread_id, thread_name@),
        ) {
            packet_bytes(
                new_thread_packet(
                    trusted_uid,
                    trusted_packet_sequence_id,
                    thread_id,
                    thread_name@,
                ),
            )
        } else {
            Seq::<u8>::empty()
        }),
        skipped == !full_fits(
            new_thread_packet(trusted_uid, trusted_packet_sequence_id, thread_id, thread_name@),
        ),
{
    let uuid = TRACK_UUID_STEP * (thread_id + 1);
    let msg1 = TracePacket {
        timestamp: 1,
        data: PacketData::TrackDescriptor(
            TrackDescriptor { uuid, name: thread_name.to_owned(), counter: None },
        ),
        sequence_flags: SEQ_NEEDS_INCREMENTAL_STATE,
        trusted_uid,
        trusted_packet_sequence_id,
        interned_data: None,
        trace_packet_defaults: None,
    };
    proof {
        assert(msg1@ == new_thread_packet(
            trusted_uid,
            trusted_packet_sequence_id,
            thread_id,
            thread_name@,
        ));
    }
    emit_packet(emitter, out, &msg1)
}

/// Intern an event label; a first occurrence comes back as the
/// interned-data attachment to send with the packet.
pub fn intern_event_name(interned: &mut Interned, label: &'static str) -> (r: (
    u64,
    Option<InternedData>,
))
    ensures
        final(interned)@.events == intern_after(old(interned)@.events, label@),
        final(interned)@.anns == old(interned)@.anns,
        r.0 as nat == name_iid(old(interned)@.events, label@),
        !has_name(old(interned)@.events, label@) ==> (r.1 matches Some(d)
            && d@.event_names == seq![EventNameV { iid: r.0, name: label@ }]
            && d@.debug_annotation_names.len() == 0),
        has_name(old(interned)@.events, label@) ==> r.1 is None,
{
    let (iid, is_new) = interned.event_name(label);
    if is_new {
        let mut data = InternedData::new();
        data.event_names.push(EventName { iid, name: label.to_owned() });
        proof {
            assert(data@.event_names =~= seq![EventNameV { iid, name: label@ }]);
            assert(data@.debug_annotation_names =~= Seq::<DebugAnnotationNameV>::empty());
        }
        (iid, Some(data))
    } else {
        (iid, None)
    }
}

/// Build the debug annotations of a packet from its captured field
/// values, interning each field name and carrying any new names in the
/// interned-data attachment.
pub fn build_debug_annotations(
    interned: &mut Interned,
    args: &Option<Arc<Vec<FieldValue>>>,
    interned_data: Option<InternedData>,
) -> (r: (Vec<DebugAnnotation>, Option<InternedData>))
    requires
        match interned_data {
            Some(d) => d@.debug_annotation_names.len() == 0,
            None => true,
        },
    ensures
        final(interned)@.events == old(interned)@.events,
        args_view(*args) is None ==> final(interned)@ == old(interned)@ && r.0@.len() == 0
            && r.1 == interned_data,
        args_view(*args) is Some ==> ({
            let a = args_view(*args)->Some_0;
            let folded = anns_build(a, old(interned)@.anns);
            let evs = match interned_data {
                Some(d) => d@.event_names,
                None => Seq::<EventNameV>::empty(),
            };
            &&& final(interned)@.anns == folded.2
            &&& r.0@.map_values(|d: DebugAnnotation| d@) == folded.0
            &&& (if evs.len() == 0 && folded.1.len() == 0 {
                r.1 is None
            } else {
                r.1 matches Some(d2) && d2@.event_names == evs
                    && d2@.debug_annotation_names == folded.1
            })
        }),
{
    match args {
        Some(args_arc) => {
            let ghost fa = (**args_arc)@.map_values(|f: FieldValue| f@);
            let ghost anns0 = interned@.anns;
            let ghost evs0 = match &interned_data {
                Some(d) => d@.event_names,
                None => Seq::<EventNameV>::empty(),
            };
            let mut res: Vec<DebugAnnotation> = Vec::new();
            let mut local = match interned_data {
                Some(d) => d,
                None => InternedData::new(),
            };
            proof {
                assert(fa.take(0) =~= Seq::<FieldValueV>::empty());
                assert(res@.map_values(|d: DebugAnnotation| d@) =~= Seq::<
                    DebugAnnotationV,
                >::empty());
                assert(local@.event_names == evs0);
            }
            let n = args_arc.len();
            let mut i: usize = 0;
            while i < n
                invariant
                    n == (**args_arc).len(),
                    i <= n,
                    fa == (**args_arc)@.map_values(|f: FieldValue| f@),
                    fa.len() == n,
                    interned@.events == old(interned)@.events,
                    anns0 == old(interned)@.anns,
                    interned@.anns == anns_build(fa.take(i as int), anns0).2,
                    res@.map_values(|d: DebugAnnotation| d@) == anns_build(
                        fa.take(i as int),
                        anns0,
                    ).0,
                    local@.event_names == evs0,
                    local@.debug_annotation_names == anns_build(fa.take(i as int), anns0).1,
                decreases n - i,
            {
                let arg = &args_arc[i];
                proof {
                    assert(fa[i as int] == arg@);
                }
                let (iid, is_new) = interned.debug_annotation_name(arg.name);
                if is_new {
                    local.debug_annotation_names.push(
                        DebugAnnotationName { iid, name: arg.name.to_owned() },
                    );
                }
                let value = match &arg.value {
                    SpanValue::Bool(b) => DebugValue::Bool(*b),
                    SpanValue::U64(v) => DebugValue::Uint(*v),
                    SpanValue::I64(v) => DebugValue::Int(*v),
                    SpanValue::Str(s) => DebugValue::Str(s.clone()),
                    SpanValue::F64(bits) => DebugValue::Double(*bits),
                };
                res.push(DebugAnnotation { name: IString::Interned(iid), value });
                proof {
                    lemma_anns_build_push(fa.take(i as int), fa[i as int], anns0);
                    assert(fa.take(i + 1 as int) =~= fa.take(i as int).push(fa[i as int]));
                    assert(res@.map_values(|d: DebugAnnotation| d@) =~= anns_build(
                        fa.take(i + 1 as int),
                        anns0,
                    ).0);
                    assert(local@.debug_annotation_names =~= anns_build(
                        fa.take(i + 1 as int),
                        anns0,
                    ).1);
                }
                i += 1;
            }
            proof {
                assert(fa.take(n as int) =~= fa);
            }
            let keep = !local.is_empty();
            if keep {
                (res, Some(local))
            } else {
                (res, None)
            }
        },
        None => (Vec::new(), interned_data),
    }
}



/// Emit a span-begin packet, interning its label and argument names.
pub fn enter(
    emitter: &mut ProtoEmitter,
    out: &mut Vec<u8>,
    interned: &mut Interned,
    trusted_uid: i32,
    trusted_packet_sequence_id: u32,
    ts: Timestamp,
    label: &'static str,
    args: &Option<Arc<Vec<FieldValue>>>,
) -> (skipped: bool)
    ensures
        ({
            let pv = track_event_packet(
                EventType::SliceBegin,
                ts,
                label@,
                args_view(*args),
                trusted_uid,
                trusted_packet_sequence_id,
                old(interned)@,
            );
            &&& final(out)@ == old(out)@ + (if full_fits(pv) {
                packet_bytes(pv)
            } else {
                Seq::<u8>::empty()
            })
            &&& skipped == !full_fits(pv)
        }),
        final(interned)@.events == intern_after(old(interned)@.events, label@),
        final(interned)@.anns == (match args_view(*args) {
            Some(a) => anns_build(a, old(interned)@.anns).2,
            None => old(interned)@.anns,
        }),
{
    track_event(
        emitter,
        out,
        interned,
        trusted_uid,
        trusted_packet_sequence_id,
        EventType::SliceBegin,
        ts,
        label,
        args,
    )
}

/// Emit a span-end packet; spans carry their arguments on begin only.
pub fn exit(
    emitter: &mut ProtoEmitter,
    out: &mut Vec<u8>,
    interned: &mut Interned,
    trusted_uid: i32,
    trusted_packet_sequence_id: u32,
    ts: Timestamp,
    label: &'static str,
) -> (skipped: bool)
    ensures
        ({
            let pv = track_event_packet(
                EventType::SliceEnd,
                ts,
                label@,
                None,
                trusted_uid,
                trusted_packet_sequence_id,
                old(interned)@,
            );
            &&& final(out)@ == old(out)@ + (if full_fits(pv) {
                packet_bytes(pv)
            } else {
                Seq::<u8>::empty()
            })
            &&& skipped == !full_fits(pv)
        }),
        final(interned)@.events == intern_after(old(interned)@.events, label@),
        final(interned)@.anns == old(interned)@.anns,
{
    track_event(
        emitter,
        out,
        interned,
        trusted_uid,
        trusted_packet_sequence_id,
        EventType::SliceEnd,
        ts,
        label,
        &None,
    )
}

/// Emit an instant-event packet, interning its label and argument names.
pub fn event(
    emitter: &mut ProtoEmitter,
    out: &mut Vec<u8>,
    interned: &mut Interned,
    trusted_uid: i32,
    trusted_packet_sequence_id: u32,
    ts: Timestamp,
    label: &'static str,
    args: &Option<Arc<Vec<FieldValue>>>,
) -> (skipped: bool)
    ensures
        ({
            let pv = track_event_packet(
                EventType::Instant,
                ts,
                label@,
                args_view(*args),
                trusted_uid,
                trusted_packet_sequence_id,
                old(interned)@,
            );
            &&& final(out)@ == old(out)@ + (if full_fits(pv) {
                packet_bytes(pv)
            } else {
                Seq::<u8>::empty()
            })
            &&& skipped == !full_fits(pv)
        }),
        final(interned)@.events == intern_after(old(interned)@.events, label@),
        final(interned)@.anns == (match args_view(*args) {
            Some(a) => anns_build(a, old(interned)@.anns).2,
            None => old(interned)@.anns,
        }),
{
    track_event(
        emitter,
        out,
        interned,
        trusted_uid,
        trusted_packet_sequence_id,
        EventType::Instant,
        ts,
        label,
        args,
    )
}

/// The shared body of `enter`, `exit` and `event`.
fn track_event(
    emitter: &mut ProtoEmitter,
    out: &mut Vec<u8>,
    interned: &mut Interned,
    trusted_uid: i32,
    trusted_packet_sequence_id: u32,
    event_type: EventType,
    ts: Timestamp,
    label: &'static str,
    args: &Option<Arc<Vec<FieldValue>>>,
) -> (skipped: bool)
    ensures
        ({
            let pv = track_event_packet(
                event_type,
                ts,
                label@,
                args_view(*args),
                trusted_uid,
                trusted_packet_sequence_id,
                old(interned)@,
            );
            &&& final(out)@ == old(out)@ + (if full_fits(pv) {
                packet_bytes(pv)
            } else {
                Seq::<u8>::empty()
            })
            &&& skipped == !full_fits(pv)
        }),
        final(interned)@.events == intern_after(old(interned)@.events, label@),
        final(interned)@.anns == (match args_view(*args) {
            Some(a) => anns_build(a, old(interned)@.anns).2,
            None => old(interned)@.anns,
        }),
{
    let ghost st0 = interned@;
    let (event_iid, first_data) = intern_event_name(interned, label);
    let (debug_annotations, interned_data) = build_debug_annotations(interned, args, first_data);
    let msg = TracePacket {
        timestamp: ts,
        sequence_flags: SEQ_NEEDS_INCREMENTAL_STATE,
        data: PacketData::TrackEvent(
            TrackEvent {
                event_type,
                name: Some(IString::Interned(event_iid)),
                debug_annotations,
                counter_value: None,
            },
        ),
        trusted_uid,
        trusted_packet_sequence_id,
        interned_data,
        trace_packet_defaults: None,
    };
    proof {
        let pv = track_event_packet(
            event_type,
            ts,
            label@,
            args_view(*args),
            trusted_uid,
            trusted_packet_sequence_id,
            st0,
        );
        assert(msg@.data =~~= pv.data);
        assert(msg@.interned_data =~~= pv.interned_data);
        assert(msg@ =~~= pv);
    }
    emit_packet(emitter, out, &msg)
}



/// A byte string is a well-formed trace: a run of length-delimited
/// records at field `1`, each length written as the writer writes it
/// (three non-minimal varint bytes).
pub open spec fn is_trace(bytes: Seq<u8>) -> bool
    decreases bytes.len(),
{
    if bytes.len() == 0 {
        true
    } else if bytes.len() < 4 {
        false
    } else {
        let n = varint_dec(bytes.subrange(1, 4)) as int;
        &&& bytes[0] == 0x0a
        &&& bytes[1] >= 128
        &&& bytes[2] >= 128
        &&& bytes[3] < 128
        &&& bytes.len() >= 4 + n
        &&& is_trace(bytes.skip(4 + n))
    }
}

/// One emitted packet followed by a trace is a trace.
pub proof fn lemma_packet_bytes_trace(p: TracePacketV, rest: Seq<u8>)
    requires
        trace_packet_enc(p).len() < 0x20_0000,
        is_trace(rest),
    ensures
        is_trace(packet_bytes(p) + rest),
{
    let enc = trace_packet_enc(p);
    let n = enc.len() as int;
    let whole = packet_bytes(p) + rest;
    assert(crate::emit::tag_enc(1, 2) == crate::emit::varint_enc(10)) by {
        assert(1 as nat * 8 + 2 == 10);
    }
    assert(crate::emit::varint_enc(10) == seq![10u8]);
    assert(packet_bytes(p) =~= seq![10u8] + crate::emit::len3_enc(enc.len()) + enc);
    assert(whole[0] == 10);
    assert(whole.subrange(1, 4) =~= crate::emit::len3_enc(enc.len()));
    crate::emit::lemma_len3_round_trip(enc.len());
    assert(varint_dec(whole.subrange(1, 4)) as int == n);
    assert(whole[1] == crate::emit::len3_enc(enc.len())[0]);
    assert(whole[2] == crate::emit::len3_enc(enc.len())[1]);
    assert(whole[3] == crate::emit::len3_enc(enc.len())[2]);
    assert(whole[1] >= 128);
    assert(whole[2] >= 128);
    assert(whole[3] < 128);
    assert(whole.skip(4 + n) =~= rest);
}

/// Whatever the writer emits for a run of packets is a trace.
pub proof fn lemma_emitted_bytes_trace(ps: Seq<TracePacketV>)
    ensures
        is_trace(emitted_bytes(ps)),
    decreases ps.len(),
{
    reveal_with_fuel(emitted_bytes, 2);
    if ps.len() == 0 {
    } else {
        lemma_emitted_bytes_trace(ps.drop_first());
        if full_fits(ps[0]) {
            lemma_packet_bytes_trace(ps[0], emitted_bytes(ps.drop_first()));
        } else {
            assert(emitted_bytes(ps) =~= emitted_bytes(ps.drop_first()));
        }
    }
}

/// The bytes of one processed buffer are a trace.
pub proof fn lemma_buffer_bytes_trace(msgs: Seq<Message>, trusted_uid: i32, tid: u64)
    ensures
        is_trace(buffer_bytes(msgs, trusted_uid, tid)),
{
    lemma_emitted_bytes_trace(buffer_packets(msgs, trusted_uid, tid));
}

/// Two traces in a row are a trace: the output file, a concatenation of
/// processed buffers, parses as one `Trace` message.
pub proof fn lemma_trace_concat(a: Seq<u8>, b: Seq<u8>)
    requires
        is_trace(a),
        is_trace(b),
    ensures
        is_trace(a + b),
    decreases a.len(),
{
    if a.len() == 0 {
        assert(a + b =~= b);
    } else {
        let n = varint_dec(a.subrange(1, 4)) as int;
        lemma_trace_concat(a.skip(4 + n), b);
        let whole = a + b;
        assert(whole[0] == a[0]);
        assert(whole[1] == a[1]);
        assert(whole[2] == a[2]);
        assert(whole[3] == a[3]);
        assert(whole.subrange(1, 4) =~= a.subrange(1, 4));
        assert(whole.skip(4 + n) =~= a.skip(4 + n) + b);
    }
}

/// Encode one message at the current interning state.
fn process_one(
    emitter: &mut ProtoEmitter,
    out: &mut Vec<u8>,
    interned: &mut Interned,
    trusted_uid: i32,
    seq_id: u32,
    thread_id: u64,
    msg: &Message,
) -> (skipped: bool)
    requires
        thread_id < 0xffff_ffff,
    ensures
        ({
            let pv = msg_packet(*msg, trusted_uid, seq_id, thread_id, old(interned)@);
            &&& final(out)@ == old(out)@ + (if full_fits(pv) {
                packet_bytes(pv)
            } else {
                Seq::<u8>::empty()
            })
            &&& skipped == !full_fits(pv)
            &&& final(interned)@ == st_after(*msg, old(interned)@)
        }),
{
    let sk: bool = match msg {
        Message::NewThread(_, name) => new_thread(
            emitter,
            out,
            trusted_uid,
            seq_id,
            thread_id,
            name.as_str(),
        ),
        Message::Enter { ts, label, args } => enter(
            emitter,
            out,
            interned,
            trusted_uid,
            seq_id,
            *ts,
            *label,
            args,
        ),
        Message::Exit { ts, label, args: _ } => exit(
            emitter,
            out,
            interned,
            trusted_uid,
            seq_id,
            *ts,
            *label,
        ),
        Message::Event { ts, label, args } => event(
            emitter,
            out,
            interned,
            trusted_uid,
            seq_id,
            *ts,
            *label,
            args,
        ),
    };
    proof {
        reveal(msg_packet);
        assert(final(interned)@ =~= st_after(*msg, old(interned)@));
    }
    sk
}

/// One loop step of `process_messages`, at the spec level.
proof fn lemma_process_step(msgs: Seq<Message>, i: int, uid: i32, seq_id: u32, tid: u64)
    requires
        0 <= i < msgs.len(),
    ensures
        ({
            let pf_i = packets_from(msgs.take(i), uid, seq_id, tid, intern_empty());
            let st_i = st_after_all(msgs.take(i), intern_empty());
            let pv = msg_packet(msgs[i], uid, seq_id, tid, st_i);
            &&& st_after_all(msgs.take(i + 1), intern_empty()) == st_after(msgs[i], st_i)
            &&& emitted_bytes(packets_from(msgs.take(i + 1), uid, seq_id, tid, intern_empty()))
                == emitted_bytes(pf_i) + (if full_fits(pv) {
                packet_bytes(pv)
            } else {
                Seq::<u8>::empty()
            })
            &&& skipped_count(packets_from(msgs.take(i + 1), uid, seq_id, tid, intern_empty()))
                == skipped_count(pf_i) + (if full_fits(pv) {
                0nat
            } else {
                1nat
            })
        }),
{
    let m = msgs[i];
    let pf_i = packets_from(msgs.take(i), uid, seq_id, tid, intern_empty());
    let st_i = st_after_all(msgs.take(i), intern_empty());
    let pv = msg_packet(m, uid, seq_id, tid, st_i);
    assert(msgs.take(i + 1) =~= msgs.take(i).push(m));
    lemma_packets_from_push(msgs.take(i), m, uid, seq_id, tid, intern_empty());
    lemma_emitted_bytes_push(pf_i, pv);
    assert(pf_i.push(pv) =~= pf_i + seq![pv]);
}

/// Encode one buffer's drained messages: the sequence-start packet, then
/// one packet per message, skipping any packet that does not fit.
/// Returns how many were skipped.
#[verifier::rlimit(100)]
pub fn process_messages(
    emitter: &mut ProtoEmitter,
    out: &mut Vec<u8>,
    interned: &mut Interned,
    trusted_uid: i32,
    thread_id: u64,
    msgs: &Vec<Message>,
) -> (skipped: usize)
    requires
        thread_id < 0xffff_ffff,
    ensures
        final(out)@ == old(out)@ + buffer_bytes(msgs@, trusted_uid, thread_id),
        skipped as nat == skipped_count(buffer_packets(msgs@, trusted_uid, thread_id)),
{
    let n = msgs.len();
    if n == 0 {
        proof {
            reveal(emitted_bytes);
            reveal(skipped_count);
            assert(buffer_bytes(msgs@, trusted_uid, thread_id) == Seq::<u8>::empty());
            assert(old(out)@ + Seq::<u8>::empty() =~= old(out)@);
        }
        return 0;
    }
    let seq_id = start_sequence(emitter, out, trusted_uid, thread_id);
    interned.reset();
    let ghost base = old(out)@ + packet_bytes(start_packet(trusted_uid, thread_id));
    proof {
        reveal(packets_from);
        reveal(st_after_all);
        reveal(emitted_bytes);
        reveal(skipped_count);
        assert(msgs@.take(0) =~= Seq::<Message>::empty());
        assert(out@ =~= base + emitted_bytes(
            packets_from(msgs@.take(0), trusted_uid, seq_id, thread_id, intern_empty()),
        ));
        assert(interned@ =~= st_after_all(msgs@.take(0), intern_empty()));
    }
    let mut skipped: usize = 0;
    let mut i: usize = 0;
    while i < n
        invariant
            n == msgs.len(),
            i <= n,
            skipped <= i,
            thread_id < 0xffff_ffff,
            seq_id == seq_id_of(thread_id),
            base == old(out)@ + packet_bytes(start_packet(trusted_uid, thread_id)),
            out@ == base + emitted_bytes(
                packets_from(msgs@.take(i as int), trusted_uid, seq_id, thread_id, intern_empty()),
            ),
            interned@ == st_after_all(msgs@.take(i as int), intern_empty()),
            skipped as nat == skipped_count(
                packets_from(msgs@.take(i as int), trusted_uid, seq_id, thread_id, intern_empty()),
            ),
        decreases n - i,
    {
        let ghost st_i = interned@;
        let ghost pf_i = packets_from(
            msgs@.take(i as int),
            trusted_uid,
            seq_id,
            thread_id,
            intern_empty(),
        );
        let ghost pre = out@;
        let sk: bool = process_one(emitter, out, interned, trusted_uid, seq_id, thread_id, &msgs[i]);
        proof {
            let m = msgs@[i as int];
            let pv = msg_packet(m, trusted_uid, seq_id, thread_id, st_i);
            lemma_process_step(msgs@, i as int, trusted_uid, seq_id, thread_id);
            let step = if full_fits(pv) {
                packet_bytes(pv)
            } else {
                Seq::<u8>::empty()
            };
            assert(out@ == pre + step);
            assert(pre + step =~= base + (emitted_bytes(pf_i) + step));
            assert(out@ =~= base + emitted_bytes(
                packets_from(
                    msgs@.take(i + 1 as int),
                    trusted_uid,
                    seq_id,
                    thread_id,
                    intern_empty(),
                ),
            ));
        }
        if sk {
            skipped += 1;
        }
        i += 1;
    }
    proof {
        reveal_with_fuel(emitted_bytes, 2);
        reveal_with_fuel(skipped_count, 2);
        assert(msgs@.take(n as int) =~= msgs@);
        let ps = buffer_packets(msgs@, trusted_uid, thread_id);
        let pf = packets_from(msgs@, trusted_uid, seq_id, thread_id, intern_empty());
        assert(ps == seq![start_packet(trusted_uid, thread_id)] + pf);
        assert(ps[0] == start_packet(trusted_uid, thread_id));
        assert(ps.drop_first() =~= pf);
        lemma_start_packet_fits(trusted_uid, thread_id);
        assert(emitted_bytes(ps) == packet_bytes(start_packet(trusted_uid, thread_id))
            + emitted_bytes(pf));
        assert(final(out)@ =~= old(out)@ + buffer_bytes(msgs@, trusted_uid, thread_id));
        assert(skipped_count(ps) == skipped_count(pf));
    }
    skipped
}

/// Drain one finished buffer and encode what came out.
///
/// The length is read once at entry and at most that many messages are
/// popped: on shutdown the producer may still be pushing, and bounding
/// the drain by the snapshot keeps this terminating.  The bytes appended
/// are the encoding of whatever run of messages the shared queue
/// yielded, and they always parse as a trace.
pub fn process_buffer(
    emitter: &mut ProtoEmitter,
    out: &mut Vec<u8>,
    interned: &mut Interned,
    trusted_uid: i32,
    buffer: &Buffer,
) -> (skipped: usize)
    ensures
        exists|msgs: Seq<Message>|
            final(out)@ == old(out)@ + buffer_bytes(msgs, trusted_uid, buffer.thread_id),
        exists|t: Seq<u8>|
            final(out)@ == old(out)@ + t && is_trace(t),
{
    let thread_id = buffer.thread_id;
    if thread_id >= 0xffff_ffff {
        proof {
            reveal(emitted_bytes);
            assert(buffer_bytes(Seq::<Message>::empty(), trusted_uid, thread_id) == Seq::<
                u8,
            >::empty());
            assert(out@ =~= old(out)@ + Seq::<u8>::empty());
            assert(is_trace(Seq::<u8>::empty()));
        }
        return 0;
    }
    let items = queue_len(&buffer.queue);
    let mut msgs: Vec<Message> = Vec::new();
    let mut i: usize = 0;
    while i < items
        invariant
            i <= items,
        decreases items - i,
    {
        match queue_pop(&buffer.queue) {
            Some(m) => msgs.push(m),
            None => { break ; },
        }
        i += 1;
    }
    let skipped = process_messages(emitter, out, interned, trusted_uid, thread_id, &msgs);
    proof {
        assert(final(out)@ == old(out)@ + buffer_bytes(msgs@, trusted_uid, buffer.thread_id));
        lemma_buffer_bytes_trace(msgs@, trusted_uid, buffer.thread_id);
    }
    skipped
}

/// Drain every buffer still registered at shutdown: snapshot the ids,
/// then remove and process each one by one.  Snapshotting first avoids
/// holding the map's iterator while removing.  Everything appended
/// parses as a trace.
pub fn drain_pending(
    emitter: &mut ProtoEmitter,
    out: &mut Vec<u8>,
    interned: &mut Interned,
    trusted_uid: i32,
    pending: &dashmap::DashMap<u64, Arc<Buffer>>,
)
    ensures
        exists|t: Seq<u8>|
            final(out)@ == old(out)@ + t && is_trace(t),
{
    let ids = crate::shims::map_keys(pending);
    let ghost mut acc: Seq<u8> = Seq::empty();
    proof {
        assert(out@ =~= old(out)@ + acc);
    }
    let n = ids.len();
    let mut j: usize = 0;
    while j < n
        invariant
            n == ids.len(),
            j <= n,
            out@ == old(out)@ + acc,
            is_trace(acc),
        decreases n - j,
    {
        let id = ids[j];
        match crate::shims::map_remove(pending, id) {
            Some(entry) => {
                let ghost pre = out@;
                let buffer = entry.1;
                let _ = process_buffer(emitter, out, interned, trusted_uid, &buffer);
                proof {
                    let msgs = choose|msgs: Seq<Message>|
                        out@ == pre + buffer_bytes(msgs, trusted_uid, buffer.thread_id);
                    lemma_buffer_bytes_trace(msgs, trusted_uid, buffer.thread_id);
                    lemma_trace_concat(acc, buffer_bytes(msgs, trusted_uid, buffer.thread_id));
                    acc = acc + buffer_bytes(msgs, trusted_uid, buffer.thread_id);
                    assert(out@ =~= old(out)@ + acc);
                }
            },
            None => {},
        }
        j += 1;
    }
}



/// The label a message carries, if any.
pub open spec fn event_label(m: Message) -> Option<Seq<char>> {
    match m {
        Message::NewThread(_, _) => None,
        Message::Enter { ts: _, label, args: _ } => Some(label@),
        Message::Exit { ts: _, label, args: _ } => Some(label@),
        Message::Event { ts: _, label, args: _ } => Some(label@),
    }
}

/// The interned name id a packet's track event references, if any.
pub open spec fn packet_name_iid(p: TracePacketV) -> Option<u64> {
    match p.data {
        PacketDataV::TrackEvent(ev) => match ev.name {
            Some(IStringV::Interned(iid)) => Some(iid),
            _ => None,
        },
        _ => None,
    }
}

/// Whether a packet carries an interned-name entry for `name`.
pub open spec fn packet_has_event_entry(p: TracePacketV, name: Seq<char>) -> bool {
    match p.interned_data {
        Some(d) => exists|k: int| 0 <= k < d.event_names.len() && d.event_names[k].name == name,
        None => false,
    }
}

/// Interning a name leaves its id where a lookup will find it, at the
/// same place ever after.
proof fn lemma_iid_after_intern(names: Seq<Seq<char>>, n: Seq<char>)
    ensures
        has_name(intern_after(names, n), n),
        name_iid(intern_after(names, n), n) == name_iid(names, n),
{
    if has_name(names, n) {
    } else {
        crate::intern::lemma_name_iid_absent(names, n);
        assert(names.push(n)[names.len() as int] == n);
        crate::intern::lemma_name_iid_first(names.push(n), n, names.len() as int);
    }
}

/// Interning any name leaves the id of a name already present alone.
proof fn lemma_iid_stable_intern(names: Seq<Seq<char>>, x: Seq<char>, n: Seq<char>)
    requires
        has_name(names, n),
    ensures
        has_name(intern_after(names, x), n),
        name_iid(intern_after(names, x), n) == name_iid(names, n),
{
    if has_name(names, x) {
    } else {
        crate::intern::lemma_name_iid_push(names, n, x);
    }
}

/// Processing any message preserves the id of an event name already
/// interned.
proof fn lemma_st_after_events(m: Message, st: InternView, lbl: Seq<char>)
    requires
        has_name(st.events, lbl),
    ensures
        has_name(st_after(m, st).events, lbl),
        name_iid(st_after(m, st).events, lbl) == name_iid(st.events, lbl),
{
    match m {
        Message::NewThread(_, _) => {},
        Message::Enter { ts: _, label, args: _ } => {
            lemma_iid_stable_intern(st.events, label@, lbl);
        },
        Message::Exit { ts: _, label, args: _ } => {
            lemma_iid_stable_intern(st.events, label@, lbl);
        },
        Message::Event { ts: _, label, args: _ } => {
            lemma_iid_stable_intern(st.events, label@, lbl);
        },
    }
}

/// Shape of the per-message packets: one per message, all flagged as
/// needing incremental state, all on the given sequence id and uid.
proof fn lemma_packets_from_headers(
    msgs: Seq<Message>,
    uid: i32,
    seq_id: u32,
    tid: u64,
    st: InternView,
)
    ensures
        packets_from(msgs, uid, seq_id, tid, st).len() == msgs.len(),
        forall|i: int|
            0 <= i < msgs.len() ==> {
                let p = #[trigger] packets_from(msgs, uid, seq_id, tid, st)[i];
                p.sequence_flags == SEQ_NEEDS_INCREMENTAL_STATE && p.trusted_packet_sequence_id
                    == seq_id && p.trusted_uid == uid
            },
    decreases msgs.len(),
{
    reveal(packets_from);
    reveal(msg_packet);
    if msgs.len() == 0 {
    } else {
        lemma_packets_from_headers(msgs.drop_first(), uid, seq_id, tid, st_after(msgs[0], st));
        let pf = packets_from(msgs, uid, seq_id, tid, st);
        let tail = packets_from(msgs.drop_first(), uid, seq_id, tid, st_after(msgs[0], st));
        assert forall|i: int|
            0 <= i < msgs.len() implies {
            let p = #[trigger] pf[i];
            p.sequence_flags == SEQ_NEEDS_INCREMENTAL_STATE && p.trusted_packet_sequence_id
                == seq_id && p.trusted_uid == uid
        } by {
            if i > 0 {
                assert(pf[i] == tail[i - 1]);
            }
        }
    }
}

/// Every packet of a processed buffer carries the sequence id of its
/// originating thread: `1 + thread_id`.
pub proof fn lemma_sequence_ids(msgs: Seq<Message>, trusted_uid: i32, tid: u64)
    ensures
        forall|i: int|
            0 <= i < buffer_packets(msgs, trusted_uid, tid).len() ==> (#[trigger] buffer_packets(
                msgs,
                trusted_uid,
                tid,
            )[i]).trusted_packet_sequence_id == seq_id_of(tid),
{
    if msgs.len() == 0 {
    } else {
        lemma_packets_from_headers(msgs, trusted_uid, seq_id_of(tid), tid, intern_empty());
        let bp = buffer_packets(msgs, trusted_uid, tid);
        let pf = packets_from(msgs, trusted_uid, seq_id_of(tid), tid, intern_empty());
        assert forall|i: int|
            0 <= i < bp.len() implies (#[trigger] bp[i]).trusted_packet_sequence_id == seq_id_of(
            tid,
        ) by {
            if i > 0 {
                assert(bp[i] == pf[i - 1]);
            }
        }
    }
}

/// The first packet of a buffer announces the cleared interning state;
/// every later packet of the buffer leans on it.
pub proof fn lemma_sequence_flags(msgs: Seq<Message>, trusted_uid: i32, tid: u64)
    requires
        msgs.len() > 0,
    ensures
        buffer_packets(msgs, trusted_uid, tid)[0].sequence_flags
            == SEQ_INCREMENTAL_STATE_CLEARED,
        forall|i: int|
            1 <= i < buffer_packets(msgs, trusted_uid, tid).len() ==> (#[trigger] buffer_packets(
                msgs,
                trusted_uid,
                tid,
            )[i]).sequence_flags == SEQ_NEEDS_INCREMENTAL_STATE,
{
    lemma_packets_from_headers(msgs, trusted_uid, seq_id_of(tid), tid, intern_empty());
    let bp = buffer_packets(msgs, trusted_uid, tid);
    let pf = packets_from(msgs, trusted_uid, seq_id_of(tid), tid, intern_empty());
    assert forall|i: int|
        1 <= i < bp.len() implies (#[trigger] bp[i]).sequence_flags
        == SEQ_NEEDS_INCREMENTAL_STATE by {
        assert(bp[i] == pf[i - 1]);
    }
}

/// While a label is interned, no later packet of the run carries an
/// interned-name entry for it.
proof fn lemma_pf_no_entry(
    msgs: Seq<Message>,
    uid: i32,
    seq_id: u32,
    tid: u64,
    st: InternView,
    lbl: Seq<char>,
)
    requires
        has_name(st.events, lbl),
    ensures
        forall|k: int|
            0 <= k < msgs.len() ==> !packet_has_event_entry(
                #[trigger] packets_from(msgs, uid, seq_id, tid, st)[k],
                lbl,
            ),
    decreases msgs.len(),
{
    reveal(packets_from);
    reveal(msg_packet);
    if msgs.len() == 0 {
    } else {
        lemma_st_after_events(msgs[0], st, lbl);
        lemma_pf_no_entry(msgs.drop_first(), uid, seq_id, tid, st_after(msgs[0], st), lbl);
        lemma_packets_from_headers(msgs, uid, seq_id, tid, st);
        lemma_packets_from_headers(msgs.drop_first(), uid, seq_id, tid, st_after(msgs[0], st));
        let pf = packets_from(msgs, uid, seq_id, tid, st);
        let tail = packets_from(msgs.drop_first(), uid, seq_id, tid, st_after(msgs[0], st));
        assert forall|k: int|
            0 <= k < msgs.len() implies !packet_has_event_entry(#[trigger] pf[k], lbl) by {
            if k == 0 {
                assert(!packet_has_event_entry(pf[0], lbl));
            } else {
                assert(pf[k] == tail[k - 1]);
            }
        }
    }
}

/// While a label is interned, every later use of it references the same
/// id.
proof fn lemma_pf_label_iid(
    msgs: Seq<Message>,
    uid: i32,
    seq_id: u32,
    tid: u64,
    st: InternView,
    lbl: Seq<char>,
    j: int,
)
    requires
        0 <= j < msgs.len(),
        event_label(msgs[j]) == Some(lbl),
        has_name(st.events, lbl),
    ensures
        packet_name_iid(packets_from(msgs, uid, seq_id, tid, st)[j]) == Some(
            name_iid(st.events, lbl) as u64,
        ),
    decreases msgs.len(),
{
    reveal(packets_from);
    reveal(msg_packet);
    if j == 0 {
    } else {
        lemma_st_after_events(msgs[0], st, lbl);
        lemma_pf_label_iid(
            msgs.drop_first(),
            uid,
            seq_id,
            tid,
            st_after(msgs[0], st),
            lbl,
            j - 1,
        );
        lemma_packets_from_headers(msgs, uid, seq_id, tid, st);
        lemma_packets_from_headers(msgs.drop_first(), uid, seq_id, tid, st_after(msgs[0], st));
        let pf = packets_from(msgs, uid, seq_id, tid, st);
        let tail = packets_from(msgs.drop_first(), uid, seq_id, tid, st_after(msgs[0], st));
        assert(pf[j] == tail[j - 1]);
    }
}

/// Pairwise form of the once-only interning, over the raw message run.
proof fn lemma_pf_entry_once(
    msgs: Seq<Message>,
    uid: i32,
    seq_id: u32,
    tid: u64,
    st: InternView,
    lbl: Seq<char>,
    i: int,
    j: int,
)
    requires
        0 <= i < j < msgs.len(),
        packet_has_event_entry(packets_from(msgs, uid, seq_id, tid, st)[i], lbl),
    ensures
        !packet_has_event_entry(packets_from(msgs, uid, seq_id, tid, st)[j], lbl),
    decreases msgs.len(),
{
    reveal(packets_from);
    reveal(msg_packet);
    let pf = packets_from(msgs, uid, seq_id, tid, st);
    let st1 = st_after(msgs[0], st);
    let tail = packets_from(msgs.drop_first(), uid, seq_id, tid, st1);
    lemma_packets_from_headers(msgs, uid, seq_id, tid, st);
    lemma_packets_from_headers(msgs.drop_first(), uid, seq_id, tid, st1);
    if i == 0 {
        match msgs[0] {
            Message::NewThread(_, _) => {
                assert(false);
            },
            Message::Enter { ts: _, label, args: _ } => {
                assert(label@ == lbl);
                lemma_iid_after_intern(st.events, lbl);
            },
            Message::Exit { ts: _, label, args: _ } => {
                assert(label@ == lbl);
                lemma_iid_after_intern(st.events, lbl);
            },
            Message::Event { ts: _, label, args: _ } => {
                assert(label@ == lbl);
                lemma_iid_after_intern(st.events, lbl);
            },
        }
        assert(has_name(st1.events, lbl));
        lemma_pf_no_entry(msgs.drop_first(), uid, seq_id, tid, st1, lbl);
        assert(pf[j] == tail[j - 1]);
    } else {
        assert(pf[i] == tail[i - 1]);
        lemma_pf_entry_once(msgs.drop_first(), uid, seq_id, tid, st1, lbl, i - 1, j - 1);
        assert(pf[j] == tail[j - 1]);
    }
}

/// Pairwise form of id consistency, over the raw message run.
proof fn lemma_pf_iid_pair(
    msgs: Seq<Message>,
    uid: i32,
    seq_id: u32,
    tid: u64,
    st: InternView,
    i: int,
    j: int,
)
    requires
        0 <= i < j < msgs.len(),
        event_label(msgs[i]) is Some,
        event_label(msgs[i]) == event_label(msgs[j]),
    ensures
        packet_name_iid(packets_from(msgs, uid, seq_id, tid, st)[i]) == packet_name_iid(
            packets_from(msgs, uid, seq_id, tid, st)[j],
        ),
    decreases msgs.len(),
{
    reveal(packets_from);
    reveal(msg_packet);
    let pf = packets_from(msgs, uid, seq_id, tid, st);
    let st1 = st_after(msgs[0], st);
    let tail = packets_from(msgs.drop_first(), uid, seq_id, tid, st1);
    lemma_packets_from_headers(msgs, uid, seq_id, tid, st);
    lemma_packets_from_headers(msgs.drop_first(), uid, seq_id, tid, st1);
    if i == 0 {
        let lbl = event_label(msgs[0])->Some_0;
        match msgs[0] {
            Message::NewThread(_, _) => {
                assert(false);
            },
            Message::Enter { ts: _, label, args: _ } => {
                lemma_iid_after_intern(st.events, lbl);
            },
            Message::Exit { ts: _, label, args: _ } => {
                lemma_iid_after_intern(st.events, lbl);
            },
            Message::Event { ts: _, label, args: _ } => {
                lemma_iid_after_intern(st.events, lbl);
            },
        }
        assert(packet_name_iid(pf[0]) == Some(name_iid(st.events, lbl) as u64));
        lemma_pf_label_iid(msgs.drop_first(), uid, seq_id, tid, st1, lbl, j - 1);
        assert(pf[j] == tail[j - 1]);
    } else {
        assert(pf[i] == tail[i - 1]);
        lemma_pf_iid_pair(msgs.drop_first(), uid, seq_id, tid, st1, i - 1, j - 1);
        assert(pf[j] == tail[j - 1]);
    }
}

/// Within one processed buffer, the interned-name entry for a label is
/// attached to at most one packet: the one where the label first
/// appears.
pub proof fn lemma_intern_entry_once(
    msgs: Seq<Message>,
    trusted_uid: i32,
    tid: u64,
    lbl: Seq<char>,
    i: int,
    j: int,
)
    requires
        0 <= i < j < buffer_packets(msgs, trusted_uid, tid).len(),
        packet_has_event_entry(buffer_packets(msgs, trusted_uid, tid)[i], lbl),
    ensures
        !packet_has_event_entry(buffer_packets(msgs, trusted_uid, tid)[j], lbl),
{
    let bp = buffer_packets(msgs, trusted_uid, tid);
    let pf = packets_from(msgs, trusted_uid, seq_id_of(tid), tid, intern_empty());
    lemma_packets_from_headers(msgs, trusted_uid, seq_id_of(tid), tid, intern_empty());
    assert(i >= 1) by {
        if i == 0 {
            assert(bp[0] == start_packet(trusted_uid, tid));
        }
    }
    assert(bp[i] == pf[i - 1]);
    assert(bp[j] == pf[j - 1]);
    lemma_pf_entry_once(
        msgs,
        trusted_uid,
        seq_id_of(tid),
        tid,
        intern_empty(),
        lbl,
        i - 1,
        j - 1,
    );
}

/// Within one processed buffer, every use of one label references the
/// same interned id.
pub proof fn lemma_intern_iid_consistent(
    msgs: Seq<Message>,
    trusted_uid: i32,
    tid: u64,
    i: int,
    j: int,
)
    requires
        0 <= i < j < msgs.len(),
        event_label(msgs[i]) is Some,
        event_label(msgs[i]) == event_label(msgs[j]),
    ensures
        packet_name_iid(buffer_packets(msgs, trusted_uid, tid)[i + 1]) == packet_name_iid(
            buffer_packets(msgs, trusted_uid, tid)[j + 1],
        ),
        packet_name_iid(buffer_packets(msgs, trusted_uid, tid)[i + 1]) is Some,
{
    let bp = buffer_packets(msgs, trusted_uid, tid);
    let pf = packets_from(msgs, trusted_uid, seq_id_of(tid), tid, intern_empty());
    lemma_packets_from_headers(msgs, trusted_uid, seq_id_of(tid), tid, intern_empty());
    assert(bp[i + 1] == pf[i]);
    assert(bp[j + 1] == pf[j]);
    lemma_pf_iid_pair(msgs, trusted_uid, seq_id_of(tid), tid, intern_empty(), i, j);
    assert(packet_name_iid(pf[i]) is Some) by {
        reveal(packets_from);
        reveal(msg_packet);
        lemma_pf_some_iid(msgs, trusted_uid, seq_id_of(tid), tid, intern_empty(), i);
    }
}

/// A labelled message's packet always references an interned id.
proof fn lemma_pf_some_iid(
    msgs: Seq<Message>,
    uid: i32,
    seq_id: u32,
    tid: u64,
    st: InternView,
    i: int,
)
    requires
        0 <= i < msgs.len(),
        event_label(msgs[i]) is Some,
    ensures
        packet_name_iid(packets_from(msgs, uid, seq_id, tid, st)[i]) is Some,
    decreases msgs.len(),
{
    reveal(packets_from);
    reveal(msg_packet);
    if i == 0 {
    } else {
        let st1 = st_after(msgs[0], st);
        lemma_pf_some_iid(msgs.drop_first(), uid, seq_id, tid, st1, i - 1);
        lemma_packets_from_headers(msgs, uid, seq_id, tid, st);
        lemma_packets_from_headers(msgs.drop_first(), uid, seq_id, tid, st1);
        assert(packets_from(msgs, uid, seq_id, tid, st)[i] == packets_from(
            msgs.drop_first(),
            uid,
            seq_id,
            tid,
            st1,
        )[i - 1]);
    }
}



/// The timestamp a message's packet carries: the message's own
/// timestamp, or the reserved bootstrap value for a thread
/// announcement.
pub open spec fn msg_timestamp(m: Message) -> u64 {
    match m {
        Message::NewThread(_, _) => 1,
        Message::Enter { ts, label: _, args: _ } => ts,
        Message::Exit { ts, label: _, args: _ } => ts,
        Message::Event { ts, label: _, args: _ } => ts,
    }
}

/// Per-message packet timestamps, in message order.
proof fn lemma_pf_timestamps(
    msgs: Seq<Message>,
    uid: i32,
    seq_id: u32,
    tid: u64,
    st: InternView,
)
    ensures
        forall|i: int|
            0 <= i < msgs.len() ==> (#[trigger] packets_from(msgs, uid, seq_id, tid, st)[i]).timestamp
                == msg_timestamp(msgs[i]),
    decreases msgs.len(),
{
    reveal(packets_from);
    reveal(msg_packet);
    lemma_packets_from_headers(msgs, uid, seq_id, tid, st);
    if msgs.len() == 0 {
    } else {
        let st1 = st_after(msgs[0], st);
        lemma_pf_timestamps(msgs.drop_first(), uid, seq_id, tid, st1);
        lemma_packets_from_headers(msgs.drop_first(), uid, seq_id, tid, st1);
        let pf = packets_from(msgs, uid, seq_id, tid, st);
        let tail = packets_from(msgs.drop_first(), uid, seq_id, tid, st1);
        assert forall|i: int|
            0 <= i < msgs.len() implies (#[trigger] pf[i]).timestamp == msg_timestamp(
            msgs[i],
        ) by {
            if i > 0 {
                assert(pf[i] == tail[i - 1]);
            }
        }
    }
}

/// The packets of a processed buffer keep the order of the messages:
/// the packet after the sequence start at position `i` is the packet of
/// message `i`, carrying that message's timestamp.
pub proof fn lemma_packet_order(msgs: Seq<Message>, trusted_uid: i32, tid: u64)
    ensures
        msgs.len() > 0 ==> buffer_packets(msgs, trusted_uid, tid).len() == msgs.len() + 1,
        forall|i: int|
            0 <= i < msgs.len() ==> (#[trigger] buffer_packets(msgs, trusted_uid, tid)[i + 1]).timestamp
                == msg_timestamp(msgs[i]),
{
    if msgs.len() == 0 {
    } else {
        let bp = buffer_packets(msgs, trusted_uid, tid);
        let pf = packets_from(msgs, trusted_uid, seq_id_of(tid), tid, intern_empty());
        lemma_packets_from_headers(msgs, trusted_uid, seq_id_of(tid), tid, intern_empty());
        lemma_pf_timestamps(msgs, trusted_uid, seq_id_of(tid), tid, intern_empty());
        assert forall|i: int|
            0 <= i < msgs.len() implies (#[trigger] bp[i + 1]).timestamp == msg_timestamp(
            msgs[i],
        ) by {
            assert(bp[i + 1] == pf[i]);
        }
    }
}



/// How many packets a trace byte string frames.
pub open spec fn trace_packet_count(bytes: Seq<u8>) -> nat
    decreases bytes.len(),
{
    if bytes.len() < 4 {
        0
    } else {
        let n = varint_dec(bytes.subrange(1, 4)) as int;
        if bytes.len() >= 4 + n {
            1 + trace_packet_count(bytes.skip(4 + n))
        } else {
            0
        }
    }
}

/// One emitted packet adds one framed record.
proof fn lemma_packet_bytes_count(p: TracePacketV, rest: Seq<u8>)
    requires
        trace_packet_enc(p).len() < 0x20_0000,
    ensures
        trace_packet_count(packet_bytes(p) + rest) == 1 + trace_packet_count(rest),
{
    let enc = trace_packet_enc(p);
    let n = enc.len() as int;
    let whole = packet_bytes(p) + rest;
    assert(crate::emit::tag_enc(1, 2) == crate::emit::varint_enc(10)) by {
        assert(1 as nat * 8 + 2 == 10);
    }
    assert(crate::emit::varint_enc(10) == seq![10u8]);
    assert(packet_bytes(p) =~= seq![10u8] + crate::emit::len3_enc(enc.len()) + enc);
    assert(whole.subrange(1, 4) =~= crate::emit::len3_enc(enc.len()));
    crate::emit::lemma_len3_round_trip(enc.len());
    assert(varint_dec(whole.subrange(1, 4)) as int == n);
    assert(whole.skip(4 + n) =~= rest);
}

/// The file holds exactly the packets that fit: framed records plus
/// skipped packets add up to the run of packets.
pub proof fn lemma_emitted_count(ps: Seq<TracePacketV>)
    ensures
        trace_packet_count(emitted_bytes(ps)) + skipped_count(ps) == ps.len(),
    decreases ps.len(),
{
    reveal_with_fuel(emitted_bytes, 2);
    reveal_with_fuel(skipped_count, 2);
    if ps.len() == 0 {
    } else {
        lemma_emitted_count(ps.drop_first());
        if full_fits(ps[0]) {
            lemma_packet_bytes_count(ps[0], emitted_bytes(ps.drop_first()));
        } else {
            assert(emitted_bytes(ps) =~= emitted_bytes(ps.drop_first()));
        }
    }
}

/// What one processed buffer puts in the file, counted: every packet of
/// the buffer stands in the bytes but the skipped ones.
pub proof fn lemma_buffer_byte_count(msgs: Seq<Message>, trusted_uid: i32, tid: u64)
    ensures
        trace_packet_count(buffer_bytes(msgs, trusted_uid, tid)) + skipped_count(
            buffer_packets(msgs, trusted_uid, tid),
        ) == buffer_packets(msgs, trusted_uid, tid).len(),
{
    lemma_emitted_count(buffer_packets(msgs, trusted_uid, tid));
}



/// Membership in a dictionary extended by one name.
proof fn lemma_has_name_push(names: Seq<Seq<char>>, x: Seq<char>, n: Seq<char>)
    ensures
        has_name(names.push(x), n) <==> (has_name(names, n) || x == n),
{
    if has_name(names.push(x), n) {
        let k = choose|k: int| 0 <= k < names.push(x).len() && names.push(x)[k] == n;
        if k < names.len() {
            assert(names[k] == n);
        }
    }
    if has_name(names, n) {
        let k = choose|k: int| 0 <= k < names.len() && names[k] == n;
        assert(names.push(x)[k] == n);
    }
    if x == n {
        assert(names.push(x)[names.len() as int] == n);
    }
}

/// Whether some message of a run carries the label.
pub open spec fn run_has_label(msgs: Seq<Message>, lbl: Seq<char>) -> bool {
    exists|k: int| 0 <= k < msgs.len() && event_label(msgs[k]) == Some(lbl)
}

/// An event name is interned after a run exactly when it was interned
/// before or some message of the run carries it.
proof fn lemma_events_membership(msgs: Seq<Message>, st: InternView, lbl: Seq<char>)
    ensures
        has_name(st_after_all(msgs, st).events, lbl) <==> (has_name(st.events, lbl)
            || run_has_label(msgs, lbl)),
    decreases msgs.len(),
{
    reveal(st_after_all);
    if msgs.len() == 0 {
    } else {
        let st1 = st_after(msgs[0], st);
        lemma_events_membership(msgs.drop_first(), st1, lbl);
        assert(has_name(st1.events, lbl) <==> (has_name(st.events, lbl) || event_label(msgs[0])
            == Some(lbl))) by {
            match msgs[0] {
                Message::NewThread(_, _) => {},
                Message::Enter { ts: _, label, args: _ } => {
                    if !has_name(st.events, label@) {
                        lemma_has_name_push(st.events, label@, lbl);
                    }
                },
                Message::Exit { ts: _, label, args: _ } => {
                    if !has_name(st.events, label@) {
                        lemma_has_name_push(st.events, label@, lbl);
                    }
                },
                Message::Event { ts: _, label, args: _ } => {
                    if !has_name(st.events, label@) {
                        lemma_has_name_push(st.events, label@, lbl);
                    }
                },
            }
        }
        assert(run_has_label(msgs, lbl) <==> (event_label(msgs[0]) == Some(lbl)
            || run_has_label(msgs.drop_first(), lbl))) by {
            if run_has_label(msgs, lbl) {
                let k = choose|k: int|
                    0 <= k < msgs.len() && event_label(msgs[k]) == Some(lbl);
                if k > 0 {
                    assert(msgs.drop_first()[k - 1] == msgs[k]);
                }
            }
            if event_label(msgs[0]) == Some(lbl) {
                assert(0 <= 0 < msgs.len() && event_label(msgs[0]) == Some(lbl));
            }
            if run_has_label(msgs.drop_first(), lbl) {
                let k = choose|k: int|
                    0 <= k < msgs.drop_first().len() && event_label(msgs.drop_first()[k])
                        == Some(lbl);
                assert(msgs[k + 1] == msgs.drop_first()[k]);
            }
        }
    }
}

/// Each per-message packet is the packet of its message, taken at the
/// interning state the earlier messages left behind.
proof fn lemma_pf_index(
    msgs: Seq<Message>,
    uid: i32,
    seq_id: u32,
    tid: u64,
    st: InternView,
    i: int,
)
    requires
        0 <= i < msgs.len(),
    ensures
        packets_from(msgs, uid, seq_id, tid, st)[i] == msg_packet(
            msgs[i],
            uid,
            seq_id,
            tid,
            st_after_all(msgs.take(i), st),
        ),
    decreases msgs.len(),
{
    reveal(packets_from);
    reveal(st_after_all);
    lemma_packets_from_headers(msgs, uid, seq_id, tid, st);
    if i == 0 {
        assert(msgs.take(0) =~= Seq::<Message>::empty());
    } else {
        let st1 = st_after(msgs[0], st);
        lemma_pf_index(msgs.drop_first(), uid, seq_id, tid, st1, i - 1);
        lemma_packets_from_headers(msgs.drop_first(), uid, seq_id, tid, st1);
        assert(packets_from(msgs, uid, seq_id, tid, st)[i] == packets_from(
            msgs.drop_first(),
            uid,
            seq_id,
            tid,
            st1,
        )[i - 1]);
        assert(msgs.drop_first().take(i - 1) =~= msgs.take(i).drop_first());
        assert(st_after_all(msgs.take(i), st) == st_after_all(
            msgs.take(i).drop_first(),
            st_after(msgs.take(i)[0], st),
        ));
        assert(msgs.take(i)[0] == msgs[0]);
    }
}

/// The first use of a label within a buffer carries the interning entry
/// that defines it: a single event-name entry whose id is the one the
/// packet's track event references.
pub proof fn lemma_first_use_carries_entry(
    msgs: Seq<Message>,
    trusted_uid: i32,
    tid: u64,
    i: int,
)
    requires
        0 <= i < msgs.len(),
        event_label(msgs[i]) is Some,
        forall|k: int| 0 <= k < i ==> event_label(msgs[k]) != event_label(msgs[i]),
    ensures
        ({
            let lbl = event_label(msgs[i])->Some_0;
            let p = buffer_packets(msgs, trusted_uid, tid)[i + 1];
            &&& packet_has_event_entry(p, lbl)
            &&& p.interned_data matches Some(d) && d.event_names.len() == 1
                && d.event_names[0].name == lbl && Some(d.event_names[0].iid)
                == packet_name_iid(p)
        }),
{
    reveal(msg_packet);
    let lbl = event_label(msgs[i])->Some_0;
    let st_i = st_after_all(msgs.take(i), intern_empty());
    lemma_packets_from_headers(msgs, trusted_uid, seq_id_of(tid), tid, intern_empty());
    lemma_pf_index(msgs, trusted_uid, seq_id_of(tid), tid, intern_empty(), i);
    assert(buffer_packets(msgs, trusted_uid, tid)[i + 1] == packets_from(
        msgs,
        trusted_uid,
        seq_id_of(tid),
        tid,
        intern_empty(),
    )[i]);
    lemma_events_membership(msgs.take(i), intern_empty(), lbl);
    assert(!run_has_label(msgs.take(i), lbl)) by {
        if run_has_label(msgs.take(i), lbl) {
            let k = choose|k: int|
                0 <= k < msgs.take(i).len() && event_label(msgs.take(i)[k]) == Some(lbl);
            assert(msgs.take(i)[k] == msgs[k]);
        }
    }
    assert(!has_name(st_i.events, lbl));
    let p = buffer_packets(msgs, trusted_uid, tid)[i + 1];
    match msgs[i] {
        Message::NewThread(_, _) => {
            assert(false);
        },
        Message::Enter { ts: _, label, args: _ } => {
            assert(label@ == lbl);
        },
        Message::Exit { ts: _, label, args: _ } => {
            assert(label@ == lbl);
        },
        Message::Event { ts: _, label, args: _ } => {
            assert(label@ == lbl);
        },
    }
    assert(p.interned_data matches Some(d) && d.event_names.len() == 1 && d.event_names[0].name
        == lbl);
    assert(packet_has_event_entry(p, lbl)) by {
        let d = p.interned_data->Some_0;
        assert(0 <= 0 < d.event_names.len() && d.event_names[0].name == lbl);
    }
}


} // verus!
