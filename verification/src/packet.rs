//! The Perfetto packet model and its wire encoding.
//!
//! Each packet type carries a spec-level encoding function; the `Emit`
//! impls are proved to append exactly those bytes.  Submessages ride in
//! fixed-width length-delimited fields (`nested` / `nested_small`), so a
//! packet whose submessage outgrows the reserved length fails to emit
//! with `NestedMessageTooLarge` and leaves the caller to skip it.

use vstd::prelude::*;
use vstd::utf8::encode_utf8;

use crate::emit::{le8_enc, nested_enc, nested_small_enc, tag_enc, varint_enc, EmitError, ProtoEmitter};

verus! {

/// Sequence flag: the interning state of this sequence was cleared.
pub const SEQ_INCREMENTAL_STATE_CLEARED: u32 = 1;

/// Sequence flag: the packet leans on earlier interning state.
pub const SEQ_NEEDS_INCREMENTAL_STATE: u32 = 2;

/// A varint-valued field, tag included.
pub open spec fn varint_field_enc(field_id: u32, v: nat) -> Seq<u8> {
    tag_enc(field_id, 0) + varint_enc(v)
}

/// A string field, tag and byte length included.
pub open spec fn string_field_enc(field_id: u32, s: Seq<char>) -> Seq<u8> {
    tag_enc(field_id, 2) + varint_enc(encode_utf8(s).len()) + encode_utf8(s)
}

/// A fixed 64-bit field, tag included.
pub open spec fn double_field_enc(field_id: u32, bits: u64) -> Seq<u8> {
    tag_enc(field_id, 1) + le8_enc(bits)
}

/// A string carried either verbatim or as an interning id.
pub enum IString {
    Plain(String),
    Interned(u64),
}

/// The spec-level image of an `IString`.
#[verifier::ext_equal]
pub enum IStringV {
    Plain(Seq<char>),
    Interned(u64),
}

impl View for IString {
    type V = IStringV;

    open spec fn view(&self) -> IStringV {
        match self {
            IString::Plain(s) => IStringV::Plain(s@),
            IString::Interned(iid) => IStringV::Interned(*iid),
        }
    }
}

/// The kind of a track event.
pub enum EventType {
    Instant,
    SliceBegin,
    SliceEnd,
    Counter,
}

/// The wire value of an event type.
pub open spec fn event_type_id(t: EventType) -> nat {
    match t {
        EventType::Instant => 3,
        EventType::SliceBegin => 1,
        EventType::SliceEnd => 2,
        EventType::Counter => 4,
    }
}

impl EventType {
    pub fn id(&self) -> (r: u64)
        ensures
            r as nat == event_type_id(*self),
    {
        match self {
            EventType::Instant => 3,
            EventType::SliceBegin => 1,
            EventType::SliceEnd => 2,
            EventType::Counter => 4,
        }
    }
}

/// A counter sample riding on a track event.
pub enum CounterValue {
    Int64(i64),
    /// An IEEE-754 double, by its bits.
    Double(u64),
}

/// The value part of a debug annotation.
pub enum DebugValue {
    Bool(bool),
    Uint(u64),
    Int(i64),
    /// An IEEE-754 double, by its bits.
    Double(u64),
    Str(String),
}

/// The spec-level image of a `DebugValue`.
#[verifier::ext_equal]
pub enum DebugValueV {
    Bool(bool),
    Uint(u64),
    Int(i64),
    Double(u64),
    Str(Seq<char>),
}

impl View for DebugValue {
    type V = DebugValueV;

    open spec fn view(&self) -> DebugValueV {
        match self {
            DebugValue::Bool(b) => DebugValueV::Bool(*b),
            DebugValue::Uint(v) => DebugValueV::Uint(*v),
            DebugValue::Int(v) => DebugValueV::Int(*v),
            DebugValue::Double(bits) => DebugValueV::Double(*bits),
            DebugValue::Str(s) => DebugValueV::Str(s@),
        }
    }
}

/// One debug annotation: a name (interned or verbatim) and a value.
pub struct DebugAnnotation {
    pub name: IString,
    pub value: DebugValue,
}

/// The spec-level image of a `DebugAnnotation`.
#[verifier::ext_equal]
pub struct DebugAnnotationV {
    pub name: IStringV,
    pub value: DebugValueV,
}

impl View for DebugAnnotation {
    type V = DebugAnnotationV;

    open spec fn view(&self) -> DebugAnnotationV {
        DebugAnnotationV { name: self.name@, value: self.value@ }
    }
}

/// The encoding of a debug-annotation value.
pub open spec fn debug_value_enc(v: DebugValueV) -> Seq<u8> {
    match v {
        DebugValueV::Bool(b) => varint_field_enc(2, if b { 1 } else { 0 }),
        DebugValueV::Uint(n) => varint_field_enc(3, n as nat),
        DebugValueV::Int(n) => varint_field_enc(4, (n as u64) as nat),
        DebugValueV::Double(bits) => double_field_enc(5, bits),
        DebugValueV::Str(s) => string_field_enc(6, s),
    }
}

/// The encoding of a debug annotation.
pub open spec fn debug_annotation_enc(d: DebugAnnotationV) -> Seq<u8> {
    (match d.name {
        IStringV::Plain(s) => string_field_enc(10, s),
        IStringV::Interned(n) => varint_field_enc(1, n as nat),
    }) + debug_value_enc(d.value)
}

/// The encoding of a run of debug annotations, each a `nested` field 4.
pub open spec fn annotations_enc(ds: Seq<DebugAnnotationV>) -> Seq<u8>
    decreases ds.len(),
{
    if ds.len() == 0 {
        Seq::empty()
    } else {
        nested_enc(4, debug_annotation_enc(ds[0])) + annotations_enc(ds.drop_first())
    }
}

/// Every annotation body fits its three-byte length field.
pub open spec fn annotations_fit(ds: Seq<DebugAnnotationV>) -> bool {
    forall|i: int|
        0 <= i < ds.len() ==> (#[trigger] debug_annotation_enc(ds[i])).len() < 0x20_0000
}

pub proof fn lemma_annotations_enc_push(ds: Seq<DebugAnnotationV>, d: DebugAnnotationV)
    ensures
        annotations_enc(ds.push(d)) == annotations_enc(ds) + nested_enc(
            4,
            debug_annotation_enc(d),
        ),
    decreases ds.len(),
{
    reveal_with_fuel(annotations_enc, 3);
    let whole = ds.push(d);
    assert(whole[0] == if ds.len() == 0 { d } else { ds[0] });
    if ds.len() == 0 {
        assert(whole.drop_first() =~= Seq::<DebugAnnotationV>::empty());
        assert(annotations_enc(Seq::<DebugAnnotationV>::empty()) == Seq::<u8>::empty());
        assert(annotations_enc(whole) == nested_enc(4, debug_annotation_enc(d)) + Seq::<
            u8,
        >::empty());
        assert(annotations_enc(whole) =~= annotations_enc(ds) + nested_enc(
            4,
            debug_annotation_enc(d),
        ));
    } else {
        assert(whole[0] == ds[0]);
        assert(whole.drop_first() =~= ds.drop_first().push(d));
        lemma_annotations_enc_push(ds.drop_first(), d);
        assert(annotations_enc(whole) =~= annotations_enc(ds) + nested_enc(
            4,
            debug_annotation_enc(d),
        ));
    }
}

/// A track event: the body of most packets.
pub struct TrackEvent {
    pub event_type: EventType,
    pub name: Option<IString>,
    pub debug_annotations: Vec<DebugAnnotation>,
    pub counter_value: Option<CounterValue>,
}

/// The spec-level image of a `TrackEvent`.
#[verifier::ext_equal]
pub struct TrackEventV {
    pub event_type: EventType,
    pub name: Option<IStringV>,
    pub debug_annotations: Seq<DebugAnnotationV>,
    pub counter_value: Option<CounterValue>,
}

impl View for TrackEvent {
    type V = TrackEventV;

    open spec fn view(&self) -> TrackEventV {
        TrackEventV {
            event_type: self.event_type,
            name: match &self.name {
                Some(n) => Some(n@),
                None => None,
            },
            debug_annotations: self.debug_annotations@.map_values(|d: DebugAnnotation| d@),
            counter_value: self.counter_value,
        }
    }
}

/// The encoding of a track event's name field, if any.
pub open spec fn event_name_field_enc(name: Option<IStringV>) -> Seq<u8> {
    match name {
        Some(IStringV::Plain(s)) => string_field_enc(23, s),
        Some(IStringV::Interned(iid)) => varint_field_enc(10, iid as nat),
        None => Seq::empty(),
    }
}

/// The encoding of a track event's counter field, if any.
pub open spec fn counter_value_enc(c: Option<CounterValue>) -> Seq<u8> {
    match c {
        Some(CounterValue::Int64(v)) => varint_field_enc(30, (v as u64) as nat),
        Some(CounterValue::Double(bits)) => double_field_enc(44, bits),
        None => Seq::empty(),
    }
}

/// The encoding of a track event.
pub open spec fn track_event_enc(ev: TrackEventV) -> Seq<u8> {
    varint_field_enc(9, event_type_id(ev.event_type)) + event_name_field_enc(ev.name)
        + annotations_enc(ev.debug_annotations) + counter_value_enc(ev.counter_value)
}

/// Whether every part of a track event fits its length field.
pub open spec fn track_event_fits(ev: TrackEventV) -> bool {
    annotations_fit(ev.debug_annotations)
}

/// Defaults attached to the first packet of a sequence.
pub struct TracePacketDefaults {
    pub timestamp_clock_id: u32,
    pub track_event_defaults: Option<TrackEventDefaults>,
}

/// Track-event defaults: the track every event of the sequence rides on.
pub struct TrackEventDefaults {
    pub track_uuid: u64,
}

/// The encoding of track-event defaults.
pub open spec fn track_event_defaults_enc(d: TrackEventDefaults) -> Seq<u8> {
    varint_field_enc(11, d.track_uuid as nat)
}

/// The encoding of packet defaults.
pub open spec fn trace_packet_defaults_enc(d: TracePacketDefaults) -> Seq<u8> {
    varint_field_enc(58, d.timestamp_clock_id as nat) + (match d.track_event_defaults {
        Some(t) => nested_enc(11, track_event_defaults_enc(t)),
        None => Seq::empty(),
    })
}

/// Whether packet defaults fit their length field.
pub open spec fn trace_packet_defaults_fits(d: TracePacketDefaults) -> bool {
    match d.track_event_defaults {
        Some(t) => track_event_defaults_enc(t).len() < 0x20_0000,
        None => true,
    }
}

/// The unit of a counter track.
pub enum CounterUnit {
    Unspecified,
    TimeNs,
    Count,
    SizeBytes,
}

/// The wire value of a counter unit.
pub open spec fn counter_unit_id(u: CounterUnit) -> nat {
    match u {
        CounterUnit::Unspecified => 0,
        CounterUnit::TimeNs => 1,
        CounterUnit::Count => 2,
        CounterUnit::SizeBytes => 3,
    }
}

impl CounterUnit {
    pub fn id(&self) -> (r: u64)
        ensures
            r as nat == counter_unit_id(*self),
    {
        match self {
            CounterUnit::Unspecified => 0,
            CounterUnit::TimeNs => 1,
            CounterUnit::Count => 2,
            CounterUnit::SizeBytes => 3,
        }
    }
}

/// Marks a track as a counter track.
pub struct CounterDescriptor {
    pub unit: CounterUnit,
}

/// The encoding of a counter descriptor.
pub open spec fn counter_descriptor_enc(c: CounterDescriptor) -> Seq<u8> {
    varint_field_enc(3, counter_unit_id(c.unit))
}

/// A track descriptor: names the track a sequence rides on.
pub struct TrackDescriptor {
    pub uuid: u64,
    pub name: String,
    pub counter: Option<CounterDescriptor>,
}

/// The spec-level image of a `TrackDescriptor`.
#[verifier::ext_equal]
pub struct TrackDescriptorV {
    pub uuid: u64,
    pub name: Seq<char>,
    pub counter: Option<CounterDescriptor>,
}

impl View for TrackDescriptor {
    type V = TrackDescriptorV;

    open spec fn view(&self) -> TrackDescriptorV {
        TrackDescriptorV { uuid: self.uuid, name: self.name@, counter: self.counter }
    }
}

/// The encoding of a track descriptor.
pub open spec fn track_descriptor_enc(t: TrackDescriptorV) -> Seq<u8> {
    varint_field_enc(1, t.uuid as nat) + string_field_enc(2, t.name) + (match t.counter {
        Some(c) => nested_small_enc(8, counter_descriptor_enc(c)),
        None => Seq::empty(),
    })
}

/// Whether a track descriptor fits its length fields.
pub open spec fn track_descriptor_fits(t: TrackDescriptorV) -> bool {
    match t.counter {
        Some(c) => counter_descriptor_enc(c).len() < 0x4000,
        None => true,
    }
}

/// One interned event name.
pub struct EventName {
    pub iid: u64,
    pub name: String,
}

/// The spec-level image of an `EventName`.
#[verifier::ext_equal]
pub struct EventNameV {
    pub iid: u64,
    pub name: Seq<char>,
}

impl View for EventName {
    type V = EventNameV;

    open spec fn view(&self) -> EventNameV {
        EventNameV { iid: self.iid, name: self.name@ }
    }
}

/// One interned debug-annotation name.
pub struct DebugAnnotationName {
    pub iid: u64,
    pub name: String,
}

/// The spec-level image of a `DebugAnnotationName`.
#[verifier::ext_equal]
pub struct DebugAnnotationNameV {
    pub iid: u64,
    pub name: Seq<char>,
}

impl View for DebugAnnotationName {
    type V = DebugAnnotationNameV;

    open spec fn view(&self) -> DebugAnnotationNameV {
        DebugAnnotationNameV { iid: self.iid, name: self.name@ }
    }
}

/// The encoding of one interned-name entry (both tables share it).
pub open spec fn name_entry_enc(iid: u64, name: Seq<char>) -> Seq<u8> {
    varint_field_enc(1, iid as nat) + string_field_enc(2, name)
}

/// Newly interned names, attached to the packet that introduced them.
pub struct InternedData {
    pub event_names: Vec<EventName>,
    pub debug_annotation_names: Vec<DebugAnnotationName>,
}

/// The spec-level image of an `InternedData`.
#[verifier::ext_equal]
pub struct InternedDataV {
    pub event_names: Seq<EventNameV>,
    pub debug_annotation_names: Seq<DebugAnnotationNameV>,
}

impl View for InternedData {
    type V = InternedDataV;

    open spec fn view(&self) -> InternedDataV {
        InternedDataV {
            event_names: self.event_names@.map_values(|e: EventName| e@),
            debug_annotation_names: self.debug_annotation_names@.map_values(
                |e: DebugAnnotationName| e@,
            ),
        }
    }
}

/// The encoding of the event-name entries, each a `nested_small` field 2.
pub open spec fn event_names_enc(es: Seq<EventNameV>) -> Seq<u8>
    decreases es.len(),
{
    if es.len() == 0 {
        Seq::empty()
    } else {
        nested_small_enc(2, name_entry_enc(es[0].iid, es[0].name)) + event_names_enc(
            es.drop_first(),
        )
    }
}

/// The encoding of the annotation-name entries, each a `nested_small`
/// field 3.
pub open spec fn annotation_names_enc(es: Seq<DebugAnnotationNameV>) -> Seq<u8>
    decreases es.len(),
{
    if es.len() == 0 {
        Seq::empty()
    } else {
        nested_small_enc(3, name_entry_enc(es[0].iid, es[0].name)) + annotation_names_enc(
            es.drop_first(),
        )
    }
}

pub proof fn lemma_event_names_enc_push(es: Seq<EventNameV>, e: EventNameV)
    ensures
        event_names_enc(es.push(e)) == event_names_enc(es) + nested_small_enc(
            2,
            name_entry_enc(e.iid, e.name),
        ),
    decreases es.len(),
{
    reveal_with_fuel(event_names_enc, 3);
    let whole = es.push(e);
    assert(whole[0] == if es.len() == 0 { e } else { es[0] });
    if es.len() == 0 {
        assert(whole.drop_first() =~= Seq::<EventNameV>::empty());
        assert(event_names_enc(Seq::<EventNameV>::empty()) == Seq::<u8>::empty());
        assert(event_names_enc(whole) =~= event_names_enc(es) + nested_small_enc(
            2,
            name_entry_enc(e.iid, e.name),
        ));
    } else {
        assert(whole[0] == es[0]);
        assert(whole.drop_first() =~= es.drop_first().push(e));
        lemma_event_names_enc_push(es.drop_first(), e);
        assert(event_names_enc(whole) =~= event_names_enc(es) + nested_small_enc(
            2,
            name_entry_enc(e.iid, e.name),
        ));
    }
}

pub proof fn lemma_annotation_names_enc_push(es: Seq<DebugAnnotationNameV>, e: DebugAnnotationNameV)
    ensures
        annotation_names_enc(es.push(e)) == annotation_names_enc(es) + nested_small_enc(
            3,
            name_entry_enc(e.iid, e.name),
        ),
    decreases es.len(),
{
    reveal_with_fuel(annotation_names_enc, 3);
    let whole = es.push(e);
    assert(whole[0] == if es.len() == 0 { e } else { es[0] });
    if es.len() == 0 {
        assert(whole.drop_first() =~= Seq::<DebugAnnotationNameV>::empty());
        assert(annotation_names_enc(Seq::<DebugAnnotationNameV>::empty()) == Seq::<u8>::empty());
        assert(annotation_names_enc(whole) =~= annotation_names_enc(es) + nested_small_enc(
            3,
            name_entry_enc(e.iid, e.name),
        ));
    } else {
        assert(whole[0] == es[0]);
        assert(whole.drop_first() =~= es.drop_first().push(e));
        lemma_annotation_names_enc_push(es.drop_first(), e);
        assert(annotation_names_enc(whole) =~= annotation_names_enc(es) + nested_small_enc(
            3,
            name_entry_enc(e.iid, e.name),
        ));
    }
}

/// The encoding of an interned-data submessage.
pub open spec fn interned_data_enc(d: InternedDataV) -> Seq<u8> {
    event_names_enc(d.event_names) + annotation_names_enc(d.debug_annotation_names)
}

/// Whether every interned-name entry fits its two-byte length field.
pub open spec fn interned_data_fits(d: InternedDataV) -> bool {
    &&& forall|i: int|
        0 <= i < d.event_names.len() ==> (#[trigger] name_entry_enc(
            d.event_names[i].iid,
            d.event_names[i].name,
        )).len() < 0x4000
    &&& forall|i: int|
        0 <= i < d.debug_annotation_names.len() ==> (#[trigger] name_entry_enc(
            d.debug_annotation_names[i].iid,
            d.debug_annotation_names[i].name,
        )).len() < 0x4000
}

/// The body of a trace packet.
pub enum PacketData {
    TrackEvent(TrackEvent),
    TrackDescriptor(TrackDescriptor),
    Empty,
}

/// The spec-level image of a `PacketData`.
#[verifier::ext_equal]
pub enum PacketDataV {
    TrackEvent(TrackEventV),
    TrackDescriptor(TrackDescriptorV),
    Empty,
}

impl View for PacketData {
    type V = PacketDataV;

    open spec fn view(&self) -> PacketDataV {
        match self {
            PacketData::TrackEvent(ev) => PacketDataV::TrackEvent(ev@),
            PacketData::TrackDescriptor(td) => PacketDataV::TrackDescriptor(td@),
            PacketData::Empty => PacketDataV::Empty,
        }
    }
}

/// The encoding of a packet body.
pub open spec fn packet_data_enc(d: PacketDataV) -> Seq<u8> {
    match d {
        PacketDataV::TrackEvent(ev) => nested_enc(11, track_event_enc(ev)),
        PacketDataV::TrackDescriptor(td) => nested_enc(60, track_descriptor_enc(td)),
        PacketDataV::Empty => Seq::empty(),
    }
}

/// Whether a packet body fits its length fields.
pub open spec fn packet_data_fits(d: PacketDataV) -> bool {
    match d {
        PacketDataV::TrackEvent(ev) => track_event_fits(ev) && track_event_enc(ev).len()
            < 0x20_0000,
        PacketDataV::TrackDescriptor(td) => track_descriptor_fits(td) && track_descriptor_enc(
            td,
        ).len() < 0x20_0000,
        PacketDataV::Empty => true,
    }
}

/// One trace packet.
pub struct TracePacket {
    pub timestamp: u64,
    pub data: PacketData,
    pub sequence_flags: u32,
    pub trusted_uid: i32,
    pub trusted_packet_sequence_id: u32,
    pub interned_data: Option<InternedData>,
    pub trace_packet_defaults: Option<TracePacketDefaults>,
}

/// The spec-level image of a `TracePacket`.
#[verifier::ext_equal]
pub struct TracePacketV {
    pub timestamp: u64,
    pub data: PacketDataV,
    pub sequence_flags: u32,
    pub trusted_uid: i32,
    pub trusted_packet_sequence_id: u32,
    pub interned_data: Option<InternedDataV>,
    pub trace_packet_defaults: Option<TracePacketDefaults>,
}

impl View for TracePacket {
    type V = TracePacketV;

    open spec fn view(&self) -> TracePacketV {
        TracePacketV {
            timestamp: self.timestamp,
            data: self.data@,
            sequence_flags: self.sequence_flags,
            trusted_uid: self.trusted_uid,
            trusted_packet_sequence_id: self.trusted_packet_sequence_id,
            interned_data: match &self.interned_data {
                Some(d) => Some(d@),
                None => None,
            },
            trace_packet_defaults: self.trace_packet_defaults,
        }
    }
}

/// The encoding of a whole trace packet.
pub open spec fn trace_packet_enc(p: TracePacketV) -> Seq<u8> {
    varint_field_enc(8, p.timestamp as nat) + varint_field_enc(
        3,
        (p.trusted_uid as u32) as nat,
    ) + varint_field_enc(13, p.sequence_flags as nat) + varint_field_enc(
        10,
        p.trusted_packet_sequence_id as nat,
    ) + packet_data_enc(p.data) + (match p.interned_data {
        Some(d) => nested_enc(12, interned_data_enc(d)),
        None => Seq::empty(),
    }) + (match p.trace_packet_defaults {
        Some(d) => nested_enc(59, trace_packet_defaults_enc(d)),
        None => Seq::empty(),
    })
}

/// Whether every part of a packet fits its length fields: exactly the
/// condition under which emitting the packet succeeds.
pub open spec fn trace_packet_fits(p: TracePacketV) -> bool {
    &&& packet_data_fits(p.data)
    &&& match p.interned_data {
        Some(d) => interned_data_fits(d) && interned_data_enc(d).len() < 0x20_0000,
        None => true,
    }
    &&& match p.trace_packet_defaults {
        Some(d) => trace_packet_defaults_fits(d) && trace_packet_defaults_enc(d).len()
            < 0x20_0000,
        None => true,
    }
}


/// Writes a value as protobuf bytes.  `enc` is the exact byte string an
/// `emit` appends, and `fits` says when every submessage fits its
/// fixed-width length field: `emit` succeeds exactly then.  On failure
/// the buffer holds an unfinished prefix, which the caller discards.
pub trait Emit {
    /// The wire encoding of this value.
    spec fn enc(&self) -> Seq<u8>;

    /// Whether every submessage fits its reserved length field.
    spec fn fits(&self) -> bool;

    fn emit(&self, out: &mut ProtoEmitter) -> (r: Result<(), EmitError>)
        ensures
            r is Ok <==> self.fits(),
            r is Ok ==> final(out)@ == old(out)@ + self.enc(),
    ;
}

impl Emit for TrackEventDefaults {
    open spec fn enc(&self) -> Seq<u8> {
        track_event_defaults_enc(*self)
    }

    open spec fn fits(&self) -> bool {
        true
    }

    fn emit(&self, out: &mut ProtoEmitter) -> (r: Result<(), EmitError>) {
        out.varint_field(11, self.track_uuid);
        Ok(())
    }
}

impl Emit for CounterDescriptor {
    open spec fn enc(&self) -> Seq<u8> {
        counter_descriptor_enc(*self)
    }

    open spec fn fits(&self) -> bool {
        true
    }

    fn emit(&self, out: &mut ProtoEmitter) -> (r: Result<(), EmitError>) {
        out.varint_field(3, self.unit.id());
        Ok(())
    }
}

impl Emit for EventName {
    open spec fn enc(&self) -> Seq<u8> {
        name_entry_enc(self.iid, self.name@)
    }

    open spec fn fits(&self) -> bool {
        true
    }

    fn emit(&self, out: &mut ProtoEmitter) -> (r: Result<(), EmitError>) {
        out.varint_field(1, self.iid);
        out.string_field(2, self.name.as_str());
        proof {
            assert(out@ =~= old(out)@ + self.enc());
        }
        Ok(())
    }
}

impl Emit for DebugAnnotationName {
    open spec fn enc(&self) -> Seq<u8> {
        name_entry_enc(self.iid, self.name@)
    }

    open spec fn fits(&self) -> bool {
        true
    }

    fn emit(&self, out: &mut ProtoEmitter) -> (r: Result<(), EmitError>) {
        out.varint_field(1, self.iid);
        out.string_field(2, self.name.as_str());
        proof {
            assert(out@ =~= old(out)@ + self.enc());
        }
        Ok(())
    }
}

impl Emit for DebugAnnotation {
    open spec fn enc(&self) -> Seq<u8> {
        debug_annotation_enc(self@)
    }

    open spec fn fits(&self) -> bool {
        true
    }

    fn emit(&self, out: &mut ProtoEmitter) -> (r: Result<(), EmitError>) {
        match &self.name {
            IString::Plain(s) => out.string_field(10, s.as_str()),
            IString::Interned(n) => out.varint_field(1, *n),
        }
        match &self.value {
            DebugValue::Bool(b) => out.varint_field(2, if *b { 1 } else { 0 }),
            DebugValue::Uint(n) => out.varint_field(3, *n),
            DebugValue::Int(n) => out.varint_field(4, #[verifier::truncate] (*n as u64)),
            DebugValue::Double(bits) => out.double_field(5, *bits),
            DebugValue::Str(s) => out.string_field(6, s.as_str()),
        }
        proof {
            assert(out@ =~= old(out)@ + self.enc());
        }
        Ok(())
    }
}

impl Emit for TracePacketDefaults {
    open spec fn enc(&self) -> Seq<u8> {
        trace_packet_defaults_enc(*self)
    }

    open spec fn fits(&self) -> bool {
        trace_packet_defaults_fits(*self)
    }

    fn emit(&self, out: &mut ProtoEmitter) -> (r: Result<(), EmitError>) {
        out.varint_field(58, self.timestamp_clock_id as u64);
        match &self.track_event_defaults {
            Some(defaults) => {
                let mut buf = ProtoEmitter::new();
                let inner = defaults.emit(&mut buf);
                proof {
                    assert(buf@ =~= track_event_defaults_enc(*defaults));
                }
                match out.nested(11, buf.as_bytes()) {
                    Ok(()) => {
                        proof {
                            assert(out@ =~= old(out)@ + self.enc());
                        }
                        Ok(())
                    },
                    Err(e) => Err(e),
                }
            },
            None => {
                proof {
                    assert(out@ =~= old(out)@ + self.enc());
                }
                Ok(())
            },
        }
    }
}

impl Emit for TrackDescriptor {
    open spec fn enc(&self) -> Seq<u8> {
        track_descriptor_enc(self@)
    }

    open spec fn fits(&self) -> bool {
        track_descriptor_fits(self@)
    }

    fn emit(&self, out: &mut ProtoEmitter) -> (r: Result<(), EmitError>) {
        out.varint_field(1, self.uuid);
        out.string_field(2, self.name.as_str());
        match &self.counter {
            Some(counter) => {
                let mut buf = ProtoEmitter::new();
                let inner = counter.emit(&mut buf);
                proof {
                    assert(buf@ =~= counter_descriptor_enc(*counter));
                }
                match out.nested_small(8, buf.as_bytes()) {
                    Ok(()) => {
                        proof {
                            assert(out@ =~= old(out)@ + self.enc());
                        }
                        Ok(())
                    },
                    Err(e) => Err(e),
                }
            },
            None => {
                proof {
                    assert(out@ =~= old(out)@ + self.enc());
                }
                Ok(())
            },
        }
    }
}

impl Emit for InternedData {
    open spec fn enc(&self) -> Seq<u8> {
        interned_data_enc(self@)
    }

    open spec fn fits(&self) -> bool {
        interned_data_fits(self@)
    }

    fn emit(&self, out: &mut ProtoEmitter) -> (r: Result<(), EmitError>) {
        let ghost base = out@;
        let ghost evs = self@.event_names;
        let ghost dans = self@.debug_annotation_names;
        let n = self.event_names.len();
        let mut i: usize = 0;
        while i < n
            invariant
                n == self.event_names.len(),
                i <= n,
                evs == self@.event_names,
                dans == self@.debug_annotation_names,
                evs.len() == n,
                out@ == base + event_names_enc(evs.take(i as int)),
                forall|j: int|
                    0 <= j < i ==> (#[trigger] name_entry_enc(evs[j].iid, evs[j].name)).len()
                        < 0x4000,
            decreases n - i,
        {
            let entry = &self.event_names[i];
            proof {
                assert(evs[i as int] == entry@);
            }
            let mut buf = ProtoEmitter::new();
            let inner = entry.emit(&mut buf);
            proof {
                assert(buf@ =~= name_entry_enc(evs[i as int].iid, evs[i as int].name));
            }
            match out.nested_small(2, buf.as_bytes()) {
                Ok(()) => {},
                Err(e) => {
                    proof {
                        assert(name_entry_enc(evs[i as int].iid, evs[i as int].name).len()
                            >= 0x4000);
                        assert(!self.fits());
                    }
                    return Err(e);
                },
            }
            proof {
                assert(evs.take(i + 1 as int) =~= evs.take(i as int).push(evs[i as int]));
                lemma_event_names_enc_push(evs.take(i as int), evs[i as int]);
                assert(out@ =~= base + event_names_enc(evs.take(i + 1 as int)));
            }
            i += 1;
        }
        proof {
            assert(evs.take(n as int) =~= evs);
        }
        let m = self.debug_annotation_names.len();
        let mut k: usize = 0;
        while k < m
            invariant
                m == self.debug_annotation_names.len(),
                k <= m,
                evs == self@.event_names,
                dans == self@.debug_annotation_names,
                dans.len() == m,
                out@ == base + event_names_enc(evs) + annotation_names_enc(dans.take(k as int)),
                forall|j: int|
                    0 <= j < evs.len() ==> (#[trigger] name_entry_enc(
                        evs[j].iid,
                        evs[j].name,
                    )).len() < 0x4000,
                forall|j: int|
                    0 <= j < k ==> (#[trigger] name_entry_enc(dans[j].iid, dans[j].name)).len()
                        < 0x4000,
            decreases m - k,
        {
            let entry = &self.debug_annotation_names[k];
            proof {
                assert(dans[k as int] == entry@);
            }
            let mut buf = ProtoEmitter::new();
            let inner = entry.emit(&mut buf);
            proof {
                assert(buf@ =~= name_entry_enc(dans[k as int].iid, dans[k as int].name));
            }
            match out.nested_small(3, buf.as_bytes()) {
                Ok(()) => {},
                Err(e) => {
                    proof {
                        assert(name_entry_enc(dans[k as int].iid, dans[k as int].name).len()
                            >= 0x4000);
                        assert(!self.fits());
                    }
                    return Err(e);
                },
            }
            proof {
                assert(dans.take(k + 1 as int) =~= dans.take(k as int).push(dans[k as int]));
                lemma_annotation_names_enc_push(dans.take(k as int), dans[k as int]);
                assert(out@ =~= base + event_names_enc(evs) + annotation_names_enc(
                    dans.take(k + 1 as int),
                ));
            }
            k += 1;
        }
        proof {
            assert(dans.take(m as int) =~= dans);
            assert(out@ =~= base + self.enc());
        }
        Ok(())
    }
}

impl InternedData {
    /// A fresh, empty attachment.
    pub fn new() -> (r: Self)
        ensures
            r@.event_names == Seq::<EventNameV>::empty(),
            r@.debug_annotation_names == Seq::<DebugAnnotationNameV>::empty(),
    {
        let r = InternedData { event_names: Vec::new(), debug_annotation_names: Vec::new() };
        proof {
            assert(r@.event_names =~= Seq::<EventNameV>::empty());
            assert(r@.debug_annotation_names =~= Seq::<DebugAnnotationNameV>::empty());
        }
        r
    }

    /// Whether nothing was newly interned.
    pub fn is_empty(&self) -> (r: bool)
        ensures
            r == (self@.event_names.len() == 0 && self@.debug_annotation_names.len() == 0),
    {
        self.event_names.is_empty() && self.debug_annotation_names.is_empty()
    }
}

impl Emit for TrackEvent {
    open spec fn enc(&self) -> Seq<u8> {
        track_event_enc(self@)
    }

    open spec fn fits(&self) -> bool {
        track_event_fits(self@)
    }

    #[verifier::rlimit(100)]
    fn emit(&self, out: &mut ProtoEmitter) -> (r: Result<(), EmitError>) {
        out.varint_field(9, self.event_type.id());
        match &self.name {
            Some(IString::Plain(s)) => out.string_field(23, s.as_str()),
            Some(IString::Interned(iid)) => out.varint_field(10, *iid),
            None => (),
        }
        let ghost head = old(out)@ + varint_field_enc(9, event_type_id(self.event_type))
            + event_name_field_enc(self@.name);
        proof {
            assert(out@ =~= head);
        }
        let ghost ds = self@.debug_annotations;
        let n = self.debug_annotations.len();
        let mut i: usize = 0;
        while i < n
            invariant
                n == self.debug_annotations.len(),
                i <= n,
                ds == self@.debug_annotations,
                ds.len() == n,
                out@ == head + annotations_enc(ds.take(i as int)),
                forall|j: int|
                    0 <= j < i ==> (#[trigger] debug_annotation_enc(ds[j])).len() < 0x20_0000,
            decreases n - i,
        {
            let d = &self.debug_annotations[i];
            proof {
                assert(ds[i as int] == d@);
            }
            let mut buf = ProtoEmitter::new();
            let inner = d.emit(&mut buf);
            proof {
                assert(buf@ =~= debug_annotation_enc(ds[i as int]));
            }
            match out.nested(4, buf.as_bytes()) {
                Ok(()) => {},
                Err(e) => {
                    proof {
                        assert(debug_annotation_enc(ds[i as int]).len() >= 0x20_0000);
                        assert(!self.fits());
                    }
                    return Err(e);
                },
            }
            proof {
                assert(ds.take(i + 1 as int) =~= ds.take(i as int).push(ds[i as int]));
                lemma_annotations_enc_push(ds.take(i as int), ds[i as int]);
                assert(out@ =~= head + annotations_enc(ds.take(i + 1 as int)));
            }
            i += 1;
        }
        proof {
            assert(ds.take(n as int) =~= ds);
        }
        match &self.counter_value {
            Some(CounterValue::Int64(v)) => out.varint_field(
                30,
                #[verifier::truncate] (*v as u64),
            ),
            Some(CounterValue::Double(bits)) => out.double_field(44, *bits),
            None => (),
        }
        proof {
            assert(out@ =~= old(out)@ + self.enc());
        }
        Ok(())
    }
}

impl Emit for TracePacket {
    open spec fn enc(&self) -> Seq<u8> {
        trace_packet_enc(self@)
    }

    open spec fn fits(&self) -> bool {
        trace_packet_fits(self@)
    }

    #[verifier::rlimit(100)]
    fn emit(&self, out: &mut ProtoEmitter) -> (r: Result<(), EmitError>) {
        out.varint_field(8, self.timestamp);
        out.varint_field(3, #[verifier::truncate] (self.trusted_uid as u32) as u64);
        out.varint_field(13, self.sequence_flags as u64);
        out.varint_field(10, self.trusted_packet_sequence_id as u64);
        let ghost head = old(out)@ + varint_field_enc(8, self.timestamp as nat)
            + varint_field_enc(3, (self.trusted_uid as u32) as nat) + varint_field_enc(
            13,
            self.sequence_flags as nat,
        ) + varint_field_enc(10, self.trusted_packet_sequence_id as nat);
        proof {
            assert(out@ =~= head);
        }
        match &self.data {
            PacketData::Empty => {},
            PacketData::TrackEvent(ev) => {
                let mut buf = ProtoEmitter::new();
                match ev.emit(&mut buf) {
                    Ok(()) => {},
                    Err(e) => {
                        proof {
                            assert(!self.fits());
                        }
                        return Err(e);
                    },
                }
                proof {
                    assert(buf@ =~= track_event_enc(ev@));
                }
                match out.nested(11, buf.as_bytes()) {
                    Ok(()) => {},
                    Err(e) => {
                        proof {
                            assert(!self.fits());
                        }
                        return Err(e);
                    },
                }
            },
            PacketData::TrackDescriptor(td) => {
                let mut buf = ProtoEmitter::new();
                match td.emit(&mut buf) {
                    Ok(()) => {},
                    Err(e) => {
                        proof {
                            assert(!self.fits());
                        }
                        return Err(e);
                    },
                }
                proof {
                    assert(buf@ =~= track_descriptor_enc(td@));
                }
                match out.nested(60, buf.as_bytes()) {
                    Ok(()) => {},
                    Err(e) => {
                        proof {
                            assert(!self.fits());
                        }
                        return Err(e);
                    },
                }
            },
        }
        let ghost head2 = head + packet_data_enc(self@.data);
        proof {
            assert(out@ =~= head2);
        }
        match &self.interned_data {
            Some(d) => {
                let mut buf = ProtoEmitter::new();
                match d.emit(&mut buf) {
                    Ok(()) => {},
                    Err(e) => {
                        proof {
                            assert(!self.fits());
                        }
                        return Err(e);
                    },
                }
                proof {
                    assert(buf@ =~= interned_data_enc(d@));
                }
                match out.nested(12, buf.as_bytes()) {
                    Ok(()) => {},
                    Err(e) => {
                        proof {
                            assert(!self.fits());
                        }
                        return Err(e);
                    },
                }
            },
            None => {},
        }
        let ghost head3 = head2 + (match self@.interned_data {
            Some(d) => nested_enc(12, interned_data_enc(d)),
            None => Seq::<u8>::empty(),
        });
        proof {
            assert(out@ =~= head3);
        }
        match &self.trace_packet_defaults {
            Some(d) => {
                let mut buf = ProtoEmitter::new();
                match d.emit(&mut buf) {
                    Ok(()) => {},
                    Err(e) => {
                        proof {
                            assert(!self.fits());
                        }
                        return Err(e);
                    },
                }
                proof {
                    assert(buf@ =~= trace_packet_defaults_enc(*d));
                }
                match out.nested(59, buf.as_bytes()) {
                    Ok(()) => {},
                    Err(e) => {
                        proof {
                            assert(!self.fits());
                        }
                        return Err(e);
                    },
                }
            },
            None => {},
        }
        proof {
            assert(out@ =~= old(out)@ + self.enc());
        }
        Ok(())
    }
}


impl Default for TracePacket {
    /// An empty packet: zero header fields, no body, no attachments.
    fn default() -> (r: Self)
        ensures
            r.timestamp == 0,
            r.data is Empty,
            r.sequence_flags == 0,
            r.trusted_uid == 0,
            r.trusted_packet_sequence_id == 0,
            r.interned_data is None,
            r.trace_packet_defaults is None,
    {
        TracePacket {
            timestamp: 0,
            data: PacketData::Empty,
            sequence_flags: 0,
            trusted_uid: 0,
            trusted_packet_sequence_id: 0,
            interned_data: None,
            trace_packet_defaults: None,
        }
    }
}

impl Default for TrackEvent {
    /// An instant event with no name, annotations or counter sample.
    fn default() -> (r: Self)
        ensures
            r.event_type is Instant,
            r.name is None,
            r@.debug_annotations.len() == 0,
            r.counter_value is None,
    {
        let r = TrackEvent {
            event_type: EventType::Instant,
            name: None,
            debug_annotations: Vec::new(),
            counter_value: None,
        };
        proof {
            assert(r@.debug_annotations =~= Seq::<DebugAnnotationV>::empty());
        }
        r
    }
}


} // verus!
