use tracing_perfetto::intern::{InternMap, Interned};
use tracing_perfetto::text::u64_to_dec;
use tracing_perfetto::message::display_name;
use tracing_perfetto::PerfettoLayerBuilder;

#[test]
fn ids_are_dense_and_stable() {
    let mut map = InternMap::new();
    assert_eq!(map.get_iid("alpha"), (1, true));
    assert_eq!(map.get_iid("beta"), (2, true));
    assert_eq!(map.get_iid("alpha"), (1, false));
    assert_eq!(map.get_iid("beta"), (2, false));
    assert_eq!(map.get_iid("gamma"), (3, true));
}

#[test]
fn reset_restarts_the_counter() {
    let mut map = InternMap::new();
    assert_eq!(map.get_iid("alpha"), (1, true));
    assert_eq!(map.get_iid("beta"), (2, true));
    map.reset();
    assert_eq!(map.get_iid("beta"), (1, true));
    assert_eq!(map.get_iid("alpha"), (2, true));
}

#[test]
fn event_and_annotation_names_are_independent() {
    let mut interned = Interned::new();
    assert_eq!(interned.event_name("work"), (1, true));
    assert_eq!(interned.debug_annotation_name("work"), (1, true));
    assert_eq!(interned.event_name("more"), (2, true));
    assert_eq!(interned.debug_annotation_name("work"), (1, false));
    interned.reset();
    assert_eq!(interned.event_name("more"), (1, true));
}

#[test]
fn decimal_rendering() {
    assert_eq!(u64_to_dec(0), "0");
    assert_eq!(u64_to_dec(9), "9");
    assert_eq!(u64_to_dec(10), "10");
    assert_eq!(u64_to_dec(8765), "8765");
    assert_eq!(u64_to_dec(u64::MAX), "18446744073709551615");
}

#[test]
fn thread_display_names() {
    assert_eq!(display_name(None, 0), "thread 0");
    assert_eq!(display_name(None, 17), "thread 17");
    assert_eq!(display_name(Some("worker"), 3), "worker 3");
}

#[test]
fn builder_settings() {
    let b = PerfettoLayerBuilder::new();
    assert!(b.output_file().is_none());
    assert!(!b.wants_args());
    let b = b.file("out.pftrace").include_args(true);
    assert_eq!(b.output_file().as_deref(), Some("out.pftrace"));
    assert!(b.wants_args());
    let b = b.include_args(false);
    assert!(!b.wants_args());
    assert_eq!(b.output_file().as_deref(), Some("out.pftrace"));
}
