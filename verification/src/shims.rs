//! Declarations and thin wrappers for the outside concurrency
//! primitives the capture subsystem is built on: crossbeam's bounded
//! lock-free queue and unbounded channel, and dashmap's concurrent map.
//!
//! These values are shared across threads behind `Arc`, so their
//! contents cannot be modelled as a function of the value; each wrapper
//! states only what holds of every outcome of the call.

use vstd::prelude::*;

use std::sync::Arc;

use crate::message::{Buffer, FinishedBuf, Message};

verus! {

#[verifier::external_type_specification]
#[verifier::external_body]
#[verifier::reject_recursive_types(T)]
pub struct ExArrayQueue<T>(crossbeam_queue::ArrayQueue<T>);

#[verifier::external_type_specification]
#[verifier::external_body]
#[verifier::reject_recursive_types(T)]
pub struct ExSender<T>(crossbeam_channel::Sender<T>);

#[verifier::external_type_specification]
#[verifier::external_body]
#[verifier::reject_recursive_types(T)]
pub struct ExReceiver<T>(crossbeam_channel::Receiver<T>);

#[verifier::external_type_specification]
#[verifier::external_body]
#[verifier::reject_recursive_types(K)]
#[verifier::reject_recursive_types(V)]
#[verifier::reject_recursive_types(S)]
pub struct ExDashMap<K, V, S>(dashmap::DashMap<K, V, S>);

/// Relies on crossbeam_queue::ArrayQueue::new, which panics only when
/// the capacity is zero or too large for its index arithmetic.
#[verifier::external_body]
pub(crate) fn queue_new(cap: usize) -> crossbeam_queue::ArrayQueue<Message>
    requires
        1 <= cap <= 0x1000_0000,
{
    crossbeam_queue::ArrayQueue::new(cap)
}

/// Relies on crossbeam_queue::ArrayQueue::push: an element the full
/// queue rejects is handed back unchanged.  The queue is shared, so
/// nothing more is promised of the outcome.
#[verifier::external_body]
pub(crate) fn queue_push(q: &crossbeam_queue::ArrayQueue<Message>, m: Message) -> (r: Result<
    (),
    Message,
>)
    ensures
        r matches Err(back) ==> back == m,
{
    q.push(m)
}

/// Relies on crossbeam_queue::ArrayQueue::pop.  Which message the shared
/// queue yields depends on concurrent producers, so nothing is promised
/// of it.
#[verifier::external_body]
pub(crate) fn queue_pop(q: &crossbeam_queue::ArrayQueue<Message>) -> Option<Message> {
    q.pop()
}

/// Relies on crossbeam_queue::ArrayQueue::len: a point-in-time snapshot
/// of a shared queue.
#[verifier::external_body]
pub(crate) fn queue_len(q: &crossbeam_queue::ArrayQueue<Message>) -> usize {
    q.len()
}

/// Relies on crossbeam_channel::unbounded: a channel whose senders never
/// block.
#[verifier::external_body]
pub(crate) fn channel_unbounded() -> (crossbeam_channel::Sender<FinishedBuf>, crossbeam_channel::Receiver<FinishedBuf>) {
    crossbeam_channel::unbounded()
}

/// Relies on crossbeam_channel::Sender::send: a message rejected because
/// every receiver is gone is handed back unchanged.
#[verifier::external_body]
pub(crate) fn channel_send(s: &crossbeam_channel::Sender<FinishedBuf>, v: FinishedBuf) -> (r:
    Result<(), FinishedBuf>)
    ensures
        r matches Err(back) ==> back == v,
{
    match s.send(v) {
        Ok(()) => Ok(()),
        Err(crossbeam_channel::SendError(back)) => Err(back),
    }
}

/// Relies on crossbeam_channel::Sender::clone: another handle to the
/// same channel.
#[verifier::external_body]
pub(crate) fn sender_clone(s: &crossbeam_channel::Sender<FinishedBuf>) -> crossbeam_channel::Sender<FinishedBuf> {
    s.clone()
}

/// Relies on dashmap::DashMap::new.
#[verifier::external_body]
pub(crate) fn map_new() -> dashmap::DashMap<u64, Arc<Buffer>> {
    dashmap::DashMap::new()
}

/// Relies on dashmap::DashMap::insert, which returns the value the key
/// held before, if any.  The map is shared, so nothing more is promised.
#[verifier::external_body]
pub(crate) fn map_insert(
    m: &dashmap::DashMap<u64, Arc<Buffer>>,
    k: u64,
    v: Arc<Buffer>,
) -> Option<Arc<Buffer>> {
    m.insert(k, v)
}

/// Relies on dashmap::DashMap::remove: the entry handed back, if any,
/// sat under the asked key.
#[verifier::external_body]
pub(crate) fn map_remove(m: &dashmap::DashMap<u64, Arc<Buffer>>, k: u64) -> (r: Option<
    (u64, Arc<Buffer>),
>)
    ensures
        r matches Some(p) ==> p.0 == k,
{
    m.remove(&k)
}

/// Relies on dashmap::DashMap::iter: the keys present at some moment of
/// the walk, in no fixed order.
#[verifier::external_body]
pub(crate) fn map_keys(m: &dashmap::DashMap<u64, Arc<Buffer>>) -> Vec<u64> {
    m.iter().map(|entry| *entry.key()).collect()
}

/// Relies on std's Arc::clone: a new handle to the same allocation, so
/// the value seen through it is the same.
#[verifier::external_body]
pub(crate) fn arc_clone<T>(a: &Arc<T>) -> (r: Arc<T>)
    ensures
        r == *a,
{
    Arc::clone(a)
}

} // verus!
