//! Per-thread message capture: thread-id assignment, the bounded
//! per-thread buffer, and the hand-off of full buffers to the writer.
//!
//! The thread-local cell that holds a thread's current buffer lives with
//! the embedding runtime; it hands the cell's contents to `send_message`
//! and stores what comes back.  Everything the call decides — rotate a
//! full buffer, allocate and register a fresh one, assign a thread id
//! and its display name — happens here.

use vstd::prelude::*;

use std::sync::atomic::{AtomicU64, Ordering};
use std::sync::Arc;

use crate::annotations::FieldValue;
use crate::shims::{
    arc_clone, channel_send, channel_unbounded, map_insert, map_new, map_remove, queue_new,
    queue_push, sender_clone,
};
use crate::text::{dec_str, u64_to_dec};

verus! {

pub type ThreadId = u64;

pub type Timestamp = u64;

/// The discriminated union flowing from producers to the writer.
pub enum Message {
    /// Emitted once per thread, as the first message of its first buffer.
    NewThread(ThreadId, Box<String>),
    /// A span begin.
    Enter { ts: Timestamp, label: &'static str, args: Option<Arc<Vec<FieldValue>>> },
    /// A span end.
    Exit { ts: Timestamp, label: &'static str, args: Option<Arc<Vec<FieldValue>>> },
    /// An instantaneous event.
    Event { ts: Timestamp, label: &'static str, args: Option<Arc<Vec<FieldValue>>> },
}

/// One thread's bounded message buffer.
pub struct Buffer {
    pub thread_id: ThreadId,
    pub queue: crossbeam_queue::ArrayQueue<Message>,
}

/// What travels on the finished-buffer channel.
pub enum FinishedBuf {
    Buf(Arc<Buffer>),
    StopWriterThread,
}

/// The display name of a thread the runtime did not name.
pub open spec fn thread_label(tid: nat) -> Seq<char> {
    seq!['t', 'h', 'r', 'e', 'a', 'd', ' '] + dec_str(tid)
}

/// The display name of a thread named `name` by the runtime.
pub open spec fn named_thread_label(name: Seq<char>, tid: nat) -> Seq<char> {
    name + seq![' '] + dec_str(tid)
}

/// Process-wide capture state, shared by every producer thread.
pub struct MessagingState {
    buffer_size: usize,
    max_thread_id: AtomicU64,
    in_use_local_buffers: Arc<dashmap::DashMap<u64, Arc<Buffer>>>,
    finished_buffers: crossbeam_channel::Sender<FinishedBuf>,
}

impl MessagingState {
    /// The capacity every buffer is allocated with.
    pub closed spec fn capacity(&self) -> nat {
        self.buffer_size as nat
    }

    /// Well-formed state: the buffer capacity leaves room for a rotated
    /// message beside the synthetic first one, and stays well under the
    /// queue's index-arithmetic limit.
    pub closed spec fn wf(&self) -> bool {
        2 <= self.buffer_size <= 0x1000_0000
    }

    /// Build the capture state, returning with it the receiving end of
    /// the finished-buffer channel, a second sender for the shutdown
    /// sentinel, and the registry of in-use buffers for the final drain.
    pub fn new(buffer_size: usize) -> (r: (
        MessagingState,
        crossbeam_channel::Receiver<FinishedBuf>,
        crossbeam_channel::Sender<FinishedBuf>,
        Arc<dashmap::DashMap<u64, Arc<Buffer>>>,
    ))
        requires
            2 <= buffer_size <= 0x1000_0000,
        ensures
            r.0.wf(),
            r.0.capacity() == buffer_size,
    {
        let (send, recv) = channel_unbounded();
        let send_again = sender_clone(&send);
        let in_use: Arc<dashmap::DashMap<u64, Arc<Buffer>>> = Arc::new(map_new());
        let in_use_again = arc_clone(&in_use);
        (
            MessagingState {
                buffer_size,
                max_thread_id: AtomicU64::new(0),
                in_use_local_buffers: in_use_again,
                finished_buffers: send,
            },
            recv,
            send_again,
            in_use,
        )
    }

    /// Route a message into this thread's buffer.
    ///
    /// `slot` is what the caller's thread-local cell held; the returned
    /// buffer is what it must hold next.  On the first emit of a thread
    /// (`slot` empty) a thread id is assigned and a fresh buffer starts
    /// with the synthetic `NewThread` message; `os_thread_name` feeds its
    /// display name.  A full buffer is rotated: unregistered, sent to the
    /// writer, and replaced by a fresh one that takes the message.  A
    /// fresh buffer of capacity at least two accepts one message, but the
    /// queue's contract cannot say so; in the impossible case that it
    /// still refuses, the message is dropped rather than the producer
    /// disturbed.
    pub fn send_message(
        &self,
        slot: Option<Arc<Buffer>>,
        message: Message,
        os_thread_name: Option<&str>,
    ) -> (r: Arc<Buffer>)
        requires
            self.wf(),
        ensures
            match slot {
                Some(b) => (*r).thread_id == (*b).thread_id,
                None => true,
            },
    {
        match slot {
            Some(buffer) => {
                match queue_push(&buffer.queue, message) {
                    Ok(()) => buffer,
                    Err(message) => {
                        let new_buffer = self.handle_full_queue(buffer);
                        match queue_push(&new_buffer.queue, message) {
                            Ok(()) => (),
                            Err(_dropped) => (),
                        }
                        new_buffer
                    },
                }
            },
            None => {
                let first_buffer = self.alloc_first_buffer(os_thread_name);
                match queue_push(&first_buffer.queue, message) {
                    Ok(()) => (),
                    Err(_dropped) => (),
                }
                first_buffer
            },
        }
    }

    /// Rotate a full buffer: unregister it, ship it to the writer, and
    /// register a fresh buffer for the same thread.
    fn handle_full_queue(&self, buffer: Arc<Buffer>) -> (r: Arc<Buffer>)
        requires
            self.wf(),
        ensures
            (*r).thread_id == (*buffer).thread_id,
    {
        let thread_id = buffer.thread_id;
        let _ = map_remove(&self.in_use_local_buffers, thread_id);
        let _ = channel_send(&self.finished_buffers, FinishedBuf::Buf(buffer));
        let new_buf = self.alloc_empty_buffer(thread_id);
        let _ = map_insert(&self.in_use_local_buffers, thread_id, arc_clone(&new_buf));
        new_buf
    }

    /// First emit on a thread: assign the next thread id, start its
    /// buffer with the `NewThread` message, and register the buffer.
    fn alloc_first_buffer(&self, os_thread_name: Option<&str>) -> (r: Arc<Buffer>)
        requires
            self.wf(),
    {
        let thread_id = self.max_thread_id.fetch_add(1, Ordering::SeqCst);
        let buf = self.alloc_empty_buffer(thread_id);
        let thread_name = display_name(os_thread_name, thread_id);
        let _ = queue_push(&buf.queue, Message::NewThread(thread_id, Box::new(thread_name)));
        let _ = map_insert(&self.in_use_local_buffers, thread_id, arc_clone(&buf));
        buf
    }

    /// A fresh, empty buffer for `thread_id`.
    fn alloc_empty_buffer(&self, thread_id: ThreadId) -> (r: Arc<Buffer>)
        requires
            self.wf(),
        ensures
            (*r).thread_id == thread_id,
    {
        Arc::new(Buffer { thread_id, queue: queue_new(self.buffer_size) })
    }
}

/// The display name of a thread: the runtime-given name and the id, or
/// `thread` and the id.
pub fn display_name(os_thread_name: Option<&str>, thread_id: u64) -> (r: String)
    ensures
        r@ == match os_thread_name {
            Some(n) => named_thread_label(n@, thread_id as nat),
            None => thread_label(thread_id as nat),
        },
{
    let digits = u64_to_dec(thread_id);
    match os_thread_name {
        Some(n) => {
            let mut s = n.to_owned();
            proof {
                reveal_strlit(" ");
            }
            s.append(" ");
            s.append(digits.as_str());
            proof {
                assert(s@ =~= named_thread_label(n@, thread_id as nat));
            }
            s
        },
        None => {
            let mut s = "thread ".to_owned();
            proof {
                reveal_strlit("thread ");
            }
            s.append(digits.as_str());
            proof {
                assert(s@ =~= thread_label(thread_id as nat));
            }
            s
        },
    }
}

} // verus!
