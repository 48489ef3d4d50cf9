//! The queue itself.
use vstd::prelude::*;
use vstd::slice::slice_subrange;
use super::message_cursor::MessageCursor;
use super::model::MessagesView;
use super::{MessageId, MessageInstance};

verus! {

/// A queue of messages of one type, kept in two generations.
///
/// Messages are sent into the current generation. [`Messages::rotate`], called
/// once per tick, drops the previous generation and lets the current one take
/// its place, so a message stays readable for two ticks at most.
#[derive(Debug)]
pub struct Messages<M> {
    previous: Vec<MessageInstance<M>>,
    current: Vec<MessageInstance<M>>,
    previous_start: u64,
}

/// The ids and payloads of a run of instances, in the same order.
pub open spec fn entries_of<M>(instances: Seq<MessageInstance<M>>) -> Seq<(nat, M)> {
    Seq::new(instances.len(), |i: int| instances[i].entry())
}

/// The payloads of a run of instances, in the same order.
pub open spec fn payloads_of<M>(instances: Seq<MessageInstance<M>>) -> Seq<M> {
    Seq::new(instances.len(), |i: int| instances[i].message)
}

/// Whether a run of instances carries consecutive ids that begin at `start`.
pub open spec fn numbered_from<M>(instances: Seq<MessageInstance<M>>, start: int) -> bool {
    forall|i: int| 0 <= i < instances.len() ==> (#[trigger] instances[i]).message_id.id == start + i
}

impl<M> View for Messages<M> {
    type V = MessagesView<M>;

    closed spec fn view(&self) -> MessagesView<M> {
        MessagesView {
            oldest: self.previous_start as nat,
            previous: payloads_of(self.previous@),
            current: payloads_of(self.current@),
        }
    }
}

impl<M> Default for Messages<M> {
    /// An empty queue whose first message will get id zero.
    fn default() -> (queue: Self)
        ensures
            queue@ == MessagesView::<M>::empty(),
    {
        Messages::new()
    }
}

impl<M> Messages<M> {
    /// The invariant of the representation: ids are consecutive across both
    /// generations, and every count fits the integer that holds it.
    ///
    /// It holds whenever the queue can be looked at. That is why the
    /// functions below take a generation out of the queue before they change
    /// it, and put it back when it fits the rest again.
    #[verifier::type_invariant]
    spec fn wf(self) -> bool {
        &&& self.previous_start + self.previous.len() + self.current.len() <= u64::MAX
        &&& self.previous.len() + self.current.len() <= usize::MAX
        &&& numbered_from(self.previous@, self.previous_start as int)
        &&& numbered_from(self.current@, self.previous_start + self.previous.len())
    }

    /// Whether one more message can be sent: the next id is representable,
    /// and so is the number of retained messages after it.
    pub open spec fn has_room(self) -> bool {
        &&& self@.total_sent_count() < u64::MAX
        &&& self@.retained().len() < usize::MAX
    }

    /// An empty queue whose first message will get id zero.
    pub fn new() -> (queue: Self)
        ensures
            queue@ == MessagesView::<M>::empty(),
    {
        Messages { previous: Vec::new(), current: Vec::new(), previous_start: 0 }
    }

    /// The number of messages ever sent, which is the id of the next message.
    pub fn total_sent_count(&self) -> (count: u64)
        ensures
            count == self@.total_sent_count(),
    {
        proof {
            use_type_invariant(self);
        }
        self.previous_start + self.previous.len() as u64 + self.current.len() as u64
    }

    /// The id of the oldest message the queue can still hold; every message
    /// with a lower id has been dropped.
    pub fn oldest_message_count(&self) -> (count: u64)
        ensures
            count == self@.oldest,
    {
        self.previous_start
    }

    /// The number of messages in both generations together.
    pub fn len(&self) -> (count: usize)
        ensures
            count == self@.retained().len(),
    {
        proof {
            use_type_invariant(self);
        }
        self.previous.len() + self.current.len()
    }

    /// Whether the queue holds no message at all.
    pub fn is_empty(&self) -> (empty: bool)
        ensures
            empty == (self@.retained().len() == 0),
    {
        self.len() == 0
    }

    /// Whether one more message can be sent.
    pub fn can_send(&self) -> (room: bool)
        ensures
            room == self.has_room(),
    {
        self.total_sent_count() < u64::MAX && self.len() < usize::MAX
    }

    /// A cursor that counts every message sent so far as read: its reader
    /// will see what is sent from now on, and nothing older.
    pub fn get_cursor_current(&self) -> (cursor: MessageCursor<M>)
        ensures
            cursor@ == self@.total_sent_count(),
    {
        MessageCursor::starting_at(self.total_sent_count())
    }

    /// The part of each generation that a reader at `cursor` has not seen.
    pub(super) fn unread_slices(&self, cursor: u64) -> (slices: (
        &[MessageInstance<M>],
        &[MessageInstance<M>],
    ))
        ensures
            entries_of(slices.0@) + entries_of(slices.1@) == self@.unread(cursor as nat),
            slices.0@.len() == self@.unread_in_previous(cursor as nat),
            slices.0@.len() + slices.1@.len() <= usize::MAX,
    {
        proof {
            use_type_invariant(self);
        }
        let previous = self.previous.as_slice();
        let current = self.current.as_slice();
        let current_start = self.previous_start + previous.len() as u64;
        let from_previous = if cursor <= self.previous_start {
            0
        } else if cursor >= current_start {
            previous.len()
        } else {
            (cursor - self.previous_start) as usize
        };
        let from_current = if cursor <= current_start {
            0
        } else if cursor - current_start >= current.len() as u64 {
            current.len()
        } else {
            (cursor - current_start) as usize
        };
        (
            slice_subrange(previous, from_previous, previous.len()),
            slice_subrange(current, from_current, current.len()),
        )
    }

    /// Appends a message to the current generation and returns its id.
    pub fn send(&mut self, message: M) -> (id: MessageId)
        requires
            old(self).has_room(),
        ensures
            final(self)@ == old(self)@.send(message),
            id.id == old(self)@.total_sent_count(),
    {
        proof {
            use_type_invariant(&*self);
        }
        let id = MessageId { id: self.total_sent_count() };
        let mut current = Vec::new();
        core::mem::swap(&mut current, &mut self.current);
        current.push(MessageInstance { message_id: id, message });
        self.current = current;
        id
    }

    /// Ends a tick: drops the previous generation, makes the current one the
    /// previous, and begins a new empty generation. The buffer of the dropped
    /// generation is kept for the new one.
    pub fn rotate(&mut self)
        ensures
            final(self)@ == old(self)@.rotate(),
    {
        proof {
            use_type_invariant(&*self);
        }
        let current_start = self.previous_start + self.previous.len() as u64;
        let mut promoted = Vec::new();
        core::mem::swap(&mut promoted, &mut self.current);
        let mut recycled = Vec::new();
        core::mem::swap(&mut recycled, &mut self.previous);
        recycled.clear();
        self.previous_start = current_start;
        self.previous = promoted;
        self.current = recycled;
    }

    /// Drops both generations. Ids are not reused: the next message gets the
    /// id it would have got without the call.
    pub fn clear_all(&mut self)
        ensures
            final(self)@ == old(self)@.clear_all(),
    {
        proof {
            use_type_invariant(&*self);
        }
        let total = self.total_sent_count();
        let mut current = Vec::new();
        core::mem::swap(&mut current, &mut self.current);
        let mut previous = Vec::new();
        core::mem::swap(&mut previous, &mut self.previous);
        previous.clear();
        current.clear();
        self.previous_start = total;
        self.previous = previous;
        self.current = current;
    }
}

} // verus!
