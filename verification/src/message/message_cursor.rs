//! A reader's bookmark into the ids of a queue.
use vstd::prelude::*;
use super::iterators::{MessageIterator, MessageIteratorWithId};
use super::messages::Messages;
use super::par_iter::MessageParIter;

verus! {

/// The id of the next message that a reader has not seen.
///
/// A cursor belongs to its reader, not to the queue: any number of cursors
/// can follow one queue, and no operation of the queue changes any of them.
#[derive(Debug)]
pub struct MessageCursor<M> {
    last_message_count: u64,
    marker: core::marker::PhantomData<M>,
}

impl<M> View for MessageCursor<M> {
    type V = nat;

    /// The id of the next unread message.
    closed spec fn view(&self) -> nat {
        self.last_message_count as nat
    }
}

impl<M> Default for MessageCursor<M> {
    /// The cursor of a reader that attached before anything was sent.
    fn default() -> (cursor: Self)
        ensures
            cursor@ == 0,
    {
        MessageCursor::starting_at(0)
    }
}

impl<M> MessageCursor<M> {
    /// A cursor whose next unread message is the one with this id.
    pub(super) fn starting_at(id: u64) -> (cursor: Self)
        ensures
            cursor@ == id,
    {
        MessageCursor { last_message_count: id, marker: core::marker::PhantomData }
    }

    /// The id of the next unread message.
    pub fn next_unread_id(&self) -> (id: u64)
        ensures
            id == self@,
    {
        self.last_message_count
    }

    /// The number of messages that a read would hand out now.
    pub fn len(&self, messages: &Messages<M>) -> (count: usize)
        ensures
            count == messages@.unread(self@).len(),
    {
        let total = messages.total_sent_count();
        let oldest = messages.oldest_message_count();
        let retained = messages.len();
        if self.last_message_count >= total {
            0
        } else if self.last_message_count <= oldest {
            retained
        } else {
            (total - self.last_message_count) as usize
        }
    }

    /// Whether a read would hand out nothing now.
    pub fn is_empty(&self, messages: &Messages<M>) -> (empty: bool)
        ensures
            empty == (messages@.unread(self@).len() == 0),
    {
        self.len(messages) == 0
    }

    /// How many messages this reader never saw and can no longer get.
    pub fn missed_messages(&self, messages: &Messages<M>) -> (count: u64)
        ensures
            count == messages@.missed(self@),
    {
        let oldest = messages.oldest_message_count();
        if self.last_message_count < oldest {
            oldest - self.last_message_count
        } else {
            0
        }
    }

    /// Marks every message sent so far as read, without handing any out.
    pub fn clear(&mut self, messages: &Messages<M>)
        ensures
            final(self)@ == messages@.total_sent_count(),
    {
        self.last_message_count = messages.total_sent_count();
    }

    /// Hands out the unread messages with their ids, oldest first, and marks
    /// them as read at once, whether or not the caller looks at them.
    pub fn read_with_id<'a>(&mut self, messages: &'a Messages<M>) -> (iter: MessageIteratorWithId<'a, M>)
        ensures
            iter@ == messages@.unread(old(self)@),
            iter.missed() == messages@.missed(old(self)@),
            final(self)@ == messages@.total_sent_count(),
    {
        let missed = self.missed_messages(messages);
        let (previous, current) = messages.unread_slices(self.last_message_count);
        self.last_message_count = messages.total_sent_count();
        MessageIteratorWithId::new(previous, current, missed)
    }

    /// Hands out the unread messages for work in batches, and marks them as
    /// read at once, before any batch is made.
    pub fn par_read<'a>(&mut self, messages: &'a Messages<M>) -> (iter: MessageParIter<'a, M>)
        ensures
            iter@ == messages@.unread(old(self)@),
            iter.from_previous() == messages@.unread_in_previous(old(self)@),
            iter.missed() == messages@.missed(old(self)@),
            final(self)@ == messages@.total_sent_count(),
    {
        let missed = self.missed_messages(messages);
        let (previous, current) = messages.unread_slices(self.last_message_count);
        self.last_message_count = messages.total_sent_count();
        MessageParIter::new(previous, current, missed)
    }

    /// Hands out the unread messages, oldest first, and marks them as read at
    /// once, whether or not the caller looks at them.
    pub fn read<'a>(&mut self, messages: &'a Messages<M>) -> (iter: MessageIterator<'a, M>)
        ensures
            iter@ == messages@.unread_payloads(old(self)@),
            iter.missed() == messages@.missed(old(self)@),
            final(self)@ == messages@.total_sent_count(),
    {
        self.read_with_id(messages).without_id()
    }
}

} // verus!
