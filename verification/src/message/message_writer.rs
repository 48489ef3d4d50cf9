//! The handle through which a unit of work sends to a queue.
use vstd::prelude::*;
use super::messages::Messages;
use super::MessageId;

verus! {

/// Sends messages to one queue.
///
/// A writer has the queue to itself for as long as it lives: no reader and no
/// other writer of the same queue runs beside it.
pub struct MessageWriter<'w, M> {
    /// The queue, held exclusively.
    pub messages: &'w mut Messages<M>,
}

impl<'w, M> MessageWriter<'w, M> {
    /// The writer for one run of the unit of work.
    pub fn get_param(messages: &'w mut Messages<M>) -> (param: Self)
        ensures
            *param.messages == *old(messages),
            *final(param.messages) == *final(messages),
    {
        MessageWriter { messages }
    }

    /// Sends a message and returns the id it got: the number of messages
    /// sent to this queue before it.
    pub fn send(&mut self, message: M) -> (id: MessageId)
        requires
            old(self).messages.has_room(),
        ensures
            final(self).messages@ == old(self).messages@.send(message),
            id.id == old(self).messages@.total_sent_count(),
            *final(final(self).messages) == *final(old(self).messages),
    {
        self.messages.send(message)
    }
}

} // verus!
