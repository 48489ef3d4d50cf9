//! The handle through which a unit of work reads a queue.
use vstd::prelude::*;
use super::iterators::{MessageIterator, MessageIteratorWithId};
use super::message_cursor::MessageCursor;
use super::messages::Messages;
use super::par_iter::MessageParIter;

verus! {

/// Why a unit of work cannot be given one of its handles.
#[derive(Clone, Copy, Debug, PartialEq, Eq)]
pub struct ValidationError {
    /// Whether the unit of work is to be skipped this tick without further
    /// ado. Where this is `false`, the set-up is at fault.
    pub skipped: bool,
    /// What is wrong, for a person to read.
    pub message: &'static str,
}

impl ValidationError {
    /// The handle cannot be made at all.
    pub fn invalid(message: &'static str) -> (error: Self)
        ensures
            error == (ValidationError { skipped: false, message }),
    {
        ValidationError { skipped: false, message }
    }

    /// The handle could be made, but the unit of work has nothing to do.
    pub fn skipped(message: &'static str) -> (error: Self)
        ensures
            error == (ValidationError { skipped: true, message }),
    {
        ValidationError { skipped: true, message }
    }
}

/// Reads the messages of one queue in order and keeps track of which ones it
/// has handed out.
///
/// Any number of readers can follow one queue. Each has a cursor of its own,
/// which outlives the handle: the handle is made anew for every run of the
/// unit of work, around the same cursor. What the handle does to the cursor
/// is done to the cursor it was made around, and to no other: the contracts
/// say so in their last line.
pub struct MessageReader<'w, 's, M> {
    /// The reader's bookmark, kept by the unit of work between its runs.
    pub reader: &'s mut MessageCursor<M>,
    /// The queue, shared with every other reader.
    pub messages: &'w Messages<M>,
}

impl<'w, 's, M> MessageReader<'w, 's, M> {
    /// The id of the next message that this reader has not seen.
    pub open spec fn cursor(self) -> nat {
        self.reader@
    }

    /// The messages that a read would hand out now, with their ids.
    pub open spec fn unread(self) -> Seq<(nat, M)> {
        self.messages@.unread(self.reader@)
    }

    /// The bookmark of a reader that attaches to the queue now: it counts
    /// everything sent so far as read.
    pub fn init_state(messages: &Messages<M>) -> (state: MessageCursor<M>)
        ensures
            state@ == messages@.total_sent_count(),
    {
        messages.get_cursor_current()
    }

    /// Whether a reader can be made: the queue must have been registered.
    pub fn validate_param(messages: Option<&Messages<M>>) -> (outcome: Result<(), ValidationError>)
        ensures
            outcome is Ok <==> messages is Some,
            outcome matches Err(error) ==> !error.skipped && error.message@
                == "Message not initialized"@,
    {
        match messages {
            Some(_) => Ok(()),
            None => Err(ValidationError::invalid("Message not initialized")),
        }
    }

    /// The reader for one run of the unit of work.
    pub fn get_param(state: &'s mut MessageCursor<M>, messages: &'w Messages<M>) -> (param: Self)
        ensures
            *param.reader == *old(state),
            *final(param.reader) == *final(state),
            *param.messages == *messages,
    {
        MessageReader { reader: state, messages }
    }

    /// Hands out the messages this reader has not seen yet, oldest first. The
    /// reader counts all of them as read from now on, whether or not the
    /// caller looks at them: a second read right after this one hands out
    /// nothing.
    pub fn read(&mut self) -> (iter: MessageIterator<'_, M>)
        ensures
            iter@ == old(self).messages@.unread_payloads(old(self).cursor()),
            iter.missed() == old(self).messages@.missed(old(self).cursor()),
            final(self).cursor() == old(self).messages@.total_sent_count(),
            *final(self).messages == *old(self).messages,
            *final(final(self).reader) == *final(old(self).reader),
    {
        self.reader.read(self.messages)
    }

    /// Like [`MessageReader::read`], and gives the id of each message too.
    pub fn read_with_id(&mut self) -> (iter: MessageIteratorWithId<'_, M>)
        ensures
            iter@ == old(self).unread(),
            iter.missed() == old(self).messages@.missed(old(self).cursor()),
            final(self).cursor() == old(self).messages@.total_sent_count(),
            *final(self).messages == *old(self).messages,
            *final(final(self).reader) == *final(old(self).reader),
    {
        self.reader.read_with_id(self.messages)
    }

    /// Hands out the messages this reader has not seen yet for work in
    /// batches. The reader counts all of them as read from now on, before any
    /// batch is made.
    pub fn par_read(&mut self) -> (iter: MessageParIter<'_, M>)
        ensures
            iter@ == old(self).unread(),
            iter.from_previous() == old(self).messages@.unread_in_previous(old(self).cursor()),
            iter.missed() == old(self).messages@.missed(old(self).cursor()),
            final(self).cursor() == old(self).messages@.total_sent_count(),
            *final(self).messages == *old(self).messages,
            *final(final(self).reader) == *final(old(self).reader),
    {
        self.reader.par_read(self.messages)
    }

    /// The number of messages that a read would hand out now. Nothing is
    /// marked as read.
    pub fn len(&self) -> (count: usize)
        ensures
            count == self.unread().len(),
    {
        self.reader.len(self.messages)
    }

    /// Whether a read would hand out nothing now. Nothing is marked as read.
    pub fn is_empty(&self) -> (empty: bool)
        ensures
            empty == (self.unread().len() == 0),
    {
        self.reader.is_empty(self.messages)
    }

    /// Marks every message sent so far as read, without handing any out.
    pub fn clear(&mut self)
        ensures
            final(self).cursor() == old(self).messages@.total_sent_count(),
            *final(self).messages == *old(self).messages,
            *final(final(self).reader) == *final(old(self).reader),
    {
        self.reader.clear(self.messages);
    }
}

/// A [`MessageReader`] for a unit of work that is to run only when there is
/// something to read.
///
/// Before each run, [`PopulatedMessageReader::validate_param`] looks at the
/// cursor and the queue without changing either. Where it finds nothing
/// unread, the run is skipped.
pub struct PopulatedMessageReader<'w, 's, M>(pub MessageReader<'w, 's, M>);

impl<'w, 's, M> core::ops::Deref for PopulatedMessageReader<'w, 's, M> {
    type Target = MessageReader<'w, 's, M>;

    fn deref(&self) -> (reader: &Self::Target)
        ensures
            *reader == self.0,
    {
        &self.0
    }
}

impl<'w, 's, M> core::ops::DerefMut for PopulatedMessageReader<'w, 's, M> {
    fn deref_mut(&mut self) -> (reader: &mut Self::Target)
        ensures
            *reader == old(self).0,
            final(self).0 == *final(reader),
    {
        &mut self.0
    }
}

impl<'w, 's, M> PopulatedMessageReader<'w, 's, M> {
    /// The bookmark of a reader that attaches to the queue now.
    pub fn init_state(messages: &Messages<M>) -> (state: MessageCursor<M>)
        ensures
            state@ == messages@.total_sent_count(),
    {
        MessageReader::init_state(messages)
    }

    /// Whether the unit of work is to run: the queue must have been
    /// registered, and there must be something for this reader to read.
    /// Neither the cursor nor the queue is changed.
    pub fn validate_param(state: &MessageCursor<M>, messages: Option<&Messages<M>>) -> (outcome:
        Result<(), ValidationError>)
        ensures
            outcome is Ok <==> (messages matches Some(queue) && queue@.unread(state@).len() > 0),
            outcome matches Err(error) ==> (error.skipped <==> messages is Some),
            outcome matches Err(error) ==> error.message@ == (if messages is Some {
                "message queue is empty"@
            } else {
                "Message not initialized"@
            }),
    {
        match messages {
            None => MessageReader::validate_param(messages),
            Some(queue) => {
                if state.is_empty(queue) {
                    Err(ValidationError::skipped("message queue is empty"))
                } else {
                    Ok(())
                }
            },
        }
    }

    /// The reader for one run of the unit of work.
    pub fn get_param(state: &'s mut MessageCursor<M>, messages: &'w Messages<M>) -> (param: Self)
        ensures
            *param.0.reader == *old(state),
            *final(param.0.reader) == *final(state),
            *param.0.messages == *messages,
    {
        PopulatedMessageReader(MessageReader::get_param(state, messages))
    }
}

} // verus!
