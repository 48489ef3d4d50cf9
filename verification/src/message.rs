//! Messages, the queue that holds them, and the handles that read and write it.
use vstd::prelude::*;

pub mod model;
pub mod messages;
pub mod message_cursor;
pub mod iterators;
pub mod par_iter;
pub mod message_reader;
pub mod message_writer;
pub mod laws;

pub use iterators::{MessageIterator, MessageIteratorWithId};
pub use message_cursor::MessageCursor;
pub use par_iter::{BatchingStrategy, MessageParIter};
pub use message_reader::{MessageReader, PopulatedMessageReader, ValidationError};
pub use message_writer::MessageWriter;
pub use messages::Messages;
pub use model::MessagesView;

verus! {

/// The position of a message in the order in which its queue received it.
///
/// Ids start at zero and grow by one with every message sent, so two ids of
/// one queue compare as their messages were sent.
#[derive(Clone, Copy, Debug, PartialEq, Eq, Structural)]
pub struct MessageId {
    /// The number of messages sent to the queue before this one.
    pub id: u64,
}

/// A message together with the id the queue gave it.
#[derive(Debug)]
pub struct MessageInstance<M> {
    pub message_id: MessageId,
    pub message: M,
}

impl<M> MessageInstance<M> {
    /// The id as a number and the payload, as the model of a queue holds them.
    pub open spec fn entry(self) -> (nat, M) {
        (self.message_id.id as nat, self.message)
    }
}

} // verus!
