//! What a read hands out: the unread messages, one by one.
use vstd::prelude::*;
use super::messages::entries_of;
use super::{MessageId, MessageInstance};

verus! {

/// The unread messages of one read, each with its id, oldest first.
///
/// The sequence is fixed when the read is made. It is handed out once:
/// [`MessageIteratorWithId::next`] removes what it returns.
pub struct MessageIteratorWithId<'a, M> {
    previous: &'a [MessageInstance<M>],
    current: &'a [MessageInstance<M>],
    position: usize,
    missed: u64,
}

impl<'a, M> View for MessageIteratorWithId<'a, M> {
    type V = Seq<(nat, M)>;

    /// The messages not handed out yet, with their ids, oldest first.
    closed spec fn view(&self) -> Seq<(nat, M)> {
        (entries_of(self.previous@) + entries_of(self.current@)).skip(self.position as int)
    }
}

impl<'a, M> MessageIteratorWithId<'a, M> {
    #[verifier::type_invariant]
    spec fn in_bounds(self) -> bool {
        &&& self.previous@.len() + self.current@.len() <= usize::MAX
        &&& self.position <= self.previous@.len() + self.current@.len()
    }

    /// How many messages the reader had lost for good when the read was made.
    pub closed spec fn missed(self) -> nat {
        self.missed as nat
    }

    /// An iterator over `previous` followed by `current`.
    pub(super) fn new(
        previous: &'a [MessageInstance<M>],
        current: &'a [MessageInstance<M>],
        missed: u64,
    ) -> (iter: Self)
        requires
            previous@.len() + current@.len() <= usize::MAX,
        ensures
            iter@ == entries_of(previous@) + entries_of(current@),
            iter.missed() == missed,
    {
        MessageIteratorWithId { previous, current, position: 0, missed }
    }

    /// The next unread message and its id, or `None` when all were handed out.
    pub fn next(&mut self) -> (item: Option<(&'a M, MessageId)>)
        ensures
            final(self).missed() == old(self).missed(),
            match item {
                Some((message, id)) => {
                    &&& old(self)@.len() > 0
                    &&& (id.id as nat, *message) == old(self)@[0]
                    &&& final(self)@ == old(self)@.skip(1)
                },
                None => old(self)@.len() == 0 && final(self)@ == old(self)@,
            },
    {
        proof {
            use_type_invariant(&*self);
        }
        let instance = if self.position < self.previous.len() {
            &self.previous[self.position]
        } else if self.position - self.previous.len() < self.current.len() {
            &self.current[self.position - self.previous.len()]
        } else {
            return None;
        };
        self.position += 1;
        Some((&instance.message, instance.message_id))
    }

    /// The number of messages not handed out yet.
    pub fn len(&self) -> (count: usize)
        ensures
            count == self@.len(),
    {
        proof {
            use_type_invariant(self);
        }
        self.previous.len() + self.current.len() - self.position
    }

    /// How many messages the reader had lost for good when the read was made:
    /// messages that were dropped before the reader got to them. Zero means
    /// that the reader kept up.
    pub fn missed_messages(&self) -> (count: u64)
        ensures
            count == self.missed(),
    {
        self.missed
    }

    /// The same messages without their ids.
    pub fn without_id(self) -> (iter: MessageIterator<'a, M>)
        ensures
            iter@ == self@.map_values(|entry: (nat, M)| entry.1),
            iter.missed() == self.missed(),
    {
        MessageIterator { iter: self }
    }
}

/// The unread messages of one read, oldest first.
///
/// The sequence is fixed when the read is made. It is handed out once:
/// [`MessageIterator::next`] removes what it returns.
pub struct MessageIterator<'a, M> {
    iter: MessageIteratorWithId<'a, M>,
}

impl<'a, M> View for MessageIterator<'a, M> {
    type V = Seq<M>;

    /// The messages not handed out yet, oldest first.
    closed spec fn view(&self) -> Seq<M> {
        self.iter@.map_values(|entry: (nat, M)| entry.1)
    }
}

impl<'a, M> MessageIterator<'a, M> {
    /// How many messages the reader had lost for good when the read was made.
    pub closed spec fn missed(self) -> nat {
        self.iter.missed()
    }

    /// The next unread message, or `None` when all were handed out.
    pub fn next(&mut self) -> (item: Option<&'a M>)
        ensures
            final(self).missed() == old(self).missed(),
            match item {
                Some(message) => {
                    &&& old(self)@.len() > 0
                    &&& *message == old(self)@[0]
                    &&& final(self)@ == old(self)@.skip(1)
                },
                None => old(self)@.len() == 0 && final(self)@ == old(self)@,
            },
    {
        match self.iter.next() {
            Some((message, _)) => Some(message),
            None => None,
        }
    }

    /// The number of messages not handed out yet.
    pub fn len(&self) -> (count: usize)
        ensures
            count == self@.len(),
    {
        self.iter.len()
    }

    /// How many messages the reader had lost for good when the read was made:
    /// messages that were dropped before the reader got to them. Zero means
    /// that the reader kept up.
    pub fn missed_messages(&self) -> (count: u64)
        ensures
            count == self.missed(),
    {
        self.iter.missed_messages()
    }
}

} // verus!
