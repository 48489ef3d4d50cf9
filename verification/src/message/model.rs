//! The mathematical model of a queue: what it holds, and what sending,
//! rotating and reading do to it.
use vstd::prelude::*;

verus! {

/// What a queue holds, as plain mathematics.
///
/// The retained messages are `previous` followed by `current`. Their ids are
/// consecutive: the first retained message has id `oldest`, the next one
/// `oldest + 1`, and so on, so that an id and a position determine each other.
#[verifier::ext_equal]
pub struct MessagesView<M> {
    /// The id at which `previous` starts; every lower id has been dropped.
    pub oldest: nat,
    /// The generation written during the last tick, oldest first.
    pub previous: Seq<M>,
    /// The generation being written during this tick, oldest first.
    pub current: Seq<M>,
}

impl<M> MessagesView<M> {
    /// A queue to which nothing was ever sent.
    pub open spec fn empty() -> Self {
        MessagesView { oldest: 0, previous: Seq::empty(), current: Seq::empty() }
    }

    /// The id at which `current` starts.
    pub open spec fn current_start(self) -> nat {
        self.oldest + self.previous.len()
    }

    /// The number of messages ever sent, which is the id of the next message.
    pub open spec fn total_sent_count(self) -> nat {
        self.oldest + self.previous.len() + self.current.len()
    }

    /// All retained payloads, oldest first.
    pub open spec fn retained(self) -> Seq<M> {
        self.previous + self.current
    }

    /// Whether the message with this id is still in the queue.
    pub open spec fn holds(self, id: nat) -> bool {
        self.oldest <= id < self.total_sent_count()
    }

    /// The payload of a retained message.
    pub open spec fn payload(self, id: nat) -> M
        recommends
            self.holds(id),
    {
        self.retained()[id - self.oldest]
    }

    /// All retained messages with their ids, oldest first.
    pub open spec fn entries(self) -> Seq<(nat, M)> {
        Seq::new(self.retained().len(), |i: int| ((self.oldest + i) as nat, self.retained()[i]))
    }

    /// The queue after one more message was sent.
    pub open spec fn send(self, message: M) -> Self {
        MessagesView { current: self.current.push(message), ..self }
    }

    /// The queue after a tick boundary: `previous` is dropped, `current`
    /// takes its place, and a new empty generation begins.
    pub open spec fn rotate(self) -> Self {
        MessagesView {
            oldest: self.current_start(),
            previous: self.current,
            current: Seq::empty(),
        }
    }

    /// The queue after both generations were dropped. Ids go on where they were.
    pub open spec fn clear_all(self) -> Self {
        MessagesView {
            oldest: self.total_sent_count(),
            previous: Seq::empty(),
            current: Seq::empty(),
        }
    }

    /// The id at which a reader with this cursor starts reading: the cursor
    /// itself, moved up to the oldest retained id where it lags behind it, and
    /// never beyond the id of the next message.
    pub open spec fn first_unread(self, cursor: nat) -> nat {
        if cursor < self.oldest {
            self.oldest
        } else if cursor > self.total_sent_count() {
            self.total_sent_count()
        } else {
            cursor
        }
    }

    /// The messages a reader with this cursor has not seen and can still get,
    /// with their ids, oldest first.
    pub open spec fn unread(self, cursor: nat) -> Seq<(nat, M)> {
        self.entries().skip(self.first_unread(cursor) - self.oldest)
    }

    /// How many of the messages in [`Self::unread`] are of the previous
    /// generation. They come first.
    pub open spec fn unread_in_previous(self, cursor: nat) -> nat {
        if self.first_unread(cursor) < self.current_start() {
            (self.current_start() - self.first_unread(cursor)) as nat
        } else {
            0
        }
    }

    /// The payloads of [`Self::unread`], in the same order.
    pub open spec fn unread_payloads(self, cursor: nat) -> Seq<M> {
        self.retained().skip(self.first_unread(cursor) - self.oldest)
    }

    /// How many messages a reader with this cursor never saw and can no
    /// longer get, because they were dropped before it read them.
    pub open spec fn missed(self, cursor: nat) -> nat {
        if cursor < self.oldest {
            (self.oldest - cursor) as nat
        } else {
            0
        }
    }

    /// What [`Self::unread`] holds, position by position: consecutive ids
    /// from [`Self::first_unread`] up to the newest message, each with the
    /// payload that the queue holds under it.
    pub proof fn lemma_unread(self, cursor: nat)
        ensures
            self.oldest <= self.first_unread(cursor) <= self.total_sent_count(),
            self.unread(cursor).len() == self.total_sent_count() - self.first_unread(cursor),
            self.unread_payloads(cursor).len() == self.unread(cursor).len(),
            forall|i: int|
                0 <= i < self.unread(cursor).len() ==> {
                    let id = (self.first_unread(cursor) + i) as nat;
                    &&& self.holds(id)
                    &&& id >= cursor
                    &&& (#[trigger] self.unread(cursor)[i]) == (id, self.payload(id))
                    &&& self.unread_payloads(cursor)[i] == self.payload(id)
                },
    {
    }

    /// A read hands out a message exactly if the queue still holds it and
    /// the reader has not seen it: nothing else, and nothing less.
    pub proof fn lemma_unread_covers(self, cursor: nat, id: nat)
        ensures
            (exists|i: int| 0 <= i < self.unread(cursor).len() && (#[trigger] self.unread(cursor)[i]).0 == id)
                <==> (self.holds(id) && id >= cursor),
    {
        self.lemma_unread(cursor);
        if self.holds(id) && id >= cursor {
            let i = id - self.first_unread(cursor);
            assert(self.unread(cursor)[i].0 == id);
        }
    }
}

} // verus!
