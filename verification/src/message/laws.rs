//! What holds of the bus as a whole, for every queue, every cursor and every
//! course of events.
use vstd::prelude::*;
use vstd::multiset::Multiset;
use super::messages::entries_of;
use super::model::MessagesView;
use super::par_iter::concat_batches;
use super::MessageInstance;

verus! {

/// One thing that happens to a queue or to the reader that follows it.
pub enum Step<M> {
    /// A writer sends a message.
    Send(M),
    /// A tick ends.
    Rotate,
    /// The reader reads.
    Read,
}

/// A queue and one of its readers, with the record of all that was sent and
/// of all that the reader was handed.
pub struct History<M> {
    pub queue: MessagesView<M>,
    /// The reader's cursor.
    pub cursor: nat,
    /// Every message ever sent: the message with id `i` is `sent[i]`.
    pub sent: Seq<M>,
    /// Every message the reader was handed, in the order in which it got them.
    pub received: Seq<(nat, M)>,
}

impl<M> History<M> {
    /// A new queue, and a reader that attached to it before anything was sent.
    pub open spec fn start() -> Self {
        History {
            queue: MessagesView::empty(),
            cursor: 0,
            sent: Seq::empty(),
            received: Seq::empty(),
        }
    }

    /// The history after one more step.
    pub open spec fn step(self, step: Step<M>) -> Self {
        match step {
            Step::Send(message) => History {
                queue: self.queue.send(message),
                sent: self.sent.push(message),
                ..self
            },
            Step::Rotate => History { queue: self.queue.rotate(), ..self },
            Step::Read => History {
                cursor: self.queue.total_sent_count(),
                received: self.received + self.queue.unread(self.cursor),
                ..self
            },
        }
    }

    /// The history after a run of steps.
    pub open spec fn run(self, steps: Seq<Step<M>>) -> Self
        decreases steps.len(),
    {
        if steps.len() == 0 {
            self
        } else {
            self.run(steps.drop_last()).step(steps.last())
        }
    }

    /// The record agrees with the queue, and the reader got its messages in
    /// the order of their ids, each one as it was sent.
    pub open spec fn consistent(self) -> bool {
        &&& self.queue.total_sent_count() == self.sent.len()
        &&& forall|id: nat|
            self.queue.holds(id) ==> self.queue.payload(id) == #[trigger] self.sent[id as int]
        &&& self.cursor <= self.sent.len()
        &&& forall|i: int|
            0 <= i < self.received.len() ==> {
                &&& (#[trigger] self.received[i]).0 < self.cursor
                &&& self.received[i].1 == self.sent[self.received[i].0 as int]
            }
        &&& forall|i: int, j: int|
            0 <= i < j < self.received.len() ==> (#[trigger] self.received[i]).0 < (
            #[trigger] self.received[j]).0
    }

    /// The reader was handed every message below its cursor, and each once.
    pub open spec fn received_all(self) -> bool {
        self.received == Seq::new(self.cursor, |i: int| (i as nat, self.sent[i]))
    }

    /// A step keeps a consistent history consistent.
    pub proof fn lemma_step_consistent(self, step: Step<M>)
        requires
            self.consistent(),
        ensures
            self.step(step).consistent(),
    {
        let next = self.step(step);
        match step {
            Step::Send(message) => {
                assert forall|id: nat| next.queue.holds(id) implies next.queue.payload(id)
                    == #[trigger] next.sent[id as int] by {
                    if id < self.sent.len() {
                        assert(self.queue.holds(id));
                        assert(self.queue.payload(id) == self.sent[id as int]);
                    }
                }
            },
            Step::Rotate => {
                assert forall|id: nat| next.queue.holds(id) implies next.queue.payload(id)
                    == #[trigger] next.sent[id as int] by {
                    assert(self.queue.holds(id));
                    assert(self.queue.payload(id) == self.sent[id as int]);
                }
            },
            Step::Read => {
                self.queue.lemma_unread(self.cursor);
                let unread = self.queue.unread(self.cursor);
                assert forall|i: int| 0 <= i < next.received.len() implies {
                    &&& (#[trigger] next.received[i]).0 < next.cursor
                    &&& next.received[i].1 == next.sent[next.received[i].0 as int]
                } by {
                    if i >= self.received.len() {
                        assert(next.received[i] == unread[i - self.received.len()]);
                        assert(self.queue.payload(next.received[i].0) == self.sent[next.received[i].0 as int]);
                    }
                }
                assert forall|i: int, j: int| 0 <= i < j < next.received.len() implies (
                #[trigger] next.received[i]).0 < (#[trigger] next.received[j]).0 by {
                    if j >= self.received.len() {
                        assert(next.received[j] == unread[j - self.received.len()]);
                        if i >= self.received.len() {
                            assert(next.received[i] == unread[i - self.received.len()]);
                        }
                    }
                }
            },
        }
    }

    /// A run of steps keeps a consistent history consistent.
    pub proof fn lemma_run_consistent(self, steps: Seq<Step<M>>)
        requires
            self.consistent(),
        ensures
            self.run(steps).consistent(),
        decreases steps.len(),
    {
        if steps.len() > 0 {
            self.lemma_run_consistent(steps.drop_last());
            self.run(steps.drop_last()).lemma_step_consistent(steps.last());
        }
    }

    /// No step lets the queue take back an id that it has dropped.
    pub proof fn lemma_run_oldest_grows(self, steps: Seq<Step<M>>)
        ensures
            self.run(steps).queue.oldest >= self.queue.oldest,
        decreases steps.len(),
    {
        if steps.len() > 0 {
            self.lemma_run_oldest_grows(steps.drop_last());
        }
    }
}

/// Whether a read follows every rotation in `steps`, except a rotation that
/// is the last step.
pub open spec fn reads_follow_rotations<M>(steps: Seq<Step<M>>) -> bool {
    forall|k: int|
        0 <= k < steps.len() - 1 && (#[trigger] steps[k]) is Rotate ==> steps[k + 1] is Read
}

/// Order is preserved. Whatever is sent, and however sends, rotations and
/// reads follow one another, a reader that attached before the first send is
/// handed the messages in strictly increasing order of their ids, so none
/// twice, and each with the payload that was sent under its id.
pub proof fn lemma_order_preserved<M>(steps: Seq<Step<M>>)
    ensures
        ({
            let history = History::<M>::start().run(steps);
            &&& forall|i: int, j: int|
                0 <= i < j < history.received.len() ==> (#[trigger] history.received[i]).0 < (
                #[trigger] history.received[j]).0
            &&& forall|i: int|
                0 <= i < history.received.len() ==> {
                    &&& (#[trigger] history.received[i]).0 < history.sent.len()
                    &&& history.received[i].1 == history.sent[history.received[i].0 as int]
                }
        }),
{
    History::<M>::start().lemma_run_consistent(steps);
}

/// What holds after every step of a reader that reads after every rotation:
/// it has lost nothing, and a read now would lose nothing either.
proof fn lemma_kept_up<M>(steps: Seq<Step<M>>)
    requires
        reads_follow_rotations(steps),
    ensures
        ({
            let history = History::<M>::start().run(steps);
            &&& history.consistent()
            &&& history.received_all()
            &&& history.cursor >= history.queue.oldest
            &&& (steps.len() == 0 || !(steps.last() is Rotate)) ==> history.cursor
                >= history.queue.current_start()
        }),
    decreases steps.len(),
{
    let start = History::<M>::start();
    start.lemma_run_consistent(steps);
    if steps.len() == 0 {
        assert(start.received =~= Seq::new(start.cursor, |i: int| (i as nat, start.sent[i])));
    } else {
        let before = steps.drop_last();
        assert forall|k: int| 0 <= k < before.len() - 1 && (#[trigger] before[k]) is Rotate implies before[k
            + 1] is Read by {
            assert(before[k] == steps[k]);
            assert(before[k + 1] == steps[k + 1]);
        }
        lemma_kept_up(before);
        let prior = start.run(before);
        let history = prior.step(steps.last());
        match steps.last() {
            Step::Send(message) => {
                assert(history.received =~= Seq::new(
                    history.cursor,
                    |i: int| (i as nat, history.sent[i]),
                ));
            },
            Step::Rotate => {
                if before.len() > 0 && before.last() is Rotate {
                    let k = before.len() - 1;
                    assert(steps[k] == before[k]);
                    assert(steps[k + 1] is Read);
                }
            },
            Step::Read => {
                prior.queue.lemma_unread(prior.cursor);
                assert(prior.queue.first_unread(prior.cursor) == prior.cursor);
                assert forall|i: int| 0 <= i < history.received.len() implies history.received[i] == (
                    i as nat,
                    history.sent[i],
                ) by {
                    if i >= prior.received.len() {
                        let at = i - prior.received.len();
                        assert(history.received[i] == prior.queue.unread(prior.cursor)[at]);
                        assert(prior.queue.payload(i as nat) == prior.sent[i]);
                    }
                }
                assert(history.received =~= Seq::new(
                    history.cursor,
                    |i: int| (i as nat, history.sent[i]),
                ));
            },
        }
    }
}

/// Nothing is lost to a reader that keeps up. Where a reader attached before
/// the first send and a read follows every rotation, the reader has been
/// handed, after its latest read, every message sent before that read, each
/// once and in the order of sending.
pub proof fn lemma_nothing_lost_when_read_every_tick<M>(steps: Seq<Step<M>>)
    requires
        forall|k: int|
            0 <= k < steps.len() && (#[trigger] steps[k]) is Rotate ==> k + 1 < steps.len()
                && steps[k + 1] is Read,
    ensures
        ({
            let history = History::<M>::start().run(steps);
            &&& history.received == Seq::new(history.cursor, |i: int| (i as nat, history.sent[i]))
            &&& history.queue.missed(history.cursor) == 0
        }),
{
    lemma_kept_up(steps);
}

/// The messages that a queue gets when `messages` are sent to it in turn.
pub open spec fn send_all<M>(queue: MessagesView<M>, messages: Seq<M>) -> MessagesView<M>
    decreases messages.len(),
{
    if messages.len() == 0 {
        queue
    } else {
        send_all(queue, messages.drop_last()).send(messages.last())
    }
}

/// Sending leaves the rotation-relevant ids where they are.
proof fn lemma_send_all_keeps_start<M>(queue: MessagesView<M>, messages: Seq<M>)
    ensures
        send_all(queue, messages).oldest == queue.oldest,
        send_all(queue, messages).current_start() == queue.current_start(),
        send_all(queue, messages).total_sent_count() == queue.total_sent_count() + messages.len(),
    decreases messages.len(),
{
    if messages.len() > 0 {
        lemma_send_all_keeps_start(queue, messages.drop_last());
    }
}

/// The rotation drop law. A message that was sent before a tick ended is
/// gone once the next tick has ended too, whatever was sent in between: the
/// queue no longer holds it, and no read of any reader hands it out, then or
/// after any further sends, rotations and reads.
pub proof fn lemma_dropped_after_two_rotations<M>(
    queue: MessagesView<M>,
    between: Seq<M>,
    later: Seq<Step<M>>,
    reader: History<M>,
    id: nat,
)
    requires
        id < queue.total_sent_count(),
        reader.queue == send_all(queue.rotate(), between).rotate(),
    ensures
        !send_all(queue.rotate(), between).rotate().holds(id),
        forall|i: int|
            0 <= i < reader.run(later).queue.unread(reader.run(later).cursor).len() ==> (
            #[trigger] reader.run(later).queue.unread(reader.run(later).cursor)[i]).0 != id,
{
    lemma_send_all_keeps_start(queue.rotate(), between);
    reader.lemma_run_oldest_grows(later);
    let after = reader.run(later);
    after.queue.lemma_unread(after.cursor);
}

/// Clearing skips ahead without handing anything out. After a clear, which
/// moves the cursor to the id of the next message, a read hands out
/// nothing; and after one more send, a read hands out that message alone.
pub proof fn lemma_clear_then_read<M>(queue: MessagesView<M>, message: M)
    ensures
        queue.unread(queue.total_sent_count()) == Seq::<(nat, M)>::empty(),
        queue.send(message).unread(queue.total_sent_count()) == seq![
            (queue.total_sent_count(), message),
        ],
{
    let cursor = queue.total_sent_count();
    queue.lemma_unread(cursor);
    queue.send(message).lemma_unread(cursor);
    assert(queue.unread(cursor) =~= Seq::<(nat, M)>::empty());
    assert(queue.send(message).unread(cursor) =~= seq![(cursor, message)]);
}

/// The ids of a run of messages.
pub open spec fn ids_of<M>(entries: Seq<(nat, M)>) -> Seq<nat> {
    Seq::new(entries.len(), |i: int| entries[i].0)
}

/// The ids of all batches together, each as often as it occurs in them.
pub open spec fn batch_ids<M>(batches: Seq<&[MessageInstance<M>]>) -> Multiset<nat>
    decreases batches.len(),
{
    if batches.len() == 0 {
        Multiset::empty()
    } else {
        batch_ids(batches.drop_last()).add(ids_of(entries_of(batches.last()@)).to_multiset())
    }
}

/// The ids of all batches together are the ids of their concatenation.
proof fn lemma_batch_ids_of_concat<M>(batches: Seq<&[MessageInstance<M>]>)
    ensures
        batch_ids(batches) == ids_of(concat_batches(batches)).to_multiset(),
    decreases batches.len(),
{
    if batches.len() == 0 {
        assert(ids_of(concat_batches(batches)) =~= Seq::<nat>::empty());
        ids_of(concat_batches(batches)).to_multiset_ensures();
        assert(ids_of(concat_batches(batches)).to_multiset() =~= Multiset::<nat>::empty());
    } else {
        lemma_batch_ids_of_concat(batches.drop_last());
        let head = ids_of(concat_batches(batches.drop_last()));
        let tail = ids_of(entries_of(batches.last()@));
        assert(ids_of(concat_batches(batches)) =~= head + tail);
        vstd::seq_lib::lemma_multiset_commutative(head, tail);
    }
}

/// Batches neither repeat nor leave out. Where batches are a split of what
/// one read hands out, the ids in all batches together are exactly the ids
/// of that read, and no id occurs twice among them.
pub proof fn lemma_batches_hold_each_unread_once<M>(
    queue: MessagesView<M>,
    cursor: nat,
    batches: Seq<&[MessageInstance<M>]>,
)
    requires
        concat_batches(batches) == queue.unread(cursor),
    ensures
        batch_ids(batches) == ids_of(queue.unread(cursor)).to_multiset(),
        forall|id: nat| batch_ids(batches).count(id) <= 1,
        forall|id: nat| batch_ids(batches).count(id) == 1 <==> (queue.holds(id) && id >= cursor),
{
    lemma_batch_ids_of_concat(batches);
    let ids = ids_of(queue.unread(cursor));
    queue.lemma_unread(cursor);
    assert(ids.no_duplicates());
    ids.lemma_multiset_has_no_duplicates();
    ids.to_multiset_ensures();
    assert forall|id: nat| batch_ids(batches).count(id) == 1 <==> (queue.holds(id) && id
        >= cursor) by {
        queue.lemma_unread_covers(cursor, id);
        if queue.holds(id) && id >= cursor {
            let i = choose|i: int|
                0 <= i < queue.unread(cursor).len() && (#[trigger] queue.unread(cursor)[i]).0 == id;
            assert(ids[i] == id);
            assert(ids.contains(id));
        }
        if ids.contains(id) {
            let i = choose|i: int| 0 <= i < ids.len() && ids[i] == id;
            assert(queue.unread(cursor)[i].0 == id);
        }
    }
}

} // verus!
