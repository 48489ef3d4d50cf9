//! The unread messages of one read, split into batches that can be worked on
//! side by side.
use vstd::prelude::*;
use vstd::slice::slice_subrange;
use crate::math::{div_ceil, lemma_parts_to_hold, lemma_parts_to_hold_unique, parts_to_hold};
use super::iterators::MessageIteratorWithId;
use super::messages::entries_of;
use super::MessageInstance;

verus! {

/// The messages of all batches, with their ids, batch after batch.
pub open spec fn concat_batches<M>(batches: Seq<&[MessageInstance<M>]>) -> Seq<(nat, M)>
    decreases batches.len(),
{
    if batches.len() == 0 {
        Seq::empty()
    } else {
        concat_batches(batches.drop_last()) + entries_of(batches.last()@)
    }
}

/// How many batches of at most `batch_size` there are where `from_previous`
/// messages of the previous generation and `from_current` messages of the
/// current one are unread: as few as can be without a batch that holds
/// messages of both.
pub open spec fn batch_count(from_previous: nat, from_current: nat, batch_size: nat) -> int {
    parts_to_hold(from_previous as int, batch_size as int) + parts_to_hold(
        from_current as int,
        batch_size as int,
    )
}

/// Where the batch `part` begins among the messages of one generation.
pub open spec fn part_start(batch_size: nat, part: int) -> int {
    part * batch_size
}

/// Where the batch `part` ends among `count` messages of one generation:
/// every batch is full but the last one, which holds what is left.
pub open spec fn part_end(count: nat, batch_size: nat, part: int) -> int {
    if part_start(batch_size, part) + batch_size < count {
        part_start(batch_size, part) + batch_size
    } else {
        count as int
    }
}

/// Where the batch `batch` begins among the unread messages: the batches of
/// the previous generation come first, then those of the current one.
pub open spec fn batch_start(from_previous: nat, batch_size: nat, batch: int) -> int {
    let first_of_current = parts_to_hold(from_previous as int, batch_size as int);
    if batch < first_of_current {
        part_start(batch_size, batch)
    } else {
        from_previous + part_start(batch_size, batch - first_of_current)
    }
}

/// Where the batch `batch` ends among the unread messages.
pub open spec fn batch_end(
    from_previous: nat,
    from_current: nat,
    batch_size: nat,
    batch: int,
) -> int {
    let first_of_current = parts_to_hold(from_previous as int, batch_size as int);
    if batch < first_of_current {
        part_end(from_previous, batch_size, batch)
    } else {
        from_previous + part_end(from_current, batch_size, batch - first_of_current)
    }
}

/// The messages of the batch `batch` where `unread` are the unread messages
/// and the first `from_previous` of them are of the previous generation.
pub open spec fn batch_at<M>(
    unread: Seq<(nat, M)>,
    from_previous: nat,
    batch_size: nat,
    batch: int,
) -> Seq<(nat, M)> {
    unread.subrange(
        batch_start(from_previous, batch_size, batch),
        batch_end(from_previous, (unread.len() - from_previous) as nat, batch_size, batch),
    )
}

/// Whether the batches from `first` on are the pieces of `run`, in order:
/// each `batch_size` long, but for a shorter last one where the length of
/// the run leaves a remainder.
pub open spec fn holds_parts<M>(
    batches: Seq<&[MessageInstance<M>]>,
    first: int,
    run: Seq<MessageInstance<M>>,
    batch_size: nat,
) -> bool {
    forall|part: int|
        0 <= part < parts_to_hold(run.len() as int, batch_size as int) ==> (
        #[trigger] batches[first + part])@ == run.subrange(
            part_start(batch_size, part),
            part_end(run.len(), batch_size, part),
        )
}

/// The batches of one generation lie one behind the other: the first begins
/// at the beginning, each one where the one before it ends, and the last
/// one ends at the end. None is empty, and none is longer than `batch_size`.
pub proof fn lemma_parts_follow(count: nat, batch_size: nat, part: int)
    requires
        batch_size > 0,
        0 <= part < parts_to_hold(count as int, batch_size as int),
    ensures
        0 <= part_start(batch_size, part) < part_end(count, batch_size, part) <= count,
        part_end(count, batch_size, part) - part_start(batch_size, part) <= batch_size,
        part_start(batch_size, 0) == 0,
        part > 0 ==> part_start(batch_size, part) == part_end(count, batch_size, part - 1),
        part == parts_to_hold(count as int, batch_size as int) - 1 ==> part_end(
            count,
            batch_size,
            part,
        ) == count,
{
    let parts = parts_to_hold(count as int, batch_size as int);
    lemma_parts_to_hold(count as int, batch_size as int);
    assert(0 * batch_size == 0 && (part - 1) * batch_size == part * batch_size - batch_size && (part
        + 1) * batch_size == part * batch_size + batch_size) by (nonlinear_arith);
    assert(0 <= part * batch_size <= (parts - 1) * batch_size) by (nonlinear_arith)
        requires
            0 <= part <= parts - 1,
            batch_size > 0,
    ;
}

/// Batches that are consecutive pieces of a run, from its beginning on, hold
/// the beginning of the run when they are taken one after the other.
proof fn lemma_concat_consecutive<M>(
    batches: Seq<&[MessageInstance<M>]>,
    entries: Seq<(nat, M)>,
    start: spec_fn(int) -> int,
    end: spec_fn(int) -> int,
)
    requires
        forall|k: int|
            0 <= k < batches.len() ==> {
                &&& 0 <= #[trigger] start(k) <= end(k) <= entries.len()
                &&& entries_of(batches[k]@) == entries.subrange(start(k), end(k))
                &&& k == 0 ==> start(k) == 0
                &&& k > 0 ==> start(k) == end(k - 1)
            },
    ensures
        batches.len() == 0 ==> concat_batches(batches) == entries.subrange(0, 0),
        batches.len() > 0 ==> concat_batches(batches) == entries.subrange(
            0,
            end(batches.len() - 1),
        ),
    decreases batches.len(),
{
    if batches.len() == 0 {
        assert(concat_batches(batches) =~= entries.subrange(0, 0));
    } else {
        let last = batches.len() - 1;
        let rest = batches.drop_last();
        assert forall|k: int| 0 <= k < rest.len() implies {
            &&& 0 <= #[trigger] start(k) <= end(k) <= entries.len()
            &&& entries_of(rest[k]@) == entries.subrange(start(k), end(k))
            &&& k == 0 ==> start(k) == 0
            &&& k > 0 ==> start(k) == end(k - 1)
        } by {
            assert(rest[k] == batches[k]);
        }
        lemma_concat_consecutive(rest, entries, start, end);
        assert(0 <= start(last) <= end(last) <= entries.len());
        assert(entries_of(batches[last]@) == entries.subrange(start(last), end(last)));
        if last > 0 {
            assert(start(last) == end(last - 1));
        }
        assert(concat_batches(batches) =~= entries.subrange(0, end(last)));
    }
}

/// What the batches of both generations are among the unread messages.
proof fn lemma_batches_of_both<M>(
    batches: Seq<&[MessageInstance<M>]>,
    previous: Seq<MessageInstance<M>>,
    current: Seq<MessageInstance<M>>,
    batch_size: nat,
)
    requires
        batch_size > 0,
        batches.len() == batch_count(previous.len(), current.len(), batch_size),
        holds_parts(batches, 0, previous, batch_size),
        holds_parts(
            batches,
            parts_to_hold(previous.len() as int, batch_size as int),
            current,
            batch_size,
        ),
    ensures
        forall|k: int|
            0 <= k < batches.len() ==> 0 < (#[trigger] batches[k])@.len() <= batch_size,
        forall|k: int|
            0 <= k < batches.len() ==> entries_of((#[trigger] batches[k])@) == batch_at(
                entries_of(previous) + entries_of(current),
                previous.len(),
                batch_size,
                k,
            ),
        concat_batches(batches) == entries_of(previous) + entries_of(current),
{
    let entries = entries_of(previous) + entries_of(current);
    let first_of_current = parts_to_hold(previous.len() as int, batch_size as int);
    let start = |k: int| batch_start(previous.len(), batch_size, k);
    let end = |k: int| batch_end(previous.len(), current.len(), batch_size, k);
    lemma_parts_to_hold(previous.len() as int, batch_size as int);
    lemma_parts_to_hold(current.len() as int, batch_size as int);
    assert((entries.len() - previous.len()) as nat == current.len());
    assert forall|k: int|
        #![trigger start(k)]
        #![trigger batches[k]]
        0 <= k < batches.len() implies {
        &&& 0 <= start(k) < end(k) <= entries.len()
        &&& 0 < batches[k]@.len() <= batch_size
        &&& entries_of(batches[k]@) == entries.subrange(start(k), end(k))
        &&& entries_of(batches[k]@) == batch_at(entries, previous.len(), batch_size, k)
        &&& k == 0 ==> start(k) == 0
        &&& k > 0 ==> start(k) == end(k - 1)
        &&& k == batches.len() - 1 ==> end(k) == entries.len()
    } by {
        if k < first_of_current {
            lemma_parts_follow(previous.len(), batch_size, k);
            let (from, to) = (part_start(batch_size, k), part_end(previous.len(), batch_size, k));
            assert(batches[0 + k]@ == previous.subrange(from, to));
            assert(entries_of(previous.subrange(from, to)) =~= entries.subrange(from, to));
            if k == batches.len() - 1 {
                assert(current.len() == 0);
            }
        } else {
            let part = k - first_of_current;
            lemma_parts_follow(current.len(), batch_size, part);
            let (from, to) = (part_start(batch_size, part), part_end(current.len(), batch_size, part));
            assert(batches[first_of_current + part]@ == current.subrange(from, to));
            assert(entries_of(current.subrange(from, to)) =~= entries.subrange(
                previous.len() + from,
                previous.len() + to,
            ));
            if part == 0 && first_of_current > 0 {
                lemma_parts_follow(previous.len(), batch_size, first_of_current - 1);
            }
        }
    }
    lemma_concat_consecutive(batches, entries, start, end);
    if batches.len() == 0 {
        assert(entries =~= entries.subrange(0, 0));
    } else {
        let last = batches.len() - 1;
        assert(0 <= start(last));
        assert(end(last) == entries.len());
        assert(entries =~= entries.subrange(0, entries.len() as int));
    }
}

/// Appends to `batches` the pieces of `slice`, in order: each `batch_size`
/// long, but for a shorter last one where the length leaves a remainder.
fn push_batches<'a, M>(
    batches: &mut Vec<&'a [MessageInstance<M>]>,
    slice: &'a [MessageInstance<M>],
    batch_size: usize,
)
    requires
        batch_size > 0,
    ensures
        final(batches)@.len() == old(batches)@.len() + parts_to_hold(
            slice@.len() as int,
            batch_size as int,
        ),
        forall|k: int| 0 <= k < old(batches)@.len() ==> final(batches)@[k] == old(batches)@[k],
        holds_parts(final(batches)@, old(batches)@.len() as int, slice@, batch_size as nat),
{
    let mut start: usize = 0;
    let ghost before = batches@;
    let ghost mut parts: int = 0;
    proof {
        assert(0 * batch_size == 0) by (nonlinear_arith);
    }
    while start < slice.len()
        invariant
            batch_size > 0,
            parts >= 0,
            start <= slice@.len(),
            start < slice@.len() ==> start == parts * batch_size,
            start == slice@.len() ==> parts * batch_size >= slice@.len(),
            parts == 0 || (parts - 1) * batch_size < slice@.len(),
            batches@.len() == before.len() + parts,
            forall|k: int| 0 <= k < before.len() ==> batches@[k] == before[k],
            forall|part: int|
                0 <= part < parts ==> (#[trigger] batches@[before.len() + part])@ == slice@.subrange(
                    part_start(batch_size as nat, part),
                    part_end(slice@.len(), batch_size as nat, part),
                ),
        decreases slice@.len() - start,
    {
        let end = if slice.len() - start > batch_size {
            start + batch_size
        } else {
            slice.len()
        };
        let batch = slice_subrange(slice, start, end);
        proof {
            assert((parts + 1) * batch_size == parts * batch_size + batch_size && (parts + 1 - 1)
                * batch_size == parts * batch_size) by (nonlinear_arith);
            assert(part_start(batch_size as nat, parts) == start);
            assert(part_end(slice@.len(), batch_size as nat, parts) == end);
        }
        let ghost earlier = batches@;
        batches.push(batch);
        proof {
            assert forall|part: int| 0 <= part < parts + 1 implies (#[trigger] batches@[before.len()
                + part])@ == slice@.subrange(
                part_start(batch_size as nat, part),
                part_end(slice@.len(), batch_size as nat, part),
            ) by {
                if part < parts {
                    assert(batches@[before.len() + part] == earlier[before.len() + part]);
                }
            }
            parts = parts + 1;
        }
        start = end;
    }
    proof {
        lemma_parts_to_hold_unique(slice@.len() as int, batch_size as int, parts);
    }
}

/// How the unread messages are shared out among the threads that work on
/// them: how large a batch may be, and how many batches a thread is to get.
#[derive(Clone, Copy, Debug, PartialEq, Eq, Structural)]
pub struct BatchingStrategy {
    /// No batch is to be smaller than this, but for the last one.
    pub min_batch_size: usize,
    /// No batch is to be larger than this.
    pub max_batch_size: usize,
    /// How many batches each thread is to get.
    pub batches_per_thread: usize,
}

impl BatchingStrategy {
    /// The size of a batch where `max_items` messages are shared out among
    /// `thread_count` threads.
    ///
    /// The messages are shared out evenly, `batches_per_thread` batches to
    /// each thread. The size is then brought into the limits, the lower one
    /// first, and is one at the least.
    pub open spec fn batch_size(self, max_items: usize, thread_count: usize) -> int {
        let wanted = thread_count * self.batches_per_thread;
        let batches = if wanted == 0 {
            1
        } else if wanted > usize::MAX {
            usize::MAX as int
        } else {
            wanted
        };
        let even = parts_to_hold(max_items as int, batches);
        let raised = if even < self.min_batch_size {
            self.min_batch_size as int
        } else {
            even
        };
        let bounded = if raised > self.max_batch_size {
            self.max_batch_size as int
        } else {
            raised
        };
        if bounded < 1 {
            1
        } else {
            bounded
        }
    }

    /// One batch for each thread, of any size.
    pub fn new() -> (strategy: Self)
        ensures
            strategy == (BatchingStrategy {
                min_batch_size: 1,
                max_batch_size: usize::MAX,
                batches_per_thread: 1,
            }),
    {
        BatchingStrategy { min_batch_size: 1, max_batch_size: usize::MAX, batches_per_thread: 1 }
    }

    /// Batches of one size, whatever the number of threads.
    pub fn fixed(batch_size: usize) -> (strategy: Self)
        ensures
            strategy == (BatchingStrategy {
                min_batch_size: batch_size,
                max_batch_size: batch_size,
                batches_per_thread: 1,
            }),
    {
        BatchingStrategy {
            min_batch_size: batch_size,
            max_batch_size: batch_size,
            batches_per_thread: 1,
        }
    }

    /// The size of a batch where `max_items` messages are shared out among
    /// `thread_count` threads.
    pub fn calc_batch_size(&self, max_items: usize, thread_count: usize) -> (size: usize)
        ensures
            size == self.batch_size(max_items, thread_count),
            size >= 1,
    {
        let batches = match thread_count.checked_mul(self.batches_per_thread) {
            Some(0) => 1,
            Some(wanted) => wanted,
            None => usize::MAX,
        };
        proof {
            lemma_parts_to_hold(max_items as int, batches as int);
        }
        let even = div_ceil(max_items as u64, batches as u64) as usize;
        let raised = if even < self.min_batch_size {
            self.min_batch_size
        } else {
            even
        };
        let bounded = if raised > self.max_batch_size {
            self.max_batch_size
        } else {
            raised
        };
        if bounded < 1 {
            1
        } else {
            bounded
        }
    }
}

/// The unread messages of one read, to be split into batches.
///
/// The sequence is fixed when the read is made, and the reader counts all of
/// it as read from then on, whatever becomes of the batches.
pub struct MessageParIter<'a, M> {
    previous: &'a [MessageInstance<M>],
    current: &'a [MessageInstance<M>],
    missed: u64,
}

impl<'a, M> View for MessageParIter<'a, M> {
    type V = Seq<(nat, M)>;

    /// The unread messages with their ids, oldest first.
    closed spec fn view(&self) -> Seq<(nat, M)> {
        entries_of(self.previous@) + entries_of(self.current@)
    }
}

impl<'a, M> MessageParIter<'a, M> {
    #[verifier::type_invariant]
    spec fn in_bounds(self) -> bool {
        self.previous@.len() + self.current@.len() <= usize::MAX
    }

    /// How many messages the reader had lost for good when the read was made.
    pub closed spec fn missed(self) -> nat {
        self.missed as nat
    }

    /// How many of the unread messages are of the previous generation. They
    /// come first.
    pub closed spec fn from_previous(self) -> nat {
        self.previous@.len()
    }

    /// How many of the unread messages are of the current generation. They
    /// come last.
    pub open spec fn from_current(self) -> nat {
        (self@.len() - self.from_previous()) as nat
    }

    /// The unread messages in `previous` followed by those in `current`.
    pub(super) fn new(
        previous: &'a [MessageInstance<M>],
        current: &'a [MessageInstance<M>],
        missed: u64,
    ) -> (iter: Self)
        requires
            previous@.len() + current@.len() <= usize::MAX,
        ensures
            iter@ == entries_of(previous@) + entries_of(current@),
            iter.from_previous() == previous@.len(),
            iter.missed() == missed,
    {
        MessageParIter { previous, current, missed }
    }

    /// The number of unread messages.
    pub fn len(&self) -> (count: usize)
        ensures
            count == self@.len(),
    {
        proof {
            use_type_invariant(self);
        }
        self.previous.len() + self.current.len()
    }

    /// Whether there is no unread message.
    pub fn is_empty(&self) -> (empty: bool)
        ensures
            empty == (self@.len() == 0),
    {
        self.len() == 0
    }

    /// How many messages the reader had lost for good when the read was made:
    /// messages that were dropped before the reader got to them. Zero means
    /// that the reader kept up.
    pub fn missed_messages(&self) -> (count: u64)
        ensures
            count == self.missed(),
    {
        self.missed
    }

    /// Splits the unread messages into batches of at most `batch_size`.
    ///
    /// The batches are consecutive pieces of the unread messages: taken one
    /// after the other, they hold each unread message once, in the order of
    /// the ids. The messages of the previous generation are split first, then
    /// those of the current one, so that no batch holds messages of both.
    /// Within a generation every batch is full but the last one. No batch is
    /// empty.
    pub fn batches(&self, batch_size: usize) -> (batches: Vec<&'a [MessageInstance<M>]>)
        requires
            batch_size > 0,
        ensures
            self.from_previous() <= self@.len(),
            batches@.len() == batch_count(
                self.from_previous(),
                self.from_current(),
                batch_size as nat,
            ),
            forall|k: int|
                0 <= k < batches@.len() ==> 0 < (#[trigger] batches@[k])@.len() <= batch_size,
            forall|k: int|
                0 <= k < batches@.len() ==> entries_of((#[trigger] batches@[k])@) == batch_at(
                    self@,
                    self.from_previous(),
                    batch_size as nat,
                    k,
                ),
            concat_batches(batches@) == self@,
    {
        let mut batches: Vec<&'a [MessageInstance<M>]> = Vec::new();
        push_batches(&mut batches, self.previous, batch_size);
        let ghost of_previous = batches@;
        push_batches(&mut batches, self.current, batch_size);
        proof {
            assert forall|part: int|
                0 <= part < parts_to_hold(
                    self.previous@.len() as int,
                    batch_size as int,
                ) implies (#[trigger] batches@[0 + part])@ == self.previous@.subrange(
                part_start(batch_size as nat, part),
                part_end(self.previous@.len(), batch_size as nat, part),
            ) by {
                assert(batches@[part] == of_previous[0 + part]);
            }
            lemma_batches_of_both(batches@, self.previous@, self.current@, batch_size as nat);
            assert(self@.len() == self.previous@.len() + self.current@.len());
        }
        batches
    }

    /// The same messages, to be taken one by one.
    pub fn sequential(self) -> (iter: MessageIteratorWithId<'a, M>)
        ensures
            iter@ == self@,
            iter.missed() == self.missed(),
    {
        proof {
            use_type_invariant(&self);
        }
        MessageIteratorWithId::new(self.previous, self.current, self.missed)
    }
}

} // verus!
