use message_bus::message::{
    BatchingStrategy, MessageCursor, MessageId, MessageReader, MessageWriter, Messages,
    PopulatedMessageReader,
};

#[derive(Debug, Clone, Copy, PartialEq, Eq)]
struct Ping(u64);

struct TheMessage;

/// Runs a unit of work that takes a `PopulatedMessageReader`, the way a
/// schedule does: the probe first, the unit only where the probe lets it.
fn run_gated<M>(
    state: &mut MessageCursor<M>,
    messages: Option<&Messages<M>>,
    mut system: impl FnMut(PopulatedMessageReader<M>),
) {
    if PopulatedMessageReader::validate_param(state, messages).is_ok() {
        let queue = messages.unwrap();
        system(PopulatedMessageReader::get_param(state, queue));
    }
}

fn collect<'a, M>(reader: &'a mut MessageReader<'_, '_, M>) -> Vec<&'a M> {
    let mut iter = reader.read();
    let mut out = Vec::new();
    while let Some(message) = iter.next() {
        out.push(message);
    }
    out
}

fn collect_with_id<M: Copy>(cursor: &mut MessageCursor<M>, messages: &Messages<M>) -> Vec<(u64, M)> {
    let mut iter = cursor.read_with_id(messages);
    let mut out = Vec::new();
    while let Some((message, id)) = iter.next() {
        out.push((id.id, *message));
    }
    out
}

#[test]
fn test_populated_message_reader() {
    let mut system_ran = false;

    let mut world: Messages<TheMessage> = Messages::new();
    let mut state = PopulatedMessageReader::init_state(&world);

    run_gated(&mut state, Some(&world), |_reader| {
        system_ran = true;
    });
    assert!(
        !system_ran,
        "system with PopulatedMessageReader should have been skipped"
    );

    world.send(TheMessage);
    run_gated(&mut state, Some(&world), |_reader| {
        system_ran = true;
    });
    assert!(
        system_ran,
        "system with PopulatedMessageReader should NOT have been skipped"
    );
}

#[test]
fn reader_attached_before_tick_sees_all_in_order() {
    let mut messages: Messages<Ping> = Messages::new();
    let mut state_a = MessageReader::init_state(&messages);

    assert_eq!(messages.send(Ping(0)), MessageId { id: 0 });
    assert_eq!(messages.send(Ping(1)), MessageId { id: 1 });
    assert_eq!(messages.send(Ping(2)), MessageId { id: 2 });

    let mut state_b = MessageReader::init_state(&messages);
    assert_eq!(state_b.next_unread_id(), 3);

    messages.rotate();

    {
        let mut reader_a = MessageReader::get_param(&mut state_a, &messages);
        assert_eq!(collect(&mut reader_a), vec![&Ping(0), &Ping(1), &Ping(2)]);
    }
    assert_eq!(state_a.next_unread_id(), 3);

    {
        let mut reader_b = MessageReader::get_param(&mut state_b, &messages);
        assert!(collect(&mut reader_b).is_empty());
    }
    assert_eq!(state_b.next_unread_id(), 3);
}

#[test]
fn reader_two_rotations_behind_sees_nothing_and_learns_of_loss() {
    let mut messages: Messages<Ping> = Messages::new();
    let mut state = MessageReader::init_state(&messages);

    for id in 0..5 {
        assert_eq!(messages.send(Ping(id)).id, id);
    }
    messages.rotate();
    messages.rotate();

    assert_eq!(state.missed_messages(&messages), 5);
    let mut reader = MessageReader::get_param(&mut state, &messages);
    assert_eq!(reader.len(), 0);
    let mut iter = reader.read();
    assert_eq!(iter.missed_messages(), 5);
    assert_eq!(iter.len(), 0);
    assert!(iter.next().is_none());
    assert_eq!(state.next_unread_id(), 5);
    assert_eq!(state.missed_messages(&messages), 0);
}

#[test]
fn message_survives_one_rotation_and_not_two() {
    let mut messages: Messages<Ping> = Messages::new();
    messages.send(Ping(7));

    messages.rotate();
    messages.send(Ping(8));
    let mut late = messages.get_cursor_current();
    let mut lagging = MessageCursor::default();
    assert_eq!(lagging.next_unread_id(), 0);
    assert_eq!(
        collect_with_id(&mut lagging, &messages),
        vec![(0, Ping(7)), (1, Ping(8))]
    );

    messages.rotate();
    let mut lagging = MessageCursor::default();
    assert_eq!(lagging.missed_messages(&messages), 1);
    assert_eq!(collect_with_id(&mut lagging, &messages), vec![(1, Ping(8))]);
    assert!(collect_with_id(&mut late, &messages).is_empty());
    assert_eq!(messages.oldest_message_count(), 1);
    assert_eq!(messages.total_sent_count(), 2);
}

#[test]
fn reads_after_every_rotation_lose_nothing() {
    let mut messages: Messages<Ping> = Messages::new();
    let mut state = MessageReader::init_state(&messages);
    let mut seen = Vec::new();
    let mut next = 0;
    for tick in 0..6u64 {
        for _ in 0..tick % 3 {
            messages.send(Ping(next));
            next += 1;
        }
        if tick % 2 == 0 {
            seen.extend(collect_with_id(&mut state, &messages));
        }
        messages.rotate();
        seen.extend(collect_with_id(&mut state, &messages));
    }
    let expected: Vec<(u64, Ping)> = (0..next).map(|id| (id, Ping(id))).collect();
    assert_eq!(seen, expected);
    assert_eq!(next, 6);
}

#[test]
fn second_read_hands_out_nothing() {
    let mut messages: Messages<Ping> = Messages::new();
    let mut state = MessageReader::init_state(&messages);
    messages.send(Ping(1));
    messages.send(Ping(2));
    let mut reader = MessageReader::get_param(&mut state, &messages);
    {
        let mut first = reader.read();
        assert_eq!(first.len(), 2);
        assert_eq!(first.next(), Some(&Ping(1)));
        assert_eq!(first.len(), 1);
    }
    assert!(reader.is_empty());
    assert!(reader.read().next().is_none());
}

#[test]
fn len_and_is_empty_do_not_consume() {
    let mut messages: Messages<Ping> = Messages::new();
    let mut state = MessageReader::init_state(&messages);
    messages.send(Ping(1));
    messages.rotate();
    messages.send(Ping(2));
    messages.send(Ping(3));
    let mut reader = MessageReader::get_param(&mut state, &messages);
    for _ in 0..3 {
        assert_eq!(reader.len(), 3);
        assert!(!reader.is_empty());
        assert_eq!(reader.reader.next_unread_id(), 0);
    }
    assert_eq!(collect(&mut reader), vec![&Ping(1), &Ping(2), &Ping(3)]);
    assert_eq!(reader.len(), 0);
    assert!(reader.is_empty());
}

#[test]
fn clear_skips_ahead_without_yielding() {
    let mut messages: Messages<Ping> = Messages::new();
    let mut state = MessageReader::init_state(&messages);
    messages.send(Ping(1));
    messages.send(Ping(2));
    {
        let mut reader = MessageReader::get_param(&mut state, &messages);
        reader.clear();
        assert!(reader.is_empty());
        assert!(collect(&mut reader).is_empty());
    }
    assert_eq!(state.next_unread_id(), 2);
    let id = messages.send(Ping(3));
    assert_eq!(id.id, 2);
    let mut reader = MessageReader::get_param(&mut state, &messages);
    assert_eq!(collect(&mut reader), vec![&Ping(3)]);
}

#[test]
fn read_with_id_gives_ids_in_order() {
    let mut messages: Messages<Ping> = Messages::new();
    messages.send(Ping(10));
    let mut state = MessageReader::init_state(&messages);
    messages.send(Ping(11));
    messages.rotate();
    messages.send(Ping(12));
    let mut reader = MessageReader::get_param(&mut state, &messages);
    let mut iter = reader.read_with_id();
    assert_eq!(iter.missed_messages(), 0);
    assert_eq!(iter.next(), Some((&Ping(11), MessageId { id: 1 })));
    assert_eq!(iter.next(), Some((&Ping(12), MessageId { id: 2 })));
    assert_eq!(iter.next(), None);
    assert_eq!(iter.next(), None);
}

#[test]
fn without_id_keeps_the_rest() {
    let mut messages: Messages<Ping> = Messages::new();
    let mut state = MessageReader::init_state(&messages);
    messages.send(Ping(1));
    messages.send(Ping(2));
    messages.send(Ping(3));
    let mut with_id = state.read_with_id(&messages);
    assert_eq!(with_id.next().map(|(m, id)| (*m, id.id)), Some((Ping(1), 0)));
    let mut rest = with_id.without_id();
    assert_eq!(rest.len(), 2);
    assert_eq!(rest.next(), Some(&Ping(2)));
    assert_eq!(rest.next(), Some(&Ping(3)));
    assert_eq!(rest.next(), None);
}

#[test]
fn par_read_batches_hold_each_message_once() {
    let mut messages: Messages<Ping> = Messages::new();
    let mut state = MessageReader::init_state(&messages);
    for id in 0..5 {
        messages.send(Ping(id));
    }
    messages.rotate();
    for id in 5..12 {
        messages.send(Ping(id));
    }
    let mut reader = MessageReader::get_param(&mut state, &messages);
    let par = reader.par_read();
    assert_eq!(par.len(), 12);
    assert!(!par.is_empty());
    assert_eq!(par.missed_messages(), 0);
    let batches = par.batches(3);
    let sizes: Vec<usize> = batches.iter().map(|batch| batch.len()).collect();
    assert_eq!(sizes, vec![3, 2, 3, 3, 1]);
    let ids: Vec<u64> = batches
        .iter()
        .flat_map(|batch| batch.iter().map(|instance| instance.message_id.id))
        .collect();
    assert_eq!(ids, (0..12).collect::<Vec<u64>>());
    for batch in &batches {
        for instance in batch.iter() {
            assert_eq!(instance.message, Ping(instance.message_id.id));
        }
    }
    assert_eq!(state.next_unread_id(), 12);
    assert!(state.is_empty(&messages));
}

#[test]
fn par_read_marks_read_before_batches_are_made() {
    let mut messages: Messages<Ping> = Messages::new();
    let mut state = MessageReader::init_state(&messages);
    messages.send(Ping(0));
    messages.send(Ping(1));
    {
        let mut reader = MessageReader::get_param(&mut state, &messages);
        let _unused = reader.par_read();
    }
    assert_eq!(state.next_unread_id(), 2);
    let again = state.par_read(&messages);
    assert!(again.is_empty());
    assert!(again.batches(4).is_empty());
}

#[test]
fn par_read_one_batch_and_sequential() {
    let mut messages: Messages<Ping> = Messages::new();
    let mut state = MessageReader::init_state(&messages);
    messages.send(Ping(0));
    messages.send(Ping(1));
    messages.send(Ping(2));
    let par = state.par_read(&messages);
    let batches = par.batches(usize::MAX);
    assert_eq!(batches.len(), 1);
    assert_eq!(batches[0].len(), 3);
    let mut iter = par.sequential();
    assert_eq!(iter.len(), 3);
    assert_eq!(iter.next().map(|(m, id)| (*m, id.id)), Some((Ping(0), 0)));
}

#[test]
fn gate_tells_unregistered_from_empty() {
    let messages: Messages<Ping> = Messages::new();
    let state = MessageReader::init_state(&messages);

    let unregistered = PopulatedMessageReader::validate_param(&state, None).unwrap_err();
    assert!(!unregistered.skipped);
    assert_eq!(unregistered.message, "Message not initialized");

    let empty = PopulatedMessageReader::validate_param(&state, Some(&messages)).unwrap_err();
    assert!(empty.skipped);
    assert_eq!(empty.message, "message queue is empty");

    let plain = MessageReader::<Ping>::validate_param(None).unwrap_err();
    assert!(!plain.skipped);
    assert_eq!(plain.message, "Message not initialized");
    assert!(MessageReader::validate_param(Some(&messages)).is_ok());
}

#[test]
fn gate_does_not_consume() {
    let mut messages: Messages<Ping> = Messages::new();
    let mut state = PopulatedMessageReader::init_state(&messages);
    messages.send(Ping(4));
    for _ in 0..3 {
        assert!(PopulatedMessageReader::validate_param(&state, Some(&messages)).is_ok());
        assert_eq!(state.next_unread_id(), 0);
    }
    let mut gated = PopulatedMessageReader::get_param(&mut state, &messages);
    assert_eq!(gated.len(), 1);
    assert_eq!(collect(&mut gated), vec![&Ping(4)]);
    assert!(PopulatedMessageReader::validate_param(&state, Some(&messages)).is_err());
}

#[test]
fn writer_sends_into_the_current_generation() {
    let mut messages: Messages<Ping> = Messages::new();
    let mut state = MessageReader::init_state(&messages);
    {
        let mut writer = MessageWriter::get_param(&mut messages);
        assert_eq!(writer.send(Ping(0)).id, 0);
        assert_eq!(writer.send(Ping(1)).id, 1);
    }
    assert_eq!(messages.len(), 2);
    assert!(!messages.is_empty());
    assert_eq!(messages.total_sent_count(), 2);
    assert_eq!(messages.oldest_message_count(), 0);
    messages.rotate();
    assert_eq!(messages.len(), 2);
    messages.rotate();
    assert_eq!(messages.len(), 0);
    assert!(messages.is_empty());
    assert_eq!(messages.oldest_message_count(), 2);
    assert!(collect_with_id(&mut state, &messages).is_empty());
}

#[test]
fn clear_all_drops_both_generations_and_keeps_counting() {
    let mut messages: Messages<Ping> = Messages::new();
    let mut state = MessageReader::init_state(&messages);
    messages.send(Ping(0));
    messages.rotate();
    messages.send(Ping(1));
    messages.clear_all();
    assert!(messages.is_empty());
    assert_eq!(messages.total_sent_count(), 2);
    assert_eq!(messages.oldest_message_count(), 2);
    assert_eq!(state.len(&messages), 0);
    assert_eq!(state.missed_messages(&messages), 2);
    assert_eq!(messages.send(Ping(2)).id, 2);
    assert_eq!(collect_with_id(&mut state, &messages), vec![(2, Ping(2))]);
}

#[test]
fn readers_do_not_disturb_each_other() {
    let mut messages: Messages<Ping> = Messages::new();
    let mut first = MessageReader::init_state(&messages);
    let mut second = MessageReader::init_state(&messages);
    messages.send(Ping(0));
    messages.send(Ping(1));
    assert_eq!(collect_with_id(&mut first, &messages).len(), 2);
    assert_eq!(second.len(&messages), 2);
    messages.send(Ping(2));
    assert_eq!(collect_with_id(&mut first, &messages), vec![(2, Ping(2))]);
    assert_eq!(
        collect_with_id(&mut second, &messages),
        vec![(0, Ping(0)), (1, Ping(1)), (2, Ping(2))]
    );
}

#[test]
fn batch_size_follows_the_strategy() {
    let even = BatchingStrategy::new();
    assert_eq!(even.calc_batch_size(100, 4), 25);
    assert_eq!(even.calc_batch_size(101, 4), 26);
    assert_eq!(even.calc_batch_size(0, 4), 1);
    assert_eq!(even.calc_batch_size(3, 8), 1);
    assert_eq!(even.calc_batch_size(10, 0), 10);
    assert_eq!(even.calc_batch_size(usize::MAX, usize::MAX), 1);

    let fixed = BatchingStrategy::fixed(7);
    assert_eq!(fixed.calc_batch_size(100, 4), 7);
    assert_eq!(fixed.calc_batch_size(1, 1), 7);
    assert_eq!(BatchingStrategy::fixed(0).calc_batch_size(5, 1), 1);

    let bounded = BatchingStrategy {
        min_batch_size: 4,
        max_batch_size: 16,
        batches_per_thread: 2,
    };
    assert_eq!(bounded.calc_batch_size(100, 2), 16);
    assert_eq!(bounded.calc_batch_size(40, 2), 10);
    assert_eq!(bounded.calc_batch_size(8, 2), 4);
    let crossed = BatchingStrategy {
        min_batch_size: 9,
        max_batch_size: 3,
        batches_per_thread: usize::MAX,
    };
    assert_eq!(crossed.calc_batch_size(100, 2), 3);
}

#[test]
fn queue_tells_when_it_is_full() {
    let mut messages: Messages<Ping> = Messages::default();
    assert!(messages.can_send());
    messages.send(Ping(0));
    assert!(messages.can_send());
}

#[test]
fn cursor_ahead_of_the_queue_reads_nothing() {
    let mut busy: Messages<Ping> = Messages::new();
    for id in 0..4 {
        busy.send(Ping(id));
    }
    let mut state = busy.get_cursor_current();
    assert_eq!(state.next_unread_id(), 4);

    let mut quiet: Messages<Ping> = Messages::new();
    quiet.send(Ping(9));
    assert_eq!(state.len(&quiet), 0);
    assert!(state.is_empty(&quiet));
    assert_eq!(state.missed_messages(&quiet), 0);
    assert!(collect_with_id(&mut state, &quiet).is_empty());
    assert_eq!(state.next_unread_id(), 1);
}

#[test]
fn reader_one_rotation_behind_loses_nothing() {
    let mut messages: Messages<Ping> = Messages::new();
    let mut state = MessageReader::init_state(&messages);
    messages.send(Ping(0));
    messages.send(Ping(1));
    messages.rotate();
    messages.send(Ping(2));
    assert_eq!(state.missed_messages(&messages), 0);
    assert_eq!(state.len(&messages), 3);
    messages.rotate();
    assert_eq!(state.missed_messages(&messages), 2);
    assert_eq!(state.len(&messages), 1);
    let mut iter = state.read(&messages);
    assert_eq!(iter.missed_messages(), 2);
    assert_eq!(iter.next(), Some(&Ping(2)));
    assert_eq!(iter.next(), None);
}
