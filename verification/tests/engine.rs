use s3tunnel::engine::{Engine, SYNC_CONNECTION};
use s3tunnel::messages::{Message, Payload};
use s3tunnel::tunnel::{Publish, ReadCommand, ReaderData, WriterData};

fn data(id: usize, connection: u64, bytes: &[u8]) -> Message {
    Message { id, payload: Payload::Data(connection, bytes.to_vec()) }
}

fn ids(engine: &Engine) -> Vec<usize> {
    engine.all_msgs().iter().map(|m| m.id).collect()
}

fn engine_with_five_messages() -> Engine {
    let mut engine = Engine::new(true);
    let batch = (0..5u8).map(|i| WriterData::Data(1, vec![i])).collect();
    engine.poll(vec![], batch);
    assert_eq!(ids(&engine), vec![1, 2, 3, 4, 5]);
    engine
}

#[test]
fn new_engine_is_empty() {
    let engine = Engine::new(false);
    assert!(!engine.is_server());
    assert_eq!(engine.reader_sync(), 0);
    assert_eq!(engine.writer_sync(), 0);
    assert_eq!(engine.next_id(), 1);
    assert_eq!(engine.remove_sync(), None);
    assert!(!engine.writer_created());
    assert!(engine.all_msgs().is_empty());
    assert!(engine.has_ids_for(10));
    assert!(!engine.has_ids_for(usize::MAX));
}

#[test]
fn data_before_any_connect_gets_id_one() {
    let mut engine = Engine::new(true);
    let step = engine.poll(vec![], vec![WriterData::Data(1, b"hello".to_vec())]);
    assert_eq!(step.publish, Publish::Write);
    assert!(step.deliveries.is_empty());
    assert!(step.connections.is_empty());
    assert_eq!(engine.all_msgs(), &vec![data(1, 1, b"hello")]);
    assert!(engine.writer_created());
}

#[test]
fn duplicate_id_is_delivered_once() {
    let mut engine = Engine::new(false);
    let batch = vec![data(1, 5, b"x"), data(1, 5, b"x")];
    let inbound = engine.read_tunnel(vec![ReadCommand::Read(batch)]);
    assert_eq!(inbound.deliveries, vec![(5, ReaderData::Data(b"x".to_vec()))]);
    assert_eq!(engine.reader_sync(), 1);
}

#[test]
fn sync_prunes_what_was_acknowledged() {
    let mut engine = engine_with_five_messages();
    let sync = Message { id: 1, payload: Payload::Sync(SYNC_CONNECTION, 3) };
    let step = engine.poll(vec![ReadCommand::Read(vec![sync])], vec![]);
    assert!(step.deliveries.is_empty());
    assert_eq!(engine.writer_sync(), 3);
    let kept: Vec<usize> = ids(&engine).into_iter().take(2).collect();
    assert_eq!(kept, vec![4, 5]);
    assert!(engine.all_msgs().iter().all(|m| m.id > 3));
}

#[test]
fn tidy_up_keeps_ids_four_and_five_only() {
    let mut engine = engine_with_five_messages();
    let sync = Message { id: 1, payload: Payload::Sync(SYNC_CONNECTION, 3) };
    engine.read_tunnel(vec![ReadCommand::Read(vec![sync])]);
    engine.tidy_up_msgs(0);
    assert_eq!(ids(&engine), vec![4, 5]);
    assert_eq!(engine.all_msgs()[0], data(4, 1, &[3]));
    assert_eq!(engine.all_msgs()[1], data(5, 1, &[4]));
}

#[test]
fn sync_of_the_last_id_clears_the_log() {
    let mut engine = engine_with_five_messages();
    let sync = Message { id: 1, payload: Payload::Sync(SYNC_CONNECTION, 5) };
    engine.read_tunnel(vec![ReadCommand::Read(vec![sync])]);
    engine.tidy_up_msgs(0);
    assert!(engine.all_msgs().is_empty());
    assert_eq!(engine.next_id(), 6);
}

#[test]
fn sync_beyond_the_last_id_clears_the_log() {
    let mut engine = engine_with_five_messages();
    let sync = Message { id: 1, payload: Payload::Sync(SYNC_CONNECTION, 9) };
    engine.read_tunnel(vec![ReadCommand::Read(vec![sync])]);
    engine.tidy_up_msgs(0);
    assert!(engine.all_msgs().is_empty());
}

#[test]
fn sync_that_does_not_advance_prunes_nothing() {
    let mut engine = engine_with_five_messages();
    let sync = Message { id: 1, payload: Payload::Sync(SYNC_CONNECTION, 3) };
    engine.read_tunnel(vec![ReadCommand::Read(vec![sync])]);
    engine.tidy_up_msgs(3);
    assert_eq!(ids(&engine), vec![1, 2, 3, 4, 5]);
    engine.tidy_up_msgs(4);
    assert_eq!(ids(&engine), vec![1, 2, 3, 4, 5]);
}

#[test]
fn replayed_batch_delivers_nothing_again() {
    let mut engine = Engine::new(false);
    let batch = vec![data(3, 5, b"c"), data(1, 5, b"a"), data(4, 6, b"d"), data(4, 6, b"d")];
    let first = engine.read_tunnel(vec![ReadCommand::Read(batch.clone())]);
    assert_eq!(
        first.deliveries,
        vec![(5, ReaderData::Data(b"c".to_vec())), (6, ReaderData::Data(b"d".to_vec()))]
    );
    assert_eq!(engine.reader_sync(), 4);
    let again = engine.read_tunnel(vec![ReadCommand::Read(batch.clone()), ReadCommand::Read(batch)]);
    assert!(again.deliveries.is_empty());
    assert!(again.connections.is_empty());
    assert_eq!(engine.reader_sync(), 4);
    assert_eq!(engine.writer_sync(), 0);
}

#[test]
fn replayed_poll_changes_nothing() {
    let mut engine = Engine::new(false);
    let batch = vec![data(1, 5, b"a"), data(2, 5, b"b")];
    let first = engine.poll(vec![ReadCommand::Read(batch.clone())], vec![]);
    assert_eq!(first.deliveries.len(), 2);
    assert_eq!(first.publish, Publish::Write);
    let log = engine.all_msgs().clone();
    let second = engine.poll(vec![ReadCommand::Read(batch)], vec![]);
    assert!(second.deliveries.is_empty());
    assert_eq!(second.publish, Publish::Nothing);
    assert_eq!(engine.all_msgs(), &log);
    assert_eq!(engine.reader_sync(), 2);
    assert_eq!(engine.next_id(), 2);
}

#[test]
fn missing_mailbox_is_nothing_new() {
    let mut engine = Engine::new(true);
    let step = engine.poll(vec![ReadCommand::NoFile, ReadCommand::NoFile], vec![]);
    assert!(step.deliveries.is_empty());
    assert_eq!(step.publish, Publish::Nothing);
    assert_eq!(engine.reader_sync(), 0);
    assert!(engine.all_msgs().is_empty());
}

#[test]
fn batches_are_read_in_order_of_arrival() {
    let mut engine = Engine::new(false);
    let inbound = engine.read_tunnel(vec![
        ReadCommand::Read(vec![data(1, 5, b"a")]),
        ReadCommand::NoFile,
        ReadCommand::Read(vec![data(1, 5, b"a"), data(2, 5, b"b")]),
    ]);
    assert_eq!(
        inbound.deliveries,
        vec![(5, ReaderData::Data(b"a".to_vec())), (5, ReaderData::Data(b"b".to_vec()))]
    );
    assert_eq!(engine.reader_sync(), 2);
}

#[test]
fn client_announces_connect_and_server_ignores_it() {
    let connect = || Message { id: 1, payload: Payload::Connect(7, "10.0.0.1".to_string(), 22) };
    let mut client = Engine::new(false);
    let inbound = client.read_tunnel(vec![ReadCommand::Read(vec![connect()])]);
    assert_eq!(inbound.connections, vec![(7, "10.0.0.1".to_string(), 22)]);
    assert!(inbound.deliveries.is_empty());
    let mut server = Engine::new(true);
    let inbound = server.read_tunnel(vec![ReadCommand::Read(vec![connect()])]);
    assert!(inbound.connections.is_empty());
    assert_eq!(server.reader_sync(), 1);
}

#[test]
fn disconnect_is_delivered_to_its_connection() {
    let mut engine = Engine::new(true);
    let message = Message { id: 1, payload: Payload::Disconnect(9) };
    let inbound = engine.read_tunnel(vec![ReadCommand::Read(vec![message])]);
    assert_eq!(inbound.deliveries, vec![(9, ReaderData::Disconnect)]);
}

#[test]
fn ids_are_increasing_and_gap_free() {
    let mut engine = Engine::new(true);
    engine.poll(vec![], vec![WriterData::Connect(1, "h".to_string(), 22), WriterData::Data(1, vec![1])]);
    engine.poll(vec![], vec![]);
    engine.poll(vec![], vec![WriterData::Data(1, vec![2]), WriterData::Disconnect(1)]);
    assert_eq!(ids(&engine), vec![1, 2, 3, 4]);
    assert_eq!(
        engine.all_msgs(),
        &vec![
            Message { id: 1, payload: Payload::Connect(1, "h".to_string(), 22) },
            data(2, 1, &[1]),
            data(3, 1, &[2]),
            Message { id: 4, payload: Payload::Disconnect(1) },
        ]
    );
    assert_eq!(engine.next_id(), 5);
}

#[test]
fn add_msgs_reports_change() {
    let mut engine = Engine::new(true);
    assert!(!engine.add_msgs(false, vec![]));
    assert!(engine.add_msgs(true, vec![]));
    assert!(engine.add_msgs(false, vec![WriterData::Disconnect(3)]));
    assert_eq!(engine.all_msgs(), &vec![Message { id: 1, payload: Payload::Disconnect(3) }]);
}

#[test]
fn acknowledgment_is_emitted_once_until_superseded() {
    let mut engine = Engine::new(false);
    let step = engine.poll(vec![ReadCommand::Read(vec![data(1, 5, b"a")])], vec![]);
    assert_eq!(step.publish, Publish::Write);
    assert_eq!(engine.all_msgs(), &vec![Message { id: 1, payload: Payload::Sync(1, 1) }]);
    assert_eq!(engine.remove_sync(), Some(1));
    // more arrives while the acknowledgment is outstanding: no second one
    let step = engine.poll(vec![ReadCommand::Read(vec![data(2, 5, b"b")])], vec![]);
    assert_eq!(step.publish, Publish::Nothing);
    assert_eq!(engine.all_msgs().len(), 1);
    assert_eq!(engine.remove_sync(), Some(1));
    // a local submission supersedes it
    engine.poll(vec![], vec![WriterData::Data(5, vec![0])]);
    assert_eq!(engine.remove_sync(), None);
    let step = engine.poll(vec![ReadCommand::Read(vec![data(3, 5, b"c")])], vec![]);
    assert_eq!(step.publish, Publish::Write);
    assert_eq!(engine.remove_sync(), Some(3));
    assert_eq!(
        engine.all_msgs(),
        &vec![
            Message { id: 1, payload: Payload::Sync(1, 1) },
            data(2, 5, &[0]),
            Message { id: 3, payload: Payload::Sync(1, 3) },
        ]
    );
}

#[test]
fn resync_msg_needs_progress_and_no_outstanding_sync() {
    let mut engine = Engine::new(false);
    assert!(!engine.resync_msg(0));
    engine.read_tunnel(vec![ReadCommand::Read(vec![data(4, 5, b"a")])]);
    assert!(!engine.resync_msg(4));
    assert!(engine.resync_msg(0));
    assert_eq!(engine.all_msgs(), &vec![Message { id: 1, payload: Payload::Sync(1, 4) }]);
    assert!(!engine.resync_msg(0));
    assert_eq!(engine.all_msgs().len(), 1);
}

#[test]
fn no_two_acknowledgments_are_neighbours() {
    let mut engine = Engine::new(false);
    let mut id = 0;
    for round in 0..20 {
        id += 1;
        let local = if round % 3 == 0 { vec![WriterData::Data(1, vec![round as u8])] } else { vec![] };
        engine.poll(vec![ReadCommand::Read(vec![data(id, 5, b"z")])], local);
        let log = engine.all_msgs();
        for pair in log.windows(2) {
            let both = matches!(pair[0].payload, Payload::Sync(..))
                && matches!(pair[1].payload, Payload::Sync(..));
            assert!(!both);
        }
        for pair in log.windows(2) {
            assert_eq!(pair[0].id + 1, pair[1].id);
        }
    }
}

#[test]
fn empty_log_deletes_the_mailbox_once() {
    let mut engine = Engine::new(true);
    engine.poll(vec![], vec![WriterData::Data(1, vec![1])]);
    assert!(engine.writer_created());
    let sync = Message { id: 1, payload: Payload::Sync(SYNC_CONNECTION, 1) };
    let step = engine.poll(vec![ReadCommand::Read(vec![sync])], vec![]);
    // the acknowledgment of the peer's message is appended, so the log is written
    assert_eq!(step.publish, Publish::Write);
    let sync = Message { id: 2, payload: Payload::Sync(SYNC_CONNECTION, 2) };
    let step = engine.poll(vec![ReadCommand::Read(vec![sync])], vec![]);
    assert!(engine.all_msgs().is_empty());
    assert_eq!(step.publish, Publish::Delete);
    assert!(!engine.writer_created());
    let step = engine.poll(vec![], vec![]);
    assert_eq!(step.publish, Publish::Nothing);
}

#[test]
fn publish_decides_from_log_and_mailbox() {
    let mut engine = Engine::new(true);
    assert_eq!(engine.publish(false), Publish::Nothing);
    assert_eq!(engine.publish(true), Publish::Write);
    assert!(engine.writer_created());
    // the log is empty and the mailbox is there
    assert_eq!(engine.publish(true), Publish::Delete);
    assert!(!engine.writer_created());
    engine.add_msgs(false, vec![WriterData::Disconnect(1)]);
    assert_eq!(engine.publish(false), Publish::Nothing);
    assert_eq!(engine.publish(true), Publish::Write);
    assert_eq!(engine.publish(false), Publish::Nothing);
}

#[test]
fn what_one_side_submits_the_other_delivers_in_order() {
    let mut sender = Engine::new(true);
    let mut receiver = Engine::new(false);
    let mut delivered: Vec<u8> = Vec::new();
    let mut submitted: Vec<u8> = Vec::new();
    let mut back: Vec<ReadCommand> = Vec::new();
    for round in 0..10u8 {
        let chunk = vec![round, round + 100];
        submitted.extend(&chunk);
        let local = vec![WriterData::Data(3, chunk), WriterData::Data(4, vec![255])];
        sender.poll(std::mem::take(&mut back), local);
        let snapshot = sender.all_msgs().clone();
        // the mailbox is read twice: the second reading is a replay
        let step = receiver.poll(
            vec![ReadCommand::Read(snapshot.clone()), ReadCommand::Read(snapshot)],
            vec![],
        );
        for (connection, data) in step.deliveries {
            if let (3, ReaderData::Data(bytes)) = (connection, data) {
                delivered.extend(bytes);
            }
        }
        assert_eq!(delivered, submitted);
        back = vec![ReadCommand::Read(receiver.all_msgs().clone())];
    }
    // the receiver acknowledged its first reading, and only that one
    assert_eq!(sender.writer_sync(), 2);
    assert_eq!(sender.all_msgs()[0].id, 3);
}

#[test]
fn failed_write_leaves_the_mailbox_absent() {
    let mut engine = Engine::new(true);
    engine.poll(vec![], vec![WriterData::Data(1, vec![1])]);
    assert!(engine.writer_created());
    engine.write_failed();
    assert!(!engine.writer_created());
    assert_eq!(engine.all_msgs().len(), 1);
    assert_eq!(engine.next_id(), 2);
    // nothing is there to delete once the log is empty
    let sync = Message { id: 1, payload: Payload::Sync(SYNC_CONNECTION, 1) };
    engine.read_tunnel(vec![ReadCommand::Read(vec![sync])]);
    engine.tidy_up_msgs(0);
    assert!(engine.all_msgs().is_empty());
    assert_eq!(engine.publish(false), Publish::Nothing);
}

#[test]
fn the_whole_log_is_what_is_written() {
    let mut engine = Engine::new(true);
    let step = engine.poll(vec![], vec![WriterData::Data(1, vec![1]), WriterData::Disconnect(1)]);
    assert_eq!(engine.to_write(step.publish), Some(engine.all_msgs()));
    assert_eq!(engine.to_write(step.publish).unwrap().len(), 2);
    assert_eq!(engine.to_write(Publish::Nothing), None);
    assert_eq!(engine.to_write(Publish::Delete), None);
}
