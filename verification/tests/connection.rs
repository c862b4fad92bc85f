use s3tunnel::connection::{
    hand_over, routing, ClientState, Connection, Phase, Registry, Routing, SocketRead,
};
use s3tunnel::tunnel::{ReaderData, WriterData};
use std::sync::mpsc::channel;

#[test]
fn delivery_for_unknown_connection_is_dropped() {
    let mut registry: Registry<ReaderData> = Registry::new();
    let (sender, receiver) = channel();
    registry.apply(ClientState::NewClient(7, sender));
    let outcome = registry.route(8, ReaderData::Data(b"lost".to_vec()));
    assert_eq!(outcome, Routing::Unknown);
    assert!(registry.contains(7));
    assert!(!registry.contains(8));
    assert_eq!(registry.len(), 1);
    assert!(receiver.try_recv().is_err());
    let outcome = registry.route(7, ReaderData::Data(b"kept".to_vec()));
    assert_eq!(outcome, Routing::Delivered);
    assert_eq!(receiver.try_recv(), Ok(ReaderData::Data(b"kept".to_vec())));
}

#[test]
fn registry_follows_its_events() {
    let mut registry: Registry<ReaderData> = Registry::new();
    assert_eq!(registry.len(), 0);
    let (first, _first_receiver) = channel();
    let (second, second_receiver) = channel();
    let (third, third_receiver) = channel();
    registry.apply_all(vec![
        ClientState::NewClient(1, first),
        ClientState::NewClient(2, second),
        ClientState::Disconnected(1),
        ClientState::Disconnected(9),
        ClientState::NewClient(2, third),
    ]);
    assert!(!registry.contains(1));
    assert!(registry.contains(2));
    assert_eq!(registry.len(), 1);
    // the later registration of the same id replaced the earlier one
    assert_eq!(registry.route(2, ReaderData::Disconnect), Routing::Delivered);
    assert_eq!(third_receiver.try_recv(), Ok(ReaderData::Disconnect));
    assert!(second_receiver.try_recv().is_err());
}

#[test]
fn deliveries_reach_each_connection_in_order() {
    let mut registry: Registry<ReaderData> = Registry::new();
    let (a, a_receiver) = channel();
    let (b, b_receiver) = channel();
    let outcomes = registry.manage(
        vec![ClientState::NewClient(1, a), ClientState::NewClient(2, b)],
        vec![
            (1, ReaderData::Data(vec![1])),
            (2, ReaderData::Data(vec![2])),
            (3, ReaderData::Data(vec![3])),
            (1, ReaderData::Data(vec![4])),
            (1, ReaderData::Disconnect),
        ],
    );
    assert_eq!(
        outcomes,
        vec![
            Routing::Delivered,
            Routing::Delivered,
            Routing::Unknown,
            Routing::Delivered,
            Routing::Delivered
        ]
    );
    let got: Vec<ReaderData> = a_receiver.try_iter().collect();
    assert_eq!(
        got,
        vec![ReaderData::Data(vec![1]), ReaderData::Data(vec![4]), ReaderData::Disconnect]
    );
    let got: Vec<ReaderData> = b_receiver.try_iter().collect();
    assert_eq!(got, vec![ReaderData::Data(vec![2])]);
}

#[test]
fn closed_channel_is_reported() {
    let mut registry: Registry<ReaderData> = Registry::new();
    let (sender, receiver) = channel();
    registry.insert(4, sender);
    drop(receiver);
    assert_eq!(registry.route(4, ReaderData::Disconnect), Routing::Closed);
    assert_eq!(registry.route_all(vec![(4, ReaderData::Disconnect)]), vec![Routing::Closed]);
    registry.remove(4);
    assert_eq!(registry.route(4, ReaderData::Disconnect), Routing::Unknown);
}

#[test]
fn routing_outcomes() {
    assert_eq!(routing(false, false), Routing::Unknown);
    assert_eq!(routing(false, true), Routing::Unknown);
    assert_eq!(routing(true, true), Routing::Delivered);
    assert_eq!(routing(true, false), Routing::Closed);
}

#[test]
fn disconnect_stops_the_connection_and_is_announced_once() {
    let mut connection = Connection::new(11);
    assert_eq!(connection.id(), 11);
    assert!(connection.is_running());
    let chunks = connection.receive(vec![ReaderData::Disconnect]);
    assert!(chunks.is_empty());
    assert!(!connection.is_running());
    assert_eq!(connection.phase(), Phase::Stopping);
    match connection.finish() {
        Some((WriterData::Disconnect(11), ClientState::Disconnected(11))) => {}
        other => panic!("unexpected farewell: {:?}", other),
    }
    assert_eq!(connection.phase(), Phase::Closed);
    assert!(connection.finish().is_none());
    assert!(connection.finish().is_none());
}

#[test]
fn connection_announces_itself() {
    let connection = Connection::new(5);
    let (sender, receiver) = channel();
    match connection.announce(sender) {
        ClientState::NewClient(5, handle) => {
            handle.send(ReaderData::Disconnect).unwrap();
            assert_eq!(receiver.try_recv(), Ok(ReaderData::Disconnect));
        }
        other => panic!("unexpected announcement: {:?}", other),
    }
}

#[test]
fn whole_batch_is_written_even_after_a_disconnect() {
    let mut connection = Connection::new(1);
    let chunks = connection.receive(vec![
        ReaderData::Data(vec![1, 2]),
        ReaderData::Disconnect,
        ReaderData::Data(vec![3]),
    ]);
    assert_eq!(chunks, vec![vec![1, 2], vec![3]]);
    assert_eq!(connection.phase(), Phase::Stopping);
    // nothing is taken once the loop has stopped
    assert!(connection.receive(vec![ReaderData::Data(vec![4])]).is_empty());
    assert_eq!(connection.socket_read(SocketRead::Read(vec![5])), None);
    assert_eq!(connection.phase(), Phase::Stopping);
}

#[test]
fn data_keeps_the_connection_running() {
    let mut connection = Connection::new(1);
    let chunks = connection.receive(vec![ReaderData::Data(vec![1]), ReaderData::Data(vec![])]);
    assert_eq!(chunks, vec![vec![1], vec![]]);
    assert!(connection.is_running());
    assert!(connection.receive(vec![]).is_empty());
    assert!(connection.is_running());
}

#[test]
fn socket_reads_are_forwarded_or_stop_the_connection() {
    let mut connection = Connection::new(3);
    assert_eq!(
        connection.socket_read(SocketRead::Read(b"abc".to_vec())),
        Some(WriterData::Data(3, b"abc".to_vec()))
    );
    assert!(connection.is_running());
    assert_eq!(connection.socket_read(SocketRead::WouldBlock), None);
    assert!(connection.is_running());
    assert_eq!(connection.socket_read(SocketRead::Read(vec![])), None);
    assert_eq!(connection.phase(), Phase::Stopping);

    let mut connection = Connection::new(3);
    assert_eq!(connection.socket_read(SocketRead::Failed), None);
    assert_eq!(connection.phase(), Phase::Stopping);
    assert!(connection.finish().is_some());
    assert_eq!(connection.socket_read(SocketRead::Failed), None);
    assert_eq!(connection.phase(), Phase::Closed);
}

#[test]
fn running_connection_can_be_finished() {
    let mut connection = Connection::new(2);
    assert!(matches!(
        connection.finish(),
        Some((WriterData::Disconnect(2), ClientState::Disconnected(2)))
    ));
    assert!(connection.finish().is_none());
}

#[test]
fn recipient_is_the_registered_channel() {
    let mut registry: Registry<ReaderData> = Registry::new();
    let (seven, seven_receiver) = channel();
    let (nine, nine_receiver) = channel();
    registry.insert(7, seven);
    registry.insert(9, nine);
    assert!(registry.recipient(8).is_none());
    registry.recipient(7).unwrap().send(ReaderData::Data(vec![7])).unwrap();
    registry.recipient(9).unwrap().send(ReaderData::Data(vec![9])).unwrap();
    assert_eq!(seven_receiver.try_recv(), Ok(ReaderData::Data(vec![7])));
    assert!(seven_receiver.try_recv().is_err());
    assert_eq!(nine_receiver.try_recv(), Ok(ReaderData::Data(vec![9])));
    registry.remove(7);
    assert!(registry.recipient(7).is_none());
}

#[test]
fn batch_is_addressed_whole_and_in_order() {
    let mut registry: Registry<ReaderData> = Registry::new();
    let (one, one_receiver) = channel();
    registry.insert(1, one);
    let addressed = registry.address(vec![
        (1, ReaderData::Data(vec![1])),
        (2, ReaderData::Data(vec![2])),
        (1, ReaderData::Disconnect),
    ]);
    assert_eq!(addressed.len(), 3);
    assert!(addressed[0].0.is_some());
    assert!(addressed[1].0.is_none());
    assert!(addressed[2].0.is_some());
    assert_eq!(addressed[0].1, ReaderData::Data(vec![1]));
    assert_eq!(addressed[1].1, ReaderData::Data(vec![2]));
    assert_eq!(addressed[2].1, ReaderData::Disconnect);
    addressed[2].0.unwrap().send(ReaderData::Data(vec![3])).unwrap();
    assert_eq!(one_receiver.try_recv(), Ok(ReaderData::Data(vec![3])));
}

#[test]
fn hand_over_sends_to_the_recipient_only() {
    let (sender, receiver) = channel();
    assert_eq!(hand_over(Some(&sender), ReaderData::Data(vec![1])), Routing::Delivered);
    assert_eq!(hand_over(None, ReaderData::Data(vec![2])), Routing::Unknown);
    assert_eq!(receiver.try_recv(), Ok(ReaderData::Data(vec![1])));
    assert!(receiver.try_recv().is_err());
    drop(receiver);
    assert_eq!(hand_over(Some(&sender), ReaderData::Disconnect), Routing::Closed);
}

#[test]
fn a_closed_channel_does_not_stop_the_others() {
    let mut registry: Registry<ReaderData> = Registry::new();
    let (dead, dead_receiver) = channel();
    let (live, live_receiver) = channel();
    drop(dead_receiver);
    let outcomes = registry.manage(
        vec![ClientState::NewClient(1, dead), ClientState::NewClient(2, live)],
        vec![(1, ReaderData::Data(vec![1])), (2, ReaderData::Data(vec![2]))],
    );
    assert_eq!(outcomes, vec![Routing::Closed, Routing::Delivered]);
    assert_eq!(live_receiver.try_recv(), Ok(ReaderData::Data(vec![2])));
}

#[test]
fn a_forgotten_connection_gets_nothing_and_a_new_one_takes_over() {
    let mut registry: Registry<ReaderData> = Registry::new();
    let (old, old_receiver) = channel();
    let (new, new_receiver) = channel();
    let outcomes = registry.manage(
        vec![ClientState::NewClient(3, old), ClientState::Disconnected(3)],
        vec![(3, ReaderData::Data(vec![1]))],
    );
    assert_eq!(outcomes, vec![Routing::Unknown]);
    let outcomes = registry.manage(
        vec![ClientState::NewClient(3, new)],
        vec![(3, ReaderData::Data(vec![2]))],
    );
    assert_eq!(outcomes, vec![Routing::Delivered]);
    assert!(old_receiver.try_recv().is_err());
    assert_eq!(new_receiver.try_recv(), Ok(ReaderData::Data(vec![2])));
}

#[test]
fn reads_are_forwarded_whole_and_in_order_until_the_socket_closes() {
    let mut connection = Connection::new(6);
    let reads = vec![
        SocketRead::Read(vec![1, 2]),
        SocketRead::WouldBlock,
        SocketRead::Read(vec![3]),
        SocketRead::WouldBlock,
        SocketRead::Read(vec![4, 5, 6]),
        SocketRead::Read(vec![]),
        SocketRead::Read(vec![7]),
    ];
    let mut forwarded = Vec::new();
    for read in reads {
        if let Some(data) = connection.socket_read(read) {
            forwarded.push(data);
        }
    }
    assert_eq!(
        forwarded,
        vec![
            WriterData::Data(6, vec![1, 2]),
            WriterData::Data(6, vec![3]),
            WriterData::Data(6, vec![4, 5, 6]),
        ]
    );
    assert!(matches!(connection.finish(), Some((WriterData::Disconnect(6), _))));
}
