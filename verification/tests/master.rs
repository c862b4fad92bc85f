use s3tunnel::connection::{Registry, Routing, SocketRead};
use s3tunnel::master::{after_read, farewell, passed_over, relay, AfterRead, Mgr, Stray};
use s3tunnel::tunnel::Message;
use std::sync::mpsc::channel;

#[test]
fn message_names_its_connection() {
    assert_eq!(Message::Connect(1, "a:1".to_string()).get_id(), 1);
    assert_eq!(Message::Disconnect(2).get_id(), 2);
    assert_eq!(Message::Error(3, "refused".to_string()).get_id(), 3);
    assert_eq!(Message::Data(4, vec![0]).get_id(), 4);
}

#[test]
fn messages_are_dispatched_by_connection() {
    let mut registry: Registry<Message> = Registry::new();
    let (sender, receiver) = channel();
    registry.manage(Mgr::Create(7, sender));
    assert_eq!(registry.dispatch(Message::Data(8, vec![1])), Routing::Unknown);
    assert!(receiver.try_recv().is_err());
    assert_eq!(registry.dispatch(Message::Data(7, vec![2])), Routing::Delivered);
    assert_eq!(receiver.try_recv(), Ok(Message::Data(7, vec![2])));
    registry.manage(Mgr::Closed(7));
    assert_eq!(registry.dispatch(Message::Disconnect(7)), Routing::Unknown);
    assert_eq!(registry.len(), 0);
}

#[test]
fn relay_writes_own_data_until_own_disconnect() {
    let relayed = relay(
        5,
        vec![
            Message::Data(5, vec![1]),
            Message::Data(6, vec![2]),
            Message::Disconnect(6),
            Message::Error(5, "e".to_string()),
            Message::Data(5, vec![3]),
            Message::Disconnect(5),
            Message::Data(5, vec![4]),
        ],
    );
    assert_eq!(relayed.chunks, vec![vec![1], vec![3]]);
    assert!(relayed.stop);
}

#[test]
fn relay_goes_on_without_own_disconnect() {
    let relayed = relay(5, vec![Message::Data(5, vec![1]), Message::Disconnect(4)]);
    assert_eq!(relayed.chunks, vec![vec![1]]);
    assert!(!relayed.stop);
    let relayed = relay(5, vec![]);
    assert!(relayed.chunks.is_empty());
    assert!(!relayed.stop);
    let relayed = relay(5, vec![Message::Disconnect(5)]);
    assert!(relayed.chunks.is_empty());
    assert!(relayed.stop);
}

#[test]
fn after_read_decides() {
    assert_eq!(
        after_read(2, SocketRead::Read(vec![9])),
        AfterRead::Forward(Message::Data(2, vec![9]))
    );
    assert_eq!(after_read(2, SocketRead::Read(vec![])), AfterRead::Stop);
    assert_eq!(after_read(2, SocketRead::WouldBlock), AfterRead::Continue);
    assert_eq!(after_read(2, SocketRead::Failed), AfterRead::Stop);
}

#[test]
fn addressee_is_the_channel_of_the_named_connection() {
    let mut registry: Registry<Message> = Registry::new();
    let (sender, receiver) = channel();
    registry.manage(Mgr::Create(7, sender));
    assert!(registry.addressee(&Message::Data(8, vec![])).is_none());
    let found = registry.addressee(&Message::Disconnect(7)).unwrap();
    found.send(Message::Disconnect(7)).unwrap();
    assert_eq!(receiver.try_recv(), Ok(Message::Disconnect(7)));
}

#[test]
fn what_relay_passes_over_is_listed() {
    let batch = vec![
        Message::Data(5, vec![1]),
        Message::Data(6, vec![2]),
        Message::Disconnect(4),
        Message::Error(9, "e".to_string()),
        Message::Connect(9, "a:1".to_string()),
        Message::Disconnect(5),
        Message::Data(8, vec![4]),
    ];
    assert_eq!(passed_over(5, &batch), vec![Stray::Data(6), Stray::Disconnect(4)]);
    assert_eq!(passed_over(8, &batch).len(), 4);
    assert!(passed_over(5, &vec![]).is_empty());
    assert!(passed_over(5, &vec![Message::Data(5, vec![1])]).is_empty());
}

#[test]
fn farewell_names_the_connection() {
    match farewell(12) {
        (Message::Disconnect(12), Mgr::Closed(12)) => {}
        other => panic!("unexpected farewell: {:?}", other),
    }
}
