use foxglove_ws::{
    decode_message_data, encode_message_data, Channel, ClientMessage, ClientSubscriptionMessage,
    Delivery, FoxgloveWebSocket, IncomingFrame, OutboundFrame, ProtocolError, SchemaDescriptor,
    ServerMessage,
};

fn channel(server: &mut FoxgloveWebSocket, topic: &str, latching: bool) -> Channel {
    let (ch, _) = server
        .create_publisher(
            topic,
            "ros1",
            "std_msgs/String",
            SchemaDescriptor::from_text("string data"),
            Some("ros1msg"),
            latching,
        )
        .unwrap();
    ch
}

fn subscribe(server: &mut FoxgloveWebSocket, client: u128, id: u32, channel_id: usize) -> Vec<OutboundFrame> {
    let msg = IncomingFrame::Text(ClientMessage::Subscribe {
        subscriptions: vec![ClientSubscriptionMessage { id, channel_id }],
    });
    server.handle_client_msg(client, &msg).unwrap()
}

fn data_of(d: &Delivery) -> (u128, (u32, u64, Vec<u8>)) {
    match &d.frame {
        OutboundFrame::Data(b) => (d.client_id, decode_message_data(b).unwrap()),
        other => panic!("expected a data frame, got {:?}", other),
    }
}

fn advertised_ids(server: &FoxgloveWebSocket) -> Vec<usize> {
    match &server.greeting("s")[1] {
        ServerMessage::Advertise { channels } => channels.iter().map(|c| c.id).collect(),
        other => panic!("expected advertise, got {:?}", other),
    }
}

#[test]
fn channel_ids_strictly_increase_and_are_not_reused() {
    let mut server = FoxgloveWebSocket::new("test");
    let a = channel(&mut server, "/a", false);
    let b = channel(&mut server, "/b", false);
    let c = channel(&mut server, "/a", true);
    assert_eq!((a.id(), b.id(), c.id()), (0, 1, 2));
    b.unadvertise(&mut server);
    let d = channel(&mut server, "/d", false);
    assert_eq!(d.id(), 3);
    assert_eq!(advertised_ids(&server), vec![0, 2, 3]);
    assert_eq!(c.topic(), "/a");
    assert!(c.is_latching());
}

#[test]
fn create_advertises_to_connected_clients() {
    let mut server = FoxgloveWebSocket::new("test");
    server.add_client(1);
    server.add_client(2);
    let (ch, ds) = server
        .create_publisher("/t", "json", "S", SchemaDescriptor::from_text("{}"), None, false)
        .unwrap();
    assert_eq!(ds.len(), 2);
    assert_eq!(ds[0].client_id, 1);
    assert_eq!(ds[1].client_id, 2);
    for d in &ds {
        match &d.frame {
            OutboundFrame::Control(ServerMessage::Advertise { channels }) => {
                assert_eq!(channels.len(), 1);
                assert_eq!(channels[0].id, ch.id());
                assert_eq!(channels[0].topic, "/t");
                assert_eq!(channels[0].encoding, "json");
                assert_eq!(channels[0].schema_name, "S");
                assert_eq!(channels[0].schema, "{}");
                assert_eq!(channels[0].schema_encoding, None);
            }
            other => panic!("unexpected {:?}", other),
        }
    }
}

#[test]
fn publish_keeps_schema_encoding() {
    let mut server = FoxgloveWebSocket::new("test");
    let (ch, ds) = server
        .publish(
            "/data".to_string(),
            "ros1".to_string(),
            "std_msgs/String".to_string(),
            "string data".to_string(),
            "ros1msg".to_string(),
            false,
        )
        .unwrap();
    assert!(ds.is_empty());
    match &server.greeting("s")[1] {
        ServerMessage::Advertise { channels } => {
            assert_eq!(channels[0].id, ch.id());
            assert_eq!(channels[0].schema_encoding, Some("ros1msg".to_string()));
        }
        other => panic!("unexpected {:?}", other),
    }
}

#[test]
fn latched_message_is_replayed_first_on_subscribe() {
    let mut server = FoxgloveWebSocket::new("test");
    let ch = channel(&mut server, "/l", true);
    assert!(ch.send(&mut server, 5, &[9]).is_empty());
    server.add_client(7);
    let reply = subscribe(&mut server, 7, 42, ch.id());
    assert_eq!(reply, vec![OutboundFrame::Data(encode_message_data(42, 5, &[9]))]);
    let ds = ch.send(&mut server, 6, &[8]);
    assert_eq!(ds.len(), 1);
    assert_eq!(data_of(&ds[0]), (7, (42, 6, vec![8])));
}

#[test]
fn non_latching_channel_replays_nothing() {
    let mut server = FoxgloveWebSocket::new("test");
    let ch = channel(&mut server, "/n", false);
    assert!(ch.send(&mut server, 1, &[1]).is_empty());
    server.add_client(7);
    assert!(subscribe(&mut server, 7, 3, ch.id()).is_empty());
    let ds = ch.send(&mut server, 2, &[2]);
    assert_eq!(ds.len(), 1);
    assert_eq!(data_of(&ds[0]), (7, (3, 2, vec![2])));
}

#[test]
fn unsubscribe_removes_exactly_the_named_ids() {
    let mut server = FoxgloveWebSocket::new("test");
    let a = channel(&mut server, "/a", false);
    let b = channel(&mut server, "/b", false);
    server.add_client(1);
    subscribe(&mut server, 1, 10, a.id());
    subscribe(&mut server, 1, 20, b.id());
    let msg = IncomingFrame::Text(ClientMessage::Unsubscribe { subscription_ids: vec![10] });
    assert_eq!(server.handle_client_msg(1, &msg), Ok(vec![]));
    assert!(a.send(&mut server, 1, &[1]).is_empty());
    let ds = b.send(&mut server, 1, &[1]);
    assert_eq!(ds.len(), 1);
    assert_eq!(data_of(&ds[0]), (1, (20, 1, vec![1])));
}

#[test]
fn unadvertise_tells_each_subscriber_once() {
    let mut server = FoxgloveWebSocket::new("test");
    let ch = channel(&mut server, "/u", false);
    let other = channel(&mut server, "/o", false);
    server.add_client(1);
    server.add_client(2);
    server.add_client(3);
    subscribe(&mut server, 1, 11, ch.id());
    subscribe(&mut server, 3, 33, ch.id());
    subscribe(&mut server, 2, 22, other.id());
    let id = ch.id();
    let ds = ch.unadvertise(&mut server);
    assert_eq!(ds.len(), 2);
    assert_eq!(ds[0].client_id, 1);
    assert_eq!(ds[1].client_id, 3);
    for d in &ds {
        assert_eq!(d.frame, OutboundFrame::Control(ServerMessage::Unadvertise { channel_ids: vec![id] }));
    }
    assert_eq!(advertised_ids(&server), vec![other.id()]);
}

#[test]
fn send_without_subscribers_still_latches() {
    let mut server = FoxgloveWebSocket::new("test");
    let ch = channel(&mut server, "/z", true);
    assert!(ch.send(&mut server, 77, &[4, 5]).is_empty());
    server.add_client(9);
    let reply = subscribe(&mut server, 9, 1, ch.id());
    assert_eq!(reply, vec![OutboundFrame::Data(encode_message_data(1, 77, &[4, 5]))]);
}

#[test]
fn full_queue_of_one_client_does_not_block_another() {
    let mut server = FoxgloveWebSocket::new("test");
    let ch = channel(&mut server, "/q", false);
    server.add_client(1);
    server.add_client(2);
    subscribe(&mut server, 1, 100, ch.id());
    subscribe(&mut server, 2, 200, ch.id());
    let (tx_a, mut rx_a) = tokio::sync::mpsc::channel::<Vec<u8>>(1);
    let (tx_b, mut rx_b) = tokio::sync::mpsc::channel::<Vec<u8>>(1);
    tx_a.try_send(vec![0]).unwrap();
    let ds = ch.send(&mut server, 3, &[1, 2]);
    assert_eq!(ds.len(), 2);
    let mut failed = Vec::new();
    for d in ds {
        let tx = if d.client_id == 1 { &tx_a } else { &tx_b };
        if let OutboundFrame::Data(b) = d.frame {
            if tx.try_send(b).is_err() {
                failed.push(d.client_id);
            }
        }
    }
    assert_eq!(failed, vec![1]);
    assert_eq!(rx_b.try_recv().unwrap(), encode_message_data(200, 3, &[1, 2]));
    assert_eq!(rx_a.try_recv().unwrap(), vec![0]);
}

#[test]
fn two_clients_receive_the_same_publish() {
    let mut server = FoxgloveWebSocket::new("test");
    let ch = channel(&mut server, "/data", false);
    let g1 = server.greeting("one");
    server.add_client(1);
    let g2 = server.greeting("two");
    server.add_client(2);
    assert_eq!(g1[1], g2[1]);
    match &g1[1] {
        ServerMessage::Advertise { channels } => {
            assert_eq!(channels.len(), 1);
            assert_eq!(channels[0].topic, "/data");
        }
        other => panic!("unexpected {:?}", other),
    }
    subscribe(&mut server, 1, 5, ch.id());
    subscribe(&mut server, 2, 6, ch.id());
    let ds = ch.send(&mut server, 100, &[1, 2, 3]);
    assert_eq!(ds.len(), 2);
    assert_eq!(data_of(&ds[0]), (1, (5, 100, vec![1, 2, 3])));
    assert_eq!(data_of(&ds[1]), (2, (6, 100, vec![1, 2, 3])));
}

#[test]
fn late_client_gets_latched_message() {
    let mut server = FoxgloveWebSocket::new("test");
    let ch = channel(&mut server, "/data_latching", true);
    assert!(ch.send(&mut server, 100, &[1, 2, 3]).is_empty());
    server.add_client(1);
    assert_eq!(advertised_ids(&server), vec![ch.id()]);
    let reply = subscribe(&mut server, 1, 8, ch.id());
    assert_eq!(reply.len(), 1);
    match &reply[0] {
        OutboundFrame::Data(b) => assert_eq!(decode_message_data(b), Some((8, 100, vec![1, 2, 3]))),
        other => panic!("unexpected {:?}", other),
    }
}

#[test]
fn greeting_lists_info_channels_and_parameters() {
    let mut server = FoxgloveWebSocket::new("bridge");
    server.set_parameter("a", "1");
    server.set_parameter("b", "2");
    server.set_parameter("a", "3");
    let g = server.greeting("abc");
    assert_eq!(g.len(), 3);
    assert_eq!(
        g[0],
        ServerMessage::ServerInfo {
            name: "bridge".to_string(),
            capabilities: vec!["parameters".to_string()],
            supported_encodings: vec![],
            metadata: vec![],
            session_id: "abc".to_string(),
        }
    );
    assert_eq!(g[1], ServerMessage::Advertise { channels: vec![] });
    match &g[2] {
        ServerMessage::ParameterValues { parameters, id } => {
            assert_eq!(*id, None);
            let pairs: Vec<(String, String)> =
                parameters.iter().map(|p| (p.name.clone(), p.value.clone())).collect();
            assert_eq!(pairs, vec![("b".to_string(), "2".to_string()), ("a".to_string(), "3".to_string())]);
        }
        other => panic!("unexpected {:?}", other),
    }
}

#[test]
fn set_parameters_message_is_applied() {
    let mut server = FoxgloveWebSocket::new("test");
    server.set_parameter("keep", "k");
    let msg = IncomingFrame::Text(ClientMessage::SetParameters {
        parameters: vec![("x".to_string(), "1".to_string()), ("x".to_string(), "2".to_string())],
        id: "req".to_string(),
    });
    assert_eq!(server.handle_client_msg(5, &msg), Ok(vec![]));
    assert_eq!(server.parameter("x"), Some("2".to_string()));
    assert_eq!(server.parameter("keep"), Some("k".to_string()));
    assert_eq!(server.parameter("nope"), None);
    let get = IncomingFrame::Text(ClientMessage::GetParameters {
        parameter_names: vec!["x".to_string()],
        id: "g".to_string(),
    });
    assert_eq!(server.handle_client_msg(5, &get), Ok(vec![]));
}

#[test]
fn frame_kinds_and_vanished_client() {
    let mut server = FoxgloveWebSocket::new("test");
    let ch = channel(&mut server, "/e", false);
    assert_eq!(server.handle_client_msg(1, &IncomingFrame::Binary(vec![1])), Err(ProtocolError::BinaryUnsupported));
    assert_eq!(server.handle_client_msg(1, &IncomingFrame::Other), Err(ProtocolError::UnexpectedFrame));
    assert_eq!(server.handle_client_msg(1, &IncomingFrame::Close), Ok(vec![]));
    let sub = IncomingFrame::Text(ClientMessage::Subscribe {
        subscriptions: vec![ClientSubscriptionMessage { id: 1, channel_id: ch.id() }],
    });
    assert_eq!(server.handle_client_msg(1, &sub), Ok(vec![]));
    let unsub = IncomingFrame::Text(ClientMessage::Unsubscribe { subscription_ids: vec![1] });
    assert_eq!(server.handle_client_msg(1, &unsub), Ok(vec![]));
    server.add_client(2);
    assert!(ch.send(&mut server, 0, &[1]).is_empty());
}

#[test]
fn subscribe_to_unknown_channel_is_skipped() {
    let mut server = FoxgloveWebSocket::new("test");
    let ch = channel(&mut server, "/k", true);
    ch.send(&mut server, 1, &[1]);
    server.add_client(1);
    let msg = IncomingFrame::Text(ClientMessage::Subscribe {
        subscriptions: vec![
            ClientSubscriptionMessage { id: 1, channel_id: 99 },
            ClientSubscriptionMessage { id: 2, channel_id: ch.id() },
        ],
    });
    let reply = server.handle_client_msg(1, &msg).unwrap();
    assert_eq!(reply, vec![OutboundFrame::Data(encode_message_data(2, 1, &[1]))]);
}

#[test]
fn resubscribe_overwrites_subscription_id() {
    let mut server = FoxgloveWebSocket::new("test");
    let ch = channel(&mut server, "/r", false);
    server.add_client(1);
    subscribe(&mut server, 1, 1, ch.id());
    subscribe(&mut server, 1, 2, ch.id());
    let ds = ch.send(&mut server, 0, &[]);
    assert_eq!(ds.len(), 1);
    assert_eq!(data_of(&ds[0]), (1, (2, 0, vec![])));
}

#[test]
fn removed_client_gets_nothing() {
    let mut server = FoxgloveWebSocket::new("test");
    let ch = channel(&mut server, "/x", false);
    server.add_client(1);
    server.add_client(2);
    subscribe(&mut server, 1, 1, ch.id());
    subscribe(&mut server, 2, 2, ch.id());
    server.remove_client(1);
    server.remove_client(1);
    let ds = ch.send(&mut server, 0, &[7]);
    assert_eq!(ds.len(), 1);
    assert_eq!(data_of(&ds[0]), (2, (2, 0, vec![7])));
}

#[test]
fn reconnect_with_same_id_clears_subscriptions() {
    let mut server = FoxgloveWebSocket::new("test");
    let ch = channel(&mut server, "/y", false);
    server.add_client(1);
    subscribe(&mut server, 1, 1, ch.id());
    server.add_client(1);
    assert!(ch.send(&mut server, 0, &[7]).is_empty());
}

#[test]
fn schema_conversions() {
    assert_eq!(SchemaDescriptor::from("abc").0, "abc");
    assert_eq!(SchemaDescriptor::from(vec![0u8, 1, 2]).0, "AAEC");
    let bytes: &[u8] = &[0xff];
    assert_eq!(SchemaDescriptor::from(bytes).0, "/w");
}
