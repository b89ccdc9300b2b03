use acceptor::connect::error::Error;
use acceptor::connect::extract::heart_beat::{heartbeat_step, last_read_elapsed, Beat, MUST_BE_LOGOUT_NANOS};
use acceptor::connect::extract::online_state::{state_event, state_step, StateAction, StateEvent};
use acceptor::connect::extract::sync_message::{sync_route, sync_send_result, SyncOutcome, SyncRoute};
use acceptor::im::client::{client_on_packet, message_payload, outgoing_packet, pick_recipient, random_recipient, ClientAction};
use acceptor::im::error::ImError;
use acceptor::im::packet::{Headers, Message, Packet, Payload};
use acceptor::im::server::{delivery_packet, response_result, server_on_packet, RequestIds, ServerStep};
use acceptor::proxy::{after_read, route_read, Delivery, ReadStep};

#[test]
fn request_ids_count_down_per_connection() {
    let mut ids = RequestIds::new();
    let a = "10.0.0.1:5".to_string();
    let b = "10.0.0.2:6".to_string();
    assert!(!ids.contains(&a));
    ids.reset(a.clone());
    ids.reset(b.clone());
    assert_eq!(ids.next_id(&a), u64::MAX);
    assert_eq!(ids.next_id(&a), u64::MAX - 1);
    assert_eq!(ids.next_id(&b), u64::MAX);
    ids.reset(a.clone());
    assert_eq!(ids.next_id(&a), u64::MAX);
    ids.remove(&b);
    assert!(!ids.contains(&b));
    assert!(ids.contains(&a));
}

#[test]
fn answers_to_deliveries() {
    assert_eq!(response_result(Payload::MessageCliAck), Ok(()));
    assert_eq!(
        response_result(Payload::Error { code: 5, message: "full".into() }),
        Err(ImError::Custom { code: 5, message: "full".into() })
    );
    assert_eq!(response_result(Payload::Pong(1)), Err(ImError::UndefinedBehavior));
}

#[test]
fn server_steps() {
    let msg = Message { from: 1, to: 2, timestamp: 0, seq: 0, msg_type: "text".into(), content: "x".into() };
    match server_on_packet(Packet::new(17, Headers::new(), Payload::Message(msg))) {
        ServerStep::Deliver { message, ack } => {
            assert_eq!(message.to, 2);
            assert_eq!(ack.request_id, 17);
            assert!(matches!(ack.payload, Payload::MessageSrvAck));
        }
        _ => panic!("expected a delivery"),
    }
    let login = Packet::new(1, Headers::new(), acceptor::im::client::login_payload("t".into()));
    assert!(matches!(server_on_packet(login), ServerStep::ResetRequestIds));
    assert!(matches!(server_on_packet(Packet::new(1, Headers::new(), Payload::Logout)), ServerStep::Ignore));
    let p = delivery_packet(u64::MAX, Message { from: 3, to: 4, timestamp: 1, seq: 2, msg_type: "a".into(), content: "b".into() });
    assert_eq!(p.request_id, u64::MAX);
    assert!(matches!(p.payload, Payload::Message(Message { to: 4, .. })));
}

#[test]
fn client_steps() {
    let p = Packet::new(3, Headers::new(), message_payload(1, 2));
    match client_on_packet(2, p) {
        ClientAction::Reply(r) => {
            assert_eq!(r.request_id, 3);
            assert!(matches!(r.payload, Payload::MessageCliAck));
        }
        _ => panic!("expected a reply"),
    }
    assert!(matches!(client_on_packet(2, Packet::new(8, Headers::new(), Payload::MessageSrvAck)), ClientAction::Delivered(8)));
    assert!(matches!(client_on_packet(2, Packet::new(8, Headers::new(), Payload::Pong(1))), ClientAction::Unknown(Payload::Pong(1))));
    let out = outgoing_packet(12, Payload::Ping(4));
    assert_eq!(out.request_id, 12);
    assert_eq!(out.headers.len(), 0);
}

#[test]
fn client_payloads() {
    match message_payload(1, 2) {
        Payload::Message(m) => {
            assert_eq!((m.from, m.to, m.timestamp, m.seq), (1, 2, 32, 1));
            assert_eq!(m.msg_type, "text");
            assert_eq!(m.content, "hello");
        }
        _ => panic!("not a message"),
    }
    match acceptor::im::client::login_payload("tok".into()) {
        Payload::Login { token, version, user_agent, timestamp } => {
            assert_eq!(token, "tok");
            assert_eq!(version, "1");
            assert_eq!(user_agent, "rust");
            assert_eq!(timestamp, 32);
        }
        _ => panic!("not a login"),
    }
}

#[test]
fn recipients() {
    assert_eq!(pick_recipient(0, 3), 1);
    assert_eq!(pick_recipient(5, 3), 3);
    assert_eq!(pick_recipient(u64::MAX, 1), 1);
    for _ in 0..20 {
        let r = random_recipient(3);
        assert!((1..=3).contains(&r));
    }
}

#[test]
fn heartbeat_steps() {
    let s = 1_000_000_000u128;
    assert_eq!(heartbeat_step(10 * s, 4 * s), Beat::Sleep(6 * s));
    assert_eq!(heartbeat_step(10 * s, 15 * s), Beat::Sleep(10 * s));
    assert_eq!(heartbeat_step(10 * s, 30 * s), Beat::Sleep(10 * s));
    assert_eq!(heartbeat_step(10 * s, 30 * s + 1), Beat::Close);
    assert_eq!(last_read_elapsed(None), MUST_BE_LOGOUT_NANOS);
    assert_eq!(last_read_elapsed(Some(7)), 7);
    assert_eq!(heartbeat_step(10 * s, last_read_elapsed(None)), Beat::Close);
}

#[test]
fn state_steps() {
    let e: StateEvent<u64, &str> = StateEvent::Login(Ok(5));
    assert!(matches!(state_step(e, 100), StateAction::LoggedIn(5)));
    let e: StateEvent<u64, &str> = StateEvent::Login(Err("bad"));
    assert!(matches!(state_step(e, 100), StateAction::Reject("bad")));
    let e: StateEvent<u64, &str> = StateEvent::Logout;
    assert!(matches!(state_step(e, 100), StateAction::Close));
    let e: StateEvent<u64, &str> = StateEvent::Other { user: None, since_last_sync: None };
    assert!(matches!(state_step(e, 100), StateAction::Close));
    let e: StateEvent<u64, &str> = StateEvent::Other { user: Some(5), since_last_sync: None };
    assert!(matches!(state_step(e, 100), StateAction::Forward { refresh: Some(5) }));
    let e: StateEvent<u64, &str> = StateEvent::Other { user: Some(5), since_last_sync: Some(101) };
    assert!(matches!(state_step(e, 100), StateAction::Forward { refresh: Some(5) }));
    let e: StateEvent<u64, &str> = StateEvent::Other { user: Some(5), since_last_sync: Some(100) };
    assert!(matches!(state_step(e, 100), StateAction::Forward { refresh: None }));
}

#[test]
fn state_events() {
    let login = Packet::new(1, Headers::new(), acceptor::im::client::login_payload("t".into()));
    let e = state_event::<Packet, u64, &str>(&login, None, None, None);
    assert!(e.is_none());
    let e = state_event::<Packet, u64, &str>(&login, Some(Ok(3)), None, None);
    assert!(matches!(e, Some(StateEvent::Login(Ok(3)))));
    let logout = Packet::new(1, Headers::new(), Payload::Logout);
    let e = state_event::<Packet, u64, &str>(&logout, None, Some(2), None);
    assert!(matches!(e, Some(StateEvent::Logout)));
    let ping = Packet::new(1, Headers::new(), Payload::Ping(0));
    let e = state_event::<Packet, u64, &str>(&ping, None, Some(2), Some(9));
    assert!(matches!(e, Some(StateEvent::Other { user: Some(2), since_last_sync: Some(9) })));
}

#[test]
fn sync_steps() {
    assert_eq!(sync_route(false, true), SyncRoute::Close);
    assert_eq!(sync_route(true, true), SyncRoute::Answer);
    assert_eq!(sync_route(true, false), SyncRoute::Forward);
    assert_eq!(sync_send_result(SyncOutcome::Answered(3)), Ok(3));
    assert_eq!(sync_send_result::<u8>(SyncOutcome::TimedOut), Err(Error::Timeout));
    assert_eq!(sync_send_result::<u8>(SyncOutcome::Dropped), Err(Error::Disconnected));
    assert_eq!(sync_send_result::<u8>(SyncOutcome::SendFailed), Err(Error::Disconnected));
    assert_eq!(sync_send_result::<u8>(SyncOutcome::NoTable), Err(Error::Disconnected));
}

#[test]
fn read_steps() {
    assert_eq!(after_read(10, false), ReadStep::Retry);
    assert_eq!(after_read(0, true), ReadStep::Closed);
    assert_eq!(after_read(0, false), ReadStep::Disconnected);
}

#[test]
fn read_packet_goes_to_its_waiter() {
    assert_eq!(route_read(true), Delivery::Answer);
    assert_eq!(route_read(false), Delivery::Process);
}
