use acceptor::connect::extract::heart_beat::PingPongPacket;
use acceptor::connect::extract::online_state::LoginPacket;
use acceptor::connect::extract::sync_message::RequestIdPacket;
use acceptor::im::packet::{Headers, Message, Packet, Payload};
use acceptor::wire::de::{from_bytes, from_bytes_le};
use acceptor::wire::error::Error;
use acceptor::wire::ser::{to_vec, to_vec_le};

fn message() -> Message {
    Message {
        from: 1,
        to: 2,
        timestamp: 1_700_000_000,
        seq: 7,
        msg_type: "text".into(),
        content: "hello there".into(),
    }
}

fn payloads() -> Vec<Payload> {
    vec![
        Payload::Error { code: 32, message: "invalid token".into() },
        Payload::Login {
            token: "abc".into(),
            version: "1".into(),
            user_agent: "rust".into(),
            timestamp: 32,
        },
        Payload::Logout,
        Payload::Ping(99),
        Payload::Pong(0x1_0000),
        Payload::Message(message()),
        Payload::MessageCliAck,
        Payload::MessageSrvAck,
    ]
}

fn same(a: &Packet, b: &Packet) -> bool {
    format!("{:?}", a) == format!("{:?}", b)
}

#[test]
fn packets_read_back() {
    for payload in payloads() {
        let mut headers = Headers::new();
        headers.insert("k".into(), "v".into());
        headers.insert("x".into(), "y".into());
        let p = Packet::new(u64::MAX, headers, payload);
        let bytes = to_vec(&p);
        let q: Packet = from_bytes(&bytes).unwrap();
        assert!(same(&p, &q));
        let bytes = to_vec_le(&p);
        let q: Packet = from_bytes_le(&bytes).unwrap();
        assert!(same(&p, &q));
    }
}

#[test]
fn packet_bytes_are_exact() {
    let p = Packet::new(5, Headers::new(), Payload::Ping(300));
    assert_eq!(to_vec(&p), vec![5, 0, 4, b'P', b'i', b'n', b'g', 0xFD, 0x01, 0x2C]);
    assert_eq!(to_vec_le(&p), vec![5, 0, 4, b'P', b'i', b'n', b'g', 0xFD, 0x2C, 0x01]);
    let p = Packet::new(1, Headers::new(), Payload::Logout);
    assert_eq!(to_vec(&p), vec![1, 0, 6, b'L', b'o', b'g', b'o', b'u', b't']);
}

#[test]
fn trailing_bytes_are_refused() {
    let p = Packet::new(5, Headers::new(), Payload::MessageSrvAck);
    let mut bytes = to_vec(&p);
    bytes.push(0);
    let r: Result<Packet, Error> = from_bytes(&bytes);
    assert_eq!(r.unwrap_err(), Error::TrailingBytes);
}

#[test]
fn unknown_variant_is_refused() {
    let bytes = vec![5, 0, 3, b'F', b'o', b'o'];
    let r: Result<Packet, Error> = from_bytes(&bytes);
    assert_eq!(r.unwrap_err(), Error::UnknownVariant);
}

#[test]
fn short_input_is_eof() {
    let p = Packet::new(5, Headers::new(), Payload::Message(message()));
    let bytes = to_vec(&p);
    let r: Result<Packet, Error> = from_bytes(&bytes[..bytes.len() - 1]);
    assert_eq!(r.unwrap_err(), Error::Eof);
}

#[test]
fn repeated_header_keeps_last_value() {
    let bytes = vec![9, 2, 1, b'a', 1, b'1', 1, b'a', 1, b'2', 6, b'L', b'o', b'g', b'o', b'u', b't'];
    let p: Packet = from_bytes(&bytes).unwrap();
    assert_eq!(p.headers.len(), 1);
    assert_eq!(p.headers.get(&"a".to_string()).unwrap(), "2");
}

#[test]
fn headers_insert_and_get() {
    let mut h = Headers::new();
    assert_eq!(h.insert("a".into(), "1".into()), None);
    assert_eq!(h.insert("b".into(), "2".into()), None);
    assert_eq!(h.insert("a".into(), "3".into()), Some("1".to_string()));
    assert_eq!(h.len(), 2);
    assert_eq!(h.get(&"a".to_string()).unwrap(), "3");
    assert_eq!(h.get(&"c".to_string()), None);
    let (k, v) = h.entry(1);
    assert_eq!((k.as_str(), v.as_str()), ("b", "2"));
    let c = h.clone();
    assert_eq!(c.get(&"b".to_string()).unwrap(), "2");
}

#[test]
fn packet_kinds() {
    let ping = Packet::new(4, Headers::new(), Payload::Ping(11));
    assert!(ping.ping());
    assert!(!ping.pong());
    let pong = ping.gen_pong();
    assert!(pong.pong());
    assert_eq!(pong.request_id(), 4);
    assert!(matches!(pong.payload, Payload::Pong(11)));
    let login = Packet::new(1, Headers::new(), Payload::Login {
        token: "t".into(),
        version: "1".into(),
        user_agent: "rust".into(),
        timestamp: 0,
    });
    assert!(login.login_packet());
    assert!(!login.logout_packet());
    let logout = Packet::new(1, Headers::new(), Payload::Logout);
    assert!(logout.logout_packet());
    assert!(!logout.login_packet());
}
