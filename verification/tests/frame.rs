use acceptor::connect::connection::{encode_frame, next_frame};
use acceptor::connect::error::Error;
use acceptor::im::packet::{Headers, Packet, Payload};
use acceptor::wire::error::Error as WireError;

#[test]
fn frame_layout() {
    let p = Packet::new(5, Headers::new(), Payload::Ping(1));
    let frame = encode_frame(&p);
    assert_eq!(&frame[..4], &[0, 0, 0, 8]);
    assert_eq!(frame.len(), 12);
}

#[test]
fn frame_taken_once_complete() {
    let p = Packet::new(5, Headers::new(), Payload::Ping(1));
    let buf = encode_frame(&p);
    let r: Result<Option<(Packet, usize)>, Error> = next_frame(&buf[..11]);
    assert!(matches!(r, Ok(None)));
    let r: Result<Option<(Packet, usize)>, Error> = next_frame(&buf);
    let (q, n) = r.unwrap().unwrap();
    assert_eq!(n, 12);
    assert!(matches!(q.payload, Payload::Ping(1)));
    assert_eq!(q.request_id, 5);
}

#[test]
fn frame_followed_by_more_bytes() {
    let p = Packet::new(7, Headers::new(), Payload::Ping(2));
    let mut buf = encode_frame(&p);
    buf.extend_from_slice(&[0, 0, 0]);
    let r: Result<Option<(Packet, usize)>, Error> = next_frame(&buf);
    let (q, n) = r.unwrap().unwrap();
    assert_eq!(n, 12);
    assert_eq!(q.request_id, 7);
    assert!(matches!(q.payload, Payload::Ping(2)));
}

#[test]
fn frame_too_short_for_header() {
    let r: Result<Option<(Packet, usize)>, Error> = next_frame(&[0, 0, 0]);
    assert!(matches!(r, Ok(None)));
}

#[test]
fn frame_with_empty_payload() {
    let r: Result<Option<(Packet, usize)>, Error> = next_frame(&[0, 0, 0, 0]);
    assert_eq!(r.unwrap_err(), Error::Serde(WireError::Eof));
}

#[test]
fn frame_with_bad_payload() {
    let buf = vec![0, 0, 0, 1, 0xFF, 0, 0, 0, 0];
    let r: Result<Option<(Packet, usize)>, Error> = next_frame(&buf);
    assert_eq!(r.unwrap_err(), Error::Serde(WireError::Eof));
}
