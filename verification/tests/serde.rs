use acceptor::im::packet::Headers;
use acceptor::wire::codec::Wire;
use acceptor::wire::de::Deserializer;
use acceptor::wire::ser::Serializer;

// A record written field by field in the order a derived serializer walks
// it: a struct is its fields in order, a list
// and a map are their length followed by their items, and the adjacently
// tagged enum is its tag name followed by its content.
struct Inner {
    code: u32,
    message: String,
}

struct Data {
    signed: i16,
    unsigned: u16,
    message: String,
    list: Vec<String>,
    ports: Vec<u16>,
    map: Headers,
    inner: Inner,
    tag: (String, String),
}

fn sample() -> Data {
    let mut map = Headers::new();
    map.insert("helo".to_string(), "world".to_string());
    map.insert("test".to_string(), "32".to_string());
    Data {
        signed: -78,
        unsigned: 50000,
        message: "hello".into(),
        list: vec!["this".into(), "is".into(), "a".into()],
        ports: vec![8848, 8849],
        map,
        inner: Inner { code: 32, message: "ok".into() },
        tag: ("C".into(), "heihei".into()),
    }
}

fn to_bytes(data: &Data) -> Vec<u8> {
    let mut s = Serializer::new();
    s.serialize_i16(data.signed);
    s.serialize_u16(data.unsigned);
    s.serialize_str(&data.message);
    s.serialize_seq(data.list.len());
    for item in &data.list {
        s.serialize_str(item);
    }
    s.serialize_seq(data.ports.len());
    for port in &data.ports {
        s.serialize_u16(*port);
    }
    data.map.serialize(&mut s);
    s.serialize_u32(data.inner.code);
    s.serialize_str(&data.inner.message);
    s.serialize_str(&data.tag.0);
    s.serialize_str(&data.tag.1);
    s.into_bytes()
}

fn from_bytes(bytes: &[u8]) -> Data {
    let mut d = Deserializer::from_bytes(bytes);
    let signed = d.deserialize_i16().unwrap();
    let unsigned = d.deserialize_u16().unwrap();
    let message = d.parse_string().unwrap();
    let n = d.parse_len().unwrap();
    let mut list = Vec::new();
    for _ in 0..n {
        list.push(d.parse_string().unwrap());
    }
    let n = d.parse_len().unwrap();
    let mut ports = Vec::new();
    for _ in 0..n {
        ports.push(d.deserialize_u16().unwrap());
    }
    let map = Headers::deserialize(&mut d).unwrap();
    let code = d.deserialize_u32().unwrap();
    let inner_message = d.parse_string().unwrap();
    let tag = d.parse_string().unwrap();
    let content = d.parse_string().unwrap();
    assert!(!d.has_remaining());
    Data {
        signed,
        unsigned,
        message,
        list,
        ports,
        map,
        inner: Inner { code, message: inner_message },
        tag: (tag, content),
    }
}

#[test]
fn lib_test_serde() {
    let data = sample();
    let bytes = to_bytes(&data);
    println!("bytes => {:?}", bytes);
    let x = from_bytes(bytes.as_slice());
    assert_eq!(x.signed, -78);
    assert_eq!(x.unsigned, 50000);
    assert_eq!(x.message, "hello");
    assert_eq!(x.list, vec!["this".to_string(), "is".to_string(), "a".to_string()]);
    assert_eq!(x.ports, vec![8848, 8849]);
    assert_eq!(x.map.len(), 2);
    assert_eq!(x.map.get(&"helo".to_string()).unwrap(), "world");
    assert_eq!(x.map.get(&"test".to_string()).unwrap(), "32");
    assert_eq!(x.inner.code, 32);
    assert_eq!(x.inner.message, "ok");
    assert_eq!(x.tag.0, "C");
    assert_eq!(x.tag.1, "heihei");
}

#[test]
fn serde_bytes_of_sample_are_exact() {
    let bytes = to_bytes(&sample());
    // -78 zigzags to 155, a single byte; 50000 takes the two-byte form.
    assert_eq!(&bytes[..4], &[155, 0xFD, 0xC3, 0x50]);
    assert_eq!(&bytes[4..10], &[5, b'h', b'e', b'l', b'l', b'o']);
    assert_eq!(bytes[10], 3);
}
