//! The wire form of packets.
//!
//! A struct is its fields one after another, with nothing between them. A
//! payload is the name of its variant as text, followed by the variant's
//! fields, if it has any. The header map is the number of entries followed by
//! each key and value; reading a key that occurs again replaces the value.
use crate::wire::codec::Wire;
use crate::wire::de::{parse_string_spec, parse_unsigned_spec, Deserializer};
use crate::wire::error::{Error, Result};
use crate::im::packet::{
    distinct_keys, has_key, headers_insert, Headers, HeadersView, Message, MessageView, Packet,
    PacketView, Payload, PayloadView,
};
use crate::wire::ser::{str_bytes, varint_bytes, Serializer};
use crate::wire::de::{lemma_string_roundtrip, lemma_varint_roundtrip};
use vstd::prelude::*;
use vstd::string::StringSliceAdditionalSpecFns;
use vstd::utf8::{decode_utf8, encode_utf8, group_utf8_lib};

verus! {

/// Whether the UTF-8 form of `t` has a length that fits the machine.
pub open spec fn text_fits(t: Seq<char>) -> bool {
    encode_utf8(t).len() <= usize::MAX
}

/// Whether two pieces of text are equal, compared byte by byte.
pub fn text_eq(a: &str, b: &str) -> (r: bool)
    ensures
        r == (a@ == b@),
{
    broadcast use group_utf8_lib;

    let x = a.as_bytes();
    let y = b.as_bytes();
    if x.len() != y.len() {
        return false;
    }
    let mut i: usize = 0;
    while i < x.len()
        invariant
            x@ == a.spec_bytes(),
            y@ == b.spec_bytes(),
            x@.len() == y@.len(),
            i <= x@.len(),
            forall|j: int| 0 <= j < i ==> x@[j] == y@[j],
        decreases x@.len() - i,
    {
        if x[i] != y[i] {
            return false;
        }
        i = i + 1;
    }
    assert(x@ =~= y@);
    assert(decode_utf8(encode_utf8(a@)) == decode_utf8(encode_utf8(b@)));
    true
}

/// Skipping a prefix leaves what follows it.
pub proof fn lemma_skip_prefix(a: Seq<u8>, b: Seq<u8>)
    ensures
        (a + b).skip(a.len() as int) == b,
{
    assert((a + b).skip(a.len() as int) =~= b);
}

// ---------------------------------------------------------------- messages
/// The bytes of a message: its fields in order.
pub open spec fn message_bytes(m: MessageView, le: bool) -> Seq<u8> {
    varint_bytes(m.from, le) + varint_bytes(m.to, le) + varint_bytes(m.timestamp, le)
        + varint_bytes(m.seq as u64, le) + str_bytes(m.msg_type, le) + str_bytes(m.content, le)
}

/// What a message at the start of `s` reads as. A sequence number that does
/// not fit 32 bits keeps its low 32 bits.
pub open spec fn parse_message_spec(s: Seq<u8>, le: bool) -> Result<(MessageView, int)> {
    match parse_unsigned_spec(s, le) {
        Err(e) => Err(e),
        Ok((from, n1)) => {
            let s1 = s.skip(n1);
            match parse_unsigned_spec(s1, le) {
                Err(e) => Err(e),
                Ok((to, n2)) => {
                    let s2 = s1.skip(n2);
                    match parse_unsigned_spec(s2, le) {
                        Err(e) => Err(e),
                        Ok((timestamp, n3)) => {
                            let s3 = s2.skip(n3);
                            match parse_unsigned_spec(s3, le) {
                                Err(e) => Err(e),
                                Ok((seq, n4)) => {
                                    let s4 = s3.skip(n4);
                                    match parse_string_spec(s4, le) {
                                        Err(e) => Err(e),
                                        Ok((msg_type, n5)) => {
                                            let s5 = s4.skip(n5);
                                            match parse_string_spec(s5, le) {
                                                Err(e) => Err(e),
                                                Ok((content, n6)) => Ok(
                                                    (
                                                        MessageView {
                                                            from,
                                                            to,
                                                            timestamp,
                                                            seq: seq as u32,
                                                            msg_type,
                                                            content,
                                                        },
                                                        n1 + n2 + n3 + n4 + n5 + n6,
                                                    ),
                                                ),
                                            }
                                        },
                                    }
                                },
                            }
                        },
                    }
                },
            }
        },
    }
}

impl Wire for Message {
    open spec fn wire_valid(v: MessageView) -> bool {
        text_fits(v.msg_type) && text_fits(v.content)
    }

    open spec fn wire_bytes(v: MessageView, le: bool) -> Seq<u8> {
        message_bytes(v, le)
    }

    open spec fn wire_parse(s: Seq<u8>, le: bool) -> Result<(MessageView, int)> {
        parse_message_spec(s, le)
    }

    proof fn lemma_wire_roundtrip(v: MessageView, le: bool, rest: Seq<u8>) {
        let a1 = varint_bytes(v.from, le);
        let a2 = varint_bytes(v.to, le);
        let a3 = varint_bytes(v.timestamp, le);
        let a4 = varint_bytes(v.seq as u64, le);
        let a5 = str_bytes(v.msg_type, le);
        let a6 = str_bytes(v.content, le);
        let r6 = a6 + rest;
        let r5 = a5 + r6;
        let r4 = a4 + r5;
        let r3 = a3 + r4;
        let r2 = a2 + r3;
        let r1 = a1 + r2;
        assert(message_bytes(v, le) + rest =~= r1);
        lemma_varint_roundtrip(v.from, le, r2);
        lemma_varint_roundtrip(v.to, le, r3);
        lemma_varint_roundtrip(v.timestamp, le, r4);
        lemma_varint_roundtrip(v.seq as u64, le, r5);
        lemma_string_roundtrip(v.msg_type, le, r6);
        lemma_string_roundtrip(v.content, le, rest);
        lemma_skip_prefix(a1, r2);
        lemma_skip_prefix(a2, r3);
        lemma_skip_prefix(a3, r4);
        lemma_skip_prefix(a4, r5);
        lemma_skip_prefix(a5, r6);
        assert(message_bytes(v, le).len() == a1.len() + a2.len() + a3.len() + a4.len() + a5.len()
            + a6.len());
    }

    fn serialize(&self, s: &mut Serializer) {
        s.serialize_u64(self.from);
        s.serialize_u64(self.to);
        s.serialize_u64(self.timestamp);
        s.serialize_u32(self.seq);
        s.serialize_str(self.msg_type.as_str());
        s.serialize_str(self.content.as_str());
        assert(s@ =~= old(s)@ + message_bytes(self@, old(s).is_le()));
    }

    fn deserialize(d: &mut Deserializer) -> (r: Result<Self>) {
        let ghost d0 = *d;
        let from = d.deserialize_u64()?;
        let ghost d1 = *d;
        let to = d.deserialize_u64()?;
        let ghost d2 = *d;
        let timestamp = d.deserialize_u64()?;
        let ghost d3 = *d;
        let seq = d.deserialize_u32()?;
        let ghost d4 = *d;
        let msg_type = d.parse_string()?;
        let ghost d5 = *d;
        let content = d.parse_string()?;
        proof {
            let n1 = d1.pos() - d0.pos();
            let n2 = d2.pos() - d1.pos();
            let n3 = d3.pos() - d2.pos();
            let n4 = d4.pos() - d3.pos();
            let n5 = d5.pos() - d4.pos();
            let n6 = d.pos() - d5.pos();
            Deserializer::lemma_advanced_trans(d0, d1, d2, n1, n2);
            Deserializer::lemma_advanced_trans(d0, d2, d3, n1 + n2, n3);
            Deserializer::lemma_advanced_trans(d0, d3, d4, n1 + n2 + n3, n4);
            Deserializer::lemma_advanced_trans(d0, d4, d5, n1 + n2 + n3 + n4, n5);
            Deserializer::lemma_advanced_trans(d0, d5, *d, n1 + n2 + n3 + n4 + n5, n6);
        }
        Ok(Message { from, to, timestamp, seq, msg_type, content })
    }
}

// ---------------------------------------------------------------- payloads
/// The name that stands for the variant of `p` on the wire.
pub open spec fn payload_tag(p: PayloadView) -> Seq<char> {
    match p {
        PayloadView::Error { .. } => "Error"@,
        PayloadView::Login { .. } => "Login"@,
        PayloadView::Logout => "Logout"@,
        PayloadView::Ping(_) => "Ping"@,
        PayloadView::Pong(_) => "Pong"@,
        PayloadView::Message(_) => "Message"@,
        PayloadView::MessageCliAck => "MessageCliAck"@,
        PayloadView::MessageSrvAck => "MessageSrvAck"@,
    }
}

/// The bytes of the fields of `p`, which follow its name.
pub open spec fn payload_body_bytes(p: PayloadView, le: bool) -> Seq<u8> {
    match p {
        PayloadView::Error { code, message } => varint_bytes(code as u64, le) + str_bytes(
            message,
            le,
        ),
        PayloadView::Login { token, version, user_agent, timestamp } => str_bytes(token, le)
            + str_bytes(version, le) + str_bytes(user_agent, le) + varint_bytes(timestamp, le),
        PayloadView::Ping(n) => varint_bytes(n, le),
        PayloadView::Pong(n) => varint_bytes(n, le),
        PayloadView::Message(m) => message_bytes(m, le),
        _ => Seq::empty(),
    }
}

/// The bytes of a payload: its name, then its fields.
pub open spec fn payload_bytes(p: PayloadView, le: bool) -> Seq<u8> {
    str_bytes(payload_tag(p), le) + payload_body_bytes(p, le)
}

/// What the fields after the name `tag` read as.
pub open spec fn parse_payload_body(tag: Seq<char>, s: Seq<u8>, le: bool) -> Result<
    (PayloadView, int),
> {
    if tag == "Error"@ {
        match parse_unsigned_spec(s, le) {
            Err(e) => Err(e),
            Ok((code, n1)) => match parse_string_spec(s.skip(n1), le) {
                Err(e) => Err(e),
                Ok((message, n2)) => Ok(
                    (PayloadView::Error { code: code as u32, message }, n1 + n2),
                ),
            },
        }
    } else if tag == "Login"@ {
        match parse_string_spec(s, le) {
            Err(e) => Err(e),
            Ok((token, n1)) => {
                let s1 = s.skip(n1);
                match parse_string_spec(s1, le) {
                    Err(e) => Err(e),
                    Ok((version, n2)) => {
                        let s2 = s1.skip(n2);
                        match parse_string_spec(s2, le) {
                            Err(e) => Err(e),
                            Ok((user_agent, n3)) => match parse_unsigned_spec(s2.skip(n3), le) {
                                Err(e) => Err(e),
                                Ok((timestamp, n4)) => Ok(
                                    (
                                        PayloadView::Login { token, version, user_agent, timestamp },
                                        n1 + n2 + n3 + n4,
                                    ),
                                ),
                            },
                        }
                    },
                }
            },
        }
    } else if tag == "Logout"@ {
        Ok((PayloadView::Logout, 0))
    } else if tag == "Ping"@ {
        match parse_unsigned_spec(s, le) {
            Err(e) => Err(e),
            Ok((n, k)) => Ok((PayloadView::Ping(n), k)),
        }
    } else if tag == "Pong"@ {
        match parse_unsigned_spec(s, le) {
            Err(e) => Err(e),
            Ok((n, k)) => Ok((PayloadView::Pong(n), k)),
        }
    } else if tag == "Message"@ {
        match parse_message_spec(s, le) {
            Err(e) => Err(e),
            Ok((m, k)) => Ok((PayloadView::Message(m), k)),
        }
    } else if tag == "MessageCliAck"@ {
        Ok((PayloadView::MessageCliAck, 0))
    } else if tag == "MessageSrvAck"@ {
        Ok((PayloadView::MessageSrvAck, 0))
    } else {
        Err(Error::UnknownVariant)
    }
}

/// What a payload at the start of `s` reads as.
pub open spec fn parse_payload_spec(s: Seq<u8>, le: bool) -> Result<(PayloadView, int)> {
    match parse_string_spec(s, le) {
        Err(e) => Err(e),
        Ok((tag, n)) => match parse_payload_body(tag, s.skip(n), le) {
            Err(e) => Err(e),
            Ok((p, m)) => Ok((p, n + m)),
        },
    }
}

/// The names of the payload variants differ from each other.
pub proof fn lemma_tags_distinct()
    ensures
        "Error"@ != "Login"@,
        "Error"@ != "Logout"@,
        "Error"@ != "Ping"@,
        "Error"@ != "Pong"@,
        "Error"@ != "Message"@,
        "Error"@ != "MessageCliAck"@,
        "Error"@ != "MessageSrvAck"@,
        "Login"@ != "Logout"@,
        "Login"@ != "Ping"@,
        "Login"@ != "Pong"@,
        "Login"@ != "Message"@,
        "Login"@ != "MessageCliAck"@,
        "Login"@ != "MessageSrvAck"@,
        "Logout"@ != "Ping"@,
        "Logout"@ != "Pong"@,
        "Logout"@ != "Message"@,
        "Logout"@ != "MessageCliAck"@,
        "Logout"@ != "MessageSrvAck"@,
        "Ping"@ != "Pong"@,
        "Ping"@ != "Message"@,
        "Ping"@ != "MessageCliAck"@,
        "Ping"@ != "MessageSrvAck"@,
        "Pong"@ != "Message"@,
        "Pong"@ != "MessageCliAck"@,
        "Pong"@ != "MessageSrvAck"@,
        "Message"@ != "MessageCliAck"@,
        "Message"@ != "MessageSrvAck"@,
        "MessageCliAck"@ != "MessageSrvAck"@,
{
    reveal_strlit("Error");
    reveal_strlit("Login");
    reveal_strlit("Logout");
    reveal_strlit("Ping");
    reveal_strlit("Pong");
    reveal_strlit("Message");
    reveal_strlit("MessageCliAck");
    reveal_strlit("MessageSrvAck");
    assert("Error"@[0] != "Login"@[0]);
    assert("Ping"@[1] != "Pong"@[1]);
    assert("MessageCliAck"@[7] != "MessageSrvAck"@[7]);
    assert("Login"@[3] != "Logout"@[3]);
    assert("Message"@.len() != "MessageCliAck"@.len());
    assert("Message"@.len() != "MessageSrvAck"@.len());
}

/// The fields of a valid payload read back, whatever follows them.
proof fn lemma_payload_body_roundtrip(p: PayloadView, le: bool, rest: Seq<u8>)
    requires
        <Payload as Wire>::wire_valid(p),
    ensures
        parse_payload_body(payload_tag(p), payload_body_bytes(p, le) + rest, le) == Ok::<
            (PayloadView, int),
            Error,
        >((p, payload_body_bytes(p, le).len() as int)),
{
    lemma_tags_distinct();
    match p {
        PayloadView::Error { code, message } => {
            let a1 = varint_bytes(code as u64, le);
            let r2 = str_bytes(message, le) + rest;
            assert(payload_body_bytes(p, le) + rest =~= a1 + r2);
            lemma_varint_roundtrip(code as u64, le, r2);
            lemma_skip_prefix(a1, r2);
            lemma_string_roundtrip(message, le, rest);
        },
        PayloadView::Login { token, version, user_agent, timestamp } => {
            let a1 = str_bytes(token, le);
            let a2 = str_bytes(version, le);
            let a3 = str_bytes(user_agent, le);
            let a4 = varint_bytes(timestamp, le);
            let r4 = a4 + rest;
            let r3 = a3 + r4;
            let r2 = a2 + r3;
            assert(payload_body_bytes(p, le) + rest =~= a1 + r2);
            lemma_string_roundtrip(token, le, r2);
            lemma_string_roundtrip(version, le, r3);
            lemma_string_roundtrip(user_agent, le, r4);
            lemma_varint_roundtrip(timestamp, le, rest);
            lemma_skip_prefix(a1, r2);
            lemma_skip_prefix(a2, r3);
            lemma_skip_prefix(a3, r4);
        },
        PayloadView::Ping(n) => {
            lemma_varint_roundtrip(n, le, rest);
        },
        PayloadView::Pong(n) => {
            lemma_varint_roundtrip(n, le, rest);
        },
        PayloadView::Message(m) => {
            <Message as Wire>::lemma_wire_roundtrip(m, le, rest);
        },
        _ => {
            assert(payload_body_bytes(p, le) + rest =~= rest);
        },
    }
}

impl Wire for Payload {
    open spec fn wire_valid(v: PayloadView) -> bool {
        match v {
            PayloadView::Error { message, .. } => text_fits(message),
            PayloadView::Login { token, version, user_agent, .. } => text_fits(token) && text_fits(
                version,
            ) && text_fits(user_agent),
            PayloadView::Message(m) => <Message as Wire>::wire_valid(m),
            _ => true,
        }
    }

    open spec fn wire_bytes(v: PayloadView, le: bool) -> Seq<u8> {
        payload_bytes(v, le)
    }

    open spec fn wire_parse(s: Seq<u8>, le: bool) -> Result<(PayloadView, int)> {
        parse_payload_spec(s, le)
    }

    proof fn lemma_wire_roundtrip(v: PayloadView, le: bool, rest: Seq<u8>) {
        let a = str_bytes(payload_tag(v), le);
        let r = payload_body_bytes(v, le) + rest;
        assert(payload_bytes(v, le) + rest =~= a + r);
        reveal_strlit("Error");
        reveal_strlit("Login");
        reveal_strlit("Logout");
        reveal_strlit("Ping");
        reveal_strlit("Pong");
        reveal_strlit("Message");
        reveal_strlit("MessageCliAck");
        reveal_strlit("MessageSrvAck");
        assert(text_fits(payload_tag(v))) by {
            vstd::utf8::is_ascii_chars_encode_utf8(payload_tag(v));
        }
        lemma_string_roundtrip(payload_tag(v), le, r);
        lemma_skip_prefix(a, r);
        lemma_payload_body_roundtrip(v, le, rest);
    }

    fn serialize(&self, s: &mut Serializer) {
        match self {
            Payload::Error { code, message } => {
                s.serialize_str("Error");
                s.serialize_u32(*code);
                s.serialize_str(message.as_str());
            },
            Payload::Login { token, version, user_agent, timestamp } => {
                s.serialize_str("Login");
                s.serialize_str(token.as_str());
                s.serialize_str(version.as_str());
                s.serialize_str(user_agent.as_str());
                s.serialize_u64(*timestamp);
            },
            Payload::Logout => {
                s.serialize_str("Logout");
            },
            Payload::Ping(n) => {
                s.serialize_str("Ping");
                s.serialize_u64(*n);
            },
            Payload::Pong(n) => {
                s.serialize_str("Pong");
                s.serialize_u64(*n);
            },
            Payload::Message(m) => {
                s.serialize_str("Message");
                m.serialize(s);
            },
            Payload::MessageCliAck => {
                s.serialize_str("MessageCliAck");
            },
            Payload::MessageSrvAck => {
                s.serialize_str("MessageSrvAck");
            },
        }
        assert(s@ =~= old(s)@ + payload_bytes(self@, old(s).is_le()));
    }

    fn deserialize(d: &mut Deserializer) -> (r: Result<Self>) {
        let ghost d0 = *d;
        let tag = d.parse_string()?;
        let ghost d1 = *d;
        let ghost n0 = d1.pos() - d0.pos();
        let t = tag.as_str();
        if text_eq(t, "Error") {
            let code = d.deserialize_u32()?;
            let ghost d2 = *d;
            let message = d.parse_string()?;
            proof {
                Deserializer::lemma_advanced_trans(d1, d2, *d, d2.pos() - d1.pos(), d.pos() - d2.pos());
                Deserializer::lemma_advanced_trans(d0, d1, *d, n0, d.pos() - d1.pos());
            }
            Ok(Payload::Error { code, message })
        } else if text_eq(t, "Login") {
            let token = d.parse_string()?;
            let ghost d2 = *d;
            let version = d.parse_string()?;
            let ghost d3 = *d;
            let user_agent = d.parse_string()?;
            let ghost d4 = *d;
            let timestamp = d.deserialize_u64()?;
            proof {
                Deserializer::lemma_advanced_trans(d1, d2, d3, d2.pos() - d1.pos(), d3.pos() - d2.pos());
                Deserializer::lemma_advanced_trans(d1, d3, d4, d3.pos() - d1.pos(), d4.pos() - d3.pos());
                Deserializer::lemma_advanced_trans(d1, d4, *d, d4.pos() - d1.pos(), d.pos() - d4.pos());
                Deserializer::lemma_advanced_trans(d0, d1, *d, n0, d.pos() - d1.pos());
            }
            Ok(Payload::Login { token, version, user_agent, timestamp })
        } else if text_eq(t, "Logout") {
            assert(d1.rest().skip(0) =~= d1.rest());
            Ok(Payload::Logout)
        } else if text_eq(t, "Ping") {
            let n = d.deserialize_u64()?;
            proof {
                Deserializer::lemma_advanced_trans(d0, d1, *d, n0, d.pos() - d1.pos());
            }
            Ok(Payload::Ping(n))
        } else if text_eq(t, "Pong") {
            let n = d.deserialize_u64()?;
            proof {
                Deserializer::lemma_advanced_trans(d0, d1, *d, n0, d.pos() - d1.pos());
            }
            Ok(Payload::Pong(n))
        } else if text_eq(t, "Message") {
            let m = Message::deserialize(d)?;
            proof {
                Deserializer::lemma_advanced_trans(d0, d1, *d, n0, d.pos() - d1.pos());
            }
            Ok(Payload::Message(m))
        } else if text_eq(t, "MessageCliAck") {
            assert(d1.rest().skip(0) =~= d1.rest());
            Ok(Payload::MessageCliAck)
        } else if text_eq(t, "MessageSrvAck") {
            assert(d1.rest().skip(0) =~= d1.rest());
            Ok(Payload::MessageSrvAck)
        } else {
            Err(Error::UnknownVariant)
        }
    }
}

// ---------------------------------------------------------------- headers
/// The bytes of the entries of a header map: each key, then its value.
pub open spec fn entries_bytes(h: HeadersView, le: bool) -> Seq<u8>
    decreases h.len(),
{
    if h.len() == 0 {
        Seq::empty()
    } else {
        str_bytes(h[0].0, le) + str_bytes(h[0].1, le) + entries_bytes(h.drop_first(), le)
    }
}

/// The bytes of a header map: the number of entries, then the entries.
pub open spec fn headers_bytes(h: HeadersView, le: bool) -> Seq<u8> {
    varint_bytes(h.len() as u64, le) + entries_bytes(h, le)
}

/// What `count` entries at the start of `s` read as, set one after the
/// other into `acc`.
pub open spec fn parse_entries(s: Seq<u8>, le: bool, count: nat, acc: HeadersView) -> Result<
    (HeadersView, int),
>
    decreases count,
{
    if count == 0 {
        Ok((acc, 0))
    } else {
        match parse_string_spec(s, le) {
            Err(e) => Err(e),
            Ok((k, n1)) => {
                let s1 = s.skip(n1);
                match parse_string_spec(s1, le) {
                    Err(e) => Err(e),
                    Ok((v, n2)) => match parse_entries(
                        s1.skip(n2),
                        le,
                        (count - 1) as nat,
                        headers_insert(acc, k, v),
                    ) {
                        Err(e) => Err(e),
                        Ok((h, n3)) => Ok((h, n1 + n2 + n3)),
                    },
                }
            },
        }
    }
}

/// What a header map at the start of `s` reads as.
pub open spec fn parse_headers_spec(s: Seq<u8>, le: bool) -> Result<(HeadersView, int)> {
    match parse_unsigned_spec(s, le) {
        Err(e) => Err(e),
        Ok((len, n)) => match parse_entries(
            s.skip(n),
            le,
            (len as usize) as nat,
            Seq::<(Seq<char>, Seq<char>)>::empty(),
        ) {
            Err(e) => Err(e),
            Ok((h, m)) => Ok((h, n + m)),
        },
    }
}

/// Adding an entry at the end adds its bytes at the end.
pub proof fn lemma_entries_bytes_push(h: HeadersView, e: (Seq<char>, Seq<char>), le: bool)
    ensures
        entries_bytes(h.push(e), le) == entries_bytes(h, le) + str_bytes(e.0, le) + str_bytes(
            e.1,
            le,
        ),
    decreases h.len(),
{
    if h.len() == 0 {
        let t = h.push(e);
        assert(t.drop_first() =~= h);
        assert(t.len() == 1 && t[0] == e);
        assert(entries_bytes(h, le) == Seq::<u8>::empty());
        assert(entries_bytes(t.drop_first(), le) == Seq::<u8>::empty());
        assert(entries_bytes(t, le) == str_bytes(e.0, le) + str_bytes(e.1, le) + Seq::<u8>::empty());
        assert(entries_bytes(t, le) =~= entries_bytes(h, le) + str_bytes(e.0, le) + str_bytes(e.1, le));
    } else {
        assert(h.push(e).drop_first() =~= h.drop_first().push(e));
        lemma_entries_bytes_push(h.drop_first(), e, le);
        assert(entries_bytes(h.push(e), le) =~= entries_bytes(h, le) + str_bytes(e.0, le)
            + str_bytes(e.1, le));
    }
}

/// Entries with distinct keys, none of which `acc` holds yet, read back after
/// `acc`, whatever follows them.
pub proof fn lemma_entries_roundtrip(h: HeadersView, le: bool, rest: Seq<u8>, acc: HeadersView)
    requires
        distinct_keys(h),
        forall|i: int| 0 <= i < h.len() ==> !has_key(acc, #[trigger] h[i].0),
        forall|i: int|
            0 <= i < h.len() ==> text_fits(#[trigger] h[i].0) && text_fits(h[i].1),
    ensures
        parse_entries(entries_bytes(h, le) + rest, le, h.len(), acc) == Ok::<
            (HeadersView, int),
            Error,
        >((acc + h, entries_bytes(h, le).len() as int)),
    decreases h.len(),
{
    if h.len() == 0 {
        assert(acc + h =~= acc);
        assert(entries_bytes(h, le) + rest =~= rest);
    } else {
        let k = h[0].0;
        let v = h[0].1;
        let t = h.drop_first();
        let a = str_bytes(k, le);
        let b = str_bytes(v, le);
        let tail = entries_bytes(t, le) + rest;
        let r2 = b + tail;
        assert(entries_bytes(h, le) + rest =~= a + r2);
        lemma_string_roundtrip(k, le, r2);
        lemma_skip_prefix(a, r2);
        lemma_string_roundtrip(v, le, tail);
        lemma_skip_prefix(b, tail);
        assert(!has_key(acc, k));
        let acc2 = acc.push((k, v));
        assert(headers_insert(acc, k, v) == acc2);
        assert forall|i: int| 0 <= i < t.len() implies !has_key(acc2, #[trigger] t[i].0) by {
            assert(t[i] == h[i + 1]);
            assert(!has_key(acc, h[i + 1].0));
            assert(h[0].0 != h[i + 1].0);
            if has_key(acc2, t[i].0) {
                let j = choose|j: int| 0 <= j < acc2.len() && #[trigger] acc2[j].0 == t[i].0;
                if j < acc.len() {
                    assert(acc[j].0 == t[i].0);
                } else {
                    assert(acc2[j].0 == k);
                }
            }
        }
        assert forall|i: int, j: int| 0 <= i < j < t.len() implies #[trigger] t[i].0
            != #[trigger] t[j].0 by {
            assert(h[i + 1].0 != h[j + 1].0);
        }
        assert forall|i: int| 0 <= i < t.len() implies text_fits(#[trigger] t[i].0) && text_fits(
            t[i].1,
        ) by {
            assert(t[i] == h[i + 1]);
        }
        lemma_entries_roundtrip(t, le, rest, acc2);
        assert(acc2 + t =~= acc + h);
    }
}

impl Wire for Headers {
    open spec fn wire_valid(v: HeadersView) -> bool {
        &&& distinct_keys(v)
        &&& v.len() <= usize::MAX
        &&& forall|i: int| 0 <= i < v.len() ==> text_fits(#[trigger] v[i].0) && text_fits(v[i].1)
    }

    open spec fn wire_bytes(v: HeadersView, le: bool) -> Seq<u8> {
        headers_bytes(v, le)
    }

    open spec fn wire_parse(s: Seq<u8>, le: bool) -> Result<(HeadersView, int)> {
        parse_headers_spec(s, le)
    }

    proof fn lemma_wire_roundtrip(v: HeadersView, le: bool, rest: Seq<u8>) {
        let a = varint_bytes(v.len() as u64, le);
        let r = entries_bytes(v, le) + rest;
        assert(headers_bytes(v, le) + rest =~= a + r);
        lemma_varint_roundtrip(v.len() as u64, le, r);
        lemma_skip_prefix(a, r);
        let empty = Seq::<(Seq<char>, Seq<char>)>::empty();
        assert forall|i: int| 0 <= i < v.len() implies !has_key(empty, #[trigger] v[i].0) by {}
        lemma_entries_roundtrip(v, le, rest, empty);
        assert(empty + v =~= v);
    }

    fn serialize(&self, s: &mut Serializer) {
        let ghost le = s.is_le();
        let n = self.len();
        s.serialize_map(n);
        let mut i: usize = 0;
        while i < n
            invariant
                n == self@.len(),
                i <= n,
                s.is_le() == le,
                s@ == old(s)@ + varint_bytes(n as u64, le) + entries_bytes(self@.take(i as int), le),
            decreases n - i,
        {
            let (k, v) = self.entry(i);
            s.serialize_str(k.as_str());
            s.serialize_str(v.as_str());
            proof {
                assert(self@.take(i + 1) =~= self@.take(i as int).push(self@[i as int]));
                lemma_entries_bytes_push(self@.take(i as int), self@[i as int], le);
            }
            i = i + 1;
        }
        assert(self@.take(n as int) =~= self@);
    }

    fn deserialize(d: &mut Deserializer) -> (r: Result<Self>) {
        let ghost d0 = *d;
        let ghost le = d.is_le();
        let count = d.parse_len()?;
        let ghost d1 = *d;
        let ghost n0 = d1.pos() - d0.pos();
        let ghost empty = Seq::<(Seq<char>, Seq<char>)>::empty();
        let mut headers = Headers::new();
        let mut i: usize = 0;
        assert(d1.rest().skip(0) =~= d1.rest());
        while i < count
            invariant
                *old(d) == d0,
                i <= count,
                le == d0.is_le(),
                d1.advanced_from(d0, n0),
                d.advanced_from(d1, d.pos() - d1.pos()),
                parse_headers_spec(d0.rest(), le) == match parse_entries(
                    d1.rest(),
                    le,
                    count as nat,
                    empty,
                ) {
                    Ok((h, m)) => Ok((h, n0 + m)),
                    Err(e) => Err(e),
                },
                parse_entries(d1.rest(), le, count as nat, empty) == match parse_entries(
                    d.rest(),
                    le,
                    (count - i) as nat,
                    headers@,
                ) {
                    Ok((h, m)) => Ok((h, (d.pos() - d1.pos()) + m)),
                    Err(e) => Err::<(HeadersView, int), Error>(e),
                },
            decreases count - i,
        {
            let ghost da = *d;
            let k = d.parse_string()?;
            let ghost db = *d;
            let v = d.parse_string()?;
            proof {
                Deserializer::lemma_advanced_trans(da, db, *d, db.pos() - da.pos(), d.pos() - db.pos());
                Deserializer::lemma_advanced_trans(d1, da, *d, da.pos() - d1.pos(), d.pos() - da.pos());
            }
            headers.insert(k, v);
            i = i + 1;
        }
        proof {
            Deserializer::lemma_advanced_trans(d0, d1, *d, n0, d.pos() - d1.pos());
        }
        Ok(headers)
    }
}

// ---------------------------------------------------------------- packets
/// The bytes of a packet: its request identifier, its headers, its payload.
pub open spec fn packet_bytes(p: PacketView, le: bool) -> Seq<u8> {
    varint_bytes(p.request_id, le) + headers_bytes(p.headers, le) + payload_bytes(p.payload, le)
}

/// What a packet at the start of `s` reads as.
pub open spec fn parse_packet_spec(s: Seq<u8>, le: bool) -> Result<(PacketView, int)> {
    match parse_unsigned_spec(s, le) {
        Err(e) => Err(e),
        Ok((request_id, n1)) => {
            let s1 = s.skip(n1);
            match parse_headers_spec(s1, le) {
                Err(e) => Err(e),
                Ok((headers, n2)) => match parse_payload_spec(s1.skip(n2), le) {
                    Err(e) => Err(e),
                    Ok((payload, n3)) => Ok(
                        (PacketView { request_id, headers, payload }, n1 + n2 + n3),
                    ),
                },
            }
        },
    }
}

impl Wire for Packet {
    open spec fn wire_valid(v: PacketView) -> bool {
        <Headers as Wire>::wire_valid(v.headers) && <Payload as Wire>::wire_valid(v.payload)
    }

    open spec fn wire_bytes(v: PacketView, le: bool) -> Seq<u8> {
        packet_bytes(v, le)
    }

    open spec fn wire_parse(s: Seq<u8>, le: bool) -> Result<(PacketView, int)> {
        parse_packet_spec(s, le)
    }

    proof fn lemma_wire_roundtrip(v: PacketView, le: bool, rest: Seq<u8>) {
        let a1 = varint_bytes(v.request_id, le);
        let a2 = headers_bytes(v.headers, le);
        let a3 = payload_bytes(v.payload, le);
        let r3 = a3 + rest;
        let r2 = a2 + r3;
        assert(packet_bytes(v, le) + rest =~= a1 + r2);
        lemma_varint_roundtrip(v.request_id, le, r2);
        lemma_skip_prefix(a1, r2);
        <Headers as Wire>::lemma_wire_roundtrip(v.headers, le, r3);
        lemma_skip_prefix(a2, r3);
        <Payload as Wire>::lemma_wire_roundtrip(v.payload, le, rest);
    }

    fn serialize(&self, s: &mut Serializer) {
        s.serialize_u64(self.request_id);
        self.headers.serialize(s);
        self.payload.serialize(s);
        assert(s@ =~= old(s)@ + packet_bytes(self@, old(s).is_le()));
    }

    fn deserialize(d: &mut Deserializer) -> (r: Result<Self>) {
        let ghost d0 = *d;
        let request_id = d.deserialize_u64()?;
        let ghost d1 = *d;
        let headers = Headers::deserialize(d)?;
        let ghost d2 = *d;
        let payload = Payload::deserialize(d)?;
        proof {
            Deserializer::lemma_advanced_trans(d0, d1, d2, d1.pos() - d0.pos(), d2.pos() - d1.pos());
            Deserializer::lemma_advanced_trans(d0, d2, *d, d2.pos() - d0.pos(), d.pos() - d2.pos());
        }
        Ok(Packet { request_id, headers, payload })
    }
}

} // verus!

verus! {

/// The wire form of a message is its fields in declaration order: sender,
/// recipient, timestamp, sequence number, type and content; and bytes laid out
/// that way read back with the first number as the sender and the second as
/// the recipient, whatever follows them.
pub proof fn lemma_message_layout(
    from: u64,
    to: u64,
    timestamp: u64,
    seq: u32,
    msg_type: Seq<char>,
    content: Seq<char>,
    le: bool,
    rest: Seq<u8>,
)
    requires
        text_fits(msg_type),
        text_fits(content),
    ensures
        ({
            let m = MessageView { from, to, timestamp, seq, msg_type, content };
            let bytes = varint_bytes(from, le) + varint_bytes(to, le) + varint_bytes(timestamp, le)
                + varint_bytes(seq as u64, le) + str_bytes(msg_type, le) + str_bytes(content, le);
            &&& <Message as Wire>::wire_bytes(m, le) == bytes
            &&& <Message as Wire>::wire_parse(bytes + rest, le) == Ok::<(MessageView, int), Error>(
                (m, bytes.len() as int),
            )
        }),
{
    let m = MessageView { from, to, timestamp, seq, msg_type, content };
    <Message as Wire>::lemma_wire_roundtrip(m, le, rest);
}

/// Each payload goes out as the name of its own variant, then its fields in
/// declaration order.
pub proof fn lemma_payload_layout(p: PayloadView, le: bool)
    ensures
        <Payload as Wire>::wire_bytes(p, le) == match p {
            PayloadView::Error { code, message } => str_bytes("Error"@, le) + varint_bytes(
                code as u64,
                le,
            ) + str_bytes(message, le),
            PayloadView::Login { token, version, user_agent, timestamp } => str_bytes(
                "Login"@,
                le,
            ) + str_bytes(token, le) + str_bytes(version, le) + str_bytes(user_agent, le)
                + varint_bytes(timestamp, le),
            PayloadView::Logout => str_bytes("Logout"@, le),
            PayloadView::Ping(n) => str_bytes("Ping"@, le) + varint_bytes(n, le),
            PayloadView::Pong(n) => str_bytes("Pong"@, le) + varint_bytes(n, le),
            PayloadView::Message(m) => str_bytes("Message"@, le) + varint_bytes(m.from, le)
                + varint_bytes(m.to, le) + varint_bytes(m.timestamp, le) + varint_bytes(
                m.seq as u64,
                le,
            ) + str_bytes(m.msg_type, le) + str_bytes(m.content, le),
            PayloadView::MessageCliAck => str_bytes("MessageCliAck"@, le),
            PayloadView::MessageSrvAck => str_bytes("MessageSrvAck"@, le),
        },
{
    match p {
        PayloadView::Error { code, message } => {
            assert(payload_bytes(p, le) =~= str_bytes("Error"@, le) + varint_bytes(code as u64, le)
                + str_bytes(message, le));
        },
        PayloadView::Login { token, version, user_agent, timestamp } => {
            assert(payload_bytes(p, le) =~= str_bytes("Login"@, le) + str_bytes(token, le)
                + str_bytes(version, le) + str_bytes(user_agent, le) + varint_bytes(timestamp, le));
        },
        PayloadView::Ping(n) => {},
        PayloadView::Pong(n) => {},
        PayloadView::Message(m) => {
            assert(payload_bytes(p, le) =~= str_bytes("Message"@, le) + varint_bytes(m.from, le)
                + varint_bytes(m.to, le) + varint_bytes(m.timestamp, le) + varint_bytes(
                m.seq as u64,
                le,
            ) + str_bytes(m.msg_type, le) + str_bytes(m.content, le));
        },
        _ => {
            assert(payload_bytes(p, le) =~= str_bytes(payload_tag(p), le));
        },
    }
}

/// Reading a payload goes by its name: the name of a variant without fields,
/// whatever follows it, reads as that variant and takes only the name's bytes.
pub proof fn lemma_payload_names_read(le: bool, rest: Seq<u8>)
    ensures
        <Payload as Wire>::wire_parse(str_bytes("Logout"@, le) + rest, le) == Ok::<
            (PayloadView, int),
            Error,
        >((PayloadView::Logout, str_bytes("Logout"@, le).len() as int)),
        <Payload as Wire>::wire_parse(str_bytes("MessageCliAck"@, le) + rest, le) == Ok::<
            (PayloadView, int),
            Error,
        >((PayloadView::MessageCliAck, str_bytes("MessageCliAck"@, le).len() as int)),
        <Payload as Wire>::wire_parse(str_bytes("MessageSrvAck"@, le) + rest, le) == Ok::<
            (PayloadView, int),
            Error,
        >((PayloadView::MessageSrvAck, str_bytes("MessageSrvAck"@, le).len() as int)),
{
    lemma_payload_layout(PayloadView::Logout, le);
    lemma_payload_layout(PayloadView::MessageCliAck, le);
    lemma_payload_layout(PayloadView::MessageSrvAck, le);
    <Payload as Wire>::lemma_wire_roundtrip(PayloadView::Logout, le, rest);
    <Payload as Wire>::lemma_wire_roundtrip(PayloadView::MessageCliAck, le, rest);
    <Payload as Wire>::lemma_wire_roundtrip(PayloadView::MessageSrvAck, le, rest);
}

/// A packet goes out as its request identifier, its headers, then its payload.
pub proof fn lemma_packet_layout(p: PacketView, le: bool)
    ensures
        <Packet as Wire>::wire_bytes(p, le) == varint_bytes(p.request_id, le)
            + <Headers as Wire>::wire_bytes(p.headers, le) + <Payload as Wire>::wire_bytes(
            p.payload,
            le,
        ),
{
}

} // verus!
