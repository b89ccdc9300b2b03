//! The messaging server's rules: acknowledging stored messages, numbering
//! the requests it sends down each connection, and judging the answers.
use crate::im::error::ImError;
use crate::im::packet::{Headers, Message, Packet, PacketView, Payload, PayloadView};
use vstd::prelude::*;

verus! {

/// A message that could not be stored.
#[derive(Debug, Clone)]
pub struct StoreError {
    pub code: u32,
    pub message: String,
}

/// What a delivered message's answer means: the client's error, success on
/// its acknowledgement, or a fault on anything else.
pub fn response_result(resp: Payload) -> (r: Result<(), ImError>)
    ensures
        match resp@ {
            PayloadView::Error { code, message } => r matches Err(ImError::Custom { code: c, message: m })
                && c == code && m@ == message,
            PayloadView::MessageCliAck => r is Ok,
            _ => r matches Err(ImError::UndefinedBehavior),
        },
{
    match resp {
        Payload::Error { code, message } => Err(ImError::Custom { code, message }),
        Payload::MessageCliAck => Ok(()),
        _ => Err(ImError::UndefinedBehavior),
    }
}

/// What the server does with a packet from a client.
pub enum ServerStep {
    /// Deliver the message to its recipient, then send the acknowledgement.
    Deliver { message: Message, ack: Packet },
    /// The client logged in: start numbering requests to it afresh.
    ResetRequestIds,
    /// Nothing to do.
    Ignore,
}

/// The server's step for a packet: a message is delivered and acknowledged
/// under its request, a login resets the request numbers, the rest is ignored.
pub fn server_on_packet(packet: Packet) -> (s: ServerStep)
    ensures
        match packet.payload@ {
            PayloadView::Message(m) => s matches ServerStep::Deliver { message, ack } && message@ == m
                && ack@ == (PacketView {
                request_id: packet.request_id,
                headers: Seq::empty(),
                payload: PayloadView::MessageSrvAck,
            }),
            PayloadView::Login { .. } => s is ResetRequestIds,
            _ => s is Ignore,
        },
{
    let request_id = packet.request_id;
    match packet.payload {
        Payload::Message(message) => ServerStep::Deliver {
            message,
            ack: Packet::new(request_id, Headers::new(), Payload::MessageSrvAck),
        },
        Payload::Login { .. } => ServerStep::ResetRequestIds,
        _ => ServerStep::Ignore,
    }
}

/// The packet that delivers `msg` under request `request_id`.
pub fn delivery_packet(request_id: u64, msg: Message) -> (p: Packet)
    ensures
        p@ == (PacketView {
            request_id,
            headers: Seq::empty(),
            payload: PayloadView::Message(msg@),
        }),
{
    Packet::new(request_id, Headers::new(), Payload::Message(msg))
}

/// Whether no connection occurs twice among the counters.
pub open spec fn distinct_connections(s: Seq<(Seq<char>, u64)>) -> bool {
    forall|i: int, j: int| 0 <= i < j < s.len() ==> #[trigger] s[i].0 != #[trigger] s[j].0
}

/// The counter of a connection, if it has one.
pub open spec fn counter_of(s: Seq<(Seq<char>, u64)>, conn: Seq<char>) -> Option<u64>
    decreases s.len(),
{
    if s.len() == 0 {
        None
    } else if s.last().0 == conn {
        Some(s.last().1)
    } else {
        counter_of(s.drop_last(), conn)
    }
}

/// The request identifiers the server hands out, one counter per
/// connection: a counter starts at `u64::MAX` and counts down, wrapping
/// below zero.
pub struct RequestIds {
    counters: Vec<(String, u64)>,
}

impl View for RequestIds {
    type V = Seq<(Seq<char>, u64)>;

    closed spec fn view(&self) -> Seq<(Seq<char>, u64)> {
        Seq::new(self.counters@.len(), |i: int| (self.counters@[i].0@, self.counters@[i].1))
    }
}

impl RequestIds {
    #[verifier::type_invariant]
    spec fn inv(&self) -> bool {
        distinct_connections(self@)
    }

    /// The counter of `conn`, if it has one.
    pub open spec fn counter(&self, conn: Seq<char>) -> Option<u64> {
        counter_of(self@, conn)
    }

    /// No connection has a counter yet.
    pub fn new() -> (r: Self)
        ensures
            forall|c: Seq<char>| r.counter(c) is None,
    {
        let r = RequestIds { counters: Vec::new() };
        assert(r@ =~= Seq::<(Seq<char>, u64)>::empty());
        r
    }

    fn find(&self, conn: &String) -> (r: Option<usize>)
        ensures
            match r {
                Some(i) => i < self@.len() && self@[i as int].0 == conn@ && self.counter(conn@) == Some(
                    self@[i as int].1,
                ),
                None => self.counter(conn@) is None,
            },
    {
        proof {
            use_type_invariant(self);
        }
        let n = self.counters.len();
        let mut i: usize = n;
        assert(self@.take(n as int) =~= self@);
        while i > 0
            invariant
                n == self@.len(),
                i <= n,
                distinct_connections(self@),
                counter_of(self@, conn@) == counter_of(self@.take(i as int), conn@),
            decreases i,
        {
            let ghost s = self@.take(i as int);
            assert(s.drop_last() =~= self@.take(i - 1));
            if self.counters[i - 1].0 == *conn {
                return Some(i - 1);
            }
            i = i - 1;
        }
        None
    }

    /// Whether `conn` has a counter.
    pub fn contains(&self, conn: &String) -> (r: bool)
        ensures
            r == (self.counter(conn@) is Some),
    {
        self.find(conn).is_some()
    }

    /// Starts the counter of `conn` afresh at `u64::MAX`; the counters of the
    /// other connections stay as they were.
    pub fn reset(&mut self, conn: String)
        ensures
            final(self).counter(conn@) == Some(u64::MAX),
            forall|c: Seq<char>| c != conn@ ==> final(self).counter(c) == old(self).counter(c),
    {
        proof {
            use_type_invariant(&*self);
        }
        self.remove(&conn);
        proof {
            use_type_invariant(&*self);
        }
        let ghost s = self@;
        let mut counters: Vec<(String, u64)> = Vec::new();
        std::mem::swap(&mut counters, &mut self.counters);
        let ghost key = conn@;
        counters.push((conn, u64::MAX));
        let ghost t = Seq::new(counters@.len(), |i: int| (counters@[i].0@, counters@[i].1));
        assert(t =~= s.push((key, u64::MAX)));
        assert(t.drop_last() =~= s);
        assert forall|i: int, j: int| 0 <= i < j < t.len() implies #[trigger] t[i].0
            != #[trigger] t[j].0 by {
            if j == t.len() - 1 {
                if t[i].0 == key {
                    lemma_counter_found(s, key, i);
                }
            }
        }
        self.counters = counters;
        assert(self@ =~= t);
    }

    /// Forgets the counter of `conn`; the others stay as they were.
    pub fn remove(&mut self, conn: &String)
        ensures
            final(self).counter(conn@) is None,
            forall|c: Seq<char>| c != conn@ ==> final(self).counter(c) == old(self).counter(c),
    {
        proof {
            use_type_invariant(&*self);
        }
        match self.find(conn) {
            None => {},
            Some(i) => {
                let ghost s = self@;
                let mut counters: Vec<(String, u64)> = Vec::new();
                std::mem::swap(&mut counters, &mut self.counters);
                let _ = counters.remove(i);
                let ghost t = Seq::new(counters@.len(), |k: int| (counters@[k].0@, counters@[k].1));
                assert(t =~= s.remove(i as int));
                proof {
                    lemma_counter_remove(s, i as int);
                }
                self.counters = counters;
                assert(self@ =~= t);
            },
        }
    }

    /// Hands out the next request identifier for `conn`: the counter's value,
    /// after which the counter goes one down, wrapping below zero. A
    /// connection without a counter has no identifier to wait for, which
    /// `requires` leaves out.
    pub fn next_id(&mut self, conn: &String) -> (id: u64)
        requires
            old(self).counter(conn@) is Some,
        ensures
            Some(id) == old(self).counter(conn@),
            final(self).counter(conn@) == Some(
                if id == 0 {
                    u64::MAX
                } else {
                    (id - 1) as u64
                },
            ),
            forall|c: Seq<char>| c != conn@ ==> final(self).counter(c) == old(self).counter(c),
    {
        proof {
            use_type_invariant(&*self);
        }
        let i = self.find(conn).unwrap();
        let ghost s = self@;
        let id = self.counters[i].1;
        let next = if id == 0 {
            u64::MAX
        } else {
            id - 1
        };
        let mut counters: Vec<(String, u64)> = Vec::new();
        std::mem::swap(&mut counters, &mut self.counters);
        let (name, _) = counters.remove(i);
        counters.insert(i, (name, next));
        let ghost t = Seq::new(counters@.len(), |k: int| (counters@[k].0@, counters@[k].1));
        assert(t =~= s.update(i as int, (conn@, next)));
        proof {
            lemma_counter_update(s, i as int, next);
        }
        self.counters = counters;
        assert(self@ =~= t);
        id
    }
}

/// A connection found at index `i` has its counter there.
proof fn lemma_counter_found(s: Seq<(Seq<char>, u64)>, c: Seq<char>, i: int)
    requires
        distinct_connections(s),
        0 <= i < s.len(),
        s[i].0 == c,
    ensures
        counter_of(s, c) == Some(s[i].1),
    decreases s.len(),
{
    if i < s.len() - 1 {
        assert(s.last().0 != c);
        lemma_counter_found(s.drop_last(), c, i);
    }
}

/// A connection that occurs nowhere has no counter.
proof fn lemma_counter_absent(s: Seq<(Seq<char>, u64)>, c: Seq<char>)
    requires
        forall|i: int| 0 <= i < s.len() ==> #[trigger] s[i].0 != c,
    ensures
        counter_of(s, c) is None,
    decreases s.len(),
{
    if s.len() > 0 {
        lemma_counter_absent(s.drop_last(), c);
    }
}

/// Where a connection's counter comes from: absent means nowhere in `s`,
/// present means at some index.
proof fn lemma_counter_source(s: Seq<(Seq<char>, u64)>, c: Seq<char>)
    ensures
        counter_of(s, c) is None ==> forall|i: int| 0 <= i < s.len() ==> #[trigger] s[i].0 != c,
        counter_of(s, c) matches Some(v) ==> exists|i: int|
            0 <= i < s.len() && #[trigger] s[i].0 == c && s[i].1 == v,
    decreases s.len(),
{
    if s.len() > 0 {
        lemma_counter_source(s.drop_last(), c);
        if counter_of(s, c) is Some && s.last().0 == c {
            assert(s[s.len() - 1].0 == c);
        }
        if counter_of(s, c) is None {
            assert forall|i: int| 0 <= i < s.len() implies #[trigger] s[i].0 != c by {
                if i < s.len() - 1 {
                    assert(s.drop_last()[i] == s[i]);
                }
            }
        } else if s.last().0 != c {
            let v = counter_of(s, c)->Some_0;
            let i = choose|i: int| 0 <= i < s.len() - 1 && #[trigger] s.drop_last()[i].0 == c
                && s.drop_last()[i].1 == v;
            assert(s[i] == s.drop_last()[i]);
        }
    }
}

/// Removing the entry at `i` forgets its connection and keeps the others.
proof fn lemma_counter_remove(s: Seq<(Seq<char>, u64)>, i: int)
    requires
        distinct_connections(s),
        0 <= i < s.len(),
    ensures
        distinct_connections(s.remove(i)),
        counter_of(s.remove(i), s[i].0) is None,
        forall|c: Seq<char>| c != s[i].0 ==> counter_of(s.remove(i), c) == counter_of(s, c),
{
    let t = s.remove(i);
    assert forall|a: int, b: int| 0 <= a < b < t.len() implies #[trigger] t[a].0
        != #[trigger] t[b].0 by {
        let a2 = if a < i { a } else { a + 1 };
        let b2 = if b < i { b } else { b + 1 };
        assert(t[a] == s[a2] && t[b] == s[b2]);
    }
    assert forall|k: int| 0 <= k < t.len() implies #[trigger] t[k].0 != s[i].0 by {
        let k2 = if k < i { k } else { k + 1 };
        assert(t[k] == s[k2]);
    }
    lemma_counter_absent(t, s[i].0);
    assert forall|c: Seq<char>| c != s[i].0 implies counter_of(t, c) == counter_of(s, c) by {
        lemma_counter_source(s, c);
        lemma_counter_source(t, c);
        if let Some(v) = counter_of(s, c) {
            let k = choose|k: int| 0 <= k < s.len() && #[trigger] s[k].0 == c && s[k].1 == v;
            let k2 = if k < i { k } else { k - 1 };
            assert(t[k2] == s[k]);
            lemma_counter_found(t, c, k2);
        } else {
            assert forall|k: int| 0 <= k < t.len() implies #[trigger] t[k].0 != c by {
                let k2 = if k < i { k } else { k + 1 };
                assert(t[k] == s[k2]);
            }
            lemma_counter_absent(t, c);
        }
    }
}

/// Setting the counter at `i` changes that connection's counter only.
proof fn lemma_counter_update(s: Seq<(Seq<char>, u64)>, i: int, v: u64)
    requires
        distinct_connections(s),
        0 <= i < s.len(),
    ensures
        distinct_connections(s.update(i, (s[i].0, v))),
        counter_of(s.update(i, (s[i].0, v)), s[i].0) == Some(v),
        forall|c: Seq<char>| c != s[i].0 ==> counter_of(s.update(i, (s[i].0, v)), c) == counter_of(
            s,
            c,
        ),
{
    let t = s.update(i, (s[i].0, v));
    assert forall|a: int, b: int| 0 <= a < b < t.len() implies #[trigger] t[a].0
        != #[trigger] t[b].0 by {
        assert(t[a].0 == s[a].0 && t[b].0 == s[b].0);
    }
    lemma_counter_found(t, s[i].0, i);
    assert forall|c: Seq<char>| c != s[i].0 implies counter_of(t, c) == counter_of(s, c) by {
        lemma_counter_source(s, c);
        if let Some(w) = counter_of(s, c) {
            let k = choose|k: int| 0 <= k < s.len() && #[trigger] s[k].0 == c && s[k].1 == w;
            assert(t[k] == s[k]);
            lemma_counter_found(t, c, k);
        } else {
            assert forall|k: int| 0 <= k < t.len() implies #[trigger] t[k].0 != c by {
                if k != i {
                    assert(t[k] == s[k]);
                }
            }
            lemma_counter_absent(t, c);
        }
    }
}

} // verus!
