//! The packets that the messaging server and its clients exchange.
use crate::connect::extract::heart_beat::PingPongPacket;
use crate::connect::extract::online_state::{state_event_spec, LoginPacket, StateEvent};
use crate::connect::extract::sync_message::RequestIdPacket;
use vstd::prelude::*;

verus! {

/// A chat message, as the message store hands it over.
#[derive(Debug, Clone)]
pub struct Message {
    pub from: u64,
    pub to: u64,
    pub timestamp: u64,
    pub seq: u32,
    pub msg_type: String,
    pub content: String,
}

/// The mathematical value of a [`Message`].
pub struct MessageView {
    pub from: u64,
    pub to: u64,
    pub timestamp: u64,
    pub seq: u32,
    pub msg_type: Seq<char>,
    pub content: Seq<char>,
}

impl View for Message {
    type V = MessageView;

    open spec fn view(&self) -> MessageView {
        MessageView {
            from: self.from,
            to: self.to,
            timestamp: self.timestamp,
            seq: self.seq,
            msg_type: self.msg_type@,
            content: self.content@,
        }
    }
}

/// What a packet carries.
#[derive(Debug, Clone)]
pub enum Payload {
    Error { code: u32, message: String },
    Login { token: String, version: String, user_agent: String, timestamp: u64 },
    Logout,
    Ping(u64),
    Pong(u64),
    Message(Message),
    MessageCliAck,
    MessageSrvAck,
}

/// The mathematical value of a [`Payload`].
pub enum PayloadView {
    Error { code: u32, message: Seq<char> },
    Login { token: Seq<char>, version: Seq<char>, user_agent: Seq<char>, timestamp: u64 },
    Logout,
    Ping(u64),
    Pong(u64),
    Message(MessageView),
    MessageCliAck,
    MessageSrvAck,
}

impl View for Payload {
    type V = PayloadView;

    open spec fn view(&self) -> PayloadView {
        match self {
            Payload::Error { code, message } => PayloadView::Error { code: *code, message: message@ },
            Payload::Login { token, version, user_agent, timestamp } => PayloadView::Login {
                token: token@,
                version: version@,
                user_agent: user_agent@,
                timestamp: *timestamp,
            },
            Payload::Logout => PayloadView::Logout,
            Payload::Ping(n) => PayloadView::Ping(*n),
            Payload::Pong(n) => PayloadView::Pong(*n),
            Payload::Message(m) => PayloadView::Message(m@),
            Payload::MessageCliAck => PayloadView::MessageCliAck,
            Payload::MessageSrvAck => PayloadView::MessageSrvAck,
        }
    }
}

/// The header entries of a packet, as key and value text.
pub type HeadersView = Seq<(Seq<char>, Seq<char>)>;

/// Whether no key occurs twice among the entries.
pub open spec fn distinct_keys(h: HeadersView) -> bool {
    forall|i: int, j: int| 0 <= i < j < h.len() ==> #[trigger] h[i].0 != #[trigger] h[j].0
}

/// Whether `k` is a key among the entries.
pub open spec fn has_key(h: HeadersView, k: Seq<char>) -> bool {
    exists|i: int| 0 <= i < h.len() && #[trigger] h[i].0 == k
}

/// The entries after setting `k` to `v`: an entry with key `k` takes the new
/// value in place, otherwise the pair is added at the end.
pub open spec fn headers_insert(h: HeadersView, k: Seq<char>, v: Seq<char>) -> HeadersView {
    if has_key(h, k) {
        let i = choose|i: int| 0 <= i < h.len() && #[trigger] h[i].0 == k;
        h.update(i, (k, v))
    } else {
        h.push((k, v))
    }
}

/// The value set for `k` among the entries, if any.
pub open spec fn lookup(h: HeadersView, k: Seq<char>) -> Option<Seq<char>> {
    if has_key(h, k) {
        Some(h[choose|i: int| 0 <= i < h.len() && #[trigger] h[i].0 == k].1)
    } else {
        None
    }
}

/// With distinct keys, the entry holding `k` is the one that `lookup` reads.
pub proof fn lemma_lookup_at(h: HeadersView, i: int)
    requires
        distinct_keys(h),
        0 <= i < h.len(),
    ensures
        lookup(h, h[i].0) == Some(h[i].1),
{
    let k = h[i].0;
    assert(has_key(h, k));
    let j = choose|j: int| 0 <= j < h.len() && #[trigger] h[j].0 == k;
    if j != i {
        if j < i {
            assert(h[j].0 != h[i].0);
        } else {
            assert(h[i].0 != h[j].0);
        }
    }
}

/// Setting a key keeps the keys distinct; afterwards the key reads as the new
/// value and every other key reads as before.
pub proof fn lemma_insert_lookup(h: HeadersView, k: Seq<char>, v: Seq<char>, other: Seq<char>)
    requires
        distinct_keys(h),
    ensures
        distinct_keys(headers_insert(h, k, v)),
        lookup(headers_insert(h, k, v), k) == Some(v),
        other != k ==> lookup(headers_insert(h, k, v), other) == lookup(h, other),
{
    let t = headers_insert(h, k, v);
    if has_key(h, k) {
        let i = choose|i: int| 0 <= i < h.len() && #[trigger] h[i].0 == k;
        assert(t == h.update(i, (k, v)));
        assert forall|a: int, b: int| 0 <= a < b < t.len() implies #[trigger] t[a].0
            != #[trigger] t[b].0 by {
            assert(t[a].0 == h[a].0 && t[b].0 == h[b].0);
        }
        lemma_lookup_at(t, i);
        if other != k {
            if has_key(h, other) {
                let j = choose|j: int| 0 <= j < h.len() && #[trigger] h[j].0 == other;
                lemma_lookup_at(h, j);
                assert(t[j] == h[j]);
                lemma_lookup_at(t, j);
            } else {
                assert forall|j: int| 0 <= j < t.len() implies #[trigger] t[j].0 != other by {
                    if j != i {
                        assert(t[j] == h[j]);
                    }
                }
            }
        }
    } else {
        assert(t == h.push((k, v)));
        assert forall|a: int, b: int| 0 <= a < b < t.len() implies #[trigger] t[a].0
            != #[trigger] t[b].0 by {
            if b == h.len() {
                assert(t[a] == h[a]);
            } else {
                assert(t[a] == h[a] && t[b] == h[b]);
            }
        }
        lemma_lookup_at(t, h.len() as int);
        if other != k {
            if has_key(h, other) {
                let j = choose|j: int| 0 <= j < h.len() && #[trigger] h[j].0 == other;
                lemma_lookup_at(h, j);
                assert(t[j] == h[j]);
                lemma_lookup_at(t, j);
            } else {
                assert forall|j: int| 0 <= j < t.len() implies #[trigger] t[j].0 != other by {
                    if j < h.len() {
                        assert(t[j] == h[j]);
                    }
                }
            }
        }
    }
}

/// A map from header names to values, in the order the names were first set.
#[derive(Debug)]
pub struct Headers {
    entries: Vec<(String, String)>,
}

impl View for Headers {
    type V = HeadersView;

    closed spec fn view(&self) -> HeadersView {
        Seq::new(self.entries@.len(), |i: int| (self.entries@[i].0@, self.entries@[i].1@))
    }
}

impl Headers {
    #[verifier::type_invariant]
    spec fn inv(&self) -> bool {
        distinct_keys(self@)
    }

    /// No key occurs twice.
    pub fn distinct(&self)
        ensures
            distinct_keys(self@),
    {
        proof {
            use_type_invariant(self);
        }
    }

    /// An empty map.
    pub fn new() -> (h: Self)
        ensures
            h@ == Seq::<(Seq<char>, Seq<char>)>::empty(),
    {
        let h = Headers { entries: Vec::new() };
        assert(h@ =~= Seq::<(Seq<char>, Seq<char>)>::empty());
        h
    }

    /// The number of entries.
    pub fn len(&self) -> (n: usize)
        ensures
            n == self@.len(),
    {
        self.entries.len()
    }

    /// The key and value of entry `i`.
    pub fn entry(&self, i: usize) -> (r: (&String, &String))
        requires
            i < self@.len(),
        ensures
            r.0@ == self@[i as int].0,
            r.1@ == self@[i as int].1,
    {
        let e = &self.entries[i];
        (&e.0, &e.1)
    }

    /// Sets `key` to `value`, and hands back the value it replaced, if any.
    pub fn insert(&mut self, key: String, value: String) -> (r: Option<String>)
        ensures
            final(self)@ == headers_insert(old(self)@, key@, value@),
            match lookup(old(self)@, key@) {
                Some(o) => r matches Some(x) && x@ == o,
                None => r is None,
            },
    {
        proof {
            use_type_invariant(&*self);
        }
        let ghost h = self@;
        let mut entries: Vec<(String, String)> = Vec::new();
        std::mem::swap(&mut entries, &mut self.entries);
        let n = entries.len();
        let mut i: usize = 0;
        while i < n
            invariant
                n == entries@.len(),
                h == Seq::new(entries@.len(), |j: int| (entries@[j].0@, entries@[j].1@)),
                h == old(self)@,
                distinct_keys(h),
                i <= n,
                forall|j: int| 0 <= j < i ==> #[trigger] h[j].0 != key@,
            decreases n - i,
        {
            if entries[i].0 == key {
                proof {
                    assert(h[i as int].0 == key@);
                    assert forall|j: int| 0 <= j < h.len() && #[trigger] h[j].0 == key@ implies j
                        == i by {
                        if j != i {
                            if j < i {
                                assert(h[j].0 != h[i as int].0);
                            } else {
                                assert(h[i as int].0 != h[j].0);
                            }
                        }
                    }
                    assert(has_key(h, key@));
                }
                let ghost kv = key@;
                let ghost vv = value@;
                let ghost old_entries = entries@;
                let entry = entries.remove(i);
                entries.insert(i, (key, value));
                let ghost nh = Seq::new(entries@.len(), |j: int| (entries@[j].0@, entries@[j].1@));
                proof {
                    assert(entries@ =~= old_entries.update(i as int, entries@[i as int]));
                    assert(entry.1@ == h[i as int].1);
                    assert(nh =~= h.update(i as int, (kv, vv)));
                    assert(nh =~= headers_insert(h, key@, value@));
                    assert(distinct_keys(nh));
                }
                self.entries = entries;
                assert(self@ =~= nh);
                assert(h[i as int].0 == kv && h[i as int].1 == entry.1@);
                proof {
                    lemma_lookup_at(h, i as int);
                }
                return Some(entry.1);
            }
            i = i + 1;
        }
        assert(!has_key(h, key@));
        entries.push((key, value));
        let ghost nh = Seq::new(entries@.len(), |j: int| (entries@[j].0@, entries@[j].1@));
        assert(nh =~= h.push((key@, value@)));
        self.entries = entries;
        assert(self@ =~= nh);
        None
    }

    /// The value set for `key`, if any.
    pub fn get(&self, key: &String) -> (r: Option<&String>)
        ensures
            match lookup(self@, key@) {
                Some(v) => r matches Some(x) && x@ == v,
                None => r is None,
            },
    {
        let n = self.entries.len();
        let mut i: usize = 0;
        while i < n
            invariant
                n == self.entries@.len(),
                i <= n,
                forall|j: int| 0 <= j < i ==> #[trigger] self@[j].0 != key@,
            decreases n - i,
        {
            if self.entries[i].0 == *key {
                proof {
                    use_type_invariant(self);
                    lemma_lookup_at(self@, i as int);
                }
                return Some(&self.entries[i].1);
            }
            i = i + 1;
        }
        None
    }
}

impl Clone for Headers {
    fn clone(&self) -> (r: Self)
        ensures
            r@ == self@,
    {
        proof {
            use_type_invariant(self);
        }
        let mut entries: Vec<(String, String)> = Vec::new();
        let n = self.entries.len();
        let mut i: usize = 0;
        while i < n
            invariant
                n == self.entries@.len(),
                i <= n,
                entries@.len() == i,
                forall|j: int|
                    0 <= j < i ==> (#[trigger] entries@[j]).0@ == self.entries@[j].0@
                        && entries@[j].1@ == self.entries@[j].1@,
            decreases n - i,
        {
            let e = &self.entries[i];
            entries.push((e.0.clone(), e.1.clone()));
            i = i + 1;
        }
        assert(Seq::new(entries@.len(), |j: int| (entries@[j].0@, entries@[j].1@)) =~= self@);
        Headers { entries }
    }
}

/// A packet: a request identifier that pairs requests with their answers,
/// header entries, and a payload.
#[derive(Debug, Clone)]
pub struct Packet {
    pub request_id: u64,
    pub headers: Headers,
    pub payload: Payload,
}

/// The mathematical value of a [`Packet`].
pub struct PacketView {
    pub request_id: u64,
    pub headers: HeadersView,
    pub payload: PayloadView,
}

impl View for Packet {
    type V = PacketView;

    open spec fn view(&self) -> PacketView {
        PacketView { request_id: self.request_id, headers: self.headers@, payload: self.payload@ }
    }
}

impl Packet {
    /// A packet with the given parts.
    pub fn new(request_id: u64, headers: Headers, payload: Payload) -> (p: Self)
        ensures
            p.request_id == request_id,
            p.headers@ == headers@,
            p.payload@ == payload@,
    {
        Self { request_id, headers, payload }
    }
}

impl RequestIdPacket for Packet {
    type ID = u64;

    fn request_id(&self) -> (r: u64)
        ensures
            r == self.request_id,
    {
        self.request_id
    }
}

impl LoginPacket for Packet {
    open spec fn spec_login(&self) -> bool {
        self.payload is Login
    }

    open spec fn spec_logout(&self) -> bool {
        self.payload is Logout
    }

    /// Whether the payload is a login.
    fn login_packet(&self) -> (r: bool)
        ensures
            r <==> self.payload@ is Login,
    {
        matches!(self.payload, Payload::Login { .. })
    }

    /// Whether the payload is a logout.
    fn logout_packet(&self) -> (r: bool)
        ensures
            r <==> self.payload@ is Logout,
    {
        matches!(self.payload, Payload::Logout)
    }
}

/// How the online-state processor classifies a packet: a login payload, and
/// nothing else, makes a login event; a logout payload, and nothing else, makes
/// a logout event; every other payload (a chat message, an acknowledgement, a
/// ping) is passed on as it is, with what is known of the connection's user.
pub proof fn lemma_packet_state_event<ID, E>(
    p: Packet,
    auth: Option<Result<ID, E>>,
    user: Option<ID>,
    since_last_sync: Option<u128>,
)
    ensures
        p.spec_login() <==> p.payload@ is Login,
        p.spec_logout() <==> p.payload@ is Logout,
        p.payload@ is Login ==> state_event_spec(&p, auth, user, since_last_sync) == match auth {
            Some(x) => Some(StateEvent::<ID, E>::Login(x)),
            None => None,
        },
        p.payload@ is Logout ==> state_event_spec(&p, auth, user, since_last_sync) == Some(
            StateEvent::<ID, E>::Logout,
        ),
        !(p.payload@ is Login) && !(p.payload@ is Logout) ==> state_event_spec(
            &p,
            auth,
            user,
            since_last_sync,
        ) == Some(StateEvent::<ID, E>::Other { user, since_last_sync }),
        !(p.payload@ is Logout) ==> !(state_event_spec(&p, auth, user, since_last_sync) matches Some(
            StateEvent::Logout,
        )),
        !(p.payload@ is Login) ==> !(state_event_spec(&p, auth, user, since_last_sync) matches Some(
            StateEvent::Login(_),
        )),
{
}

impl PingPongPacket for Packet {
    open spec fn is_ping(&self) -> bool {
        self.payload is Ping
    }

    fn ping(&self) -> (r: bool) {
        match self.payload {
            Payload::Ping(_) => true,
            _ => false,
        }
    }

    fn pong(&self) -> (r: bool)
        ensures
            r == (self.payload is Pong),
    {
        match self.payload {
            Payload::Pong(_) => true,
            _ => false,
        }
    }

    /// The pong for this ping: same request identifier, no headers, same nonce.
    fn gen_pong(&self) -> (r: Self)
        ensures
            r.request_id == self.request_id,
            r.headers@ == Seq::<(Seq<char>, Seq<char>)>::empty(),
            r.payload@ == PayloadView::Pong(self.payload->Ping_0),
    {
        match self.payload {
            Payload::Ping(nonce) => Packet::new(self.request_id, Headers::new(), Payload::Pong(nonce)),
            _ => {
                assert(false);
                Packet::new(self.request_id, Headers::new(), Payload::Logout)
            },
        }
    }
}

} // verus!
