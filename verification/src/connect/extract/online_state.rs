//! Online state: logging users in and out, and telling the state server
//! which connection a user is on.
use crate::connect::extract::IntoPacket;
use vstd::prelude::*;

verus! {

/// A packet that may log a user in or out.
pub trait LoginPacket: Sized {
    /// Whether the packet is a login.
    spec fn spec_login(&self) -> bool;

    /// Whether the packet is a logout.
    spec fn spec_logout(&self) -> bool;

    fn login_packet(&self) -> (r: bool)
        ensures
            r == self.spec_login(),
    ;

    fn logout_packet(&self) -> (r: bool)
        ensures
            r == self.spec_logout(),
    ;
}

/// Turns a login packet into the user it stands for.
pub trait AuthServer<P: LoginPacket, ID> {
    type Error: IntoPacket<P>;

    /// The packets that `auth` accepts as input.
    spec fn admits(&self, packet: &P) -> bool;

    fn auth(&self, packet: &P) -> Result<ID, Self::Error>
        requires
            self.admits(packet),
    ;
}

} // verus!

verus! {

/// What the online-state processor learns about a packet.
pub enum StateEvent<ID, E> {
    /// A login, with what authentication made of it.
    Login(Result<ID, E>),
    /// A logout.
    Logout,
    /// Any other packet, with the user logged in on the connection, if any,
    /// and the nanoseconds since the state server last heard of it, if ever.
    Other { user: Option<ID>, since_last_sync: Option<u128> },
}

/// What the online-state processor does about a packet.
pub enum StateAction<ID, E> {
    /// Remember the user on the connection, tell the state server, and pass
    /// the packet on.
    LoggedIn(ID),
    /// Answer the packet with the error, and drop it.
    Reject(E),
    /// Close the connection and drop the packet.
    Close,
    /// Tell the state server about this user first, if any, and pass the
    /// packet on.
    Forward { refresh: Option<ID> },
}

/// The processor's step: a login that authenticates logs the user in and one
/// that does not is answered with its error; a logout closes the connection;
/// any other packet closes a connection without a user, and is passed on
/// otherwise, after telling the state server again when it has never heard
/// of the user or has not for longer than the update interval.
pub fn state_step<ID, E>(event: StateEvent<ID, E>, update_interval: u128) -> (a: StateAction<ID, E>)
    ensures
        match event {
            StateEvent::Login(Ok(user)) => a == StateAction::<ID, E>::LoggedIn(user),
            StateEvent::Login(Err(e)) => a == StateAction::<ID, E>::Reject(e),
            StateEvent::Logout => a == StateAction::<ID, E>::Close,
            StateEvent::Other { user: None, .. } => a == StateAction::<ID, E>::Close,
            StateEvent::Other { user: Some(u), since_last_sync: None } => a
                == StateAction::<ID, E>::Forward { refresh: Some(u) },
            StateEvent::Other { user: Some(u), since_last_sync: Some(t) } => a == if t
                > update_interval {
                StateAction::<ID, E>::Forward { refresh: Some(u) }
            } else {
                StateAction::<ID, E>::Forward { refresh: None }
            },
        },
{
    match event {
        StateEvent::Login(Ok(user)) => StateAction::LoggedIn(user),
        StateEvent::Login(Err(e)) => StateAction::Reject(e),
        StateEvent::Logout => StateAction::Close,
        StateEvent::Other { user, since_last_sync } => match user {
            None => StateAction::Close,
            Some(u) => match since_last_sync {
                None => StateAction::Forward { refresh: Some(u) },
                Some(t) => if t > update_interval {
                    StateAction::Forward { refresh: Some(u) }
                } else {
                    StateAction::Forward { refresh: None }
                },
            },
        },
    }
}

/// The event for a packet, as [`state_event`] computes it.
pub open spec fn state_event_spec<P: LoginPacket, ID, E>(
    packet: &P,
    auth: Option<Result<ID, E>>,
    user: Option<ID>,
    since_last_sync: Option<u128>,
) -> Option<StateEvent<ID, E>> {
    if packet.spec_login() {
        match auth {
            Some(x) => Some(StateEvent::<ID, E>::Login(x)),
            None => None,
        }
    } else if packet.spec_logout() {
        Some(StateEvent::<ID, E>::Logout)
    } else {
        Some(StateEvent::<ID, E>::Other { user, since_last_sync })
    }
}

/// The event for a packet: a login, with the outcome of authenticating it
/// (none when it was not authenticated), else a logout, else any other
/// packet with what is known of the connection's user.
pub fn state_event<P: LoginPacket, ID, E>(
    packet: &P,
    auth: Option<Result<ID, E>>,
    user: Option<ID>,
    since_last_sync: Option<u128>,
) -> (r: Option<StateEvent<ID, E>>)
    ensures
        r == state_event_spec(packet, auth, user, since_last_sync),
{
    if packet.login_packet() {
        match auth {
            Some(x) => Some(StateEvent::Login(x)),
            None => None,
        }
    } else if packet.logout_packet() {
        Some(StateEvent::Logout)
    } else {
        Some(StateEvent::Other { user, since_last_sync })
    }
}

} // verus!
