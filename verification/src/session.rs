//! Per-connection session state.

use std::time::Duration;

use vstd::prelude::*;

verus! {

/// Session phase.
#[derive(Debug, Clone, Copy, PartialEq, Eq)]
#[non_exhaustive]
pub enum SessionState {
    /// Normal request/response loop: non-directive lines are queries.
    Query,
    /// Inside `-register on … -register off`: non-directive lines are
    /// appended to the registration spool.
    Spool,
}

/// The duration of `secs` whole seconds, as `Duration::from_secs` gives
/// it.
pub uninterp spec fn duration_of_secs(secs: u64) -> Duration;

/// `Duration::from_secs`: the duration of `secs` seconds, which depends on
/// `secs` alone; it never panics.
#[verifier::external_body]
fn duration_from_secs(secs: u64) -> (d: Duration)
    ensures
        d == duration_of_secs(secs),
{
    Duration::from_secs(secs)
}

/// `<Duration as Clone>::clone`: `Duration` is `Copy`, and its clone is
/// the same value.
pub assume_specification[ <Duration as Clone>::clone ](d: &Duration) -> (r: Duration)
    ensures
        r == *d,
;

/// Mutable per-connection state: the phase and the per-connection settings
/// (`hit_limit`, `hold_connect`, `forward`, `display`) that directives
/// change. The peer address is kept by the connection that owns the
/// session.
#[derive(Debug, Clone)]
#[non_exhaustive]
pub struct Session {
    /// Current phase.
    pub state: SessionState,
    /// Hold the connection open after a query? Default `false`.
    pub hold_connect: bool,
    /// Maximum number of objects to return per query.
    pub hit_limit: usize,
    /// Whether the server should follow referrals on behalf of the client.
    pub forward: bool,
    /// Display format name (`"dump"` is the only built-in).
    pub display: String,
    /// Whether `-security` has placed the session in secure mode.
    pub secure_mode: bool,
    /// Client implementation string from `-rwhois`.
    pub client_vendor_id: Option<String>,
    /// Idle timeout applied between client lines.
    pub idle_timeout: Duration,
    /// Email associated with an in-flight `-register`.
    pub register_email: Option<String>,
    /// Action of an in-flight `-register` (`add`/`mod`/`del`).
    pub register_action: Option<String>,
}

/// The idle timeout of a new session, in seconds.
pub const DEFAULT_IDLE_SECS: u64 = 120;

/// The name of the built-in display format.
pub open spec fn dump_name() -> Seq<char> {
    seq!['d', 'u', 'm', 'p']
}

/// No registration is in flight: query phase, no action or email kept.
pub open spec fn registration_idle(s: Session) -> bool {
    &&& s.state == SessionState::Query
    &&& s.register_action is None
    &&& s.register_email is None
}

/// The settings that only directives other than `-register` change.
pub open spec fn same_settings(a: Session, b: Session) -> bool {
    &&& a.hold_connect == b.hold_connect
    &&& a.hit_limit == b.hit_limit
    &&& a.forward == b.forward
    &&& a.display@ == b.display@
    &&& a.secure_mode == b.secure_mode
    &&& a.client_vendor_id == b.client_vendor_id
    &&& a.idle_timeout == b.idle_timeout
}

impl Session {
    /// A session with the default settings: query phase, no
    /// hold-connect, no hit limit, no forwarding, `dump` display, a
    /// 120-second idle timeout and no registration in flight.
    pub fn new() -> (s: Session)
        ensures
            registration_idle(s),
            !s.hold_connect,
            s.hit_limit == 0,
            !s.forward,
            s.display@ == dump_name(),
            !s.secure_mode,
            s.client_vendor_id is None,
            s.idle_timeout == duration_of_secs(DEFAULT_IDLE_SECS),
            DEFAULT_IDLE_SECS == 120,
    {
        let display = "dump".to_owned();
        proof {
            reveal_strlit("dump");
        }
        Session {
            state: SessionState::Query,
            hold_connect: false,
            hit_limit: 0,
            forward: false,
            display,
            secure_mode: false,
            client_vendor_id: None,
            idle_timeout: duration_from_secs(DEFAULT_IDLE_SECS),
            register_email: None,
            register_action: None,
        }
    }

    /// True iff the session is spooling registration lines.
    pub fn is_spooling(&self) -> (b: bool)
        ensures
            b == (self.state == SessionState::Spool),
    {
        match self.state {
            SessionState::Spool => true,
            SessionState::Query => false,
        }
    }

    /// Enter the spool phase of a registration (`-register on`), keeping
    /// its action and email.
    pub fn begin_registration(&mut self, action: String, email: String)
        ensures
            *final(self) == began(*old(self), action, email),
    {
        self.state = SessionState::Spool;
        self.register_action = Some(action);
        self.register_email = Some(email);
    }

    /// Leave the spool phase (`-register off`), forgetting the
    /// registration's action and email.
    pub fn end_registration(&mut self)
        ensures
            *final(self) == ended(*old(self)),
    {
        self.state = SessionState::Query;
        self.register_action = None;
        self.register_email = None;
    }
}

/// The session once a registration with `action` and `email` has begun.
pub open spec fn began(s: Session, action: String, email: String) -> Session {
    Session {
        state: SessionState::Spool,
        register_action: Some(action),
        register_email: Some(email),
        ..s
    }
}

/// The session once a registration has ended.
pub open spec fn ended(s: Session) -> Session {
    Session { state: SessionState::Query, register_action: None, register_email: None, ..s }
}

/// While a registration is in flight the session spools; ending it leaves
/// the session as if the registration had never begun: back in the query
/// phase, with no action or email kept and every other setting as before.
pub proof fn lemma_registration_round_trip(s: Session, action: String, email: String)
    ensures
        began(s, action, email).state == SessionState::Spool,
        ended(began(s, action, email)) == ended(s),
        registration_idle(ended(s)),
        same_settings(s, ended(began(s, action, email))),
{
}

} // verus!
