//! The decisions of a server connection: what a request line asks for,
//! how an answer is terminated, when the connection closes, and the
//! replies a connection gets when it idles out or finds the server full.
//! The connection loop that performs the I/O and awaits the handlers
//! calls these between its steps.

use vstd::prelude::*;

use crate::buf::buf_bytes;
use crate::directive::DirectiveOutcome;
use crate::error::Error;
use crate::query::{query_outcome, query_splits, Query};
use crate::session::{Session, SessionState};
use crate::wire::code::ResponseCode;
use crate::wire::request::Request;
use crate::wire::response::{error_text, ok_text, wire_line, write_error, write_ok};

verus! {

/// Default connection cap.
pub const DEFAULT_MAX_CONNECTIONS: usize = 128;

/// The connection cap for a configured maximum: none for `0`.
pub fn connection_cap(max_connections: usize) -> (c: Option<usize>)
    ensures
        max_connections == 0 ==> c is None,
        max_connections != 0 ==> c == Some(max_connections),
{
    if max_connections == 0 {
        None
    } else {
        Some(max_connections)
    }
}

/// How a request was answered, before its terminator is written.
#[derive(Debug, Clone, Copy, PartialEq, Eq)]
pub enum Outcome {
    /// Nothing to terminate (an empty line, a spooled line).
    Silent,
    /// Answered; `%ok` follows.
    Done,
    /// The answer carries its own terminator.
    Handled,
    /// Answered; `%ok` follows and the connection closes.
    Quit,
}

/// The connection outcome of a directive's outcome.
pub fn outcome_of(o: DirectiveOutcome) -> (r: Outcome)
    ensures
        o == DirectiveOutcome::Success ==> r == Outcome::Done,
        o == DirectiveOutcome::Handled ==> r == Outcome::Handled,
        o == DirectiveOutcome::Quit ==> r == Outcome::Quit,
{
    match o {
        DirectiveOutcome::Success => Outcome::Done,
        DirectiveOutcome::Handled => Outcome::Handled,
        DirectiveOutcome::Quit => Outcome::Quit,
    }
}

/// What a request line asks the server to do.
#[derive(Debug)]
pub enum Plan {
    /// Nothing (an empty line).
    Nothing,
    /// Run the directive registered under `name`, if any, with `args`.
    Directive {
        /// Directive key.
        name: String,
        /// Its arguments.
        args: String,
    },
    /// Hand the query to the query handler, then to the referral provider.
    Query(Query),
    /// Hand the line to the registration handler.
    Spool(String),
    /// Answer with this error.
    Fail(Error),
}

/// A plan that fails with the given code and detail.
pub open spec fn fails_with(p: Plan, code: ResponseCode, message: Seq<char>) -> bool {
    p matches Plan::Fail(Error::Protocol { code: c, message: m }) && c == code && m@ == message
}

/// Decide what a classified request line asks for, given whether a query
/// handler and a registration handler are configured. A query with no
/// query handler gets `501` `no query handler` (before it is parsed); a
/// query that does not parse gets its `350` error; a spooled line with no
/// registration handler gets `Registration Not Authorized`.
pub fn plan_request(req: Request, has_query_handler: bool, has_register_handler: bool) -> (p: Plan)
    requires
        has_query_handler ==> (req matches Request::Query(line) ==> !query_splits(line@)),
    ensures
        match req {
            Request::Empty => p is Nothing,
            Request::Directive { name, args } => p matches Plan::Directive { name: n, args: a }
                && n@ == name@ && a@ == args@,
            Request::Query(line) => if !has_query_handler {
                fails_with(p, ResponseCode::service_not_available(), "no query handler"@)
            } else {
                match query_outcome(line@) {
                    Ok(q) => p matches Plan::Query(x) && x@ == q,
                    Err(m) => fails_with(p, ResponseCode::invalid_query_syntax(), m),
                }
            },
            Request::Spool(line) => if has_register_handler {
                p matches Plan::Spool(l) && l@ == line@
            } else {
                fails_with(
                    p,
                    ResponseCode::registration_not_authorized(),
                    "registration not supported"@,
                )
            },
        },
{
    match req {
        Request::Empty => Plan::Nothing,
        Request::Directive { name, args } => Plan::Directive { name, args },
        Request::Query(line) => {
            if !has_query_handler {
                return Plan::Fail(
                    Error::protocol(
                        ResponseCode::service_not_available(),
                        "no query handler".to_owned(),
                    ),
                );
            }
            match Query::parse(line.as_str()) {
                Ok(q) => Plan::Query(q),
                Err(e) => Plan::Fail(e),
            }
        },
        Request::Spool(line) => {
            if has_register_handler {
                Plan::Spool(line)
            } else {
                Plan::Fail(
                    Error::protocol(
                        ResponseCode::registration_not_authorized(),
                        "registration not supported".to_owned(),
                    ),
                )
            }
        },
    }
}

/// The error for a directive name that nothing is registered under:
/// `400 Directive Not Available`, with the name.
pub fn missing_directive(name: String) -> (e: Error)
    ensures
        e matches Error::Protocol { code, message } && code == ResponseCode::directive_not_available()
            && message@ == name@,
{
    Error::protocol(ResponseCode::directive_not_available(), name)
}

/// Whether a request is a query.
pub fn is_query(req: &Request) -> (b: bool)
    ensures
        b == (req is Query),
{
    match req {
        Request::Query(_) => true,
        _ => false,
    }
}

/// The terminator written after an answer: `%ok` for `Done` and `Quit`,
/// nothing for `Silent` and `Handled`, `%error` with the code and detail
/// of a protocol error, and `%error 402 Unidentified Error` for any other
/// error.
pub open spec fn terminator(outcome: Result<Outcome, Error>) -> Seq<u8> {
    match outcome {
        Ok(Outcome::Silent) | Ok(Outcome::Handled) => Seq::empty(),
        Ok(Outcome::Done) | Ok(Outcome::Quit) => wire_line(ok_text()),
        Err(Error::Protocol { code, message }) => wire_line(error_text(code, Some(message@))),
        Err(_) => wire_line(error_text(ResponseCode::unidentified_error(), None)),
    }
}

/// Append the terminator of an answer to `out`; true iff the connection
/// ends after it (`Quit`).
pub fn conclude(out: &mut bytes::BytesMut, outcome: Result<Outcome, Error>) -> (quit: bool)
    requires
        buf_bytes(*old(out)).len() + terminator(outcome).len() <= usize::MAX,
    ensures
        buf_bytes(*final(out)) == buf_bytes(*old(out)) + terminator(outcome),
        quit == (outcome == Ok::<Outcome, Error>(Outcome::Quit)),
{
    proof {
        assert(vstd::utf8::is_ascii_chars(ok_text()));
        vstd::utf8::is_ascii_chars_encode_utf8(ok_text());
    }
    match outcome {
        Ok(Outcome::Silent) | Ok(Outcome::Handled) => {
            assert(buf_bytes(*out) =~= buf_bytes(*out) + Seq::<u8>::empty());
            false
        },
        Ok(Outcome::Done) => {
            write_ok(out);
            false
        },
        Ok(Outcome::Quit) => {
            write_ok(out);
            true
        },
        Err(Error::Protocol { code, message }) => {
            write_error(out, code, Some(message.as_str()));
            false
        },
        Err(_) => {
            write_error(out, ResponseCode::unidentified_error(), None);
            false
        },
    }
}

/// Whether the connection closes after answering a request: a query
/// answered outside registration spooling, with hold-connect off.
pub fn closes_after(session: &Session, was_query: bool) -> (b: bool)
    ensures
        b == (!session.hold_connect && session.state == SessionState::Query && was_query),
{
    !session.hold_connect && !session.is_spooling() && was_query
}

/// The reply to a connection that idled out:
/// `%error 503 Idle Time Exceeded`.
pub fn idle_timeout_reply(out: &mut bytes::BytesMut)
    requires
        buf_bytes(*old(out)).len() + wire_line(
            error_text(ResponseCode::idle_time_exceeded(), None),
        ).len() <= usize::MAX,
    ensures
        buf_bytes(*final(out)) == buf_bytes(*old(out)) + wire_line(
            error_text(ResponseCode::idle_time_exceeded(), None),
        ),
{
    write_error(out, ResponseCode::idle_time_exceeded(), None);
}

/// The response code of a connection refused because the server is full:
/// code `503`, with the text of `Service Not Available`.
#[verifier::allow_in_spec]
pub fn capacity_code() -> ResponseCode
    returns
        (ResponseCode { code: 503, message: "Service Not Available" }),
{
    ResponseCode { code: 503, message: "Service Not Available" }
}

/// The reply to a connection refused because the server is full:
/// `%error 503 Service Not Available: server at capacity`.
pub fn capacity_reply(out: &mut bytes::BytesMut)
    requires
        buf_bytes(*old(out)).len() + wire_line(
            error_text(capacity_code(), Some("server at capacity"@)),
        ).len() <= usize::MAX,
    ensures
        buf_bytes(*final(out)) == buf_bytes(*old(out)) + wire_line(
            error_text(capacity_code(), Some("server at capacity"@)),
        ),
{
    write_error(out, capacity_code(), Some("server at capacity"));
}

} // verus!
