//! Whole-connection scenarios driven through the library's decisions, with
//! a synchronous stand-in for the handlers and the directive registry.

use bytes::BytesMut;
use rwhois::codec::RwhoisCodec;
use rwhois::context::server_banner;
use rwhois::directive::builtin::{HoldConnect, Quit, Register, RegisterStep, Status};
use rwhois::directive::DirectiveOutcome;
use rwhois::server::{closes_after, conclude, is_query, missing_directive, outcome_of, plan_request, Outcome, Plan};
use rwhois::session::Session;
use rwhois::wire::{Request, ResponseWriter};
use rwhois::Error;

struct Conn {
    session: Session,
    spooled: Vec<String>,
    sent: Vec<u8>,
    closed: bool,
}

impl Conn {
    fn new() -> Self {
        let banner = server_banner(0x1f, "test.host".to_owned()).to_line();
        let mut sent = Vec::new();
        let mut codec = RwhoisCodec::new();
        let mut buf = BytesMut::new();
        codec.encode_str(&banner, &mut buf).unwrap();
        sent.extend_from_slice(&buf);
        Conn { session: Session::new(), spooled: Vec::new(), sent, closed: false }
    }

    fn directive(&mut self, name: &str, args: &str, out: &mut ResponseWriter) -> rwhois::Result<DirectiveOutcome> {
        match name {
            "quit" => Ok(Quit.run()),
            "holdconnect" => HoldConnect.run(&mut self.session, args),
            "status" => Ok(Status.run(&self.session, out)),
            "register" => match Register.plan(true, args)? {
                RegisterStep::Begin { action, email, .. } => {
                    self.session.begin_registration(action, email);
                    Ok(DirectiveOutcome::Success)
                }
                RegisterStep::Finish => {
                    out.raw_line(&format!("%register spooled {}", self.spooled.len()));
                    self.session.end_registration();
                    Ok(DirectiveOutcome::Success)
                }
            },
            other => Err(missing_directive(other.to_owned())),
        }
    }

    fn line(&mut self, raw: &[u8]) {
        assert!(!self.closed);
        let mut codec = RwhoisCodec::new();
        let mut input = BytesMut::from(raw);
        let line = codec.decode(&mut input).unwrap().unwrap();
        let req = Request::classify(&line, self.session.is_spooling());
        let was_query = is_query(&req);
        let mut out = ResponseWriter::new();
        let outcome: Result<Outcome, Error> = match plan_request(req, true, true) {
            Plan::Nothing => Ok(Outcome::Silent),
            Plan::Directive { name, args } => self.directive(&name, &args, &mut out).map(outcome_of),
            Plan::Query(q) => {
                out.record_attr("echo", "query", &q.raw);
                Ok(Outcome::Done)
            }
            Plan::Spool(l) => {
                self.spooled.push(l);
                Ok(Outcome::Silent)
            }
            Plan::Fail(e) => Err(e),
        };
        let mut buf = out.take();
        let quit = conclude(&mut buf, outcome);
        self.sent.extend_from_slice(&buf);
        if quit || closes_after(&self.session, was_query) {
            self.closed = true;
        }
    }

    fn text(&self) -> String {
        String::from_utf8(self.sent.clone()).unwrap()
    }
}

#[test]
fn banner_status_query_quit_scenario() {
    let mut c = Conn::new();
    c.line(b"-holdconnect on\r\n");
    c.line(b"-status\r\n");
    c.line(b"ibm\r\n");
    assert!(!c.closed);
    c.line(b"-quit\r\n");
    assert!(c.closed);
    assert_eq!(
        c.text(),
        "%rwhois V-1.5:00001f:00 test.host (rwhois rust server)\r\n\
         %ok\r\n\
         %status limit:0\r\n%status hold:on\r\n%status forward:off\r\n%status display:dump\r\n%status contact:\r\n%status\r\n%ok\r\n\
         echo:query:ibm\r\n%ok\r\n\
         %ok\r\n"
    );
}

#[test]
fn unknown_directive_yields_error_and_keeps_connection() {
    let mut c = Conn::new();
    c.line(b"-frobnicate now\r\n");
    assert!(!c.closed);
    assert!(c.text().ends_with("%error 400 Directive Not Available: frobnicate\r\n"));
}

#[test]
fn hold_off_closes_after_query() {
    let mut c = Conn::new();
    c.line(b"ibm\r\n");
    assert!(c.closed);
    assert!(c.text().ends_with("echo:query:ibm\r\n%ok\r\n"));
}

#[test]
fn bad_query_is_answered_with_350() {
    let mut c = Conn::new();
    c.line(b"foo=\r\n");
    assert!(c.text().ends_with("%error 350 Invalid Query Syntax: missing value after operator\r\n"));
    assert!(c.closed);
}

#[test]
fn register_flow_spools_lines_between_on_and_off() {
    let mut c = Conn::new();
    c.line(b"-register on add admin@example.com\r\n");
    assert!(c.session.is_spooling());
    c.line(b"domain:Domain-Name:example.com\r\n");
    c.line(b"domain:Org-Name:Example\r\n");
    assert!(!c.closed);
    c.line(b"-register off\r\n");
    assert!(!c.session.is_spooling());
    assert_eq!(c.spooled, vec!["domain:Domain-Name:example.com", "domain:Org-Name:Example"]);
    assert!(c.text().ends_with("%ok\r\n%register spooled 2\r\n%ok\r\n"));
    assert!(c.session.register_action.is_none());
}
