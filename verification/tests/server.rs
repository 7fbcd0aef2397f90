use bytes::BytesMut;
use rwhois::directive::DirectiveOutcome;
use rwhois::query::Query;
use rwhois::server::{
    capacity_reply, closes_after, conclude, connection_cap, idle_timeout_reply, is_query,
    missing_directive, outcome_of, plan_request, Outcome, Plan, DEFAULT_MAX_CONNECTIONS,
};
use rwhois::session::Session;
use rwhois::wire::Request;
use rwhois::{Error, ResponseCode};

#[test]
fn plans_each_kind_of_request() {
    assert!(matches!(plan_request(Request::Empty, true, true), Plan::Nothing));
    match plan_request(Request::classify("-limit 5", false), false, false) {
        Plan::Directive { name, args } => {
            assert_eq!(name, "limit");
            assert_eq!(args, "5");
        }
        other => panic!("unexpected {other:?}"),
    }
    match plan_request(Request::Query("ibm".into()), true, false) {
        Plan::Query(q) => assert_eq!(q, Query::parse("ibm").unwrap()),
        other => panic!("unexpected {other:?}"),
    }
    match plan_request(Request::Query("ibm".into()), false, false) {
        Plan::Fail(Error::Protocol { code, message }) => {
            assert_eq!(code, ResponseCode::service_not_available());
            assert_eq!(message, "no query handler");
        }
        other => panic!("unexpected {other:?}"),
    }
    match plan_request(Request::Query("foo=".into()), true, false) {
        Plan::Fail(Error::Protocol { code, message }) => {
            assert_eq!(code.code, 350);
            assert_eq!(message, "missing value after operator");
        }
        other => panic!("unexpected {other:?}"),
    }
    match plan_request(Request::Spool("x".into()), true, true) {
        Plan::Spool(l) => assert_eq!(l, "x"),
        other => panic!("unexpected {other:?}"),
    }
    match plan_request(Request::Spool("x".into()), true, false) {
        Plan::Fail(Error::Protocol { code, message }) => {
            assert_eq!(code, ResponseCode::registration_not_authorized());
            assert_eq!(message, "registration not supported");
        }
        other => panic!("unexpected {other:?}"),
    }
}

#[test]
fn terminators() {
    let mut buf = BytesMut::new();
    assert!(!conclude(&mut buf, Ok(Outcome::Silent)));
    assert!(!conclude(&mut buf, Ok(Outcome::Handled)));
    assert!(buf.is_empty());
    assert!(!conclude(&mut buf, Ok(Outcome::Done)));
    assert_eq!(&buf[..], b"%ok\r\n");
    let mut buf = BytesMut::new();
    assert!(conclude(&mut buf, Ok(Outcome::Quit)));
    assert_eq!(&buf[..], b"%ok\r\n");
    let mut buf = BytesMut::new();
    assert!(!conclude(&mut buf, Err(missing_directive("frob".into()))));
    assert_eq!(&buf[..], b"%error 400 Directive Not Available: frob\r\n");
    let mut buf = BytesMut::new();
    assert!(!conclude(&mut buf, Err(Error::handler("boom".into()))));
    assert_eq!(&buf[..], b"%error 402 Unidentified Error\r\n");
}

#[test]
fn directive_outcomes_map() {
    assert_eq!(outcome_of(DirectiveOutcome::Success), Outcome::Done);
    assert_eq!(outcome_of(DirectiveOutcome::Handled), Outcome::Handled);
    assert_eq!(outcome_of(DirectiveOutcome::Quit), Outcome::Quit);
}

#[test]
fn closes_after_query_unless_held_or_spooling() {
    let mut s = Session::new();
    assert!(closes_after(&s, true));
    assert!(!closes_after(&s, false));
    s.hold_connect = true;
    assert!(!closes_after(&s, true));
    s.hold_connect = false;
    s.begin_registration("add".into(), "e".into());
    assert!(!closes_after(&s, true));
    assert!(is_query(&Request::Query("x".into())));
    assert!(!is_query(&Request::Empty));
}

#[test]
fn idle_and_capacity_replies() {
    let mut buf = BytesMut::new();
    idle_timeout_reply(&mut buf);
    assert_eq!(&buf[..], b"%error 503 Idle Time Exceeded\r\n");
    let mut buf = BytesMut::new();
    capacity_reply(&mut buf);
    assert_eq!(&buf[..], b"%error 503 Service Not Available: server at capacity\r\n");
}

#[test]
fn connection_cap_zero_means_unbounded() {
    assert_eq!(connection_cap(0), None);
    assert_eq!(connection_cap(DEFAULT_MAX_CONNECTIONS), Some(128));
}
