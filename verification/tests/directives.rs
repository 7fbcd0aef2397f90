use rwhois::context::server_banner;
use rwhois::directive::builtin::{
    on_off, parse_area_classes, split_args, Class, DirectiveList, Display, Forward, HoldConnect,
    Limit, Notify, Quit, Register, RegisterStep, Rwhois, Schema, Security, Soa, Status, Xfer,
    CAP_DISPLAY, CAP_FORWARD, CAP_HOLD, CAP_LIMIT, CAP_STATUS,
};
use rwhois::directive::{
    capability_mask, directive_key, sort_by_key, Capability, DirectiveInfo, DirectiveOutcome,
};
use rwhois::session::{Session, SessionState};
use rwhois::wire::ResponseWriter;
use rwhois::{Error, ResponseCode};

fn text(w: &ResponseWriter) -> String {
    String::from_utf8(w.as_bytes().to_vec()).unwrap()
}

fn protocol(r: Result<DirectiveOutcome, Error>) -> (u16, String) {
    match r {
        Err(Error::Protocol { code, message }) => (code.code, message),
        other => panic!("expected a protocol error, got {other:?}"),
    }
}

#[test]
fn split_args_splits_on_any_white_space() {
    assert_eq!(split_args("  a \t b\u{3000}c  "), vec!["a", "b", "c"]);
    assert!(split_args("   ").is_empty());
    assert!(split_args("").is_empty());
}

#[test]
fn area_and_classes() {
    assert_eq!(parse_area_classes("a.net domain host"), ("a.net".to_owned(), vec!["domain".to_owned(), "host".to_owned()]));
    assert_eq!(parse_area_classes(""), (String::new(), Vec::<String>::new()));
    assert_eq!(parse_area_classes(" a.net "), ("a.net".to_owned(), Vec::<String>::new()));
}

#[test]
fn on_off_words() {
    assert_eq!(on_off(true), "on");
    assert_eq!(on_off(false), "off");
}

#[test]
fn new_session_defaults() {
    let s = Session::new();
    assert_eq!(s.state, SessionState::Query);
    assert!(!s.hold_connect);
    assert_eq!(s.hit_limit, 0);
    assert!(!s.forward);
    assert_eq!(s.display, "dump");
    assert!(!s.secure_mode);
    assert!(s.client_vendor_id.is_none());
    assert_eq!(s.idle_timeout, std::time::Duration::from_secs(120));
    assert!(s.register_email.is_none());
    assert!(s.register_action.is_none());
    assert!(!s.is_spooling());
}

#[test]
fn registration_begin_then_end_restores_query_state() {
    let mut s = Session::new();
    s.hit_limit = 7;
    s.begin_registration("add".to_owned(), "a@b.c".to_owned());
    assert!(s.is_spooling());
    assert_eq!(s.register_action.as_deref(), Some("add"));
    assert_eq!(s.register_email.as_deref(), Some("a@b.c"));
    s.end_registration();
    assert!(!s.is_spooling());
    assert!(s.register_action.is_none());
    assert!(s.register_email.is_none());
    assert_eq!(s.hit_limit, 7);
}

#[test]
fn holdconnect_on_off_and_refusal() {
    let mut s = Session::new();
    assert_eq!(HoldConnect.run(&mut s, " ON ").unwrap(), DirectiveOutcome::Success);
    assert!(s.hold_connect);
    assert_eq!(HoldConnect.run(&mut s, "off").unwrap(), DirectiveOutcome::Success);
    assert!(!s.hold_connect);
    assert_eq!(HoldConnect.run(&mut s, "").unwrap(), DirectiveOutcome::Success);
    assert!(s.hold_connect);
    assert_eq!(protocol(HoldConnect.run(&mut s, " Maybe ")), (338, "holdconnect: maybe".to_owned()));
    assert!(s.hold_connect);
}

#[test]
fn forward_on_off_and_refusal() {
    let mut s = Session::new();
    Forward.run(&mut s, "on").unwrap();
    assert!(s.forward);
    Forward.run(&mut s, "OFF").unwrap();
    assert!(!s.forward);
    assert_eq!(protocol(Forward.run(&mut s, "x")), (338, "forward: x".to_owned()));
}

#[test]
fn limit_sets_hit_limit_or_refuses() {
    let mut s = Session::new();
    Limit.run(&mut s, " 50 ").unwrap();
    assert_eq!(s.hit_limit, 50);
    Limit.run(&mut s, "+3").unwrap();
    assert_eq!(s.hit_limit, 3);
    assert_eq!(protocol(Limit.run(&mut s, " -1 ")), (338, "limit:  -1 ".to_owned()));
    assert_eq!(protocol(Limit.run(&mut s, "")), (338, "limit: ".to_owned()));
    assert_eq!(protocol(Limit.run(&mut s, "99999999999999999999999")).0, 338);
    assert_eq!(s.hit_limit, 3);
}

#[test]
fn display_echo_select_and_refusal() {
    let mut s = Session::new();
    let mut out = ResponseWriter::new();
    assert_eq!(Display.run(&mut s, "  ", &mut out).unwrap(), DirectiveOutcome::Success);
    assert_eq!(text(&out), "%display name:dump\r\n%display\r\n");
    let mut out = ResponseWriter::new();
    s.display = "other".to_owned();
    Display.run(&mut s, "DUMP", &mut out).unwrap();
    assert_eq!(s.display, "dump");
    assert!(out.is_empty());
    let r = Display.run(&mut s, " fancy ", &mut out);
    assert_eq!(protocol(r), (338, "display: fancy".to_owned()));
}

#[test]
fn status_block_reports_settings() {
    let mut s = Session::new();
    s.hit_limit = 20;
    s.hold_connect = true;
    s.client_vendor_id = Some("NSI Client".to_owned());
    let mut out = ResponseWriter::new();
    assert_eq!(Status.run(&s, &mut out), DirectiveOutcome::Success);
    assert_eq!(
        text(&out),
        "%status limit:20\r\n%status hold:on\r\n%status forward:off\r\n%status display:dump\r\n%status contact:NSI Client\r\n%status\r\n"
    );
}

#[test]
fn rwhois_records_vendor_and_sends_banner() {
    let banner = server_banner(0x1f, "rwhois.example.com".to_owned());
    let mut s = Session::new();
    let mut out = ResponseWriter::new();
    assert_eq!(Rwhois.run(&banner, &mut s, "  V-1.5 Client  ", &mut out), DirectiveOutcome::Success);
    assert_eq!(s.client_vendor_id.as_deref(), Some("V-1.5 Client"));
    assert_eq!(text(&out), "%rwhois V-1.5:00001f:00 rwhois.example.com (rwhois rust server)\r\n");
    let mut out = ResponseWriter::new();
    Rwhois.run(&banner, &mut s, "", &mut out);
    assert_eq!(s.client_vendor_id.as_deref(), Some("V-1.5 Client"));
}

#[test]
fn server_banner_masks_to_24_bits() {
    let b = server_banner(0xff12_3456, "h".to_owned());
    assert_eq!(b.to_line(), "%rwhois V-1.5:123456:00 h (rwhois rust server)");
}

fn info(key: &str, name: &'static str, description: &'static str) -> DirectiveInfo {
    DirectiveInfo { key: key.to_owned(), name, description }
}

#[test]
fn directive_listing_is_sorted_by_key() {
    let entries = vec![info("quit", "quit", "close the session"), info("x-date", "X-Date", ""), info("limit", "limit", "cap")];
    let mut out = ResponseWriter::new();
    assert_eq!(DirectiveList.run(entries, &mut out), DirectiveOutcome::Success);
    assert_eq!(
        text(&out),
        "%directive Directive:limit\r\n%directive Description:cap\r\n\
         %directive Directive:quit\r\n%directive Description:close the session\r\n\
         %directive Directive:X-Date\r\n%directive\r\n"
    );
}

#[test]
fn sort_by_key_orders_and_keeps_entries() {
    let sorted = sort_by_key(vec![info("b", "b", ""), info("a", "a", ""), info("c", "c", ""), info("ab", "ab", "")]);
    let keys: Vec<&str> = sorted.iter().map(|e| e.key.as_str()).collect();
    assert_eq!(keys, vec!["a", "ab", "b", "c"]);
}

#[test]
fn directive_keys_are_lowercase() {
    assert_eq!(directive_key("X-Date"), "x-date");
    assert_eq!(directive_key("quit"), "quit");
}

#[test]
fn capability_mask_is_or_of_bits() {
    let caps = [
        Quit.capability(),
        HoldConnect.capability(),
        Limit.capability(),
        Forward.capability(),
        Display.capability(),
        Status.capability(),
        Rwhois.capability(),
        DirectiveList.capability(),
        Class.capability(),
        Schema.capability(),
        Soa.capability(),
        Xfer.capability(),
        Register.capability(),
        Security.capability(),
        Notify.capability(),
    ];
    let m = capability_mask(&caps);
    assert_eq!(m, CAP_HOLD | CAP_LIMIT | CAP_FORWARD | CAP_DISPLAY | CAP_STATUS);
    assert_eq!(m, 0x1f);
    assert_eq!(capability_mask(&[]), 0);
    assert_eq!(capability_mask(&[Capability(4), Capability(4)]), 4);
}

#[test]
fn builtins_registered() {
    let names = [
        Quit.name(),
        HoldConnect.name(),
        Limit.name(),
        Forward.name(),
        Display.name(),
        Status.name(),
        Rwhois.name(),
        DirectiveList.name(),
        Class.name(),
        Schema.name(),
        Soa.name(),
        Xfer.name(),
        Register.name(),
        Security.name(),
        Notify.name(),
    ];
    let mut keys: Vec<String> = names.iter().map(|n| directive_key(n)).collect();
    keys.sort();
    keys.dedup();
    assert_eq!(keys.len(), 15);
    for n in [
        "rwhois",
        "quit",
        "holdconnect",
        "limit",
        "forward",
        "display",
        "status",
        "directive",
        "class",
        "schema",
        "soa",
        "xfer",
        "register",
        "security",
        "notify",
    ] {
        assert!(keys.iter().any(|k| k == n), "missing builtin: {n}");
    }
    assert_eq!(Notify.run(), DirectiveOutcome::Success);
    assert_eq!(Quit.run(), DirectiveOutcome::Quit);
}

#[test]
fn provider_directives_need_a_provider() {
    match Class.prepare(false, "a") {
        Err(Error::Protocol { code, message }) => {
            assert_eq!(code, ResponseCode::directive_not_available());
            assert_eq!(message, "class");
        }
        other => panic!("unexpected {other:?}"),
    }
    assert!(Schema.prepare(false, "a").is_err());
    assert!(Soa.prepare(false, "a").is_err());
    assert!(Xfer.prepare(false).is_err());
    assert!(Security.prepare(false).is_err());
    let (area, classes) = Class.prepare(true, "a.net domain").unwrap();
    assert_eq!(area, "a.net");
    assert_eq!(classes, vec!["domain"]);
    assert_eq!(Soa.prepare(true, " x  y ").unwrap(), vec!["x", "y"]);
    let mut out = ResponseWriter::new();
    assert_eq!(Class.finish(&mut out), DirectiveOutcome::Success);
    Schema.finish(&mut out);
    Soa.finish(&mut out);
    Xfer.finish(&mut out);
    assert_eq!(text(&out), "%class\r\n%schema\r\n%soa\r\n%xfer\r\n");
}

#[test]
fn register_plans() {
    match Register.plan(true, "ON add a@b.c extra  words here") {
        Ok(RegisterStep::Begin { action, email, extra }) => {
            assert_eq!(action, "add");
            assert_eq!(email, "a@b.c");
            assert_eq!(extra, "extra words here");
        }
        other => panic!("unexpected {other:?}"),
    }
    match Register.plan(true, "on add a@b.c") {
        Ok(RegisterStep::Begin { extra, .. }) => assert_eq!(extra, ""),
        other => panic!("unexpected {other:?}"),
    }
    assert!(matches!(Register.plan(true, "off"), Ok(RegisterStep::Finish)));
    match Register.plan(true, "on add") {
        Err(Error::Protocol { code, message }) => {
            assert_eq!(code, ResponseCode::invalid_directive_syntax());
            assert_eq!(message, "register on requires <action> <email>");
        }
        other => panic!("unexpected {other:?}"),
    }
    match Register.plan(true, "maybe") {
        Err(Error::Protocol { message, .. }) => assert_eq!(message, "register on|off"),
        other => panic!("unexpected {other:?}"),
    }
    match Register.plan(false, "off") {
        Err(Error::Protocol { code, message }) => {
            assert_eq!(code, ResponseCode::registration_not_authorized());
            assert_eq!(message, "register");
        }
        other => panic!("unexpected {other:?}"),
    }
}
