use rwhois::wire::request::is_directive;
use rwhois::wire::Request;

fn d(name: &str, args: &str) -> Request {
    Request::Directive { name: name.into(), args: args.into() }
}

#[test]
fn empty_line() {
    assert_eq!(Request::classify("", false), Request::Empty);
}

#[test]
fn directive_no_args() {
    assert_eq!(Request::classify("-quit", false), d("quit", ""));
}

#[test]
fn directive_with_args_lowercases_name() {
    assert_eq!(Request::classify("-Limit 50", false), d("limit", "50"));
    assert_eq!(Request::classify("-HOLDCONNECT on", false), d("holdconnect", "on"));
}

#[test]
fn directive_collapses_inter_token_whitespace_only_once() {
    assert_eq!(
        Request::classify("-rwhois   V-1.5  NSI Client 1.2.3", false),
        d("rwhois", "V-1.5  NSI Client 1.2.3")
    );
}

#[test]
fn extension_directive_names_keep_x_prefix() {
    assert_eq!(Request::classify("-X-date", false), d("x-date", ""));
}

#[test]
fn lone_dash_is_not_a_directive() {
    assert!(matches!(Request::classify("-", false), Request::Query(_)));
    assert!(matches!(Request::classify("-1", false), Request::Query(_)));
}

#[test]
fn query_vs_spool() {
    assert_eq!(Request::classify("foo", false), Request::Query("foo".into()));
    assert_eq!(Request::classify("foo", true), Request::Spool("foo".into()));
}

#[test]
fn directive_in_spool_state_still_routes_as_directive() {
    assert_eq!(Request::classify("-register off", true), d("register", "off"));
}

#[test]
fn is_directive_needs_dash_and_letter() {
    assert!(is_directive("-quit"));
    assert!(is_directive("-Q"));
    assert!(!is_directive("-"));
    assert!(!is_directive("-9"));
    assert!(!is_directive("quit"));
}
