use bytes::BytesMut;
use rwhois::wire::{
    write_error, write_ok, InfoMarker, RecordLine, ReferralUrl, ResponseLine, ResponseWriter, Tag,
    TypeChar,
};
use rwhois::ResponseCode;

fn out_string(buf: &BytesMut) -> &str {
    std::str::from_utf8(buf).unwrap()
}

#[test]
fn record_attr_format_matches_rfc() {
    let mut w = ResponseWriter::new();
    w.record_attr("domain", "Auth-Area", "rwhois.net");
    assert_eq!(w.as_bytes(), b"domain:Auth-Area:rwhois.net\r\n");
}

#[test]
fn typed_record_id_matches_rfc() {
    let mut w = ResponseWriter::new();
    w.record_typed("domain", "Server", Some(TypeChar::Id), "hst-1.rwhois.net");
    assert_eq!(w.as_bytes(), b"domain:Server;I:hst-1.rwhois.net\r\n");
}

#[test]
fn typed_record_seealso() {
    let mut w = ResponseWriter::new();
    w.record_typed("network", "Tech-Contact", Some(TypeChar::SeeAlso), "MG305.COM");
    assert_eq!(w.as_bytes(), b"network:Tech-Contact;S:MG305.COM\r\n");
}

#[test]
fn referral_format_matches_rfc() {
    let mut w = ResponseWriter::new();
    w.referral("master.b.rwhois.net", 4321, "b.rwhois.net");
    assert_eq!(
        w.as_bytes(),
        b"%referral rwhois://master.b.rwhois.net:4321/auth-area=b.rwhois.net\r\n"
    );
}

#[test]
fn end_block_emits_blank_tagged_line() {
    let mut w = ResponseWriter::new();
    w.tagged(Tag::Class, "domain:description:Domain information");
    w.tagged(Tag::Class, "domain:version:19970103101232000");
    w.end_block(Tag::Class);
    assert_eq!(
        out_string(&w.as_bytes().into()),
        "%class domain:description:Domain information\r\n\
         %class domain:version:19970103101232000\r\n\
         %class\r\n"
    );
}

#[test]
fn info_block_format() {
    let mut w = ResponseWriter::new();
    w.info_on();
    w.raw_line("Welcome");
    w.info_off();
    assert_eq!(w.as_bytes(), b"%info on\r\nWelcome\r\n%info off\r\n");
}

#[test]
fn x_ext_writer_emits_prefix_and_body() {
    let mut w = ResponseWriter::new();
    w.x_ext("date", "2026-01-01");
    w.x_ext("date", "");
    assert_eq!(w.as_bytes(), b"%X-date 2026-01-01\r\n%X-date\r\n");
}

#[test]
fn ok_and_error_writers() {
    let mut buf = BytesMut::new();
    write_ok(&mut buf);
    assert_eq!(&buf[..], b"%ok\r\n");

    let mut buf = BytesMut::new();
    write_error(&mut buf, ResponseCode::no_objects_found(), None);
    assert_eq!(&buf[..], b"%error 230 No Objects Found\r\n");

    let mut buf = BytesMut::new();
    write_error(&mut buf, ResponseCode::invalid_query_syntax(), Some("bad token"));
    assert_eq!(&buf[..], b"%error 350 Invalid Query Syntax: bad token\r\n");
}

#[test]
fn error_code_is_three_digit_zero_padded() {
    let mut buf = BytesMut::new();
    write_error(&mut buf, ResponseCode::new(7, "Test"), None);
    assert_eq!(&buf[..], b"%error 007 Test\r\n");
}

#[test]
fn parse_ok_and_blank() {
    assert_eq!(ResponseLine::parse("%ok"), ResponseLine::OkLine);
    assert_eq!(ResponseLine::parse(""), ResponseLine::Blank);
}

#[test]
fn parse_error_with_and_without_extra() {
    assert_eq!(
        ResponseLine::parse("%error 230 No objects found"),
        ResponseLine::Error { code: 230, text: "No objects found".into(), extra: None }
    );
    assert_eq!(
        ResponseLine::parse("%error 350 Invalid Query Syntax: foo"),
        ResponseLine::Error {
            code: 350,
            text: "Invalid Query Syntax".into(),
            extra: Some("foo".into()),
        }
    );
}

#[test]
fn parse_info_markers() {
    assert_eq!(ResponseLine::parse("%info on"), ResponseLine::InfoMarker(InfoMarker::On));
    assert_eq!(ResponseLine::parse("%info off"), ResponseLine::InfoMarker(InfoMarker::Off));
}

#[test]
fn parse_tagged_and_end() {
    assert_eq!(
        ResponseLine::parse("%schema map:attribute:Class-Name"),
        ResponseLine::Tagged { tag: Tag::Schema, body: "map:attribute:Class-Name".into() }
    );
    assert_eq!(ResponseLine::parse("%schema"), ResponseLine::TaggedEnd(Tag::Schema));
}

#[test]
fn parse_referral() {
    let line = "%referral rwhois://master.b.rwhois.net:4321/auth-area=b.rwhois.net";
    assert_eq!(
        ResponseLine::parse(line),
        ResponseLine::Referral(ReferralUrl {
            host: "master.b.rwhois.net".into(),
            port: 4321,
            auth_area: "b.rwhois.net".into(),
        })
    );
}

#[test]
fn parse_referral_to_root() {
    let line = "%referral rwhois://rs.internic.net:4321/auth-area=.";
    match ResponseLine::parse(line) {
        ResponseLine::Referral(u) => assert_eq!(u.auth_area, "."),
        other => panic!("unexpected {other:?}"),
    }
}

#[test]
fn parse_record_line_with_and_without_type() {
    assert_eq!(
        ResponseLine::parse("domain:Auth-Area:rwhois.net"),
        ResponseLine::Record(RecordLine {
            class: "domain".into(),
            attribute: "Auth-Area".into(),
            ty: None,
            value: "rwhois.net".into(),
        })
    );
    assert_eq!(
        ResponseLine::parse("domain:Server;I:hst-1.rwhois.net"),
        ResponseLine::Record(RecordLine {
            class: "domain".into(),
            attribute: "Server".into(),
            ty: Some(TypeChar::Id),
            value: "hst-1.rwhois.net".into(),
        })
    );
}

#[test]
fn parse_unknown_tag_keeps_token() {
    match ResponseLine::parse("%made-up something") {
        ResponseLine::UnknownTagged { tag, body } => {
            assert_eq!(tag, "%made-up");
            assert_eq!(body, "something");
        }
        other => panic!("unexpected {other:?}"),
    }
}

#[test]
fn parse_freeform_for_x_directive_output() {
    match ResponseLine::parse("hello world") {
        ResponseLine::FreeForm(s) => assert_eq!(s, "hello world"),
        other => panic!("unexpected {other:?}"),
    }
}

#[test]
fn roundtrip_full_query_response_from_rfc() {
    let mut w = ResponseWriter::new();
    w.record_typed("domain", "ID", None, "dom-1.rwhois.net");
    w.record_attr("domain", "Auth-Area", "rwhois.net");
    w.record_attr("domain", "Class-Name", "domain");
    w.record_attr("domain", "Updated", "19970107201111000");
    w.record_attr("domain", "Domain", "rwhois.net");
    w.record_typed("domain", "Server", Some(TypeChar::Id), "hst-1.rwhois.net");
    w.record_typed("domain", "Server", Some(TypeChar::Id), "hst-2.rwhois.net");
    w.blank_line();
    let mut buf = w.take();
    write_ok(&mut buf);

    let text = std::str::from_utf8(&buf).unwrap();
    let parsed: Vec<ResponseLine> = text.split_terminator("\r\n").map(ResponseLine::parse).collect();

    assert_eq!(parsed.last(), Some(&ResponseLine::OkLine));
    assert!(matches!(parsed[0], ResponseLine::Record(_)));
    assert!(matches!(parsed[parsed.len() - 2], ResponseLine::Blank));
    assert_eq!(parsed.iter().filter(|l| matches!(l, ResponseLine::Record(_))).count(), 7);
}

#[test]
fn tag_tokens_roundtrip() {
    for t in [
        Tag::Rwhois,
        Tag::Referral,
        Tag::Class,
        Tag::SeeAlso,
        Tag::Load,
        Tag::Soa,
        Tag::Status,
        Tag::Xfer,
        Tag::Schema,
        Tag::Directive,
        Tag::Info,
        Tag::XExt,
        Tag::Register,
        Tag::Display,
    ] {
        assert_eq!(Tag::from_token(t.as_str()), Some(t));
    }
    assert_eq!(Tag::Status.as_str(), "%status");
    assert!(Tag::from_token("%nope").is_none());
}

#[test]
fn type_chars_roundtrip() {
    for t in [TypeChar::Text, TypeChar::Id, TypeChar::SeeAlso] {
        assert_eq!(TypeChar::from_char(t.as_char()), Some(t));
    }
    assert_eq!(TypeChar::Id.as_char(), 'I');
    assert!(TypeChar::from_char('q').is_none());
}

#[test]
fn written_error_parses_back() {
    let mut buf = BytesMut::new();
    write_error(&mut buf, ResponseCode::directive_not_available(), Some("frob"));
    let text = out_string(&buf).trim_end_matches("\r\n").to_owned();
    assert_eq!(
        ResponseLine::parse(&text),
        ResponseLine::Error {
            code: 400,
            text: "Directive Not Available".into(),
            extra: Some("frob".into()),
        }
    );
}

#[test]
fn writer_take_leaves_it_empty() {
    let mut w = ResponseWriter::new();
    assert!(w.is_empty());
    w.blank_line();
    assert!(!w.is_empty());
    let b = w.take();
    assert_eq!(&b[..], b"\r\n");
    assert!(w.is_empty());
}

#[test]
fn referral_url_parses_and_rejects() {
    assert_eq!(
        ReferralUrl::parse("rwhois://h:1/auth-area=a"),
        Some(ReferralUrl { host: "h".into(), port: 1, auth_area: "a".into() })
    );
    assert!(ReferralUrl::parse("http://h:1/auth-area=a").is_none());
    assert!(ReferralUrl::parse("rwhois://h:99999/auth-area=a").is_none());
    assert_eq!(
        RecordLine::parse("a:b:c:d"),
        Some(RecordLine { class: "a".into(), attribute: "b".into(), ty: None, value: "c:d".into() })
    );
}

#[test]
fn bare_info_and_referral_end_their_blocks() {
    assert_eq!(ResponseLine::parse("%info"), ResponseLine::TaggedEnd(Tag::Info));
    assert_eq!(ResponseLine::parse("%referral"), ResponseLine::TaggedEnd(Tag::Referral));
    assert_eq!(ResponseLine::parse("%referral   "), ResponseLine::TaggedEnd(Tag::Referral));
    assert_eq!(
        ResponseLine::parse("%info maybe"),
        ResponseLine::Tagged { tag: Tag::Info, body: "maybe".into() }
    );
}
