use rwhois::wire::{Banner, Capability, Version};

#[test]
fn build_matches_rfc_example() {
    let b = Banner::single(
        1,
        5,
        Capability::new(0x00ffff, 0x00),
        "master.rwhois.net".to_owned(),
        Some("(Network Solutions V-1.5)".into()),
    );
    assert_eq!(b.to_line(), "%rwhois V-1.5:00ffff:00 master.rwhois.net (Network Solutions V-1.5)");
}

#[test]
fn parse_single_version_banner_matches_rfc() {
    let parsed =
        Banner::parse("%rwhois V-1.5:00ffff:00 master.rwhois.net (Network Solutions V-1.5)")
            .unwrap();
    assert_eq!(parsed.versions.len(), 1);
    assert_eq!(parsed.versions[0].major, 1);
    assert_eq!(parsed.versions[0].minor, 5);
    assert_eq!(parsed.versions[0].capability, Some(Capability::new(0x00ffff, 0x00)));
    assert_eq!(parsed.hostname, "master.rwhois.net");
    assert_eq!(parsed.implementation.as_deref(), Some("(Network Solutions V-1.5)"));
}

#[test]
fn parse_multi_version_banner_matches_rfc() {
    let line = "%rwhois V-1.0,V-1.5:00ffff:00 rs.internic.net (NSI Server 1.5.4)";
    let b = Banner::parse(line).unwrap();
    assert_eq!(b.versions.len(), 2);
    assert_eq!(b.versions[0], Version::new(1, 0, None));
    assert_eq!(b.versions[1], Version::new(1, 5, Some(Capability::new(0x00ffff, 0x00))));
    assert_eq!(b.hostname, "rs.internic.net");
}

#[test]
fn roundtrip() {
    let line = "%rwhois V-1.0,V-1.5:00ffff:00 rs.internic.net (NSI Server 1.5.4)";
    let b = Banner::parse(line).unwrap();
    assert_eq!(b.to_line(), line);
}

#[test]
fn rejects_non_banner_line() {
    assert!(Banner::parse("%ok").is_none());
    assert!(Banner::parse("%rwhois ").is_none());
}

#[test]
fn rejects_malformed_capability() {
    assert!(Version::parse("V-1.5:zzzzzz:00").is_none());
    assert!(Version::parse("V-1.5:00ff:00").is_none());
    assert!(Version::parse("V-1.5:00ffff:0").is_none());
}

#[test]
fn capability_displays_zero_padded() {
    assert_eq!(Capability::new(0x1, 0x0).to_string(), "000001:00");
    assert_eq!(Capability::new(0xffffff, 0xff).to_string(), "ffffff:ff");
}

#[test]
fn banner_without_implementation_roundtrips() {
    let b = Banner::single(1, 5, Capability::new(0x1f, 0), "localhost".to_owned(), None);
    let line = b.to_line();
    assert_eq!(line, "%rwhois V-1.5:00001f:00 localhost");
    assert_eq!(Banner::parse(&line), Some(b));
}

#[test]
fn version_text_and_parse_agree() {
    let v = Version::new(2, 10, Some(Capability::new(0xabcdef, 0x12)));
    assert_eq!(v.to_string(), "V-2.10:abcdef:12");
    assert_eq!(Version::parse("V-2.10:abcdef:12"), Some(v));
    assert_eq!(Version::parse("V-1.0"), Some(Version::new(1, 0, None)));
    assert_eq!(Capability::parse("00ffff:00"), Some(Capability::new(0xffff, 0)));
    assert!(Capability::parse("00ffff00").is_none());
}

#[test]
fn version_1_5_needs_a_capability() {
    assert!(Version::parse("V-1.5").is_none());
    assert!(Version::parse("V-1.5:00ffff:00").is_some());
    assert!(Banner::parse("%rwhois V-1.5 host").is_none());
    assert_eq!(Version::parse("V-2.0"), Some(Version::new(2, 0, None)));
}

#[test]
fn capability_takes_hex_digits_only() {
    assert!(Capability::parse("+fffff:+f").is_none());
    assert!(Capability::parse("+fffff:0f").is_none());
    assert!(Capability::parse("0ffff0:+f").is_none());
    assert_eq!(Capability::parse("ABCDEF:0a"), Some(Capability::new(0xabcdef, 0x0a)));
}
