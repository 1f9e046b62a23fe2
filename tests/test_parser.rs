use rdftk::iri::{percent_decode, Iri, IriError};

fn parse_success(s: &str) -> Iri {
    match Iri::parse(s) {
        Ok(iri) => iri,
        Err(e) => panic!("{:?} should parse, failed with {:?}", s, e),
    }
}

fn parse_failure(s: &str) -> IriError {
    match Iri::parse(s) {
        Ok(iri) => panic!("{:?} should not parse, got {:?}", s, iri),
        Err(e) => e,
    }
}

#[test]
fn test_simple_success() {
    parse_success("");
    parse_success("http://www.example.com/foo/bar");
    parse_success("http://www.example.com/#𐌀ss");
    parse_success("http://www.пример.com/#𐌀ss");
}

#[test]
fn test_simple_failure() {
    parse_failure("http://www.example.com/#hello, world");
    parse_failure("http://www.example.com/#asdf#qwer");
    parse_failure("http://www.example.com/##asdf");
}

#[test]
fn empty_is_empty_relative_reference() {
    let iri = parse_success("");
    assert_eq!(iri.scheme(), None);
    assert_eq!(iri.host(), None);
    assert_eq!(iri.path(), "");
    assert_eq!(iri.query(), None);
    assert_eq!(iri.fragment(), None);
    assert_eq!(iri.to_text(), "");
}

#[test]
fn host_and_path() {
    let iri = parse_success("http://www.example.com/foo/bar");
    assert_eq!(iri.scheme(), Some("http".to_string()));
    assert_eq!(iri.host(), Some("www.example.com".to_string()));
    assert_eq!(iri.path(), "/foo/bar");
    assert_eq!(iri.userinfo(), None);
    assert_eq!(iri.port(), None);
    assert_eq!(iri.query(), None);
    assert_eq!(iri.fragment(), None);
}

#[test]
fn astral_code_point_kept_in_fragment() {
    let iri = parse_success("http://www.example.com/#𐌀ss");
    assert_eq!(iri.fragment(), Some("𐌀ss".to_string()));
    assert_eq!(iri.path(), "/");
    assert_eq!(iri.to_text(), "http://www.example.com/#𐌀ss");
}

#[test]
fn non_ascii_host() {
    let iri = parse_success("http://www.пример.com/#𐌀ss");
    assert_eq!(iri.host(), Some("www.пример.com".to_string()));
    assert_eq!(iri.fragment(), Some("𐌀ss".to_string()));
}

#[test]
fn raw_space_in_fragment_fails() {
    assert_eq!(parse_failure("http://www.example.com/#hello, world"), IriError::InvalidFragment);
}

#[test]
fn second_fragment_delimiter_fails() {
    assert_eq!(parse_failure("http://www.example.com/#asdf#qwer"), IriError::MultipleFragments);
}

#[test]
fn adjacent_fragment_delimiters_fail() {
    assert_eq!(parse_failure("http://www.example.com/##asdf"), IriError::MultipleFragments);
}

#[test]
fn each_error_kind() {
    assert_eq!(parse_failure("no-colon-here"), IriError::InvalidScheme);
    assert_eq!(parse_failure("1http://x"), IriError::InvalidScheme);
    assert_eq!(parse_failure(":x"), IriError::InvalidScheme);
    assert_eq!(parse_failure("http://a b/"), IriError::InvalidAuthority);
    assert_eq!(parse_failure("http://host:8x/"), IriError::InvalidAuthority);
    assert_eq!(parse_failure("http://[zz]/"), IriError::InvalidAuthority);
    assert_eq!(parse_failure("http://a@b@c/"), IriError::InvalidAuthority);
    assert_eq!(parse_failure("http://h/a b"), IriError::InvalidPath);
    assert_eq!(parse_failure("http://h/%zz"), IriError::InvalidPath);
    assert_eq!(parse_failure("http://h/%4"), IriError::InvalidPath);
    assert_eq!(parse_failure("http://h/?a<b"), IriError::InvalidQuery);
    assert_eq!(parse_failure("http://h/#a<b"), IriError::InvalidFragment);
}

#[test]
fn first_violation_is_reported() {
    assert_eq!(parse_failure("h t://a b/c d?e f#g h"), IriError::InvalidScheme);
    assert_eq!(parse_failure("http://a b/c d"), IriError::InvalidAuthority);
    assert_eq!(parse_failure("http://h/c d?e f"), IriError::InvalidPath);
    assert_eq!(parse_failure("http://h/c?e f#x#y"), IriError::InvalidQuery);
}

#[test]
fn full_authority() {
    let iri = parse_success("https://user:pw@example.org:8080/a/b?x=1&y=2#frag");
    assert_eq!(iri.scheme(), Some("https".to_string()));
    assert_eq!(iri.userinfo(), Some("user:pw".to_string()));
    assert_eq!(iri.host(), Some("example.org".to_string()));
    assert_eq!(iri.port(), Some("8080".to_string()));
    assert_eq!(iri.path(), "/a/b");
    assert_eq!(iri.query(), Some("x=1&y=2".to_string()));
    assert_eq!(iri.fragment(), Some("frag".to_string()));
}

#[test]
fn ip_literals() {
    let v6 = parse_success("http://[::1]:80/");
    assert_eq!(v6.host(), Some("[::1]".to_string()));
    assert_eq!(v6.port(), Some("80".to_string()));
    let v4 = parse_success("http://192.168.0.1/x");
    assert_eq!(v4.host(), Some("192.168.0.1".to_string()));
}

#[test]
fn no_authority_and_percent_encoding() {
    let urn = parse_success("urn:isbn:0451450523");
    assert_eq!(urn.scheme(), Some("urn".to_string()));
    assert_eq!(urn.host(), None);
    assert_eq!(urn.path(), "isbn:0451450523");
    let pct = parse_success("http://h/a%20b");
    assert_eq!(pct.path(), "/a%20b");
}

#[test]
fn round_trip_reparses_equal() {
    for s in [
        "",
        "http://www.example.com/foo/bar",
        "http://www.пример.com/#𐌀ss",
        "https://user:pw@example.org:8080/a/b?x=1&y=2#frag",
        "mailto:someone@example.com",
        "http://[::1]:80/?q",
    ] {
        let iri = parse_success(s);
        let text = iri.to_text();
        assert_eq!(text, s);
        let again = parse_success(&text);
        assert!(again == iri);
    }
}

#[test]
fn equality_ignores_case_of_scheme_and_host_only() {
    let a = parse_success("HTTP://WWW.Example.COM/Path");
    let b = parse_success("http://www.example.com/Path");
    let c = parse_success("http://www.example.com/path");
    assert!(a == b);
    assert!(b != c);
}

#[test]
fn percent_decoding_on_demand() {
    let iri = parse_success("http://h/a%20b%C3%A9");
    // Stored as written.
    assert_eq!(iri.path(), "/a%20b%C3%A9");
    // Decoded only when asked.
    assert_eq!(percent_decode(&iri.path()), "/a b\u{e9}".as_bytes().to_vec());
    assert_eq!(percent_decode("%41%4a%4A"), b"AJJ".to_vec());
    assert_eq!(percent_decode("100%"), b"100%".to_vec());
    assert_eq!(percent_decode("%zz"), b"%zz".to_vec());
    assert_eq!(percent_decode("𐌀п"), "𐌀п".as_bytes().to_vec());
    assert_eq!(percent_decode(""), Vec::<u8>::new());
}

#[test]
fn unicode_white_space_is_rejected() {
    assert_eq!(parse_failure("http://h/a\u{3000}b"), IriError::InvalidPath);
    assert_eq!(parse_failure("http://h/a\u{a0}b"), IriError::InvalidPath);
    assert_eq!(parse_failure("http://h\u{2003}x/"), IriError::InvalidAuthority);
    assert_eq!(parse_failure("http://h/?q\u{1680}"), IriError::InvalidQuery);
    assert_eq!(parse_failure("http://h/#a\u{2028}"), IriError::InvalidFragment);
    assert_eq!(parse_failure("http://h/#a\u{202f}"), IriError::InvalidFragment);
    assert_eq!(parse_failure("http://h/\tx"), IriError::InvalidPath);
    // Non-space characters next to those ranges are still accepted.
    parse_success("http://h/a\u{a1}\u{3001}b");
}

#[test]
fn first_illegal_fragment_character_decides() {
    assert_eq!(parse_failure("http://h/#a b#c"), IriError::InvalidFragment);
    assert_eq!(parse_failure("http://h/#ab#c d"), IriError::MultipleFragments);
    assert_eq!(parse_failure("http://h/#%4#"), IriError::InvalidFragment);
}

#[test]
fn bracketed_hosts_are_ipv6() {
    for ok in [
        "http://[::1]/",
        "http://[::]/",
        "http://[2001:db8::1]/",
        "http://[1:2:3:4:5:6:7:8]/",
        "http://[1:2:3:4:5:6:7::]/",
        "http://[::2:3:4:5:6:7:8]/",
        "http://[::ffff:192.0.2.1]:80/",
        "http://[1:2:3:4:5:6:1.2.3.4]/",
        "http://[1::1.2.3.4]/",
        "http://[ABCD:ef01::0]/",
    ] {
        parse_success(ok);
    }
    for bad in [
        "http://[abc]/",
        "http://[.]/",
        "http://[]/",
        "http://[:]/",
        "http://[1:2:3:4:5:6:7]/",
        "http://[1:2:3:4:5:6:7:8:9]/",
        "http://[1::2::3]/",
        "http://[:::]/",
        "http://[12345::]/",
        "http://[:1::]/",
        "http://[1::2:]/",
        "http://[::ffff:256.0.0.1]/",
        "http://[::ffff:01.2.3.4]/",
        "http://[::ffff:1.2.3]/",
        "http://[::ffff:1..2.3]/",
        "http://[1:2:3:4:5:6:7:1.2.3.4]/",
    ] {
        assert_eq!(parse_failure(bad), IriError::InvalidAuthority, "{}", bad);
    }
}
