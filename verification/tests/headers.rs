use http::header::{HeaderMap, CONNECTION, UPGRADE};
use httpmate_core::headers::{
    has_header, header_text, parse_header_blob, parse_header_text, serialize_headers,
    strip_hop_headers, text_of_value,
};

#[test]
fn hop_headers_stripped() {
    let mut h = HeaderMap::new();
    h.insert(CONNECTION, "keep-alive, x-custom-hop".parse().unwrap());
    h.insert("x-custom-hop", "1".parse().unwrap());
    h.insert("proxy-connection", "keep-alive".parse().unwrap());
    h.insert("te", "trailers".parse().unwrap());
    h.insert("accept", "*/*".parse().unwrap());
    strip_hop_headers(&mut h, false);
    assert_eq!(h.len(), 1);
    assert!(h.contains_key("accept"));
}

#[test]
fn upgrade_headers_survive_when_preserved() {
    let mut h = HeaderMap::new();
    h.insert(CONNECTION, "Upgrade".parse().unwrap());
    h.insert(UPGRADE, "websocket".parse().unwrap());
    h.insert("sec-websocket-key", "abc".parse().unwrap());
    strip_hop_headers(&mut h, true);
    assert!(h.contains_key(CONNECTION));
    assert!(h.contains_key(UPGRADE));
    assert!(h.contains_key("sec-websocket-key"));
}

#[test]
fn upgrade_headers_go_when_not_preserved() {
    let mut h = HeaderMap::new();
    h.insert(CONNECTION, "Upgrade".parse().unwrap());
    h.insert(UPGRADE, "websocket".parse().unwrap());
    h.insert("sec-websocket-key", "abc".parse().unwrap());
    strip_hop_headers(&mut h, false);
    assert!(!h.contains_key(CONNECTION));
    assert!(!h.contains_key(UPGRADE));
    assert_eq!(h.len(), 1);
}

#[test]
fn every_listed_and_standard_hop_header_goes() {
    let mut h = HeaderMap::new();
    h.append(CONNECTION, " X-One ,x-two".parse().unwrap());
    h.append(CONNECTION, "X-THREE,,not a name".parse().unwrap());
    for name in [
        "x-one",
        "x-two",
        "x-three",
        "proxy-connection",
        "keep-alive",
        "proxy-authenticate",
        "proxy-authorization",
        "te",
        "trailer",
        "transfer-encoding",
    ] {
        h.append(name, "a".parse().unwrap());
        h.append(name, "b".parse().unwrap());
    }
    h.append("cookie", "a".parse().unwrap());
    h.append("cookie", "b".parse().unwrap());
    strip_hop_headers(&mut h, false);
    assert_eq!(h.len(), 2);
    let cookies: Vec<&[u8]> = h.get_all("cookie").iter().map(|v| v.as_bytes()).collect();
    assert_eq!(cookies, vec![b"a".as_slice(), b"b".as_slice()]);
}

#[test]
fn stripping_twice_removes_no_more() {
    let mut h = HeaderMap::new();
    h.insert(CONNECTION, "upgrade, x-hop".parse().unwrap());
    h.insert(UPGRADE, "websocket".parse().unwrap());
    h.insert("x-hop", "1".parse().unwrap());
    h.insert("accept", "*/*".parse().unwrap());
    strip_hop_headers(&mut h, true);
    let once = h.clone();
    strip_hop_headers(&mut h, true);
    assert_eq!(h, once);
    assert_eq!(h.len(), 3);
}

#[test]
fn a_connection_value_that_is_no_text_lists_nothing() {
    let mut h = HeaderMap::new();
    h.insert(CONNECTION, http::HeaderValue::from_bytes(b"x-kept\xff").unwrap());
    h.insert("x-kept", "1".parse().unwrap());
    strip_hop_headers(&mut h, false);
    assert!(h.contains_key("x-kept"));
    assert!(!h.contains_key(CONNECTION));
}

#[test]
fn serialized_headers_are_lines_in_order() {
    let mut h = HeaderMap::new();
    h.insert("Accept", "application/json".parse().unwrap());
    h.append("cookie", "a=1".parse().unwrap());
    h.append("cookie", "b: 2".parse().unwrap());
    assert_eq!(
        serialize_headers(&h),
        b"accept: application/json\ncookie: a=1\ncookie: b: 2\n".to_vec()
    );
    assert!(serialize_headers(&HeaderMap::new()).is_empty());
}

#[test]
fn stored_headers_read_back() {
    let mut h = HeaderMap::new();
    h.append("set-cookie", "a=1; path=/".parse().unwrap());
    h.append("set-cookie", "b: 2".parse().unwrap());
    h.insert("x-utf8", http::HeaderValue::from_bytes("größe".as_bytes()).unwrap());
    h.insert("x-empty", "".parse().unwrap());
    let fields = parse_header_blob(&serialize_headers(&h));
    let expected: Vec<(String, String)> = vec![
        ("set-cookie".into(), "a=1; path=/".into()),
        ("set-cookie".into(), "b: 2".into()),
        ("x-utf8".into(), "größe".into()),
        ("x-empty".into(), "".into()),
    ];
    assert_eq!(fields, expected);
}

#[test]
fn header_blobs_that_are_no_utf8_are_read_with_replacements() {
    let fields = parse_header_blob(b"x-raw: a\xffb\nno separator\nx: 1\r\n");
    let expected: Vec<(String, String)> =
        vec![("x-raw".into(), "a\u{fffd}b".into()), ("x".into(), "1".into())];
    assert_eq!(fields, expected);
}

#[test]
fn header_lines_are_cut_at_the_first_separator() {
    let fields = parse_header_text("host: example.com: 8080\n: empty name\nbare:\n\nlast: x");
    let expected: Vec<(String, String)> = vec![
        ("host".into(), "example.com: 8080".into()),
        ("".into(), "empty name".into()),
        ("last".into(), "x".into()),
    ];
    assert_eq!(fields, expected);
}

#[test]
fn header_values_are_text_or_not() {
    assert_eq!(text_of_value(&b"text/html\t; q=1".to_vec()), Some("text/html\t; q=1".to_string()));
    assert_eq!(text_of_value(&b"caf\xc3\xa9".to_vec()), None);
    assert_eq!(text_of_value(&b"a\x7f".to_vec()), None);
    assert_eq!(text_of_value(&Vec::new()), Some(String::new()));
}

#[test]
fn the_first_value_of_a_header_is_taken() {
    let mut h = HeaderMap::new();
    h.append("content-type", "text/html".parse().unwrap());
    h.append("content-type", "text/plain".parse().unwrap());
    h.insert("x-raw", http::HeaderValue::from_bytes(b"\xff").unwrap());
    assert_eq!(header_text(&h, "Content-Type"), Some("text/html".to_string()));
    assert_eq!(header_text(&h, "x-raw"), None);
    assert_eq!(header_text(&h, "missing"), None);
    assert!(has_header(&h, "CONTENT-TYPE"));
    assert!(!has_header(&h, "upgrade"));
}

#[test]
fn quoted_names_are_kept_and_not_found() {
    let mut headers = http::HeaderMap::new();
    let quoted = http::HeaderName::from_lowercase(b"a\"b").unwrap();
    headers.insert(quoted.clone(), "1".parse().unwrap());
    headers.insert("connection", "a\"b, c".parse().unwrap());
    headers.insert("c", "2".parse().unwrap());
    assert!(!has_header(&headers, "a\"b"));
    assert!(has_header(&headers, "C"));
    strip_hop_headers(&mut headers, false);
    assert_eq!(headers.len(), 1);
    assert_eq!(headers[&quoted], "1");
    let blob = serialize_headers(&headers);
    assert_eq!(parse_header_blob(&blob), vec![("a\"b".to_string(), "1".to_string())]);
}

#[test]
fn a_connection_that_lists_itself_survives_an_upgrade() {
    let mut headers = HeaderMap::new();
    headers.insert(CONNECTION, "upgrade, connection, x-hop".parse().unwrap());
    headers.insert(UPGRADE, "websocket".parse().unwrap());
    headers.insert("x-hop", "1".parse().unwrap());
    let mut plain = headers.clone();
    strip_hop_headers(&mut headers, true);
    assert!(headers.contains_key(CONNECTION));
    assert!(headers.contains_key(UPGRADE));
    assert_eq!(headers.len(), 2);
    strip_hop_headers(&mut plain, false);
    assert!(plain.is_empty());
}

#[test]
fn long_names_are_looked_up_with_nul_for_what_is_no_token() {
    let name = "abcdefghijklmnopqrstuvwxyz-abcdefghijklmnopqrstuvwxyz-abcdefghijkl mnop";
    let upper = "ABCDEFGHIJKLMNOPQRSTUVWXYZ-abcdefghijklmnopqrstuvwxyz-abcdefghijkl:mnop";
    let token = "abcdefghijklmnopqrstuvwxyz-abcdefghijklmnopqrstuvwxyz-abcdefghijkl-mnop";
    assert!(name.len() > 64);
    let mut headers = HeaderMap::new();
    headers.insert(name, "1".parse().unwrap());
    headers.insert(token, "2".parse().unwrap());
    let stored = name.replace(' ', "\0");
    let blob = serialize_headers(&headers);
    let fields = parse_header_blob(&blob);
    assert_eq!(
        fields,
        vec![(stored, "1".to_string()), (token.to_string(), "2".to_string())]
    );
    assert_eq!(header_text(&headers, name).as_deref(), Some("1"));
    assert_eq!(header_text(&headers, upper).as_deref(), Some("1"));
    assert_eq!(header_text(&headers, &token.to_uppercase()).as_deref(), Some("2"));
    assert!(!has_header(&headers, "a b"));
    let long = "\u{fc}".repeat(40);
    assert!(!has_header(&headers, &long));
    headers.insert(CONNECTION, token.parse().unwrap());
    strip_hop_headers(&mut headers, false);
    assert_eq!(headers.len(), 1);
    assert!(has_header(&headers, name));
}
