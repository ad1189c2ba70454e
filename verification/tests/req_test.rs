use shiori3::error::ParseError;
use shiori3::parsers::req::ShioriRequest;
use shiori3::parsers::shiori::{KeyKind, Method, ShioriParser};
use shiori3::text::{collect_chars, window_string};

fn shiori3_1() -> String {
    let mut text = String::new();
    text.push_str("GET SHIORI/3.0\r\n");
    text.push_str("Charset: UTF-8\r\n");
    text.push_str("ID: version\r\n");
    text.push_str("SecurityLevel: local\r\n");
    text.push_str("Sender: SSP\r\n");
    text.push_str("\r\n");
    text
}

fn shiori3_2() -> String {
    let mut text = String::new();
    text.push_str("NOTIFY SHIORI/3.0\r\n");
    text.push_str("Charset: UTF-8\r\n");
    text.push_str("Sender: SSP\r\n");
    text.push_str("SecurityLevel: local\r\n");
    text.push_str("ID: ownerghostname\r\n");
    text.push_str("Reference0: セキュリティボール\r\n");
    text.push_str("\r\n");
    text
}

fn shiori2_1() -> String {
    let mut text = String::new();
    text.push_str("GET Version/2.6\r\n");
    text.push_str("Charset: UTF-8\r\n");
    text.push_str("Sender: SSP\r\n");
    text.push_str("\r\n");
    text
}

#[test]
fn req_req_1() {
    let src = shiori3_1();
    assert_eq!(src.len(), 82);
    let grammar = src.as_str();

    let req = ShioriRequest::parse(grammar).unwrap_or_else(|e| panic!("{}", e.message()));
    assert_eq!(req.version, 30);
    assert_eq!(req.charset.clone().unwrap(), "UTF-8");
    assert_eq!(req.sender.clone().unwrap(), "SSP");
    assert_eq!(req.security_level.clone().unwrap(), "local");
    assert_eq!(req.method, Method::Get);
    assert_eq!(req.id.clone().unwrap(), "version");
    assert_eq!(req.status, None);
    assert_eq!(req.base_id, None);

    assert_eq!(req.dic.len(), 4);
    assert_eq!(req.dic_get("Charset").unwrap(), "UTF-8");
    assert_eq!(req.dic_get("ID").unwrap(), "version");
    assert_eq!(req.dic_get("SecurityLevel").unwrap(), "local");
    assert_eq!(req.dic_get("Sender").unwrap(), "SSP");

    assert_eq!(req.key_values.len(), 4);

    assert_eq!(req.reference.len(), 0);
}

#[test]
fn req_req_2() {
    let src = shiori3_2();
    assert_eq!(src.len(), 133);
    let grammar = src.as_str();

    let req = ShioriRequest::parse(grammar).unwrap_or_else(|e| panic!("{}", e.message()));

    assert_eq!(req.version, 30);
    assert_eq!(req.charset.clone().unwrap(), "UTF-8");
    assert_eq!(req.sender.clone().unwrap(), "SSP");
    assert_eq!(req.security_level.clone().unwrap(), "local");
    assert_eq!(req.method, Method::Notify);
    assert_eq!(req.id.clone().unwrap(), "ownerghostname");
    assert_eq!(req.status, None);
    assert_eq!(req.base_id, None);

    assert_eq!(req.dic.len(), 5);
    assert_eq!(req.dic_get("Reference0").unwrap(), "セキュリティボール");

    assert_eq!(req.key_values.len(), 5);

    assert_eq!(req.reference.len(), 1);
    let mut it = req.reference.into_iter();
    assert_eq!(it.next().unwrap(), (0i32, "セキュリティボール".to_string()));
    assert_eq!(it.next(), None);
}

#[test]
fn req_req_3() {
    let src = shiori2_1();
    let grammar = src.as_str();

    let req = ShioriRequest::parse(grammar).unwrap_or_else(|e| panic!("{}", e.message()));

    assert_eq!(req.version, 26);
    assert_eq!(req.charset.clone().unwrap(), "UTF-8");
    assert_eq!(req.sender.clone().unwrap(), "SSP");
    assert_eq!(req.method, Method::Get);
    assert_eq!(req.id.clone().unwrap(), "Version");
    assert_eq!(req.security_level, None);
    assert_eq!(req.status, None);
    assert_eq!(req.base_id, None);

    assert_eq!(req.dic.len(), 2);
    assert_eq!(req.key_values.len(), 2);
    assert_eq!(req.reference.len(), 0);
}

fn line_texts(text: &str) -> Vec<String> {
    let chars = collect_chars(text);
    let mut lines = Vec::new();
    let mut from = 0;
    loop {
        let end = ShioriParser::line_end(&chars, from);
        if end == chars.len() {
            lines.push(window_string(&chars, from, end));
            return lines;
        }
        lines.push(window_string(&chars, from, end + 2));
        from = end + 2;
    }
}

#[test]
fn shiori_req_1() {
    let src = shiori3_1();
    let grammar = src.as_str();
    assert_eq!(grammar.len(), 82);
    assert_eq!(
        line_texts(grammar),
        vec![
            "GET SHIORI/3.0\r\n",
            "Charset: UTF-8\r\n",
            "ID: version\r\n",
            "SecurityLevel: local\r\n",
            "Sender: SSP\r\n",
            "\r\n",
            ""
        ]
    );
    let req = ShioriRequest::parse(grammar).unwrap();
    assert_eq!(req.text, grammar);
    assert_eq!(req.key_values.len(), 4);
}

#[test]
fn shiori_req_2() {
    let src = shiori3_2();
    let grammar = src.as_str();
    assert_eq!(grammar.len(), 133);
    let req = ShioriRequest::parse(grammar).unwrap();
    assert_eq!(req.text, grammar);
    assert_eq!(req.method, Method::Notify);
    assert_eq!(req.version, 30);
    let entries: Vec<(KeyKind, &str)> = req.key_values.iter().map(|e| (e.0, e.2.as_str())).collect();
    assert_eq!(
        entries,
        vec![
            (KeyKind::Charset, "UTF-8"),
            (KeyKind::Sender, "SSP"),
            (KeyKind::SecurityLevel, "local"),
            (KeyKind::Id, "ownerghostname"),
            (KeyKind::Reference(0), "セキュリティボール"),
        ]
    );
}

#[test]
fn shiori_req_3() {
    let src = shiori2_1();
    let grammar = src.as_str();
    let req = ShioriRequest::parse(grammar).unwrap();
    assert_eq!(req.text, grammar);
    assert_eq!(req.method, Method::Get);
    assert_eq!(req.id.as_deref(), Some("Version"));
    assert_eq!(req.version, 20 + 6);
    let entries: Vec<(KeyKind, &str)> = req.key_values.iter().map(|e| (e.0, e.2.as_str())).collect();
    assert_eq!(entries, vec![(KeyKind::Charset, "UTF-8"), (KeyKind::Sender, "SSP")]);
}

#[test]
fn modern_request_fields() {
    let req = ShioriRequest::parse(
        "GET SHIORI/3.0\r\nCharset: UTF-8\r\nID: version\r\nSecurityLevel: local\r\nSender: SSP\r\n\r\n",
    )
    .unwrap();
    assert_eq!(req.version, 30);
    assert_eq!(req.method, Method::Get);
    assert_eq!(req.charset, Some("UTF-8".to_string()));
    assert_eq!(req.id, Some("version".to_string()));
    assert_eq!(req.security_level, Some("local".to_string()));
    assert_eq!(req.sender, Some("SSP".to_string()));
    assert_eq!(req.dic.len(), 4);
    assert!(req.reference.is_empty());
    assert_eq!(
        req.key_values,
        vec![
            (KeyKind::Charset, "Charset".to_string(), "UTF-8".to_string()),
            (KeyKind::Id, "ID".to_string(), "version".to_string()),
            (KeyKind::SecurityLevel, "SecurityLevel".to_string(), "local".to_string()),
            (KeyKind::Sender, "Sender".to_string(), "SSP".to_string()),
        ]
    );
    assert_eq!(
        req.text,
        "GET SHIORI/3.0\r\nCharset: UTF-8\r\nID: version\r\nSecurityLevel: local\r\nSender: SSP\r\n\r\n"
    );
}

#[test]
fn legacy_request_takes_id_from_header() {
    let req = ShioriRequest::parse("GET OPEN/2.6\r\nCharset: UTF-8\r\nSender: SSP\r\n\r\n").unwrap();
    assert_eq!(req.version, 26);
    assert_eq!(req.id, Some("OPEN".to_string()));
    assert_eq!(req.dic_get("ID"), None);
}

#[test]
fn references_keep_order_and_duplicates() {
    let req = ShioriRequest::parse("NOTIFY SHIORI/3.0\r\nReference0: A\r\nReference0: B\r\n\r\n").unwrap();
    assert_eq!(req.reference, vec![(0, "A".to_string()), (0, "B".to_string())]);
    assert_eq!(req.dic.len(), 1);
    assert_eq!(req.dic_get("Reference0").unwrap(), "A");
    assert_eq!(req.key_values.len(), 2);
}

#[test]
fn first_occurrence_wins() {
    let req = ShioriRequest::parse("NOTIFY SHIORI/3.0\r\nSender: X\r\nSender: Y\r\n\r\n").unwrap();
    assert_eq!(req.dic_get("Sender").unwrap(), "X");
    assert_eq!(req.sender, Some("X".to_string()));
    assert_eq!(req.dic.len(), 1);
    assert_eq!(req.key_values.len(), 2);
}

#[test]
fn dictionary_lists_each_key_once_in_order_of_first_appearance() {
    let req = ShioriRequest::parse(
        "GET SHIORI/3.0\r\nb: 1\r\na: 2\r\nb: 3\r\nc: 4\r\na: 5\r\nb: 6\r\n\r\n",
    )
    .unwrap();
    assert_eq!(
        req.dic,
        vec![
            ("b".to_string(), "1".to_string()),
            ("a".to_string(), "2".to_string()),
            ("c".to_string(), "4".to_string()),
        ]
    );
    assert_eq!(req.key_values.len(), 6);
    assert_eq!(req.dic_index("c"), Some(2));
    assert!(req.is_canonical());
}

#[test]
fn header_id_counts_as_first_occurrence() {
    let req = ShioriRequest::parse("GET OPEN/2.6\r\nID: later\r\n\r\n").unwrap();
    assert_eq!(req.id, Some("OPEN".to_string()));
    assert_eq!(req.dic_get("ID").unwrap(), "later");
}

#[test]
fn minor_number_is_clamped() {
    assert_eq!(ShioriRequest::parse("GET X/2.0\r\n").unwrap().version, 20);
    assert_eq!(ShioriRequest::parse("GET X/2.9\r\n").unwrap().version, 29);
    assert_eq!(ShioriRequest::parse("GET X/2.10\r\n").unwrap().version, 29);
    assert_eq!(ShioriRequest::parse("GET X/2.99999999999999999999999\r\n").unwrap().version, 29);
    assert_eq!(ShioriRequest::parse("GET X/2.007\r\n").unwrap().version, 27);
}

#[test]
fn malformed_headers() {
    for text in [
        "",
        "GET",
        "GET ",
        "get SHIORI/3.0\r\n",
        "POST SHIORI/3.0\r\n",
        "GET  SHIORI/3.0\r\n",
        "GET SHIORI/3.0 \r\n",
        "GET OPEN SHIORI/2.6\r\n",
        "GET /2.6\r\n",
        "GET OPEN/2.\r\n",
        "GET OPEN/.6\r\n",
        "GET OPEN/26\r\n",
        "GET OPEN/2.x\r\n",
        "GET OPEN/a.6\r\n",
        "\r\nGET SHIORI/3.0\r\n",
    ] {
        assert_eq!(ShioriRequest::parse(text).err(), Some(ParseError::MalformedHeader), "{:?}", text);
    }
}

#[test]
fn malformed_key_value_carries_line_and_position() {
    let err = ShioriRequest::parse("GET SHIORI/3.0\r\nCharset: UTF-8\r\nbroken line\r\nID: x\r\n\r\n").err();
    assert_eq!(
        err,
        Some(ParseError::MalformedKeyValue { line: "broken line".to_string(), position: 2 })
    );
    let err = ShioriRequest::parse("GET SHIORI/3.0\r\nKey:value").err();
    assert_eq!(err, Some(ParseError::MalformedKeyValue { line: "Key:value".to_string(), position: 1 }));
}

#[test]
fn message_ends_at_blank_line_or_end_of_input() {
    let req = ShioriRequest::parse("GET SHIORI/3.0\r\nID: a\r\n\r\nnot a key value line\r\n").unwrap();
    assert_eq!(req.key_values.len(), 1);
    let req = ShioriRequest::parse("GET SHIORI/3.0\r\nID: a\r\n").unwrap();
    assert_eq!(req.id, Some("a".to_string()));
    let req = ShioriRequest::parse("GET SHIORI/3.0\r\nID: a").unwrap();
    assert_eq!(req.id, Some("a".to_string()));
    let req = ShioriRequest::parse("GET SHIORI/3.0").unwrap();
    assert_eq!(req.key_values.len(), 0);
}

#[test]
fn value_keeps_control_characters_and_separators() {
    let req = ShioriRequest::parse("GET SHIORI/3.0\r\nX: a\rb\nc: d\u{1}\r\n\r\n").unwrap();
    assert_eq!(req.dic_get("X").unwrap(), "a\rb\nc: d\u{1}");
    let req = ShioriRequest::parse("GET SHIORI/3.0\r\nX: \r\n\r\n").unwrap();
    assert_eq!(req.dic_get("X").unwrap(), "");
}

#[test]
fn reference_numbers() {
    let req = ShioriRequest::parse(
        "GET SHIORI/3.0\r\nReference007: a\r\nReference2147483647: b\r\nReference2147483648: c\r\nReference: d\r\nReference1x: e\r\n\r\n",
    )
    .unwrap();
    assert_eq!(req.reference, vec![(7, "a".to_string()), (2147483647, "b".to_string())]);
    let kinds: Vec<KeyKind> = req.key_values.iter().map(|e| e.0).collect();
    assert_eq!(
        kinds,
        vec![
            KeyKind::Reference(7),
            KeyKind::Reference(2147483647),
            KeyKind::Other,
            KeyKind::Other,
            KeyKind::Other
        ]
    );
    assert_eq!(req.dic.len(), 5);
}

#[test]
fn new_request_is_empty() {
    let req = ShioriRequest::new("abc");
    assert_eq!(req.text, "abc");
    assert_eq!(req.version, 0);
    assert_eq!(req.method, Method::Get);
    assert_eq!(req.id, None);
    assert!(req.dic.is_empty() && req.key_values.is_empty() && req.reference.is_empty());
    assert_eq!(req.dic_index("abc"), None);
}
