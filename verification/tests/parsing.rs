use libyaml_safer::{
    format_event, yaml_parser_scan, yaml_parser_set_encoding, yaml_parser_set_input_string,
    Encoding, ErrorKind, EventData, Parser, ScalarStyle, TokenData,
};

/// The events of a stream in the test-suite format, or the kind and problem
/// of the first error.
fn event_lines(input: &[u8]) -> Result<Vec<String>, (ErrorKind, &'static str)> {
    let mut parser = Parser::new();
    parser.set_input_string(input);
    let mut lines = Vec::new();
    for _ in 0..1000 {
        match parser.parse() {
            Ok(event) => {
                lines.push(format_event(&event));
                if matches!(event.data, EventData::StreamEnd) {
                    return Ok(lines);
                }
            }
            Err(err) => return Err((err.kind(), err.problem())),
        }
    }
    panic!("the stream did not end");
}

#[test]
fn parse_empty_stream() {
    assert_eq!(event_lines(b"").unwrap(), vec!["+STR", "-STR"]);
}

#[test]
fn parse_block_mapping_with_flow_sequence() {
    let lines = event_lines(b"a: 1\nb: [x, 'y']\n").unwrap();
    assert_eq!(
        lines,
        vec![
            "+STR", "+DOC", "+MAP", "=VAL :a", "=VAL :1", "=VAL :b", "+SEQ", "=VAL :x", "=VAL 'y",
            "-SEQ", "-MAP", "-DOC", "-STR",
        ]
    );
}

#[test]
fn parse_explicit_document_with_literal_scalar() {
    let lines = event_lines(b"--- |\n  line\n...\n").unwrap();
    assert_eq!(lines, vec!["+STR", "+DOC ---", "=VAL |line\\n", "-DOC ...", "-STR"]);
}

#[test]
fn parse_folded_scalar() {
    let lines = event_lines(b">\n a\n b\n").unwrap();
    assert_eq!(lines, vec!["+STR", "+DOC", "=VAL >a b\\n", "-DOC", "-STR"]);
}

#[test]
fn parse_anchor_alias_and_tag() {
    let lines = event_lines(b"- &a !!str x\n- *a\n").unwrap();
    assert_eq!(
        lines,
        vec![
            "+STR",
            "+DOC",
            "+SEQ",
            "=VAL &a <tag:yaml.org,2002:str> :x",
            "=ALI *a",
            "-SEQ",
            "-DOC",
            "-STR",
        ]
    );
}

#[test]
fn parse_double_quoted_escapes() {
    let lines = event_lines(b"\"a\\tb\\u263A\"").unwrap();
    assert_eq!(lines, vec!["+STR", "+DOC", "=VAL \"a\\tb\u{263A}", "-DOC", "-STR"]);
}

#[test]
fn parse_empty_explicit_document_gives_empty_scalar() {
    let lines = event_lines(b"---\n...\n").unwrap();
    assert_eq!(lines, vec!["+STR", "+DOC ---", "=VAL :", "-DOC ...", "-STR"]);
}

#[test]
fn parse_two_documents() {
    let lines = event_lines(b"a\n---\nb\n").unwrap();
    assert_eq!(
        lines,
        vec!["+STR", "+DOC", "=VAL :a", "-DOC", "+DOC ---", "=VAL :b", "-DOC", "-STR"]
    );
}

#[test]
fn parse_first_event_is_stream_start_and_end_repeats() {
    let mut parser = Parser::new();
    parser.set_input_string(b"x");
    let first = parser.parse().unwrap();
    assert!(matches!(first.data, EventData::StreamStart { encoding: Encoding::Utf8 }));
    let mut ended = false;
    for _ in 0..10 {
        let event = parser.parse().unwrap();
        if matches!(event.data, EventData::StreamEnd) {
            ended = true;
            break;
        }
    }
    assert!(ended);
    for _ in 0..3 {
        let again = parser.parse().unwrap();
        assert!(matches!(again.data, EventData::StreamEnd));
    }
}

#[test]
fn parse_scalar_event_fields() {
    let mut parser = Parser::new();
    parser.set_input_string(b"'q'");
    let _ = parser.parse().unwrap();
    let _ = parser.parse().unwrap();
    let event = parser.parse().unwrap();
    match event.data {
        EventData::Scalar { anchor, tag, value, plain_implicit, quoted_implicit, style } => {
            assert_eq!(anchor, None);
            assert_eq!(tag, None);
            assert_eq!(value, "q");
            assert!(!plain_implicit);
            assert!(quoted_implicit);
            assert_eq!(style, ScalarStyle::SingleQuoted);
        }
        _ => panic!("expected a scalar"),
    }
    assert_eq!(event.start_mark.index, 0);
    assert_eq!(event.end_mark.index, 3);
}

#[test]
fn parse_utf16le_input_with_bom() {
    let input: &[u8] = b"\xff\xfea\x00:\x00 \x00b\x00";
    let mut parser = Parser::new();
    parser.set_input_string(input);
    let first = parser.parse().unwrap();
    assert!(matches!(first.data, EventData::StreamStart { encoding: Encoding::Utf16Le }));
    let lines = event_lines(input).unwrap();
    assert_eq!(lines, vec!["+STR", "+DOC", "+MAP", "=VAL :a", "=VAL :b", "-MAP", "-DOC", "-STR"]);
}

#[test]
fn parse_utf16be_input_with_set_encoding() {
    let mut parser = Parser::new();
    yaml_parser_set_input_string(&mut parser, b"\x00x");
    yaml_parser_set_encoding(&mut parser, Encoding::Utf16Be);
    let first = parser.parse().unwrap();
    assert!(matches!(first.data, EventData::StreamStart { encoding: Encoding::Utf16Be }));
    let _ = parser.parse().unwrap();
    let scalar = parser.parse().unwrap();
    assert!(matches!(scalar.data, EventData::Scalar { ref value, .. } if value == "x"));
}

#[test]
fn parse_utf8_bom_is_skipped() {
    let lines = event_lines(b"\xef\xbb\xbfx").unwrap();
    assert_eq!(lines, vec!["+STR", "+DOC", "=VAL :x", "-DOC", "-STR"]);
}

#[test]
fn parse_invalid_utf8_is_a_reader_error() {
    let mut parser = Parser::new();
    parser.set_input_string(b"\x80");
    let err = parser.parse().unwrap_err();
    assert_eq!(err.kind(), ErrorKind::Reader);
    assert_eq!(err.problem(), "invalid UTF-8");
    assert_eq!(err.reader_detail(), Some((0, 0x80)));
}

#[test]
fn parse_mapping_value_in_plain_scalar_is_a_scanner_error() {
    let err = event_lines(b"a: b: c").unwrap_err();
    assert_eq!(err, (ErrorKind::Scanner, "mapping values are not allowed in this context"));
}

#[test]
fn parse_unclosed_flow_sequence_is_a_parser_error() {
    let err = event_lines(b"[a, b").unwrap_err();
    assert_eq!(err, (ErrorKind::Parser, "did not find expected ',' or ']'"));
}

#[test]
fn parse_undefined_tag_handle_is_a_parser_error() {
    let err = event_lines(b"!x!y z").unwrap_err();
    assert_eq!(err, (ErrorKind::Parser, "found undefined tag handle"));
}

#[test]
fn parse_tag_directive_resolves_handles() {
    let lines = event_lines(b"%TAG !e! tag:example.com,2000:\n--- !e!foo bar\n").unwrap();
    assert_eq!(
        lines,
        vec!["+STR", "+DOC ---", "=VAL <tag:example.com,2000:foo> :bar", "-DOC", "-STR"]
    );
}

#[test]
fn parse_reset_starts_over() {
    let mut parser = Parser::new();
    parser.set_input_string(b"a");
    let _ = parser.parse().unwrap();
    parser.reset();
    parser.set_input_string(b"b");
    let first = parser.parse().unwrap();
    assert!(matches!(first.data, EventData::StreamStart { .. }));
}

#[test]
fn scan_tokens_of_a_mapping() {
    let mut parser = Parser::new();
    parser.set_input_string(b"a: [1]");
    let mut kinds = Vec::new();
    for _ in 0..20 {
        let token = yaml_parser_scan(&mut parser).unwrap();
        let end = matches!(token.data, TokenData::StreamEnd);
        kinds.push(match token.data {
            TokenData::StreamStart { .. } => "stream-start".to_string(),
            TokenData::StreamEnd => "stream-end".to_string(),
            TokenData::BlockMappingStart => "block-mapping-start".to_string(),
            TokenData::BlockEnd => "block-end".to_string(),
            TokenData::Key => "key".to_string(),
            TokenData::Value => "value".to_string(),
            TokenData::FlowSequenceStart => "[".to_string(),
            TokenData::FlowSequenceEnd => "]".to_string(),
            TokenData::Scalar { value, .. } => format!("scalar {value}"),
            _ => "other".to_string(),
        });
        if end {
            break;
        }
    }
    assert_eq!(
        kinds,
        vec![
            "stream-start",
            "block-mapping-start",
            "key",
            "scalar a",
            "value",
            "[",
            "scalar 1",
            "]",
            "block-end",
            "stream-end",
        ]
    );
    let again = yaml_parser_scan(&mut parser).unwrap();
    assert!(again.data.is_stream_end());
}

#[test]
fn scan_token_predicates() {
    let mut parser = Parser::new();
    parser.set_input_string(b"%YAML 1.1\n%TAG ! !x\n--- {k: v, l: w}\n");
    let mut seen = (false, false, false, false, false, false, false);
    for _ in 0..40 {
        let token = match yaml_parser_scan(&mut parser) {
            Ok(t) => t,
            Err(_) => break,
        };
        seen.0 |= token.data.is_version_directive();
        seen.1 |= token.data.is_tag_directive();
        seen.2 |= token.data.is_document_start();
        seen.3 |= token.data.is_key();
        seen.4 |= token.data.is_value();
        seen.5 |= token.data.is_flow_entry();
        seen.6 |= token.data.is_flow_mapping_end();
        if token.data.is_stream_end() {
            break;
        }
    }
    assert_eq!(seen, (true, true, true, true, true, true, true));
}

#[test]
fn parse_events_nest() {
    let input = b"a:\n  - [1, {b: c}, d: e]\n  - {f: [g]}\n- x\n";
    let mut parser = Parser::new();
    parser.set_input_string(b"a:\n  - [1, {b: c}, d: e]\n  - {f: [g]}\nh: |\n  i\n");
    let mut open: Vec<bool> = Vec::new();
    let mut count = 0;
    loop {
        let event = parser.parse().unwrap();
        count += 1;
        match event.data {
            EventData::SequenceStart { .. } => open.push(false),
            EventData::MappingStart { .. } => open.push(true),
            EventData::SequenceEnd => assert_eq!(open.pop(), Some(false)),
            EventData::MappingEnd => assert_eq!(open.pop(), Some(true)),
            EventData::DocumentStart { .. } | EventData::DocumentEnd { .. } => assert!(open.is_empty()),
            EventData::StreamEnd => break,
            _ => {}
        }
    }
    assert!(open.is_empty());
    assert_eq!(count, 28);
    let err = event_lines(input).unwrap_err();
    assert_eq!(err.0, ErrorKind::Parser);
}

fn scalar_value(event: &libyaml_safer::Event) -> Option<(String, Option<String>)> {
    match &event.data {
        EventData::Scalar { value, tag, .. } => Some((value.clone(), tag.clone())),
        _ => None,
    }
}

#[test]
fn doubled_quote_in_single_quoted_scalar() {
    let mut parser = Parser::new();
    parser.set_input_string(b"'it''s'");
    let _ = parser.parse().unwrap();
    let _ = parser.parse().unwrap();
    let ev = parser.parse().unwrap();
    assert_eq!(scalar_value(&ev), Some((String::from("it's"), None)));
}

#[test]
fn secondary_handle_resolves_to_its_prefix() {
    let mut parser = Parser::new();
    parser.set_input_string(b"!!str 5");
    let _ = parser.parse().unwrap();
    let _ = parser.parse().unwrap();
    let ev = parser.parse().unwrap();
    assert_eq!(
        scalar_value(&ev),
        Some((String::from("5"), Some(String::from("tag:yaml.org,2002:str"))))
    );
}

#[test]
fn reserved_indicator_cannot_start_a_token() {
    let mut parser = Parser::new();
    parser.set_input_string(b"@x");
    let first = yaml_parser_scan(&mut parser).unwrap();
    assert!(matches!(first.data, TokenData::StreamStart { .. }));
    let err = yaml_parser_scan(&mut parser).unwrap_err();
    assert_eq!(err.kind(), ErrorKind::Scanner);
    assert_eq!(err.problem(), "found character that cannot start any token");
}

#[test]
fn one_line_plain_scalar_value() {
    let mut parser = Parser::new();
    parser.set_input_string(b"hello-world");
    let _ = yaml_parser_scan(&mut parser).unwrap();
    let token = yaml_parser_scan(&mut parser).unwrap();
    match token.data {
        TokenData::Scalar { value, style } => {
            assert_eq!(value, "hello-world");
            assert_eq!(style, ScalarStyle::Plain);
        }
        _ => panic!("expected a scalar"),
    }
    assert_eq!(token.end_mark.column, 11);
}

#[test]
fn short_escapes_in_double_quoted_scalar() {
    let mut parser = Parser::new();
    parser.set_input_string(b"\"a\\tb\\\"c\"");
    let _ = parser.parse().unwrap();
    let _ = parser.parse().unwrap();
    let ev = parser.parse().unwrap();
    assert_eq!(scalar_value(&ev), Some((String::from("a\tb\"c"), None)));
}

#[test]
fn root_node_is_followed_by_document_end() {
    let lines = event_lines(b"[1, [2]]\n").unwrap();
    let close = lines.iter().rposition(|l| l == "-SEQ").unwrap();
    assert_eq!(lines[close + 1], "-DOC");
}

#[test]
fn multi_byte_uri_escape_is_one_character() {
    let mut parser = Parser::new();
    parser.set_input_string(b"!<tag:%C3%A9> x");
    let _ = parser.parse().unwrap();
    let _ = parser.parse().unwrap();
    let ev = parser.parse().unwrap();
    assert_eq!(
        scalar_value(&ev),
        Some((String::from("x"), Some(String::from("tag:\u{e9}"))))
    );
}

#[test]
fn one_line_scalars_keep_inner_spaces() {
    let mut parser = Parser::new();
    parser.set_input_string(b"hello big  world");
    let _ = yaml_parser_scan(&mut parser).unwrap();
    let token = yaml_parser_scan(&mut parser).unwrap();
    match token.data {
        TokenData::Scalar { value, .. } => assert_eq!(value, "hello big  world"),
        _ => panic!("expected a scalar"),
    }
    let mut parser = Parser::new();
    parser.set_input_string(b"' a  b '");
    let _ = parser.parse().unwrap();
    let _ = parser.parse().unwrap();
    let ev = parser.parse().unwrap();
    assert_eq!(scalar_value(&ev), Some((String::from(" a  b "), None)));
}

#[test]
fn anchored_and_tagged_scalar_event() {
    let mut parser = Parser::new();
    parser.set_input_string(b"&a !!str 5");
    let _ = parser.parse().unwrap();
    let _ = parser.parse().unwrap();
    let ev = parser.parse().unwrap();
    match ev.data {
        EventData::Scalar { anchor, tag, value, plain_implicit, quoted_implicit, style } => {
            assert_eq!(anchor.as_deref(), Some("a"));
            assert_eq!(tag.as_deref(), Some("tag:yaml.org,2002:str"));
            assert_eq!(value, "5");
            assert!(!plain_implicit);
            assert!(!quoted_implicit);
            assert_eq!(style, ScalarStyle::Plain);
        }
        _ => panic!("expected a scalar"),
    }
    let next = parser.parse().unwrap();
    assert!(matches!(next.data, EventData::DocumentEnd { .. }));
}

#[test]
fn explicit_document_carries_its_directives() {
    let mut parser = Parser::new();
    parser.set_input_string(b"%YAML 1.1\n%TAG !e! tag:example.com,2000:\n--- x");
    let _ = parser.parse().unwrap();
    let ev = parser.parse().unwrap();
    match ev.data {
        EventData::DocumentStart { version_directive, tag_directives, implicit } => {
            let v = version_directive.unwrap();
            assert_eq!((v.major, v.minor), (1, 1));
            assert_eq!(tag_directives.len(), 1);
            assert_eq!(tag_directives[0].handle, "!e!");
            assert_eq!(tag_directives[0].prefix, "tag:example.com,2000:");
            assert!(!implicit);
        }
        _ => panic!("expected a document start"),
    }
}

#[test]
fn tag_ended_by_comma_in_flow_sequence() {
    let mut parser = Parser::new();
    parser.set_input_string(b"[!!str, x]");
    let mut tags = Vec::new();
    for _ in 0..10 {
        let token = yaml_parser_scan(&mut parser).unwrap();
        match token.data {
            TokenData::Tag { handle, suffix } => tags.push((handle, suffix)),
            TokenData::StreamEnd => break,
            _ => {}
        }
    }
    assert_eq!(tags, vec![(String::from("!!"), String::from("str"))]);
}
