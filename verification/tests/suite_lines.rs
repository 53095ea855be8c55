use libyaml_safer::{
    format_event, get_anchor, get_tag, get_value, parse_event_line, push_escaped, EventData,
    MappingStyle, ScalarStyle, SequenceStyle,
};

#[test]
fn escaped_value_is_written_with_backslashes() {
    let mut out = String::from("=VAL :");
    push_escaped(&mut out, "a\\b\n\t\r\0\x08c");
    assert_eq!(out, "=VAL :a\\\\b\\n\\t\\r\\0\\bc");
}

#[test]
fn escaped_value_reads_back_unchanged() {
    let value = "tab\there\\ and\nnew line\r\0\x08 \u{263A}";
    let mut line = String::from("=VAL \"");
    push_escaped(&mut line, value);
    let (read, style) = get_value(&line).unwrap();
    assert_eq!(read, value);
    assert_eq!(style, ScalarStyle::DoubleQuoted);
}

#[test]
fn get_value_reads_style_and_escapes() {
    assert_eq!(get_value("=VAL :a\\nb"), Some(("a\nb".to_string(), ScalarStyle::Plain)));
    assert_eq!(get_value("=VAL &x <t> 'q"), Some(("q".to_string(), ScalarStyle::SingleQuoted)));
    assert_eq!(get_value("=VAL |"), Some((String::new(), ScalarStyle::Literal)));
    assert_eq!(get_value("=VAL >f"), Some(("f".to_string(), ScalarStyle::Folded)));
    assert_eq!(get_value("=VAL :bad\\q"), None);
    assert_eq!(get_value("=VAL :end\\"), None);
    assert_eq!(get_value("=VAL"), None);
}

#[test]
fn get_anchor_and_tag_of_lines() {
    assert_eq!(get_anchor('&', "+MAP &anc <t>"), Some("anc".to_string()));
    assert_eq!(get_anchor('&', "+SEQ &last"), Some("last".to_string()));
    assert_eq!(get_anchor('*', "=ALI *name"), Some("name".to_string()));
    assert_eq!(get_anchor('*', "=ALI *"), None);
    assert_eq!(get_anchor('&', "+MAP"), None);
    assert_eq!(get_tag("+SEQ <!foo>"), Some("!foo".to_string()));
    assert_eq!(get_tag("+SEQ <open"), None);
    assert_eq!(get_tag("+SEQ"), None);
}

#[test]
fn parse_event_lines() {
    assert!(matches!(parse_event_line("+STR").unwrap().data, EventData::StreamStart { .. }));
    assert!(matches!(parse_event_line("-STR").unwrap().data, EventData::StreamEnd));
    assert!(matches!(
        parse_event_line("+DOC ---").unwrap().data,
        EventData::DocumentStart { implicit: false, .. }
    ));
    assert!(matches!(
        parse_event_line("+DOC").unwrap().data,
        EventData::DocumentStart { implicit: true, .. }
    ));
    assert!(matches!(
        parse_event_line("-DOC ...").unwrap().data,
        EventData::DocumentEnd { implicit: false }
    ));
    assert!(matches!(parse_event_line("-DOC").unwrap().data, EventData::DocumentEnd { implicit: true }));
    assert!(matches!(parse_event_line("-MAP").unwrap().data, EventData::MappingEnd));
    assert!(matches!(parse_event_line("-SEQ").unwrap().data, EventData::SequenceEnd));
    match parse_event_line("+MAP &m <!t>").unwrap().data {
        EventData::MappingStart { anchor, tag, implicit, style } => {
            assert_eq!(anchor.as_deref(), Some("m"));
            assert_eq!(tag.as_deref(), Some("!t"));
            assert!(!implicit);
            assert_eq!(style, MappingStyle::Block);
        }
        _ => panic!("expected a mapping start"),
    }
    match parse_event_line("+SEQ").unwrap().data {
        EventData::SequenceStart { anchor, tag, style, .. } => {
            assert_eq!(anchor, None);
            assert_eq!(tag, None);
            assert_eq!(style, SequenceStyle::Block);
        }
        _ => panic!("expected a sequence start"),
    }
    match parse_event_line("=VAL &a <tag:x> \"x\\ty").unwrap().data {
        EventData::Scalar { anchor, tag, value, plain_implicit, quoted_implicit, style } => {
            assert_eq!(anchor.as_deref(), Some("a"));
            assert_eq!(tag.as_deref(), Some("tag:x"));
            assert_eq!(value, "x\ty");
            assert!(!plain_implicit);
            assert!(!quoted_implicit);
            assert_eq!(style, ScalarStyle::DoubleQuoted);
        }
        _ => panic!("expected a scalar"),
    }
    match parse_event_line("=VAL :v").unwrap().data {
        EventData::Scalar { plain_implicit, quoted_implicit, .. } => {
            assert!(plain_implicit);
            assert!(quoted_implicit);
        }
        _ => panic!("expected a scalar"),
    }
    match parse_event_line("=ALI *a1").unwrap().data {
        EventData::Alias { anchor } => assert_eq!(anchor, "a1"),
        _ => panic!("expected an alias"),
    }
    assert!(parse_event_line("=ALI *").is_none());
    assert!(parse_event_line("=VAL noval").is_none());
    assert!(parse_event_line("bogus").is_none());
    assert!(parse_event_line("").is_none());
}

#[test]
fn format_and_read_back_lines() {
    for line in ["+STR", "-STR", "+DOC ---", "-DOC", "+MAP &m <!t>", "-MAP", "+SEQ", "-SEQ", "=VAL :a\\tb", "=ALI *x"] {
        let event = parse_event_line(line).unwrap();
        assert_eq!(format_event(&event), line);
    }
}
