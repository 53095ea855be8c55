use libyaml_safer::{
    yaml_alias_event_initialize, yaml_document_end_event_initialize,
    yaml_document_start_event_initialize, yaml_emitter_delete, yaml_event_delete,
    yaml_mapping_end_event_initialize, yaml_mapping_start_event_initialize, yaml_parser_delete,
    yaml_parser_new, yaml_parser_set_input, yaml_scalar_event_initialize,
    yaml_sequence_end_event_initialize, yaml_sequence_start_event_initialize,
    yaml_stream_end_event_initialize, yaml_stream_start_event_initialize, Emitter, Encoding,
    Error, ErrorKind, Event, EventData, MappingStyle, Mark, ScalarStyle, SequenceStyle,
    TagDirective, STR_TAG,
};

#[test]
fn error_accessors() {
    let mark = Mark::zero();
    let reader = Error::reader("invalid UTF-8", 3, 255);
    assert_eq!(reader.kind(), ErrorKind::Reader);
    assert_eq!(reader.problem(), "invalid UTF-8");
    assert_eq!(reader.reader_detail(), Some((3, 255)));
    assert_eq!(reader.problem_mark(), None);
    assert_eq!(reader.context(), None);

    let scanner = Error::scanner("while scanning", mark, "found bad", mark);
    assert_eq!(scanner.kind(), ErrorKind::Scanner);
    assert_eq!(scanner.context(), Some("while scanning"));
    assert_eq!(scanner.context_mark(), Some(mark));
    assert_eq!(scanner.problem_mark(), Some(mark));

    let parser = Error::parser("", mark, "no more events", mark);
    assert_eq!(parser.kind(), ErrorKind::Parser);
    assert_eq!(parser.context(), None);
    assert_eq!(parser.problem(), "no more events");

    let composer = Error::composer("", mark, "found undefined alias", mark);
    assert_eq!(composer.kind(), ErrorKind::Composer);

    let emitter = Error::emitter("expected STREAM-START");
    assert_eq!(emitter.kind(), ErrorKind::Emitter);
    assert_eq!(emitter.problem(), "expected STREAM-START");
    assert_eq!(emitter.problem_mark(), None);

    let io = Error::io("disk full".to_string());
    assert_eq!(io.kind(), ErrorKind::Io);
    assert_eq!(io.problem(), "I/O error");
    assert_eq!(io.io_description().map(String::as_str), Some("disk full"));
    assert_eq!(io.reader_detail(), None);
}

#[test]
fn event_initializers() {
    let mut event = Event::stream_end();
    assert_eq!(yaml_stream_start_event_initialize(&mut event, Encoding::Utf16Le), Ok(()));
    assert!(matches!(event.data, EventData::StreamStart { encoding: Encoding::Utf16Le }));
    assert_eq!(yaml_stream_end_event_initialize(&mut event), Ok(()));
    assert!(matches!(event.data, EventData::StreamEnd));
    let tags = [TagDirective::new("!e!", "tag:example.com,2000:")];
    assert_eq!(yaml_document_start_event_initialize(&mut event, None, &tags, false), Ok(()));
    match &event.data {
        EventData::DocumentStart { version_directive, tag_directives, implicit } => {
            assert_eq!(*version_directive, None);
            assert_eq!(tag_directives.len(), 1);
            assert_eq!(tag_directives[0].handle, "!e!");
            assert_eq!(tag_directives[0].prefix, "tag:example.com,2000:");
            assert!(!implicit);
        }
        _ => panic!("expected a document start"),
    }
    assert_eq!(yaml_document_end_event_initialize(&mut event, true), Ok(()));
    assert!(matches!(event.data, EventData::DocumentEnd { implicit: true }));
    assert_eq!(yaml_alias_event_initialize(&mut event, "a"), Ok(()));
    assert!(matches!(event.data, EventData::Alias { ref anchor } if anchor == "a"));
    assert_eq!(
        yaml_scalar_event_initialize(&mut event, Some("s"), Some(STR_TAG), "v", false, true, ScalarStyle::Folded),
        Ok(())
    );
    match &event.data {
        EventData::Scalar { anchor, tag, value, plain_implicit, quoted_implicit, style } => {
            assert_eq!(anchor.as_deref(), Some("s"));
            assert_eq!(tag.as_deref(), Some(STR_TAG));
            assert_eq!(value, "v");
            assert!(!plain_implicit);
            assert!(*quoted_implicit);
            assert_eq!(*style, ScalarStyle::Folded);
        }
        _ => panic!("expected a scalar"),
    }
    assert_eq!(
        yaml_sequence_start_event_initialize(&mut event, None, None, true, SequenceStyle::Flow),
        Ok(())
    );
    assert!(matches!(event.data, EventData::SequenceStart { implicit: true, style: SequenceStyle::Flow, .. }));
    assert_eq!(yaml_sequence_end_event_initialize(&mut event), Ok(()));
    assert!(matches!(event.data, EventData::SequenceEnd));
    assert_eq!(
        yaml_mapping_start_event_initialize(&mut event, Some("m"), None, false, MappingStyle::Block),
        Ok(())
    );
    assert!(matches!(event.data, EventData::MappingStart { implicit: false, style: MappingStyle::Block, .. }));
    assert_eq!(yaml_mapping_end_event_initialize(&mut event), Ok(()));
    assert!(matches!(event.data, EventData::MappingEnd));
    yaml_event_delete(&mut event);
    assert!(matches!(event.data, EventData::NoEvent));
    assert_eq!(event.start_mark, Mark::zero());
}

#[test]
fn parser_and_emitter_lifecycle_functions() {
    let mut parser = yaml_parser_new();
    yaml_parser_set_input(&mut parser, b"k: v");
    yaml_parser_delete(&mut parser);
    // The input stays: the parser still reads it.
    let first = parser.parse().unwrap();
    assert!(matches!(first.data, EventData::StreamStart { .. }));
    let second = parser.parse().unwrap();
    assert!(matches!(second.data, EventData::DocumentStart { implicit: true, .. }));

    let mut emitter = Emitter::new();
    yaml_emitter_delete(&mut emitter);
    assert!(emitter.take_output().is_empty());
}

#[test]
fn tag_directive_constructors() {
    let t = TagDirective::new("!!", "tag:yaml.org,2002:");
    let d = t.duplicate();
    assert_eq!(d.handle, "!!");
    assert_eq!(d.prefix, "tag:yaml.org,2002:");
}

#[test]
fn error_messages() {
    let mark = Mark::zero();
    assert_eq!(
        Error::reader("invalid UTF-8", 12, 128).to_string(),
        "Reader error: invalid UTF-8 (offset 12, value 128)"
    );
    assert_eq!(
        Error::reader("invalid BOM", 0, -1).to_string(),
        "Reader error: invalid BOM (offset 0, value -1)"
    );
    assert_eq!(
        Error::scanner("while scanning a simple key", mark, "could not find expected ':'", mark).to_string(),
        "Scanner error: line 0 column 0: could not find expected ':' while scanning a simple key (line 0 column 0)"
    );
    assert_eq!(
        Error::parser("", mark, "no more events", mark).to_string(),
        "Parser error: line 0 column 0: no more events"
    );
    assert_eq!(
        Error::composer("", mark, "found undefined alias", mark).to_string(),
        "Composer error: line 0 column 0: found undefined alias"
    );
    assert_eq!(Error::emitter("expected STREAM-START").to_string(), "Emitter error: expected STREAM-START");
    assert_eq!(Error::io("disk full".to_string()).to_string(), "I/O error: disk full");
}

#[test]
fn error_message_of_a_composer_error_has_its_position() {
    let mut parser = libyaml_safer::Parser::new();
    parser.set_input_string(b"- *x\n");
    let err = libyaml_safer::Document::load(&mut parser).unwrap_err();
    assert_eq!(err.to_string(), "Composer error: line 0 column 2: found undefined alias");
}

#[test]
fn default_parser_and_emitter() {
    let mut parser = libyaml_safer::Parser::default();
    parser.set_input_string(b"z");
    assert!(matches!(parser.parse().unwrap().data, EventData::StreamStart { .. }));
    let mut emitter = Emitter::default();
    assert!(emitter.take_output().is_empty());
    assert!(libyaml_safer::yaml_emitter_emit(&mut emitter, Event::stream_start(Encoding::Utf8)).is_ok());
}

#[test]
fn token_delete_leaves_the_empty_token() {
    let mut parser = yaml_parser_new();
    yaml_parser_set_input(&mut parser, b"a");
    let mut token = libyaml_safer::yaml_parser_scan(&mut parser).unwrap();
    assert!(matches!(token.data, libyaml_safer::TokenData::StreamStart { .. }));
    libyaml_safer::yaml_token_delete(&mut token);
    assert!(matches!(token.data, libyaml_safer::TokenData::NoToken));
    assert_eq!(token.start_mark, Mark::zero());
    assert_eq!(token.end_mark, Mark::zero());
}
