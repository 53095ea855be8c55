use libyaml_safer::{
    yaml_emitter_close, yaml_emitter_dump, yaml_emitter_emit, yaml_emitter_flush,
    yaml_emitter_new, yaml_emitter_open, yaml_emitter_set_break, yaml_emitter_set_canonical,
    yaml_emitter_set_encoding, yaml_emitter_set_indent, yaml_emitter_set_output_string,
    yaml_emitter_set_unicode, yaml_emitter_set_width, Break, Document, Emitter, Encoding,
    ErrorKind, Event, MappingStyle, Parser, ScalarStyle, SequenceStyle,
};

fn emit_all(emitter: &mut Emitter, events: Vec<Event>) {
    for event in events {
        yaml_emitter_emit(emitter, event).unwrap();
    }
}

fn plain(value: &str) -> Event {
    Event::scalar(None, None, value, true, true, ScalarStyle::Plain)
}

fn text(emitter: &mut Emitter) -> String {
    String::from_utf8(emitter.take_output()).unwrap()
}

#[test]
fn emit_plain_scalar_document() {
    let mut emitter = Emitter::new();
    emit_all(
        &mut emitter,
        vec![
            Event::stream_start(Encoding::Utf8),
            Event::document_start(None, &[], true),
            plain("hello"),
            Event::document_end(true),
            Event::stream_end(),
        ],
    );
    assert_eq!(text(&mut emitter), "hello\n");
}

#[test]
fn emit_block_mapping_with_block_sequence() {
    let mut emitter = Emitter::new();
    emit_all(
        &mut emitter,
        vec![
            Event::stream_start(Encoding::Utf8),
            Event::document_start(None, &[], true),
            Event::mapping_start(None, None, true, MappingStyle::Block),
            plain("a"),
            plain("1"),
            plain("b"),
            Event::sequence_start(None, None, true, SequenceStyle::Block),
            plain("x"),
            plain("y"),
            Event::sequence_end(),
            Event::mapping_end(),
            Event::document_end(true),
            Event::stream_end(),
        ],
    );
    assert_eq!(text(&mut emitter), "a: 1\nb:\n- x\n- y\n");
}

#[test]
fn emit_flow_sequence() {
    let mut emitter = Emitter::new();
    emit_all(
        &mut emitter,
        vec![
            Event::stream_start(Encoding::Utf8),
            Event::document_start(None, &[], true),
            Event::sequence_start(None, None, true, SequenceStyle::Flow),
            plain("1"),
            plain("2"),
            Event::sequence_end(),
            Event::document_end(true),
            Event::stream_end(),
        ],
    );
    assert_eq!(text(&mut emitter), "[1, 2]\n");
}

#[test]
fn emit_explicit_document_markers() {
    let mut emitter = Emitter::new();
    emit_all(
        &mut emitter,
        vec![
            Event::stream_start(Encoding::Utf8),
            Event::document_start(None, &[], false),
            plain("x"),
            Event::document_end(false),
            Event::stream_end(),
        ],
    );
    assert_eq!(text(&mut emitter), "--- x\n...\n");
}

#[test]
fn emit_anchor_alias_and_tag() {
    let mut emitter = Emitter::new();
    emit_all(
        &mut emitter,
        vec![
            Event::stream_start(Encoding::Utf8),
            Event::document_start(None, &[], true),
            Event::sequence_start(None, None, true, SequenceStyle::Block),
            Event::scalar(Some("a"), Some("tag:yaml.org,2002:str"), "x", false, false, ScalarStyle::Plain),
            Event::alias("a"),
            Event::sequence_end(),
            Event::document_end(true),
            Event::stream_end(),
        ],
    );
    assert_eq!(text(&mut emitter), "- &a !!str x\n- *a\n");
}

#[test]
fn emit_utf16le_output_has_a_bom() {
    let mut emitter = yaml_emitter_new();
    yaml_emitter_set_encoding(&mut emitter, Encoding::Utf16Le);
    emit_all(
        &mut emitter,
        vec![
            Event::stream_start(Encoding::Utf8),
            Event::document_start(None, &[], true),
            plain("a"),
            Event::document_end(true),
            Event::stream_end(),
        ],
    );
    assert_eq!(emitter.take_output(), vec![0xff, 0xfe, b'a', 0, b'\n', 0]);
}

#[test]
fn emit_utf16be_output() {
    let mut emitter = Emitter::new();
    emit_all(
        &mut emitter,
        vec![
            Event::stream_start(Encoding::Utf16Be),
            Event::document_start(None, &[], true),
            plain("b"),
            Event::document_end(true),
            Event::stream_end(),
        ],
    );
    assert_eq!(emitter.take_output(), vec![0xfe, 0xff, 0, b'b', 0, b'\n']);
}

#[test]
fn emit_escapes_non_ascii_without_unicode() {
    let mut emitter = Emitter::new();
    yaml_emitter_set_unicode(&mut emitter, false);
    emit_all(
        &mut emitter,
        vec![
            Event::stream_start(Encoding::Utf8),
            Event::document_start(None, &[], true),
            Event::scalar(None, None, "\u{263A}", true, true, ScalarStyle::DoubleQuoted),
            Event::document_end(true),
            Event::stream_end(),
        ],
    );
    assert_eq!(text(&mut emitter), "\"\\u263A\"\n");
}

#[test]
fn emit_keeps_non_ascii_with_unicode() {
    let mut emitter = Emitter::new();
    yaml_emitter_set_unicode(&mut emitter, true);
    emit_all(
        &mut emitter,
        vec![
            Event::stream_start(Encoding::Utf8),
            Event::document_start(None, &[], true),
            Event::scalar(None, None, "\u{263A}", true, true, ScalarStyle::DoubleQuoted),
            Event::document_end(true),
            Event::stream_end(),
        ],
    );
    assert_eq!(text(&mut emitter), "\"\u{263A}\"\n");
}

#[test]
fn emit_single_quoted_doubles_quotes() {
    let mut emitter = Emitter::new();
    emit_all(
        &mut emitter,
        vec![
            Event::stream_start(Encoding::Utf8),
            Event::document_start(None, &[], true),
            Event::scalar(None, None, "it's", true, true, ScalarStyle::SingleQuoted),
            Event::document_end(true),
            Event::stream_end(),
        ],
    );
    assert_eq!(text(&mut emitter), "'it''s'\n");
}

#[test]
fn emit_literal_scalar() {
    let mut emitter = Emitter::new();
    emit_all(
        &mut emitter,
        vec![
            Event::stream_start(Encoding::Utf8),
            Event::document_start(None, &[], true),
            Event::scalar(None, None, "a\nb\n", true, true, ScalarStyle::Literal),
            Event::document_end(true),
            Event::stream_end(),
        ],
    );
    assert_eq!(text(&mut emitter), "|\n  a\n  b\n");
}

#[test]
fn emit_with_indent_and_line_break() {
    let mut emitter = Emitter::new();
    yaml_emitter_set_indent(&mut emitter, 4);
    yaml_emitter_set_break(&mut emitter, Break::CrLn);
    yaml_emitter_set_width(&mut emitter, 80);
    yaml_emitter_set_canonical(&mut emitter, false);
    emit_all(
        &mut emitter,
        vec![
            Event::stream_start(Encoding::Utf8),
            Event::document_start(None, &[], true),
            Event::mapping_start(None, None, true, MappingStyle::Block),
            plain("a"),
            Event::mapping_start(None, None, true, MappingStyle::Block),
            plain("b"),
            plain("c"),
            Event::mapping_end(),
            Event::mapping_end(),
            Event::document_end(true),
            Event::stream_end(),
        ],
    );
    assert_eq!(text(&mut emitter), "a:\r\n    b: c\r\n");
}

#[test]
fn emit_before_stream_start_fails() {
    let mut emitter = Emitter::new();
    let err = yaml_emitter_emit(&mut emitter, plain("x")).unwrap_err();
    assert_eq!(err.kind(), ErrorKind::Emitter);
    assert_eq!(err.problem(), "expected STREAM-START");
}

#[test]
fn emit_after_stream_end_fails() {
    let mut emitter = Emitter::new();
    emit_all(&mut emitter, vec![Event::stream_start(Encoding::Utf8), Event::stream_end()]);
    let err = yaml_emitter_emit(&mut emitter, Event::stream_end()).unwrap_err();
    assert_eq!(err.problem(), "expected nothing after STREAM-END");
}

#[test]
fn emit_scalar_where_a_document_is_expected_fails() {
    let mut emitter = Emitter::new();
    emit_all(&mut emitter, vec![Event::stream_start(Encoding::Utf8)]);
    let err = yaml_emitter_emit(&mut emitter, plain("x")).unwrap_err();
    assert_eq!(err.problem(), "expected DOCUMENT-START or STREAM-END");
}

#[test]
fn emit_holds_a_document_start_until_more_events_come() {
    let mut emitter = Emitter::new();
    emit_all(&mut emitter, vec![Event::stream_start(Encoding::Utf8)]);
    yaml_emitter_emit(&mut emitter, Event::document_start(None, &[], false)).unwrap();
    assert!(emitter.take_output().is_empty());
    emit_all(&mut emitter, vec![plain("x"), Event::document_end(true), Event::stream_end()]);
    assert_eq!(text(&mut emitter), "--- x\n");
}

#[test]
fn emit_bad_anchor_fails() {
    let mut emitter = Emitter::new();
    emit_all(
        &mut emitter,
        vec![Event::stream_start(Encoding::Utf8), Event::document_start(None, &[], true)],
    );
    let err =
        yaml_emitter_emit(&mut emitter, Event::scalar(Some("a b"), None, "x", true, true, ScalarStyle::Plain))
            .unwrap_err();
    assert_eq!(err.problem(), "anchor value must contain alphanumerical characters only");
}

#[test]
fn flush_writes_pending_text() {
    let mut emitter = Emitter::new();
    emit_all(
        &mut emitter,
        vec![
            Event::stream_start(Encoding::Utf8),
            Event::document_start(None, &[], true),
            plain("x"),
        ],
    );
    yaml_emitter_flush(&mut emitter);
    assert_eq!(text(&mut emitter), "x");
}

#[test]
fn set_output_string_clears_the_output() {
    let mut emitter = Emitter::new();
    emit_all(
        &mut emitter,
        vec![
            Event::stream_start(Encoding::Utf8),
            Event::document_start(None, &[], true),
            plain("x"),
            Event::document_end(true),
        ],
    );
    yaml_emitter_flush(&mut emitter);
    yaml_emitter_set_output_string(&mut emitter);
    assert!(emitter.take_output().is_empty());
}

#[test]
fn dump_shared_node_gets_an_anchor() {
    let mut doc = Document::new(None, &[], true, true);
    let seq = doc.add_sequence(None, SequenceStyle::Block);
    let a = doc.add_scalar(None, "a", ScalarStyle::Plain);
    doc.append_sequence_item(seq, a);
    doc.append_sequence_item(seq, a);
    let mut emitter = Emitter::new();
    doc.dump(&mut emitter).unwrap();
    yaml_emitter_close(&mut emitter).unwrap();
    assert_eq!(text(&mut emitter), "- &id001 a\n- *id001\n");
}

#[test]
fn dump_empty_document_closes_the_stream() {
    let mut emitter = Emitter::new();
    yaml_emitter_dump(&mut emitter, Document::new(None, &[], true, true)).unwrap();
    let err = yaml_emitter_emit(&mut emitter, Event::stream_end()).unwrap_err();
    assert_eq!(err.problem(), "expected nothing after STREAM-END");
}

#[test]
fn open_dump_close_round_trip() {
    let mut parser = Parser::new();
    parser.set_input_string(b"- [a, b]\n- {c: d}\n- 'e'\n");
    let doc = Document::load(&mut parser).unwrap();
    let mut emitter = Emitter::new();
    yaml_emitter_open(&mut emitter).unwrap();
    yaml_emitter_dump(&mut emitter, doc).unwrap();
    yaml_emitter_close(&mut emitter).unwrap();
    yaml_emitter_close(&mut emitter).unwrap();
    assert_eq!(text(&mut emitter), "- [a, b]\n- {c: d}\n- 'e'\n");
}

#[test]
fn emit_refuses_an_end_of_the_wrong_kind() {
    let mut emitter = Emitter::new();
    emit_all(
        &mut emitter,
        vec![
            Event::stream_start(Encoding::Utf8),
            Event::document_start(None, &[], true),
            Event::sequence_start(None, None, true, SequenceStyle::Block),
            plain("a"),
        ],
    );
    let err = yaml_emitter_emit(&mut emitter, Event::mapping_end()).unwrap_err();
    assert_eq!(err.problem(), "expected SCALAR, SEQUENCE-START, MAPPING-START, or ALIAS");
}

#[test]
fn version_directive_forces_document_start_marker() {
    let mut parser = Parser::new();
    parser.set_input_string(b"%YAML 1.1\n--- x\n");
    let _ = parser.parse().unwrap();
    let version = match parser.parse().unwrap().data {
        libyaml_safer::EventData::DocumentStart { version_directive, .. } => version_directive,
        _ => panic!("expected a document start"),
    };
    assert!(version.is_some());
    let mut emitter = Emitter::new();
    emit_all(
        &mut emitter,
        vec![
            Event::stream_start(Encoding::Utf8),
            Event::document_start(version, &[], true),
            plain("x"),
            Event::document_end(true),
            Event::stream_end(),
        ],
    );
    let out = text(&mut emitter);
    assert!(out.starts_with("%YAML 1.1\n---"), "{out}");
}

#[test]
fn emitter_wants_stream_start_first() {
    let mut emitter = Emitter::new();
    let err = yaml_emitter_emit(&mut emitter, Event::stream_end()).unwrap_err();
    assert_eq!(err.kind(), ErrorKind::Emitter);
    assert_eq!(err.problem(), "expected STREAM-START");
    yaml_emitter_emit(&mut emitter, Event::stream_start(Encoding::Utf8)).unwrap();
}
