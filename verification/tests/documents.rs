use libyaml_safer::{
    yaml_document_add_mapping, yaml_document_add_scalar, yaml_document_add_sequence,
    yaml_document_append_mapping_pair, yaml_document_append_sequence_item, yaml_document_delete,
    yaml_document_get_node, yaml_document_get_root_node, yaml_document_initialize,
    yaml_parser_load, Document, ErrorKind, MappingStyle, NodeData, Parser, ScalarStyle,
    SequenceStyle, DEFAULT_MAPPING_TAG, DEFAULT_SCALAR_TAG, DEFAULT_SEQUENCE_TAG,
};

fn scalar_value(doc: &Document, id: i32) -> String {
    match &doc.get_node(id).expect("no such node").data {
        NodeData::Scalar { value, .. } => value.clone(),
        _ => panic!("not a scalar"),
    }
}

#[test]
fn load_block_mapping() {
    let mut parser = Parser::new();
    parser.set_input_string(b"a: [x, y]\nb: c\n");
    let doc = Document::load(&mut parser).unwrap();
    assert_eq!(doc.nodes.len(), 7);
    let root = doc.get_node(1).unwrap();
    assert_eq!(root.tag.as_deref(), Some(DEFAULT_MAPPING_TAG));
    let pairs = match &root.data {
        NodeData::Mapping { pairs, style } => {
            assert_eq!(*style, MappingStyle::Block);
            pairs.clone()
        }
        _ => panic!("the root is not a mapping"),
    };
    assert_eq!(pairs.len(), 2);
    assert_eq!(scalar_value(&doc, pairs[0].key), "a");
    match &doc.get_node(pairs[0].value).unwrap().data {
        NodeData::Sequence { items, style } => {
            assert_eq!(*style, SequenceStyle::Flow);
            assert_eq!(items.len(), 2);
            assert_eq!(scalar_value(&doc, items[0]), "x");
            assert_eq!(scalar_value(&doc, items[1]), "y");
        }
        _ => panic!("not a sequence"),
    }
    assert_eq!(scalar_value(&doc, pairs[1].key), "b");
    assert_eq!(scalar_value(&doc, pairs[1].value), "c");
    let key = doc.get_node(pairs[1].key).unwrap();
    assert_eq!(key.tag.as_deref(), Some(DEFAULT_SCALAR_TAG));
}

#[test]
fn load_alias_refers_to_anchored_node() {
    let mut parser = Parser::new();
    parser.set_input_string(b"- &a x\n- *a\n");
    let doc = Document::load(&mut parser).unwrap();
    assert_eq!(doc.nodes.len(), 2);
    match &doc.get_node(1).unwrap().data {
        NodeData::Sequence { items, .. } => assert_eq!(items.clone(), vec![2, 2]),
        _ => panic!("not a sequence"),
    }
}

#[test]
fn load_empty_stream_gives_no_root() {
    let mut parser = Parser::new();
    parser.set_input_string(b"");
    let doc = Document::load(&mut parser).unwrap();
    assert_eq!(doc.nodes.len(), 0);
    let again = Document::load(&mut parser).unwrap();
    assert_eq!(again.nodes.len(), 0);
}

#[test]
fn load_documents_one_after_another() {
    let mut parser = Parser::new();
    parser.set_input_string(b"a\n---\nb\n");
    let first = Document::load(&mut parser).unwrap();
    assert_eq!(scalar_value(&first, 1), "a");
    assert!(first.start_implicit);
    let second = yaml_parser_load(&mut parser).unwrap();
    assert_eq!(scalar_value(&second, 1), "b");
    assert!(!second.start_implicit);
    let third = Document::load(&mut parser).unwrap();
    assert!(third.nodes.is_empty());
}

#[test]
fn load_empty_document_has_a_root() {
    let mut parser = Parser::new();
    parser.set_input_string(b"---\n...\n");
    let doc = Document::load(&mut parser).unwrap();
    assert_eq!(doc.nodes.len(), 1);
    assert_eq!(scalar_value(&doc, 1), "");
}

#[test]
fn load_duplicate_anchor_is_a_composer_error() {
    let mut parser = Parser::new();
    parser.set_input_string(b"- &x a\n- &x b\n");
    let err = Document::load(&mut parser).unwrap_err();
    assert_eq!(err.kind(), ErrorKind::Composer);
    assert_eq!(err.problem(), "second occurrence");
    assert_eq!(err.context(), Some("found duplicate anchor; first occurrence"));
}

#[test]
fn load_undefined_alias_is_a_composer_error() {
    let mut parser = Parser::new();
    parser.set_input_string(b"- *x\n");
    let err = Document::load(&mut parser).unwrap_err();
    assert_eq!(err.kind(), ErrorKind::Composer);
    assert_eq!(err.problem(), "found undefined alias");
    let mark = err.problem_mark().unwrap();
    assert_eq!((mark.line, mark.column), (0, 2));
}

#[test]
fn load_parser_error_passes_through() {
    let mut parser = Parser::new();
    parser.set_input_string(b"[a");
    let err = Document::load(&mut parser).unwrap_err();
    assert_eq!(err.kind(), ErrorKind::Parser);
}

#[test]
fn build_document_by_hand() {
    let mut doc = Document::new(None, &[], true, true);
    assert!(doc.get_root_node().is_none());
    let seq = doc.add_sequence(None, SequenceStyle::Block);
    assert_eq!(seq, 1);
    let a = doc.add_scalar(None, "a", ScalarStyle::Plain);
    let b = doc.add_scalar(Some("!t"), "b", ScalarStyle::DoubleQuoted);
    assert_eq!((a, b), (2, 3));
    doc.append_sequence_item(seq, a);
    doc.append_sequence_item(seq, b);
    let map = doc.add_mapping(None, MappingStyle::Flow);
    assert_eq!(map, 4);
    doc.yaml_document_append_mapping_pair(map, a, b);
    doc.append_sequence_item(seq, map);
    match &doc.get_node(seq).unwrap().data {
        NodeData::Sequence { items, .. } => assert_eq!(items.clone(), vec![2, 3, 4]),
        _ => panic!("not a sequence"),
    }
    match &doc.get_node(map).unwrap().data {
        NodeData::Mapping { pairs, style } => {
            assert_eq!(*style, MappingStyle::Flow);
            assert_eq!(pairs.len(), 1);
            assert_eq!((pairs[0].key, pairs[0].value), (2, 3));
        }
        _ => panic!("not a mapping"),
    }
    assert_eq!(doc.get_node(b).unwrap().tag.as_deref(), Some("!t"));
    assert_eq!(doc.get_node(seq).unwrap().tag.as_deref(), Some(DEFAULT_SEQUENCE_TAG));
    assert!(doc.get_node(0).is_none());
    assert!(doc.get_node(5).is_none());
    let root = doc.get_root_node().unwrap();
    assert!(matches!(root.data, NodeData::Sequence { .. }));
    if let Some(node) = doc.get_node_mut(2) {
        node.tag = Some("!changed".to_string());
    }
    assert_eq!(doc.get_node(2).unwrap().tag.as_deref(), Some("!changed"));
}

#[test]
fn build_document_with_the_free_functions() {
    let mut doc = Document::new(None, &[], false, false);
    assert_eq!(yaml_document_initialize(&mut doc, None, &[], true, true), Ok(()));
    let map = yaml_document_add_mapping(&mut doc, None, MappingStyle::Block);
    let key = yaml_document_add_scalar(&mut doc, None, "k", ScalarStyle::Plain);
    let seq = yaml_document_add_sequence(&mut doc, None, SequenceStyle::Block);
    let item = yaml_document_add_scalar(&mut doc, None, "i", ScalarStyle::Plain);
    assert_eq!((map, key, seq, item), (1, 2, 3, 4));
    assert_eq!(yaml_document_append_sequence_item(&mut doc, seq, item), Ok(()));
    assert_eq!(yaml_document_append_mapping_pair(&mut doc, map, key, seq), Ok(()));
    assert!(yaml_document_get_root_node(&mut doc).is_some());
    let node = yaml_document_get_node(&mut doc, 4).unwrap();
    assert!(matches!(node.data, NodeData::Scalar { ref value, .. } if value == "i"));
    assert!(yaml_document_get_node(&mut doc, 9).is_none());
    yaml_document_delete(&mut doc);
    assert!(doc.nodes.is_empty());
    assert!(yaml_document_get_root_node(&mut doc).is_none());
}
