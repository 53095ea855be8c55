//! A YAML 1.1 scanner, parser, composer and emitter whose logic is
//! verified with Verus.
#![allow(unused_imports)]

mod analysis;
mod api;
mod chars;
mod document;
mod dumper;
mod emit;
mod emitter;
mod error;
mod event;
mod parser;
mod reader;
mod scanner;
mod suite;
mod text;
mod token;
mod types;
mod write;
mod writer;

pub use crate::api::{
    yaml_alias_event_initialize, yaml_document_add_mapping, yaml_document_add_scalar,
    yaml_document_add_sequence, yaml_document_append_mapping_pair,
    yaml_document_append_sequence_item, yaml_document_delete, yaml_document_end_event_initialize,
    yaml_document_get_node, yaml_document_get_root_node, yaml_document_initialize,
    yaml_document_start_event_initialize, yaml_emitter_delete, yaml_emitter_new,
    yaml_emitter_set_break, yaml_emitter_set_canonical, yaml_emitter_set_encoding,
    yaml_emitter_set_indent, yaml_emitter_set_output_string, yaml_emitter_set_unicode,
    yaml_emitter_set_width, yaml_event_delete, yaml_mapping_end_event_initialize,
    yaml_mapping_start_event_initialize, yaml_parser_delete, yaml_parser_new,
    yaml_parser_set_encoding, yaml_parser_set_input, yaml_parser_set_input_string,
    yaml_scalar_event_initialize, yaml_sequence_end_event_initialize,
    yaml_sequence_start_event_initialize, yaml_stream_end_event_initialize,
    yaml_stream_start_event_initialize, yaml_token_delete,
};
pub use crate::document::{yaml_parser_load, Document, Node, NodeData, NodeItem, NodePair};
pub use crate::dumper::{yaml_emitter_close, yaml_emitter_dump, yaml_emitter_open};
pub use crate::emit::yaml_emitter_emit;
pub use crate::emitter::{Emitter, EmitterState};
pub use crate::error::{Error, ErrorKind};
pub use crate::event::{Event, EventData};
pub use crate::parser::{yaml_parser_scan, AliasData, Parser, ParserState};
pub use crate::scanner::SimpleKey;
pub use crate::suite::{format_event, get_anchor, get_tag, get_value, parse_event_line, push_escaped};
pub use crate::token::{Token, TokenData};
pub use crate::writer::yaml_emitter_flush;
pub use crate::types::{
    Break, Encoding, MappingStyle, Mark, ScalarStyle, SequenceStyle, TagDirective,
    VersionDirective, BOOL_TAG, DEFAULT_MAPPING_TAG, DEFAULT_SCALAR_TAG, DEFAULT_SEQUENCE_TAG,
    FLOAT_TAG, INT_TAG, MAP_TAG, NULL_TAG, SEQ_TAG, STR_TAG, TIMESTAMP_TAG,
};
