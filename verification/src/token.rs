//! Tokens produced by the scanner.
use crate::types::{Encoding, Mark, ScalarStyle};
use vstd::prelude::*;

verus! {

/// The token structure.
#[derive(Debug)]
#[non_exhaustive]
pub struct Token {
    /// The token type.
    pub data: TokenData,
    /// The beginning of the token.
    pub start_mark: Mark,
    /// The end of the token.
    pub end_mark: Mark,
}

/// The kinds of tokens, with their data.
#[derive(Debug)]
pub enum TokenData {
    /// An empty token.
    NoToken,
    /// A STREAM-START token.
    StreamStart {
        /// The stream encoding.
        encoding: Encoding,
    },
    /// A STREAM-END token.
    StreamEnd,
    /// A VERSION-DIRECTIVE token.
    VersionDirective {
        /// The major version number.
        major: i32,
        /// The minor version number.
        minor: i32,
    },
    /// A TAG-DIRECTIVE token.
    TagDirective {
        /// The tag handle.
        handle: String,
        /// The tag prefix.
        prefix: String,
    },
    /// A DOCUMENT-START token.
    DocumentStart,
    /// A DOCUMENT-END token.
    DocumentEnd,
    /// A BLOCK-SEQUENCE-START token.
    BlockSequenceStart,
    /// A BLOCK-MAPPING-START token.
    BlockMappingStart,
    /// A BLOCK-END token.
    BlockEnd,
    /// A FLOW-SEQUENCE-START token.
    FlowSequenceStart,
    /// A FLOW-SEQUENCE-END token.
    FlowSequenceEnd,
    /// A FLOW-MAPPING-START token.
    FlowMappingStart,
    /// A FLOW-MAPPING-END token.
    FlowMappingEnd,
    /// A BLOCK-ENTRY token.
    BlockEntry,
    /// A FLOW-ENTRY token.
    FlowEntry,
    /// A KEY token.
    Key,
    /// A VALUE token.
    Value,
    /// An ALIAS token.
    Alias {
        /// The alias value.
        value: String,
    },
    /// An ANCHOR token.
    Anchor {
        /// The anchor value.
        value: String,
    },
    /// A TAG token.
    Tag {
        /// The tag handle.
        handle: String,
        /// The tag suffix.
        suffix: String,
    },
    /// A SCALAR token.
    Scalar {
        /// The scalar value.
        value: String,
        /// The scalar style.
        style: ScalarStyle,
    },
}

impl TokenData {
    /// Returns `true` if the token is a VERSION-DIRECTIVE token.
    pub fn is_version_directive(&self) -> (r: bool)
        ensures
            r == (self is VersionDirective),
    {
        matches!(self, TokenData::VersionDirective { .. })
    }

    /// Returns `true` if the token is a TAG-DIRECTIVE token.
    pub fn is_tag_directive(&self) -> (r: bool)
        ensures
            r == (self is TagDirective),
    {
        matches!(self, TokenData::TagDirective { .. })
    }

    /// Returns `true` if the token is a DOCUMENT-START token.
    pub fn is_document_start(&self) -> (r: bool)
        ensures
            r == (self is DocumentStart),
    {
        matches!(self, TokenData::DocumentStart)
    }

    /// Returns `true` if the token is a STREAM-END token.
    pub fn is_stream_end(&self) -> (r: bool)
        ensures
            r == (self is StreamEnd),
    {
        matches!(self, TokenData::StreamEnd)
    }

    /// Returns `true` if the token is a BLOCK-ENTRY token.
    pub fn is_block_entry(&self) -> (r: bool)
        ensures
            r == (self is BlockEntry),
    {
        matches!(self, TokenData::BlockEntry)
    }

    /// Returns `true` if the token is a BLOCK-SEQUENCE-START token.
    pub fn is_block_sequence_start(&self) -> (r: bool)
        ensures
            r == (self is BlockSequenceStart),
    {
        matches!(self, TokenData::BlockSequenceStart)
    }

    /// Returns `true` if the token is a BLOCK-MAPPING-START token.
    pub fn is_block_mapping_start(&self) -> (r: bool)
        ensures
            r == (self is BlockMappingStart),
    {
        matches!(self, TokenData::BlockMappingStart)
    }

    /// Returns `true` if the token is a BLOCK-END token.
    pub fn is_block_end(&self) -> (r: bool)
        ensures
            r == (self is BlockEnd),
    {
        matches!(self, TokenData::BlockEnd)
    }

    /// Returns `true` if the token is a KEY token.
    pub fn is_key(&self) -> (r: bool)
        ensures
            r == (self is Key),
    {
        matches!(self, TokenData::Key)
    }

    /// Returns `true` if the token is a VALUE token.
    pub fn is_value(&self) -> (r: bool)
        ensures
            r == (self is Value),
    {
        matches!(self, TokenData::Value)
    }

    /// Returns `true` if the token is a FLOW-SEQUENCE-END token.
    pub fn is_flow_sequence_end(&self) -> (r: bool)
        ensures
            r == (self is FlowSequenceEnd),
    {
        matches!(self, TokenData::FlowSequenceEnd)
    }

    /// Returns `true` if the token is a FLOW-ENTRY token.
    pub fn is_flow_entry(&self) -> (r: bool)
        ensures
            r == (self is FlowEntry),
    {
        matches!(self, TokenData::FlowEntry)
    }

    /// Returns `true` if the token is a FLOW-MAPPING-END token.
    pub fn is_flow_mapping_end(&self) -> (r: bool)
        ensures
            r == (self is FlowMappingEnd),
    {
        matches!(self, TokenData::FlowMappingEnd)
    }
}

} // verus!
