use vstd::prelude::*;
use crate::text::{decimal, debug_str, text_with_number, concat_str, debug_quoted};

verus! {

/// Errors raised while decoding or encoding JWW archives.
#[derive(Debug)]
pub enum CodecError {
    InvalidSignature,
    UnexpectedEof(&'static str),
    EntityListNotFound,
    UnknownClassPid(u32),
    UnknownEntityClass(String),
    InvalidBlockDefinitionCount(u32),
    UnencodableText(String),
    TooManyRecords,
    ClassTableOverflow,
    InvalidTextEncoding,
    DuplicateBlockDefinition(u32),
}

/// The mathematical model of a `CodecError`: texts are character sequences.
pub enum CodecErrorV {
    InvalidSignature,
    UnexpectedEof(Seq<char>),
    EntityListNotFound,
    UnknownClassPid(u32),
    UnknownEntityClass(Seq<char>),
    InvalidBlockDefinitionCount(u32),
    UnencodableText(Seq<char>),
    TooManyRecords,
    ClassTableOverflow,
    InvalidTextEncoding,
    DuplicateBlockDefinition(u32),
}

impl View for CodecError {
    type V = CodecErrorV;

    open spec fn view(&self) -> CodecErrorV {
        match self {
            CodecError::InvalidSignature => CodecErrorV::InvalidSignature,
            CodecError::UnexpectedEof(what) => CodecErrorV::UnexpectedEof((*what)@),
            CodecError::EntityListNotFound => CodecErrorV::EntityListNotFound,
            CodecError::UnknownClassPid(pid) => CodecErrorV::UnknownClassPid(*pid),
            CodecError::UnknownEntityClass(name) => CodecErrorV::UnknownEntityClass(name@),
            CodecError::InvalidBlockDefinitionCount(n) => CodecErrorV::InvalidBlockDefinitionCount(
                *n,
            ),
            CodecError::UnencodableText(text) => CodecErrorV::UnencodableText(text@),
            CodecError::TooManyRecords => CodecErrorV::TooManyRecords,
            CodecError::ClassTableOverflow => CodecErrorV::ClassTableOverflow,
            CodecError::InvalidTextEncoding => CodecErrorV::InvalidTextEncoding,
            CodecError::DuplicateBlockDefinition(n) => CodecErrorV::DuplicateBlockDefinition(*n),
        }
    }
}

/// The message each error displays.
pub open spec fn error_message(e: CodecErrorV) -> Seq<char> {
    match e {
        CodecErrorV::InvalidSignature => "invalid JWW signature"@,
        CodecErrorV::UnexpectedEof(what) => "unexpected EOF while reading "@ + what,
        CodecErrorV::EntityListNotFound => "JWW entity list was not found"@,
        CodecErrorV::UnknownClassPid(pid) => "unknown JWW class pid "@ + decimal(pid as nat),
        CodecErrorV::UnknownEntityClass(name) => "unknown JWW entity class "@ + name,
        CodecErrorV::InvalidBlockDefinitionCount(n) => "invalid JWW block definition count "@
            + decimal(n as nat),
        CodecErrorV::UnencodableText(text) => "text cannot be represented in CP932: "@
            + debug_str(text),
        CodecErrorV::TooManyRecords => "JWW record count exceeds 65534"@,
        CodecErrorV::ClassTableOverflow => "JWW class table exceeds the 16-bit archive limit"@,
        CodecErrorV::InvalidTextEncoding => "invalid CP932 text"@,
        CodecErrorV::DuplicateBlockDefinition(n) => "duplicate JWW block definition number "@
            + decimal(n as nat),
    }
}

impl CodecError {
    /// The error's message.
    pub fn message(&self) -> (m: String)
        ensures
            m@ == error_message(self@),
    {
        match self {
            CodecError::InvalidSignature => "invalid JWW signature".to_owned(),
            CodecError::UnexpectedEof(what) => concat_str("unexpected EOF while reading ", what),
            CodecError::EntityListNotFound => "JWW entity list was not found".to_owned(),
            CodecError::UnknownClassPid(pid) => text_with_number(
                "unknown JWW class pid ",
                *pid as u64,
            ),
            CodecError::UnknownEntityClass(name) => concat_str(
                "unknown JWW entity class ",
                name.as_str(),
            ),
            CodecError::InvalidBlockDefinitionCount(n) => text_with_number(
                "invalid JWW block definition count ",
                *n as u64,
            ),
            CodecError::UnencodableText(text) => {
                let quoted = debug_quoted(text.as_str());
                concat_str("text cannot be represented in CP932: ", quoted.as_str())
            },
            CodecError::TooManyRecords => "JWW record count exceeds 65534".to_owned(),
            CodecError::ClassTableOverflow => "JWW class table exceeds the 16-bit archive limit".to_owned(),
            CodecError::InvalidTextEncoding => "invalid CP932 text".to_owned(),
            CodecError::DuplicateBlockDefinition(n) => text_with_number(
                "duplicate JWW block definition number ",
                *n as u64,
            ),
        }
    }
}

/// A decoding outcome together with the reader position reached.
pub type Parsed<T> = (Result<T, CodecErrorV>, int);

pub open spec fn eof_offset() -> CodecErrorV {
    CodecErrorV::UnexpectedEof("offset"@)
}

pub open spec fn eof_bytes() -> CodecErrorV {
    CodecErrorV::UnexpectedEof("bytes"@)
}

/// The model of an executable result whose value has no view of its own.
pub open spec fn res_plain<T>(r: Result<T, CodecError>) -> Result<T, CodecErrorV> {
    match r {
        Ok(v) => Ok(v),
        Err(e) => Err(e@),
    }
}

/// The model of an executable result whose value has a view.
pub open spec fn res_view<T: View>(r: Result<T, CodecError>) -> Result<T::V, CodecErrorV> {
    match r {
        Ok(v) => Ok(v@),
        Err(e) => Err(e@),
    }
}

pub fn eof_offset_error() -> (e: CodecError)
    ensures
        e@ == eof_offset(),
{
    CodecError::UnexpectedEof("offset")
}

pub fn eof_bytes_error() -> (e: CodecError)
    ensures
        e@ == eof_bytes(),
{
    CodecError::UnexpectedEof("bytes")
}

} // verus!
