//! Why a document gave no track, and what that means for the run.

use vstd::prelude::*;
use crate::error::RunError;

verus! {

/// The error of the XML deserializer, carried through as it is.
#[verifier::external_type_specification]
#[verifier::external_body]
pub struct ExXmlError(serde_xml_rs::Error);

/// The kinds of failure that the XML deserializer tells apart.
#[derive(Clone, Copy, Debug, PartialEq, Eq, Structural)]
pub enum XmlFault {
    /// The markup is well formed, but another element or text was due.
    UnexpectedToken,
    /// A record could not be built: a field is missing, stands twice or has
    /// the wrong shape.
    Custom,
    /// The record asks for a shape that markup cannot carry.
    UnsupportedOperation,
    /// The bytes could not be read.
    Io,
    /// The bytes are not UTF-8 text.
    FromUtf8,
    /// A field that holds an integer has other text.
    ParseInt,
    /// A field that holds a decimal number has other text.
    ParseDecimal,
    /// A field that holds a truth value has other text.
    ParseBool,
    /// The text is not well-formed markup.
    Syntax,
    /// Markup could not be written.
    Writer,
}

/// What a failure of the deserializer means for the run: text that is no
/// markup is a malformed document, bytes that could not be read are an
/// unavailable input, and everything else is markup that does not fit the
/// schema.
pub open spec fn error_of(fault: XmlFault) -> RunError {
    match fault {
        XmlFault::Syntax => RunError::MalformedDocument,
        XmlFault::FromUtf8 => RunError::MalformedDocument,
        XmlFault::Io => RunError::IoUnavailable,
        _ => RunError::SchemaViolation,
    }
}

/// Computes what a failure of the deserializer means for the run.
pub fn fault_error(fault: XmlFault) -> (e: RunError)
    ensures
        e == error_of(fault),
{
    match fault {
        XmlFault::Syntax | XmlFault::FromUtf8 => RunError::MalformedDocument,
        XmlFault::Io => RunError::IoUnavailable,
        XmlFault::UnexpectedToken
        | XmlFault::Custom
        | XmlFault::UnsupportedOperation
        | XmlFault::ParseInt
        | XmlFault::ParseDecimal
        | XmlFault::ParseBool
        | XmlFault::Writer => RunError::SchemaViolation,
    }
}

/// Which variant of `serde_xml_rs::Error` the value `cause` is.
pub uninterp spec fn fault_kind(cause: serde_xml_rs::Error) -> XmlFault;

/// Tells which variant of `serde_xml_rs::Error` a value is, by a match with one
/// arm for each of the ten. The error is opaque to the proofs, so the contract
/// only gives the answer its name: it depends on the value alone.
#[verifier::external_body]
fn fault_of(cause: &serde_xml_rs::Error) -> (fault: XmlFault)
    ensures
        fault == fault_kind(*cause),
{
    match cause {
        serde_xml_rs::Error::UnexpectedToken { .. } => XmlFault::UnexpectedToken,
        serde_xml_rs::Error::Custom { .. } => XmlFault::Custom,
        serde_xml_rs::Error::UnsupportedOperation { .. } => XmlFault::UnsupportedOperation,
        serde_xml_rs::Error::Io { .. } => XmlFault::Io,
        serde_xml_rs::Error::FromUtf8Error { .. } => XmlFault::FromUtf8,
        serde_xml_rs::Error::ParseIntError { .. } => XmlFault::ParseInt,
        serde_xml_rs::Error::ParseFloatError { .. } => XmlFault::ParseDecimal,
        serde_xml_rs::Error::ParseBoolError { .. } => XmlFault::ParseBool,
        serde_xml_rs::Error::Syntax { .. } => XmlFault::Syntax,
        serde_xml_rs::Error::Writer { .. } => XmlFault::Writer,
    }
}

/// The error of a run whose document the deserializer refused with `cause`:
/// what the kind of `cause` means for the run.
pub fn parse_failure(cause: &serde_xml_rs::Error) -> (e: RunError)
    ensures
        e == error_of(fault_kind(*cause)),
{
    let fault = fault_of(cause);
    fault_error(fault)
}

} // verus!
