use vstd::prelude::*;

verus! {

/// The XML reader's error type, carried through as an opaque value.
#[verifier::external_type_specification]
#[verifier::external_body]
pub struct ExXmlReaderError(xml::reader::Error);

/// The XML writer's error type, carried through as an opaque value.
#[verifier::external_type_specification]
#[verifier::external_body]
pub struct ExXmlWriterError(xml::writer::Error);

/// What can go wrong when reading or writing an InkML document.
#[derive(Debug)]
pub enum InkmlError {
    /// The XML writer refused an event.
    XmlWriterError(xml::writer::Error),
    /// The XML reader refused the input.
    XmlReaderError(xml::reader::Error),
    /// An element closed that has no open InkML node to close.
    InvalidInkml,
}

} // verus!
