//! Parser for UYAP `.udf` documents and two string renderers (HTML and RTF).
//!
//! Pipeline: `UDF bytes -> parse -> Document -> { to_html | to_rtf }`. Element offsets
//! are rune (Unicode scalar) offsets, raw text is sliced before it is cleaned, a border
//! colour of `0` is opaque black, and embedded image data is read leniently.
#![allow(unused_imports)]

pub mod color;
pub mod host;
pub mod html;
pub mod model;
pub mod num;
pub mod parser;
pub mod rtf;
pub mod rune;
pub mod text;
pub mod xml;
pub mod zip;

pub use model::Document;

use vstd::prelude::*;
use crate::html::spec_to_html;
use crate::model::SpecDocument;
use crate::parser::spec_parse;
use crate::rtf::spec_to_rtf;

verus! {

/// Errors that can occur while parsing a `.udf` file; every failure is one of these.
#[derive(Debug)]
pub enum UdfError {
    /// The bytes are not a valid ZIP archive.
    InvalidZip(String),
    /// The archive opened, but no `content.xml` entry was found.
    MissingContentXml,
    /// `content.xml` could not be parsed as XML.
    InvalidXml(String),
    /// The XML parsed but the expected `<template>/<content>` structure was absent.
    MalformedDocument(String),
}

pub enum SpecUdfError {
    InvalidZip(Seq<char>),
    MissingContentXml,
    InvalidXml(Seq<char>),
    MalformedDocument(Seq<char>),
}

impl View for UdfError {
    type V = SpecUdfError;

    open spec fn view(&self) -> SpecUdfError {
        match self {
            UdfError::InvalidZip(m) => SpecUdfError::InvalidZip(m@),
            UdfError::MissingContentXml => SpecUdfError::MissingContentXml,
            UdfError::InvalidXml(m) => SpecUdfError::InvalidXml(m@),
            UdfError::MalformedDocument(m) => SpecUdfError::MalformedDocument(m@),
        }
    }
}

/// The human-readable text of an error.
pub open spec fn spec_error_message(e: SpecUdfError) -> Seq<char> {
    match e {
        SpecUdfError::InvalidZip(m) => "invalid ZIP archive: "@ + m,
        SpecUdfError::MissingContentXml => "no content.xml in archive"@,
        SpecUdfError::InvalidXml(m) => "invalid content.xml: "@ + m,
        SpecUdfError::MalformedDocument(m) => "malformed UDF document: "@ + m,
    }
}

impl UdfError {
    /// The human-readable text of the error.
    pub fn message(&self) -> (r: String)
        ensures
            r@ == spec_error_message(self@),
    {
        let mut s = String::new();
        match self {
            UdfError::InvalidZip(m) => {
                s.append("invalid ZIP archive: ");
                s.append(m.as_str());
            },
            UdfError::MissingContentXml => {
                s.append("no content.xml in archive");
            },
            UdfError::InvalidXml(m) => {
                s.append("invalid content.xml: ");
                s.append(m.as_str());
            },
            UdfError::MalformedDocument(m) => {
                s.append("malformed UDF document: ");
                s.append(m.as_str());
            },
        }
        s
    }
}

/// Parse `.udf` file bytes into the [`Document`] model.
pub fn parse(bytes: &[u8]) -> (r: Result<Document, UdfError>)
    ensures
        match r {
            Ok(d) => spec_parse(bytes@) == Ok::<SpecDocument, SpecUdfError>(d@),
            Err(e) => spec_parse(bytes@) == Err::<SpecDocument, SpecUdfError>(e@),
        },
{
    parser::parse(bytes)
}

/// Render a parsed [`Document`] to a self-contained HTML string.
pub fn to_html(doc: &Document) -> (r: String)
    ensures
        r@ == spec_to_html(doc@),
{
    html::to_html(doc)
}

/// Render a parsed [`Document`] to an RTF string (lean, first-page fidelity).
pub fn to_rtf(doc: &Document) -> (r: String)
    ensures
        r@ == spec_to_rtf(doc@),
{
    rtf::to_rtf(doc)
}

/// Convenience: `.udf` bytes straight to HTML.
pub fn udf_to_html(bytes: &[u8]) -> (r: Result<String, UdfError>)
    ensures
        match r {
            Ok(s) => spec_parse(bytes@) matches Ok(d) && s@ == spec_to_html(d),
            Err(e) => spec_parse(bytes@) == Err::<SpecDocument, SpecUdfError>(e@),
        },
{
    match parse(bytes) {
        Ok(d) => Ok(to_html(&d)),
        Err(e) => Err(e),
    }
}

/// Convenience: `.udf` bytes straight to RTF.
pub fn udf_to_rtf(bytes: &[u8]) -> (r: Result<String, UdfError>)
    ensures
        match r {
            Ok(s) => spec_parse(bytes@) matches Ok(d) && s@ == spec_to_rtf(d),
            Err(e) => spec_parse(bytes@) == Err::<SpecDocument, SpecUdfError>(e@),
        },
{
    match parse(bytes) {
        Ok(d) => Ok(to_rtf(&d)),
        Err(e) => Err(e),
    }
}

} // verus!
