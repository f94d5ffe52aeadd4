//! Deterministic résumé import: extracted text → segments → a new master CV.
//!
//! Extraction turns résumé bytes into an ordered list of lines (one per PDF line or
//! DOCX paragraph); the segmenter recognises the header, skills sections and
//! experience blocks by cue tokens; the mapper builds a master CV with synthetic ids.
//! A CV already held as JSON is mined by synonym keys instead.

pub mod extract;
pub mod map;
pub mod mine_json;
pub mod segment;

use crate::cvimport::extract::{docx_lines, extract_docx, extract_pdf, flat_lines};
use crate::cvimport::map::{to_master_cv, to_master_cv_spec};
use crate::cvimport::segment::{segment, segment_spec};
use crate::text::{lower_trimmed, lowercase_of, str_eq, strs, trim};
use crate::types::MasterCv;
use vstd::prelude::*;

verus! {

/// Extracted résumé text: one entry per source line or paragraph, in document order,
/// trailing whitespace trimmed; blank entries kept as soft boundaries.
#[derive(Debug, Clone, PartialEq, Eq, Default)]
pub struct ExtractedText {
    pub lines: Vec<String>,
}

/// The errors of résumé import; every one comes from a real bad input.
#[derive(Debug)]
pub enum ImportError {
    /// The kind string was neither `pdf` nor `docx`.
    UnsupportedKind(String),
    /// Text extraction failed.
    Extract(String),
    /// Extraction succeeded but yielded no recognisable résumé content.
    Empty,
    /// The container could not be decoded.
    Decode(String),
}

/// The display text of an import error.
pub open spec fn import_error_message(e: ImportError) -> Seq<char> {
    match e {
        ImportError::UnsupportedKind(d) => "unsupported résumé kind: "@ + d@,
        ImportError::Extract(d) => "could not extract text: "@ + d@,
        ImportError::Empty => "résumé produced no recognisable content"@,
        ImportError::Decode(d) => "could not decode file: "@ + d@,
    }
}

impl ImportError {
    /// The human-readable message of this error.
    pub fn message(&self) -> (r: String)
        ensures
            r@ == import_error_message(*self),
    {
        match self {
            ImportError::UnsupportedKind(d) => {
                let mut s = String::from_str("unsupported résumé kind: ");
                s.append(d.as_str());
                s
            },
            ImportError::Extract(d) => {
                let mut s = String::from_str("could not extract text: ");
                s.append(d.as_str());
                s
            },
            ImportError::Empty => String::from_str("résumé produced no recognisable content"),
            ImportError::Decode(d) => {
                let mut s = String::from_str("could not decode file: ");
                s.append(d.as_str());
                s
            },
        }
    }
}

/// The résumé file format.
#[derive(Debug, Clone, Copy, PartialEq, Eq, Structural)]
pub enum ResumeKind {
    Pdf,
    Docx,
}

/// The kind a kind string names: trimmed, lowercased, `pdf` or `docx`.
pub open spec fn resume_kind_spec(kind: Seq<char>) -> Option<ResumeKind> {
    let k = lowercase_of(trim(kind));
    if k == "pdf"@ {
        Some(ResumeKind::Pdf)
    } else if k == "docx"@ {
        Some(ResumeKind::Docx)
    } else {
        None
    }
}

impl ResumeKind {
    /// Parse a kind string (case-insensitive, trimmed); anything else is
    /// `UnsupportedKind` carrying the normalised string.
    pub fn parse(kind: &str) -> (r: Result<ResumeKind, ImportError>)
        ensures
            match r {
                Ok(k) => resume_kind_spec(kind@) == Some(k),
                Err(e) => resume_kind_spec(kind@) is None && (e matches ImportError::UnsupportedKind(d) && d@ == lowercase_of(
                    trim(kind@),
                )),
            },
    {
        let k = lower_trimmed(kind);
        if str_eq(k.as_str(), "pdf") {
            Ok(ResumeKind::Pdf)
        } else if str_eq(k.as_str(), "docx") {
            Ok(ResumeKind::Docx)
        } else {
            Err(ImportError::UnsupportedKind(k))
        }
    }
}

/// Segments extracted text and maps it to a new master CV with synthetic ids; a text
/// in which no résumé structure is recognised is `Empty`.
pub fn import_extracted(text: &ExtractedText) -> (r: Result<MasterCv, ImportError>)
    ensures
        r is Err <==> segment_spec(strs(text.lines@)).name is None && segment_spec(strs(text.lines@)).title is None
            && segment_spec(strs(text.lines@)).skills.len() == 0 && segment_spec(strs(text.lines@)).experience.len() == 0,
        r matches Err(e) ==> e is Empty,
        r matches Ok(cv) ==> cv@ == to_master_cv_spec(segment_spec(strs(text.lines@))),
{
    let segments = segment(text);
    if segments.is_empty() {
        return Err(ImportError::Empty);
    }
    Ok(to_master_cv(segments))
}

/// Imports a PDF résumé into a new master CV for review, from what the PDF text
/// extractor gave for its bytes: an extractor failure is `Extract` with its message; a
/// text without recognisable structure is `Empty`.
pub fn import_pdf(extracted: Result<String, String>) -> (r: Result<MasterCv, ImportError>)
    ensures
        match extracted {
            Err(m) => r matches Err(ImportError::Extract(d)) && d@ == m@,
            Ok(s) => {
                let seg = segment_spec(flat_lines(s@));
                &&& (r is Err <==> seg.name is None && seg.title is None && seg.skills.len() == 0
                    && seg.experience.len() == 0)
                &&& (r matches Err(e) ==> e is Empty)
                &&& (r matches Ok(cv) ==> cv@ == to_master_cv_spec(seg))
            },
        },
{
    match extract_pdf(extracted) {
        Ok(text) => import_extracted(&text),
        Err(e) => Err(e),
    }
}

/// Imports a DOCX résumé's bytes into a new master CV for review: an archive or
/// document part that cannot be read is `Decode`; a text without recognisable structure
/// is `Empty`.
pub fn import_docx(bytes: &[u8]) -> (r: Result<MasterCv, ImportError>)
    ensures
        match docx_lines(bytes@) {
            None => r matches Err(e) && e is Decode,
            Some(ls) => {
                let seg = segment_spec(ls);
                &&& (r is Err <==> seg.name is None && seg.title is None && seg.skills.len() == 0
                    && seg.experience.len() == 0)
                &&& (r matches Err(e) ==> e is Empty)
                &&& (r matches Ok(cv) ==> cv@ == to_master_cv_spec(seg))
            },
        },
{
    match extract_docx(bytes) {
        Ok(text) => import_extracted(&text),
        Err(e) => Err(e),
    }
}

} // verus!
