//! The render-side model: the CV templates, the cover-letter model, and structural PDF
//! validation. Rendering itself (the typst compiler) runs outside the library.

use crate::types::CoreError;
use crate::text::{lower_trimmed, lowercase_of, str_eq, trim};
use vstd::prelude::*;

verus! {

/// The CV templates. Classic lays the CV out in two columns; Compact in one.
#[derive(Debug, Clone, Copy, PartialEq, Eq, Structural)]
pub enum CvTemplate {
    Classic,
    Compact,
}

/// The section headings every template renders.
pub open spec fn heading_vocabulary_spec() -> Seq<Seq<char>> {
    seq!["Experience"@, "Languages"@, "Skills"@, "Tools & Technologies"@, "Platforms & Services"@]
}

/// The template a name selects: `classic` or `compact`, trimmed, any case.
pub open spec fn template_spec(name: Seq<char>) -> Option<CvTemplate> {
    let n = lowercase_of(trim(name));
    if n == "classic"@ {
        Some(CvTemplate::Classic)
    } else if n == "compact"@ {
        Some(CvTemplate::Compact)
    } else {
        None
    }
}

impl CvTemplate {
    pub open spec fn spec_is_multi_column(self) -> bool {
        self is Classic
    }

    /// Whether the layout uses more than one column.
    pub fn is_multi_column(self) -> (r: bool)
        ensures
            r == self.spec_is_multi_column(),
    {
        match self {
            CvTemplate::Classic => true,
            CvTemplate::Compact => false,
        }
    }

    /// The section headings the template renders.
    pub fn heading_vocabulary(self) -> (r: Vec<&'static str>)
        ensures
            r@.map_values(|h: &str| h@) == heading_vocabulary_spec(),
    {
        let v: Vec<&'static str> = vec!["Experience", "Languages", "Skills", "Tools & Technologies", "Platforms & Services"];
        assert(v@.map_values(|h: &str| h@) =~= heading_vocabulary_spec());
        v
    }

    /// The template a name selects; an unknown name is a render error naming it.
    pub fn parse(name: &str) -> (r: Result<CvTemplate, CoreError>)
        ensures
            match r {
                Ok(t) => template_spec(name@) == Some(t),
                Err(e) => template_spec(name@) is None && e is Render,
            },
    {
        let n = lower_trimmed(name);
        if str_eq(n.as_str(), "classic") {
            Ok(CvTemplate::Classic)
        } else if str_eq(n.as_str(), "compact") {
            Ok(CvTemplate::Compact)
        } else {
            let mut msg = String::from_str("unknown template: ");
            msg.append(name);
            Err(CoreError::Render(msg))
        }
    }
}

/// The cover-letter model. Each strength paragraph carries the evidence id of the
/// achievement it wraps.
#[derive(Debug, Clone)]
pub struct CoverLetter {
    pub greeting: String,
    pub why_role: String,
    pub strengths: Vec<StrengthParagraph>,
    pub closing: String,
    pub candidate_name: String,
}

/// One strength paragraph of a cover letter.
#[derive(Debug, Clone)]
pub struct StrengthParagraph {
    pub text: String,
    pub source_evidence_id: String,
}

/// The model of a strength: text and source evidence id.
pub open spec fn strength_model(s: StrengthParagraph) -> (Seq<char>, Seq<char>) {
    (s.text@, s.source_evidence_id@)
}

pub open spec fn strengths_model(v: Seq<StrengthParagraph>) -> Seq<(Seq<char>, Seq<char>)> {
    v.map_values(|s: StrengthParagraph| strength_model(s))
}

// ── PDF structure ────────────────────────────────────────────────────────────────

/// `%%EOF` starts at position `p` of `b`.
pub open spec fn eof_at(b: Seq<u8>, p: int) -> bool {
    0 <= p && p + 5 <= b.len() && b[p] == 37u8 && b[p + 1] == 37u8 && b[p + 2] == 69u8 && b[p + 3] == 79u8
        && b[p + 4] == 70u8
}

/// A structurally valid PDF: more than 100 bytes, starting with `%PDF-`, with `%%EOF`
/// starting within the last 4100 bytes.
pub open spec fn is_valid_pdf_spec(b: Seq<u8>) -> bool {
    &&& b.len() > 100
    &&& b[0] == 37u8 && b[1] == 80u8 && b[2] == 68u8 && b[3] == 70u8 && b[4] == 45u8
    &&& exists|p: int| b.len() - 4100 <= p && #[trigger] eof_at(b, p)
}

/// Structural PDF validation: `%PDF-` header and `%%EOF` near the end.
pub fn is_valid_pdf(bytes: &[u8]) -> (r: bool)
    ensures
        r == is_valid_pdf_spec(bytes@),
{
    let n = bytes.len();
    if n <= 100 {
        return false;
    }
    if !(bytes[0] == 37u8 && bytes[1] == 80u8 && bytes[2] == 68u8 && bytes[3] == 70u8 && bytes[4] == 45u8) {
        return false;
    }
    let lo: usize = if n > 4100 { n - 4100 } else { 0 };
    let mut p: usize = n - 5;
    loop
        invariant
            n == bytes@.len(),
            n > 100,
            bytes@[0] == 37u8 && bytes@[1] == 80u8 && bytes@[2] == 68u8 && bytes@[3] == 70u8 && bytes@[4] == 45u8,
            lo <= p,
            p <= n - 5,
            lo == (if n > 4100 { n - 4100 } else { 0 }),
            forall|q: int| p < q <= n - 5 ==> !#[trigger] eof_at(bytes@, q),
        decreases p - lo,
    {
        if bytes[p] == 37u8 && bytes[p + 1] == 37u8 && bytes[p + 2] == 69u8 && bytes[p + 3] == 79u8
            && bytes[p + 4] == 70u8 {
            assert(eof_at(bytes@, p as int));
            return true;
        }
        if p == lo {
            proof {
                assert forall|q: int| n - 4100 <= q implies !#[trigger] eof_at(bytes@, q) by {
                    if eof_at(bytes@, q) {
                        assert(q <= n - 5);
                        assert(q >= lo);
                    }
                }
            }
            return false;
        }
        p -= 1;
    }
}

} // verus!
