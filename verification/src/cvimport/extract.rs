//! Text extraction: résumé bytes → extracted lines, without interpreting structure.
//!
//! PDF text arrives as the one flat string a PDF text extractor produced (the caller
//! runs the extractor, which can abort on malformed input), split here into lines. DOCX is
//! a zip holding `word/document.xml`; its paragraphs (`w:p`) become lines, each the
//! concatenation of the paragraph's text runs (`w:t`). The document part is read with
//! a hard size cap, so a decompression bomb is refused without being inflated.

use crate::cvimport::{ExtractedText, ImportError};
use crate::text::{chars_of, split_chars, split_spec, string_of, strs, trim_end, Sep};
use std::io::Read;
use vstd::prelude::*;

verus! {

/// The cap on the decompressed size of `word/document.xml`.
pub const MAX_DOCUMENT_XML_BYTES: u64 = 33554432;

// ── flat text ────────────────────────────────────────────────────────────────────

/// The lines of a flat string (what `str::lines` yields: split at `\n`, no final empty
/// line after a trailing newline), each with trailing whitespace trimmed.
pub open spec fn flat_lines(s: Seq<char>) -> Seq<Seq<char>> {
    let p = split_spec(s, Sep::Newline);
    let ls = if p.last().len() == 0 {
        p.drop_last()
    } else {
        p
    };
    ls.map_values(|l: Seq<char>| trim_end(l))
}

/// Extracted text from a flat string (the PDF path).
pub fn from_flat(s: &str) -> (r: ExtractedText)
    ensures
        strs(r.lines@) == flat_lines(s@),
{
    let v = chars_of(s);
    let pieces = split_chars(&v, Sep::Newline);
    let ghost p = split_spec(v@, Sep::Newline);
    proof {
        crate::text::lemma_split_nonempty(v@, Sep::Newline);
    }
    assert(pieces@.len() >= 1) by {
        assert(crate::text::char_vecs(pieces@).len() == pieces@.len());
    }
    let n = if pieces[pieces.len() - 1].len() == 0 { pieces.len() - 1 } else { pieces.len() };
    assert(p.last() == pieces@[pieces@.len() - 1]@);
    let ghost ls = if p.last().len() == 0 {
        p.drop_last()
    } else {
        p
    };
    assert(ls =~= p.take(n as int));
    let mut out: Vec<String> = Vec::new();
    let mut i: usize = 0;
    while i < n
        invariant
            i <= n <= pieces@.len(),
            crate::text::char_vecs(pieces@) == p,
            ls == p.take(n as int),
            strs(out@) == ls.map_values(|l: Seq<char>| trim_end(l)).take(i as int),
        decreases n - i,
    {
        let k = crate::text::trim_end_len(&pieces[i]);
        let ghost pre = strs(out@);
        out.push(crate::text::string_of_range(&pieces[i], 0, k));
        proof {
            assert(ls[i as int] == pieces@[i as int]@);
            assert(strs(out@) =~= pre.push(trim_end(ls[i as int])));
            assert(ls.map_values(|l: Seq<char>| trim_end(l)).take(i + 1) =~= ls.map_values(|l: Seq<char>| trim_end(l)).take(
                i as int,
            ).push(trim_end(ls[i as int])));
        }
        i += 1;
    }
    assert(ls.map_values(|l: Seq<char>| trim_end(l)).take(n as int) =~= ls.map_values(|l: Seq<char>| trim_end(l)));
    ExtractedText { lines: out }
}

// ── PDF ──────────────────────────────────────────────────────────────────────────

/// The lines of a PDF from what the text extractor gave for it: its flat text, or its
/// error message, which becomes `Extract`.
pub fn extract_pdf(extracted: Result<String, String>) -> (r: Result<ExtractedText, ImportError>)
    ensures
        match extracted {
            Ok(s) => r matches Ok(t) && strs(t.lines@) == flat_lines(s@),
            Err(m) => r matches Err(ImportError::Extract(d)) && d@ == m@,
        },
{
    match extracted {
        Ok(s) => Ok(from_flat(s.as_str())),
        Err(m) => Err(ImportError::Extract(m)),
    }
}

// ── DOCX ─────────────────────────────────────────────────────────────────────────

#[verifier::external_type_specification]
#[verifier::external_body]
#[verifier::reject_recursive_types(R)]
pub struct ExZipArchive<R>(zip::ZipArchive<R>);

#[verifier::external_type_specification]
#[verifier::external_body]
#[verifier::reject_recursive_types(T)]
pub struct ExCursor<T>(std::io::Cursor<T>);

#[verifier::external_type_specification]
#[verifier::external_body]
#[verifier::reject_recursive_types(R)]
pub struct ExXmlReader<R>(quick_xml::Reader<R>);

/// Whether `zip::ZipArchive::new` accepts these bytes as an archive.
pub uninterp spec fn zip_archive_opens(bytes: Seq<u8>) -> bool;

/// The bytes an archive was opened over.
pub uninterp spec fn archive_bytes(a: zip::ZipArchive<std::io::Cursor<&[u8]>>) -> Seq<u8>;

/// Whether `ZipArchive::by_name` opens the named entry of the archive over these bytes.
pub uninterp spec fn zip_entry_opens(bytes: Seq<u8>, name: Seq<char>) -> bool;

/// What reading at most `limit` bytes of the named entry of the archive over these
/// bytes gives (`Read::take`, then `Read::read_to_end`): the bytes read, or `None` when
/// the read fails.
pub uninterp spec fn zip_entry_read(bytes: Seq<u8>, name: Seq<char>, limit: u64) -> Option<Seq<u8>>;

/// `zip::ZipArchive::new` over the bytes: the archive, or the zip error's text. It
/// succeeds exactly when the archive opens, and the archive reads those bytes.
#[verifier::external_body]
fn zip_open<'a>(bytes: &'a [u8]) -> (r: Result<zip::ZipArchive<std::io::Cursor<&'a [u8]>>, String>)
    ensures
        r is Ok <==> zip_archive_opens(bytes@),
        r matches Ok(a) ==> archive_bytes(a) == bytes@,
{
    match zip::ZipArchive::new(std::io::Cursor::new(bytes)) {
        Ok(a) => Ok(a),
        Err(e) => Err(e.to_string()),
    }
}

/// Why an archive entry could not be read.
pub enum EntryError {
    /// `by_name` failed (the entry is missing or unreadable); the zip error's text.
    Open(String),
    /// Reading the entry's bytes failed; the error's text.
    Read(String),
}

/// `ZipArchive::by_name`, then at most `limit` bytes of the entry read through
/// `Read::take` and `Read::read_to_end`. `Open` exactly when `by_name` fails; otherwise
/// the named read result, which holds at most `limit` bytes. The archive still reads
/// the same bytes afterwards.
#[verifier::external_body]
fn zip_entry_bytes(
    archive: &mut zip::ZipArchive<std::io::Cursor<&[u8]>>,
    name: &str,
    limit: u64,
) -> (r: Result<Vec<u8>, EntryError>)
    ensures
        archive_bytes(*final(archive)) == archive_bytes(*old(archive)),
        (r matches Err(EntryError::Open(_))) <==> !zip_entry_opens(archive_bytes(*old(archive)), name@),
        r is Ok <==> zip_entry_opens(archive_bytes(*old(archive)), name@) && zip_entry_read(
            archive_bytes(*old(archive)),
            name@,
            limit,
        ) is Some,
        r matches Ok(b) ==> zip_entry_read(archive_bytes(*old(archive)), name@, limit) == Some(b@) && b@.len()
            <= limit,
{
    match archive.by_name(name) {
        Ok(entry) => {
            let mut buf = Vec::new();
            match entry.take(limit).read_to_end(&mut buf) {
                Ok(_) => Ok(buf),
                Err(e) => Err(EntryError::Read(e.to_string())),
            }
        },
        Err(e) => Err(EntryError::Open(e.to_string())),
    }
}

/// `String::from_utf8`: the text the bytes encode when they are valid UTF-8, else the
/// decoding error's text.
#[verifier::external_body]
fn utf8_text(bytes: Vec<u8>) -> (r: Result<String, String>)
    ensures
        r is Ok <==> vstd::utf8::valid_utf8(bytes@),
        r matches Ok(s) ==> s@ == vstd::utf8::decode_utf8(bytes@),
{
    match String::from_utf8(bytes) {
        Ok(s) => Ok(s),
        Err(e) => Err(e.to_string()),
    }
}

/// One result of the XML reader as the paragraph walk sees it.
pub enum XmlItem {
    /// A start tag, with its qualified name.
    Start(Seq<char>),
    /// An end tag, with its qualified name.
    End(Seq<char>),
    /// Character data.
    Text(Seq<char>),
    /// The end of the document.
    Eof,
    /// Any other event.
    Other,
    /// A reader error.
    Error,
}

/// The results `quick_xml::Reader::read_event` gives, in order, on a reader made by
/// `Reader::from_str` over this text with end-name checking on: up to and including the
/// first end of document or error.
pub uninterp spec fn xml_items_of(xml: Seq<char>) -> Seq<XmlItem>;

/// The results a reader has still to give, up to and including the first end of
/// document or error.
pub uninterp spec fn reader_pending(r: quick_xml::Reader<&[u8]>) -> Seq<XmlItem>;

/// Whether an item ends the reader's stream.
pub open spec fn ends_stream(i: XmlItem) -> bool {
    i is Eof || i is Error
}

/// `quick_xml::Reader::from_str`, with end-name checking switched on so mismatched
/// markup is an error. What the reader will give is the text's named result: a
/// non-empty run that ends at its first end of document or error.
#[verifier::external_body]
fn xml_reader<'a>(xml: &'a str) -> (r: quick_xml::Reader<&'a [u8]>)
    ensures
        reader_pending(r) == xml_items_of(xml@),
        reader_pending(r).len() > 0,
        ends_stream(reader_pending(r).last()),
        forall|i: int| 0 <= i < reader_pending(r).len() - 1 ==> !ends_stream(#[trigger] reader_pending(r)[i]),
{
    let mut r = quick_xml::Reader::from_str(xml);
    r.config_mut().check_end_names = true;
    r
}

/// An XML event as the paragraph walk reads it.
pub enum XmlEvent {
    /// A start tag, with its qualified name.
    Start(String),
    /// An end tag, with its qualified name.
    End(String),
    /// Character data.
    Text(String),
    /// The end of the document.
    Eof,
    /// Any other event.
    Other,
}

impl XmlEvent {
    /// The reader result this event stands for.
    pub open spec fn item(self) -> XmlItem {
        match self {
            XmlEvent::Start(n) => XmlItem::Start(n@),
            XmlEvent::End(n) => XmlItem::End(n@),
            XmlEvent::Text(t) => XmlItem::Text(t@),
            XmlEvent::Eof => XmlItem::Eof,
            XmlEvent::Other => XmlItem::Other,
        }
    }
}

/// `Reader::read_event`: the next pending result, converted variant by variant, or the
/// reader's error text when that result is an error.
#[verifier::external_body]
fn read_event(reader: &mut quick_xml::Reader<&[u8]>) -> (r: Result<XmlEvent, String>)
    requires
        reader_pending(*old(reader)).len() > 0,
    ensures
        reader_pending(*final(reader)) == reader_pending(*old(reader)).drop_first(),
        r is Err <==> reader_pending(*old(reader))[0] is Error,
        r matches Ok(ev) ==> ev.item() == reader_pending(*old(reader))[0],
{
    match reader.read_event() {
        Ok(quick_xml::events::Event::Start(e)) => Ok(XmlEvent::Start(String::from(e.name().as_ref()))),
        Ok(quick_xml::events::Event::End(e)) => Ok(XmlEvent::End(String::from(e.name().as_ref()))),
        Ok(quick_xml::events::Event::Text(t)) => Ok(XmlEvent::Text(String::from(t.as_ref()))),
        Ok(quick_xml::events::Event::Eof) => Ok(XmlEvent::Eof),
        Ok(_) => Ok(XmlEvent::Other),
        Err(e) => Err(e.to_string()),
    }
}

/// One item applied to the walk state: inside a text run, the paragraph so far, the
/// lines done.
pub open spec fn walk_step(st: (bool, Seq<char>, Seq<Seq<char>>), ev: XmlItem) -> (bool, Seq<char>, Seq<Seq<char>>) {
    match ev {
        XmlItem::Start(n) => if n == "w:t"@ {
            (true, st.1, st.2)
        } else {
            st
        },
        XmlItem::End(n) => if n == "w:t"@ {
            (false, st.1, st.2)
        } else if n == "w:p"@ {
            (st.0, Seq::empty(), st.2.push(trim_end(st.1)))
        } else {
            st
        },
        XmlItem::Text(t) => if st.0 {
            (st.0, st.1 + t, st.2)
        } else {
            st
        },
        _ => st,
    }
}

/// The walk over a sequence of items.
pub open spec fn walk(evs: Seq<XmlItem>) -> (bool, Seq<char>, Seq<Seq<char>>)
    decreases evs.len(),
{
    if evs.len() == 0 {
        (false, Seq::empty(), Seq::empty())
    } else {
        walk_step(walk(evs.drop_last()), evs.last())
    }
}

/// The items of a sequence of events.
pub open spec fn items(events: Seq<XmlEvent>) -> Seq<XmlItem> {
    events.map_values(|e: XmlEvent| e.item())
}

/// The lines of the paragraphs of a document's events.
pub fn paragraph_lines(events: &Vec<XmlEvent>) -> (r: Vec<String>)
    ensures
        strs(r@) == walk(items(events@)).2,
{
    let mut in_text = false;
    let mut current = String::new();
    let mut lines: Vec<String> = Vec::new();
    let mut i: usize = 0;
    assert(items(events@).take(0) =~= Seq::<XmlItem>::empty());
    while i < events.len()
        invariant
            i <= events@.len(),
            (in_text, current@, strs(lines@)) == walk(items(events@).take(i as int)),
        decreases events@.len() - i,
    {
        assert(items(events@).take(i + 1).drop_last() =~= items(events@).take(i as int));
        assert(items(events@).take(i + 1).last() == events@[i as int].item());
        match &events[i] {
            XmlEvent::Start(n) => {
                if crate::text::str_eq(n.as_str(), "w:t") {
                    in_text = true;
                }
            },
            XmlEvent::End(n) => {
                if crate::text::str_eq(n.as_str(), "w:t") {
                    in_text = false;
                } else if crate::text::str_eq(n.as_str(), "w:p") {
                    let v = chars_of(current.as_str());
                    let k = crate::text::trim_end_len(&v);
                    let ghost pre = strs(lines@);
                    lines.push(crate::text::string_of_range(&v, 0, k));
                    assert(strs(lines@) =~= pre.push(trim_end(current@)));
                    current = String::new();
                }
            },
            XmlEvent::Text(t) => {
                if in_text {
                    current.append(t.as_str());
                }
            },
            _ => {},
        }
        i += 1;
    }
    assert(items(events@).take(events@.len() as int) =~= items(events@));
    lines
}

/// The lines of a document part's text: one per paragraph when the reader reaches the
/// end of the document, none when it stops at an error.
pub open spec fn document_lines_spec(xml: Seq<char>) -> Option<Seq<Seq<char>>> {
    let items = xml_items_of(xml);
    if items.last() is Eof {
        Some(walk(items.drop_last()).2)
    } else {
        None
    }
}

/// The document part's text as lines, one per paragraph; a reader error is `Decode`.
fn document_lines(xml: &String) -> (r: Result<Vec<String>, ImportError>)
    ensures
        match document_lines_spec(xml@) {
            Some(ls) => r matches Ok(lines) && strs(lines@) == ls,
            None => r matches Err(e) && e is Decode,
        },
{
    let mut reader = xml_reader(xml.as_str());
    let ghost full = xml_items_of(xml@);
    let mut events: Vec<XmlEvent> = Vec::new();
    let ghost mut k: int = 0;
    assert(full.skip(0) =~= full);
    assert(items(events@) =~= full.take(0));
    loop
        invariant_except_break
            reader_pending(reader) == full.skip(k),
        invariant
            0 <= k < full.len(),
            items(events@) == full.take(k),
            ends_stream(full.last()),
            forall|i: int| 0 <= i < full.len() - 1 ==> !ends_stream(#[trigger] full[i]),
            full == xml_items_of(xml@),
        ensures
            k == full.len() - 1,
            full.last() is Eof,
            items(events@) == full.take(k),
        decreases full.len() - k,
    {
        let ghost before = events@;
        match read_event(&mut reader) {
            Ok(XmlEvent::Eof) => {
                break;
            },
            Ok(ev) => {
                let ghost it = ev.item();
                assert(it == full[k]);
                events.push(ev);
                proof {
                    assert(!ends_stream(full[k]));
                    assert(items(events@) =~= items(before).push(it));
                    assert(items(events@) =~= full.take(k + 1));
                    assert(full.skip(k).drop_first() =~= full.skip(k + 1));
                    k = k + 1;
                }
            },
            Err(e) => {
                return Err(ImportError::Decode(e));
            },
        }
    }
    Ok(paragraph_lines(&events))
}

/// The bytes of a DOCX's `word/document.xml` when the archive opens, the part opens and
/// reads, and it is within the size cap.
pub open spec fn docx_document_part(bytes: Seq<u8>) -> Option<Seq<u8>> {
    if zip_archive_opens(bytes) && zip_entry_opens(bytes, "word/document.xml"@) {
        match zip_entry_read(bytes, "word/document.xml"@, (MAX_DOCUMENT_XML_BYTES + 1) as u64) {
            Some(b) => if b.len() <= MAX_DOCUMENT_XML_BYTES {
                Some(b)
            } else {
                None
            },
            None => None,
        }
    } else {
        None
    }
}

/// The paragraph lines of a DOCX, when its document part is read, is valid UTF-8 and
/// its XML reads to the end.
pub open spec fn docx_lines(bytes: Seq<u8>) -> Option<Seq<Seq<char>>> {
    match docx_document_part(bytes) {
        Some(b) => if vstd::utf8::valid_utf8(b) {
            document_lines_spec(vstd::utf8::decode_utf8(b))
        } else {
            None
        },
        None => None,
    }
}

/// Extract the paragraphs of a DOCX: a bad archive, a missing or unreadable document
/// part, one over the size cap, invalid UTF-8 or malformed XML are `Decode` errors.
pub fn extract_docx(bytes: &[u8]) -> (r: Result<ExtractedText, ImportError>)
    ensures
        match docx_lines(bytes@) {
            Some(ls) => r matches Ok(t) && strs(t.lines@) == ls,
            None => r matches Err(e) && e is Decode,
        },
        zip_archive_opens(bytes@) && !zip_entry_opens(bytes@, "word/document.xml"@) ==> (r matches Err(
            ImportError::Decode(d),
        ) && d@.take(19) == "word/document.xml: "@),
        zip_archive_opens(bytes@) && zip_entry_opens(bytes@, "word/document.xml"@) && (zip_entry_read(
            bytes@,
            "word/document.xml"@,
            (MAX_DOCUMENT_XML_BYTES + 1) as u64,
        ) matches Some(b) && b.len() > MAX_DOCUMENT_XML_BYTES) ==> (r matches Err(ImportError::Decode(d)) && d@
            == "document.xml exceeds size limit"@),
{
    let mut archive = match zip_open(bytes) {
        Ok(a) => a,
        Err(e) => {
            return Err(ImportError::Decode(e));
        },
    };
    let buf = match zip_entry_bytes(&mut archive, "word/document.xml", MAX_DOCUMENT_XML_BYTES + 1) {
        Ok(b) => b,
        Err(EntryError::Open(e)) => {
            let mut msg = String::from_str("word/document.xml: ");
            proof {
                reveal_strlit("word/document.xml: ");
            }
            msg.append(e.as_str());
            assert(msg@.take(19) =~= "word/document.xml: "@);
            return Err(ImportError::Decode(msg));
        },
        Err(EntryError::Read(e)) => {
            return Err(ImportError::Decode(e));
        },
    };
    if buf.len() as u64 > MAX_DOCUMENT_XML_BYTES {
        return Err(ImportError::Decode(String::from_str("document.xml exceeds size limit")));
    }
    let xml = match utf8_text(buf) {
        Ok(s) => s,
        Err(e) => {
            return Err(ImportError::Decode(e));
        },
    };
    match document_lines(&xml) {
        Ok(lines) => Ok(ExtractedText { lines }),
        Err(e) => Err(e),
    }
}

} // verus!
