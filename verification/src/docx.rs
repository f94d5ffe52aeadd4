//! Word documents of the tailored CV and the cover letter.
//!
//! The documents are a linear flow of single-run paragraphs. Their text is computed
//! here, mirroring the PDF templates: the CV's section headings come from the
//! templates' heading vocabulary; a sample document opens with the watermark. The
//! `docx-rs` crate packs the paragraphs into `.docx` bytes.

use crate::render::{strengths_model, CoverLetter, CvTemplate};
use crate::samples::SAMPLE_WATERMARK;
use crate::tailor::{join_spec, join_strings, TailoredView};
use crate::cvimport::extract::{docx_lines, MAX_DOCUMENT_XML_BYTES};
use crate::cvimport::segment::{blank, header_spec, lemma_scan_keeps_name, next_nonblank, segment_spec, SegState, SegmentsModel};
use crate::text::{is_ws, strs, trim_end, trim_start};
use crate::types::{opt_str, CoreError, ExperienceModel, MasterCvModel, PersonModel, Skill, SkillModel, skills_model};
use vstd::prelude::*;

verus! {

#[verifier::external_type_specification]
#[verifier::external_body]
pub struct ExDocx(docx_rs::Docx);

#[verifier::external_type_specification]
#[verifier::external_body]
pub struct ExParagraph(docx_rs::Paragraph);

#[verifier::external_type_specification]
#[verifier::external_body]
pub struct ExRun(docx_rs::Run);

/// The texts of a document's paragraph children, in order.
pub uninterp spec fn docx_paragraphs(d: docx_rs::Docx) -> Seq<Seq<char>>;

/// Whether every child of a document is a paragraph made only of text runs.
pub uninterp spec fn docx_text_only(d: docx_rs::Docx) -> bool;

/// The text of a paragraph: the texts of its runs, concatenated.
pub uninterp spec fn paragraph_text(p: docx_rs::Paragraph) -> Seq<char>;

/// Whether every child of a paragraph is a run made only of texts.
pub uninterp spec fn paragraph_text_only(p: docx_rs::Paragraph) -> bool;

/// The text of a run: the texts of its text children, concatenated, as given (before
/// the XML escaping applied when the document is written).
pub uninterp spec fn run_text(r: docx_rs::Run) -> Seq<char>;

/// Whether every child of a run is a text.
pub uninterp spec fn run_text_only(r: docx_rs::Run) -> bool;

/// A text as a run keeps it: `Run::add_text` drops line feeds.
pub open spec fn without_newlines(s: Seq<char>) -> Seq<char> {
    s.filter(|c: char| c != '\n')
}

/// `Docx::new`: a document with no children.
#[verifier::external_body]
fn docx_new() -> (r: docx_rs::Docx)
    ensures
        docx_paragraphs(r) == Seq::<Seq<char>>::empty(),
        docx_text_only(r),
{
    docx_rs::Docx::new()
}

/// `Docx::add_paragraph`: the document with the paragraph appended as a child.
#[verifier::external_body]
fn docx_add_paragraph(d: docx_rs::Docx, p: docx_rs::Paragraph) -> (r: docx_rs::Docx)
    ensures
        docx_paragraphs(r) == docx_paragraphs(d).push(paragraph_text(p)),
        docx_text_only(r) == (docx_text_only(d) && paragraph_text_only(p)),
{
    d.add_paragraph(p)
}

/// `Paragraph::new`: an empty paragraph.
#[verifier::external_body]
fn paragraph_new() -> (r: docx_rs::Paragraph)
    ensures
        paragraph_text(r) == Seq::<char>::empty(),
        paragraph_text_only(r),
{
    docx_rs::Paragraph::new()
}

/// `Paragraph::add_run`: the paragraph with the run appended.
#[verifier::external_body]
fn paragraph_add_run(p: docx_rs::Paragraph, run: docx_rs::Run) -> (r: docx_rs::Paragraph)
    ensures
        paragraph_text(r) == paragraph_text(p) + run_text(run),
        paragraph_text_only(r) == (paragraph_text_only(p) && run_text_only(run)),
{
    p.add_run(run)
}

/// `Run::new`: an empty run.
#[verifier::external_body]
fn run_new() -> (r: docx_rs::Run)
    ensures
        run_text(r) == Seq::<char>::empty(),
        run_text_only(r),
{
    docx_rs::Run::new()
}

/// `Run::add_text`: the run with the text appended, line feeds dropped.
#[verifier::external_body]
fn run_add_text(run: docx_rs::Run, text: String) -> (r: docx_rs::Run)
    ensures
        run_text(r) == run_text(run) + without_newlines(text@),
        run_text_only(r) == run_text_only(run),
{
    run.add_text(text)
}

/// The bytes open with a ZIP local file header (`PK\x03\x04`).
pub open spec fn starts_zip(b: Seq<u8>) -> bool {
    b.len() >= 4 && b[0] == 0x50u8 && b[1] == 0x4Bu8 && b[2] == 0x03u8 && b[3] == 0x04u8
}

/// A character the document writer escapes as an entity reference.
pub open spec fn is_escaped_char(c: char) -> bool {
    c == '&' || c == '<' || c == '>' || c == '"' || c == '\'' || c == '\r'
}

/// A text the writer puts into the document part verbatim.
pub open spec fn plain_text(s: Seq<char>) -> bool {
    forall|i: int| 0 <= i < s.len() ==> !is_escaped_char(#[trigger] s[i])
}

/// The number of characters of a list of texts.
pub open spec fn text_chars(ts: Seq<Seq<char>>) -> nat
    decreases ts.len(),
{
    if ts.len() == 0 {
        0
    } else {
        text_chars(ts.drop_last()) + ts.last().len()
    }
}

/// Texts that read back from a packed document: each written verbatim, and the
/// document part (at most four bytes a character, with a kilobyte of markup a
/// paragraph and a megabyte for the rest) within the importer's size cap.
pub open spec fn reads_back(ts: Seq<Seq<char>>) -> bool {
    &&& forall|i: int| 0 <= i < ts.len() ==> plain_text(#[trigger] ts[i])
    &&& 4 * text_chars(ts) + 1024 * ts.len() + 1048576 <= MAX_DOCUMENT_XML_BYTES
}

/// The lines a document of these paragraph texts reads back as.
pub open spec fn read_back_lines(ts: Seq<Seq<char>>) -> Seq<Seq<char>> {
    ts.map_values(|t: Seq<char>| trim_end(t))
}

/// `Docx::pack` into an in-memory buffer: the archive bytes, or the zip error's text.
/// The archive is written by a fresh `zip::ZipWriter` from position 0, whose first
/// entry opens with a local file header, so packed bytes start with its signature.
/// The archive stores `word/document.xml`, in which each paragraph child is a `w:p`
/// whose runs write their texts as `w:t` elements, escaped only for `& < > " '` and
/// carriage returns, with no other `w:p` or `w:t`. So for a document of text-only
/// paragraphs whose texts read back, the importer's reading of the bytes gives one line
/// per paragraph, its text trimmed at the end. The paragraph ids docx-rs numbers from a
/// thread-local counter make the bytes themselves vary; they are not stated.
#[verifier::external_body]
fn docx_pack(d: docx_rs::Docx) -> (r: Result<Vec<u8>, String>)
    ensures
        r matches Ok(b) ==> starts_zip(b@),
        r matches Ok(b) ==> (docx_text_only(d) && reads_back(docx_paragraphs(d)) ==> docx_lines(b@) == Some(
            read_back_lines(docx_paragraphs(d)),
        )),
{
    let mut buf = std::io::Cursor::new(Vec::new());
    match d.pack(&mut buf) {
        Ok(()) => Ok(buf.into_inner()),
        Err(e) => Err(e.to_string()),
    }
}

/// The texts a list of paragraphs is written as: line feeds dropped.
pub open spec fn packed_texts(ps: Seq<Seq<char>>) -> Seq<Seq<char>> {
    ps.map_values(|s: Seq<char>| without_newlines(s))
}

/// A document of single-run paragraphs, one per text, in order.
pub fn build_docx(paragraphs: &Vec<String>) -> (d: docx_rs::Docx)
    ensures
        docx_paragraphs(d) == packed_texts(strs(paragraphs@)),
        docx_text_only(d),
{
    let mut docx = docx_new();
    let mut i: usize = 0;
    while i < paragraphs.len()
        invariant
            i <= paragraphs@.len(),
            docx_paragraphs(docx) == packed_texts(strs(paragraphs@)).take(i as int),
            docx_text_only(docx),
        decreases paragraphs@.len() - i,
    {
        let run = run_add_text(run_new(), paragraphs[i].clone());
        let p = paragraph_add_run(paragraph_new(), run);
        docx = docx_add_paragraph(docx, p);
        proof {
            assert(Seq::<char>::empty() + (Seq::<char>::empty() + without_newlines(paragraphs@[i as int]@)) =~= without_newlines(
                paragraphs@[i as int]@,
            ));
            assert(packed_texts(strs(paragraphs@)).take(i + 1) =~= packed_texts(strs(paragraphs@)).take(i as int).push(
                without_newlines(paragraphs@[i as int]@),
            ));
        }
        i += 1;
    }
    assert(packed_texts(strs(paragraphs@)).take(paragraphs@.len() as int) =~= packed_texts(strs(paragraphs@)));
    docx
}

/// Pack paragraphs into `.docx` bytes: the document [`build_docx`] makes of them,
/// packed; a packing failure is a render error. Packed texts that read back are what
/// the importer reads from the bytes, one line each.
pub fn pack_paragraphs(paragraphs: &Vec<String>) -> (r: Result<Vec<u8>, CoreError>)
    ensures
        r matches Ok(b) ==> starts_zip(b@),
        r matches Ok(b) ==> (reads_back(packed_texts(strs(paragraphs@))) ==> docx_lines(b@) == Some(
            read_back_lines(packed_texts(strs(paragraphs@))),
        )),
        r matches Err(e) ==> e is Render,
{
    let docx = build_docx(paragraphs);
    match docx_pack(docx) {
        Ok(bytes) => Ok(bytes),
        Err(e) => Err(CoreError::Render(e)),
    }
}

// ── the CV ───────────────────────────────────────────────────────────────────────

/// The contact fields of a person that are present and non-empty, in order.
pub open spec fn contact_parts(p: PersonModel) -> Seq<Seq<char>> {
    let fields = seq![p.location, p.email, p.phone, p.linkedin, p.github, p.website];
    present_parts(fields)
}

pub open spec fn present_parts(fs: Seq<Option<Seq<char>>>) -> Seq<Seq<char>>
    decreases fs.len(),
{
    if fs.len() == 0 {
        Seq::empty()
    } else {
        present_parts(fs.drop_last()) + match fs.last() {
            Some(s) => if s.len() > 0 {
                seq![s]
            } else {
                Seq::empty()
            },
            None => Seq::empty(),
        }
    }
}

/// The names of skills joined by ", ".
pub open spec fn skill_names(ss: Seq<SkillModel>) -> Seq<char> {
    join_spec(ss.map_values(|s: SkillModel| s.name), ", "@)
}

/// The label and list paragraphs of a skill section, when it is non-empty.
pub open spec fn skill_section(label: Seq<char>, ss: Seq<SkillModel>) -> Seq<Seq<char>> {
    if ss.len() == 0 {
        Seq::empty()
    } else {
        seq![label, skill_names(ss)]
    }
}

/// The paragraphs of one experience (none for a hidden one): the job line, the
/// business line, then each achievement.
pub open spec fn experience_paragraphs(e: ExperienceModel) -> Seq<Seq<char>> {
    if e.hide == Some(true) {
        Seq::empty()
    } else {
        let job = e.job_title + "  "@ + e.start_date + match e.end_date {
            Some(end) => if end.len() > 0 {
                " – "@ + end
            } else {
                Seq::empty()
            },
            None => Seq::empty(),
        };
        let biz = e.business_name + match e.location {
            Some(l) => if l.len() > 0 {
                " · "@ + l
            } else {
                Seq::empty()
            },
            None => Seq::empty(),
        };
        seq![job, biz] + e.achievements_tasks.map_values(|a: crate::types::AchievementModel| a.description)
    }
}

pub open spec fn experiences_paragraphs(es: Seq<ExperienceModel>) -> Seq<Seq<char>>
    decreases es.len(),
{
    if es.len() == 0 {
        Seq::empty()
    } else {
        experiences_paragraphs(es.drop_last()) + experience_paragraphs(es.last())
    }
}

/// The paragraphs of the CV document.
pub open spec fn cv_paragraphs_spec(cv: MasterCvModel, watermark: bool) -> Seq<Seq<char>> {
    let mark = if watermark {
        seq![SAMPLE_WATERMARK@]
    } else {
        Seq::empty()
    };
    let name = match cv.person.name {
        Some(n) => seq![n],
        None => Seq::empty(),
    };
    let title = match cv.person.professional_title {
        Some(t) => if t.len() > 0 {
            seq![t]
        } else {
            Seq::empty()
        },
        None => Seq::empty(),
    };
    let parts = contact_parts(cv.person);
    let contact = if parts.len() > 0 {
        seq![join_spec(parts, "  ·  "@)]
    } else {
        Seq::empty()
    };
    mark + name + title + contact + skill_section("Languages"@, cv.programming_languages) + skill_section(
        "Skills"@,
        cv.skills,
    ) + skill_section("Tools & Technologies"@, cv.tools_technologies) + skill_section(
        "Platforms & Services"@,
        cv.as_a_services,
    ) + seq!["Experience"@] + experiences_paragraphs(cv.experience)
}

fn push_str(out: &mut Vec<String>, s: String)
    ensures
        strs(final(out)@) == strs(old(out)@).push(s@),
{
    let ghost pre = strs(out@);
    out.push(s);
    assert(strs(out@) =~= pre.push(s@));
}

fn contact_line(p: &crate::types::Person) -> (r: Vec<String>)
    ensures
        strs(r@) == contact_parts(p@),
{
    let mut out: Vec<String> = Vec::new();
    let fields = [&p.location, &p.email, &p.phone, &p.linkedin, &p.github, &p.website];
    let ghost fs = seq![p@.location, p@.email, p@.phone, p@.linkedin, p@.github, p@.website];
    let mut i: usize = 0;
    assert(fs.take(0) =~= Seq::<Option<Seq<char>>>::empty());
    assert(strs(out@) =~= Seq::<Seq<char>>::empty());
    while i < 6
        invariant
            i <= 6,
            fs == seq![p@.location, p@.email, p@.phone, p@.linkedin, p@.github, p@.website],
            fields@ == seq![&p.location, &p.email, &p.phone, &p.linkedin, &p.github, &p.website],
            strs(out@) == present_parts(fs.take(i as int)),
        decreases 6 - i,
    {
        assert(fs.take(i + 1).drop_last() =~= fs.take(i as int));
        assert(fs.take(i + 1).last() == fs[i as int]);
        assert(fs[i as int] == opt_str(*fields@[i as int]));
        let ghost pre = strs(out@);
        match fields[i] {
            Some(s) => {
                if !s.as_str().is_empty() {
                    push_str(&mut out, s.clone());
                    assert(strs(out@) =~= pre + seq![s@]);
                } else {
                    assert(pre + Seq::<Seq<char>>::empty() =~= pre);
                }
            },
            None => {
                assert(pre + Seq::<Seq<char>>::empty() =~= pre);
            },
        }
        i += 1;
    }
    assert(fs.take(6) =~= fs);
    out
}

fn skill_name_list(list: &Vec<Skill>) -> (r: String)
    ensures
        r@ == skill_names(skills_model(list@)),
{
    let mut names: Vec<String> = Vec::new();
    let mut i: usize = 0;
    while i < list.len()
        invariant
            i <= list@.len(),
            strs(names@) == skills_model(list@).map_values(|s: SkillModel| s.name).take(i as int),
        decreases list@.len() - i,
    {
        push_str(&mut names, list[i].name.clone());
        assert(skills_model(list@).map_values(|s: SkillModel| s.name).take(i + 1) =~= skills_model(list@).map_values(
            |s: SkillModel| s.name,
        ).take(i as int).push(list@[i as int].name@));
        i += 1;
    }
    assert(skills_model(list@).map_values(|s: SkillModel| s.name).take(list@.len() as int) =~= skills_model(list@).map_values(
        |s: SkillModel| s.name,
    ));
    join_strings(&names, ", ")
}

fn push_skill_section(out: &mut Vec<String>, label: &str, list: &Vec<Skill>)
    ensures
        strs(final(out)@) == strs(old(out)@) + skill_section(label@, skills_model(list@)),
{
    if list.len() == 0 {
        assert(strs(out@) + Seq::<Seq<char>>::empty() =~= strs(out@));
        return;
    }
    let ghost pre = strs(out@);
    push_str(out, String::from_str(label));
    push_str(out, skill_name_list(list));
    assert(strs(out@) =~= pre + skill_section(label@, skills_model(list@)));
}

fn push_experience(out: &mut Vec<String>, e: &crate::types::Experience)
    ensures
        strs(final(out)@) == strs(old(out)@) + experience_paragraphs(e@),
{
    let hidden = match e.hide {
        Some(h) => h,
        None => false,
    };
    if hidden {
        assert(strs(out@) + Seq::<Seq<char>>::empty() =~= strs(out@));
        return;
    }
    let ghost pre = strs(out@);
    let mut job = e.job_title.clone();
    job.append("  ");
    job.append(e.start_date.as_str());
    match &e.end_date {
        Some(end) => {
            if !end.as_str().is_empty() {
                job.append(" – ");
                job.append(end.as_str());
            }
        },
        None => {},
    }
    let mut biz = e.business_name.clone();
    match &e.location {
        Some(l) => {
            if !l.as_str().is_empty() {
                biz.append(" · ");
                biz.append(l.as_str());
            }
        },
        None => {},
    }
    let ghost spec_job = e@.job_title + "  "@ + e@.start_date + match e@.end_date {
        Some(end) => if end.len() > 0 {
            " – "@ + end
        } else {
            Seq::<char>::empty()
        },
        None => Seq::<char>::empty(),
    };
    let ghost spec_biz = e@.business_name + match e@.location {
        Some(l) => if l.len() > 0 {
            " · "@ + l
        } else {
            Seq::<char>::empty()
        },
        None => Seq::<char>::empty(),
    };
    assert(job@ =~= spec_job);
    assert(biz@ =~= spec_biz);
    push_str(out, job);
    push_str(out, biz);
    let ghost mid = strs(out@);
    assert(mid =~= pre + seq![spec_job, spec_biz]);
    let ghost ds = e@.achievements_tasks.map_values(|a: crate::types::AchievementModel| a.description);
    let mut i: usize = 0;
    while i < e.achievements_tasks.len()
        invariant
            i <= e.achievements_tasks@.len(),
            ds == e@.achievements_tasks.map_values(|a: crate::types::AchievementModel| a.description),
            strs(out@) == mid + ds.take(i as int),
        decreases e.achievements_tasks@.len() - i,
    {
        push_str(out, e.achievements_tasks[i].description.clone());
        assert(ds.take(i + 1) =~= ds.take(i as int).push(e.achievements_tasks@[i as int].description@));
        i += 1;
    }
    assert(ds.take(ds.len() as int) =~= ds);
    assert(strs(out@) =~= pre + experience_paragraphs(e@));
}

/// The paragraphs of the CV document (see [`cv_paragraphs_spec`]).
pub fn cv_paragraphs(view: &TailoredView, watermark: bool) -> (r: Vec<String>)
    ensures
        strs(r@) == cv_paragraphs_spec(view.cv@, watermark),
{
    let cv = &view.cv;
    let mut out: Vec<String> = Vec::new();
    let ghost p0 = strs(out@);
    if watermark {
        push_str(&mut out, String::from_str(SAMPLE_WATERMARK));
    }
    match &cv.person.name {
        Some(n) => push_str(&mut out, n.clone()),
        None => {},
    }
    match &cv.person.professional_title {
        Some(t) => {
            if !t.as_str().is_empty() {
                push_str(&mut out, t.clone());
            }
        },
        None => {},
    }
    let parts = contact_line(&cv.person);
    if parts.len() > 0 {
        push_str(&mut out, join_strings(&parts, "  ·  "));
    }
    let ghost head = strs(out@);
    push_skill_section(&mut out, "Languages", &cv.programming_languages);
    push_skill_section(&mut out, "Skills", &cv.skills);
    push_skill_section(&mut out, "Tools & Technologies", &cv.tools_technologies);
    push_skill_section(&mut out, "Platforms & Services", &cv.as_a_services);
    push_str(&mut out, String::from_str("Experience"));
    let ghost mid = strs(out@);
    let ghost es = cv@.experience;
    let mut i: usize = 0;
    assert(es.take(0) =~= Seq::<ExperienceModel>::empty());
    assert(strs(out@) =~= mid + experiences_paragraphs(es.take(0)));
    while i < cv.experience.len()
        invariant
            i <= cv.experience@.len(),
            es == cv@.experience,
            strs(out@) == mid + experiences_paragraphs(es.take(i as int)),
        decreases cv.experience@.len() - i,
    {
        push_experience(&mut out, &cv.experience[i]);
        proof {
            assert(es[i as int] == cv.experience@[i as int]@);
            assert(es.take(i + 1).drop_last() =~= es.take(i as int));
            assert(strs(out@) =~= mid + experiences_paragraphs(es.take(i + 1)));
        }
        i += 1;
    }
    assert(es.take(es.len() as int) =~= es);
    assert(strs(out@) =~= cv_paragraphs_spec(view.cv@, watermark));
    out
}

/// The tailored CV as `.docx` bytes. Classic and Compact read the same in a linear
/// document.
pub fn cv_docx(view: &TailoredView, template: CvTemplate, watermark: bool) -> (r: Result<Vec<u8>, CoreError>)
    ensures
        r matches Ok(b) ==> starts_zip(b@),
        r matches Ok(b) ==> (reads_back(packed_texts(cv_paragraphs_spec(view.cv@, watermark))) ==> docx_lines(b@)
            == Some(read_back_lines(packed_texts(cv_paragraphs_spec(view.cv@, watermark))))),
        r matches Err(e) ==> e is Render,
{
    let paragraphs = cv_paragraphs(view, watermark);
    pack_paragraphs(&paragraphs)
}

/// A text holds no line feed, so a run keeps it whole.
proof fn lemma_without_newlines_keeps(s: Seq<char>)
    requires
        forall|i: int| 0 <= i < s.len() ==> s[i] != '\n',
    ensures
        without_newlines(s) == s,
    decreases s.len(),
{
    reveal(Seq::filter);
    if s.len() > 0 {
        lemma_without_newlines_keeps(s.drop_last());
        assert(s.drop_last().push(s.last()) =~= s);
    }
}

/// A CV written without the sample watermark reads back with its name: when the name
/// is non-empty, starts and ends with a non-space and holds no line feed, the
/// importer's segmentation of the lines its document reads back as finds that name.
pub proof fn law_cv_docx_name_reads_back(cv: MasterCvModel)
    requires
        cv.person.name matches Some(n) && n.len() > 0 && !is_ws(n[0]) && !is_ws(n.last()) && (forall|i: int|
            0 <= i < n.len() ==> n[i] != '\n'),
    ensures
        segment_spec(read_back_lines(packed_texts(cv_paragraphs_spec(cv, false)))).name == cv.person.name,
{
    let n = cv.person.name->0;
    let ps = cv_paragraphs_spec(cv, false);
    assert(ps[0] == n);
    let lines = read_back_lines(packed_texts(ps));
    lemma_without_newlines_keeps(n);
    assert(trim_end(n) == n);
    assert(trim_start(n) == n);
    assert(lines[0] == n);
    assert(!blank(lines[0]));
    assert(next_nonblank(lines, 0) == 0);
    let h = header_spec(lines);
    assert(h.0 == Some(n));
    let init = SegState {
        seg: SegmentsModel { name: h.0, title: h.1, skills: Seq::empty(), experience: Seq::empty() },
        in_exp: false,
        current: None,
    };
    lemma_scan_keeps_name(lines, h.2, init);
}

// ── the cover letter ─────────────────────────────────────────────────────────────

/// The paragraph of a strength: a bullet, the text, then its evidence id.
pub open spec fn strength_line(s: (Seq<char>, Seq<char>)) -> Seq<char> {
    "• "@ + s.0 + "  [evidence: "@ + s.1 + "]"@
}

/// The paragraphs of the cover-letter document.
pub open spec fn letter_paragraphs_spec(
    candidate: Seq<char>,
    greeting: Seq<char>,
    why_role: Seq<char>,
    strengths: Seq<(Seq<char>, Seq<char>)>,
    closing: Seq<char>,
    watermark: bool,
) -> Seq<Seq<char>> {
    let mark = if watermark {
        seq![SAMPLE_WATERMARK@]
    } else {
        Seq::empty()
    };
    let name = if candidate.len() > 0 {
        seq![candidate]
    } else {
        Seq::empty()
    };
    mark + name + seq![greeting, why_role] + strengths.map_values(|s: (Seq<char>, Seq<char>)| strength_line(s)) + seq![
        closing,
    ]
}

/// The paragraphs of the cover-letter document (see [`letter_paragraphs_spec`]).
pub fn cover_letter_paragraphs(letter: &CoverLetter, watermark: bool) -> (r: Vec<String>)
    ensures
        strs(r@) == letter_paragraphs_spec(
            letter.candidate_name@,
            letter.greeting@,
            letter.why_role@,
            strengths_model(letter.strengths@),
            letter.closing@,
            watermark,
        ),
{
    let mut out: Vec<String> = Vec::new();
    if watermark {
        push_str(&mut out, String::from_str(SAMPLE_WATERMARK));
    }
    if !letter.candidate_name.as_str().is_empty() {
        push_str(&mut out, letter.candidate_name.clone());
    }
    push_str(&mut out, letter.greeting.clone());
    push_str(&mut out, letter.why_role.clone());
    let ghost mid = strs(out@);
    let ghost sl = strengths_model(letter.strengths@).map_values(|s: (Seq<char>, Seq<char>)| strength_line(s));
    let mut i: usize = 0;
    while i < letter.strengths.len()
        invariant
            i <= letter.strengths@.len(),
            sl == strengths_model(letter.strengths@).map_values(|s: (Seq<char>, Seq<char>)| strength_line(s)),
            strs(out@) == mid + sl.take(i as int),
        decreases letter.strengths@.len() - i,
    {
        let s = &letter.strengths[i];
        let mut line = String::from_str("• ");
        line.append(s.text.as_str());
        line.append("  [evidence: ");
        line.append(s.source_evidence_id.as_str());
        line.append("]");
        push_str(&mut out, line);
        assert(sl.take(i + 1) =~= sl.take(i as int).push(sl[i as int]));
        i += 1;
    }
    assert(sl.take(sl.len() as int) =~= sl);
    push_str(&mut out, letter.closing.clone());
    out
}

/// The cover letter as `.docx` bytes.
pub fn cover_letter_docx(letter: &CoverLetter, watermark: bool) -> (r: Result<Vec<u8>, CoreError>)
    ensures
        r matches Ok(b) ==> starts_zip(b@),
        r matches Ok(b) ==> (reads_back(packed_texts(letter_paragraphs_spec(
            letter.candidate_name@,
            letter.greeting@,
            letter.why_role@,
            strengths_model(letter.strengths@),
            letter.closing@,
            watermark,
        ))) ==> docx_lines(b@) == Some(read_back_lines(packed_texts(letter_paragraphs_spec(
            letter.candidate_name@,
            letter.greeting@,
            letter.why_role@,
            strengths_model(letter.strengths@),
            letter.closing@,
            watermark,
        ))))),
        r matches Err(e) ==> e is Render,
{
    let paragraphs = cover_letter_paragraphs(letter, watermark);
    pack_paragraphs(&paragraphs)
}

} // verus!
