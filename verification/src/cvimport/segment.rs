//! Deterministic cue-token segmentation of extracted résumé text.
//!
//! Newlines are not assumed to be structure; section labels and structural cues drive
//! the split. The header is the first non-blank line (the name) and, unless it is a
//! section label, the next non-blank line (the title). In the body a skills label
//! takes the next non-blank line as its list; the experience header switches on job
//! parsing, where a job line (`<title> <Mon YYYY> – <Mon YYYY|Present>`) opens a block
//! whose next non-blank line, unless itself a job line, is `<business> · <location>`;
//! other lines are bullets of the open block.

use crate::cvimport::ExtractedText;
use crate::text::{
    all_ascii, ascii_lowered, char_vecs, chars_of, eq_ignore_ascii_case, eq_ignore_ascii_case_spec, is_ws, is_whitespace, lower_trimmed,
    lowercase_of, slice_vec, split_chars, split_spec, string_of, string_of_range, strs, trim, trim_str, trim_string,
    trimmed, Sep,
};
use vstd::prelude::*;

verus! {

/// Which master-CV skill list a labelled skills segment feeds.
#[derive(Debug, Clone, Copy, PartialEq, Eq, Structural)]
pub enum SkillBucket {
    ProgrammingLanguages,
    Skills,
    ToolsTechnologies,
    AsAServices,
}

/// One recognised experience block: a job line and the lines under it.
#[derive(Debug, Clone, PartialEq, Eq, Default)]
pub struct ExperienceBlock {
    pub job_title: String,
    pub business_name: String,
    pub start_date: String,
    pub end_date: Option<String>,
    pub location: Option<String>,
    pub bullets: Vec<String>,
}

/// The structured result of segmentation; empty when nothing was recognised.
#[derive(Debug, Clone, PartialEq, Eq, Default)]
pub struct Segments {
    pub name: Option<String>,
    pub title: Option<String>,
    pub skills: Vec<(SkillBucket, Vec<String>)>,
    pub experience: Vec<ExperienceBlock>,
}

// ── models ───────────────────────────────────────────────────────────────────────

pub struct BlockModel {
    pub job_title: Seq<char>,
    pub business_name: Seq<char>,
    pub start_date: Seq<char>,
    pub end_date: Option<Seq<char>>,
    pub location: Option<Seq<char>>,
    pub bullets: Seq<Seq<char>>,
}

pub struct SegmentsModel {
    pub name: Option<Seq<char>>,
    pub title: Option<Seq<char>>,
    pub skills: Seq<(SkillBucket, Seq<Seq<char>>)>,
    pub experience: Seq<BlockModel>,
}

pub open spec fn ostr(o: Option<String>) -> Option<Seq<char>> {
    match o {
        Some(s) => Some(s@),
        None => None,
    }
}

impl View for ExperienceBlock {
    type V = BlockModel;

    open spec fn view(&self) -> BlockModel {
        BlockModel {
            job_title: self.job_title@,
            business_name: self.business_name@,
            start_date: self.start_date@,
            end_date: ostr(self.end_date),
            location: ostr(self.location),
            bullets: strs(self.bullets@),
        }
    }
}

pub open spec fn skill_lists_model(v: Seq<(SkillBucket, Vec<String>)>) -> Seq<(SkillBucket, Seq<Seq<char>>)> {
    v.map_values(|p: (SkillBucket, Vec<String>)| (p.0, strs(p.1@)))
}

pub open spec fn blocks_model(v: Seq<ExperienceBlock>) -> Seq<BlockModel> {
    v.map_values(|b: ExperienceBlock| b@)
}

impl View for Segments {
    type V = SegmentsModel;

    open spec fn view(&self) -> SegmentsModel {
        SegmentsModel {
            name: ostr(self.name),
            title: ostr(self.title),
            skills: skill_lists_model(self.skills@),
            experience: blocks_model(self.experience@),
        }
    }
}

impl Segments {
    /// No résumé structure was recovered at all.
    pub open spec fn spec_is_empty(self) -> bool {
        self.name is None && self.title is None && self.skills@.len() == 0 && self.experience@.len() == 0
    }

    /// True when no résumé structure was recovered at all.
    pub fn is_empty(&self) -> (r: bool)
        ensures
            r == self.spec_is_empty(),
    {
        self.name.is_none() && self.title.is_none() && self.skills.len() == 0 && self.experience.len() == 0
    }
}

// ── cue vocabulary ───────────────────────────────────────────────────────────────

/// The skills bucket a section label names (case-insensitive, trimmed).
pub open spec fn skill_bucket_spec(label: Seq<char>) -> Option<SkillBucket> {
    let l = lowercase_of(trim(label));
    if l == "languages"@ || l == "programming languages"@ {
        Some(SkillBucket::ProgrammingLanguages)
    } else if l == "skills"@ || l == "core skills"@ {
        Some(SkillBucket::Skills)
    } else if l == "tools & technologies"@ || l == "tools and technologies"@ || l == "technologies"@ || l == "tools"@ {
        Some(SkillBucket::ToolsTechnologies)
    } else if l == "platforms & services"@ || l == "platforms and services"@ || l == "platforms"@ || l == "services"@ {
        Some(SkillBucket::AsAServices)
    } else {
        None
    }
}

/// The line is the experience section header (case-insensitive, trimmed).
pub open spec fn is_experience_header_spec(label: Seq<char>) -> bool {
    let l = lowercase_of(trim(label));
    l == "experience"@ || l == "work experience"@ || l == "employment"@ || l == "employment history"@ || l
        == "experience history"@
}

/// The skills-section labels, lowercase, each with the bucket it names.
pub open spec fn skill_vocabulary() -> Seq<(Seq<char>, SkillBucket)> {
    seq![
        ("languages"@, SkillBucket::ProgrammingLanguages),
        ("programming languages"@, SkillBucket::ProgrammingLanguages),
        ("skills"@, SkillBucket::Skills),
        ("core skills"@, SkillBucket::Skills),
        ("tools & technologies"@, SkillBucket::ToolsTechnologies),
        ("tools and technologies"@, SkillBucket::ToolsTechnologies),
        ("technologies"@, SkillBucket::ToolsTechnologies),
        ("tools"@, SkillBucket::ToolsTechnologies),
        ("platforms & services"@, SkillBucket::AsAServices),
        ("platforms and services"@, SkillBucket::AsAServices),
        ("platforms"@, SkillBucket::AsAServices),
        ("services"@, SkillBucket::AsAServices),
    ]
}

/// A section label names a skills bucket exactly when, trimmed and lowercased, it is
/// one of the vocabulary's labels, and then it names that label's bucket.
pub proof fn law_skill_vocabulary(label: Seq<char>)
    ensures
        forall|k: int|
            0 <= k < skill_vocabulary().len() && lowercase_of(trim(label)) == (#[trigger] skill_vocabulary()[k]).0
                ==> skill_bucket_spec(label) == Some(skill_vocabulary()[k].1),
        skill_bucket_spec(label) is Some ==> exists|k: int|
            0 <= k < skill_vocabulary().len() && lowercase_of(trim(label)) == (#[trigger] skill_vocabulary()[k]).0,
{
    reveal_strlit("languages");
    reveal_strlit("programming languages");
    reveal_strlit("skills");
    reveal_strlit("core skills");
    reveal_strlit("tools & technologies");
    reveal_strlit("tools and technologies");
    reveal_strlit("technologies");
    reveal_strlit("tools");
    reveal_strlit("platforms & services");
    reveal_strlit("platforms and services");
    reveal_strlit("platforms");
    reveal_strlit("services");
    let v = skill_vocabulary();
    let l = lowercase_of(trim(label));
    assert("languages"@.len() == 9);
    assert("programming languages"@.len() == 21);
    assert("skills"@.len() == 6);
    assert("core skills"@.len() == 11);
    assert("tools & technologies"@.len() == 20);
    assert("tools and technologies"@.len() == 22);
    assert("technologies"@.len() == 12);
    assert("tools"@.len() == 5);
    assert("platforms & services"@.len() == 20);
    assert("platforms and services"@.len() == 22);
    assert("platforms"@.len() == 9);
    assert("services"@.len() == 8);
    assert("tools"@ != "skills"@) by {
        assert("tools"@[0] != "skills"@[0]);
    }
    assert("platforms"@ != "languages"@) by {
        assert("platforms"@[0] != "languages"@[0]);
    }
    assert("tools & technologies"@ != "platforms & services"@) by {
        assert("tools & technologies"@[0] != "platforms & services"@[0]);
    }
    assert("tools and technologies"@ != "platforms and services"@) by {
        assert("tools and technologies"@[0] != "platforms and services"@[0]);
    }
    assert("services"@ != "skills"@) by {
        assert("services"@[1] != "skills"@[1]);
    }
    assert forall|k: int| 0 <= k < v.len() && l == (#[trigger] v[k]).0 implies skill_bucket_spec(label) == Some(v[k].1) by {
        if k == 0 {
        } else if k == 1 {
        } else if k == 2 {
        } else if k == 3 {
        } else if k == 4 {
        } else if k == 5 {
        } else if k == 6 {
        } else if k == 7 {
        } else if k == 8 {
        } else if k == 9 {
        } else if k == 10 {
        } else {
            assert(k == 11);
        }
    }
    if skill_bucket_spec(label) is Some {
        if l == v[0].0 {
        } else if l == v[1].0 {
        } else if l == v[2].0 {
        } else if l == v[3].0 {
        } else if l == v[4].0 {
        } else if l == v[5].0 {
        } else if l == v[6].0 {
        } else if l == v[7].0 {
        } else if l == v[8].0 {
        } else if l == v[9].0 {
        } else if l == v[10].0 {
        } else {
            assert(l == v[11].0);
        }
    }
}

/// Map a section-label line (case-insensitive) to a skills bucket, if it is one. A
/// label that trims to ASCII text names the bucket of the vocabulary label it equals up
/// to ASCII case.
pub fn skill_bucket_for(label: &str) -> (r: Option<SkillBucket>)
    ensures
        r == skill_bucket_spec(label@),
        forall|k: int|
            0 <= k < skill_vocabulary().len() && all_ascii(trim(label@)) && ascii_lowered(trim(label@)) == (
            #[trigger] skill_vocabulary()[k]).0 ==> r == Some(skill_vocabulary()[k].1),
{
    proof {
        law_skill_vocabulary(label@);
    }
    let l = lower_trimmed(label);
    let s = l.as_str();
    if crate::text::str_eq(s, "languages") || crate::text::str_eq(s, "programming languages") {
        Some(SkillBucket::ProgrammingLanguages)
    } else if crate::text::str_eq(s, "skills") || crate::text::str_eq(s, "core skills") {
        Some(SkillBucket::Skills)
    } else if crate::text::str_eq(s, "tools & technologies") || crate::text::str_eq(s, "tools and technologies")
        || crate::text::str_eq(s, "technologies") || crate::text::str_eq(s, "tools") {
        Some(SkillBucket::ToolsTechnologies)
    } else if crate::text::str_eq(s, "platforms & services") || crate::text::str_eq(s, "platforms and services")
        || crate::text::str_eq(s, "platforms") || crate::text::str_eq(s, "services") {
        Some(SkillBucket::AsAServices)
    } else {
        None
    }
}

/// The experience-section labels, lowercase.
pub open spec fn experience_vocabulary() -> Seq<Seq<char>> {
    seq!["experience"@, "work experience"@, "employment"@, "employment history"@, "experience history"@]
}

/// A line is the experience header exactly when, trimmed and lowercased, it is one of
/// the experience labels.
pub proof fn law_experience_vocabulary(label: Seq<char>)
    ensures
        is_experience_header_spec(label) <==> experience_vocabulary().contains(lowercase_of(trim(label))),
{
    let v = experience_vocabulary();
    let l = lowercase_of(trim(label));
    if is_experience_header_spec(label) {
        if l == v[0] {
        } else if l == v[1] {
        } else if l == v[2] {
        } else if l == v[3] {
        } else {
            assert(l == v[4]);
        }
    }
    if v.contains(l) {
        let k = choose|k: int| 0 <= k < v.len() && v[k] == l;
        if k == 0 {
        } else if k == 1 {
        } else if k == 2 {
        } else if k == 3 {
        } else {
            assert(k == 4);
        }
    }
}

/// Is this line the experience section header? A line that trims to ASCII text is the
/// header when it equals an experience label up to ASCII case.
pub fn is_experience_header(label: &str) -> (r: bool)
    ensures
        r == is_experience_header_spec(label@),
        all_ascii(trim(label@)) ==> (r <==> experience_vocabulary().contains(ascii_lowered(trim(label@)))),
{
    proof {
        law_experience_vocabulary(label@);
    }
    let l = lower_trimmed(label);
    let s = l.as_str();
    crate::text::str_eq(s, "experience") || crate::text::str_eq(s, "work experience") || crate::text::str_eq(
        s,
        "employment",
    ) || crate::text::str_eq(s, "employment history") || crate::text::str_eq(s, "experience history")
}

// ── skills lines ─────────────────────────────────────────────────────────────────

/// The trimmed non-empty members of `ps`.
pub open spec fn trimmed_nonempty(ps: Seq<Seq<char>>) -> Seq<Seq<char>>
    decreases ps.len(),
{
    if ps.len() == 0 {
        Seq::empty()
    } else {
        let r = trimmed_nonempty(ps.drop_last());
        if trim(ps.last()).len() > 0 {
            r.push(trim(ps.last()))
        } else {
            r
        }
    }
}

/// The skill tokens of a skills line: split at `, · • |`, trimmed, empties dropped.
pub open spec fn split_skills_spec(line: Seq<char>) -> Seq<Seq<char>> {
    trimmed_nonempty(split_spec(line, Sep::SkillList))
}

pub(crate) fn trimmed_pieces(pieces: &Vec<Vec<char>>) -> (r: Vec<String>)
    ensures
        strs(r@) == trimmed_nonempty(char_vecs(pieces@)),
{
    let ghost ps = char_vecs(pieces@);
    let mut out: Vec<String> = Vec::new();
    let mut i: usize = 0;
    assert(ps.take(0) =~= Seq::<Seq<char>>::empty());
    while i < pieces.len()
        invariant
            i <= pieces@.len(),
            ps == char_vecs(pieces@),
            strs(out@) == trimmed_nonempty(ps.take(i as int)),
        decreases pieces@.len() - i,
    {
        assert(ps.take(i + 1).drop_last() =~= ps.take(i as int));
        assert(ps.take(i + 1).last() == pieces@[i as int]@);
        let t = trimmed(&pieces[i]);
        if t.len() > 0 {
            let ghost pre = strs(out@);
            out.push(string_of(&t));
            assert(strs(out@) =~= pre.push(t@));
        }
        i += 1;
    }
    assert(ps.take(ps.len() as int) =~= ps);
    out
}

/// Split a skills line into skill tokens. A line with no separator (a PDF run) stays
/// one token.
pub fn split_skills(line: &str) -> (r: Vec<String>)
    ensures
        strs(r@) == split_skills_spec(line@),
{
    let v = chars_of(line);
    let pieces = split_chars(&v, Sep::SkillList);
    trimmed_pieces(&pieces)
}

// ── job lines ────────────────────────────────────────────────────────────────────

/// The month cues, lowercase, each followed by a space.
pub open spec fn month_cues() -> Seq<Seq<char>> {
    seq![
        "jan "@, "feb "@, "mar "@, "apr "@, "may "@, "jun "@, "jul "@, "aug "@, "sep "@, "oct "@, "nov "@,
        "dec "@,
    ]
}

/// A month cue starts at position `p` of `s` (ASCII case-insensitive).
pub open spec fn month_at(s: Seq<char>, p: int) -> bool {
    exists|m: int|
        0 <= m < 12 && p + 4 <= s.len() && #[trigger] eq_ignore_ascii_case_spec(s.subrange(p, p + 4), month_cues()[m])
}

/// The first position, from `from` on, where a month cue starts.
pub open spec fn first_month(s: Seq<char>, from: nat) -> Option<nat>
    decreases s.len() - from,
{
    if from >= s.len() {
        None
    } else if month_at(s, from as int) {
        Some(from)
    } else {
        first_month(s, from + 1)
    }
}

/// The number of ASCII digits in `s`.
pub open spec fn digit_count(s: Seq<char>) -> nat
    decreases s.len(),
{
    if s.len() == 0 {
        0
    } else {
        digit_count(s.drop_last()) + if '0' <= s.last() && s.last() <= '9' {
            1nat
        } else {
            0nat
        }
    }
}

/// The split of a line at its date tail: everything before the first month cue, and
/// the tail from it — when the tail holds at least four digits.
pub open spec fn split_on_date_range_spec(line: Seq<char>) -> Option<(Seq<char>, Seq<char>)> {
    match first_month(line, 0) {
        Some(p) => if digit_count(line.skip(p as int)) >= 4 {
            Some((line.take(p as int), line.skip(p as int)))
        } else {
            None
        },
        None => None,
    }
}

fn month_cue_table() -> (r: Vec<Vec<char>>)
    ensures
        char_vecs(r@) == month_cues(),
{
    let mut v: Vec<Vec<char>> = Vec::new();
    v.push(chars_of("jan "));
    v.push(chars_of("feb "));
    v.push(chars_of("mar "));
    v.push(chars_of("apr "));
    v.push(chars_of("may "));
    v.push(chars_of("jun "));
    v.push(chars_of("jul "));
    v.push(chars_of("aug "));
    v.push(chars_of("sep "));
    v.push(chars_of("oct "));
    v.push(chars_of("nov "));
    v.push(chars_of("dec "));
    assert(char_vecs(v@) =~= month_cues());
    v
}

fn month_starts_at(v: &Vec<char>, p: usize, cues: &Vec<Vec<char>>) -> (r: bool)
    requires
        char_vecs(cues@) == month_cues(),
        p < v.len(),
    ensures
        r == month_at(v@, p as int),
{
    assert(cues@.len() == 12) by {
        assert(char_vecs(cues@).len() == cues@.len());
    }
    if v.len() - p < 4 {
        return false;
    }
    let window = slice_vec(v, p, p + 4);
    let mut m: usize = 0;
    while m < 12
        invariant
            m <= 12,
            cues@.len() == 12,
            char_vecs(cues@) == month_cues(),
            p + 4 <= v@.len(),
            window@ == v@.subrange(p as int, p + 4),
            forall|k: int| 0 <= k < m ==> !#[trigger] eq_ignore_ascii_case_spec(v@.subrange(p as int, p + 4), month_cues()[k]),
        decreases 12 - m,
    {
        assert(cues@[m as int]@ == char_vecs(cues@)[m as int]);
        if eq_ignore_ascii_case(&window, &cues[m]) {
            assert(eq_ignore_ascii_case_spec(v@.subrange(p as int, p + 4), month_cues()[m as int]));
            return true;
        }
        m += 1;
    }
    false
}

fn count_digits_from(v: &Vec<char>, from: usize) -> (r: usize)
    requires
        from <= v.len(),
    ensures
        r as nat == digit_count(v@.skip(from as int)),
{
    let mut c: usize = 0;
    let mut i: usize = from;
    assert(v@.skip(from as int).take(0) =~= Seq::<char>::empty());
    while i < v.len()
        invariant
            from <= i <= v@.len(),
            c <= i - from,
            c as nat == digit_count(v@.skip(from as int).take(i - from)),
        decreases v@.len() - i,
    {
        let ghost t = v@.skip(from as int);
        assert(t.take(i - from + 1).drop_last() =~= t.take(i - from));
        assert(t.take(i - from + 1).last() == v@[i as int]);
        if '0' <= v[i] && v[i] <= '9' {
            c += 1;
        }
        i += 1;
    }
    assert(v@.skip(from as int).take(v@.len() - from) =~= v@.skip(from as int));
    c
}

/// Find a `<Mon YYYY> <sep> <Mon YYYY|Present>` tail: return everything before the
/// first month cue and the tail from it, when the tail holds at least four digits.
/// Positions are char positions of the line as given.
pub fn split_on_date_range(line: &str) -> (r: Option<(String, String)>)
    ensures
        match r {
            Some(p) => split_on_date_range_spec(line@) == Some((p.0@, p.1@)),
            None => split_on_date_range_spec(line@) is None,
        },
{
    let v = chars_of(line);
    let cues = month_cue_table();
    let mut p: usize = 0;
    while p < v.len()
        invariant
            p <= v@.len(),
            v@ == line@,
            char_vecs(cues@) == month_cues(),
            first_month(v@, 0) == first_month(v@, p as nat),
        decreases v@.len() - p,
    {
        if month_starts_at(&v, p, &cues) {
            let n = count_digits_from(&v, p);
            if n >= 4 {
                let head = string_of_range(&v, 0, p);
                let tail = string_of_range(&v, p, v.len());
                assert(v@.subrange(0, p as int) =~= v@.take(p as int));
                assert(v@.subrange(p as int, v@.len() as int) =~= v@.skip(p as int));
                return Some((head, tail));
            }
            return None;
        }
        p += 1;
    }
    None
}

/// The first position of `c` in `s`, from `from` on.
pub open spec fn find_char(s: Seq<char>, c: char, from: nat) -> Option<nat>
    decreases s.len() - from,
{
    if from >= s.len() {
        None
    } else if s[from as int] == c {
        Some(from)
    } else {
        find_char(s, c, from + 1)
    }
}

/// `s` with en and em dashes replaced by `-`.
pub open spec fn dashify(s: Seq<char>) -> Seq<char> {
    s.map_values(|c: char| if c == '\u{2013}' || c == '\u{2014}' { '-' } else { c })
}

/// The start and (unless "present") end of a date range `<start> - <end>`.
pub open spec fn parse_date_range_spec(range: Seq<char>) -> Option<(Seq<char>, Option<Seq<char>>)> {
    let norm = dashify(range);
    let (first, rest) = match find_char(norm, '-', 0) {
        Some(q) => (norm.take(q as int), Some(norm.skip(q as int + 1))),
        None => (norm, None),
    };
    let start = trim(first);
    if start.len() == 0 {
        None
    } else {
        let end = match rest {
            Some(r) => if trim(r).len() > 0 && !eq_ignore_ascii_case_spec(trim(r), "present"@) {
                Some(trim(r))
            } else {
                None
            },
            None => None,
        };
        Some((start, end))
    }
}

fn find_char_from(v: &Vec<char>, c: char, from: usize) -> (r: Option<usize>)
    requires
        from <= v.len(),
    ensures
        match r {
            Some(q) => find_char(v@, c, from as nat) == Some(q as nat) && q < v.len(),
            None => find_char(v@, c, from as nat) is None,
        },
{
    let mut i = from;
    while i < v.len()
        invariant
            from <= i <= v@.len(),
            find_char(v@, c, from as nat) == find_char(v@, c, i as nat),
        decreases v@.len() - i,
    {
        if v[i] == c {
            return Some(i);
        }
        i += 1;
    }
    None
}

/// Split a date range at its first dash (en and em dashes count), trimming both
/// sides; an empty start is rejected and an end of "present" is open (`None`).
pub fn parse_date_range(range: &str) -> (r: Option<(String, Option<String>)>)
    ensures
        match r {
            Some(p) => parse_date_range_spec(range@) == Some((p.0@, ostr(p.1))),
            None => parse_date_range_spec(range@) is None,
        },
{
    let v = chars_of(range);
    let mut norm: Vec<char> = Vec::new();
    let mut i: usize = 0;
    while i < v.len()
        invariant
            i <= v@.len(),
            norm@ == dashify(v@).take(i as int),
        decreases v@.len() - i,
    {
        let c = v[i];
        norm.push(if c == '\u{2013}' || c == '\u{2014}' { '-' } else { c });
        assert(dashify(v@).take(i + 1) =~= dashify(v@).take(i as int).push(dashify(v@)[i as int]));
        i += 1;
    }
    assert(dashify(v@).take(v@.len() as int) =~= dashify(v@));
    let dash = find_char_from(&norm, '-', 0);
    let first = match dash {
        Some(q) => slice_vec(&norm, 0, q),
        None => slice_vec(&norm, 0, norm.len()),
    };
    assert(norm@.subrange(0, norm@.len() as int) =~= norm@);
    let start = trimmed(&first);
    if start.len() == 0 {
        return None;
    }
    let end = match dash {
        Some(q) => {
            let rest = slice_vec(&norm, q + 1, norm.len());
            let t = trimmed(&rest);
            let present = chars_of("present");
            if t.len() > 0 && !eq_ignore_ascii_case(&t, &present) {
                Some(string_of(&t))
            } else {
                None
            }
        },
        None => None,
    };
    Some((string_of(&start), end))
}

/// The title and dates of a job line.
pub open spec fn parse_job_line_spec(line: Seq<char>) -> Option<(Seq<char>, Seq<char>, Option<Seq<char>>)> {
    match split_on_date_range_spec(line) {
        Some((head, range)) => if trim(head).len() == 0 {
            None
        } else {
            match parse_date_range_spec(range) {
                Some((start, end)) => Some((trim(head), start, end)),
                None => None,
            }
        },
        None => None,
    }
}

/// A job line `<title> … <Mon YYYY> – <Mon YYYY|Present>`: the title before the date
/// tail (non-empty), the start date and the end date (`None` for "Present").
pub fn parse_job_line(line: &str) -> (r: Option<(String, String, Option<String>)>)
    ensures
        match r {
            Some(t) => parse_job_line_spec(line@) == Some((t.0@, t.1@, ostr(t.2))),
            None => parse_job_line_spec(line@) is None,
        },
{
    match split_on_date_range(line) {
        Some((head, range)) => {
            let title = trim_string(head.as_str());
            if title.as_str().is_empty() {
                assert(title@.len() == 0);
                return None;
            }
            match parse_date_range(range.as_str()) {
                Some((start, end)) => Some((title, start, end)),
                None => None,
            }
        },
        None => None,
    }
}

// ── business lines and bullets ───────────────────────────────────────────────────

/// A `<business> · <location>` line: split at the first `·`, both sides trimmed, an
/// empty location dropped; without `·` the whole trimmed line is the business.
pub open spec fn parse_business_line_spec(line: Seq<char>) -> (Seq<char>, Option<Seq<char>>) {
    match find_char(line, '\u{B7}', 0) {
        Some(q) => (
            trim(line.take(q as int)),
            if trim(line.skip(q as int + 1)).len() > 0 {
                Some(trim(line.skip(q as int + 1)))
            } else {
                None
            },
        ),
        None => (trim(line), None),
    }
}

/// Split a business line into business name and optional location.
pub fn parse_business_line(line: &str) -> (r: (String, Option<String>))
    ensures
        (r.0@, ostr(r.1)) == parse_business_line_spec(line@),
{
    let v = chars_of(line);
    match find_char_from(&v, '\u{B7}', 0) {
        Some(q) => {
            let biz = trimmed(&slice_vec(&v, 0, q));
            let loc = trimmed(&slice_vec(&v, q + 1, v.len()));
            assert(v@.subrange(0, q as int) =~= v@.take(q as int));
            assert(v@.subrange(q + 1, v@.len() as int) =~= v@.skip(q + 1));
            let l = if loc.len() > 0 { Some(string_of(&loc)) } else { None };
            (string_of(&biz), l)
        },
        None => (trim_string(line), None),
    }
}

/// A bullet marker: `▹ ‣ • · - *`.
pub open spec fn is_bullet_mark(c: char) -> bool {
    c == '\u{25B9}' || c == '\u{2023}' || c == '\u{2022}' || c == '\u{B7}' || c == '-' || c == '*'
}

/// `s` without its leading bullet markers and whitespace.
pub open spec fn strip_bullet_spec(s: Seq<char>) -> Seq<char>
    decreases s.len(),
{
    if s.len() > 0 && (is_bullet_mark(s[0]) || is_ws(s[0])) {
        strip_bullet_spec(s.drop_first())
    } else {
        s
    }
}

/// The bullets of a line that may glue several `▹`-prefixed bullets together.
pub open spec fn split_glued_bullets_spec(line: Seq<char>) -> Seq<Seq<char>> {
    trimmed_nonempty(split_spec(line, Sep::Triangle).map_values(|p: Seq<char>| strip_bullet_spec(p)))
}

fn strip_bullet(v: &Vec<char>) -> (r: Vec<char>)
    ensures
        r@ == strip_bullet_spec(v@),
{
    let mut i: usize = 0;
    assert(v@.skip(0) =~= v@);
    while i < v.len() && (v[i] == '\u{25B9}' || v[i] == '\u{2023}' || v[i] == '\u{2022}' || v[i] == '\u{B7}'
        || v[i] == '-' || v[i] == '*' || is_whitespace(v[i]))
        invariant
            i <= v@.len(),
            strip_bullet_spec(v@) == strip_bullet_spec(v@.skip(i as int)),
        decreases v@.len() - i,
    {
        assert(v@.skip(i as int).drop_first() =~= v@.skip(i + 1));
        i += 1;
    }
    let r = slice_vec(v, i, v.len());
    assert(v@.subrange(i as int, v@.len() as int) =~= v@.skip(i as int));
    r
}

/// Split a line into its `▹`-separated bullets, markers stripped, empties dropped.
pub fn split_glued_bullets(line: &str) -> (r: Vec<String>)
    ensures
        strs(r@) == split_glued_bullets_spec(line@),
{
    let v = chars_of(line);
    let pieces = split_chars(&v, Sep::Triangle);
    let ghost ps = split_spec(v@, Sep::Triangle);
    let mut stripped: Vec<Vec<char>> = Vec::new();
    let mut i: usize = 0;
    while i < pieces.len()
        invariant
            i <= pieces@.len(),
            char_vecs(pieces@) == ps,
            char_vecs(stripped@) == ps.map_values(|p: Seq<char>| strip_bullet_spec(p)).take(i as int),
        decreases pieces@.len() - i,
    {
        let ghost pre = char_vecs(stripped@);
        stripped.push(strip_bullet(&pieces[i]));
        assert(char_vecs(stripped@) =~= pre.push(strip_bullet_spec(pieces@[i as int]@)));
        assert(ps.map_values(|p: Seq<char>| strip_bullet_spec(p)).take(i + 1) =~= ps.map_values(
            |p: Seq<char>| strip_bullet_spec(p),
        ).take(i as int).push(strip_bullet_spec(ps[i as int])));
        i += 1;
    }
    assert(ps.map_values(|p: Seq<char>| strip_bullet_spec(p)).take(ps.len() as int) =~= ps.map_values(
        |p: Seq<char>| strip_bullet_spec(p),
    ));
    trimmed_pieces(&stripped)
}

// ── the segmenter ────────────────────────────────────────────────────────────────

/// The line is blank once trimmed.
pub open spec fn blank(line: Seq<char>) -> bool {
    trim(line).len() == 0
}

/// The first non-blank line from `j` on (`lines.len()` or beyond if none).
pub open spec fn next_nonblank(lines: Seq<Seq<char>>, j: nat) -> nat
    decreases lines.len() - j,
{
    if j >= lines.len() {
        j
    } else if blank(lines[j as int]) {
        next_nonblank(lines, j + 1)
    } else {
        j
    }
}

pub proof fn lemma_next_nonblank(lines: Seq<Seq<char>>, j: nat)
    ensures
        next_nonblank(lines, j) >= j,
        next_nonblank(lines, j) < lines.len() ==> !blank(lines[next_nonblank(lines, j) as int]),
        j <= lines.len() ==> next_nonblank(lines, j) <= lines.len(),
    decreases lines.len() - j,
{
    if j < lines.len() && blank(lines[j as int]) {
        lemma_next_nonblank(lines, j + 1);
    }
}

/// The segmenter's state while scanning the body.
pub struct SegState {
    pub seg: SegmentsModel,
    pub in_exp: bool,
    pub current: Option<BlockModel>,
}

/// The open block, if any, appended to the segments.
pub open spec fn flush(st: SegState) -> SegState {
    match st.current {
        Some(b) => SegState { seg: SegmentsModel { experience: st.seg.experience.push(b), ..st.seg }, current: None, ..st },
        None => st,
    }
}

/// The bullets `bs` added to the open block, if any.
pub open spec fn add_bullets(st: SegState, bs: Seq<Seq<char>>) -> SegState {
    match st.current {
        Some(b) => SegState { current: Some(BlockModel { bullets: b.bullets + bs, ..b }), ..st },
        None => st,
    }
}

/// A new block for a job line, with its business line when one follows.
pub open spec fn new_block(job: (Seq<char>, Seq<char>, Option<Seq<char>>), biz: Option<(Seq<char>, Option<Seq<char>>)>) -> BlockModel {
    BlockModel {
        job_title: job.0,
        business_name: match biz {
            Some(b) => b.0,
            None => Seq::empty(),
        },
        start_date: job.1,
        end_date: job.2,
        location: match biz {
            Some(b) => b.1,
            None => None,
        },
        bullets: Seq::empty(),
    }
}

/// The body scan from line `i` in state `st`.
pub open spec fn scan(lines: Seq<Seq<char>>, i: nat, st: SegState) -> SegState
    decreases lines.len() - i,
{
    if i >= lines.len() {
        st
    } else {
        let line = trim(lines[i as int]);
        if line.len() == 0 {
            scan(lines, i + 1, st)
        } else if skill_bucket_spec(line) is Some {
            let j = next_nonblank(lines, i + 1);
            proof {
                lemma_next_nonblank(lines, i + 1);
            }
            if j < lines.len() {
                let sk = split_skills_spec(trim(lines[j as int]));
                let st2 = if sk.len() > 0 {
                    SegState {
                        seg: SegmentsModel { skills: st.seg.skills.push((skill_bucket_spec(line)->0, sk)), ..st.seg },
                        ..st
                    }
                } else {
                    st
                };
                scan(lines, j + 1, st2)
            } else {
                scan(lines, i + 1, st)
            }
        } else if is_experience_header_spec(line) {
            scan(lines, i + 1, SegState { in_exp: true, ..st })
        } else if st.in_exp {
            match parse_job_line_spec(line) {
                Some(job) => {
                    let st2 = flush(st);
                    let j = next_nonblank(lines, i + 1);
                    proof {
                        lemma_next_nonblank(lines, i + 1);
                    }
                    if j < lines.len() && parse_job_line_spec(trim(lines[j as int])) is None {
                        let biz = parse_business_line_spec(trim(lines[j as int]));
                        scan(lines, j + 1, SegState { current: Some(new_block(job, Some(biz))), ..st2 })
                    } else {
                        scan(lines, i + 1, SegState { current: Some(new_block(job, None)), ..st2 })
                    }
                },
                None => scan(lines, i + 1, add_bullets(st, split_glued_bullets_spec(line))),
            }
        } else {
            scan(lines, i + 1, st)
        }
    }
}

/// The header: the first non-blank line as the name and, unless it is a section
/// label, the next non-blank line as the title; with the index the body starts at.
pub open spec fn header_spec(lines: Seq<Seq<char>>) -> (Option<Seq<char>>, Option<Seq<char>>, nat) {
    let i0 = next_nonblank(lines, 0);
    if i0 >= lines.len() {
        (None, None, i0)
    } else {
        let i1 = next_nonblank(lines, i0 + 1);
        if i1 < lines.len() && skill_bucket_spec(lines[i1 as int]) is None && !is_experience_header_spec(lines[i1 as int]) {
            (Some(trim(lines[i0 as int])), Some(trim(lines[i1 as int])), i1 + 1)
        } else {
            (Some(trim(lines[i0 as int])), None, i1)
        }
    }
}

/// The body scan never changes the name found in the header.
pub proof fn lemma_scan_keeps_name(lines: Seq<Seq<char>>, i: nat, st: SegState)
    ensures
        scan(lines, i, st).seg.name == st.seg.name,
    decreases lines.len() - i,
{
    if i < lines.len() {
        let line = trim(lines[i as int]);
        if line.len() == 0 {
            lemma_scan_keeps_name(lines, i + 1, st);
        } else if skill_bucket_spec(line) is Some {
            let j = next_nonblank(lines, i + 1);
            lemma_next_nonblank(lines, i + 1);
            if j < lines.len() {
                let sk = split_skills_spec(trim(lines[j as int]));
                let st2 = if sk.len() > 0 {
                    SegState {
                        seg: SegmentsModel { skills: st.seg.skills.push((skill_bucket_spec(line)->0, sk)), ..st.seg },
                        ..st
                    }
                } else {
                    st
                };
                lemma_scan_keeps_name(lines, j + 1, st2);
            } else {
                lemma_scan_keeps_name(lines, i + 1, st);
            }
        } else if is_experience_header_spec(line) {
            lemma_scan_keeps_name(lines, i + 1, SegState { in_exp: true, ..st });
        } else if st.in_exp {
            match parse_job_line_spec(line) {
                Some(job) => {
                    let st2 = flush(st);
                    let j = next_nonblank(lines, i + 1);
                    lemma_next_nonblank(lines, i + 1);
                    if j < lines.len() && parse_job_line_spec(trim(lines[j as int])) is None {
                        let biz = parse_business_line_spec(trim(lines[j as int]));
                        lemma_scan_keeps_name(lines, j + 1, SegState { current: Some(new_block(job, Some(biz))), ..st2 });
                    } else {
                        lemma_scan_keeps_name(lines, i + 1, SegState { current: Some(new_block(job, None)), ..st2 });
                    }
                },
                None => {
                    lemma_scan_keeps_name(lines, i + 1, add_bullets(st, split_glued_bullets_spec(line)));
                },
            }
        } else {
            lemma_scan_keeps_name(lines, i + 1, st);
        }
    }
}

/// The segments of a document.
pub open spec fn segment_spec(lines: Seq<Seq<char>>) -> SegmentsModel {
    let h = header_spec(lines);
    let init = SegState {
        seg: SegmentsModel { name: h.0, title: h.1, skills: Seq::empty(), experience: Seq::empty() },
        in_exp: false,
        current: None,
    };
    flush(scan(lines, h.2, init)).seg
}

pub open spec fn state_of(seg: Segments, in_exp: bool, current: Option<ExperienceBlock>) -> SegState {
    SegState {
        seg: seg@,
        in_exp,
        current: match current {
            Some(b) => Some(b@),
            None => None,
        },
    }
}

fn skip_blank(lines: &Vec<String>, from: usize) -> (r: usize)
    requires
        from <= lines.len(),
    ensures
        r as nat == next_nonblank(strs(lines@), from as nat),
        from <= r <= lines.len(),
{
    let ghost ls = strs(lines@);
    let mut j = from;
    while j < lines.len() && trim_str(lines[j].as_str()).len() == 0
        invariant
            from <= j <= lines@.len(),
            ls == strs(lines@),
            next_nonblank(ls, from as nat) == next_nonblank(ls, j as nat),
        decreases lines@.len() - j,
    {
        assert(ls[j as int] == lines@[j as int]@);
        j += 1;
    }
    proof {
        if j < lines.len() {
            assert(ls[j as int] == lines@[j as int]@);
        }
    }
    j
}

/// The deterministic segmenter: one pass over the lines, in order.
pub fn segment(text: &ExtractedText) -> (r: Segments)
    ensures
        r@ == segment_spec(strs(text.lines@)),
{
    let lines = &text.lines;
    let ghost ls = strs(lines@);
    let mut seg = Segments { name: None, title: None, skills: Vec::new(), experience: Vec::new() };
    assert(skill_lists_model(seg.skills@) =~= Seq::<(SkillBucket, Seq<Seq<char>>)>::empty());
    assert(blocks_model(seg.experience@) =~= Seq::<BlockModel>::empty());
    let ghost h = header_spec(ls);

    let mut idx = skip_blank(lines, 0);
    if idx < lines.len() {
        seg.name = Some(trim_string(lines[idx].as_str()));
        assert(ls[idx as int] == lines@[idx as int]@);
        idx = skip_blank(lines, idx + 1);
        if idx < lines.len() && skill_bucket_for(lines[idx].as_str()).is_none() && !is_experience_header(
            lines[idx].as_str(),
        ) {
            assert(ls[idx as int] == lines@[idx as int]@);
            seg.title = Some(trim_string(lines[idx].as_str()));
            idx += 1;
        } else {
            proof {
                if idx < lines.len() {
                    assert(ls[idx as int] == lines@[idx as int]@);
                }
            }
        }
    }
    assert(seg@.name == h.0 && seg@.title == h.1 && idx as nat == h.2);

    let mut in_experience = false;
    let mut current: Option<ExperienceBlock> = None;
    let mut i = idx;
    while i < lines.len()
        invariant
            i <= lines@.len(),
            ls == strs(lines@),
            segment_spec(ls) == flush(scan(ls, i as nat, state_of(seg, in_experience, current))).seg,
        decreases lines@.len() - i,
    {
        let ghost st = state_of(seg, in_experience, current);
        let ghost i0 = i;
        let line = trim_string(lines[i].as_str());
        assert(ls[i as int] == lines@[i as int]@);
        if line.as_str().is_empty() {
            assert(line@.len() == 0);
            i += 1;
            continue;
        }
        match skill_bucket_for(line.as_str()) {
            Some(bucket) => {
                let j = skip_blank(lines, i + 1);
                if j < lines.len() {
                    assert(ls[j as int] == lines@[j as int]@);
                    let tl = trim_string(lines[j].as_str());
                    let skills = split_skills(tl.as_str());
                    if skills.len() > 0 {
                        let ghost pre = skill_lists_model(seg.skills@);
                        seg.skills.push((bucket, skills));
                        assert(skill_lists_model(seg.skills@) =~= pre.push((bucket, split_skills_spec(trim(ls[j as int])))));
                    }
                    i = j + 1;
                    assert(scan(ls, i0 as nat, st) == scan(ls, i as nat, state_of(seg, in_experience, current)));
                    continue;
                }
                i += 1;
                assert(scan(ls, i0 as nat, st) == scan(ls, i as nat, state_of(seg, in_experience, current)));
                continue;
            },
            None => {},
        }
        if is_experience_header(line.as_str()) {
            in_experience = true;
            i += 1;
            assert(scan(ls, i0 as nat, st) == scan(ls, i as nat, state_of(seg, in_experience, current)));
            continue;
        }
        if in_experience {
            match parse_job_line(line.as_str()) {
                Some((title, start, end)) => {
                    let ghost job = (title@, start@, ostr(end));
                    let ghost st2 = flush(st);
                    match current {
                        Some(b) => {
                            let ghost pre = blocks_model(seg.experience@);
                            seg.experience.push(b);
                            assert(blocks_model(seg.experience@) =~= pre.push(b@));
                        },
                        None => {},
                    }
                    current = None;
                    assert(state_of(seg, in_experience, current) == st2);
                    let mut block = ExperienceBlock {
                        job_title: title,
                        business_name: String::new(),
                        start_date: start,
                        end_date: end,
                        location: None,
                        bullets: Vec::new(),
                    };
                    let j = skip_blank(lines, i + 1);
                    let next_is_job = if j < lines.len() {
                        assert(ls[j as int] == lines@[j as int]@);
                        let tj = trim_string(lines[j].as_str());
                        parse_job_line(tj.as_str()).is_some()
                    } else {
                        true
                    };
                    if j < lines.len() && !next_is_job {
                        let tj = trim_string(lines[j].as_str());
                        let (biz, loc) = parse_business_line(tj.as_str());
                        block.business_name = biz;
                        block.location = loc;
                        assert(block@.bullets =~= Seq::<Seq<char>>::empty());
                        assert(block@ == new_block(job, Some(parse_business_line_spec(trim(ls[j as int])))));
                        i = j + 1;
                    } else {
                        assert(block@.bullets =~= Seq::<Seq<char>>::empty());
                        assert(block@.business_name =~= Seq::<char>::empty());
                        assert(block@ == new_block(job, None));
                        i += 1;
                    }
                    current = Some(block);
                    assert(scan(ls, i0 as nat, st) == scan(ls, i as nat, state_of(seg, in_experience, current)));
                    continue;
                },
                None => {},
            }
            let bs = split_glued_bullets(line.as_str());
            match current {
                Some(mut block) => {
                    let ghost old_b = block@;
                    let ghost pre = strs(block.bullets@);
                    let mut k: usize = 0;
                    while k < bs.len()
                        invariant
                            k <= bs@.len(),
                            strs(block.bullets@) == pre + strs(bs@).take(k as int),
                            block@ == (BlockModel { bullets: block@.bullets, ..old_b }),
                        decreases bs@.len() - k,
                    {
                        let ghost p2 = strs(block.bullets@);
                        block.bullets.push(bs[k].clone());
                        assert(strs(block.bullets@) =~= p2.push(bs@[k as int]@));
                        assert(strs(bs@).take(k + 1) =~= strs(bs@).take(k as int).push(bs@[k as int]@));
                        k += 1;
                    }
                    assert(strs(bs@).take(bs@.len() as int) =~= strs(bs@));
                    assert(block@ == BlockModel { bullets: old_b.bullets + strs(bs@), ..old_b });
                    current = Some(block);
                },
                None => {
                    current = None;
                },
            }
        }
        i += 1;
        assert(scan(ls, i0 as nat, st) == scan(ls, i as nat, state_of(seg, in_experience, current)));
    }
    match current {
        Some(b) => {
            let ghost pre = blocks_model(seg.experience@);
            seg.experience.push(b);
            assert(blocks_model(seg.experience@) =~= pre.push(b@));
        },
        None => {},
    }
    seg
}

} // verus!
