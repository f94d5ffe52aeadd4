//! The ATS-readability report, over template properties and the tailored content
//! (never over rendered bytes). Five checks, always in the same order: column
//! reliance (warns for a multi-column template), overly long (warns past 30
//! description-bearing achievements), non-standard headings (warns on a heading outside
//! the standard list), missing extractable text (warns when no visible experience has
//! a description-bearing achievement), unusual font (the bundled stack always passes).

use crate::render::{heading_vocabulary_spec, CvTemplate};
use crate::tailor::{join_spec, TailoredView};
use crate::text::{decimal, decimal_chars_u128, push_all, str_eq, strs, trim, trim_str};
use crate::types::{AchievementModel, ExperienceModel, MasterCvModel};
use vstd::prelude::*;

verus! {

/// More description-bearing achievements than this make the document overly long.
pub const OVERLY_LONG_ACHIEVEMENTS: usize = 30;

/// The font family every template renders with.
pub const BUNDLED_FONT_FAMILY: &'static str = "Liberation Sans";

/// The standard section headings.
pub open spec fn standard_headings_spec() -> Seq<Seq<char>> {
    seq![
        "Summary"@, "Professional Summary"@, "Experience"@, "Work Experience"@, "Skills"@, "Languages"@,
        "Tools & Technologies"@, "Platforms & Services"@, "Education"@, "Projects"@, "Certifications"@,
    ]
}

/// The standard section headings.
pub fn standard_headings() -> (r: Vec<&'static str>)
    ensures
        r@.map_values(|h: &str| h@) == standard_headings_spec(),
{
    let v: Vec<&'static str> = vec![
        "Summary",
        "Professional Summary",
        "Experience",
        "Work Experience",
        "Skills",
        "Languages",
        "Tools & Technologies",
        "Platforms & Services",
        "Education",
        "Projects",
        "Certifications",
    ];
    assert(v@.map_values(|h: &str| h@) =~= standard_headings_spec());
    v
}

/// A stable identifier for each check.
#[derive(Debug, Clone, Copy, PartialEq, Eq, Structural)]
pub enum AtsCheckId {
    ColumnReliance,
    OverlyLong,
    NonStandardHeadings,
    MissingExtractableText,
    UnusualFont,
}

/// The status of a check.
#[derive(Debug, Clone, Copy, PartialEq, Eq, Structural)]
pub enum AtsStatus {
    Pass,
    Warn,
}

/// One check: id, status, message.
#[derive(Debug, Clone, PartialEq)]
pub struct AtsCheck {
    pub id: AtsCheckId,
    pub status: AtsStatus,
    pub message: String,
}

/// The report: the checks, in order.
#[derive(Debug, Clone, PartialEq)]
pub struct AtsReport {
    pub checks: Vec<AtsCheck>,
}

pub open spec fn check_model(c: AtsCheck) -> (AtsCheckId, AtsStatus, Seq<char>) {
    (c.id, c.status, c.message@)
}

pub open spec fn checks_model(v: Seq<AtsCheck>) -> Seq<(AtsCheckId, AtsStatus, Seq<char>)> {
    v.map_values(|c: AtsCheck| check_model(c))
}

/// The index of the first check with this id, from `from` on.
pub open spec fn find_check(cs: Seq<AtsCheck>, id: AtsCheckId, from: nat) -> Option<nat>
    decreases cs.len() - from,
{
    if from >= cs.len() {
        None
    } else if cs[from as int].id == id {
        Some(from)
    } else {
        find_check(cs, id, from + 1)
    }
}

impl AtsReport {
    /// The first check with this id.
    pub fn check(&self, id: AtsCheckId) -> (r: Option<&AtsCheck>)
        ensures
            match r {
                Some(c) => find_check(self.checks@, id, 0) matches Some(i) && *c == self.checks@[i as int],
                None => find_check(self.checks@, id, 0) is None,
            },
    {
        let mut i: usize = 0;
        while i < self.checks.len()
            invariant
                i <= self.checks@.len(),
                find_check(self.checks@, id, 0) == find_check(self.checks@, id, i as nat),
            decreases self.checks@.len() - i,
        {
            if self.checks[i].id == id {
                return Some(&self.checks[i]);
            }
            i += 1;
        }
        None
    }
}

// ── counts ───────────────────────────────────────────────────────────────────────

/// The achievements of `xs` with a description that is non-blank once trimmed.
pub open spec fn bearing_in(xs: Seq<AchievementModel>) -> nat
    decreases xs.len(),
{
    if xs.len() == 0 {
        0
    } else {
        bearing_in(xs.drop_last()) + if trim(xs.last().description).len() > 0 {
            1nat
        } else {
            0nat
        }
    }
}

/// The description-bearing achievements across the visible experiences of `es`.
pub open spec fn description_bearing(es: Seq<ExperienceModel>) -> nat
    decreases es.len(),
{
    if es.len() == 0 {
        0
    } else {
        description_bearing(es.drop_last()) + if es.last().hide == Some(true) {
            0nat
        } else {
            bearing_in(es.last().achievements_tasks)
        }
    }
}

proof fn lemma_bearing_in_bound(xs: Seq<AchievementModel>)
    ensures
        bearing_in(xs) <= xs.len(),
    decreases xs.len(),
{
    if xs.len() > 0 {
        lemma_bearing_in_bound(xs.drop_last());
    }
}

/// The number of description-bearing achievements of the visible experiences.
pub fn description_bearing_count(view: &TailoredView) -> (r: u128)
    ensures
        r as nat == description_bearing(view.cv@.experience),
{
    let ghost es = view.cv@.experience;
    let mut total: u128 = 0;
    let mut i: usize = 0;
    assert(es.take(0) =~= Seq::<ExperienceModel>::empty());
    while i < view.cv.experience.len()
        invariant
            i <= view.cv.experience@.len(),
            es == view.cv@.experience,
            es.len() == view.cv.experience@.len(),
            total as nat == description_bearing(es.take(i as int)),
            total <= i * 0x1_0000_0000_0000_0000,
        decreases view.cv.experience@.len() - i,
    {
        let e = &view.cv.experience[i];
        proof {
            assert(es[i as int] == e@);
            assert(es.take(i + 1).drop_last() =~= es.take(i as int));
        }
        let hidden = match e.hide {
            Some(h) => h,
            None => false,
        };
        if !hidden {
            let ghost xs = e@.achievements_tasks;
            let mut c: u128 = 0;
            let mut j: usize = 0;
            assert(xs.take(0) =~= Seq::<AchievementModel>::empty());
            while j < e.achievements_tasks.len()
                invariant
                    j <= e.achievements_tasks@.len(),
                    xs == e@.achievements_tasks,
                    xs.len() == e.achievements_tasks@.len(),
                    c as nat == bearing_in(xs.take(j as int)),
                    c <= j,
                decreases e.achievements_tasks@.len() - j,
            {
                assert(xs.take(j + 1).drop_last() =~= xs.take(j as int));
                assert(xs.take(j + 1).last() == e.achievements_tasks@[j as int]@);
                let t = trim_str(e.achievements_tasks[j].description.as_str());
                if t.len() > 0 {
                    c = c + 1;
                }
                j += 1;
            }
            assert(xs.take(xs.len() as int) =~= xs);
            total = total + c;
        }
        i += 1;
    }
    assert(es.take(es.len() as int) =~= es);
    total
}

// ── checks ───────────────────────────────────────────────────────────────────────

/// The members of `vocab` outside the standard headings, in order.
pub open spec fn offending_headings(vocab: Seq<Seq<char>>) -> Seq<Seq<char>>
    decreases vocab.len(),
{
    if vocab.len() == 0 {
        Seq::empty()
    } else {
        offending_headings(vocab.drop_last()) + if standard_headings_spec().contains(vocab.last()) {
            Seq::empty()
        } else {
            seq![vocab.last()]
        }
    }
}

/// The non-standard-headings check of a heading vocabulary.
pub open spec fn headings_check_spec(vocab: Seq<Seq<char>>) -> (AtsCheckId, AtsStatus, Seq<char>) {
    let off = offending_headings(vocab);
    if off.len() == 0 {
        (AtsCheckId::NonStandardHeadings, AtsStatus::Pass, "All section headings are standard and ATS-recognised."@)
    } else {
        (
            AtsCheckId::NonStandardHeadings,
            AtsStatus::Warn,
            "Non-standard section headings: "@ + join_spec(off, ", "@) + "."@,
        )
    }
}

fn is_standard(h: &str, std: &Vec<&'static str>) -> (r: bool)
    requires
        std@.map_values(|x: &str| x@) == standard_headings_spec(),
    ensures
        r == standard_headings_spec().contains(h@),
{
    let ghost sv = std@.map_values(|x: &str| x@);
    let mut i: usize = 0;
    while i < std.len()
        invariant
            i <= std@.len(),
            sv == std@.map_values(|x: &str| x@),
            sv == standard_headings_spec(),
            forall|k: int| 0 <= k < i ==> sv[k] != h@,
        decreases std@.len() - i,
    {
        if str_eq(h, std[i]) {
            assert(sv[i as int] == h@);
            return true;
        }
        i += 1;
    }
    assert(!sv.contains(h@)) by {
        if sv.contains(h@) {
            let k = choose|k: int| 0 <= k < sv.len() && sv[k] == h@;
        }
    }
    false
}

/// The non-standard-headings check: warns naming every heading outside the standard
/// list, passes otherwise.
pub fn non_standard_headings_check(vocab: &[&str]) -> (r: AtsCheck)
    ensures
        check_model(r) == headings_check_spec(vocab@.map_values(|h: &str| h@)),
{
    let std = standard_headings();
    let ghost vv = vocab@.map_values(|h: &str| h@);
    let mut offenders: Vec<String> = Vec::new();
    let mut i: usize = 0;
    assert(vv.take(0) =~= Seq::<Seq<char>>::empty());
    while i < vocab.len()
        invariant
            i <= vocab@.len(),
            vv == vocab@.map_values(|h: &str| h@),
            std@.map_values(|x: &str| x@) == standard_headings_spec(),
            strs(offenders@) == offending_headings(vv.take(i as int)),
        decreases vocab@.len() - i,
    {
        assert(vv.take(i + 1).drop_last() =~= vv.take(i as int));
        assert(vv.take(i + 1).last() == vocab@[i as int]@);
        let ghost pre = strs(offenders@);
        if !is_standard(vocab[i], &std) {
            offenders.push(String::from_str(vocab[i]));
            assert(strs(offenders@) =~= pre + seq![vocab@[i as int]@]);
        } else {
            assert(pre + Seq::<Seq<char>>::empty() =~= pre);
        }
        i += 1;
    }
    assert(vv.take(vv.len() as int) =~= vv);
    if offenders.len() == 0 {
        AtsCheck {
            id: AtsCheckId::NonStandardHeadings,
            status: AtsStatus::Pass,
            message: String::from_str("All section headings are standard and ATS-recognised."),
        }
    } else {
        let mut msg = String::from_str("Non-standard section headings: ");
        let joined = crate::tailor::join_strings(&offenders, ", ");
        msg.append(joined.as_str());
        msg.append(".");
        AtsCheck { id: AtsCheckId::NonStandardHeadings, status: AtsStatus::Warn, message: msg }
    }
}

/// The five checks for a template and a tailored CV.
pub open spec fn ats_report_spec(template: CvTemplate, cv: MasterCvModel) -> Seq<(AtsCheckId, AtsStatus, Seq<char>)> {
    let multi = template.spec_is_multi_column();
    let n = description_bearing(cv.experience);
    let long = n > OVERLY_LONG_ACHIEVEMENTS;
    let empty = n == 0;
    seq![
        (
            AtsCheckId::ColumnReliance,
            if multi { AtsStatus::Warn } else { AtsStatus::Pass },
            if multi {
                "Multi-column layout can scramble ATS text extraction; a single-column template (Compact) is safer."@
            } else {
                "Single-column layout — ATS-friendly text flow."@
            },
        ),
        (
            AtsCheckId::OverlyLong,
            if long { AtsStatus::Warn } else { AtsStatus::Pass },
            if long {
                decimal(n) + " achievements exceeds the 30-bullet (~2-page) guideline; trim to keep the CV scannable."@
            } else {
                decimal(n) + " achievements — within the 30-bullet guideline."@
            },
        ),
        headings_check_spec(heading_vocabulary_spec()),
        (
            AtsCheckId::MissingExtractableText,
            if empty { AtsStatus::Warn } else { AtsStatus::Pass },
            if empty {
                "No description-bearing achievements — the document may have no extractable text for an ATS to read."@
            } else {
                "Document carries extractable achievement text."@
            },
        ),
        (
            AtsCheckId::UnusualFont,
            AtsStatus::Pass,
            "Uses the bundled Liberation Sans stack — a standard, ATS-safe font."@,
        ),
    ]
}

/// The ATS-readability report: read-only over the view, deterministic, five checks in
/// a fixed order.
pub fn ats_report(template: CvTemplate, view: &TailoredView) -> (r: AtsReport)
    ensures
        checks_model(r.checks@) == ats_report_spec(template, view.cv@),
{
    let mut checks: Vec<AtsCheck> = Vec::new();
    let multi = template.is_multi_column();
    checks.push(AtsCheck {
        id: AtsCheckId::ColumnReliance,
        status: if multi { AtsStatus::Warn } else { AtsStatus::Pass },
        message: if multi {
            String::from_str(
                "Multi-column layout can scramble ATS text extraction; a single-column template (Compact) is safer.",
            )
        } else {
            String::from_str("Single-column layout — ATS-friendly text flow.")
        },
    });
    let n = description_bearing_count(view);
    let long = n > 30;
    let digits = decimal_chars_u128(n);
    let mut msg = String::new();
    push_all(&mut msg, &digits);
    assert(msg@ =~= decimal(n as nat));
    if long {
        msg.append(" achievements exceeds the 30-bullet (~2-page) guideline; trim to keep the CV scannable.");
    } else {
        msg.append(" achievements — within the 30-bullet guideline.");
    }
    checks.push(AtsCheck { id: AtsCheckId::OverlyLong, status: if long { AtsStatus::Warn } else { AtsStatus::Pass }, message: msg });
    let vocab = template.heading_vocabulary();
    checks.push(non_standard_headings_check(vocab.as_slice()));
    let empty = n == 0;
    checks.push(AtsCheck {
        id: AtsCheckId::MissingExtractableText,
        status: if empty { AtsStatus::Warn } else { AtsStatus::Pass },
        message: if empty {
            String::from_str(
                "No description-bearing achievements — the document may have no extractable text for an ATS to read.",
            )
        } else {
            String::from_str("Document carries extractable achievement text.")
        },
    });
    checks.push(AtsCheck {
        id: AtsCheckId::UnusualFont,
        status: AtsStatus::Pass,
        message: String::from_str("Uses the bundled Liberation Sans stack — a standard, ATS-safe font."),
    });
    assert(checks_model(checks@) =~= ats_report_spec(template, view.cv@));
    AtsReport { checks }
}

/// The column-reliance check warns exactly for a multi-column template, whatever the
/// content.
pub proof fn law_column_reliance_follows_template(template: CvTemplate, cv: MasterCvModel)
    ensures
        ats_report_spec(template, cv)[0].0 == AtsCheckId::ColumnReliance,
        (ats_report_spec(template, cv)[0].1 == AtsStatus::Warn) <==> template.spec_is_multi_column(),
{
}

} // verus!
