//! The sample honesty guard.
//!
//! When an important field cannot be recovered from the user's CV and the user fills
//! the gap with a sample value, a sample CV must not reach an employer unedited. Three
//! independent barriers enforce that: export is blocked unless samples are explicitly
//! allowed; sample output gets `.SAMPLE.` file names; the rendered document carries a
//! visible watermark. The decision and the sample fill live here as total functions.

use crate::text::strs;
use crate::types::{
    achievements_model, experiences_model, skills_model, Achievement, AchievementModel, Experience, ExperienceModel,
    MasterCv, MasterCvModel, Person, PersonModel, Skill, SkillModel,
};
use vstd::prelude::*;

verus! {

/// The watermark rendered on every sample document.
pub const SAMPLE_WATERMARK: &'static str = "[SAMPLE — REPLACE BEFORE SENDING]";

/// The message printed when export is blocked.
pub const BLOCKED_MESSAGE: &'static str = "output contains SAMPLE data; fix it or pass --allow-samples";

/// The important field classes; each flag is true when that class is empty.
#[derive(Debug, Clone, Copy, PartialEq, Eq, Structural)]
pub struct MissingFields {
    pub person_name: bool,
    pub experience: bool,
    pub achievement: bool,
    pub skill: bool,
}

impl MissingFields {
    /// The four flags.
    pub fn new(person_name: bool, experience: bool, achievement: bool, skill: bool) -> (r: MissingFields)
        ensures
            r == (MissingFields { person_name, experience, achievement, skill }),
    {
        MissingFields { person_name, experience, achievement, skill }
    }

    pub open spec fn spec_any(self) -> bool {
        self.person_name || self.experience || self.achievement || self.skill
    }

    /// At least one important class is empty.
    pub fn any(self) -> (r: bool)
        ensures
            r == self.spec_any(),
    {
        self.person_name || self.experience || self.achievement || self.skill
    }
}

/// What to do with an export.
#[derive(Debug, Clone, Copy, PartialEq, Eq, Structural)]
pub enum ExportDecision {
    /// No sample values: normal names, no watermark.
    RenderNormal,
    /// Sample values, explicitly allowed: `.SAMPLE.` names and the watermark.
    RenderWithWatermark,
    /// Sample values, not allowed: export is refused.
    Blocked,
}

impl ExportDecision {
    /// Whether this decision renders at all.
    pub fn renders(self) -> (r: bool)
        ensures
            r == !(self is Blocked),
    {
        match self {
            ExportDecision::Blocked => false,
            _ => true,
        }
    }

    /// Whether the output must carry the watermark and the `.SAMPLE.` names.
    pub fn is_sample(self) -> (r: bool)
        ensures
            r == (self is RenderWithWatermark),
    {
        match self {
            ExportDecision::RenderWithWatermark => true,
            _ => false,
        }
    }
}

/// The export decision: normal without samples (whatever the flag), watermarked with
/// samples when allowed, blocked with samples when not.
pub open spec fn decide_spec(used_samples: bool, allow_samples: bool) -> ExportDecision {
    if !used_samples {
        ExportDecision::RenderNormal
    } else if allow_samples {
        ExportDecision::RenderWithWatermark
    } else {
        ExportDecision::Blocked
    }
}

/// The guard every export passes through.
pub fn decide(used_samples: bool, allow_samples: bool) -> (r: ExportDecision)
    ensures
        r == decide_spec(used_samples, allow_samples),
{
    if !used_samples {
        ExportDecision::RenderNormal
    } else if allow_samples {
        ExportDecision::RenderWithWatermark
    } else {
        ExportDecision::Blocked
    }
}

/// The CV file name: `cv.SAMPLE.<ext>` for sample output, else `cv.<ext>`.
pub open spec fn cv_filename_spec(contains_samples: bool, ext: Seq<char>) -> Seq<char> {
    if contains_samples {
        "cv.SAMPLE."@ + ext
    } else {
        "cv."@ + ext
    }
}

/// The cover-letter file name: `cover-letter.SAMPLE.<ext>` or `cover-letter.<ext>`.
pub open spec fn cover_letter_filename_spec(contains_samples: bool, ext: Seq<char>) -> Seq<char> {
    if contains_samples {
        "cover-letter.SAMPLE."@ + ext
    } else {
        "cover-letter."@ + ext
    }
}

/// The CV file name for a sample-ness and an extension.
pub fn cv_filename_ext(contains_samples: bool, ext: &str) -> (r: String)
    ensures
        r@ == cv_filename_spec(contains_samples, ext@),
{
    let mut s = if contains_samples {
        String::from_str("cv.SAMPLE.")
    } else {
        String::from_str("cv.")
    };
    s.append(ext);
    s
}

/// The cover-letter file name for a sample-ness and an extension.
pub fn cover_letter_filename_ext(contains_samples: bool, ext: &str) -> (r: String)
    ensures
        r@ == cover_letter_filename_spec(contains_samples, ext@),
{
    let mut s = if contains_samples {
        String::from_str("cover-letter.SAMPLE.")
    } else {
        String::from_str("cover-letter.")
    };
    s.append(ext);
    s
}

/// The PDF CV file name.
pub fn cv_filename(contains_samples: bool) -> (r: &'static str)
    ensures
        r@ == cv_filename_spec(contains_samples, "pdf"@),
{
    if contains_samples {
        proof {
            reveal_strlit("cv.SAMPLE.pdf");
            reveal_strlit("cv.SAMPLE.");
            reveal_strlit("pdf");
            assert("cv.SAMPLE.pdf"@ =~= "cv.SAMPLE."@ + "pdf"@);
        }
        "cv.SAMPLE.pdf"
    } else {
        proof {
            reveal_strlit("cv.pdf");
            reveal_strlit("cv.");
            reveal_strlit("pdf");
            assert("cv.pdf"@ =~= "cv."@ + "pdf"@);
        }
        "cv.pdf"
    }
}

/// The PDF cover-letter file name.
pub fn cover_letter_filename(contains_samples: bool) -> (r: &'static str)
    ensures
        r@ == cover_letter_filename_spec(contains_samples, "pdf"@),
{
    if contains_samples {
        proof {
            reveal_strlit("cover-letter.SAMPLE.pdf");
            reveal_strlit("cover-letter.SAMPLE.");
            reveal_strlit("pdf");
            assert("cover-letter.SAMPLE.pdf"@ =~= "cover-letter.SAMPLE."@ + "pdf"@);
        }
        "cover-letter.SAMPLE.pdf"
    } else {
        proof {
            reveal_strlit("cover-letter.pdf");
            reveal_strlit("cover-letter.");
            reveal_strlit("pdf");
            assert("cover-letter.pdf"@ =~= "cover-letter."@ + "pdf"@);
        }
        "cover-letter.pdf"
    }
}

// ── sample values ────────────────────────────────────────────────────────────────

/// The sample achievement with this id.
pub open spec fn sample_achievement_spec(id: Seq<char>) -> AchievementModel {
    AchievementModel {
        id,
        description: "Sample achievement — replace with a real accomplishment."@,
        emphasise: None,
        tags: Seq::empty(),
        metrics: Seq::empty(),
        evidence_strength_milli: None,
    }
}

/// The sample experience: `imp_exp_0` with one achievement `imp_exp_0_b0`.
pub open spec fn sample_experience_spec() -> ExperienceModel {
    ExperienceModel {
        id: "imp_exp_0"@,
        job_title: "Sample Role"@,
        business_name: "Sample Company"@,
        consultancy: None,
        location: None,
        employment_type: None,
        start_date: "2020"@,
        end_date: None,
        domain: None,
        hide: None,
        contact: None,
        tags: Seq::empty(),
        achievements_tasks: seq![sample_achievement_spec("imp_exp_0"@ + "_b0"@)],
    }
}

/// The sample skill.
pub open spec fn sample_skill_spec() -> SkillModel {
    SkillModel { name: "Sample Skill"@, proficiency: 3, aliases: Seq::empty(), evidence_ids: Seq::empty() }
}

/// The CV after the sample fill.
pub open spec fn filled_spec(cv: MasterCvModel, missing: MissingFields) -> MasterCvModel {
    let person = if missing.person_name {
        PersonModel { name: Some("Alex Sample"@), ..cv.person }
    } else {
        cv.person
    };
    let experience = if missing.experience {
        cv.experience.push(sample_experience_spec())
    } else if missing.achievement && cv.experience.len() > 0 {
        let first = cv.experience[0];
        let aid = first.id + "_b"@ + crate::text::decimal(first.achievements_tasks.len());
        cv.experience.update(
            0,
            ExperienceModel { achievements_tasks: first.achievements_tasks.push(sample_achievement_spec(aid)), ..first },
        )
    } else {
        cv.experience
    };
    let skills = if missing.skill {
        cv.skills.push(sample_skill_spec())
    } else {
        cv.skills
    };
    MasterCvModel { person, experience, skills, ..cv }
}

/// Whether the fill inserts anything.
pub open spec fn fill_uses_samples(cv: MasterCvModel, missing: MissingFields) -> bool {
    missing.person_name || missing.experience || (missing.achievement && cv.experience.len() > 0) || missing.skill
}

fn sample_achievement(id: String) -> (r: Achievement)
    ensures
        r@ == sample_achievement_spec(id@),
{
    let r = Achievement {
        id,
        description: String::from_str("Sample achievement — replace with a real accomplishment."),
        emphasise: None,
        tags: Vec::new(),
        metrics: Vec::new(),
        evidence_strength_milli: None,
    };
    assert(r@.tags =~= Seq::<Seq<char>>::empty());
    assert(r@.metrics =~= Seq::<Seq<char>>::empty());
    r
}

fn sample_experience() -> (r: Experience)
    ensures
        r@ == sample_experience_spec(),
{
    let mut aid = String::from_str("imp_exp_0");
    aid.append("_b0");
    let mut achievements: Vec<Achievement> = Vec::new();
    achievements.push(sample_achievement(aid));
    let r = Experience {
        id: String::from_str("imp_exp_0"),
        job_title: String::from_str("Sample Role"),
        business_name: String::from_str("Sample Company"),
        consultancy: None,
        location: None,
        employment_type: None,
        start_date: String::from_str("2020"),
        end_date: None,
        domain: None,
        hide: None,
        contact: None,
        tags: Vec::new(),
        achievements_tasks: achievements,
    };
    assert(r@.tags =~= Seq::<Seq<char>>::empty());
    assert(r@.achievements_tasks =~= sample_experience_spec().achievements_tasks);
    r
}

/// Fill the empty important classes of `cv` with obviously synthetic sample values: a
/// sample name; a whole sample role when experience is missing, else a sample
/// achievement on the first experience when achievements are missing; a sample skill.
/// Returns whether anything was inserted.
pub fn fill_with_samples(cv: &mut MasterCv, missing: MissingFields) -> (used: bool)
    ensures
        final(cv)@ == filled_spec(old(cv)@, missing),
        used == fill_uses_samples(old(cv)@, missing),
{
    let ghost before = cv@;
    let mut used = false;
    if missing.person_name {
        cv.person.name = Some(String::from_str("Alex Sample"));
        used = true;
    }
    if missing.experience {
        let ghost pre = experiences_model(cv.experience@);
        cv.experience.push(sample_experience());
        assert(experiences_model(cv.experience@) =~= pre.push(sample_experience_spec()));
        used = true;
    } else if missing.achievement {
        if cv.experience.len() > 0 {
            let ghost pre = experiences_model(cv.experience@);
            let mut first = cv.experience.remove(0);
            let mut aid = first.id.clone();
            aid.append("_b");
            let d = crate::text::decimal_chars(first.achievements_tasks.len() as u64);
            crate::text::push_all(&mut aid, &d);
            let ghost fa = achievements_model(first.achievements_tasks@);
            first.achievements_tasks.push(sample_achievement(aid));
            assert(achievements_model(first.achievements_tasks@) =~= fa.push(sample_achievement_spec(aid@)));
            cv.experience.insert(0, first);
            assert(experiences_model(cv.experience@) =~= pre.update(0, first@));
            used = true;
        }
    }
    if missing.skill {
        let ghost pre = skills_model(cv.skills@);
        let s = Skill { name: String::from_str("Sample Skill"), proficiency: 3, aliases: Vec::new(), evidence_ids: Vec::new() };
        assert(s@ == sample_skill_spec()) by {
            assert(s@.aliases =~= Seq::<Seq<char>>::empty());
            assert(s@.evidence_ids =~= Seq::<Seq<char>>::empty());
        }
        cv.skills.push(s);
        assert(skills_model(cv.skills@) =~= pre.push(sample_skill_spec()));
        used = true;
    }
    used
}

/// A person with every field absent.
pub fn empty_person() -> (r: Person)
    ensures
        r@ == (PersonModel {
            name: None,
            professional_title: None,
            professional_description: None,
            location: None,
            email: None,
            phone: None,
            linkedin: None,
            github: None,
            website: None,
            image: None,
        }),
{
    Person {
        name: None,
        professional_title: None,
        professional_description: None,
        location: None,
        email: None,
        phone: None,
        linkedin: None,
        github: None,
        website: None,
        image: None,
    }
}

/// Samples never export as a normal document, and allowing samples never changes
/// how a sample-free CV exports.
pub proof fn law_samples_never_export_normally(used_samples: bool, allow_samples: bool)
    ensures
        used_samples ==> decide_spec(used_samples, allow_samples) != ExportDecision::RenderNormal,
        !used_samples ==> decide_spec(used_samples, allow_samples) == ExportDecision::RenderNormal,
        decide_spec(used_samples, allow_samples) == ExportDecision::RenderWithWatermark <==> (used_samples && allow_samples),
{
}

/// A fill that inserts nothing leaves the CV unchanged.
pub proof fn law_fill_without_use_is_identity(cv: MasterCvModel, missing: MissingFields)
    requires
        !fill_uses_samples(cv, missing),
    ensures
        filled_spec(cv, missing) == cv,
{
}

} // verus!
