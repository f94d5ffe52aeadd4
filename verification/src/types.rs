//! The master-CV data model. A tailored view is a filtered/reordered `MasterCv` — the
//! same type — so it conforms to the master-CV schema. Each type has a mathematical
//! model (its view) over char sequences; the copies made while tailoring are proved to
//! preserve it.
//!
//! Fields the engine never reads (projects, education, certifications, awards,
//! preferences, an experience's contact block) are carried through verbatim as raw
//! JSON text. An achievement's evidence strength is held in thousandths (the value
//! times 1000, truncated) — the unit the ranking compares.

use crate::text::{push_all, strs};
use vstd::prelude::*;

verus! {

/// Typed errors of the engine, surfaced across the command boundary without panicking.
#[derive(Debug)]
pub enum CoreError {
    MasterCvParse(String),
    NormalizedJobParse(String),
    LedgerBlocked(String),
    Render(String),
}

/// The display text of an error: a fixed prefix per variant, then its detail.
pub open spec fn core_error_message(e: CoreError) -> Seq<char> {
    match e {
        CoreError::MasterCvParse(d) => "failed to parse master CV: "@ + d@,
        CoreError::NormalizedJobParse(d) => "failed to parse normalized job: "@ + d@,
        CoreError::LedgerBlocked(d) => "evidence-ledger guard blocked export: "@ + d@,
        CoreError::Render(d) => "typst render failed: "@ + d@,
    }
}

impl CoreError {
    /// The human-readable message of this error.
    pub fn message(&self) -> (r: String)
        ensures
            r@ == core_error_message(*self),
    {
        let (prefix, detail) = match self {
            CoreError::MasterCvParse(d) => ("failed to parse master CV: ", d),
            CoreError::NormalizedJobParse(d) => ("failed to parse normalized job: ", d),
            CoreError::LedgerBlocked(d) => ("evidence-ledger guard blocked export: ", d),
            CoreError::Render(d) => ("typst render failed: ", d),
        };
        let mut s = String::from_str(prefix);
        s.append(detail.as_str());
        s
    }
}

/// A JSON fragment the engine carries through without reading it.
#[derive(Clone, Debug, PartialEq)]
pub struct RawJson {
    pub text: String,
}

// ── models ───────────────────────────────────────────────────────────────────────

pub open spec fn opt_str(o: Option<String>) -> Option<Seq<char>> {
    match o {
        Some(s) => Some(s@),
        None => None,
    }
}

pub open spec fn raws(v: Seq<RawJson>) -> Seq<Seq<char>> {
    v.map_values(|x: RawJson| x.text@)
}

pub open spec fn opt_raw(o: Option<RawJson>) -> Option<Seq<char>> {
    match o {
        Some(s) => Some(s.text@),
        None => None,
    }
}

pub struct PersonModel {
    pub name: Option<Seq<char>>,
    pub professional_title: Option<Seq<char>>,
    pub professional_description: Option<Seq<char>>,
    pub location: Option<Seq<char>>,
    pub email: Option<Seq<char>>,
    pub phone: Option<Seq<char>>,
    pub linkedin: Option<Seq<char>>,
    pub github: Option<Seq<char>>,
    pub website: Option<Seq<char>>,
    pub image: Option<Seq<char>>,
}

pub struct SkillModel {
    pub name: Seq<char>,
    pub proficiency: u8,
    pub aliases: Seq<Seq<char>>,
    pub evidence_ids: Seq<Seq<char>>,
}

pub struct AchievementModel {
    pub id: Seq<char>,
    pub description: Seq<char>,
    pub emphasise: Option<bool>,
    pub tags: Seq<Seq<char>>,
    pub metrics: Seq<Seq<char>>,
    pub evidence_strength_milli: Option<i64>,
}

pub struct ExperienceModel {
    pub id: Seq<char>,
    pub job_title: Seq<char>,
    pub business_name: Seq<char>,
    pub consultancy: Option<Seq<char>>,
    pub location: Option<Seq<char>>,
    pub employment_type: Option<Seq<char>>,
    pub start_date: Seq<char>,
    pub end_date: Option<Seq<char>>,
    pub domain: Option<Seq<char>>,
    pub hide: Option<bool>,
    pub contact: Option<Seq<char>>,
    pub tags: Seq<Seq<char>>,
    pub achievements_tasks: Seq<AchievementModel>,
}

pub struct MasterCvModel {
    pub schema_version: Seq<char>,
    pub person: PersonModel,
    pub headline: Option<Seq<char>>,
    pub summary_variants: Seq<Seq<char>>,
    pub programming_languages: Seq<SkillModel>,
    pub skills: Seq<SkillModel>,
    pub tools_technologies: Seq<SkillModel>,
    pub as_a_services: Seq<SkillModel>,
    pub experience: Seq<ExperienceModel>,
    pub projects: Seq<Seq<char>>,
    pub education: Seq<Seq<char>>,
    pub certifications: Seq<Seq<char>>,
    pub awards: Seq<Seq<char>>,
    pub preferences: Option<Seq<char>>,
}

// ── the types ────────────────────────────────────────────────────────────────────

/// The candidate's identity and contact block.
#[derive(Clone, Debug, PartialEq)]
pub struct Person {
    pub name: Option<String>,
    pub professional_title: Option<String>,
    pub professional_description: Option<String>,
    pub location: Option<String>,
    pub email: Option<String>,
    pub phone: Option<String>,
    pub linkedin: Option<String>,
    pub github: Option<String>,
    pub website: Option<String>,
    pub image: Option<String>,
}

/// A skill (in any of the four skill lists).
#[derive(Clone, Debug, PartialEq)]
pub struct Skill {
    pub name: String,
    pub proficiency: u8,
    pub aliases: Vec<String>,
    pub evidence_ids: Vec<String>,
}

/// One achievement/task bullet of an experience.
#[derive(Clone, Debug, PartialEq)]
pub struct Achievement {
    pub id: String,
    pub description: String,
    pub emphasise: Option<bool>,
    pub tags: Vec<String>,
    pub metrics: Vec<String>,
    /// Evidence strength in thousandths (×1000, truncated toward zero).
    pub evidence_strength_milli: Option<i64>,
}

/// One role.
#[derive(Clone, Debug, PartialEq)]
pub struct Experience {
    pub id: String,
    pub job_title: String,
    pub business_name: String,
    pub consultancy: Option<String>,
    pub location: Option<String>,
    pub employment_type: Option<String>,
    pub start_date: String,
    pub end_date: Option<String>,
    pub domain: Option<String>,
    pub hide: Option<bool>,
    pub contact: Option<RawJson>,
    pub tags: Vec<String>,
    pub achievements_tasks: Vec<Achievement>,
}

/// The canonical, immutable master CV. A tailored view has the same shape.
#[derive(Clone, Debug, PartialEq)]
pub struct MasterCv {
    pub schema_version: String,
    pub person: Person,
    pub headline: Option<String>,
    pub summary_variants: Vec<String>,
    pub programming_languages: Vec<Skill>,
    pub skills: Vec<Skill>,
    pub tools_technologies: Vec<Skill>,
    pub as_a_services: Vec<Skill>,
    pub experience: Vec<Experience>,
    pub projects: Vec<RawJson>,
    pub education: Vec<RawJson>,
    pub certifications: Vec<RawJson>,
    pub awards: Vec<RawJson>,
    pub preferences: Option<RawJson>,
}

impl View for Person {
    type V = PersonModel;

    open spec fn view(&self) -> PersonModel {
        PersonModel {
            name: opt_str(self.name),
            professional_title: opt_str(self.professional_title),
            professional_description: opt_str(self.professional_description),
            location: opt_str(self.location),
            email: opt_str(self.email),
            phone: opt_str(self.phone),
            linkedin: opt_str(self.linkedin),
            github: opt_str(self.github),
            website: opt_str(self.website),
            image: opt_str(self.image),
        }
    }
}

impl View for Skill {
    type V = SkillModel;

    open spec fn view(&self) -> SkillModel {
        SkillModel {
            name: self.name@,
            proficiency: self.proficiency,
            aliases: strs(self.aliases@),
            evidence_ids: strs(self.evidence_ids@),
        }
    }
}

impl View for Achievement {
    type V = AchievementModel;

    open spec fn view(&self) -> AchievementModel {
        AchievementModel {
            id: self.id@,
            description: self.description@,
            emphasise: self.emphasise,
            tags: strs(self.tags@),
            metrics: strs(self.metrics@),
            evidence_strength_milli: self.evidence_strength_milli,
        }
    }
}

pub open spec fn skills_model(v: Seq<Skill>) -> Seq<SkillModel> {
    v.map_values(|x: Skill| x@)
}

pub open spec fn achievements_model(v: Seq<Achievement>) -> Seq<AchievementModel> {
    v.map_values(|x: Achievement| x@)
}

impl View for Experience {
    type V = ExperienceModel;

    open spec fn view(&self) -> ExperienceModel {
        ExperienceModel {
            id: self.id@,
            job_title: self.job_title@,
            business_name: self.business_name@,
            consultancy: opt_str(self.consultancy),
            location: opt_str(self.location),
            employment_type: opt_str(self.employment_type),
            start_date: self.start_date@,
            end_date: opt_str(self.end_date),
            domain: opt_str(self.domain),
            hide: self.hide,
            contact: opt_raw(self.contact),
            tags: strs(self.tags@),
            achievements_tasks: achievements_model(self.achievements_tasks@),
        }
    }
}

pub open spec fn experiences_model(v: Seq<Experience>) -> Seq<ExperienceModel> {
    v.map_values(|x: Experience| x@)
}

impl View for MasterCv {
    type V = MasterCvModel;

    open spec fn view(&self) -> MasterCvModel {
        MasterCvModel {
            schema_version: self.schema_version@,
            person: self.person@,
            headline: opt_str(self.headline),
            summary_variants: strs(self.summary_variants@),
            programming_languages: skills_model(self.programming_languages@),
            skills: skills_model(self.skills@),
            tools_technologies: skills_model(self.tools_technologies@),
            as_a_services: skills_model(self.as_a_services@),
            experience: experiences_model(self.experience@),
            projects: raws(self.projects@),
            education: raws(self.education@),
            certifications: raws(self.certifications@),
            awards: raws(self.awards@),
            preferences: opt_raw(self.preferences),
        }
    }
}

// ── copies ───────────────────────────────────────────────────────────────────────

pub fn copy_opt(o: &Option<String>) -> (r: Option<String>)
    ensures
        opt_str(r) == opt_str(*o),
{
    match o {
        Some(s) => Some(s.clone()),
        None => None,
    }
}

pub fn copy_strings(v: &Vec<String>) -> (r: Vec<String>)
    ensures
        strs(r@) == strs(v@),
{
    let mut out: Vec<String> = Vec::new();
    let mut i: usize = 0;
    while i < v.len()
        invariant
            i <= v.len(),
            strs(out@) == strs(v@).take(i as int),
        decreases v.len() - i,
    {
        let ghost before = strs(out@);
        out.push(v[i].clone());
        assert(strs(out@) =~= before.push(v@[i as int]@));
        assert(strs(v@).take(i + 1) =~= strs(v@).take(i as int).push(strs(v@)[i as int]));
        i += 1;
    }
    assert(strs(v@).take(v@.len() as int) =~= strs(v@));
    out
}

pub fn copy_raws(v: &Vec<RawJson>) -> (r: Vec<RawJson>)
    ensures
        raws(r@) == raws(v@),
{
    let mut out: Vec<RawJson> = Vec::new();
    let mut i: usize = 0;
    while i < v.len()
        invariant
            i <= v.len(),
            raws(out@) == raws(v@).take(i as int),
        decreases v.len() - i,
    {
        let ghost before = raws(out@);
        out.push(RawJson { text: v[i].text.clone() });
        assert(raws(out@) =~= before.push(v@[i as int].text@));
        assert(raws(v@).take(i + 1) =~= raws(v@).take(i as int).push(raws(v@)[i as int]));
        i += 1;
    }
    assert(raws(v@).take(v@.len() as int) =~= raws(v@));
    out
}

pub fn copy_opt_raw(o: &Option<RawJson>) -> (r: Option<RawJson>)
    ensures
        opt_raw(r) == opt_raw(*o),
{
    match o {
        Some(s) => Some(RawJson { text: s.text.clone() }),
        None => None,
    }
}

impl Person {
    pub fn copy(&self) -> (r: Person)
        ensures
            r@ == self@,
    {
        Person {
            name: copy_opt(&self.name),
            professional_title: copy_opt(&self.professional_title),
            professional_description: copy_opt(&self.professional_description),
            location: copy_opt(&self.location),
            email: copy_opt(&self.email),
            phone: copy_opt(&self.phone),
            linkedin: copy_opt(&self.linkedin),
            github: copy_opt(&self.github),
            website: copy_opt(&self.website),
            image: copy_opt(&self.image),
        }
    }
}

impl Skill {
    pub fn copy(&self) -> (r: Skill)
        ensures
            r@ == self@,
    {
        Skill {
            name: self.name.clone(),
            proficiency: self.proficiency,
            aliases: copy_strings(&self.aliases),
            evidence_ids: copy_strings(&self.evidence_ids),
        }
    }
}

pub fn copy_skills(v: &Vec<Skill>) -> (r: Vec<Skill>)
    ensures
        skills_model(r@) == skills_model(v@),
{
    let mut out: Vec<Skill> = Vec::new();
    let mut i: usize = 0;
    while i < v.len()
        invariant
            i <= v.len(),
            skills_model(out@) == skills_model(v@).take(i as int),
        decreases v.len() - i,
    {
        let ghost before = skills_model(out@);
        out.push(v[i].copy());
        assert(skills_model(out@) =~= before.push(v@[i as int]@));
        assert(skills_model(v@).take(i + 1) =~= skills_model(v@).take(i as int).push(skills_model(v@)[i as int]));
        i += 1;
    }
    assert(skills_model(v@).take(v@.len() as int) =~= skills_model(v@));
    out
}

/// Appends `more` to `list`.
pub fn append_skill_models(list: &mut Vec<Skill>, more: Vec<Skill>)
    ensures
        skills_model(final(list)@) == skills_model(old(list)@) + skills_model(more@),
{
    let ghost base = skills_model(list@);
    let mut i: usize = 0;
    while i < more.len()
        invariant
            i <= more@.len(),
            skills_model(list@) == base + skills_model(more@).take(i as int),
        decreases more@.len() - i,
    {
        let ghost pre = skills_model(list@);
        list.push(more[i].copy());
        assert(skills_model(list@) =~= pre.push(more@[i as int]@));
        assert(skills_model(more@).take(i + 1) =~= skills_model(more@).take(i as int).push(more@[i as int]@));
        i += 1;
    }
    assert(skills_model(more@).take(more@.len() as int) =~= skills_model(more@));
}

impl Achievement {
    pub fn copy(&self) -> (r: Achievement)
        ensures
            r@ == self@,
    {
        Achievement {
            id: self.id.clone(),
            description: self.description.clone(),
            emphasise: self.emphasise,
            tags: copy_strings(&self.tags),
            metrics: copy_strings(&self.metrics),
            evidence_strength_milli: self.evidence_strength_milli,
        }
    }
}

pub fn copy_achievements(v: &Vec<Achievement>) -> (r: Vec<Achievement>)
    ensures
        achievements_model(r@) == achievements_model(v@),
{
    let mut out: Vec<Achievement> = Vec::new();
    let mut i: usize = 0;
    while i < v.len()
        invariant
            i <= v.len(),
            achievements_model(out@) == achievements_model(v@).take(i as int),
        decreases v.len() - i,
    {
        let ghost before = achievements_model(out@);
        out.push(v[i].copy());
        assert(achievements_model(out@) =~= before.push(v@[i as int]@));
        assert(achievements_model(v@).take(i + 1) =~= achievements_model(v@).take(i as int).push(achievements_model(v@)[i as int]));
        i += 1;
    }
    assert(achievements_model(v@).take(v@.len() as int) =~= achievements_model(v@));
    out
}

impl Experience {
    pub fn copy(&self) -> (r: Experience)
        ensures
            r@ == self@,
    {
        Experience {
            id: self.id.clone(),
            job_title: self.job_title.clone(),
            business_name: self.business_name.clone(),
            consultancy: copy_opt(&self.consultancy),
            location: copy_opt(&self.location),
            employment_type: copy_opt(&self.employment_type),
            start_date: self.start_date.clone(),
            end_date: copy_opt(&self.end_date),
            domain: copy_opt(&self.domain),
            hide: self.hide,
            contact: copy_opt_raw(&self.contact),
            tags: copy_strings(&self.tags),
            achievements_tasks: copy_achievements(&self.achievements_tasks),
        }
    }
}

impl MasterCv {
    pub fn copy(&self) -> (r: MasterCv)
        ensures
            r@ == self@,
    {
        let mut experience: Vec<Experience> = Vec::new();
        let mut i: usize = 0;
        while i < self.experience.len()
            invariant
                i <= self.experience.len(),
                experiences_model(experience@) == experiences_model(self.experience@).take(i as int),
            decreases self.experience.len() - i,
        {
            let ghost before = experiences_model(experience@);
            experience.push(self.experience[i].copy());
            assert(experiences_model(experience@) =~= before.push(self.experience@[i as int]@));
            assert(experiences_model(self.experience@).take(i + 1) =~= experiences_model(self.experience@).take(i as int).push(experiences_model(self.experience@)[i as int]));
            i += 1;
        }
        assert(experiences_model(self.experience@).take(self.experience@.len() as int)
            =~= experiences_model(self.experience@));
        MasterCv {
            schema_version: self.schema_version.clone(),
            person: self.person.copy(),
            headline: copy_opt(&self.headline),
            summary_variants: copy_strings(&self.summary_variants),
            programming_languages: copy_skills(&self.programming_languages),
            skills: copy_skills(&self.skills),
            tools_technologies: copy_skills(&self.tools_technologies),
            as_a_services: copy_skills(&self.as_a_services),
            experience,
            projects: copy_raws(&self.projects),
            education: copy_raws(&self.education),
            certifications: copy_raws(&self.certifications),
            awards: copy_raws(&self.awards),
            preferences: copy_opt_raw(&self.preferences),
        }
    }

    /// Every achievement across all experiences, with its owning experience, in
    /// document order.
    pub fn all_achievements(&self) -> (r: Vec<(&Experience, &Achievement)>)
        ensures
            r@.len() == all_achievement_pairs(self.experience@).len(),
            forall|k: int| 0 <= k < r@.len() ==> (*r@[k].0, *r@[k].1) == #[trigger] all_achievement_pairs(self.experience@)[k],
    {
        let mut out: Vec<(&Experience, &Achievement)> = Vec::new();
        let mut i: usize = 0;
        while i < self.experience.len()
            invariant
                i <= self.experience.len(),
                out@.len() == all_achievement_pairs(self.experience@.take(i as int)).len(),
                forall|k: int| 0 <= k < out@.len() ==> (*out@[k].0, *out@[k].1) == #[trigger] all_achievement_pairs(self.experience@.take(i as int))[k],
            decreases self.experience.len() - i,
        {
            let e = &self.experience[i];
            let ghost base = all_achievement_pairs(self.experience@.take(i as int));
            assert(self.experience@.take(i + 1).drop_last() == self.experience@.take(i as int));
            let mut j: usize = 0;
            while j < e.achievements_tasks.len()
                invariant
                    j <= e.achievements_tasks.len(),
                    *e == self.experience@[i as int],
                    out@.len() == base.len() + j,
                    forall|k: int| 0 <= k < out@.len() ==> (*out@[k].0, *out@[k].1) == #[trigger] (base + pairs_of(*e).take(j as int))[k],
                decreases e.achievements_tasks.len() - j,
            {
                out.push((e, &e.achievements_tasks[j]));
                assert(base + pairs_of(*e).take(j + 1) =~= (base + pairs_of(*e).take(j as int)).push((*e, e.achievements_tasks@[j as int])));
                j += 1;
            }
            assert(pairs_of(*e).take(j as int) =~= pairs_of(*e));
            i += 1;
        }
        assert(self.experience@.take(self.experience@.len() as int) == self.experience@);
        out
    }
}

/// The (experience, achievement) pairs of one experience.
pub open spec fn pairs_of(e: Experience) -> Seq<(Experience, Achievement)> {
    e.achievements_tasks@.map_values(|a: Achievement| (e, a))
}

/// All (experience, achievement) pairs, experience by experience.
pub open spec fn all_achievement_pairs(exps: Seq<Experience>) -> Seq<(Experience, Achievement)>
    decreases exps.len(),
{
    if exps.len() == 0 {
        Seq::empty()
    } else {
        all_achievement_pairs(exps.drop_last()) + pairs_of(exps.last())
    }
}

} // verus!
