//! Segments → a new master CV, with synthetic stable ids: `imp_exp_<n>` for the n-th
//! experience block and `imp_exp_<n>_b<m>` for its m-th bullet. Only known fields are
//! filled; imported skills get the neutral proficiency 3; nothing is invented.

use crate::cvimport::segment::{blocks_model, skill_lists_model, BlockModel, ExperienceBlock, Segments, SkillBucket};
use crate::text::{decimal, decimal_chars, push_all, strs};
use crate::types::{
    achievements_model, experiences_model, skills_model, AchievementModel, Experience, ExperienceModel, MasterCv,
    MasterCvModel, Person, PersonModel, Skill, SkillModel, Achievement,
};
use vstd::prelude::*;

verus! {

/// The proficiency given to an imported skill (the résumé carries no rating).
pub const IMPORTED_PROFICIENCY: u8 = 3;

/// An imported skill of this name.
pub open spec fn imported_skill(name: Seq<char>) -> SkillModel {
    SkillModel { name, proficiency: IMPORTED_PROFICIENCY, aliases: Seq::empty(), evidence_ids: Seq::empty() }
}

/// The skills of every list labelled `b`, in order.
pub open spec fn bucket_skills(lists: Seq<(SkillBucket, Seq<Seq<char>>)>, b: SkillBucket) -> Seq<SkillModel>
    decreases lists.len(),
{
    if lists.len() == 0 {
        Seq::empty()
    } else {
        bucket_skills(lists.drop_last(), b) + if lists.last().0 == b {
            lists.last().1.map_values(|n: Seq<char>| imported_skill(n))
        } else {
            Seq::empty()
        }
    }
}

/// The id of the n-th imported experience.
pub open spec fn experience_id(n: nat) -> Seq<char> {
    "imp_exp_"@ + decimal(n)
}

/// The id of the m-th bullet of the n-th imported experience.
pub open spec fn bullet_id(n: nat, m: nat) -> Seq<char> {
    experience_id(n) + "_b"@ + decimal(m)
}

/// The experience imported from the n-th block.
pub open spec fn imported_experience(n: nat, b: BlockModel) -> ExperienceModel {
    ExperienceModel {
        id: experience_id(n),
        job_title: b.job_title,
        business_name: b.business_name,
        consultancy: None,
        location: b.location,
        employment_type: None,
        start_date: b.start_date,
        end_date: b.end_date,
        domain: None,
        hide: None,
        contact: None,
        tags: Seq::empty(),
        achievements_tasks: Seq::new(
            b.bullets.len(),
            |m: int|
                AchievementModel {
                    id: bullet_id(n, m as nat),
                    description: b.bullets[m],
                    emphasise: None,
                    tags: Seq::empty(),
                    metrics: Seq::empty(),
                    evidence_strength_milli: None,
                },
        ),
    }
}

/// The master CV imported from segments.
pub open spec fn to_master_cv_spec(seg: crate::cvimport::segment::SegmentsModel) -> MasterCvModel {
    MasterCvModel {
        schema_version: "1.0.0"@,
        person: PersonModel {
            name: seg.name,
            professional_title: seg.title,
            professional_description: None,
            location: None,
            email: None,
            phone: None,
            linkedin: None,
            github: None,
            website: None,
            image: None,
        },
        headline: seg.title,
        summary_variants: Seq::empty(),
        programming_languages: bucket_skills(seg.skills, SkillBucket::ProgrammingLanguages),
        skills: bucket_skills(seg.skills, SkillBucket::Skills),
        tools_technologies: bucket_skills(seg.skills, SkillBucket::ToolsTechnologies),
        as_a_services: bucket_skills(seg.skills, SkillBucket::AsAServices),
        experience: Seq::new(seg.experience.len(), |n: int| imported_experience(n as nat, seg.experience[n])),
        projects: Seq::empty(),
        education: Seq::empty(),
        certifications: Seq::empty(),
        awards: Seq::empty(),
        preferences: None,
    }
}

fn append_skills(list: &mut Vec<Skill>, names: &Vec<String>)
    ensures
        skills_model(final(list)@) == skills_model(old(list)@) + strs(names@).map_values(|n: Seq<char>| imported_skill(n)),
{
    let ghost base = skills_model(list@);
    let ghost f = |n: Seq<char>| imported_skill(n);
    let mut i: usize = 0;
    while i < names.len()
        invariant
            i <= names@.len(),
            f == (|n: Seq<char>| imported_skill(n)),
            skills_model(list@) == base + strs(names@).map_values(f).take(i as int),
        decreases names@.len() - i,
    {
        let ghost pre = skills_model(list@);
        list.push(Skill { name: names[i].clone(), proficiency: IMPORTED_PROFICIENCY, aliases: Vec::new(), evidence_ids: Vec::new() });
        proof {
            assert(list@.last()@.aliases =~= Seq::<Seq<char>>::empty());
            assert(list@.last()@.evidence_ids =~= Seq::<Seq<char>>::empty());
            assert(list@.last()@ == f(names@[i as int]@));
            assert(skills_model(list@) =~= pre.push(f(names@[i as int]@)));
            assert(strs(names@).map_values(f).take(i + 1) =~= strs(names@).map_values(f).take(i as int).push(
                f(names@[i as int]@),
            ));
        }
        i += 1;
    }
    assert(strs(names@).map_values(f).take(names@.len() as int) =~= strs(names@).map_values(f));
}

/// `prefix` followed by the decimal digits of `n`.
fn label_with_number(prefix: &String, n: usize) -> (r: String)
    ensures
        r@ == prefix@ + decimal(n as nat),
{
    let mut s = prefix.clone();
    let d = decimal_chars(n as u64);
    push_all(&mut s, &d);
    s
}

fn import_block(n: usize, block: &ExperienceBlock) -> (r: Experience)
    ensures
        r@ == imported_experience(n as nat, block@),
{
    let exp_id = label_with_number(&String::from_str("imp_exp_"), n);
    let mut stem = exp_id.clone();
    stem.append("_b");
    let ghost target = imported_experience(n as nat, block@);
    let mut achievements: Vec<Achievement> = Vec::new();
    let mut m: usize = 0;
    while m < block.bullets.len()
        invariant
            m <= block.bullets@.len(),
            stem@ == experience_id(n as nat) + "_b"@,
            target == imported_experience(n as nat, block@),
            achievements_model(achievements@) == target.achievements_tasks.take(m as int),
        decreases block.bullets@.len() - m,
    {
        let ghost pre = achievements_model(achievements@);
        achievements.push(Achievement {
            id: label_with_number(&stem, m),
            description: block.bullets[m].clone(),
            emphasise: None,
            tags: Vec::new(),
            metrics: Vec::new(),
            evidence_strength_milli: None,
        });
        proof {
            assert(achievements@.last()@.tags =~= Seq::<Seq<char>>::empty());
            assert(achievements@.last()@.metrics =~= Seq::<Seq<char>>::empty());
            assert(achievements@.last()@ == target.achievements_tasks[m as int]);
            assert(achievements_model(achievements@) =~= pre.push(target.achievements_tasks[m as int]));
            assert(target.achievements_tasks.take(m + 1) =~= target.achievements_tasks.take(m as int).push(
                target.achievements_tasks[m as int],
            ));
        }
        m += 1;
    }
    assert(target.achievements_tasks.take(block.bullets@.len() as int) =~= target.achievements_tasks);
    let r = Experience {
        id: exp_id,
        job_title: block.job_title.clone(),
        business_name: block.business_name.clone(),
        consultancy: None,
        location: crate::types::copy_opt(&block.location),
        employment_type: None,
        start_date: block.start_date.clone(),
        end_date: crate::types::copy_opt(&block.end_date),
        domain: None,
        hide: None,
        contact: None,
        tags: Vec::new(),
        achievements_tasks: achievements,
    };
    assert(r@.tags =~= Seq::<Seq<char>>::empty());
    r
}

/// Map segments into a fresh master CV: the person from the header, each skills
/// segment into the list its label names, each experience block with synthetic ids.
pub fn to_master_cv(seg: Segments) -> (r: MasterCv)
    ensures
        r@ == to_master_cv_spec(seg@),
{
    let ghost sm = seg@;
    let person = Person {
        name: crate::types::copy_opt(&seg.name),
        professional_title: crate::types::copy_opt(&seg.title),
        professional_description: None,
        location: None,
        email: None,
        phone: None,
        linkedin: None,
        github: None,
        website: None,
        image: None,
    };
    let mut pl: Vec<Skill> = Vec::new();
    let mut sk: Vec<Skill> = Vec::new();
    let mut tt: Vec<Skill> = Vec::new();
    let mut aas: Vec<Skill> = Vec::new();
    let ghost lists = sm.skills;
    let mut i: usize = 0;
    assert(lists.take(0) =~= Seq::<(SkillBucket, Seq<Seq<char>>)>::empty());
    assert(skills_model(pl@) =~= Seq::<SkillModel>::empty());
    assert(skills_model(sk@) =~= Seq::<SkillModel>::empty());
    assert(skills_model(tt@) =~= Seq::<SkillModel>::empty());
    assert(skills_model(aas@) =~= Seq::<SkillModel>::empty());
    while i < seg.skills.len()
        invariant
            i <= seg.skills@.len(),
            sm == seg@,
            lists == sm.skills,
            lists.len() == seg.skills@.len(),
            skills_model(pl@) == bucket_skills(lists.take(i as int), SkillBucket::ProgrammingLanguages),
            skills_model(sk@) == bucket_skills(lists.take(i as int), SkillBucket::Skills),
            skills_model(tt@) == bucket_skills(lists.take(i as int), SkillBucket::ToolsTechnologies),
            skills_model(aas@) == bucket_skills(lists.take(i as int), SkillBucket::AsAServices),
        decreases seg.skills@.len() - i,
    {
        let (bucket, names) = &seg.skills[i];
        proof {
            assert(lists[i as int] == (*bucket, strs(names@)));
            assert(lists.take(i + 1).drop_last() =~= lists.take(i as int));
            assert(lists.take(i + 1).last() == lists[i as int]);
        }
        let ghost (p0, p1, p2, p3) = (skills_model(pl@), skills_model(sk@), skills_model(tt@), skills_model(aas@));
        match bucket {
            SkillBucket::ProgrammingLanguages => append_skills(&mut pl, names),
            SkillBucket::Skills => append_skills(&mut sk, names),
            SkillBucket::ToolsTechnologies => append_skills(&mut tt, names),
            SkillBucket::AsAServices => append_skills(&mut aas, names),
        }
        proof {
            assert(p0 + Seq::<SkillModel>::empty() =~= p0);
            assert(p1 + Seq::<SkillModel>::empty() =~= p1);
            assert(p2 + Seq::<SkillModel>::empty() =~= p2);
            assert(p3 + Seq::<SkillModel>::empty() =~= p3);
        }
        i += 1;
    }
    assert(lists.take(lists.len() as int) =~= lists);
    let ghost target = to_master_cv_spec(sm);
    let mut exps: Vec<Experience> = Vec::new();
    let mut n: usize = 0;
    while n < seg.experience.len()
        invariant
            n <= seg.experience@.len(),
            sm == seg@,
            target == to_master_cv_spec(sm),
            experiences_model(exps@) == target.experience.take(n as int),
        decreases seg.experience@.len() - n,
    {
        let ghost pre = experiences_model(exps@);
        exps.push(import_block(n, &seg.experience[n]));
        proof {
            assert(sm.experience[n as int] == seg.experience@[n as int]@);
            assert(experiences_model(exps@) =~= pre.push(target.experience[n as int]));
            assert(target.experience.take(n + 1) =~= target.experience.take(n as int).push(target.experience[n as int]));
        }
        n += 1;
    }
    assert(target.experience.take(seg.experience@.len() as int) =~= target.experience);
    let r = MasterCv {
        schema_version: String::from_str("1.0.0"),
        person,
        headline: crate::types::copy_opt(&seg.title),
        summary_variants: Vec::new(),
        programming_languages: pl,
        skills: sk,
        tools_technologies: tt,
        as_a_services: aas,
        experience: exps,
        projects: Vec::new(),
        education: Vec::new(),
        certifications: Vec::new(),
        awards: Vec::new(),
        preferences: None,
    };
    assert(r@.summary_variants =~= Seq::<Seq<char>>::empty());
    assert(r@.projects =~= Seq::<Seq<char>>::empty());
    assert(r@.education =~= Seq::<Seq<char>>::empty());
    assert(r@.certifications =~= Seq::<Seq<char>>::empty());
    assert(r@.awards =~= Seq::<Seq<char>>::empty());
    r
}

} // verus!
