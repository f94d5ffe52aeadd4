//! The match primitive.
//!
//! A requirement is matched iff one of its normalised (alias-expanded) tokens is a
//! token of some skill name (all four skill lists), some experience tag, or some
//! achievement description or tag. Aliases declared on a skill join the alias map,
//! each alias token pointing at the lowercased skill name.

use crate::normalize::{ascii_normalized_set_spec, lemma_ascii_tokenize_lowered, normalized_set, normalized_set_spec, push_unique, push_unique_string, seed_aliases, seed_map, tokenize, tokenize_spec, AliasMap};
use crate::order::{key_views, sort_indices, sorted_indices, SortKey};
use crate::text::{all_ascii, ascii_lowered, chars_of, lowercase_of, strs, to_lowercase};
use crate::types::{AchievementModel, ExperienceModel, MasterCv, MasterCvModel, Skill, SkillModel};
use vstd::prelude::*;

verus! {

/// Which section of the CV an evidence id comes from. Skills and experience entries
/// always render; achievement bullets may be pruned by tailoring.
#[derive(Debug, Clone, Copy, PartialEq, Eq, Structural)]
pub enum EvidenceKind {
    /// A skill's declared evidence id.
    Skill,
    /// An experience id.
    Experience,
    /// An achievement bullet id.
    Achievement,
}

/// An evidence id tagged with the section it came from.
#[derive(Debug, Clone, PartialEq, Eq)]
pub struct EvidenceId {
    pub id: String,
    pub kind: EvidenceKind,
}

impl View for EvidenceId {
    type V = (Seq<char>, EvidenceKind);

    open spec fn view(&self) -> (Seq<char>, EvidenceKind) {
        (self.id@, self.kind)
    }
}

// ── the token universe ───────────────────────────────────────────────────────────

/// The tokens of one phrase, as a set.
pub open spec fn tok_set(p: Seq<char>, al: Map<Seq<char>, Seq<char>>) -> Set<Seq<char>> {
    normalized_set_spec(p, al).to_set()
}

/// The union of the token sets of `ps`.
pub open spec fn phrases_tokens(ps: Seq<Seq<char>>, al: Map<Seq<char>, Seq<char>>) -> Set<Seq<char>>
    decreases ps.len(),
{
    if ps.len() == 0 {
        Set::empty()
    } else {
        phrases_tokens(ps.drop_last(), al) + tok_set(ps.last(), al)
    }
}

/// The skills of all four lists, in list order.
pub open spec fn skill_models(cv: MasterCvModel) -> Seq<SkillModel> {
    cv.programming_languages + cv.skills + cv.tools_technologies + cv.as_a_services
}

/// The alias entries an alias list contributes: each of its tokens maps to `target`.
pub open spec fn alias_entries_from(aliases: Seq<Seq<char>>, target: Seq<char>) -> Seq<(Seq<char>, Seq<char>)>
    decreases aliases.len(),
{
    if aliases.len() == 0 {
        Seq::empty()
    } else {
        alias_entries_from(aliases.drop_last(), target) + tokenize_spec(aliases.last()).map_values(
            |t: Seq<char>| (t, target),
        )
    }
}

/// The alias entries of a skill list, skill by skill.
pub open spec fn skills_alias_entries(ss: Seq<SkillModel>) -> Seq<(Seq<char>, Seq<char>)>
    decreases ss.len(),
{
    if ss.len() == 0 {
        Seq::empty()
    } else {
        skills_alias_entries(ss.drop_last()) + alias_entries_from(ss.last().aliases, lowercase_of(ss.last().name))
    }
}

/// `m` with the entries inserted in order (later entries win).
pub open spec fn apply_entries(m: Map<Seq<char>, Seq<char>>, es: Seq<(Seq<char>, Seq<char>)>) -> Map<Seq<char>, Seq<char>>
    decreases es.len(),
{
    if es.len() == 0 {
        m
    } else {
        apply_entries(m, es.drop_last()).insert(es.last().0, es.last().1)
    }
}

/// The alias map a CV matches with: the seed aliases plus every declared skill alias.
pub open spec fn candidate_aliases(cv: MasterCvModel) -> Map<Seq<char>, Seq<char>> {
    apply_entries(seed_map(), skills_alias_entries(skill_models(cv)))
}

/// The tokens of the skill names of `ss`.
pub open spec fn skill_names_tokens(ss: Seq<SkillModel>, al: Map<Seq<char>, Seq<char>>) -> Set<Seq<char>>
    decreases ss.len(),
{
    if ss.len() == 0 {
        Set::empty()
    } else {
        skill_names_tokens(ss.drop_last(), al) + tok_set(ss.last().name, al)
    }
}

/// The tokens of an achievement: its description and its tags.
pub open spec fn achievement_tokens(a: AchievementModel, al: Map<Seq<char>, Seq<char>>) -> Set<Seq<char>> {
    tok_set(a.description, al) + phrases_tokens(a.tags, al)
}

/// The union of the achievement tokens of `xs`.
pub open spec fn achievements_tokens(xs: Seq<AchievementModel>, al: Map<Seq<char>, Seq<char>>) -> Set<Seq<char>>
    decreases xs.len(),
{
    if xs.len() == 0 {
        Set::empty()
    } else {
        achievements_tokens(xs.drop_last(), al) + achievement_tokens(xs.last(), al)
    }
}

/// The tokens an experience contributes: its tags and its achievements.
pub open spec fn experience_tokens(e: ExperienceModel, al: Map<Seq<char>, Seq<char>>) -> Set<Seq<char>> {
    phrases_tokens(e.tags, al) + achievements_tokens(e.achievements_tasks, al)
}

/// The union of the experience tokens of `es`.
pub open spec fn experiences_tokens(es: Seq<ExperienceModel>, al: Map<Seq<char>, Seq<char>>) -> Set<Seq<char>>
    decreases es.len(),
{
    if es.len() == 0 {
        Set::empty()
    } else {
        experiences_tokens(es.drop_last(), al) + experience_tokens(es.last(), al)
    }
}

/// Every token a CV offers for matching.
pub open spec fn candidate_tokens(cv: MasterCvModel) -> Set<Seq<char>> {
    let al = candidate_aliases(cv);
    skill_names_tokens(skill_models(cv), al) + experiences_tokens(cv.experience, al)
}

/// The two sets share a member.
pub open spec fn shares(a: Set<Seq<char>>, b: Set<Seq<char>>) -> bool {
    exists|t: Seq<char>| a.contains(t) && b.contains(t)
}

/// Whether `requirement` is matched by a candidate with these tokens and aliases.
pub open spec fn matches_spec(tokens: Set<Seq<char>>, al: Map<Seq<char>, Seq<char>>, requirement: Seq<char>) -> bool {
    shares(tok_set(requirement, al), tokens)
}

/// Whether an ASCII `requirement` is matched, its tokens lowered the ASCII way.
pub open spec fn ascii_matches_spec(tokens: Set<Seq<char>>, al: Map<Seq<char>, Seq<char>>, requirement: Seq<char>) -> bool {
    shares(ascii_normalized_set_spec(requirement, al).to_set(), tokens)
}

// ── evidence ids ─────────────────────────────────────────────────────────────────

/// The tokens of a skill: its name and its declared aliases.
pub open spec fn skill_tokens(s: SkillModel, al: Map<Seq<char>, Seq<char>>) -> Set<Seq<char>> {
    tok_set(s.name, al) + phrases_tokens(s.aliases, al)
}

/// The evidence ids the skills of `ss` contribute for the requirement tokens `req`:
/// the declared evidence ids of each skill whose tokens meet `req`.
pub open spec fn skills_evidence(ss: Seq<SkillModel>, al: Map<Seq<char>, Seq<char>>, req: Set<Seq<char>>) -> Seq<(Seq<char>, EvidenceKind)>
    decreases ss.len(),
{
    if ss.len() == 0 {
        Seq::empty()
    } else {
        skills_evidence(ss.drop_last(), al, req) + if shares(skill_tokens(ss.last(), al), req) {
            ss.last().evidence_ids.map_values(|id: Seq<char>| (id, EvidenceKind::Skill))
        } else {
            Seq::empty()
        }
    }
}

/// The ids of the achievements of `xs` whose tokens meet `req`.
pub open spec fn achievements_evidence(xs: Seq<AchievementModel>, al: Map<Seq<char>, Seq<char>>, req: Set<Seq<char>>) -> Seq<(Seq<char>, EvidenceKind)>
    decreases xs.len(),
{
    if xs.len() == 0 {
        Seq::empty()
    } else {
        achievements_evidence(xs.drop_last(), al, req) + if shares(achievement_tokens(xs.last(), al), req) {
            seq![(xs.last().id, EvidenceKind::Achievement)]
        } else {
            Seq::empty()
        }
    }
}

/// Whether an experience meets `req`: through its tags or through one of its
/// achievements.
pub open spec fn experience_hit(e: ExperienceModel, al: Map<Seq<char>, Seq<char>>, req: Set<Seq<char>>) -> bool {
    shares(phrases_tokens(e.tags, al), req) || exists|k: int|
        0 <= k < e.achievements_tasks.len() && shares(#[trigger] achievement_tokens(e.achievements_tasks[k], al), req)
}

/// The evidence ids the experiences of `es` contribute: per experience, its matching
/// achievements, then its own id if it is hit.
pub open spec fn experiences_evidence(es: Seq<ExperienceModel>, al: Map<Seq<char>, Seq<char>>, req: Set<Seq<char>>) -> Seq<(Seq<char>, EvidenceKind)>
    decreases es.len(),
{
    if es.len() == 0 {
        Seq::empty()
    } else {
        experiences_evidence(es.drop_last(), al, req) + achievements_evidence(es.last().achievements_tasks, al, req) + if experience_hit(es.last(), al, req) {
            seq![(es.last().id, EvidenceKind::Experience)]
        } else {
            Seq::empty()
        }
    }
}

/// `out` extended by each item whose id is not yet present (the first kind seen for an
/// id is kept).
pub open spec fn dedup_by_id(out: Seq<(Seq<char>, EvidenceKind)>, items: Seq<(Seq<char>, EvidenceKind)>) -> Seq<(Seq<char>, EvidenceKind)>
    decreases items.len(),
{
    if items.len() == 0 {
        out
    } else {
        let o = dedup_by_id(out, items.drop_last());
        if exists|k: int| 0 <= k < o.len() && #[trigger] o[k].0 == items.last().0 {
            o
        } else {
            o.push(items.last())
        }
    }
}

/// The deduplicated evidence ids of a CV for the requirement tokens `req`, in
/// collection order (skills, then experiences).
pub open spec fn collected_evidence(cv: MasterCvModel, al: Map<Seq<char>, Seq<char>>, req: Set<Seq<char>>) -> Seq<(Seq<char>, EvidenceKind)> {
    dedup_by_id(Seq::empty(), skills_evidence(skill_models(cv), al, req) + experiences_evidence(cv.experience, al, req))
}

/// The sort keys of evidence ids: no ranks, the id itself.
pub open spec fn evidence_keys(v: Seq<(Seq<char>, EvidenceKind)>) -> Seq<(Seq<i64>, Seq<char>)> {
    v.map_values(|e: (Seq<char>, EvidenceKind)| (Seq::<i64>::empty(), e.0))
}

/// `v` reordered by ascending id.
pub open spec fn sorted_by_id(v: Seq<(Seq<char>, EvidenceKind)>) -> Seq<(Seq<char>, EvidenceKind)> {
    sorted_indices(evidence_keys(v), v.len()).map_values(|i: nat| v[i as int])
}

/// The evidence ids matching `requirement`, deduplicated by id and sorted by id.
pub open spec fn matching_evidence_spec(cv: MasterCvModel, al: Map<Seq<char>, Seq<char>>, requirement: Seq<char>) -> Seq<(Seq<char>, EvidenceKind)> {
    sorted_by_id(collected_evidence(cv, al, tok_set(requirement, al)))
}

/// The views of a sequence of evidence ids.
pub open spec fn evidence_views(v: Seq<EvidenceId>) -> Seq<(Seq<char>, EvidenceKind)> {
    v.map_values(|e: EvidenceId| e@)
}

// ── lemmas ───────────────────────────────────────────────────────────────────────

proof fn lemma_apply_entries_append(
    m: Map<Seq<char>, Seq<char>>,
    a: Seq<(Seq<char>, Seq<char>)>,
    b: Seq<(Seq<char>, Seq<char>)>,
)
    ensures
        apply_entries(m, a + b) == apply_entries(apply_entries(m, a), b),
    decreases b.len(),
{
    if b.len() == 0 {
        assert(a + b =~= a);
    } else {
        lemma_apply_entries_append(m, a, b.drop_last());
        assert((a + b).drop_last() =~= a + b.drop_last());
        assert((a + b).last() == b.last());
    }
}

// ── the candidate ────────────────────────────────────────────────────────────────

/// The candidate pool: every normalised, alias-expanded token the master CV exposes
/// for matching, with the alias map it was built with.
pub struct Candidate {
    tokens: Vec<String>,
    aliases: AliasMap,
}

impl Candidate {
    /// The token set of this candidate.
    pub closed spec fn token_set(&self) -> Set<Seq<char>> {
        strs(self.tokens@).to_set()
    }

    /// The alias map of this candidate.
    pub closed spec fn alias_map(&self) -> Map<Seq<char>, Seq<char>> {
        self.aliases@
    }

    /// Build the candidate token universe from a master CV.
    pub fn from_master(cv: &MasterCv) -> (c: Candidate)
        ensures
            c.alias_map() == candidate_aliases(cv@),
            c.token_set() == candidate_tokens(cv@),
    {
        let skills = skill_refs(cv);
        let ghost ss = skill_models(cv@);
        let mut aliases = seed_aliases();
        let mut i: usize = 0;
        assert(ss.take(0) =~= Seq::<SkillModel>::empty());
        while i < skills.len()
            invariant
                i <= skills@.len(),
                refs_model(skills@) == ss,
                aliases@ == apply_entries(seed_map(), skills_alias_entries(ss.take(i as int))),
            decreases skills@.len() - i,
        {
            let s = skills[i];
            let ghost pre = aliases@;
            add_skill_aliases(&mut aliases, s);
            proof {
                assert(ss[i as int] == s@);
                assert(ss.take(i + 1).drop_last() =~= ss.take(i as int));
                lemma_apply_entries_append(
                    seed_map(),
                    skills_alias_entries(ss.take(i as int)),
                    alias_entries_from(s@.aliases, lowercase_of(s@.name)),
                );
            }
            i += 1;
        }
        assert(ss.take(ss.len() as int) =~= ss);
        let ghost al = aliases@;

        let mut tokens: Vec<String> = Vec::new();
        assert(strs(tokens@).to_set() =~= Set::<Seq<char>>::empty());
        let mut i: usize = 0;
        while i < skills.len()
            invariant
                i <= skills@.len(),
                refs_model(skills@) == ss,
                aliases@ == al,
                strs(tokens@).to_set() == skill_names_tokens(ss.take(i as int), al),
            decreases skills@.len() - i,
        {
            let ghost pre = strs(tokens@).to_set();
            add_tokens(&mut tokens, skills[i].name.as_str(), &aliases);
            proof {
                assert(ss[i as int] == skills@[i as int]@);
                assert(ss.take(i + 1).drop_last() =~= ss.take(i as int));
            }
            i += 1;
        }
        let ghost skill_part = strs(tokens@).to_set();
        let ghost es = cv@.experience;
        let mut k: usize = 0;
        assert(es.take(0) =~= Seq::<ExperienceModel>::empty());
        assert(strs(tokens@).to_set() =~= skill_part + experiences_tokens(es.take(0), al));
        while k < cv.experience.len()
            invariant
                k <= cv.experience@.len(),
                es == cv@.experience,
                es.len() == cv.experience@.len(),
                aliases@ == al,
                strs(tokens@).to_set() == skill_part + experiences_tokens(es.take(k as int), al),
            decreases cv.experience@.len() - k,
        {
            let e = &cv.experience[k];
            let ghost pre = strs(tokens@).to_set();
            add_phrases(&mut tokens, &e.tags, &aliases);
            let ghost after_tags = strs(tokens@).to_set();
            let ghost xs = e@.achievements_tasks;
            let mut j: usize = 0;
            assert(xs.take(0) =~= Seq::<AchievementModel>::empty());
            assert(strs(tokens@).to_set() =~= after_tags + achievements_tokens(xs.take(0), al));
            while j < e.achievements_tasks.len()
                invariant
                    j <= e.achievements_tasks@.len(),
                    xs == e@.achievements_tasks,
                    xs.len() == e.achievements_tasks@.len(),
                    aliases@ == al,
                    strs(tokens@).to_set() == after_tags + achievements_tokens(xs.take(j as int), al),
                decreases e.achievements_tasks@.len() - j,
            {
                let a = &e.achievements_tasks[j];
                let ghost pre_a = strs(tokens@).to_set();
                add_tokens(&mut tokens, a.description.as_str(), &aliases);
                add_phrases(&mut tokens, &a.tags, &aliases);
                proof {
                    assert(xs[j as int] == a@);
                    assert(xs.take(j + 1).drop_last() =~= xs.take(j as int));
                    assert(strs(tokens@).to_set() =~= after_tags + achievements_tokens(xs.take(j + 1), al));
                }
                j += 1;
            }
            proof {
                assert(xs.take(xs.len() as int) =~= xs);
                assert(es[k as int] == e@);
                assert(es.take(k + 1).drop_last() =~= es.take(k as int));
                assert(strs(tokens@).to_set() =~= skill_part + experiences_tokens(es.take(k + 1), al));
            }
            k += 1;
        }
        assert(es.take(es.len() as int) =~= es);
        assert(ss.take(ss.len() as int) =~= ss);
        Candidate { tokens, aliases }
    }

    /// Whether `requirement` is matched: one of its normalised tokens is in the
    /// candidate universe.
    pub fn matches(&self, requirement: &str) -> (r: bool)
        ensures
            r == matches_spec(self.token_set(), self.alias_map(), requirement@),
            all_ascii(requirement@) ==> r == ascii_matches_spec(self.token_set(), self.alias_map(), requirement@),
    {
        let req = normalized_set(requirement, &self.aliases);
        let r = any_shared(&req, &self.tokens);
        proof {
            if r {
                let t = choose|t: Seq<char>| strs(req@).contains(t) && strs(self.tokens@).contains(t);
                assert(tok_set(requirement@, self.alias_map()).contains(t));
            }
        }
        r
    }

    /// The evidence ids whose owning record contributes a token meeting `requirement`:
    /// skills' declared evidence ids, achievement ids and experience ids, deduplicated
    /// by id and sorted by id.
    pub fn matching_evidence_ids(&self, cv: &MasterCv, requirement: &str) -> (r: Vec<String>)
        ensures
            strs(r@) == matching_evidence_spec(cv@, self.alias_map(), requirement@).map_values(
                |e: (Seq<char>, EvidenceKind)| e.0,
            ),
    {
        let kinded = self.matching_evidence_ids_kinded(cv, requirement);
        let ghost kv = evidence_views(kinded@);
        let mut out: Vec<String> = Vec::new();
        let mut i: usize = 0;
        while i < kinded.len()
            invariant
                i <= kinded@.len(),
                kv == evidence_views(kinded@),
                strs(out@) == kv.map_values(|e: (Seq<char>, EvidenceKind)| e.0).take(i as int),
            decreases kinded@.len() - i,
        {
            let ghost pre = strs(out@);
            out.push(kinded[i].id.clone());
            assert(strs(out@) =~= pre.push(kinded@[i as int].id@));
            assert(kv.map_values(|e: (Seq<char>, EvidenceKind)| e.0).take(i + 1) =~= kv.map_values(
                |e: (Seq<char>, EvidenceKind)| e.0,
            ).take(i as int).push(kinded@[i as int].id@));
            i += 1;
        }
        assert(kv.map_values(|e: (Seq<char>, EvidenceKind)| e.0).take(kv.len() as int) =~= kv.map_values(
            |e: (Seq<char>, EvidenceKind)| e.0,
        ));
        out
    }

    /// Like [`Candidate::matching_evidence_ids`], each id tagged with the section it
    /// came from.
    pub fn matching_evidence_ids_kinded(&self, cv: &MasterCv, requirement: &str) -> (r: Vec<EvidenceId>)
        ensures
            evidence_views(r@) == matching_evidence_spec(cv@, self.alias_map(), requirement@),
    {
        let ghost al = self.alias_map();
        let req = normalized_set(requirement, &self.aliases);
        let ghost rq = tok_set(requirement@, al);
        assert(strs(req@).to_set() == rq);
        let mut ids: Vec<EvidenceId> = Vec::new();
        let ghost mut pushed: Seq<(Seq<char>, EvidenceKind)> = Seq::empty();
        assert(evidence_views(ids@) =~= dedup_by_id(Seq::empty(), pushed));

        let skills = skill_refs(cv);
        let ghost ss = skill_models(cv@);
        let mut i: usize = 0;
        assert(ss.take(0) =~= Seq::<SkillModel>::empty());
        while i < skills.len()
            invariant
                i <= skills@.len(),
                refs_model(skills@) == ss,
                al == self.alias_map(),
                strs(req@).to_set() == rq,
                pushed == skills_evidence(ss.take(i as int), al, rq),
                evidence_views(ids@) == dedup_by_id(Seq::empty(), pushed),
            decreases skills@.len() - i,
        {
            let s = skills[i];
            let mut toks: Vec<String> = Vec::new();
            assert(strs(toks@).to_set() =~= Set::<Seq<char>>::empty());
            add_tokens(&mut toks, s.name.as_str(), &self.aliases);
            add_phrases(&mut toks, &s.aliases, &self.aliases);
            assert(strs(toks@).to_set() =~= skill_tokens(s@, al));
            let hit = any_shared(&toks, &req);
            proof {
                assert(ss[i as int] == s@);
                assert(ss.take(i + 1).drop_last() =~= ss.take(i as int));
                if hit {
                    let t = choose|t: Seq<char>| strs(toks@).contains(t) && strs(req@).contains(t);
                    assert(skill_tokens(s@, al).contains(t) && rq.contains(t));
                } else {
                    assert forall|t: Seq<char>| !(skill_tokens(s@, al).contains(t) && rq.contains(t)) by {
                        if skill_tokens(s@, al).contains(t) && rq.contains(t) {
                            assert(strs(toks@).contains(t) && strs(req@).contains(t));
                        }
                    }
                }
            }
            if hit {
                let ghost evs = strs(s.evidence_ids@).map_values(|id: Seq<char>| (id, EvidenceKind::Skill));
                let mut j: usize = 0;
                assert(pushed + evs.take(0) =~= pushed);
                while j < s.evidence_ids.len()
                    invariant
                        j <= s.evidence_ids@.len(),
                        evs == strs(s.evidence_ids@).map_values(|id: Seq<char>| (id, EvidenceKind::Skill)),
                        evidence_views(ids@) == dedup_by_id(Seq::empty(), pushed + evs.take(j as int)),
                    decreases s.evidence_ids@.len() - j,
                {
                    let ghost before = pushed + evs.take(j as int);
                    push_evidence(&mut ids, &s.evidence_ids[j], EvidenceKind::Skill);
                    proof {
                        assert((pushed + evs.take(j + 1)).drop_last() =~= before);
                        assert((pushed + evs.take(j + 1)).last() == (s.evidence_ids@[j as int]@, EvidenceKind::Skill));
                    }
                    j += 1;
                }
                proof {
                    assert(evs.take(evs.len() as int) =~= evs);
                    pushed = pushed + evs;
                }
            } else {
                proof {
                    assert(pushed + Seq::<(Seq<char>, EvidenceKind)>::empty() =~= pushed);
                }
            }
            i += 1;
        }
        assert(ss.take(ss.len() as int) =~= ss);
        let ghost skill_part = pushed;

        let ghost es = cv@.experience;
        let mut k: usize = 0;
        assert(es.take(0) =~= Seq::<ExperienceModel>::empty());
        assert(skill_part + experiences_evidence(es.take(0), al, rq) =~= skill_part);
        while k < cv.experience.len()
            invariant
                k <= cv.experience@.len(),
                es == cv@.experience,
                es.len() == cv.experience@.len(),
                al == self.alias_map(),
                strs(req@).to_set() == rq,
                pushed == skill_part + experiences_evidence(es.take(k as int), al, rq),
                evidence_views(ids@) == dedup_by_id(Seq::empty(), pushed),
            decreases cv.experience@.len() - k,
        {
            let e = &cv.experience[k];
            let mut tag_toks: Vec<String> = Vec::new();
            assert(strs(tag_toks@).to_set() =~= Set::<Seq<char>>::empty());
            add_phrases(&mut tag_toks, &e.tags, &self.aliases);
            assert(strs(tag_toks@).to_set() =~= phrases_tokens(e@.tags, al));
            let mut exp_match = any_shared(&tag_toks, &req);
            proof {
                if exp_match {
                    let t = choose|t: Seq<char>| strs(tag_toks@).contains(t) && strs(req@).contains(t);
                    assert(phrases_tokens(e@.tags, al).contains(t));
                } else {
                    assert forall|t: Seq<char>| !(phrases_tokens(e@.tags, al).contains(t) && rq.contains(t)) by {
                        if phrases_tokens(e@.tags, al).contains(t) && rq.contains(t) {
                            assert(strs(tag_toks@).contains(t) && strs(req@).contains(t));
                        }
                    }
                }
            }
            let ghost xs = e@.achievements_tasks;
            let ghost base = pushed;
            let mut j: usize = 0;
            assert(xs.take(0) =~= Seq::<AchievementModel>::empty());
            assert(base + achievements_evidence(xs.take(0), al, rq) =~= base);
            while j < e.achievements_tasks.len()
                invariant
                    j <= e.achievements_tasks@.len(),
                    xs == e@.achievements_tasks,
                    xs.len() == e.achievements_tasks@.len(),
                    al == self.alias_map(),
                    strs(req@).to_set() == rq,
                    pushed == base + achievements_evidence(xs.take(j as int), al, rq),
                    evidence_views(ids@) == dedup_by_id(Seq::empty(), pushed),
                    exp_match == (shares(phrases_tokens(e@.tags, al), rq) || exists|m: int|
                        0 <= m < j && shares(#[trigger] achievement_tokens(xs[m], al), rq)),
                decreases e.achievements_tasks@.len() - j,
            {
                let a = &e.achievements_tasks[j];
                let mut toks: Vec<String> = Vec::new();
                assert(strs(toks@).to_set() =~= Set::<Seq<char>>::empty());
                add_tokens(&mut toks, a.description.as_str(), &self.aliases);
                add_phrases(&mut toks, &a.tags, &self.aliases);
                assert(strs(toks@).to_set() =~= achievement_tokens(a@, al));
                let hit = any_shared(&toks, &req);
                proof {
                    assert(xs[j as int] == a@);
                    assert(xs.take(j + 1).drop_last() =~= xs.take(j as int));
                    if hit {
                        let t = choose|t: Seq<char>| strs(toks@).contains(t) && strs(req@).contains(t);
                        assert(achievement_tokens(a@, al).contains(t) && rq.contains(t));
                    } else {
                        assert forall|t: Seq<char>| !(achievement_tokens(a@, al).contains(t) && rq.contains(t)) by {
                            if achievement_tokens(a@, al).contains(t) && rq.contains(t) {
                                assert(strs(toks@).contains(t) && strs(req@).contains(t));
                            }
                        }
                    }
                }
                if hit {
                    let ghost before = pushed;
                    push_evidence(&mut ids, &a.id, EvidenceKind::Achievement);
                    proof {
                        pushed = pushed.push((a@.id, EvidenceKind::Achievement));
                        assert(pushed.drop_last() =~= before);
                        assert(base + achievements_evidence(xs.take(j + 1), al, rq) =~= pushed);
                    }
                    exp_match = true;
                } else {
                    assert(base + achievements_evidence(xs.take(j + 1), al, rq) =~= pushed);
                }
                proof {
                    if hit {
                        assert(shares(achievement_tokens(xs[j as int], al), rq));
                    }
                }
                j += 1;
            }
            proof {
                assert(xs.take(xs.len() as int) =~= xs);
                assert(es[k as int] == e@);
                assert(es.take(k + 1).drop_last() =~= es.take(k as int));
            }
            if exp_match {
                let ghost before = pushed;
                push_evidence(&mut ids, &e.id, EvidenceKind::Experience);
                proof {
                    pushed = pushed.push((e@.id, EvidenceKind::Experience));
                    assert(pushed.drop_last() =~= before);
                    assert(experience_hit(e@, al, rq));
                    assert(skill_part + experiences_evidence(es.take(k + 1), al, rq) =~= pushed);
                }
            } else {
                proof {
                    assert(!experience_hit(e@, al, rq));
                    assert(skill_part + experiences_evidence(es.take(k + 1), al, rq) =~= pushed);
                }
            }
            k += 1;
        }
        proof {
            assert(es.take(es.len() as int) =~= es);
            assert(pushed == skills_evidence(ss, al, rq) + experiences_evidence(es, al, rq));
        }
        sort_evidence(ids)
    }
}

// ── helpers ──────────────────────────────────────────────────────────────────────

/// Appends `(id, kind)` unless an entry with this id is already present.
fn push_evidence(ids: &mut Vec<EvidenceId>, id: &String, kind: EvidenceKind)
    ensures
        evidence_views(final(ids)@) == if exists|k: int|
            0 <= k < evidence_views(old(ids)@).len() && #[trigger] evidence_views(old(ids)@)[k].0 == id@ {
            evidence_views(old(ids)@)
        } else {
            evidence_views(old(ids)@).push((id@, kind))
        },
{
    let ghost before = evidence_views(ids@);
    let mut i: usize = 0;
    while i < ids.len()
        invariant
            i <= ids@.len(),
            evidence_views(ids@) == before,
            forall|k: int| 0 <= k < i ==> #[trigger] before[k].0 != id@,
        decreases ids@.len() - i,
    {
        if ids[i].id == *id {
            assert(before[i as int].0 == id@);
            return;
        }
        i += 1;
    }
    ids.push(EvidenceId { id: id.clone(), kind });
    assert(evidence_views(ids@) =~= before.push((id@, kind)));
}

/// The evidence ids reordered by ascending id.
fn sort_evidence(ids: Vec<EvidenceId>) -> (r: Vec<EvidenceId>)
    ensures
        evidence_views(r@) == sorted_by_id(evidence_views(ids@)),
{
    let ghost v = evidence_views(ids@);
    let mut keys: Vec<SortKey> = Vec::new();
    let mut i: usize = 0;
    while i < ids.len()
        invariant
            i <= ids@.len(),
            v == evidence_views(ids@),
            key_views(keys@) == evidence_keys(v).take(i as int),
        decreases ids@.len() - i,
    {
        let ghost pre = key_views(keys@);
        keys.push(SortKey { rank: Vec::new(), id: chars_of(ids[i].id.as_str()) });
        assert(key_views(keys@) =~= pre.push((Seq::<i64>::empty(), ids@[i as int].id@)));
        assert(evidence_keys(v).take(i + 1) =~= evidence_keys(v).take(i as int).push(evidence_keys(v)[i as int]));
        i += 1;
    }
    assert(evidence_keys(v).take(v.len() as int) =~= evidence_keys(v));
    let order = sort_indices(&keys);
    let ghost perm = sorted_indices(evidence_keys(v), v.len());
    let mut out: Vec<EvidenceId> = Vec::new();
    let mut j: usize = 0;
    while j < order.len()
        invariant
            j <= order@.len(),
            order@.len() == ids@.len(),
            v == evidence_views(ids@),
            order@.map_values(|x: usize| x as nat) == perm,
            forall|k: int| 0 <= k < order@.len() ==> #[trigger] order@[k] < ids@.len(),
            evidence_views(out@) == perm.map_values(|x: nat| v[x as int]).take(j as int),
        decreases order@.len() - j,
    {
        let idx = order[j];
        let ghost pre = evidence_views(out@);
        out.push(EvidenceId { id: ids[idx].id.clone(), kind: ids[idx].kind });
        proof {
            assert(perm[j as int] == idx as nat);
            assert(evidence_views(out@) =~= pre.push(v[idx as int]));
            assert(perm.map_values(|x: nat| v[x as int]).take(j + 1) =~= perm.map_values(|x: nat| v[x as int]).take(
                j as int,
            ).push(v[idx as int]));
        }
        j += 1;
    }
    assert(perm.map_values(|x: nat| v[x as int]).take(perm.len() as int) =~= perm.map_values(|x: nat| v[x as int]));
    out
}

/// The models of a sequence of skill references.
pub open spec fn refs_model(v: Seq<&Skill>) -> Seq<SkillModel> {
    v.map_values(|s: &Skill| s@)
}

fn extend_refs<'a>(out: &mut Vec<&'a Skill>, list: &'a Vec<Skill>)
    ensures
        refs_model(final(out)@) == refs_model(old(out)@) + crate::types::skills_model(list@),
{
    let ghost base = refs_model(out@);
    let mut i: usize = 0;
    while i < list.len()
        invariant
            i <= list@.len(),
            refs_model(out@) == base + crate::types::skills_model(list@).take(i as int),
        decreases list@.len() - i,
    {
        let ghost pre = refs_model(out@);
        out.push(&list[i]);
        assert(refs_model(out@) =~= pre.push(list@[i as int]@));
        assert(crate::types::skills_model(list@).take(i + 1) =~= crate::types::skills_model(list@).take(i as int).push(
            list@[i as int]@,
        ));
        i += 1;
    }
    assert(crate::types::skills_model(list@).take(list@.len() as int) =~= crate::types::skills_model(list@));
}

/// References to every skill of the four lists, in list order.
fn skill_refs(cv: &MasterCv) -> (r: Vec<&Skill>)
    ensures
        refs_model(r@) == skill_models(cv@),
{
    let mut out: Vec<&Skill> = Vec::new();
    assert(refs_model(out@) =~= Seq::<SkillModel>::empty());
    extend_refs(&mut out, &cv.programming_languages);
    extend_refs(&mut out, &cv.skills);
    extend_refs(&mut out, &cv.tools_technologies);
    extend_refs(&mut out, &cv.as_a_services);
    assert(Seq::<SkillModel>::empty() + cv@.programming_languages =~= cv@.programming_languages);
    out
}

/// Inserts the alias entries of one skill: each token of each declared alias maps to
/// the lowercased skill name.
fn add_skill_aliases(aliases: &mut AliasMap, s: &Skill)
    ensures
        final(aliases)@ == apply_entries(old(aliases)@, alias_entries_from(s@.aliases, lowercase_of(s@.name))),
{
    let target = to_lowercase(s.name.as_str());
    let ghost base = aliases@;
    let ghost als = s@.aliases;
    let mut i: usize = 0;
    assert(als.take(0) =~= Seq::<Seq<char>>::empty());
    while i < s.aliases.len()
        invariant
            i <= s.aliases@.len(),
            als == s@.aliases,
            als.len() == s.aliases@.len(),
            target@ == lowercase_of(s@.name),
            aliases@ == apply_entries(base, alias_entries_from(als.take(i as int), target@)),
        decreases s.aliases@.len() - i,
    {
        let toks = tokenize(s.aliases[i].as_str());
        let ghost ts = tokenize_spec(als[i as int]);
        let ghost mid = aliases@;
        let mut j: usize = 0;
        assert(ts.take(0).map_values(|t: Seq<char>| (t, target@)) =~= Seq::<(Seq<char>, Seq<char>)>::empty());
        while j < toks.len()
            invariant
                j <= toks@.len(),
                strs(toks@) == ts,
                target@ == lowercase_of(s@.name),
                aliases@ == apply_entries(mid, ts.take(j as int).map_values(|t: Seq<char>| (t, target@))),
            decreases toks@.len() - j,
        {
            aliases.insert(toks[j].clone(), target.clone());
            proof {
                let es = ts.take(j + 1).map_values(|t: Seq<char>| (t, target@));
                assert(es.drop_last() =~= ts.take(j as int).map_values(|t: Seq<char>| (t, target@)));
                assert(es.last() == (toks@[j as int]@, target@));
            }
            j += 1;
        }
        proof {
            assert(ts.take(ts.len() as int) =~= ts);
            assert(als.take(i + 1).drop_last() =~= als.take(i as int));
            assert(als.take(i + 1).last() == als[i as int]);
            lemma_apply_entries_append(
                base,
                alias_entries_from(als.take(i as int), target@),
                ts.map_values(|t: Seq<char>| (t, target@)),
            );
        }
        i += 1;
    }
    assert(als.take(als.len() as int) =~= als);
}

/// Adds the tokens of `phrase` to the set held in `dest`.
pub(crate) fn add_tokens(dest: &mut Vec<String>, phrase: &str, aliases: &AliasMap)
    ensures
        strs(final(dest)@).to_set() == strs(old(dest)@).to_set() + tok_set(phrase@, aliases@),
{
    let ns = normalized_set(phrase, aliases);
    let ghost base = strs(dest@).to_set();
    let ghost n = strs(ns@);
    let mut i: usize = 0;
    while i < ns.len()
        invariant
            i <= ns@.len(),
            n == strs(ns@),
            strs(dest@).to_set() == base + n.take(i as int).to_set(),
        decreases ns@.len() - i,
    {
        let ghost pre = strs(dest@);
        push_unique_string(dest, ns[i].clone());
        proof {
            assert(n.take(i + 1) =~= n.take(i as int).push(n[i as int]));
            n.take(i as int).lemma_push_to_set_commute(n[i as int]);
            assert(ns@[i as int]@ == n[i as int]);
            if pre.contains(n[i as int]) {
                assert(pre.to_set().contains(n[i as int]));
            } else {
                pre.lemma_push_to_set_commute(n[i as int]);
            }
            assert(strs(dest@).to_set() =~= base + n.take(i + 1).to_set());
        }
        i += 1;
    }
    assert(n.take(n.len() as int) =~= n);
    assert(tok_set(phrase@, aliases@) == n.to_set());
}

/// Adds the tokens of every phrase of `phrases` to the set held in `dest`.
pub(crate) fn add_phrases(dest: &mut Vec<String>, phrases: &Vec<String>, aliases: &AliasMap)
    ensures
        strs(final(dest)@).to_set() == strs(old(dest)@).to_set() + phrases_tokens(strs(phrases@), aliases@),
{
    let ghost base = strs(dest@).to_set();
    let ghost ps = strs(phrases@);
    let mut i: usize = 0;
    assert(ps.take(0) =~= Seq::<Seq<char>>::empty());
    assert(strs(dest@).to_set() =~= base + phrases_tokens(ps.take(0), aliases@));
    while i < phrases.len()
        invariant
            i <= phrases@.len(),
            ps == strs(phrases@),
            strs(dest@).to_set() == base + phrases_tokens(ps.take(i as int), aliases@),
        decreases phrases@.len() - i,
    {
        add_tokens(dest, phrases[i].as_str(), aliases);
        proof {
            assert(ps.take(i + 1).drop_last() =~= ps.take(i as int));
            assert(ps.take(i + 1).last() == phrases@[i as int]@);
            assert(strs(dest@).to_set() =~= base + phrases_tokens(ps.take(i + 1), aliases@));
        }
        i += 1;
    }
    assert(ps.take(ps.len() as int) =~= ps);
}

/// Whether the two string lists share a member.
pub(crate) fn any_shared(a: &Vec<String>, b: &Vec<String>) -> (r: bool)
    ensures
        r == exists|t: Seq<char>| strs(a@).contains(t) && strs(b@).contains(t),
{
    let mut i: usize = 0;
    while i < a.len()
        invariant
            i <= a@.len(),
            forall|k: int| 0 <= k < i ==> !strs(b@).contains(#[trigger] strs(a@)[k]),
        decreases a@.len() - i,
    {
        if crate::normalize::contains_string(b, &a[i]) {
            assert(strs(a@)[i as int] == a@[i as int]@);
            return true;
        }
        i += 1;
    }
    assert forall|t: Seq<char>| !(strs(a@).contains(t) && strs(b@).contains(t)) by {
        if strs(a@).contains(t) {
            let k = choose|k: int| 0 <= k < strs(a@).len() && strs(a@)[k] == t;
        }
    }
    false
}

// ── laws ─────────────────────────────────────────────────────────────────────────

proof fn lemma_phrases_tokens_contain(ps: Seq<Seq<char>>, al: Map<Seq<char>, Seq<char>>, j: int)
    requires
        0 <= j < ps.len(),
    ensures
        tok_set(ps[j], al).subset_of(phrases_tokens(ps, al)),
    decreases ps.len(),
{
    if j < ps.len() - 1 {
        lemma_phrases_tokens_contain(ps.drop_last(), al, j);
        assert(ps.drop_last()[j] == ps[j]);
    }
}

proof fn lemma_skill_names_tokens_contain(ss: Seq<SkillModel>, al: Map<Seq<char>, Seq<char>>, j: int)
    requires
        0 <= j < ss.len(),
    ensures
        tok_set(ss[j].name, al).subset_of(skill_names_tokens(ss, al)),
    decreases ss.len(),
{
    if j < ss.len() - 1 {
        lemma_skill_names_tokens_contain(ss.drop_last(), al, j);
        assert(ss.drop_last()[j] == ss[j]);
    }
}

proof fn lemma_achievements_tokens_contain(xs: Seq<AchievementModel>, al: Map<Seq<char>, Seq<char>>, k: int)
    requires
        0 <= k < xs.len(),
    ensures
        achievement_tokens(xs[k], al).subset_of(achievements_tokens(xs, al)),
    decreases xs.len(),
{
    if k < xs.len() - 1 {
        lemma_achievements_tokens_contain(xs.drop_last(), al, k);
        assert(xs.drop_last()[k] == xs[k]);
    }
}

proof fn lemma_experiences_tokens_contain(es: Seq<ExperienceModel>, al: Map<Seq<char>, Seq<char>>, i: int)
    requires
        0 <= i < es.len(),
    ensures
        experience_tokens(es[i], al).subset_of(experiences_tokens(es, al)),
    decreases es.len(),
{
    if i < es.len() - 1 {
        lemma_experiences_tokens_contain(es.drop_last(), al, i);
        assert(es.drop_last()[i] == es[i]);
    }
}

/// `p` is one of the CV's own phrases: a skill name, an experience tag, or an
/// achievement's description or tag.
pub open spec fn cv_phrase(cv: MasterCvModel, p: Seq<char>) -> bool {
    ||| exists|i: int| 0 <= i < skill_models(cv).len() && #[trigger] skill_models(cv)[i].name == p
    ||| exists|i: int, j: int|
        0 <= i < cv.experience.len() && 0 <= j < cv.experience[i].tags.len() && #[trigger] cv.experience[i].tags[j] == p
    ||| exists|i: int, k: int|
        0 <= i < cv.experience.len() && 0 <= k < cv.experience[i].achievements_tasks.len()
            && #[trigger] cv.experience[i].achievements_tasks[k].description == p
    ||| exists|i: int, k: int, j: int|
        0 <= i < cv.experience.len() && 0 <= k < cv.experience[i].achievements_tasks.len() && 0 <= j
            < cv.experience[i].achievements_tasks[k].tags.len() && #[trigger] cv.experience[i].achievements_tasks[k].tags[j]
            == p
}

/// Every phrase a CV states of itself, once it has a token, is matched by the
/// candidate built from that CV.
pub proof fn law_own_phrases_match(cv: MasterCvModel, p: Seq<char>)
    requires
        cv_phrase(cv, p),
        exists|t: Seq<char>| tok_set(p, candidate_aliases(cv)).contains(t),
    ensures
        matches_spec(candidate_tokens(cv), candidate_aliases(cv), p),
{
    let al = candidate_aliases(cv);
    let ss = skill_models(cv);
    let es = cv.experience;
    if exists|i: int| 0 <= i < ss.len() && #[trigger] ss[i].name == p {
        let i = choose|i: int| 0 <= i < ss.len() && #[trigger] ss[i].name == p;
        lemma_skill_names_tokens_contain(ss, al, i);
    } else if exists|i: int, j: int| 0 <= i < es.len() && 0 <= j < es[i].tags.len() && #[trigger] es[i].tags[j] == p {
        let (i, j) = choose|i: int, j: int| 0 <= i < es.len() && 0 <= j < es[i].tags.len() && #[trigger] es[i].tags[j] == p;
        lemma_phrases_tokens_contain(es[i].tags, al, j);
        lemma_experiences_tokens_contain(es, al, i);
    } else if exists|i: int, k: int|
        0 <= i < es.len() && 0 <= k < es[i].achievements_tasks.len() && #[trigger] es[i].achievements_tasks[k].description
            == p {
        let (i, k) = choose|i: int, k: int|
            0 <= i < es.len() && 0 <= k < es[i].achievements_tasks.len()
                && #[trigger] es[i].achievements_tasks[k].description == p;
        lemma_achievements_tokens_contain(es[i].achievements_tasks, al, k);
        lemma_experiences_tokens_contain(es, al, i);
    } else {
        let (i, k, j) = choose|i: int, k: int, j: int|
            0 <= i < es.len() && 0 <= k < es[i].achievements_tasks.len() && 0 <= j
                < es[i].achievements_tasks[k].tags.len() && #[trigger] es[i].achievements_tasks[k].tags[j] == p;
        lemma_phrases_tokens_contain(es[i].achievements_tasks[k].tags, al, j);
        lemma_achievements_tokens_contain(es[i].achievements_tasks, al, k);
        lemma_experiences_tokens_contain(es, al, i);
    }
    let t = choose|t: Seq<char>| tok_set(p, al).contains(t);
    assert(candidate_tokens(cv).contains(t));
}

/// An evidence item names a record of the CV of its kind: a declared evidence id of a
/// skill, the id of an achievement, or the id of an experience.
pub open spec fn evidence_from(cv: MasterCvModel, e: (Seq<char>, EvidenceKind)) -> bool {
    match e.1 {
        EvidenceKind::Skill => exists|i: int|
            0 <= i < skill_models(cv).len() && (#[trigger] skill_models(cv)[i]).evidence_ids.contains(e.0),
        EvidenceKind::Experience => exists|i: int| 0 <= i < cv.experience.len() && (#[trigger] cv.experience[i]).id == e.0,
        EvidenceKind::Achievement => exists|i: int, k: int|
            0 <= i < cv.experience.len() && 0 <= k < cv.experience[i].achievements_tasks.len()
                && (#[trigger] cv.experience[i].achievements_tasks[k]).id == e.0,
    }
}

/// No two items carry the same id.
pub open spec fn ids_distinct(v: Seq<(Seq<char>, EvidenceKind)>) -> bool {
    forall|a: int, b: int| 0 <= a < b < v.len() ==> (#[trigger] v[a]).0 != (#[trigger] v[b]).0
}

proof fn lemma_skills_evidence_members(ss: Seq<SkillModel>, al: Map<Seq<char>, Seq<char>>, req: Set<Seq<char>>)
    ensures
        forall|j: int| 0 <= j < skills_evidence(ss, al, req).len() ==> (#[trigger] skills_evidence(ss, al, req)[j]).1
            == EvidenceKind::Skill && exists|i: int| 0 <= i < ss.len() && (#[trigger] ss[i]).evidence_ids.contains(
            skills_evidence(ss, al, req)[j].0,
        ),
    decreases ss.len(),
{
    if ss.len() > 0 {
        let pre = skills_evidence(ss.drop_last(), al, req);
        lemma_skills_evidence_members(ss.drop_last(), al, req);
        let v = skills_evidence(ss, al, req);
        assert forall|j: int| 0 <= j < v.len() implies (#[trigger] v[j]).1 == EvidenceKind::Skill && exists|i: int|
            0 <= i < ss.len() && (#[trigger] ss[i]).evidence_ids.contains(v[j].0) by {
            if j < pre.len() {
                assert(v[j] == pre[j]);
                let i = choose|i: int| 0 <= i < ss.drop_last().len() && (#[trigger] ss.drop_last()[i]).evidence_ids.contains(
                    pre[j].0,
                );
                assert(ss[i] == ss.drop_last()[i]);
            } else {
                let ids = ss.last().evidence_ids;
                assert(v[j] == (ids[j - pre.len()], EvidenceKind::Skill));
                assert(ids.contains(ids[j - pre.len()]));
                assert(ss[ss.len() - 1] == ss.last());
            }
        }
    }
}

proof fn lemma_achievements_evidence_members(xs: Seq<AchievementModel>, al: Map<Seq<char>, Seq<char>>, req: Set<Seq<char>>)
    ensures
        forall|j: int| 0 <= j < achievements_evidence(xs, al, req).len() ==> (#[trigger] achievements_evidence(
            xs,
            al,
            req,
        )[j]).1 == EvidenceKind::Achievement && exists|k: int| 0 <= k < xs.len() && (#[trigger] xs[k]).id
            == achievements_evidence(xs, al, req)[j].0,
    decreases xs.len(),
{
    if xs.len() > 0 {
        let pre = achievements_evidence(xs.drop_last(), al, req);
        lemma_achievements_evidence_members(xs.drop_last(), al, req);
        let v = achievements_evidence(xs, al, req);
        assert forall|j: int| 0 <= j < v.len() implies (#[trigger] v[j]).1 == EvidenceKind::Achievement && exists|k: int|
            0 <= k < xs.len() && (#[trigger] xs[k]).id == v[j].0 by {
            if j < pre.len() {
                assert(v[j] == pre[j]);
                let k = choose|k: int| 0 <= k < xs.drop_last().len() && (#[trigger] xs.drop_last()[k]).id == pre[j].0;
                assert(xs[k] == xs.drop_last()[k]);
            } else {
                assert(xs[xs.len() - 1] == xs.last());
            }
        }
    }
}

proof fn lemma_experiences_evidence_members(es: Seq<ExperienceModel>, al: Map<Seq<char>, Seq<char>>, req: Set<Seq<char>>)
    ensures
        forall|j: int| 0 <= j < experiences_evidence(es, al, req).len() ==> {
            let e = #[trigger] experiences_evidence(es, al, req)[j];
            ||| e.1 == EvidenceKind::Experience && exists|i: int| 0 <= i < es.len() && (#[trigger] es[i]).id == e.0
            ||| e.1 == EvidenceKind::Achievement && exists|i: int, k: int|
                0 <= i < es.len() && 0 <= k < es[i].achievements_tasks.len() && (#[trigger] es[i].achievements_tasks[k]).id
                    == e.0
        },
    decreases es.len(),
{
    if es.len() > 0 {
        let pre = experiences_evidence(es.drop_last(), al, req);
        let mid = achievements_evidence(es.last().achievements_tasks, al, req);
        lemma_experiences_evidence_members(es.drop_last(), al, req);
        lemma_achievements_evidence_members(es.last().achievements_tasks, al, req);
        let v = experiences_evidence(es, al, req);
        let n = es.len() - 1;
        assert(es[n] == es.last());
        assert forall|j: int| 0 <= j < v.len() implies {
            let e = #[trigger] v[j];
            ||| e.1 == EvidenceKind::Experience && exists|i: int| 0 <= i < es.len() && (#[trigger] es[i]).id == e.0
            ||| e.1 == EvidenceKind::Achievement && exists|i: int, k: int|
                0 <= i < es.len() && 0 <= k < es[i].achievements_tasks.len() && (#[trigger] es[i].achievements_tasks[k]).id
                    == e.0
        } by {
            if j < pre.len() {
                assert(v[j] == pre[j]);
                if pre[j].1 == EvidenceKind::Experience {
                    let i = choose|i: int| 0 <= i < es.drop_last().len() && (#[trigger] es.drop_last()[i]).id == pre[j].0;
                    assert(es[i] == es.drop_last()[i]);
                } else {
                    let (i, k) = choose|i: int, k: int|
                        0 <= i < es.drop_last().len() && 0 <= k < es.drop_last()[i].achievements_tasks.len()
                            && (#[trigger] es.drop_last()[i].achievements_tasks[k]).id == pre[j].0;
                    assert(es[i] == es.drop_last()[i]);
                    assert(es[i].achievements_tasks[k].id == v[j].0);
                }
            } else if j < pre.len() + mid.len() {
                assert(v[j] == mid[j - pre.len()]);
                let k = choose|k: int| 0 <= k < es.last().achievements_tasks.len() && (#[trigger] es.last().achievements_tasks[k]).id
                    == mid[j - pre.len()].0;
                assert(es[n].achievements_tasks[k].id == v[j].0);
            } else {
                assert(v[j] == (es.last().id, EvidenceKind::Experience));
            }
        }
    }
}

proof fn lemma_dedup_by_id(out: Seq<(Seq<char>, EvidenceKind)>, items: Seq<(Seq<char>, EvidenceKind)>)
    requires
        ids_distinct(out),
    ensures
        ids_distinct(dedup_by_id(out, items)),
        forall|j: int| 0 <= j < dedup_by_id(out, items).len() ==> out.contains(#[trigger] dedup_by_id(out, items)[j])
            || items.contains(dedup_by_id(out, items)[j]),
        items.len() == 0 ==> dedup_by_id(out, items) == out,
    decreases items.len(),
{
    if items.len() > 0 {
        let o = dedup_by_id(out, items.drop_last());
        lemma_dedup_by_id(out, items.drop_last());
        let r = dedup_by_id(out, items);
        assert forall|j: int| 0 <= j < r.len() implies out.contains(#[trigger] r[j]) || items.contains(r[j]) by {
            if j < o.len() {
                assert(r[j] == o[j]);
                if items.drop_last().contains(o[j]) {
                    let k = choose|k: int| 0 <= k < items.drop_last().len() && items.drop_last()[k] == o[j];
                    assert(items[k] == o[j]);
                }
            } else {
                assert(r[j] == items.last());
                assert(items[items.len() - 1] == items.last());
            }
        }
    }
}

proof fn lemma_no_skills_evidence(ss: Seq<SkillModel>, al: Map<Seq<char>, Seq<char>>)
    ensures
        skills_evidence(ss, al, Set::empty()).len() == 0,
    decreases ss.len(),
{
    if ss.len() > 0 {
        lemma_no_skills_evidence(ss.drop_last(), al);
        assert(!shares(skill_tokens(ss.last(), al), Set::empty()));
    }
}

proof fn lemma_no_achievements_evidence(xs: Seq<AchievementModel>, al: Map<Seq<char>, Seq<char>>)
    ensures
        achievements_evidence(xs, al, Set::empty()).len() == 0,
    decreases xs.len(),
{
    if xs.len() > 0 {
        lemma_no_achievements_evidence(xs.drop_last(), al);
        assert(!shares(achievement_tokens(xs.last(), al), Set::empty()));
    }
}

proof fn lemma_no_experiences_evidence(es: Seq<ExperienceModel>, al: Map<Seq<char>, Seq<char>>)
    ensures
        experiences_evidence(es, al, Set::empty()).len() == 0,
    decreases es.len(),
{
    if es.len() > 0 {
        lemma_no_experiences_evidence(es.drop_last(), al);
        lemma_no_achievements_evidence(es.last().achievements_tasks, al);
        assert(!shares(phrases_tokens(es.last().tags, al), Set::empty()));
        assert(!experience_hit(es.last(), al, Set::empty()));
    }
}

/// The kinded evidence ids of a requirement come in strictly increasing id order (so
/// each id once), each names a record of the CV of its kind, and a requirement
/// without tokens has none and matches nothing.
pub proof fn law_evidence_ids_ordered_and_kinded(cv: MasterCvModel, al: Map<Seq<char>, Seq<char>>, requirement: Seq<char>)
    ensures
        forall|a: int, b: int|
            0 <= a < b < matching_evidence_spec(cv, al, requirement).len() ==> crate::order::id_order(
                (#[trigger] matching_evidence_spec(cv, al, requirement)[a]).0,
                (#[trigger] matching_evidence_spec(cv, al, requirement)[b]).0,
            ) < 0,
        forall|j: int|
            0 <= j < matching_evidence_spec(cv, al, requirement).len() ==> evidence_from(
                cv,
                #[trigger] matching_evidence_spec(cv, al, requirement)[j],
            ),
        tok_set(requirement, al) == Set::<Seq<char>>::empty() ==> matching_evidence_spec(cv, al, requirement).len() == 0
            && !matches_spec(candidate_tokens(cv), al, requirement),
{
    let req = tok_set(requirement, al);
    let ss = skill_models(cv);
    let items = skills_evidence(ss, al, req) + experiences_evidence(cv.experience, al, req);
    let c = collected_evidence(cv, al, req);
    let keys = evidence_keys(c);
    let n = c.len();
    let idx = sorted_indices(keys, n);
    let v = matching_evidence_spec(cv, al, requirement);
    lemma_skills_evidence_members(ss, al, req);
    lemma_experiences_evidence_members(cv.experience, al, req);
    lemma_dedup_by_id(Seq::empty(), items);
    crate::order::lemma_sorted_indices_perm(keys, n);
    assert(crate::order::uniform_ranks(keys));
    crate::order::law_sorted_indices_ordered(keys, n);
    assert forall|j: int| 0 <= j < v.len() implies idx[j] < n && v[j] == c[idx[j] as int] && evidence_from(
        cv,
        #[trigger] v[j],
    ) by {
        assert(idx.contains(idx[j]));
        let e = c[idx[j] as int];
        assert(items.contains(e));
        let k = choose|k: int| 0 <= k < items.len() && items[k] == e;
        let sl = skills_evidence(ss, al, req).len();
        if k < sl {
            assert(e == skills_evidence(ss, al, req)[k]);
        } else {
            assert(e == experiences_evidence(cv.experience, al, req)[k - sl]);
        }
    }
    assert forall|a: int, b: int| 0 <= a < b < v.len() implies crate::order::id_order(
        (#[trigger] v[a]).0,
        (#[trigger] v[b]).0,
    ) < 0 by {
        assert(idx.contains(idx[a]) && idx.contains(idx[b]));
        assert(idx[a] != idx[b]);
        assert(!crate::order::key_before(keys[idx[b] as int], keys[idx[a] as int]));
        assert(c[idx[a] as int].0 != c[idx[b] as int].0) by {
            if idx[a] < idx[b] {
                assert(c[idx[a] as int].0 != c[idx[b] as int].0);
            } else {
                assert(c[idx[b] as int].0 != c[idx[a] as int].0);
            }
        }
        crate::order::lemma_id_antisym(v[a].0, v[b].0);
        if crate::order::id_order(v[a].0, v[b].0) == 0 {
            crate::order::lemma_id_zero(v[a].0, v[b].0);
        }
    }
    if req == Set::<Seq<char>>::empty() {
        lemma_no_skills_evidence(ss, al);
        lemma_no_experiences_evidence(cv.experience, al);
        assert(items.len() == 0);
    }
}

/// Matching an ASCII requirement ignores ASCII case: two ASCII requirements that agree
/// once `A`–`Z` are lowered (such as a text and its ASCII upper- or lowercase) are
/// matched alike, against any tokens and aliases.
pub proof fn law_ascii_case_ignored(
    tokens: Set<Seq<char>>,
    al: Map<Seq<char>, Seq<char>>,
    a: Seq<char>,
    b: Seq<char>,
)
    requires
        all_ascii(a),
        all_ascii(b),
        ascii_lowered(a) == ascii_lowered(b),
    ensures
        ascii_matches_spec(tokens, al, a) == ascii_matches_spec(tokens, al, b),
{
    lemma_ascii_tokenize_lowered(a);
    lemma_ascii_tokenize_lowered(b);
}

} // verus!
