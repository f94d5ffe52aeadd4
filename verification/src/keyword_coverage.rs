//! The keyword-coverage panel over the tailored view.
//!
//! Each requirement (must-have, then nice-to-have) is found when it has surfaced
//! evidence in the tailored view, missing otherwise. Evidence comes from the match
//! primitive run over the view's CV: an achievement id counts only when the view kept
//! that bullet; skill and experience ids always render, so they always count. The ids
//! keep the match primitive's order (deduplicated, sorted by id).

use crate::job::NormalizedJob;
use crate::matching::{candidate_aliases, matching_evidence_spec, Candidate, EvidenceKind};
use crate::tailor::TailoredView;
use crate::text::strs;
use crate::types::MasterCvModel;
use vstd::prelude::*;

verus! {

/// Whether a keyword is a hard requirement or a nice-to-have.
#[derive(Debug, Clone, Copy, PartialEq, Eq, Structural)]
pub enum KeywordClass {
    MustHave,
    NiceToHave,
}

/// One keyword's coverage over the tailored view.
#[derive(Debug, Clone, PartialEq)]
pub struct KeywordHit {
    pub keyword: String,
    pub class: KeywordClass,
    /// Surfaced evidence ids; empty for a missing keyword.
    pub evidence_ids: Vec<String>,
}

/// Found and missing keywords.
#[derive(Debug, Clone, PartialEq)]
pub struct KeywordCoverage {
    pub found: Vec<KeywordHit>,
    pub missing: Vec<KeywordHit>,
}

pub open spec fn hit_model(h: KeywordHit) -> (Seq<char>, KeywordClass, Seq<Seq<char>>) {
    (h.keyword@, h.class, strs(h.evidence_ids@))
}

pub open spec fn hits_model(v: Seq<KeywordHit>) -> Seq<(Seq<char>, KeywordClass, Seq<Seq<char>>)> {
    v.map_values(|h: KeywordHit| hit_model(h))
}

/// The evidence ids of `ev` that the view surfaces, in order.
pub open spec fn surfaced(ev: Seq<(Seq<char>, EvidenceKind)>, selected: Seq<Seq<char>>) -> Seq<Seq<char>>
    decreases ev.len(),
{
    if ev.len() == 0 {
        Seq::empty()
    } else {
        surfaced(ev.drop_last(), selected) + if ev.last().1 != EvidenceKind::Achievement || selected.contains(
            ev.last().0,
        ) {
            seq![ev.last().0]
        } else {
            Seq::empty()
        }
    }
}

/// The surfaced evidence of a keyword in a tailored CV with these selected ids.
pub open spec fn surfaced_spec(cv: MasterCvModel, selected: Seq<Seq<char>>, keyword: Seq<char>) -> Seq<Seq<char>> {
    surfaced(matching_evidence_spec(cv, candidate_aliases(cv), keyword), selected)
}

/// The hits of the keywords of one class, split into (found, missing), in order.
pub open spec fn classify(cv: MasterCvModel, selected: Seq<Seq<char>>, kws: Seq<Seq<char>>, class: KeywordClass) -> (
    Seq<(Seq<char>, KeywordClass, Seq<Seq<char>>)>,
    Seq<(Seq<char>, KeywordClass, Seq<Seq<char>>)>,
)
    decreases kws.len(),
{
    if kws.len() == 0 {
        (Seq::empty(), Seq::empty())
    } else {
        let (f, m) = classify(cv, selected, kws.drop_last(), class);
        let ids = surfaced_spec(cv, selected, kws.last());
        if ids.len() == 0 {
            (f, m.push((kws.last(), class, ids)))
        } else {
            (f.push((kws.last(), class, ids)), m)
        }
    }
}

/// The keyword-coverage report: must-haves first, then nice-to-haves.
pub open spec fn keyword_coverage_spec(cv: MasterCvModel, selected: Seq<Seq<char>>, must: Seq<Seq<char>>, nice: Seq<Seq<char>>) -> (
    Seq<(Seq<char>, KeywordClass, Seq<Seq<char>>)>,
    Seq<(Seq<char>, KeywordClass, Seq<Seq<char>>)>,
) {
    let (f1, m1) = classify(cv, selected, must, KeywordClass::MustHave);
    let (f2, m2) = classify(cv, selected, nice, KeywordClass::NiceToHave);
    (f1 + f2, m1 + m2)
}

fn surfaced_evidence(view: &TailoredView, candidate: &Candidate, keyword: &str) -> (r: Vec<String>)
    requires
        candidate.alias_map() == candidate_aliases(view.cv@),
    ensures
        strs(r@) == surfaced_spec(view.cv@, strs(view.selected_ids@), keyword@),
{
    let kinded = candidate.matching_evidence_ids_kinded(&view.cv, keyword);
    let ghost ev = crate::matching::evidence_views(kinded@);
    let ghost sel = strs(view.selected_ids@);
    let mut out: Vec<String> = Vec::new();
    let mut i: usize = 0;
    assert(ev.take(0) =~= Seq::<(Seq<char>, EvidenceKind)>::empty());
    while i < kinded.len()
        invariant
            i <= kinded@.len(),
            ev == crate::matching::evidence_views(kinded@),
            sel == strs(view.selected_ids@),
            strs(out@) == surfaced(ev.take(i as int), sel),
        decreases kinded@.len() - i,
    {
        assert(ev.take(i + 1).drop_last() =~= ev.take(i as int));
        assert(ev.take(i + 1).last() == kinded@[i as int]@);
        let e = &kinded[i];
        let keep = match e.kind {
            EvidenceKind::Achievement => crate::normalize::contains_string(&view.selected_ids, &e.id),
            _ => true,
        };
        let ghost pre = strs(out@);
        if keep {
            out.push(e.id.clone());
            assert(strs(out@) =~= pre + seq![e.id@]);
        } else {
            assert(pre + Seq::<Seq<char>>::empty() =~= pre);
        }
        i += 1;
    }
    assert(ev.take(ev.len() as int) =~= ev);
    out
}

fn classify_into(
    view: &TailoredView,
    candidate: &Candidate,
    keywords: &Vec<String>,
    class: KeywordClass,
    found: &mut Vec<KeywordHit>,
    missing: &mut Vec<KeywordHit>,
)
    requires
        candidate.alias_map() == candidate_aliases(view.cv@),
    ensures
        hits_model(final(found)@) == hits_model(old(found)@) + classify(view.cv@, strs(view.selected_ids@), strs(keywords@), class).0,
        hits_model(final(missing)@) == hits_model(old(missing)@) + classify(view.cv@, strs(view.selected_ids@), strs(keywords@), class).1,
{
    let ghost f0 = hits_model(found@);
    let ghost m0 = hits_model(missing@);
    let ghost kws = strs(keywords@);
    let ghost sel = strs(view.selected_ids@);
    let mut i: usize = 0;
    assert(kws.take(0) =~= Seq::<Seq<char>>::empty());
    assert(hits_model(found@) =~= f0 + Seq::<(Seq<char>, KeywordClass, Seq<Seq<char>>)>::empty());
    assert(hits_model(missing@) =~= m0 + Seq::<(Seq<char>, KeywordClass, Seq<Seq<char>>)>::empty());
    while i < keywords.len()
        invariant
            i <= keywords@.len(),
            kws == strs(keywords@),
            sel == strs(view.selected_ids@),
            candidate.alias_map() == candidate_aliases(view.cv@),
            hits_model(found@) == f0 + classify(view.cv@, sel, kws.take(i as int), class).0,
            hits_model(missing@) == m0 + classify(view.cv@, sel, kws.take(i as int), class).1,
        decreases keywords@.len() - i,
    {
        assert(kws.take(i + 1).drop_last() =~= kws.take(i as int));
        assert(kws.take(i + 1).last() == keywords@[i as int]@);
        let kw = &keywords[i];
        let ids = surfaced_evidence(view, candidate, kw.as_str());
        let empty = ids.len() == 0;
        let hit = KeywordHit { keyword: kw.clone(), class, evidence_ids: ids };
        let ghost pf = hits_model(found@);
        let ghost pm = hits_model(missing@);
        if empty {
            missing.push(hit);
            assert(hits_model(missing@) =~= pm.push(hit_model(hit)));
        } else {
            found.push(hit);
            assert(hits_model(found@) =~= pf.push(hit_model(hit)));
        }
        i += 1;
    }
    assert(kws.take(kws.len() as int) =~= kws);
}

/// The keyword-coverage report over a tailored view: read-only and deterministic.
pub fn keyword_coverage(view: &TailoredView, job: &NormalizedJob) -> (r: KeywordCoverage)
    ensures
        (hits_model(r.found@), hits_model(r.missing@)) == keyword_coverage_spec(
            view.cv@,
            strs(view.selected_ids@),
            job.must(),
            job.nice(),
        ),
{
    let candidate = Candidate::from_master(&view.cv);
    let mut found: Vec<KeywordHit> = Vec::new();
    let mut missing: Vec<KeywordHit> = Vec::new();
    assert(hits_model(found@) =~= Seq::<(Seq<char>, KeywordClass, Seq<Seq<char>>)>::empty());
    assert(hits_model(missing@) =~= Seq::<(Seq<char>, KeywordClass, Seq<Seq<char>>)>::empty());
    classify_into(view, &candidate, &job.requirements.must_have, KeywordClass::MustHave, &mut found, &mut missing);
    classify_into(view, &candidate, &job.requirements.nice_to_have, KeywordClass::NiceToHave, &mut found, &mut missing);
    KeywordCoverage { found, missing }
}

proof fn lemma_classify_shape(cv: MasterCvModel, selected: Seq<Seq<char>>, kws: Seq<Seq<char>>, class: KeywordClass)
    ensures
        forall|i: int|
            0 <= i < classify(cv, selected, kws, class).0.len() ==> (#[trigger] classify(cv, selected, kws, class).0[i]).2.len() > 0
                && classify(cv, selected, kws, class).0[i].2 == surfaced_spec(cv, selected, classify(cv, selected, kws, class).0[i].0),
        forall|i: int|
            0 <= i < classify(cv, selected, kws, class).1.len() ==> (#[trigger] classify(cv, selected, kws, class).1[i]).2.len() == 0,
        classify(cv, selected, kws, class).0.len() + classify(cv, selected, kws, class).1.len() == kws.len(),
    decreases kws.len(),
{
    if kws.len() > 0 {
        lemma_classify_shape(cv, selected, kws.drop_last(), class);
    }
}

/// A keyword is found exactly when it has surfaced evidence: every found hit carries
/// its non-empty surfaced evidence, every missing hit none, and every keyword lands in
/// exactly one of the two lists.
pub proof fn law_found_iff_evidence(cv: MasterCvModel, selected: Seq<Seq<char>>, must: Seq<Seq<char>>, nice: Seq<Seq<char>>)
    ensures
        forall|i: int|
            0 <= i < keyword_coverage_spec(cv, selected, must, nice).0.len() ==> (#[trigger] keyword_coverage_spec(
                cv,
                selected,
                must,
                nice,
            ).0[i]).2.len() > 0,
        forall|i: int|
            0 <= i < keyword_coverage_spec(cv, selected, must, nice).1.len() ==> (#[trigger] keyword_coverage_spec(
                cv,
                selected,
                must,
                nice,
            ).1[i]).2.len() == 0,
        keyword_coverage_spec(cv, selected, must, nice).0.len() + keyword_coverage_spec(cv, selected, must, nice).1.len()
            == must.len() + nice.len(),
{
    lemma_classify_shape(cv, selected, must, KeywordClass::MustHave);
    lemma_classify_shape(cv, selected, nice, KeywordClass::NiceToHave);
    let (f1, m1) = classify(cv, selected, must, KeywordClass::MustHave);
    let (f2, m2) = classify(cv, selected, nice, KeywordClass::NiceToHave);
    assert forall|i: int| 0 <= i < (f1 + f2).len() implies (#[trigger] (f1 + f2)[i]).2.len() > 0 by {
        if i < f1.len() {
            assert((f1 + f2)[i] == f1[i]);
        } else {
            assert((f1 + f2)[i] == f2[i - f1.len()]);
        }
    }
    assert forall|i: int| 0 <= i < (m1 + m2).len() implies (#[trigger] (m1 + m2)[i]).2.len() == 0 by {
        if i < m1.len() {
            assert((m1 + m2)[i] == m1[i]);
        } else {
            assert((m1 + m2)[i] == m2[i - m1.len()]);
        }
    }
}

} // verus!
