//! The coverage report and the inputs of the fit score.
//!
//! A bucket's coverage is `matched / total`, with an empty bucket counting as fully
//! covered (1/1). The fit score is `0.6 * must coverage + 0.4 * nice coverage`; the
//! report holds both coverages as exact ratios, from which the score is computed.

use crate::job::NormalizedJob;
use crate::matching::{candidate_aliases, candidate_tokens, matches_spec, matching_evidence_spec, Candidate};
use crate::text::strs;
use crate::types::{MasterCv, MasterCvModel};
use vstd::prelude::*;

verus! {

/// One requirement of a bucket, whether it is covered and by which evidence ids.
#[derive(Debug, Clone, PartialEq)]
pub struct RequirementCoverage {
    pub requirement: String,
    pub covered: bool,
    pub evidence_ids: Vec<String>,
}

/// An exact ratio `num / den` (`den > 0`).
#[derive(Debug, Clone, Copy, PartialEq, Eq)]
pub struct Ratio {
    pub num: u64,
    pub den: u64,
}

/// The coverage report of a CV against a job.
#[derive(Debug, Clone, PartialEq)]
pub struct CoverageReport {
    pub must_have: Vec<RequirementCoverage>,
    pub nice_to_have: Vec<RequirementCoverage>,
    pub must_have_coverage: Ratio,
    pub nice_have_coverage: Ratio,
}

/// The model of a row: requirement, covered, evidence ids.
pub open spec fn row_model(r: RequirementCoverage) -> (Seq<char>, bool, Seq<Seq<char>>) {
    (r.requirement@, r.covered, strs(r.evidence_ids@))
}

/// The row a requirement gets against a CV.
pub open spec fn row_spec(cv: MasterCvModel, req: Seq<char>) -> (Seq<char>, bool, Seq<Seq<char>>) {
    let al = candidate_aliases(cv);
    (
        req,
        matches_spec(candidate_tokens(cv), al, req),
        matching_evidence_spec(cv, al, req).map_values(|e: (Seq<char>, crate::matching::EvidenceKind)| e.0),
    )
}

/// The number of covered rows.
pub open spec fn covered_count(rows: Seq<RequirementCoverage>) -> nat
    decreases rows.len(),
{
    if rows.len() == 0 {
        0
    } else {
        covered_count(rows.drop_last()) + if rows.last().covered {
            1nat
        } else {
            0nat
        }
    }
}

/// A bucket's coverage: covered over total, 1/1 for an empty bucket.
pub open spec fn bucket_coverage(rows: Seq<RequirementCoverage>) -> Ratio {
    if rows.len() == 0 {
        Ratio { num: 1, den: 1 }
    } else {
        Ratio { num: covered_count(rows) as u64, den: rows.len() as u64 }
    }
}

proof fn lemma_covered_count_bound(rows: Seq<RequirementCoverage>)
    ensures
        covered_count(rows) <= rows.len(),
    decreases rows.len(),
{
    if rows.len() > 0 {
        lemma_covered_count_bound(rows.drop_last());
    }
}

fn cover_bucket(cv: &MasterCv, cand: &Candidate, reqs: &Vec<String>) -> (r: (Vec<RequirementCoverage>, Ratio))
    requires
        cand.alias_map() == candidate_aliases(cv@),
        cand.token_set() == candidate_tokens(cv@),
    ensures
        r.0@.len() == reqs@.len(),
        forall|k: int| 0 <= k < reqs@.len() ==> row_model(#[trigger] r.0@[k]) == row_spec(cv@, reqs@[k]@),
        r.1 == bucket_coverage(r.0@),
{
    let mut rows: Vec<RequirementCoverage> = Vec::new();
    let mut matched: u64 = 0;
    let mut i: usize = 0;
    while i < reqs.len()
        invariant
            i <= reqs@.len(),
            rows@.len() == i,
            cand.alias_map() == candidate_aliases(cv@),
            cand.token_set() == candidate_tokens(cv@),
            forall|k: int| 0 <= k < i ==> row_model(#[trigger] rows@[k]) == row_spec(cv@, reqs@[k]@),
            matched == covered_count(rows@),
            matched <= i,
        decreases reqs@.len() - i,
    {
        let r = &reqs[i];
        let covered = cand.matches(r.as_str());
        let ids = cand.matching_evidence_ids(cv, r.as_str());
        let ghost pre = rows@;
        rows.push(RequirementCoverage { requirement: r.clone(), covered, evidence_ids: ids });
        assert(rows@.drop_last() =~= pre);
        if covered {
            matched = matched + 1;
        }
        i += 1;
    }
    let cov = if rows.len() == 0 {
        Ratio { num: 1, den: 1 }
    } else {
        Ratio { num: matched, den: rows.len() as u64 }
    };
    (rows, cov)
}

/// `r` is the coverage report of `cv` against `job`: one row per requirement, in job
/// order, and each bucket's coverage.
pub open spec fn is_coverage_report(r: CoverageReport, cv: MasterCvModel, job: NormalizedJob) -> bool {
    &&& r.must_have@.len() == job.must().len()
    &&& forall|k: int| 0 <= k < job.must().len() ==> row_model(#[trigger] r.must_have@[k]) == row_spec(cv, job.must()[k])
    &&& r.nice_to_have@.len() == job.nice().len()
    &&& forall|k: int| 0 <= k < job.nice().len() ==> row_model(#[trigger] r.nice_to_have@[k]) == row_spec(cv, job.nice()[k])
    &&& r.must_have_coverage == bucket_coverage(r.must_have@)
    &&& r.nice_have_coverage == bucket_coverage(r.nice_to_have@)
}

/// The coverage report of `cv` against `job`: one row per requirement, in job order,
/// and each bucket's coverage.
pub fn coverage_report(cv: &MasterCv, job: &NormalizedJob) -> (r: CoverageReport)
    ensures
        is_coverage_report(r, cv@, *job),
{
    let cand = Candidate::from_master(cv);
    let (must_have, must_cov) = cover_bucket(cv, &cand, &job.requirements.must_have);
    let (nice_to_have, nice_cov) = cover_bucket(cv, &cand, &job.requirements.nice_to_have);
    CoverageReport { must_have, nice_to_have, must_have_coverage: must_cov, nice_have_coverage: nice_cov }
}

/// A bucket's coverage never exceeds one and is one for an empty bucket.
pub proof fn law_coverage_bounded(rows: Seq<RequirementCoverage>)
    requires
        rows.len() <= u64::MAX,
    ensures
        bucket_coverage(rows).num <= bucket_coverage(rows).den,
        rows.len() == 0 ==> bucket_coverage(rows) == (Ratio { num: 1, den: 1 }),
{
    lemma_covered_count_bound(rows);
}

} // verus!
