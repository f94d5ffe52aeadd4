//! The normalised job: the engine's input on the job-ad side.

use crate::text::strs;
use vstd::prelude::*;

verus! {

/// The requirement buckets of a job.
#[derive(Debug, Clone, PartialEq)]
pub struct Requirements {
    pub must_have: Vec<String>,
    pub nice_to_have: Vec<String>,
}

/// A job ad in normalised form.
#[derive(Debug, Clone, PartialEq)]
pub struct NormalizedJob {
    pub title: String,
    pub company: String,
    pub location: String,
    pub responsibilities: Vec<String>,
    pub requirements: Requirements,
    pub keywords: Vec<String>,
}

impl NormalizedJob {
    /// The must-have requirements, as char sequences.
    pub open spec fn must(self) -> Seq<Seq<char>> {
        strs(self.requirements.must_have@)
    }

    /// The nice-to-have requirements, as char sequences.
    pub open spec fn nice(self) -> Seq<Seq<char>> {
        strs(self.requirements.nice_to_have@)
    }
}

} // verus!
