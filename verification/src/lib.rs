//! The Applicant Advocate engine: deterministic CV tailoring, job-ad parsing,
//! résumé segmentation and the evidence-ledger guard, specified and proved.

pub mod advocate;
pub mod application;
pub mod ats;
pub mod coverage;
pub mod cvimport;
pub mod docx;
pub mod job;
pub mod jobparse;
pub mod keyword_coverage;
pub mod ledger;
pub mod matching;
pub mod normalize;
pub mod render;
pub mod samples;
pub mod session;
pub mod order;
pub mod tailor;
pub mod text;
pub mod tracker;
pub mod types;
