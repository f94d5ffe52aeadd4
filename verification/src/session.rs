//! The desktop command session: the loaded master CV, the parsed job, and the user's
//! approve/reject decisions on bullets. Every command answers with a typed error when
//! its inputs are missing; rendering and file access happen outside the library.

use crate::application::build_cover_letter;
use crate::coverage::{coverage_report, CoverageReport};
use crate::job::NormalizedJob;
use crate::ledger::{cv_ledger, cv_ledger_spec, guard, offenders, resolvable_set};
use crate::render::CoverLetter;
use crate::tailor::{tailor, tailored_cv_spec, TailoredView, DEFAULT_TOP_N};
use crate::text::strs;
use crate::types::{
    achievements_model, experiences_model, opt_str, Achievement, AchievementModel, CoreError, Experience,
    ExperienceModel, MasterCv, MasterCvModel,
};
use vstd::prelude::*;

verus! {

/// The errors a desktop command answers with.
#[derive(Debug)]
pub enum CommandError {
    Import(String),
    NoMasterCv,
    NoJob,
    ExportBlocked(String),
    Render(String),
}

/// The display text of a command error.
pub open spec fn command_error_message(e: CommandError) -> Seq<char> {
    match e {
        CommandError::Import(d) => "import failed: "@ + d@,
        CommandError::NoMasterCv => "no master CV imported"@,
        CommandError::NoJob => "no job parsed"@,
        CommandError::ExportBlocked(d) => "export blocked: "@ + d@,
        CommandError::Render(d) => "render failed: "@ + d@,
    }
}

impl CommandError {
    /// The human-readable message of this error.
    pub fn message(&self) -> (r: String)
        ensures
            r@ == command_error_message(*self),
    {
        match self {
            CommandError::Import(d) => {
                let mut s = String::from_str("import failed: ");
                s.append(d.as_str());
                s
            },
            CommandError::NoMasterCv => String::from_str("no master CV imported"),
            CommandError::NoJob => String::from_str("no job parsed"),
            CommandError::ExportBlocked(d) => {
                let mut s = String::from_str("export blocked: ");
                s.append(d.as_str());
                s
            },
            CommandError::Render(d) => {
                let mut s = String::from_str("render failed: ");
                s.append(d.as_str());
                s
            },
        }
    }

    /// The command error for an engine error: a blocked ledger blocks the export, a
    /// render failure stays one, anything else is an import failure carrying the
    /// engine's message.
    pub fn from_core(e: CoreError) -> (r: CommandError)
        ensures
            match e {
                CoreError::LedgerBlocked(m) => r matches CommandError::ExportBlocked(d) && d@ == m@,
                CoreError::Render(m) => r matches CommandError::Render(d) && d@ == m@,
                _ => r matches CommandError::Import(d) && d@ == crate::types::core_error_message(e),
            },
    {
        match e {
            CoreError::LedgerBlocked(m) => CommandError::ExportBlocked(m),
            CoreError::Render(m) => CommandError::Render(m),
            other => CommandError::Import(other.message()),
        }
    }
}

// ── decisions ────────────────────────────────────────────────────────────────────

/// The decision recorded last for `id` among the first `n` entries.
pub open spec fn decision_of(entries: Seq<(String, bool)>, id: Seq<char>, n: nat) -> Option<bool>
    decreases n,
{
    if n == 0 || n > entries.len() {
        None
    } else if entries[n - 1].0@ == id {
        Some(entries[n - 1].1)
    } else {
        decision_of(entries, id, (n - 1) as nat)
    }
}

/// A bullet is kept unless it was rejected.
pub open spec fn kept(entries: Seq<(String, bool)>, id: Seq<char>) -> bool {
    match decision_of(entries, id, entries.len()) {
        Some(b) => b,
        None => true,
    }
}

/// The achievements of `xs` that are kept.
pub open spec fn kept_achievements(entries: Seq<(String, bool)>, xs: Seq<AchievementModel>) -> Seq<AchievementModel>
    decreases xs.len(),
{
    if xs.len() == 0 {
        Seq::empty()
    } else {
        kept_achievements(entries, xs.drop_last()) + if kept(entries, xs.last().id) {
            seq![xs.last()]
        } else {
            Seq::empty()
        }
    }
}

/// The ids of `ids` that are kept.
pub open spec fn kept_ids(entries: Seq<(String, bool)>, ids: Seq<Seq<char>>) -> Seq<Seq<char>>
    decreases ids.len(),
{
    if ids.len() == 0 {
        Seq::empty()
    } else {
        kept_ids(entries, ids.drop_last()) + if kept(entries, ids.last()) {
            seq![ids.last()]
        } else {
            Seq::empty()
        }
    }
}

/// The experiences with their rejected bullets removed.
pub open spec fn pruned_experiences(entries: Seq<(String, bool)>, es: Seq<ExperienceModel>) -> Seq<ExperienceModel> {
    es.map_values(
        |e: ExperienceModel| ExperienceModel { achievements_tasks: kept_achievements(entries, e.achievements_tasks), ..e },
    )
}

/// The desktop session.
pub struct Session {
    master: Option<MasterCv>,
    job: Option<NormalizedJob>,
    decisions: Vec<(String, bool)>,
}

impl Session {
    pub closed spec fn spec_master(&self) -> Option<MasterCvModel> {
        match self.master {
            Some(m) => Some(m@),
            None => None,
        }
    }

    pub closed spec fn spec_job(&self) -> Option<NormalizedJob> {
        self.job
    }

    pub closed spec fn spec_decisions(&self) -> Seq<(String, bool)> {
        self.decisions@
    }

    /// An empty session.
    pub fn new() -> (r: Session)
        ensures
            r.spec_master() is None,
            r.spec_job() is None,
            r.spec_decisions().len() == 0,
    {
        Session { master: None, job: None, decisions: Vec::new() }
    }

    /// The installed master CV, if any.
    pub fn master(&self) -> (r: Option<&MasterCv>)
        ensures
            match r {
                Some(m) => self.spec_master() == Some(m@),
                None => self.spec_master() is None,
            },
    {
        match &self.master {
            Some(m) => Some(m),
            None => None,
        }
    }

    /// The parsed job, if any.
    pub fn job(&self) -> (r: Option<&NormalizedJob>)
        ensures
            match r {
                Some(j) => self.spec_job() == Some(*j),
                None => self.spec_job() is None,
            },
    {
        match &self.job {
            Some(j) => Some(j),
            None => None,
        }
    }

    /// Install a master CV (parsed and validated by the caller).
    pub fn set_master_cv(&mut self, cv: MasterCv)
        ensures
            final(self).spec_master() == Some(cv@),
            final(self).spec_job() == old(self).spec_job(),
            final(self).spec_decisions() == old(self).spec_decisions(),
    {
        self.master = Some(cv);
    }

    /// Parse a job ad into the session; every text parses.
    pub fn parse_job(&mut self, raw_jd: &str) -> (r: Result<(), CommandError>)
        ensures
            final(self).spec_master() == old(self).spec_master(),
            final(self).spec_decisions() == old(self).spec_decisions(),
            r is Ok,
            final(self).spec_job() matches Some(j) && crate::jobparse::job_model(j) == crate::jobparse::parse_spec(
                raw_jd@,
                crate::jobparse::scan_lower(raw_jd@),
            ),
    {
        self.job = Some(crate::jobparse::parse(raw_jd));
        Ok(())
    }

    /// The coverage report of the session's CV against its job.
    pub fn compute_coverage(&self) -> (r: Result<CoverageReport, CommandError>)
        ensures
            self.spec_master() is None ==> r matches Err(CommandError::NoMasterCv),
            self.spec_master() is Some && self.spec_job() is None ==> r matches Err(CommandError::NoJob),
            self.spec_master() is Some && self.spec_job() is Some ==> r is Ok,
            r matches Ok(c) ==> (self.spec_master() matches Some(m) && (self.spec_job() matches Some(j)
                && crate::coverage::is_coverage_report(c, m, j))),
    {
        let cv = match &self.master {
            Some(m) => m,
            None => {
                return Err(CommandError::NoMasterCv);
            },
        };
        let job = match &self.job {
            Some(j) => j,
            None => {
                return Err(CommandError::NoJob);
            },
        };
        Ok(coverage_report(cv, job))
    }

    /// The tailored view of the session's CV for its job.
    pub fn tailored_view(&self) -> (r: Result<TailoredView, CommandError>)
        ensures
            self.spec_master() is None ==> r matches Err(CommandError::NoMasterCv),
            self.spec_master() is Some && self.spec_job() is None ==> r matches Err(CommandError::NoJob),
            r matches Ok(v) ==> (self.spec_master() matches Some(m) && (self.spec_job() matches Some(j) && v.cv@
                == tailored_cv_spec(m, j.must(), j.nice(), DEFAULT_TOP_N as nat) && opt_str(v.summary_provenance)
                == match crate::tailor::pick_summary_spec(m.summary_variants, j.must(), j.nice()) {
                Some(p) => Some(p.1),
                None => None::<Seq<char>>,
            } && strs(v.selected_ids@) == crate::tailor::selected_spec(
                crate::tailor::tailored_experiences(m.experience, j.must(), DEFAULT_TOP_N as nat),
            ))),
            self.spec_master() is Some && self.spec_job() is Some ==> r is Ok,
    {
        let cv = match &self.master {
            Some(m) => m,
            None => {
                return Err(CommandError::NoMasterCv);
            },
        };
        let job = match &self.job {
            Some(j) => j,
            None => {
                return Err(CommandError::NoJob);
            },
        };
        Ok(tailor(cv, job, DEFAULT_TOP_N))
    }

    /// Record the user's decision on a bullet (a later decision replaces an earlier).
    pub fn set_decision(&mut self, evidence_id: &str, approved: bool)
        ensures
            final(self).spec_master() == old(self).spec_master(),
            final(self).spec_job() == old(self).spec_job(),
            kept(final(self).spec_decisions(), evidence_id@) == approved,
            forall|id: Seq<char>| id != evidence_id@ ==> kept(final(self).spec_decisions(), id) == kept(
                old(self).spec_decisions(),
                id,
            ),
    {
        let ghost pre = self.decisions@;
        self.decisions.push((String::from_str(evidence_id), approved));
        proof {
            let d = self.decisions@;
            assert(d[d.len() - 1].0@ == evidence_id@);
            assert forall|id: Seq<char>| id != evidence_id@ implies kept(d, id) == kept(pre, id) by {
                assert(decision_of(d, id, d.len()) == decision_of(d, id, pre.len()));
                lemma_decision_prefix(pre, d, id, pre.len());
            }
        }
    }

    fn is_kept(&self, id: &String) -> (r: bool)
        ensures
            r == kept(self.decisions@, id@),
    {
        let mut n = self.decisions.len();
        while n > 0
            invariant
                n <= self.decisions@.len(),
                decision_of(self.decisions@, id@, self.decisions@.len()) == decision_of(self.decisions@, id@, n as nat),
            decreases n,
        {
            if self.decisions[n - 1].0 == *id {
                return self.decisions[n - 1].1;
            }
            n -= 1;
        }
        true
    }

    /// The view with every rejected bullet removed, from the experiences and from the
    /// selected ids.
    pub fn apply_decisions(&self, view: TailoredView) -> (r: TailoredView)
        ensures
            r.cv@ == (MasterCvModel { experience: pruned_experiences(self.spec_decisions(), view.cv@.experience), ..view.cv@ }),
            opt_str(r.summary_provenance) == opt_str(view.summary_provenance),
            strs(r.selected_ids@) == kept_ids(self.spec_decisions(), strs(view.selected_ids@)),
    {
        let TailoredView { cv, summary_provenance, selected_ids } = view;
        let ghost es = cv@.experience;
        let ghost target = pruned_experiences(self.decisions@, es);
        let mut exps: Vec<Experience> = Vec::new();
        let mut i: usize = 0;
        while i < cv.experience.len()
            invariant
                i <= cv.experience@.len(),
                es == cv@.experience,
                target == pruned_experiences(self.decisions@, es),
                experiences_model(exps@) == target.take(i as int),
            decreases cv.experience@.len() - i,
        {
            let e = &cv.experience[i];
            let ghost xs = e@.achievements_tasks;
            let mut kept_list: Vec<Achievement> = Vec::new();
            let mut j: usize = 0;
            assert(xs.take(0) =~= Seq::<AchievementModel>::empty());
            while j < e.achievements_tasks.len()
                invariant
                    j <= e.achievements_tasks@.len(),
                    xs == e@.achievements_tasks,
                    achievements_model(kept_list@) == kept_achievements(self.decisions@, xs.take(j as int)),
                decreases e.achievements_tasks@.len() - j,
            {
                assert(xs.take(j + 1).drop_last() =~= xs.take(j as int));
                assert(xs.take(j + 1).last() == e.achievements_tasks@[j as int]@);
                let ghost pre = achievements_model(kept_list@);
                if self.is_kept(&e.achievements_tasks[j].id) {
                    kept_list.push(e.achievements_tasks[j].copy());
                    assert(achievements_model(kept_list@) =~= pre + seq![e.achievements_tasks@[j as int]@]);
                } else {
                    assert(pre + Seq::<AchievementModel>::empty() =~= pre);
                }
                j += 1;
            }
            assert(xs.take(xs.len() as int) =~= xs);
            let mut ne = e.copy();
            ne.achievements_tasks = kept_list;
            let ghost pe = experiences_model(exps@);
            exps.push(ne);
            proof {
                assert(es[i as int] == e@);
                assert(ne@ == target[i as int]);
                assert(experiences_model(exps@) =~= pe.push(target[i as int]));
                assert(target.take(i + 1) =~= target.take(i as int).push(target[i as int]));
            }
            i += 1;
        }
        assert(target.take(es.len() as int) =~= target);
        let ghost ids = strs(selected_ids@);
        let mut kept_sel: Vec<String> = Vec::new();
        let mut k: usize = 0;
        assert(ids.take(0) =~= Seq::<Seq<char>>::empty());
        while k < selected_ids.len()
            invariant
                k <= selected_ids@.len(),
                ids == strs(selected_ids@),
                strs(kept_sel@) == kept_ids(self.decisions@, ids.take(k as int)),
            decreases selected_ids@.len() - k,
        {
            assert(ids.take(k + 1).drop_last() =~= ids.take(k as int));
            assert(ids.take(k + 1).last() == selected_ids@[k as int]@);
            let ghost pre = strs(kept_sel@);
            if self.is_kept(&selected_ids[k]) {
                kept_sel.push(selected_ids[k].clone());
                assert(strs(kept_sel@) =~= pre + seq![selected_ids@[k as int]@]);
            } else {
                assert(pre + Seq::<Seq<char>>::empty() =~= pre);
            }
            k += 1;
        }
        assert(ids.take(ids.len() as int) =~= ids);
        let mut cv2 = cv;
        cv2.experience = exps;
        TailoredView { cv: cv2, summary_provenance, selected_ids: kept_sel }
    }

    /// Everything an export renders: the tailored view with the decisions applied (its
    /// ledger passed through the guard), the cover letter, and the coverage report.
    pub fn prepare_export(&self) -> (r: Result<(TailoredView, CoverLetter, CoverageReport), CommandError>)
        ensures
            self.spec_master() is None ==> r matches Err(CommandError::NoMasterCv),
            self.spec_master() is Some && self.spec_job() is None ==> r matches Err(CommandError::NoJob),
            self.spec_master() is Some && self.spec_job() is Some ==> r is Ok,
            r matches Ok(x) ==> (self.spec_master() matches Some(m) && (self.spec_job() matches Some(j) && {
                let t = tailored_cv_spec(m, j.must(), j.nice(), DEFAULT_TOP_N as nat);
                &&& x.0.cv@ == (MasterCvModel { experience: pruned_experiences(self.spec_decisions(), t.experience), ..t })
                &&& strs(x.0.selected_ids@) == kept_ids(
                    self.spec_decisions(),
                    crate::tailor::selected_spec(crate::tailor::tailored_experiences(m.experience, j.must(), DEFAULT_TOP_N as nat)),
                )
                &&& crate::application::is_cover_letter(x.1, x.0.cv@, j, m)
                &&& crate::coverage::is_coverage_report(x.2, m, j)
            })),
    {
        let cv = match &self.master {
            Some(m) => m,
            None => {
                return Err(CommandError::NoMasterCv);
            },
        };
        let job = match &self.job {
            Some(j) => j,
            None => {
                return Err(CommandError::NoJob);
            },
        };
        let tv = tailor(cv, job, DEFAULT_TOP_N);
        let view = self.apply_decisions(tv);
        let nodes = cv_ledger(&view);
        proof {
            law_pruned_view_passes_guard(cv@, job.must(), job.nice(), DEFAULT_TOP_N as nat, self.decisions@);
        }
        match guard(nodes.as_slice(), cv) {
            Ok(()) => {},
            Err(e) => {
                return Err(CommandError::from_core(e));
            },
        }
        let letter = build_cover_letter(&view, job, cv);
        let coverage = coverage_report(cv, job);
        Ok((view, letter, coverage))
    }
}

proof fn lemma_decision_prefix(pre: Seq<(String, bool)>, d: Seq<(String, bool)>, id: Seq<char>, n: nat)
    requires
        n <= pre.len() < d.len(),
        forall|k: int| 0 <= k < pre.len() ==> d[k] == pre[k],
    ensures
        decision_of(d, id, n) == decision_of(pre, id, n),
    decreases n,
{
    if n > 0 {
        lemma_decision_prefix(pre, d, id, (n - 1) as nat);
    }
}

proof fn lemma_kept_member(entries: Seq<(String, bool)>, xs: Seq<AchievementModel>, k: int)
    requires
        0 <= k < kept_achievements(entries, xs).len(),
    ensures
        exists|j: int| 0 <= j < xs.len() && xs[j] == kept_achievements(entries, xs)[k],
    decreases xs.len(),
{
    let p = kept_achievements(entries, xs.drop_last());
    if k < p.len() {
        lemma_kept_member(entries, xs.drop_last(), k);
        let j = choose|j: int| 0 <= j < xs.drop_last().len() && xs.drop_last()[j] == p[k];
        assert(xs[j] == p[k]);
        assert(kept_achievements(entries, xs)[k] == p[k]);
    } else {
        assert(kept_achievements(entries, xs)[k] == xs[xs.len() - 1]);
    }
}

/// A view whose rejected bullets were removed still passes the guard: pruning only
/// drops bullets, it never introduces a claim.
pub proof fn law_pruned_view_passes_guard(
    m: MasterCvModel,
    must: Seq<Seq<char>>,
    nice: Seq<Seq<char>>,
    n: nat,
    entries: Seq<(String, bool)>,
)
    ensures
        offenders(
            cv_ledger_spec(
                MasterCvModel {
                    experience: pruned_experiences(entries, tailored_cv_spec(m, must, nice, n).experience),
                    ..tailored_cv_spec(m, must, nice, n)
                },
                match crate::tailor::pick_summary_spec(m.summary_variants, must, nice) {
                    Some(p) => Some(p.1),
                    None => None::<Seq<char>>,
                },
            ),
            resolvable_set(m),
        ).len() == 0,
{
    let u = resolvable_set(m);
    let te = crate::tailor::tailored_experiences(m.experience, must, n);
    let pe = pruned_experiences(entries, te);
    let prov = match crate::tailor::pick_summary_spec(m.summary_variants, must, nice) {
        Some(p) => Some(p.1),
        None => None::<Seq<char>>,
    };
    let pv = MasterCvModel { experience: pe, ..tailored_cv_spec(m, must, nice, n) };
    let nodes = cv_ledger_spec(pv, prov);
    let head = match prov {
        Some(p) => seq![("cv.summary"@, Some(p), false)],
        None => Seq::<(Seq<char>, Option<Seq<char>>, bool)>::empty(),
    };
    assert forall|i: int| 0 <= i < nodes.len() implies crate::ledger::offense(#[trigger] nodes[i], u) is None by {
        if i < head.len() {
            let vs = m.summary_variants;
            let req = crate::tailor::requirement_tokens(must, nice);
            crate::tailor::lemma_best_summary_bound(vs, req);
            let b = crate::tailor::best_summary(vs, req);
            assert(u.contains(crate::tailor::summary_label(b)));
        } else {
            let j = i - head.len();
            assert(nodes[i] == crate::ledger::bullet_nodes(pe)[j]);
            crate::ledger::lemma_bullet_nodes_shape(pe, j);
            let (x, k) = choose|x: int, k: int|
                0 <= x < pe.len() && 0 <= k < pe[x].achievements_tasks.len() && crate::ledger::bullet_nodes(pe)[j] == (
                    "cv.bullet["@ + pe[x].achievements_tasks[k].id + "]"@,
                    Some(pe[x].achievements_tasks[k].id),
                    false,
                );
            lemma_kept_member(entries, te[x].achievements_tasks, k);
            let q = choose|q: int|
                0 <= q < te[x].achievements_tasks.len() && te[x].achievements_tasks[q] == kept_achievements(
                    entries,
                    te[x].achievements_tasks,
                )[k];
            crate::ledger::lemma_tailored_bullets_resolve(m, must, n, x, q);
        }
    }
    crate::ledger::lemma_offenders_empty(nodes, u);
}

proof fn lemma_kept_all(entries: Seq<(String, bool)>, xs: Seq<AchievementModel>, k: int)
    requires
        0 <= k < kept_achievements(entries, xs).len(),
    ensures
        kept(entries, kept_achievements(entries, xs)[k].id),
    decreases xs.len(),
{
    let p = kept_achievements(entries, xs.drop_last());
    if k < p.len() {
        lemma_kept_all(entries, xs.drop_last(), k);
        assert(kept_achievements(entries, xs)[k] == p[k]);
    } else {
        assert(kept_achievements(entries, xs)[k] == xs.last());
    }
}

/// A rejected bullet never survives pruning: every bullet left in the pruned
/// experiences is one the decisions keep, and each experience keeps its place.
pub proof fn law_rejected_bullets_removed(entries: Seq<(String, bool)>, es: Seq<ExperienceModel>, x: int, k: int)
    requires
        0 <= x < es.len(),
        0 <= k < pruned_experiences(entries, es)[x].achievements_tasks.len(),
    ensures
        pruned_experiences(entries, es).len() == es.len(),
        kept(entries, pruned_experiences(entries, es)[x].achievements_tasks[k].id),
        es[x].achievements_tasks.contains(pruned_experiences(entries, es)[x].achievements_tasks[k]),
{
    let xs = es[x].achievements_tasks;
    assert(pruned_experiences(entries, es)[x].achievements_tasks == kept_achievements(entries, xs));
    lemma_kept_all(entries, xs, k);
    lemma_kept_member(entries, xs, k);
}

} // verus!
