//! An application: the coverage report, the tailored view, the cover letter, and the
//! evidence-ledger guard over both documents. The letter is bounded to one page: at
//! most three strength paragraphs of at most 200 characters, a why-role sentence of at
//! most 300.

use crate::coverage::{coverage_report, CoverageReport};
use crate::job::NormalizedJob;
use crate::ledger::{
    cv_ledger, guard, law_tailored_view_passes_guard, node_model, nodes_model, offense, offenders, resolvable_set,
    LedgerNode,
};
use crate::render::{strengths_model, CoverLetter, StrengthParagraph};
use crate::tailor::{first_n, tailor, tailored_experiences, TailoredView, DEFAULT_TOP_N};
use crate::text::{chars_of, decimal, decimal_chars, is_whitespace, is_ws, push_all, push_char, string_of, strs, trim_end};
use crate::types::{AchievementModel, CoreError, ExperienceModel, MasterCv, MasterCvModel};
use vstd::prelude::*;

verus! {

/// At most this many strength paragraphs.
pub const MAX_STRENGTHS: usize = 3;

/// A strength paragraph holds at most this many characters.
pub const STRENGTH_MAX_CHARS: usize = 200;

/// The why-role sentence holds at most this many characters.
pub const WHY_ROLE_MAX_CHARS: usize = 300;

// ── truncation ───────────────────────────────────────────────────────────────────

/// The position of the last whitespace char of `w`.
pub open spec fn last_ws(w: Seq<char>) -> Option<nat>
    decreases w.len(),
{
    if w.len() == 0 {
        None
    } else if is_ws(w.last()) {
        Some((w.len() - 1) as nat)
    } else {
        last_ws(w.drop_last())
    }
}

/// `s` cut to at most `max` characters: unchanged when it fits; otherwise its first
/// `max - 1` characters, pulled back to the last whitespace (a hard cut when there is
/// none), trailing whitespace trimmed, then `…`.
pub open spec fn truncate_spec(s: Seq<char>, max: nat) -> Seq<char> {
    if s.len() <= max {
        s
    } else {
        let budget: nat = if max >= 1 { (max - 1) as nat } else { 0 };
        let window = s.take(budget as int);
        let cut = match last_ws(window) {
            Some(i) => window.take(i as int),
            None => window,
        };
        trim_end(cut).push('\u{2026}')
    }
}

proof fn lemma_trim_end_len(s: Seq<char>)
    ensures
        trim_end(s).len() <= s.len(),
    decreases s.len(),
{
    if s.len() > 0 && is_ws(s.last()) {
        lemma_trim_end_len(s.drop_last());
    }
}

proof fn lemma_last_ws_bound(w: Seq<char>)
    ensures
        last_ws(w) matches Some(i) ==> i < w.len() && is_ws(w[i as int]),
        last_ws(w) is None ==> forall|k: int| 0 <= k < w.len() ==> !is_ws(#[trigger] w[k]),
    decreases w.len(),
{
    if w.len() > 0 && !is_ws(w.last()) {
        lemma_last_ws_bound(w.drop_last());
        assert forall|k: int| 0 <= k < w.len() && last_ws(w) is None implies !is_ws(#[trigger] w[k]) by {
            if k < w.len() - 1 {
                assert(w.drop_last()[k] == w[k]);
            }
        }
    }
}

/// A truncated string never exceeds its budget (for a budget of at least one
/// character, or a string that already fits).
pub proof fn law_truncation_within_budget(s: Seq<char>, max: nat)
    requires
        max >= 1 || s.len() <= max,
    ensures
        truncate_spec(s, max).len() <= max,
        s.len() <= max ==> truncate_spec(s, max) == s,
{
    if s.len() > max {
        let window = s.take((max - 1) as int);
        lemma_last_ws_bound(window);
        let cut = match last_ws(window) {
            Some(i) => window.take(i as int),
            None => window,
        };
        lemma_trim_end_len(cut);
    }
}

fn last_ws_index(w: &Vec<char>) -> (r: Option<usize>)
    ensures
        match r {
            Some(i) => last_ws(w@) == Some(i as nat) && i < w.len(),
            None => last_ws(w@) is None,
        },
{
    let mut j: usize = w.len();
    assert(w@.take(w@.len() as int) =~= w@);
    while j > 0
        invariant
            j <= w@.len(),
            last_ws(w@) == last_ws(w@.take(j as int)),
        decreases j,
    {
        assert(w@.take(j as int).drop_last() =~= w@.take(j - 1));
        assert(w@.take(j as int).last() == w@[j - 1]);
        if is_whitespace(w[j - 1]) {
            return Some(j - 1);
        }
        j -= 1;
    }
    None
}

/// Truncate `s` to at most `max_chars` characters (not bytes), on a word boundary,
/// with a trailing `…` when cut.
pub fn truncate_ellipsis(s: &str, max_chars: usize) -> (r: String)
    ensures
        r@ == truncate_spec(s@, max_chars as nat),
{
    let v = chars_of(s);
    if v.len() <= max_chars {
        return string_of(&v);
    }
    let budget: usize = if max_chars >= 1 { max_chars - 1 } else { 0 };
    let window = crate::text::slice_vec(&v, 0, budget);
    assert(v@.subrange(0, budget as int) =~= v@.take(budget as int));
    let cut = match last_ws_index(&window) {
        Some(i) => {
            let c = crate::text::slice_vec(&window, 0, i);
            assert(window@.subrange(0, i as int) =~= window@.take(i as int));
            c
        },
        None => window,
    };
    let k = crate::text::trim_end_len(&cut);
    let mut out = crate::text::string_of_range(&cut, 0, k);
    push_char(&mut out, '\u{2026}');
    out
}

// ── the cover letter ─────────────────────────────────────────────────────────────

/// The achievements of `es` in order.
pub open spec fn all_achievements_of(es: Seq<ExperienceModel>) -> Seq<AchievementModel>
    decreases es.len(),
{
    if es.len() == 0 {
        Seq::empty()
    } else {
        all_achievements_of(es.drop_last()) + es.last().achievements_tasks
    }
}

/// The strengths of a letter: the first three achievements of the view, each
/// description truncated, with its id.
pub open spec fn strengths_spec(es: Seq<ExperienceModel>) -> Seq<(Seq<char>, Seq<char>)> {
    first_n(all_achievements_of(es), MAX_STRENGTHS as nat).map_values(
        |a: AchievementModel| (truncate_spec(a.description, STRENGTH_MAX_CHARS as nat), a.id),
    )
}

/// The why-role sentence before truncation.
pub open spec fn why_role_sentence(job: NormalizedJob) -> Seq<char> {
    let role = if job.title@.len() == 0 {
        "this role"@
    } else {
        job.title@
    };
    let company = if job.company@.len() == 0 {
        "your team"@
    } else {
        job.company@
    };
    "I'm writing to apply for the "@ + role + " position at "@ + company
        + ", where my track record maps directly to what you're looking for."@
}

/// The candidate name a letter is signed with (empty when the CV has none).
pub open spec fn candidate_spec(master: MasterCvModel) -> Seq<char> {
    match master.person.name {
        Some(n) => n,
        None => Seq::empty(),
    }
}

fn copy_or_default(s: &String, default: &str) -> (r: String)
    ensures
        r@ == if s@.len() == 0 {
            default@
        } else {
            s@
        },
{
    if s.as_str().is_empty() {
        String::from_str(default)
    } else {
        s.clone()
    }
}

/// `l` is the cover letter for a view whose CV is `view_cv`: scaffold greeting and
/// why-role from the job, up to three strengths wrapping the first achievements of the
/// view (each carrying its evidence id), and a closing signed by the candidate.
pub open spec fn is_cover_letter(l: CoverLetter, view_cv: MasterCvModel, job: NormalizedJob, master: MasterCvModel) -> bool {
    &&& l.greeting@ == "Dear Hiring Team,"@
    &&& l.why_role@ == truncate_spec(why_role_sentence(job), WHY_ROLE_MAX_CHARS as nat)
    &&& strengths_model(l.strengths@) == strengths_spec(view_cv.experience)
    &&& l.closing@ == "I would welcome the chance to discuss further.\n\nKind regards,\n"@ + candidate_spec(master)
    &&& l.candidate_name@ == candidate_spec(master)
}

/// Build the cover letter for a tailored view: scaffold greeting and why-role from
/// the job, up to three strengths wrapping the first selected achievements (each
/// carrying its evidence id), and a closing signed by the candidate.
pub fn build_cover_letter(view: &TailoredView, job: &NormalizedJob, master: &MasterCv) -> (r: CoverLetter)
    ensures
        is_cover_letter(r, view.cv@, *job, master@),
{
    let candidate = match &master.person.name {
        Some(n) => n.clone(),
        None => String::new(),
    };
    let company = copy_or_default(&job.company, "your team");
    let role = copy_or_default(&job.title, "this role");

    let ghost es = view.cv@.experience;
    let ghost all = all_achievements_of(es);
    let mut strengths: Vec<StrengthParagraph> = Vec::new();
    let mut e: usize = 0;
    assert(es.take(0) =~= Seq::<ExperienceModel>::empty());
    assert(strengths_model(strengths@) =~= first_n(all_achievements_of(es.take(0)), 3).map_values(
        |a: AchievementModel| (truncate_spec(a.description, 200), a.id),
    ));
    while e < view.cv.experience.len() && strengths.len() < 3
        invariant
            e <= view.cv.experience@.len(),
            es == view.cv@.experience,
            es.len() == view.cv.experience@.len(),
            strengths@.len() <= 3,
            strengths@.len() < 3 ==> all_achievements_of(es.take(e as int)).len() == strengths@.len(),
            strengths_model(strengths@) == first_n(all_achievements_of(es.take(e as int)), 3).map_values(
                |a: AchievementModel| (truncate_spec(a.description, 200), a.id),
            ),
            strengths@.len() == 3 ==> first_n(all_achievements_of(es), 3) == first_n(all_achievements_of(es.take(e as int)), 3),
        decreases view.cv.experience@.len() - e,
    {
        let exp = &view.cv.experience[e];
        let ghost base = all_achievements_of(es.take(e as int));
        let ghost xs = exp@.achievements_tasks;
        proof {
            assert(es[e as int] == exp@);
            assert(es.take(e + 1).drop_last() =~= es.take(e as int));
        }
        let mut j: usize = 0;
        while j < exp.achievements_tasks.len() && strengths.len() < 3
            invariant
                j <= exp.achievements_tasks@.len(),
                xs == exp@.achievements_tasks,
                xs.len() == exp.achievements_tasks@.len(),
                strengths@.len() <= 3,
                strengths@.len() < 3 ==> strengths@.len() == base.len() + j,
                strengths@.len() == 3 ==> base.len() + j >= 3,
                strengths@.len() == (if base.len() + j < 3 { base.len() + j } else { 3 }),
                strengths_model(strengths@) == first_n(base + xs.take(j as int), 3).map_values(
                    |a: AchievementModel| (truncate_spec(a.description, 200), a.id),
                ),
            decreases exp.achievements_tasks@.len() - j,
        {
            let a = &exp.achievements_tasks[j];
            let ghost pre = strengths_model(strengths@);
            strengths.push(StrengthParagraph {
                text: truncate_ellipsis(a.description.as_str(), 200),
                source_evidence_id: a.id.clone(),
            });
            proof {
                assert(xs[j as int] == a@);
                assert(base + xs.take(j + 1) =~= (base + xs.take(j as int)).push(a@));
                assert(strengths_model(strengths@) =~= pre.push((truncate_spec(a@.description, 200), a@.id)));
                assert(first_n(base + xs.take(j + 1), 3) =~= first_n(base + xs.take(j as int), 3).push(a@));
            }
            j += 1;
        }
        proof {
            let full = all_achievements_of(es.take(e + 1));
            assert(full == base + xs);
            if strengths@.len() < 3 {
                assert(j == xs.len());
                assert(xs.take(j as int) =~= xs);
            } else {
                assert(first_n(base + xs, 3) =~= first_n(base + xs.take(j as int), 3));
                lemma_first_n_prefix(es, e + 1);
            }
        }
        e += 1;
    }
    proof {
        if strengths@.len() < 3 {
            assert(e == es.len());
            assert(es.take(e as int) =~= es);
        }
    }
    let mut sentence = String::from_str("I'm writing to apply for the ");
    sentence.append(role.as_str());
    sentence.append(" position at ");
    sentence.append(company.as_str());
    sentence.append(", where my track record maps directly to what you're looking for.");
    let why_role = truncate_ellipsis(sentence.as_str(), 300);
    let mut closing = String::from_str("I would welcome the chance to discuss further.\n\nKind regards,\n");
    closing.append(candidate.as_str());
    CoverLetter {
        greeting: String::from_str("Dear Hiring Team,"),
        why_role,
        strengths,
        closing,
        candidate_name: candidate,
    }
}

proof fn lemma_all_achievements_prefix(es: Seq<ExperienceModel>, k: int)
    requires
        0 <= k <= es.len(),
    ensures
        all_achievements_of(es.take(k)).len() <= all_achievements_of(es).len(),
        all_achievements_of(es) == all_achievements_of(es.take(k)) + all_achievements_of(es.skip(k)),
    decreases es.len() - k,
{
    if k == es.len() {
        assert(es.take(k) =~= es);
        assert(es.skip(k) =~= Seq::<ExperienceModel>::empty());
        assert(all_achievements_of(es) + Seq::<AchievementModel>::empty() =~= all_achievements_of(es));
    } else {
        lemma_all_achievements_prefix(es.drop_last(), k);
        assert(es.drop_last().take(k) =~= es.take(k));
        assert(es.skip(k).drop_last() =~= es.drop_last().skip(k));
        assert(es.skip(k).last() == es.last());
        assert(all_achievements_of(es) =~= all_achievements_of(es.take(k)) + all_achievements_of(es.skip(k)));
    }
}

proof fn lemma_first_n_prefix(es: Seq<ExperienceModel>, k: int)
    requires
        0 <= k <= es.len(),
        all_achievements_of(es.take(k)).len() >= 3,
    ensures
        first_n(all_achievements_of(es), 3) == first_n(all_achievements_of(es.take(k)), 3),
{
    lemma_all_achievements_prefix(es, k);
    let a = all_achievements_of(es.take(k));
    let b = all_achievements_of(es.skip(k));
    assert((a + b).take(3) =~= a.take(3));
}

// ── the application ──────────────────────────────────────────────────────────────

/// The ledger of a cover letter: the greeting and why-role as scaffold, then one
/// claim per strength naming its source evidence id.
pub open spec fn letter_ledger_spec(strengths: Seq<(Seq<char>, Seq<char>)>) -> Seq<(Seq<char>, Option<Seq<char>>, bool)> {
    seq![("letter.greeting"@, None, true), ("letter.whyRole"@, None, true)] + Seq::new(
        strengths.len(),
        |i: int| ("letter.strength["@ + decimal(i as nat) + "]"@, Some(strengths[i].1), false),
    )
}

/// Everything an export needs, checked by the ledger guard.
pub struct PreparedApplication {
    pub coverage: CoverageReport,
    pub view: TailoredView,
    pub letter: CoverLetter,
}

proof fn lemma_all_achievements_member(es: Seq<ExperienceModel>, k: int)
    requires
        0 <= k < all_achievements_of(es).len(),
    ensures
        exists|x: int, j: int|
            0 <= x < es.len() && 0 <= j < es[x].achievements_tasks.len() && all_achievements_of(es)[k]
                == #[trigger] es[x].achievements_tasks[j],
    decreases es.len(),
{
    let p = all_achievements_of(es.drop_last());
    if k < p.len() {
        lemma_all_achievements_member(es.drop_last(), k);
        let (x, j) = choose|x: int, j: int|
            0 <= x < es.drop_last().len() && 0 <= j < es.drop_last()[x].achievements_tasks.len() && p[k]
                == #[trigger] es.drop_last()[x].achievements_tasks[j];
        assert(es[x] == es.drop_last()[x]);
        assert(all_achievements_of(es)[k] == es[x].achievements_tasks[j]);
    } else {
        let j = k - p.len();
        assert(all_achievements_of(es)[k] == es[es.len() - 1].achievements_tasks[j]);
    }
}

/// A letter built from a tailored view passes the guard: its strengths wrap bullets
/// of the view, which are achievements of the master.
pub proof fn law_letter_passes_guard(m: MasterCvModel, must: Seq<Seq<char>>, n: nat)
    ensures
        offenders(letter_ledger_spec(strengths_spec(tailored_experiences(m.experience, must, n))), resolvable_set(m)).len()
            == 0,
{
    let te = tailored_experiences(m.experience, must, n);
    let st = strengths_spec(te);
    let nodes = letter_ledger_spec(st);
    let u = resolvable_set(m);
    let all = all_achievements_of(te);
    assert forall|i: int| 0 <= i < nodes.len() implies offense(#[trigger] nodes[i], u) is None by {
        if i >= 2 {
            let k = i - 2;
            assert(first_n(all, 3)[k] == all[k]);
            lemma_all_achievements_member(te, k);
            let (x, j) = choose|x: int, j: int|
                0 <= x < te.len() && 0 <= j < te[x].achievements_tasks.len() && all[k] == #[trigger] te[x].achievements_tasks[j];
            crate::ledger::lemma_tailored_bullets_resolve(m, must, n, x, j);
            assert(nodes[i].1 == Some(all[k].id));
        }
    }
    crate::ledger::lemma_offenders_empty(nodes, u);
}

fn letter_nodes(letter: &CoverLetter) -> (r: Vec<LedgerNode>)
    ensures
        nodes_model(r@) == letter_ledger_spec(strengths_model(letter.strengths@)),
{
    let mut nodes: Vec<LedgerNode> = Vec::new();
    nodes.push(LedgerNode::scaffold("letter.greeting"));
    nodes.push(LedgerNode::scaffold("letter.whyRole"));
    let ghost target = letter_ledger_spec(strengths_model(letter.strengths@));
    let mut i: usize = 0;
    assert(nodes_model(nodes@) =~= target.take(2));
    while i < letter.strengths.len()
        invariant
            i <= letter.strengths@.len(),
            target == letter_ledger_spec(strengths_model(letter.strengths@)),
            target.len() == letter.strengths@.len() + 2,
            nodes_model(nodes@) == target.take(i + 2),
        decreases letter.strengths@.len() - i,
    {
        let mut label = String::from_str("letter.strength[");
        let d = decimal_chars(i as u64);
        push_all(&mut label, &d);
        label.append("]");
        let ghost pre = nodes_model(nodes@);
        nodes.push(LedgerNode {
            node: label,
            source_evidence_id: Some(letter.strengths[i].source_evidence_id.clone()),
            scaffold: false,
        });
        proof {
            assert(target[i + 2] == ("letter.strength["@ + decimal(i as nat) + "]"@, Some(letter.strengths@[i as int].source_evidence_id@), false));
            assert(nodes_model(nodes@) =~= pre.push(target[i + 2]));
            assert(target.take(i + 3) =~= target.take(i + 2).push(target[i + 2]));
        }
        i += 1;
    }
    assert(target.take(target.len() as int) =~= target);
    nodes
}

/// Prepare an application: the coverage report, the tailored view (top
/// [`DEFAULT_TOP_N`] per role) and the cover letter, with both documents' ledgers
/// passed through the guard. A view tailored from `master` always passes.
pub fn prepare_application(master: &MasterCv, job: &NormalizedJob) -> (r: Result<PreparedApplication, CoreError>)
    ensures
        r is Ok,
        r matches Ok(p) ==> {
            &&& p.view.cv@ == crate::tailor::tailored_cv_spec(master@, job.must(), job.nice(), DEFAULT_TOP_N as nat)
            &&& strs(p.view.selected_ids@) == crate::tailor::selected_spec(
                crate::tailor::tailored_experiences(master@.experience, job.must(), DEFAULT_TOP_N as nat),
            )
            &&& is_cover_letter(p.letter, p.view.cv@, *job, master@)
            &&& crate::coverage::is_coverage_report(p.coverage, master@, *job)
        },
{
    let coverage = coverage_report(master, job);
    let view = tailor(master, job, DEFAULT_TOP_N);
    let cv_nodes = cv_ledger(&view);
    proof {
        law_tailored_view_passes_guard(master@, job.must(), job.nice(), DEFAULT_TOP_N as nat);
    }
    match guard(cv_nodes.as_slice(), master) {
        Ok(()) => {},
        Err(e) => {
            return Err(e);
        },
    }
    let letter = build_cover_letter(&view, job, master);
    let lnodes = letter_nodes(&letter);
    proof {
        law_letter_passes_guard(master@, job.must(), DEFAULT_TOP_N as nat);
    }
    match guard(lnodes.as_slice(), master) {
        Ok(()) => {},
        Err(e) => {
            return Err(e);
        },
    }
    Ok(PreparedApplication { coverage, view, letter })
}

} // verus!
