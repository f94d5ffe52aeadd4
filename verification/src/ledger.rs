//! The evidence-ledger guard.
//!
//! Every claim-bearing output node carries a source evidence id: a CV bullet the id of
//! the achievement it was copied from, the CV summary `summary:<index>`, a cover-letter
//! strength the id of the achievement it wraps. Scaffold nodes (greeting, closing) make
//! no claim and are exempt. The guard passes only when every claim-bearing node
//! resolves in the loaded master CV; otherwise it blocks export and names each
//! offending node.

use crate::tailor::{
    first_n, ordered_experiences, pick_summary_spec, ranked_spec, summary_label, tailored_cv_spec,
    tailored_experience, tailored_experiences, visible, TailoredView,
};
use crate::order::{lemma_sorted_indices_perm, sorted_indices};
use crate::text::{decimal_chars, push_all, strs};
use crate::types::{opt_str, AchievementModel, CoreError, ExperienceModel, MasterCv, MasterCvModel};
use vstd::prelude::*;

verus! {

/// A node of the evidence ledger: one line of generated output.
#[derive(Debug, Clone, PartialEq)]
pub struct LedgerNode {
    /// Stable label used when naming a blocked node, e.g. `cv.bullet[exp_1_0_b0]`.
    pub node: String,
    /// The claimed source evidence id; `None` only for scaffold.
    pub source_evidence_id: Option<String>,
    /// Scaffold nodes assert no experience claim and are exempt.
    pub scaffold: bool,
}

/// The model of a node: label, claimed source, scaffold flag.
pub open spec fn node_model(n: LedgerNode) -> (Seq<char>, Option<Seq<char>>, bool) {
    (n.node@, opt_str(n.source_evidence_id), n.scaffold)
}

pub open spec fn nodes_model(v: Seq<LedgerNode>) -> Seq<(Seq<char>, Option<Seq<char>>, bool)> {
    v.map_values(|n: LedgerNode| node_model(n))
}

impl LedgerNode {
    /// A claim-bearing node with its source evidence id.
    pub fn claim(node: &str, source: &str) -> (r: LedgerNode)
        ensures
            node_model(r) == (node@, Some(source@), false),
    {
        LedgerNode { node: String::from_str(node), source_evidence_id: Some(String::from_str(source)), scaffold: false }
    }

    /// A scaffold node: no claim, exempt from the guard.
    pub fn scaffold(node: &str) -> (r: LedgerNode)
        ensures
            node_model(r) == (node@, None::<Seq<char>>, true),
    {
        LedgerNode { node: String::from_str(node), source_evidence_id: None, scaffold: true }
    }
}

// ── specifications ───────────────────────────────────────────────────────────────

/// The ids that resolve in a master CV: every achievement id, and `summary:<i>` for
/// each summary variant.
pub open spec fn resolvable_set(cv: MasterCvModel) -> Set<Seq<char>> {
    Set::new(
        |id: Seq<char>|
            (exists|e: int, k: int|
                0 <= e < cv.experience.len() && 0 <= k < cv.experience[e].achievements_tasks.len()
                    && #[trigger] cv.experience[e].achievements_tasks[k].id == id) || exists|i: nat|
                i < cv.summary_variants.len() && id == #[trigger] summary_label(i),
    )
}

/// The complaint about one node, if it offends.
pub open spec fn offense(n: (Seq<char>, Option<Seq<char>>, bool), universe: Set<Seq<char>>) -> Option<Seq<char>> {
    if n.2 {
        None
    } else {
        match n.1 {
            None => Some(n.0 + " (missing sourceEvidenceId)"@),
            Some(id) => if universe.contains(id) {
                None
            } else {
                Some(n.0 + " (dangling sourceEvidenceId '"@ + id + "')"@)
            },
        }
    }
}

/// The complaints about `nodes`, in order.
pub open spec fn offenders(nodes: Seq<(Seq<char>, Option<Seq<char>>, bool)>, universe: Set<Seq<char>>) -> Seq<Seq<char>>
    decreases nodes.len(),
{
    if nodes.len() == 0 {
        Seq::empty()
    } else {
        offenders(nodes.drop_last(), universe) + match offense(nodes.last(), universe) {
            Some(c) => seq![c],
            None => Seq::empty(),
        }
    }
}

/// The bullet nodes of experiences `es`: one per achievement, in order.
pub open spec fn bullet_nodes(es: Seq<ExperienceModel>) -> Seq<(Seq<char>, Option<Seq<char>>, bool)>
    decreases es.len(),
{
    if es.len() == 0 {
        Seq::empty()
    } else {
        bullet_nodes(es.drop_last()) + es.last().achievements_tasks.map_values(
            |a: AchievementModel| ("cv.bullet["@ + a.id + "]"@, Some(a.id), false),
        )
    }
}

/// The ledger of a tailored CV: the summary node (when a summary was chosen), then
/// one node per rendered bullet.
pub open spec fn cv_ledger_spec(cv: MasterCvModel, provenance: Option<Seq<char>>) -> Seq<(Seq<char>, Option<Seq<char>>, bool)> {
    let head = match provenance {
        Some(p) => seq![("cv.summary"@, Some(p), false)],
        None => Seq::empty(),
    };
    head + bullet_nodes(cv.experience)
}

/// `ps` joined with `"; "`.
pub open spec fn join_semicolon(ps: Seq<Seq<char>>) -> Seq<char> {
    crate::tailor::join_spec(ps, "; "@)
}

// ── executable ───────────────────────────────────────────────────────────────────

/// The resolvable ids of a master CV (see [`resolvable_set`]).
pub fn resolvable_ids(cv: &MasterCv) -> (r: Vec<String>)
    ensures
        strs(r@).to_set() == resolvable_set(cv@),
{
    let ghost rs = resolvable_set(cv@);
    let mut ids: Vec<String> = Vec::new();
    let ghost es = cv@.experience;
    let mut e: usize = 0;
    while e < cv.experience.len()
        invariant
            e <= cv.experience@.len(),
            es == cv@.experience,
            es.len() == cv.experience@.len(),
            forall|t: Seq<char>| #[trigger] strs(ids@).contains(t) <==> exists|x: int, k: int|
                0 <= x < e && 0 <= k < es[x].achievements_tasks.len() && #[trigger] es[x].achievements_tasks[k].id == t,
        decreases cv.experience@.len() - e,
    {
        let exp = &cv.experience[e];
        let ghost base = strs(ids@);
        let mut k: usize = 0;
        while k < exp.achievements_tasks.len()
            invariant
                k <= exp.achievements_tasks@.len(),
                e < es.len(),
                es[e as int] == exp@,
                forall|t: Seq<char>| #[trigger] strs(ids@).contains(t) <==> (base.contains(t) || exists|j: int|
                    0 <= j < k && #[trigger] es[e as int].achievements_tasks[j].id == t),
            decreases exp.achievements_tasks@.len() - k,
        {
            let ghost pre = strs(ids@);
            ids.push(exp.achievements_tasks[k].id.clone());
            proof {
                assert(strs(ids@) =~= pre.push(exp.achievements_tasks@[k as int].id@));
                assert(es[e as int].achievements_tasks[k as int].id == exp.achievements_tasks@[k as int].id@);
                assert forall|t: Seq<char>| #[trigger] strs(ids@).contains(t) <==> (base.contains(t) || exists|j: int|
                    0 <= j < k + 1 && #[trigger] es[e as int].achievements_tasks[j].id == t) by {
                    if strs(ids@).contains(t) {
                        let q = choose|q: int| 0 <= q < strs(ids@).len() && strs(ids@)[q] == t;
                        if q < pre.len() {
                            assert(pre[q] == t);
                            assert(pre.contains(t));
                        }
                    }
                    if pre.contains(t) {
                        let q = choose|q: int| 0 <= q < pre.len() && pre[q] == t;
                        assert(strs(ids@)[q] == t);
                    }
                    if t == es[e as int].achievements_tasks[k as int].id {
                        assert(strs(ids@)[pre.len() as int] == t);
                    }
                }
            }
            k += 1;
        }
        proof {
            assert forall|t: Seq<char>| #[trigger] strs(ids@).contains(t) <==> exists|x: int, j: int|
                0 <= x < e + 1 && 0 <= j < es[x].achievements_tasks.len() && #[trigger] es[x].achievements_tasks[j].id == t by {
                if strs(ids@).contains(t) && !base.contains(t) {
                    let j = choose|j: int| 0 <= j < k && #[trigger] es[e as int].achievements_tasks[j].id == t;
                    assert(es[e as int].achievements_tasks[j].id == t);
                }
                if exists|x: int, j: int|
                    0 <= x < e + 1 && 0 <= j < es[x].achievements_tasks.len() && #[trigger] es[x].achievements_tasks[j].id == t {
                    let (x, j) = choose|x: int, j: int|
                        0 <= x < e + 1 && 0 <= j < es[x].achievements_tasks.len() && #[trigger] es[x].achievements_tasks[j].id == t;
                    if x < e {
                        assert(base.contains(t));
                    } else {
                        assert(es[e as int].achievements_tasks[j].id == t);
                    }
                }
            }
        }
        e += 1;
    }
    let ghost ach_part = strs(ids@);
    let mut i: usize = 0;
    while i < cv.summary_variants.len()
        invariant
            i <= cv.summary_variants@.len(),
            es == cv@.experience,
            forall|t: Seq<char>| #[trigger] strs(ids@).contains(t) <==> (ach_part.contains(t) || exists|j: nat|
                j < i && t == #[trigger] summary_label(j)),
            forall|t: Seq<char>| #[trigger] ach_part.contains(t) <==> exists|x: int, k: int|
                0 <= x < es.len() && 0 <= k < es[x].achievements_tasks.len() && #[trigger] es[x].achievements_tasks[k].id == t,
        decreases cv.summary_variants@.len() - i,
    {
        let ghost pre = strs(ids@);
        ids.push(crate::tailor::summary_label_of(i));
        proof {
            assert(strs(ids@) =~= pre.push(summary_label(i as nat)));
            assert forall|t: Seq<char>| #[trigger] strs(ids@).contains(t) <==> (ach_part.contains(t) || exists|j: nat|
                j < i + 1 && t == #[trigger] summary_label(j)) by {
                if strs(ids@).contains(t) {
                    let q = choose|q: int| 0 <= q < strs(ids@).len() && strs(ids@)[q] == t;
                    if q < pre.len() {
                        assert(pre[q] == t);
                        assert(pre.contains(t));
                    } else {
                        assert(t == summary_label(i as nat));
                    }
                }
                if pre.contains(t) {
                    let q = choose|q: int| 0 <= q < pre.len() && pre[q] == t;
                    assert(strs(ids@)[q] == t);
                }
                if exists|j: nat| j < i + 1 && t == #[trigger] summary_label(j) {
                    let j = choose|j: nat| j < i + 1 && t == #[trigger] summary_label(j);
                    if j == i {
                        assert(strs(ids@)[pre.len() as int] == t);
                    } else {
                        assert(pre.contains(t));
                    }
                }
            }
        }
        i += 1;
    }
    assert(strs(ids@).to_set() =~= rs);
    ids
}

fn bracketed(prefix: &str, body: &String, suffix: &str) -> (r: String)
    ensures
        r@ == prefix@ + body@ + suffix@,
{
    let mut s = String::from_str(prefix);
    s.append(body.as_str());
    s.append(suffix);
    s
}

/// The ledger of a tailored CV view: the summary node when a summary was chosen, then
/// one node per rendered bullet.
pub fn cv_ledger(view: &TailoredView) -> (r: Vec<LedgerNode>)
    ensures
        nodes_model(r@) == cv_ledger_spec(view.cv@, opt_str(view.summary_provenance)),
{
    let mut nodes: Vec<LedgerNode> = Vec::new();
    match &view.summary_provenance {
        Some(prov) => {
            nodes.push(LedgerNode { node: String::from_str("cv.summary"), source_evidence_id: Some(prov.clone()), scaffold: false });
        },
        None => {},
    }
    let ghost head = nodes_model(nodes@);
    let ghost es = view.cv@.experience;
    assert(es.take(0) =~= Seq::<ExperienceModel>::empty());
    assert(nodes_model(nodes@) =~= head + bullet_nodes(es.take(0)));
    let mut e: usize = 0;
    while e < view.cv.experience.len()
        invariant
            e <= view.cv.experience@.len(),
            es == view.cv@.experience,
            es.len() == view.cv.experience@.len(),
            nodes_model(nodes@) == head + bullet_nodes(es.take(e as int)),
        decreases view.cv.experience@.len() - e,
    {
        let exp = &view.cv.experience[e];
        let ghost xs = exp@.achievements_tasks;
        let ghost f = |a: AchievementModel| ("cv.bullet["@ + a.id + "]"@, Some(a.id), false);
        let ghost base = nodes_model(nodes@);
        let mut k: usize = 0;
        assert(base + xs.map_values(f).take(0) =~= base);
        while k < exp.achievements_tasks.len()
            invariant
                k <= exp.achievements_tasks@.len(),
                xs == exp@.achievements_tasks,
                xs.len() == exp.achievements_tasks@.len(),
                f == (|a: AchievementModel| ("cv.bullet["@ + a.id + "]"@, Some(a.id), false)),
                nodes_model(nodes@) == base + xs.map_values(f).take(k as int),
            decreases exp.achievements_tasks@.len() - k,
        {
            let a = &exp.achievements_tasks[k];
            let ghost pre = nodes_model(nodes@);
            let label = bracketed("cv.bullet[", &a.id, "]");
            nodes.push(LedgerNode { node: label, source_evidence_id: Some(a.id.clone()), scaffold: false });
            proof {
                assert(xs[k as int] == a@);
                assert(nodes_model(nodes@) =~= pre.push(f(a@)));
                assert(xs.map_values(f).take(k + 1) =~= xs.map_values(f).take(k as int).push(f(a@)));
            }
            k += 1;
        }
        proof {
            assert(xs.map_values(f).take(xs.len() as int) =~= xs.map_values(f));
            assert(es[e as int] == exp@);
            assert(es.take(e + 1).drop_last() =~= es.take(e as int));
            assert(nodes_model(nodes@) =~= head + bullet_nodes(es.take(e + 1)));
        }
        e += 1;
    }
    assert(es.take(es.len() as int) =~= es);
    nodes
}

/// The guard: passes (`Ok`) exactly when every claim-bearing node resolves in
/// `master`; otherwise blocks with `LedgerBlocked`, naming every offending node (in
/// order, joined by "; "). Scaffold nodes are skipped.
pub fn guard(nodes: &[LedgerNode], master: &MasterCv) -> (r: Result<(), CoreError>)
    ensures
        match r {
            Ok(_) => offenders(nodes_model(nodes@), resolvable_set(master@)).len() == 0,
            Err(e) => offenders(nodes_model(nodes@), resolvable_set(master@)).len() > 0 && (e matches CoreError::LedgerBlocked(d)
                && d@ == join_semicolon(offenders(nodes_model(nodes@), resolvable_set(master@)))),
        },
{
    let universe = resolvable_ids(master);
    let ghost u = resolvable_set(master@);
    let ghost nm = nodes_model(nodes@);
    let mut offs: Vec<String> = Vec::new();
    let mut i: usize = 0;
    assert(nm.take(0) =~= Seq::<(Seq<char>, Option<Seq<char>>, bool)>::empty());
    while i < nodes.len()
        invariant
            i <= nodes@.len(),
            nm == nodes_model(nodes@),
            strs(universe@).to_set() == u,
            strs(offs@) == offenders(nm.take(i as int), u),
        decreases nodes@.len() - i,
    {
        let n = &nodes[i];
        proof {
            assert(nm[i as int] == node_model(*n));
            assert(nm.take(i + 1).drop_last() =~= nm.take(i as int));
            assert(nm.take(i + 1).last() == nm[i as int]);
        }
        let ghost pre = strs(offs@);
        if !n.scaffold {
            match &n.source_evidence_id {
                None => {
                    let mut s = n.node.clone();
                    s.append(" (missing sourceEvidenceId)");
                    offs.push(s);
                    assert(strs(offs@) =~= pre.push(n.node@ + " (missing sourceEvidenceId)"@));
                },
                Some(id) => {
                    if !crate::normalize::contains_string(&universe, id) {
                        let mut s = n.node.clone();
                        s.append(" (dangling sourceEvidenceId '");
                        s.append(id.as_str());
                        s.append("')");
                        offs.push(s);
                        assert(strs(offs@) =~= pre.push(n.node@ + " (dangling sourceEvidenceId '"@ + id@ + "')"@));
                    } else {
                        assert(u.contains(id@));
                        assert(strs(offs@) =~= pre + Seq::<Seq<char>>::empty());
                    }
                },
            }
        } else {
            assert(strs(offs@) =~= pre + Seq::<Seq<char>>::empty());
        }
        i += 1;
    }
    assert(nm.take(nm.len() as int) =~= nm);
    if offs.len() == 0 {
        Ok(())
    } else {
        Err(CoreError::LedgerBlocked(crate::tailor::join_strings(&offs, "; ")))
    }
}

// ── the central law ──────────────────────────────────────────────────────────────

proof fn lemma_visible_members(es: Seq<ExperienceModel>, i: int)
    requires
        0 <= i < visible(es).len(),
    ensures
        exists|k: int| 0 <= k < es.len() && es[k] == visible(es)[i],
    decreases es.len(),
{
    let v0 = visible(es.drop_last());
    if es.last().hide == Some(true) {
        lemma_visible_members(es.drop_last(), i);
        let k = choose|k: int| 0 <= k < es.drop_last().len() && es.drop_last()[k] == visible(es.drop_last())[i];
        assert(es[k] == visible(es)[i]);
    } else if i < v0.len() {
        lemma_visible_members(es.drop_last(), i);
        let k = choose|k: int| 0 <= k < es.drop_last().len() && es.drop_last()[k] == visible(es.drop_last())[i];
        assert(es[k] == visible(es)[i]);
    } else {
        assert(es[es.len() - 1] == visible(es)[i]);
    }
}

proof fn lemma_sorted_index_bound(keys: Seq<(Seq<i64>, Seq<char>)>, n: nat, i: int)
    requires
        0 <= i < n,
    ensures
        sorted_indices(keys, n).len() == n,
        sorted_indices(keys, n)[i] < n,
{
    lemma_sorted_indices_perm(keys, n);
    let s = sorted_indices(keys, n);
    assert(s.contains(s[i]));
}

/// Every bullet of the tailored view is an achievement of the master CV.
pub proof fn lemma_tailored_bullets_resolve(m: MasterCvModel, must: Seq<Seq<char>>, n: nat, x: int, k: int)
    requires
        0 <= x < tailored_experiences(m.experience, must, n).len(),
        0 <= k < tailored_experiences(m.experience, must, n)[x].achievements_tasks.len(),
    ensures
        resolvable_set(m).contains(tailored_experiences(m.experience, must, n)[x].achievements_tasks[k].id),
{
    let es = m.experience;
    let v = visible(es);
    let oe = ordered_experiences(es);
    let kv = v.map_values(|e: ExperienceModel| crate::tailor::experience_key(e));
    lemma_sorted_indices_perm(kv, v.len());
    assert(x < v.len());
    lemma_sorted_index_bound(kv, v.len(), x);
    let q = sorted_indices(kv, v.len())[x] as int;
    assert(v[q] == oe[x]);
    lemma_visible_members(es, q);
    let p = choose|p: int| 0 <= p < es.len() && es[p] == v[q];
    let e = oe[x];
    let r = ranked_spec(e, must);
    let xs = e.achievements_tasks;
    assert(tailored_experiences(es, must, n)[x] == tailored_experience(e, must, n));
    assert(first_n(r, n)[k] == r[k]);
    let ka = xs.map_values(|a: AchievementModel| crate::tailor::achievement_key(a, e, must));
    lemma_sorted_indices_perm(ka, xs.len());
    assert(r.len() == xs.len());
    assert(k < xs.len());
    lemma_sorted_index_bound(ka, xs.len(), k);
    let j = sorted_indices(ka, xs.len())[k] as int;
    assert(xs[j] == r[k]);
    assert(es[p].achievements_tasks[j].id == r[k].id);
}

pub proof fn lemma_offenders_empty(nodes: Seq<(Seq<char>, Option<Seq<char>>, bool)>, u: Set<Seq<char>>)
    requires
        forall|i: int| 0 <= i < nodes.len() ==> offense(#[trigger] nodes[i], u) is None,
    ensures
        offenders(nodes, u).len() == 0,
    decreases nodes.len(),
{
    if nodes.len() > 0 {
        assert forall|i: int| 0 <= i < nodes.drop_last().len() implies offense(#[trigger] nodes.drop_last()[i], u) is None by {
            assert(nodes.drop_last()[i] == nodes[i]);
        }
        lemma_offenders_empty(nodes.drop_last(), u);
        assert(offense(nodes[nodes.len() - 1], u) is None);
    }
}

pub proof fn lemma_bullet_nodes_shape(es: Seq<ExperienceModel>, i: int)
    requires
        0 <= i < bullet_nodes(es).len(),
    ensures
        exists|x: int, k: int|
            0 <= x < es.len() && 0 <= k < es[x].achievements_tasks.len() && bullet_nodes(es)[i] == (
                "cv.bullet["@ + es[x].achievements_tasks[k].id + "]"@,
                Some(es[x].achievements_tasks[k].id),
                false,
            ),
    decreases es.len(),
{
    let b0 = bullet_nodes(es.drop_last());
    if i < b0.len() {
        lemma_bullet_nodes_shape(es.drop_last(), i);
        let (x, k) = choose|x: int, k: int|
            0 <= x < es.drop_last().len() && 0 <= k < es.drop_last()[x].achievements_tasks.len() && b0[i] == (
                "cv.bullet["@ + es.drop_last()[x].achievements_tasks[k].id + "]"@,
                Some(es.drop_last()[x].achievements_tasks[k].id),
                false,
            );
        assert(es[x] == es.drop_last()[x]);
    } else {
        let k = i - b0.len();
        assert(bullet_nodes(es)[i] == (
            "cv.bullet["@ + es[es.len() - 1].achievements_tasks[k].id + "]"@,
            Some(es[es.len() - 1].achievements_tasks[k].id),
            false,
        ));
    }
}

/// The ledger of a tailored view passes the guard against the master it was tailored
/// from: every bullet is a master achievement and the summary provenance names an
/// existing variant.
pub proof fn law_tailored_view_passes_guard(m: MasterCvModel, must: Seq<Seq<char>>, nice: Seq<Seq<char>>, n: nat)
    ensures
        offenders(
            cv_ledger_spec(
                tailored_cv_spec(m, must, nice, n),
                match pick_summary_spec(m.summary_variants, must, nice) {
                    Some(p) => Some(p.1),
                    None => None::<Seq<char>>,
                },
            ),
            resolvable_set(m),
        ).len() == 0,
{
    let u = resolvable_set(m);
    let prov = match pick_summary_spec(m.summary_variants, must, nice) {
        Some(p) => Some(p.1),
        None => None::<Seq<char>>,
    };
    let tv = tailored_cv_spec(m, must, nice, n);
    let nodes = cv_ledger_spec(tv, prov);
    let head = match prov {
        Some(p) => seq![("cv.summary"@, Some(p), false)],
        None => Seq::<(Seq<char>, Option<Seq<char>>, bool)>::empty(),
    };
    let te = tailored_experiences(m.experience, must, n);
    assert(tv.experience == te);
    assert forall|i: int| 0 <= i < nodes.len() implies offense(#[trigger] nodes[i], u) is None by {
        if i < head.len() {
            let vs = m.summary_variants;
            let req = crate::tailor::requirement_tokens(must, nice);
            crate::tailor::lemma_best_summary_bound(vs, req);
            let b = crate::tailor::best_summary(vs, req);
            assert(nodes[i] == ("cv.summary"@, Some(summary_label(b)), false));
            assert(u.contains(summary_label(b)));
        } else {
            let j = i - head.len();
            assert(nodes[i] == bullet_nodes(te)[j]);
            lemma_bullet_nodes_shape(te, j);
            let (x, k) = choose|x: int, k: int|
                0 <= x < te.len() && 0 <= k < te[x].achievements_tasks.len() && bullet_nodes(te)[j] == (
                    "cv.bullet["@ + te[x].achievements_tasks[k].id + "]"@,
                    Some(te[x].achievements_tasks[k].id),
                    false,
                );
            lemma_tailored_bullets_resolve(m, must, n, x, k);
        }
    }
    lemma_offenders_empty(nodes, u);
}

/// A claim node whose evidence id is missing or does not resolve in the master blocks
/// the guard, and its complaint is among those the guard names: a fabricated or
/// swapped citation can never pass.
pub proof fn law_unresolved_claim_blocks(nodes: Seq<(Seq<char>, Option<Seq<char>>, bool)>, u: Set<Seq<char>>, i: int)
    requires
        0 <= i < nodes.len(),
        !nodes[i].2,
        nodes[i].1 matches Some(id) ==> !u.contains(id),
    ensures
        offenders(nodes, u).len() > 0,
        offenders(nodes, u).contains(offense(nodes[i], u)->0),
    decreases nodes.len(),
{
    let d = nodes.drop_last();
    if i == nodes.len() - 1 {
        assert(nodes.last() == nodes[i]);
        let c = offense(nodes[i], u)->0;
        assert(offenders(nodes, u) == offenders(d, u) + seq![c]);
        assert(offenders(nodes, u)[offenders(d, u).len() as int] == c);
    } else {
        assert(d[i] == nodes[i]);
        law_unresolved_claim_blocks(d, u, i);
        let tail = match offense(nodes.last(), u) {
            Some(c) => seq![c],
            None => Seq::<Seq<char>>::empty(),
        };
        assert(offenders(nodes, u) == offenders(d, u) + tail);
        let k = offenders(d, u).index_of(offense(nodes[i], u)->0);
        assert((offenders(d, u) + tail)[k] == offenders(d, u)[k]);
    }
}

} // verus!
