//! Bullet ranking, the summary pick, and the tailored view.
//!
//! Ranking key, highest priority first: matches a must-have requirement; has metrics;
//! higher evidence strength; more recent owning experience (start date); the
//! emphasise flag; then ascending achievement id, so the order is total.
//!
//! The summary is the variant with the most requirement-token overlap (lowest index
//! on ties), taken verbatim, with provenance `summary:<index>`.
//!
//! The tailored view is a filtered, reordered copy of the master CV: hidden
//! experiences dropped, experiences most recent first (then by id), each keeping its
//! top-N ranked achievements.

use crate::job::NormalizedJob;
use crate::matching::{add_phrases, add_tokens, any_shared, phrases_tokens, shares, tok_set};
use crate::normalize::{normalized_set, seed_aliases, seed_map, AliasMap};
use crate::order::{key_before, key_views, sort_indices, sorted_indices, SortKey};
use crate::text::{
    char_vecs, chars_of, decimal, decimal_chars, eq_ignore_ascii_case, eq_ignore_ascii_case_spec, lowercase_of,
    parse_i32, parse_i32_spec, push_all, split_nonempty, starts_with, starts_with_chars, string_of, strs,
    to_lowercase, trim, trim_str, words, Sep,
};
use crate::types::{
    achievements_model, copy_achievements, copy_opt, experiences_model, opt_str, Achievement, AchievementModel,
    Experience, ExperienceModel, MasterCv, MasterCvModel, PersonModel,
};
use vstd::prelude::*;

verus! {

/// Default cap on achievements rendered per role.
pub const DEFAULT_TOP_N: usize = 3;

// ── recency ──────────────────────────────────────────────────────────────────────

/// The month abbreviations, January first.
pub open spec fn month_names() -> Seq<Seq<char>> {
    seq![
        "jan"@, "feb"@, "mar"@, "apr"@, "may"@, "jun"@, "jul"@, "aug"@, "sep"@, "oct"@, "nov"@,
        "dec"@,
    ]
}

/// The first month, from index `from` on, whose abbreviation starts `lp`.
pub open spec fn month_index(lp: Seq<char>, from: nat) -> Option<nat>
    decreases 12 - from,
{
    if from >= 12 {
        None
    } else if starts_with(lp, month_names()[from as int]) {
        Some(from)
    } else {
        month_index(lp, from + 1)
    }
}

/// One word of a date read into `(year, month)`: a month word sets the month, an
/// integer word sets the year, anything else is ignored.
pub open spec fn recency_step(acc: (i32, u32), part: Seq<char>) -> (i32, u32) {
    match month_index(lowercase_of(part), 0) {
        Some(m) => (acc.0, (m + 1) as u32),
        None => match parse_i32_spec(part) {
            Some(y) => (y, acc.1),
            None => acc,
        },
    }
}

/// The words of a date folded from `(0, 0)`.
pub open spec fn recency_fold(parts: Seq<Seq<char>>) -> (i32, u32)
    decreases parts.len(),
{
    if parts.len() == 0 {
        (0, 0)
    } else {
        recency_step(recency_fold(parts.drop_last()), parts.last())
    }
}

/// The sortable `(year, month)` of a start date; "present" (any ASCII case) is the
/// most recent possible.
pub open spec fn recency_spec(date: Seq<char>) -> (i32, u32) {
    let d = trim(date);
    if eq_ignore_ascii_case_spec(d, "present"@) {
        (i32::MAX, 12)
    } else {
        recency_fold(words(d))
    }
}

fn month_table() -> (r: Vec<Vec<char>>)
    ensures
        char_vecs(r@) == month_names(),
{
    let mut v: Vec<Vec<char>> = Vec::new();
    v.push(chars_of("jan"));
    v.push(chars_of("feb"));
    v.push(chars_of("mar"));
    v.push(chars_of("apr"));
    v.push(chars_of("may"));
    v.push(chars_of("jun"));
    v.push(chars_of("jul"));
    v.push(chars_of("aug"));
    v.push(chars_of("sep"));
    v.push(chars_of("oct"));
    v.push(chars_of("nov"));
    v.push(chars_of("dec"));
    assert(char_vecs(v@) =~= month_names());
    v
}

/// Parse a start date like "Jul 2023" or "Present" into a sortable `(year, month)`.
/// Unknown parts are ignored; a date with no recognisable part is `(0, 0)`.
pub fn recency_key(date: &str) -> (r: (i32, u32))
    ensures
        r == recency_spec(date@),
{
    let d = trim_str(date);
    let present = chars_of("present");
    if eq_ignore_ascii_case(&d, &present) {
        return (2147483647, 12);
    }
    let months = month_table();
    assert(months@.len() == 12) by {
        assert(char_vecs(months@).len() == months@.len());
    }
    let parts = split_nonempty(&d, Sep::Space);
    let ghost ps = char_vecs(parts@);
    let mut month: u32 = 0;
    let mut year: i32 = 0;
    let mut i: usize = 0;
    assert(ps.take(0) =~= Seq::<Seq<char>>::empty());
    while i < parts.len()
        invariant
            i <= parts@.len(),
            ps == char_vecs(parts@),
            char_vecs(months@) == month_names(),
            months@.len() == 12,
            (year, month) == recency_fold(ps.take(i as int)),
        decreases parts@.len() - i,
    {
        let part_str = string_of(&parts[i]);
        let lp = chars_of(to_lowercase(part_str.as_str()).as_str());
        let mut m: usize = 0;
        let mut found: bool = false;
        while m < 12 && !found
            invariant
                m <= 12,
                char_vecs(months@) == month_names(),
                months@.len() == 12,
                lp@ == lowercase_of(parts@[i as int]@),
                found ==> m >= 1 && month_index(lp@, 0) == Some((m - 1) as nat),
                !found ==> month_index(lp@, 0) == month_index(lp@, m as nat),
            decreases 12 - m + if found { 0int } else { 1int },
        {
            assert(months@[m as int]@ == char_vecs(months@)[m as int]);
            if starts_with_chars(&lp, &months[m]) {
                found = true;
            }
            m += 1;
        }
        proof {
            assert(ps.take(i + 1).drop_last() =~= ps.take(i as int));
            assert(ps.take(i + 1).last() == parts@[i as int]@);
        }
        if found {
            month = m as u32;
        } else {
            match parse_i32(&parts[i]) {
                Some(y) => {
                    year = y;
                },
                None => {},
            }
        }
        i += 1;
    }
    assert(ps.take(ps.len() as int) =~= ps);
    (year, month)
}

// ── the must-have match ──────────────────────────────────────────────────────────

/// The tokens of an achievement in the context of its experience (seed aliases):
/// description, achievement tags, experience tags.
pub open spec fn ranking_tokens(a: AchievementModel, e: ExperienceModel) -> Set<Seq<char>> {
    let al = seed_map();
    tok_set(a.description, al) + phrases_tokens(a.tags, al) + phrases_tokens(e.tags, al)
}

/// An achievement matches one requirement.
pub open spec fn matches_req_spec(a: AchievementModel, e: ExperienceModel, req: Seq<char>) -> bool {
    shares(tok_set(req, seed_map()), ranking_tokens(a, e))
}

/// An achievement matches some must-have requirement.
pub open spec fn matches_must_spec(a: AchievementModel, e: ExperienceModel, must: Seq<Seq<char>>) -> bool {
    exists|k: int| 0 <= k < must.len() && #[trigger] matches_req_spec(a, e, must[k])
}

fn ranking_token_list(a: &Achievement, e: &Experience, aliases: &AliasMap) -> (r: Vec<String>)
    requires
        aliases@ == seed_map(),
    ensures
        strs(r@).to_set() == ranking_tokens(a@, e@),
{
    let mut toks: Vec<String> = Vec::new();
    assert(strs(toks@).to_set() =~= Set::<Seq<char>>::empty());
    add_tokens(&mut toks, a.description.as_str(), aliases);
    add_phrases(&mut toks, &a.tags, aliases);
    add_phrases(&mut toks, &e.tags, aliases);
    assert(strs(toks@).to_set() =~= ranking_tokens(a@, e@));
    toks
}

fn matches_req(toks: &Vec<String>, req: &String, aliases: &AliasMap) -> (r: bool)
    ensures
        r == shares(tok_set(req@, aliases@), strs(toks@).to_set()),
{
    let rs = normalized_set(req.as_str(), aliases);
    let r = any_shared(&rs, toks);
    proof {
        if r {
            let t = choose|t: Seq<char>| strs(rs@).contains(t) && strs(toks@).contains(t);
            assert(tok_set(req@, aliases@).contains(t) && strs(toks@).to_set().contains(t));
        } else {
            assert forall|t: Seq<char>| !(tok_set(req@, aliases@).contains(t) && strs(toks@).to_set().contains(t)) by {
                if tok_set(req@, aliases@).contains(t) && strs(toks@).to_set().contains(t) {
                    assert(strs(rs@).contains(t) && strs(toks@).contains(t));
                }
            }
        }
    }
    r
}

/// Whether an achievement (with its experience's tags) matches any must-have
/// requirement.
fn matches_must(a: &Achievement, exp: &Experience, must: &Vec<String>) -> (r: bool)
    ensures
        r == matches_must_spec(a@, exp@, strs(must@)),
{
    let aliases = seed_aliases();
    let toks = ranking_token_list(a, exp, &aliases);
    let mut i: usize = 0;
    while i < must.len()
        invariant
            i <= must@.len(),
            aliases@ == seed_map(),
            strs(toks@).to_set() == ranking_tokens(a@, exp@),
            forall|k: int| 0 <= k < i ==> !#[trigger] matches_req_spec(a@, exp@, strs(must@)[k]),
        decreases must@.len() - i,
    {
        if matches_req(&toks, &must[i], &aliases) {
            assert(matches_req_spec(a@, exp@, strs(must@)[i as int]));
            return true;
        }
        i += 1;
    }
    false
}

// ── ranking ──────────────────────────────────────────────────────────────────────

pub open spec fn flag(b: bool) -> i64 {
    if b {
        1
    } else {
        0
    }
}

/// The ranking key of an achievement within its experience.
pub open spec fn achievement_key(a: AchievementModel, e: ExperienceModel, must: Seq<Seq<char>>) -> (Seq<i64>, Seq<char>) {
    let rk = recency_spec(e.start_date);
    (
        seq![
            flag(matches_must_spec(a, e, must)),
            flag(a.metrics.len() > 0),
            match a.evidence_strength_milli {
                Some(s) => s,
                None => 0,
            },
            rk.0 as i64,
            rk.1 as i64,
            flag(a.emphasise == Some(true)),
        ],
        a.id,
    )
}

/// The achievements of `e`, best first.
pub open spec fn ranked_spec(e: ExperienceModel, must: Seq<Seq<char>>) -> Seq<AchievementModel> {
    let xs = e.achievements_tasks;
    sorted_indices(xs.map_values(|a: AchievementModel| achievement_key(a, e, must)), xs.len()).map_values(
        |i: nat| xs[i as int],
    )
}

/// At most the first `n` members of `s`.
pub open spec fn first_n<T>(s: Seq<T>, n: nat) -> Seq<T> {
    if n < s.len() {
        s.take(n as int)
    } else {
        s
    }
}

/// `e` keeping its top-`n` ranked achievements.
pub open spec fn tailored_experience(e: ExperienceModel, must: Seq<Seq<char>>, n: nat) -> ExperienceModel {
    ExperienceModel { achievements_tasks: first_n(ranked_spec(e, must), n), ..e }
}

fn bool_rank(b: bool) -> (r: i64)
    ensures
        r == flag(b),
{
    if b {
        1
    } else {
        0
    }
}

fn achievement_sort_key(a: &Achievement, exp: &Experience, must: &Vec<String>) -> (r: SortKey)
    ensures
        r@ == achievement_key(a@, exp@, strs(must@)),
{
    let m = matches_must(a, exp, must);
    let rk = recency_key(exp.start_date.as_str());
    let strength: i64 = match a.evidence_strength_milli {
        Some(s) => s,
        None => 0,
    };
    let emph = match a.emphasise {
        Some(b) => b,
        None => false,
    };
    let mut rank: Vec<i64> = Vec::new();
    rank.push(bool_rank(m));
    rank.push(bool_rank(a.metrics.len() > 0));
    rank.push(strength);
    rank.push(rk.0 as i64);
    rank.push(rk.1 as i64);
    rank.push(bool_rank(emph));
    let r = SortKey { rank, id: chars_of(a.id.as_str()) };
    assert(r@.0 =~= achievement_key(a@, exp@, strs(must@)).0);
    r
}

/// The achievements of `exp`, ranked, the first `top_n` kept.
fn rank_within(exp: &Experience, must: &Vec<String>, top_n: usize) -> (r: Vec<Achievement>)
    ensures
        achievements_model(r@) == first_n(ranked_spec(exp@, strs(must@)), top_n as nat),
{
    let ghost xs = exp@.achievements_tasks;
    let ghost kv = xs.map_values(|a: AchievementModel| achievement_key(a, exp@, strs(must@)));
    let mut keys: Vec<SortKey> = Vec::new();
    let mut i: usize = 0;
    while i < exp.achievements_tasks.len()
        invariant
            i <= exp.achievements_tasks@.len(),
            xs == exp@.achievements_tasks,
            xs.len() == exp.achievements_tasks@.len(),
            kv == xs.map_values(|a: AchievementModel| achievement_key(a, exp@, strs(must@))),
            key_views(keys@) == kv.take(i as int),
        decreases exp.achievements_tasks@.len() - i,
    {
        let ghost pre = key_views(keys@);
        let k = achievement_sort_key(&exp.achievements_tasks[i], exp, must);
        keys.push(k);
        proof {
            assert(xs[i as int] == exp.achievements_tasks@[i as int]@);
            assert(key_views(keys@) =~= pre.push(kv[i as int]));
            assert(kv.take(i + 1) =~= kv.take(i as int).push(kv[i as int]));
        }
        i += 1;
    }
    assert(kv.take(kv.len() as int) =~= kv);
    let order = sort_indices(&keys);
    let ghost perm = sorted_indices(kv, xs.len());
    let ghost full = perm.map_values(|j: nat| xs[j as int]);
    let limit: usize = if top_n < order.len() { top_n } else { order.len() };
    let mut out: Vec<Achievement> = Vec::new();
    let mut j: usize = 0;
    while j < limit
        invariant
            j <= limit <= order@.len(),
            limit as nat == if (top_n as nat) < full.len() { top_n as nat } else { full.len() },
            order@.len() == xs.len(),
            xs == exp@.achievements_tasks,
            xs.len() == exp.achievements_tasks@.len(),
            order@.map_values(|x: usize| x as nat) == perm,
            full == perm.map_values(|x: nat| xs[x as int]),
            forall|k: int| 0 <= k < order@.len() ==> #[trigger] order@[k] < xs.len(),
            achievements_model(out@) == full.take(j as int),
        decreases limit - j,
    {
        let idx = order[j];
        let ghost pre = achievements_model(out@);
        out.push(exp.achievements_tasks[idx].copy());
        proof {
            assert(perm[j as int] == idx as nat);
            assert(achievements_model(out@) =~= pre.push(xs[idx as int]));
            assert(full.take(j + 1) =~= full.take(j as int).push(xs[idx as int]));
        }
        j += 1;
    }
    assert(full.len() == xs.len());
    assert(limit as nat == full.len() ==> full.take(limit as int) =~= full);
    out
}

// ── experiences ──────────────────────────────────────────────────────────────────

/// The experiences not marked hidden, in order.
pub open spec fn visible(es: Seq<ExperienceModel>) -> Seq<ExperienceModel>
    decreases es.len(),
{
    if es.len() == 0 {
        es
    } else if es.last().hide == Some(true) {
        visible(es.drop_last())
    } else {
        visible(es.drop_last()).push(es.last())
    }
}

/// The ordering key of an experience: more recent first, then by id.
pub open spec fn experience_key(e: ExperienceModel) -> (Seq<i64>, Seq<char>) {
    let rk = recency_spec(e.start_date);
    (seq![rk.0 as i64, rk.1 as i64], e.id)
}

/// The visible experiences, most recent first.
pub open spec fn ordered_experiences(es: Seq<ExperienceModel>) -> Seq<ExperienceModel> {
    let v = visible(es);
    sorted_indices(v.map_values(|e: ExperienceModel| experience_key(e)), v.len()).map_values(|i: nat| v[i as int])
}

/// The experiences of the tailored view.
pub open spec fn tailored_experiences(es: Seq<ExperienceModel>, must: Seq<Seq<char>>, n: nat) -> Seq<ExperienceModel> {
    ordered_experiences(es).map_values(|e: ExperienceModel| tailored_experience(e, must, n))
}

/// The achievement ids of `es`, experience by experience.
pub open spec fn selected_spec(es: Seq<ExperienceModel>) -> Seq<Seq<char>>
    decreases es.len(),
{
    if es.len() == 0 {
        Seq::empty()
    } else {
        selected_spec(es.drop_last()) + es.last().achievements_tasks.map_values(|a: AchievementModel| a.id)
    }
}

fn visible_experiences(cv: &MasterCv) -> (r: Vec<&Experience>)
    ensures
        r@.map_values(|e: &Experience| e@) == visible(cv@.experience),
{
    let ghost es = cv@.experience;
    let mut out: Vec<&Experience> = Vec::new();
    let mut i: usize = 0;
    assert(es.take(0) =~= Seq::<ExperienceModel>::empty());
    while i < cv.experience.len()
        invariant
            i <= cv.experience@.len(),
            es == cv@.experience,
            es.len() == cv.experience@.len(),
            out@.map_values(|e: &Experience| e@) == visible(es.take(i as int)),
        decreases cv.experience@.len() - i,
    {
        let e = &cv.experience[i];
        proof {
            assert(es[i as int] == e@);
            assert(es.take(i + 1).drop_last() =~= es.take(i as int));
        }
        let hidden = match e.hide {
            Some(h) => h,
            None => false,
        };
        if !hidden {
            let ghost pre = out@.map_values(|e: &Experience| e@);
            out.push(e);
            assert(out@.map_values(|e: &Experience| e@) =~= pre.push(e@));
        }
        i += 1;
    }
    assert(es.take(es.len() as int) =~= es);
    out
}

fn experience_sort_key(e: &Experience) -> (r: SortKey)
    ensures
        r@ == experience_key(e@),
{
    let rk = recency_key(e.start_date.as_str());
    let mut rank: Vec<i64> = Vec::new();
    rank.push(rk.0 as i64);
    rank.push(rk.1 as i64);
    let r = SortKey { rank, id: chars_of(e.id.as_str()) };
    assert(r@.0 =~= experience_key(e@).0);
    r
}

fn ordered(cv: &MasterCv) -> (r: Vec<&Experience>)
    ensures
        r@.map_values(|e: &Experience| e@) == ordered_experiences(cv@.experience),
{
    let vis = visible_experiences(cv);
    let ghost v = visible(cv@.experience);
    let ghost kv = v.map_values(|e: ExperienceModel| experience_key(e));
    let mut keys: Vec<SortKey> = Vec::new();
    let mut i: usize = 0;
    while i < vis.len()
        invariant
            i <= vis@.len(),
            vis@.map_values(|e: &Experience| e@) == v,
            kv == v.map_values(|e: ExperienceModel| experience_key(e)),
            key_views(keys@) == kv.take(i as int),
        decreases vis@.len() - i,
    {
        let ghost pre = key_views(keys@);
        keys.push(experience_sort_key(vis[i]));
        proof {
            assert(v[i as int] == vis@[i as int]@);
            assert(key_views(keys@) =~= pre.push(kv[i as int]));
            assert(kv.take(i + 1) =~= kv.take(i as int).push(kv[i as int]));
        }
        i += 1;
    }
    assert(kv.take(kv.len() as int) =~= kv);
    let order = sort_indices(&keys);
    let ghost perm = sorted_indices(kv, v.len());
    let mut out: Vec<&Experience> = Vec::new();
    let mut j: usize = 0;
    while j < order.len()
        invariant
            j <= order@.len(),
            order@.len() == v.len(),
            vis@.map_values(|e: &Experience| e@) == v,
            order@.map_values(|x: usize| x as nat) == perm,
            forall|k: int| 0 <= k < order@.len() ==> #[trigger] order@[k] < v.len(),
            out@.map_values(|e: &Experience| e@) == perm.map_values(|x: nat| v[x as int]).take(j as int),
        decreases order@.len() - j,
    {
        let idx = order[j];
        let ghost pre = out@.map_values(|e: &Experience| e@);
        out.push(vis[idx]);
        proof {
            assert(perm[j as int] == idx as nat);
            assert(out@.map_values(|e: &Experience| e@) =~= pre.push(v[idx as int]));
            assert(perm.map_values(|x: nat| v[x as int]).take(j + 1) =~= perm.map_values(|x: nat| v[x as int]).take(
                j as int,
            ).push(v[idx as int]));
        }
        j += 1;
    }
    assert(perm.map_values(|x: nat| v[x as int]).take(perm.len() as int) =~= perm.map_values(|x: nat| v[x as int]));
    out
}

// ── the summary ──────────────────────────────────────────────────────────────────

/// The tokens of every requirement (must-have, then nice-to-have), seed aliases.
pub open spec fn requirement_tokens(must: Seq<Seq<char>>, nice: Seq<Seq<char>>) -> Set<Seq<char>> {
    phrases_tokens(must + nice, seed_map())
}

/// How many members of `ts` are in `req`.
pub open spec fn count_in(ts: Seq<Seq<char>>, req: Set<Seq<char>>) -> nat
    decreases ts.len(),
{
    if ts.len() == 0 {
        0
    } else {
        count_in(ts.drop_last(), req) + if req.contains(ts.last()) {
            1nat
        } else {
            0nat
        }
    }
}

/// The requirement-token overlap of a summary variant.
pub open spec fn overlap(v: Seq<char>, req: Set<Seq<char>>) -> nat {
    count_in(crate::normalize::normalized_set_spec(v, seed_map()), req)
}

/// The index of the first variant with the greatest overlap.
pub open spec fn best_summary(vs: Seq<Seq<char>>, req: Set<Seq<char>>) -> nat
    decreases vs.len(),
{
    if vs.len() <= 1 {
        0
    } else {
        let b = best_summary(vs.drop_last(), req);
        if overlap(vs.last(), req) > overlap(vs[b as int], req) {
            (vs.len() - 1) as nat
        } else {
            b
        }
    }
}

/// The provenance label of summary variant `i`.
pub open spec fn summary_label(i: nat) -> Seq<char> {
    "summary:"@ + decimal(i)
}

/// The chosen summary and its provenance, if the CV has variants.
pub open spec fn pick_summary_spec(vs: Seq<Seq<char>>, must: Seq<Seq<char>>, nice: Seq<Seq<char>>) -> Option<(Seq<char>, Seq<char>)> {
    if vs.len() == 0 {
        None
    } else {
        let b = best_summary(vs, requirement_tokens(must, nice));
        Some((vs[b as int], summary_label(b)))
    }
}

pub proof fn lemma_best_summary_bound(vs: Seq<Seq<char>>, req: Set<Seq<char>>)
    requires
        vs.len() > 0,
    ensures
        best_summary(vs, req) < vs.len(),
    decreases vs.len(),
{
    if vs.len() > 1 {
        lemma_best_summary_bound(vs.drop_last(), req);
    }
}

fn count_overlap(vt: &Vec<String>, req: &Vec<String>) -> (r: u64)
    ensures
        r as nat == count_in(strs(vt@), strs(req@).to_set()),
{
    let ghost ts = strs(vt@);
    let mut c: u64 = 0;
    let mut i: usize = 0;
    assert(ts.take(0) =~= Seq::<Seq<char>>::empty());
    while i < vt.len()
        invariant
            i <= vt@.len(),
            ts == strs(vt@),
            c as nat == count_in(ts.take(i as int), strs(req@).to_set()),
            c <= i,
        decreases vt@.len() - i,
    {
        assert(ts.take(i + 1).drop_last() =~= ts.take(i as int));
        assert(ts.take(i + 1).last() == vt@[i as int]@);
        if crate::normalize::contains_string(req, &vt[i]) {
            c = c + 1;
        }
        i += 1;
    }
    assert(ts.take(ts.len() as int) =~= ts);
    c
}

/// The `summary:<i>` label.
pub fn summary_label_of(i: usize) -> (r: String)
    ensures
        r@ == summary_label(i as nat),
{
    let mut s = String::from_str("summary:");
    let d = decimal_chars(i as u64);
    push_all(&mut s, &d);
    s
}

/// The best summary variant: the most requirement-token overlap, lowest index on
/// ties, verbatim, with provenance `summary:<index>`. `None` if there are no variants.
pub fn pick_summary(cv: &MasterCv, job: &NormalizedJob) -> (r: Option<(String, String)>)
    ensures
        match r {
            Some(p) => pick_summary_spec(cv@.summary_variants, job.must(), job.nice()) == Some((p.0@, p.1@)),
            None => pick_summary_spec(cv@.summary_variants, job.must(), job.nice()) is None,
        },
{
    if cv.summary_variants.len() == 0 {
        return None;
    }
    let aliases = seed_aliases();
    let mut req: Vec<String> = Vec::new();
    assert(strs(req@).to_set() =~= Set::<Seq<char>>::empty());
    add_phrases(&mut req, &job.requirements.must_have, &aliases);
    let ghost after_must = strs(req@).to_set();
    add_phrases(&mut req, &job.requirements.nice_to_have, &aliases);
    let ghost rq = requirement_tokens(job.must(), job.nice());
    proof {
        lemma_phrases_tokens_append(job.must(), job.nice(), seed_map());
        assert(strs(req@).to_set() =~= rq);
    }
    let ghost vs = cv@.summary_variants;
    let mut best_idx: usize = 0;
    let mut best_overlap: u64 = 0;
    let mut i: usize = 0;
    while i < cv.summary_variants.len()
        invariant
            i <= cv.summary_variants@.len(),
            vs == cv@.summary_variants,
            vs.len() == cv.summary_variants@.len(),
            vs.len() > 0,
            aliases@ == seed_map(),
            strs(req@).to_set() == rq,
            i > 0 ==> best_idx as nat == best_summary(vs.take(i as int), rq),
            i > 0 ==> best_idx < i && best_overlap as nat == overlap(vs[best_idx as int], rq),
            i == 0 ==> best_idx == 0,
        decreases cv.summary_variants@.len() - i,
    {
        let vt = normalized_set(cv.summary_variants[i].as_str(), &aliases);
        let ov = count_overlap(&vt, &req);
        proof {
            assert(vs[i as int] == cv.summary_variants@[i as int]@);
            assert(vs.take(i + 1).drop_last() =~= vs.take(i as int));
            assert(vs.take(i + 1).last() == vs[i as int]);
            if i > 0 {
                assert(vs.take(i as int)[best_idx as int] == vs[best_idx as int]);
                assert(vs.take(i + 1)[best_idx as int] == vs[best_idx as int]);
            }
        }
        if i == 0 || ov > best_overlap {
            best_overlap = ov;
            best_idx = i;
        }
        i += 1;
    }
    proof {
        assert(vs.take(vs.len() as int) =~= vs);
        lemma_best_summary_bound(vs, rq);
    }
    Some((cv.summary_variants[best_idx].clone(), summary_label_of(best_idx)))
}

proof fn lemma_phrases_tokens_append(a: Seq<Seq<char>>, b: Seq<Seq<char>>, al: Map<Seq<char>, Seq<char>>)
    ensures
        phrases_tokens(a + b, al) == phrases_tokens(a, al) + phrases_tokens(b, al),
    decreases b.len(),
{
    if b.len() == 0 {
        assert(a + b =~= a);
        assert(phrases_tokens(a, al) + Set::<Seq<char>>::empty() =~= phrases_tokens(a, al));
    } else {
        lemma_phrases_tokens_append(a, b.drop_last(), al);
        assert((a + b).drop_last() =~= a + b.drop_last());
        assert((a + b).last() == b.last());
        assert(phrases_tokens(a + b, al) =~= phrases_tokens(a, al) + phrases_tokens(b, al));
    }
}

// ── the requirement behind a bullet ──────────────────────────────────────────────

/// The first must-have requirement, from index `from` on, that an achievement matches.
pub open spec fn first_req_index(a: AchievementModel, e: ExperienceModel, must: Seq<Seq<char>>, from: nat) -> Option<nat>
    decreases must.len() - from,
{
    if from >= must.len() {
        None
    } else if matches_req_spec(a, e, must[from as int]) {
        Some(from)
    } else {
        first_req_index(a, e, must, from + 1)
    }
}

/// Scanning the achievements `xs` of `e` in order: the requirement matched by the first
/// achievement with this id that matches any.
pub open spec fn req_in_achievements(e: ExperienceModel, xs: Seq<AchievementModel>, id: Seq<char>, must: Seq<Seq<char>>) -> Option<Seq<char>>
    decreases xs.len(),
{
    if xs.len() == 0 {
        None
    } else if xs[0].id == id && first_req_index(xs[0], e, must, 0) is Some {
        Some(must[first_req_index(xs[0], e, must, 0)->0 as int])
    } else {
        req_in_achievements(e, xs.drop_first(), id, must)
    }
}

/// The same scan across experiences, in document order.
pub open spec fn req_in_experiences(es: Seq<ExperienceModel>, id: Seq<char>, must: Seq<Seq<char>>) -> Option<Seq<char>>
    decreases es.len(),
{
    if es.len() == 0 {
        None
    } else {
        match req_in_achievements(es[0], es[0].achievements_tasks, id, must) {
            Some(r) => Some(r),
            None => req_in_experiences(es.drop_first(), id, must),
        }
    }
}

/// The members of `ps` joined with `sep`.
pub open spec fn join_spec(ps: Seq<Seq<char>>, sep: Seq<char>) -> Seq<char>
    decreases ps.len(),
{
    if ps.len() == 0 {
        Seq::empty()
    } else if ps.len() == 1 {
        ps[0]
    } else {
        join_spec(ps.drop_last(), sep) + sep + ps.last()
    }
}

/// The requirement a bullet is tailored toward: the first must-have requirement
/// matched by the achievement with this id, else all must-haves joined by ", ".
pub open spec fn requirement_for_spec(cv: MasterCvModel, must: Seq<Seq<char>>, id: Seq<char>) -> Seq<char> {
    match req_in_experiences(cv.experience, id, must) {
        Some(r) => r,
        None => join_spec(must, ", "@),
    }
}

/// Joins strings with a separator.
pub fn join_strings(ps: &Vec<String>, sep: &str) -> (r: String)
    ensures
        r@ == join_spec(strs(ps@), sep@),
{
    let mut out = String::new();
    let ghost p = strs(ps@);
    let mut i: usize = 0;
    assert(p.take(0) =~= Seq::<Seq<char>>::empty());
    while i < ps.len()
        invariant
            i <= ps@.len(),
            p == strs(ps@),
            out@ == join_spec(p.take(i as int), sep@),
        decreases ps@.len() - i,
    {
        assert(p.take(i + 1).drop_last() =~= p.take(i as int));
        assert(p.take(i + 1).last() == ps@[i as int]@);
        if i > 0 {
            out.append(sep);
        } else {
            assert(out@ =~= Seq::<char>::empty());
            assert(p.take(1)[0] == ps@[0]@);
        }
        out.append(ps[i].as_str());
        proof {
            if i == 0 {
                assert(out@ =~= ps@[0]@);
            }
        }
        i += 1;
    }
    assert(p.take(p.len() as int) =~= p);
    out
}

/// The top-matching must-have requirement for the achievement with this id, or, when
/// none matches (or the id is unknown), all must-have requirements joined by ", ".
pub fn requirement_for(cv: &MasterCv, job: &NormalizedJob, evidence_id: &str) -> (r: String)
    ensures
        r@ == requirement_for_spec(cv@, job.must(), evidence_id@),
{
    let must = &job.requirements.must_have;
    let ghost m = job.must();
    let ghost es = cv@.experience;
    let aliases = seed_aliases();
    let id = String::from_str(evidence_id);
    let mut i: usize = 0;
    assert(es.skip(0) =~= es);
    while i < cv.experience.len()
        invariant
            i <= cv.experience@.len(),
            es == cv@.experience,
            es.len() == cv.experience@.len(),
            m == strs(must@),
            m == job.must(),
            aliases@ == seed_map(),
            id@ == evidence_id@,
            req_in_experiences(es, evidence_id@, m) == req_in_experiences(es.skip(i as int), evidence_id@, m),
        decreases cv.experience@.len() - i,
    {
        let exp = &cv.experience[i];
        let ghost xs = exp@.achievements_tasks;
        proof {
            assert(es.skip(i as int)[0] == exp@);
            assert(es.skip(i as int).drop_first() =~= es.skip(i + 1));
        }
        let mut j: usize = 0;
        assert(xs.skip(0) =~= xs);
        while j < exp.achievements_tasks.len()
            invariant
                j <= exp.achievements_tasks@.len(),
                xs == exp@.achievements_tasks,
                xs.len() == exp.achievements_tasks@.len(),
                m == strs(must@),
                m == job.must(),
                aliases@ == seed_map(),
                id@ == evidence_id@,
                req_in_achievements(exp@, xs, evidence_id@, m) == req_in_achievements(exp@, xs.skip(j as int), evidence_id@, m),
                i < es.len(),
                es == cv@.experience,
                es.skip(i as int)[0] == exp@,
                es.skip(i as int).len() > 0,
                req_in_experiences(es, evidence_id@, m) == req_in_experiences(es.skip(i as int), evidence_id@, m),
            decreases exp.achievements_tasks@.len() - j,
        {
            let a = &exp.achievements_tasks[j];
            proof {
                assert(xs.skip(j as int)[0] == a@);
                assert(xs.skip(j as int).drop_first() =~= xs.skip(j + 1));
            }
            if a.id == id {
                let toks = ranking_token_list(a, exp, &aliases);
                let mut k: usize = 0;
                while k < must.len()
                    invariant
                        k <= must@.len(),
                        m == strs(must@),
                        aliases@ == seed_map(),
                        strs(toks@).to_set() == ranking_tokens(a@, exp@),
                        first_req_index(a@, exp@, m, 0) == first_req_index(a@, exp@, m, k as nat),
                        a@.id == evidence_id@,
                        m == job.must(),
                        es == cv@.experience,
                        xs == exp@.achievements_tasks,
                        xs.skip(j as int)[0] == a@,
                        xs.skip(j as int).len() > 0,
                        req_in_achievements(exp@, xs, evidence_id@, m) == req_in_achievements(exp@, xs.skip(j as int), evidence_id@, m),
                        es.skip(i as int)[0] == exp@,
                        es.skip(i as int).len() > 0,
                        req_in_experiences(es, evidence_id@, m) == req_in_experiences(es.skip(i as int), evidence_id@, m),
                    decreases must@.len() - k,
                {
                    if matches_req(&toks, &must[k], &aliases) {
                        proof {
                            assert(matches_req_spec(a@, exp@, m[k as int]));
                            assert(first_req_index(a@, exp@, m, k as nat) == Some(k as nat));
                            assert(req_in_achievements(exp@, xs.skip(j as int), evidence_id@, m) == Some(m[k as int]));
                            assert(es.skip(i as int)[0].achievements_tasks == xs);
                            assert(req_in_experiences(es.skip(i as int), evidence_id@, m) == Some(m[k as int]));
                            assert(m[k as int] == must@[k as int]@);
                        }
                        return must[k].clone();
                    }
                    k += 1;
                }
            }
            j += 1;
        }
        i += 1;
    }
    join_strings(must, ", ")
}

// ── the tailored view ────────────────────────────────────────────────────────────

/// The tailored CV: a filtered/reordered master CV, with the chosen summary (if any)
/// placed first and in the description slot.
#[derive(Debug, Clone)]
pub struct TailoredView {
    pub cv: MasterCv,
    /// Provenance of the chosen summary, e.g. `summary:0` (`None` without variants).
    pub summary_provenance: Option<String>,
    /// The achievement ids backing the view, in rendered order.
    pub selected_ids: Vec<String>,
}

/// The model of the tailored CV.
pub open spec fn tailored_cv_spec(cv: MasterCvModel, must: Seq<Seq<char>>, nice: Seq<Seq<char>>, n: nat) -> MasterCvModel {
    let pick = pick_summary_spec(cv.summary_variants, must, nice);
    MasterCvModel {
        experience: tailored_experiences(cv.experience, must, n),
        summary_variants: match pick {
            Some(p) => seq![p.0],
            None => cv.summary_variants,
        },
        person: PersonModel {
            professional_description: match pick {
                Some(p) => Some(p.0),
                None => cv.person.professional_description,
            },
            ..cv.person
        },
        ..cv
    }
}

/// Assemble the tailored view of `cv` for `job`, keeping `top_n` achievements per role.
pub fn tailor(cv: &MasterCv, job: &NormalizedJob, top_n: usize) -> (r: TailoredView)
    ensures
        r.cv@ == tailored_cv_spec(cv@, job.must(), job.nice(), top_n as nat),
        opt_str(r.summary_provenance) == match pick_summary_spec(cv@.summary_variants, job.must(), job.nice()) {
            Some(p) => Some(p.1),
            None => None::<Seq<char>>,
        },
        strs(r.selected_ids@) == selected_spec(tailored_experiences(cv@.experience, job.must(), top_n as nat)),
{
    let must = &job.requirements.must_have;
    let ghost mst = job.must();
    let exps = ordered(cv);
    let ghost oe = ordered_experiences(cv@.experience);
    let ghost te = tailored_experiences(cv@.experience, mst, top_n as nat);
    let mut out: Vec<Experience> = Vec::new();
    let mut selected_ids: Vec<String> = Vec::new();
    let mut i: usize = 0;
    assert(te.take(0) =~= Seq::<ExperienceModel>::empty());
    while i < exps.len()
        invariant
            i <= exps@.len(),
            exps@.map_values(|e: &Experience| e@) == oe,
            te == oe.map_values(|e: ExperienceModel| tailored_experience(e, mst, top_n as nat)),
            mst == strs(must@),
            experiences_model(out@) == te.take(i as int),
            strs(selected_ids@) == selected_spec(te.take(i as int)),
        decreases exps@.len() - i,
    {
        let e = exps[i];
        let ranked = rank_within(e, must, top_n);
        let ghost ids_before = strs(selected_ids@);
        let ghost rk = achievements_model(ranked@);
        let mut j: usize = 0;
        while j < ranked.len()
            invariant
                j <= ranked@.len(),
                rk == achievements_model(ranked@),
                strs(selected_ids@) == ids_before + rk.map_values(|a: AchievementModel| a.id).take(j as int),
            decreases ranked@.len() - j,
        {
            let ghost pre = strs(selected_ids@);
            selected_ids.push(ranked[j].id.clone());
            assert(strs(selected_ids@) =~= pre.push(ranked@[j as int].id@));
            assert(rk.map_values(|a: AchievementModel| a.id).take(j + 1) =~= rk.map_values(|a: AchievementModel| a.id).take(
                j as int,
            ).push(ranked@[j as int].id@));
            j += 1;
        }
        let mut ne = e.copy();
        ne.achievements_tasks = ranked;
        let ghost pre = experiences_model(out@);
        out.push(ne);
        proof {
            assert(oe[i as int] == e@);
            assert(te[i as int] == tailored_experience(e@, mst, top_n as nat));
            assert(ne@ == te[i as int]);
            assert(experiences_model(out@) =~= pre.push(te[i as int]));
            assert(te.take(i + 1) =~= te.take(i as int).push(te[i as int]));
            assert(te.take(i + 1).drop_last() =~= te.take(i as int));
            assert(rk.map_values(|a: AchievementModel| a.id).take(rk.len() as int) =~= rk.map_values(|a: AchievementModel| a.id));
        }
        i += 1;
    }
    assert(te.take(te.len() as int) =~= te);
    let mut view = cv.copy();
    view.experience = out;
    let summary_provenance = match pick_summary(cv, job) {
        Some((text, prov)) => {
            let mut sv: Vec<String> = Vec::new();
            sv.push(text.clone());
            assert(strs(sv@) =~= seq![text@]);
            view.summary_variants = sv;
            view.person.professional_description = Some(text);
            Some(prov)
        },
        None => None,
    };
    TailoredView { cv: view, summary_provenance, selected_ids }
}

/// Every member of `visible(es)` is a member of `es` that is not marked hidden.
proof fn lemma_visible_members(es: Seq<ExperienceModel>, k: int)
    requires
        0 <= k < visible(es).len(),
    ensures
        visible(es)[k].hide != Some(true),
        es.contains(visible(es)[k]),
    decreases es.len(),
{
    let d = es.drop_last();
    if es.last().hide == Some(true) {
        lemma_visible_members(d, k);
        assert(es[d.index_of(visible(d)[k]) as int] == visible(d)[k]);
    } else if k < visible(d).len() {
        lemma_visible_members(d, k);
        assert(es[d.index_of(visible(d)[k]) as int] == visible(d)[k]);
    } else {
        assert(es[es.len() - 1] == es.last());
    }
}

/// `t` is `e` with its achievement list replaced by a selection of `e`'s own
/// achievements, each unchanged.
pub open spec fn same_role(t: ExperienceModel, e: ExperienceModel) -> bool {
    &&& e == (ExperienceModel { achievements_tasks: e.achievements_tasks, ..t })
    &&& forall|q: int| 0 <= q < t.achievements_tasks.len() ==> e.achievements_tasks.contains(#[trigger] t.achievements_tasks[q])
}

/// The tailored view keeps at most `n` achievements per role, drops every hidden
/// experience, and takes each of its experiences from the master CV, changing
/// nothing but which of its own achievements it keeps and in what order.
pub proof fn law_tailor_caps_and_filters(cv: MasterCvModel, must: Seq<Seq<char>>, nice: Seq<Seq<char>>, n: nat, k: int)
    requires
        0 <= k < tailored_cv_spec(cv, must, nice, n).experience.len(),
    ensures
        tailored_cv_spec(cv, must, nice, n).experience[k].achievements_tasks.len() <= n,
        tailored_cv_spec(cv, must, nice, n).experience[k].hide != Some(true),
        exists|i: int| 0 <= i < cv.experience.len() && same_role(tailored_cv_spec(cv, must, nice, n).experience[k], #[trigger] cv.experience[i]),
{
    let v = visible(cv.experience);
    let keys = v.map_values(|e: ExperienceModel| experience_key(e));
    crate::order::lemma_sorted_indices_perm(keys, v.len());
    let idx = sorted_indices(keys, v.len());
    assert(idx.contains(idx[k]));
    let e = v[idx[k] as int];
    lemma_visible_members(cv.experience, idx[k] as int);
    let i = cv.experience.index_of(e);
    assert(cv.experience[i] == e);
    let t = tailored_cv_spec(cv, must, nice, n).experience[k];
    assert(t == tailored_experience(e, must, n));
    let xs = e.achievements_tasks;
    let ka = xs.map_values(|a: AchievementModel| achievement_key(a, e, must));
    crate::order::lemma_sorted_indices_perm(ka, xs.len());
    let si = sorted_indices(ka, xs.len());
    let r = ranked_spec(e, must);
    assert forall|q: int| 0 <= q < t.achievements_tasks.len() implies xs.contains(#[trigger] t.achievements_tasks[q]) by {
        assert(t.achievements_tasks[q] == r[q]);
        assert(si.contains(si[q]));
        assert(r[q] == xs[si[q] as int]);
    }
    assert(same_role(t, cv.experience[i]));
}

/// The tailored view lists its experiences most recent first (then by id), and within
/// each role its achievements best first: no later entry strictly outranks an earlier.
pub proof fn law_tailor_best_first(cv: MasterCvModel, must: Seq<Seq<char>>, nice: Seq<Seq<char>>, n: nat)
    ensures
        forall|x: int, y: int|
            0 <= x < y < tailored_cv_spec(cv, must, nice, n).experience.len() ==> !key_before(
                experience_key(#[trigger] tailored_cv_spec(cv, must, nice, n).experience[y]),
                experience_key(#[trigger] tailored_cv_spec(cv, must, nice, n).experience[x]),
            ),
        forall|x: int, i: int, j: int|
            0 <= x < tailored_cv_spec(cv, must, nice, n).experience.len() && 0 <= i < j
                < tailored_cv_spec(cv, must, nice, n).experience[x].achievements_tasks.len() ==> !key_before(
                achievement_key(
                    #[trigger] tailored_cv_spec(cv, must, nice, n).experience[x].achievements_tasks[j],
                    tailored_cv_spec(cv, must, nice, n).experience[x],
                    must,
                ),
                achievement_key(
                    #[trigger] tailored_cv_spec(cv, must, nice, n).experience[x].achievements_tasks[i],
                    tailored_cv_spec(cv, must, nice, n).experience[x],
                    must,
                ),
            ),
{
    let t = tailored_cv_spec(cv, must, nice, n).experience;
    let v = visible(cv.experience);
    let keys = v.map_values(|e: ExperienceModel| experience_key(e));
    let idx = sorted_indices(keys, v.len());
    crate::order::lemma_sorted_indices_perm(keys, v.len());
    crate::order::law_sorted_indices_ordered(keys, v.len());
    assert forall|x: int, y: int| 0 <= x < y < t.len() implies !key_before(
        experience_key(#[trigger] t[y]),
        experience_key(#[trigger] t[x]),
    ) by {
        assert(idx.contains(idx[x]) && idx.contains(idx[y]));
        assert(t[x] == tailored_experience(v[idx[x] as int], must, n));
        assert(t[y] == tailored_experience(v[idx[y] as int], must, n));
        assert(keys[idx[x] as int] == experience_key(t[x]));
        assert(keys[idx[y] as int] == experience_key(t[y]));
    }
    assert forall|x: int, i: int, j: int|
        0 <= x < t.len() && 0 <= i < j < t[x].achievements_tasks.len() implies !key_before(
        achievement_key(#[trigger] t[x].achievements_tasks[j], t[x], must),
        achievement_key(#[trigger] t[x].achievements_tasks[i], t[x], must),
    ) by {
        assert(idx.contains(idx[x]));
        let e = v[idx[x] as int];
        assert(t[x] == tailored_experience(e, must, n));
        let xs = e.achievements_tasks;
        let ka = xs.map_values(|a: AchievementModel| achievement_key(a, e, must));
        assert forall|p: int, q: int| 0 <= p < ka.len() && 0 <= q < ka.len() implies #[trigger] ka[p].0.len()
            == #[trigger] ka[q].0.len() by {
        }
        crate::order::lemma_sorted_indices_perm(ka, xs.len());
        crate::order::law_sorted_indices_ordered(ka, xs.len());
        let si = sorted_indices(ka, xs.len());
        let r = ranked_spec(e, must);
        assert(t[x].achievements_tasks == first_n(r, n));
        assert(t[x].achievements_tasks[i] == r[i] && t[x].achievements_tasks[j] == r[j]);
        assert(si.contains(si[i]) && si.contains(si[j]));
        assert(r[i] == xs[si[i] as int] && r[j] == xs[si[j] as int]);
        assert forall|a: AchievementModel| #[trigger] achievement_key(a, t[x], must) == achievement_key(a, e, must) by {
            assert(ranking_tokens(a, t[x]) == ranking_tokens(a, e));
            assert forall|k: int| 0 <= k < must.len() implies #[trigger] matches_req_spec(a, t[x], must[k])
                == matches_req_spec(a, e, must[k]) by {}
            if matches_must_spec(a, t[x], must) {
                let k = choose|k: int| 0 <= k < must.len() && #[trigger] matches_req_spec(a, t[x], must[k]);
                assert(matches_req_spec(a, e, must[k]));
            }
            if matches_must_spec(a, e, must) {
                let k = choose|k: int| 0 <= k < must.len() && #[trigger] matches_req_spec(a, e, must[k]);
                assert(matches_req_spec(a, t[x], must[k]));
            }
        }
        assert(achievement_key(r[i], t[x], must) == ka[si[i] as int]);
        assert(achievement_key(r[j], t[x], must) == ka[si[j] as int]);
    }
}

/// The summary pick is the first variant of greatest requirement-token overlap: no
/// variant overlaps more, and every earlier variant overlaps strictly less.
pub proof fn law_summary_pick_is_first_maximum(vs: Seq<Seq<char>>, req: Set<Seq<char>>, k: int)
    requires
        0 <= k < vs.len(),
    ensures
        best_summary(vs, req) < vs.len(),
        overlap(vs[k], req) <= overlap(vs[best_summary(vs, req) as int], req),
        k < best_summary(vs, req) ==> overlap(vs[k], req) < overlap(vs[best_summary(vs, req) as int], req),
    decreases vs.len(),
{
    lemma_best_summary_bound(vs, req);
    if vs.len() > 1 {
        let d = vs.drop_last();
        lemma_best_summary_bound(d, req);
        let b = best_summary(d, req);
        assert(vs[b as int] == d[b as int]);
        if k < vs.len() - 1 {
            law_summary_pick_is_first_maximum(d, req, k);
            assert(vs[k] == d[k]);
        }
    }
}

/// The evidence strength an achievement ranks by (none counts as zero).
pub open spec fn strength_of(a: AchievementModel) -> i64 {
    match a.evidence_strength_milli {
        Some(s) => s,
        None => 0,
    }
}

/// Within each tailored role the achievements come in ranking order: one matching a
/// must-have requirement before one that matches none; among those alike on that,
/// one with metrics before one without; then the higher evidence strength first; then
/// an emphasised one first; and finally the smaller id first.
pub proof fn law_tailor_ranking_order(cv: MasterCvModel, must: Seq<Seq<char>>, nice: Seq<Seq<char>>, n: nat, x: int, i: int, j: int)
    requires
        0 <= x < tailored_cv_spec(cv, must, nice, n).experience.len(),
        0 <= i < j < tailored_cv_spec(cv, must, nice, n).experience[x].achievements_tasks.len(),
    ensures
        ({
            let e = tailored_cv_spec(cv, must, nice, n).experience[x];
            let a = e.achievements_tasks[i];
            let b = e.achievements_tasks[j];
            &&& matches_must_spec(b, e, must) ==> matches_must_spec(a, e, must)
            &&& matches_must_spec(a, e, must) == matches_must_spec(b, e, must) && b.metrics.len() > 0 ==> a.metrics.len() > 0
            &&& matches_must_spec(a, e, must) == matches_must_spec(b, e, must) && (a.metrics.len() > 0) == (b.metrics.len()
                > 0) ==> strength_of(a) >= strength_of(b)
            &&& matches_must_spec(a, e, must) == matches_must_spec(b, e, must) && (a.metrics.len() > 0) == (b.metrics.len()
                > 0) && strength_of(a) == strength_of(b) && b.emphasise == Some(true) ==> a.emphasise == Some(true)
            &&& matches_must_spec(a, e, must) == matches_must_spec(b, e, must) && (a.metrics.len() > 0) == (b.metrics.len()
                > 0) && strength_of(a) == strength_of(b) && (a.emphasise == Some(true)) == (b.emphasise == Some(true))
                ==> crate::order::id_order(b.id, a.id) >= 0
        }),
{
    law_tailor_best_first(cv, must, nice, n);
    let e = tailored_cv_spec(cv, must, nice, n).experience[x];
    let a = e.achievements_tasks[i];
    let b = e.achievements_tasks[j];
    let ka = achievement_key(a, e, must);
    let kb = achievement_key(b, e, must);
    assert(!key_before(kb, ka));
    reveal_with_fuel(crate::order::rank_order, 7);
    assert(kb.0.drop_first() =~= seq![kb.0[1], kb.0[2], kb.0[3], kb.0[4], kb.0[5]]);
    assert(ka.0.drop_first() =~= seq![ka.0[1], ka.0[2], ka.0[3], ka.0[4], ka.0[5]]);
    assert(kb.0.drop_first().drop_first() =~= seq![kb.0[2], kb.0[3], kb.0[4], kb.0[5]]);
    assert(ka.0.drop_first().drop_first() =~= seq![ka.0[2], ka.0[3], ka.0[4], ka.0[5]]);
    assert(kb.0.drop_first().drop_first().drop_first() =~= seq![kb.0[3], kb.0[4], kb.0[5]]);
    assert(ka.0.drop_first().drop_first().drop_first() =~= seq![ka.0[3], ka.0[4], ka.0[5]]);
    assert(kb.0.drop_first().drop_first().drop_first().drop_first() =~= seq![kb.0[4], kb.0[5]]);
    assert(ka.0.drop_first().drop_first().drop_first().drop_first() =~= seq![ka.0[4], ka.0[5]]);
    assert(kb.0.drop_first().drop_first().drop_first().drop_first().drop_first() =~= seq![kb.0[5]]);
    assert(ka.0.drop_first().drop_first().drop_first().drop_first().drop_first() =~= seq![ka.0[5]]);
    assert(seq![kb.0[5]].drop_first() =~= Seq::<i64>::empty());
}

/// The summary pick weighs every requirement, must-have and nice-to-have alike: it is
/// a variant of greatest overlap with the tokens of all of them together, the first
/// such, labelled with its position.
pub proof fn law_summary_pick_weighs_all_requirements(vs: Seq<Seq<char>>, must: Seq<Seq<char>>, nice: Seq<Seq<char>>)
    requires
        vs.len() > 0,
    ensures
        ({
            let req = phrases_tokens(must, seed_map()) + phrases_tokens(nice, seed_map());
            exists|b: int|
                0 <= b < vs.len() && pick_summary_spec(vs, must, nice) == Some((vs[b], summary_label(b as nat)))
                    && (forall|k: int| 0 <= k < vs.len() ==> overlap(#[trigger] vs[k], req) <= overlap(vs[b], req))
                    && (forall|k: int| 0 <= k < b ==> overlap(#[trigger] vs[k], req) < overlap(vs[b], req))
        }),
{
    let req = phrases_tokens(must, seed_map()) + phrases_tokens(nice, seed_map());
    lemma_phrases_tokens_append(must, nice, seed_map());
    assert(requirement_tokens(must, nice) == req);
    let b = best_summary(vs, req);
    assert forall|k: int| 0 <= k < vs.len() implies overlap(#[trigger] vs[k], req) <= overlap(vs[b as int], req) && (k < b
        ==> overlap(vs[k], req) < overlap(vs[b as int], req)) by {
        law_summary_pick_is_first_maximum(vs, req, k);
    }
    law_summary_pick_is_first_maximum(vs, req, 0);
    assert(pick_summary_spec(vs, must, nice) == Some((vs[b as int], summary_label(b))));
}

} // verus!
