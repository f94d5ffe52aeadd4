//! Job-ad text → normalised job, by fixed cue phrases.
//!
//! Must-have cues: required, must have, essential, you will need, minimum, mandatory.
//! Nice-to-have cues: preferred, desirable, bonus, nice to have, advantageous, ideally.
//! Cues are found case-insensitively; each cue owns the text up to the next cue, cut
//! back to the last sentence period before it, split on `;`.
//!
//! Cues and title markers are ASCII, so the scan reads an ASCII-lowercased copy of the
//! text: it lowers `A`–`Z` and keeps every other character, so each position found in
//! it is the same position in the raw text, and every text parses.

use crate::job::{NormalizedJob, Requirements};
use crate::text::{
    ascii_lower, chars_of, is_whitespace, is_ws, slice_vec, string_of, strs, to_ascii_lower, trim, trimmed,
};
use vstd::prelude::*;

verus! {

// ── alignment ────────────────────────────────────────────────────────────────────

/// The number of bytes UTF-8 takes for a char.
pub open spec fn utf8_width(c: char) -> nat {
    let u = c as u32;
    if u < 0x80 {
        1
    } else if u < 0x800 {
        2
    } else if u < 0x10000 {
        3
    } else {
        4
    }
}

/// A separator for the cue scan: whitespace or `:`.
pub open spec fn is_gap(c: char) -> bool {
    is_ws(c) || c == ':'
}

/// A lowercased copy lines up with the raw text: same length, same widths, gaps in the
/// same places.
pub open spec fn aligned(raw: Seq<char>, lower: Seq<char>) -> bool {
    &&& raw.len() == lower.len()
    &&& forall|i: int| 0 <= i < raw.len() ==> utf8_width(#[trigger] raw[i]) == utf8_width(lower[i])
    &&& forall|i: int| 0 <= i < raw.len() ==> is_gap(#[trigger] raw[i]) == is_gap(lower[i])
}

fn is_gap_char(c: char) -> (r: bool)
    ensures
        r == is_gap(c),
{
    is_whitespace(c) || c == ':'
}

/// The copy of a text the scan reads: `A`–`Z` lowered, every other character kept.
pub open spec fn scan_lower(raw: Seq<char>) -> Seq<char> {
    raw.map_values(|c: char| ascii_lower(c))
}

/// The scan copy lines up with the text it was made from.
pub proof fn lemma_scan_lower_aligned(raw: Seq<char>)
    ensures
        aligned(raw, scan_lower(raw)),
{
    assert forall|i: int| 0 <= i < raw.len() implies utf8_width(#[trigger] raw[i]) == utf8_width(
        scan_lower(raw)[i],
    ) && is_gap(raw[i]) == is_gap(scan_lower(raw)[i]) by {
        let c = raw[i];
        if 'A' <= c && c <= 'Z' {
            let u = ((c as u32) + 32) as u8;
            assert(97 <= u <= 122);
            assert((u as char) as u32 == u as u32);
        }
    }
}

/// The scan copy of a text.
fn ascii_lowered(v: &Vec<char>) -> (r: Vec<char>)
    ensures
        r@ == scan_lower(v@),
{
    let mut out: Vec<char> = Vec::new();
    let mut i: usize = 0;
    while i < v.len()
        invariant
            i <= v@.len(),
            out@ == scan_lower(v@).take(i as int),
        decreases v@.len() - i,
    {
        out.push(to_ascii_lower(v[i]));
        assert(out@ =~= scan_lower(v@).take(i + 1));
        i += 1;
    }
    assert(out@ =~= scan_lower(v@));
    out
}

// ── searching ────────────────────────────────────────────────────────────────────

/// The first position, from `from` on, where `needle` occurs in `h`.
pub open spec fn find_from(h: Seq<char>, needle: Seq<char>, from: nat) -> Option<nat>
    decreases h.len() + 1 - from,
{
    if from + needle.len() > h.len() {
        None
    } else if h.subrange(from as int, from + needle.len() as int) == needle {
        Some(from)
    } else {
        find_from(h, needle, from + 1)
    }
}

pub proof fn lemma_find_from_bounds(h: Seq<char>, needle: Seq<char>, from: nat)
    ensures
        find_from(h, needle, from) matches Some(p) ==> from <= p && p + needle.len() <= h.len() && h.subrange(
            p as int,
            p + needle.len() as int,
        ) == needle,
    decreases h.len() + 1 - from,
{
    if from + needle.len() <= h.len() && h.subrange(from as int, from + needle.len() as int) != needle {
        lemma_find_from_bounds(h, needle, from + 1);
    }
}

pub(crate) fn find_at(h: &Vec<char>, needle: &Vec<char>, from: usize) -> (r: Option<usize>)
    ensures
        match r {
            Some(p) => find_from(h@, needle@, from as nat) == Some(p as nat),
            None => find_from(h@, needle@, from as nat) is None,
        },
{
    let mut p = from;
    while p <= h.len() && needle.len() <= h.len() - p
        invariant
            find_from(h@, needle@, from as nat) == find_from(h@, needle@, p as nat),
        decreases h.len() + 1 - p,
    {
        let mut k: usize = 0;
        let mut same = true;
        while k < needle.len()
            invariant
                p + needle@.len() <= h@.len(),
                k <= needle@.len(),
                same == forall|j: int| 0 <= j < k ==> h@[p + j] == needle@[j],
            decreases needle@.len() - k,
        {
            assert(p + k < h.len());
            if h[p + k] != needle[k] {
                same = false;
            }
            k += 1;
        }
        proof {
            if same {
                assert(h@.subrange(p as int, p + needle@.len()) =~= needle@);
            } else {
                let j = choose|j: int| !(0 <= j < k ==> h@[p + j] == needle@[j]);
                assert(h@.subrange(p as int, p + needle@.len())[j] != needle@[j]);
            }
        }
        if same {
            return Some(p);
        }
        p += 1;
    }
    None
}

// ── cues ─────────────────────────────────────────────────────────────────────────

/// The cue phrases, must-have cues first, each with whether it marks a must-have.
pub open spec fn cues() -> Seq<(Seq<char>, bool)> {
    seq![
        ("required"@, true),
        ("must have"@, true),
        ("essential"@, true),
        ("you will need"@, true),
        ("minimum"@, true),
        ("mandatory"@, true),
        ("preferred"@, false),
        ("desirable"@, false),
        ("bonus"@, false),
        ("nice to have"@, false),
        ("advantageous"@, false),
        ("ideally"@, false),
    ]
}

/// The earliest cue occurrence from `from` among the first `k` cues (an earlier cue
/// wins a tie): its start, end and class.
pub open spec fn best_cue(lower: Seq<char>, from: nat, k: nat) -> Option<(nat, nat, bool)>
    decreases k,
{
    if k == 0 {
        None
    } else {
        let prev = best_cue(lower, from, (k - 1) as nat);
        let cue = cues()[k - 1];
        match find_from(lower, cue.0, from) {
            Some(s) => match prev {
                Some(b) => if s < b.0 {
                    Some((s, s + cue.0.len(), cue.1))
                } else {
                    prev
                },
                None => Some((s, s + cue.0.len(), cue.1)),
            },
            None => prev,
        }
    }
}

/// The earliest cue occurrence from `from`.
pub open spec fn next_cue_spec(lower: Seq<char>, from: nat) -> Option<(nat, nat, bool)> {
    best_cue(lower, from, 12)
}

pub proof fn lemma_best_cue_bounds(lower: Seq<char>, from: nat, k: nat)
    requires
        k <= 12,
    ensures
        best_cue(lower, from, k) matches Some(b) ==> from <= b.0 < b.1 <= lower.len() && !is_gap(lower[b.0 as int]),
    decreases k,
{
    if k > 0 {
        lemma_best_cue_bounds(lower, from, (k - 1) as nat);
        let cue = cues()[k - 1];
        lemma_find_from_bounds(lower, cue.0, from);
        reveal_strlit("required");
        reveal_strlit("must have");
        reveal_strlit("essential");
        reveal_strlit("you will need");
        reveal_strlit("minimum");
        reveal_strlit("mandatory");
        reveal_strlit("preferred");
        reveal_strlit("desirable");
        reveal_strlit("bonus");
        reveal_strlit("nice to have");
        reveal_strlit("advantageous");
        reveal_strlit("ideally");
        match find_from(lower, cue.0, from) {
            Some(s) => {
                assert(cue.0.len() > 0);
                assert(lower.subrange(s as int, s + cue.0.len() as int)[0] == cue.0[0]);
                assert(!is_gap(cue.0[0]));
            },
            None => {},
        }
    }
}

fn cue_table() -> (r: Vec<(Vec<char>, bool)>)
    ensures
        r@.map_values(|c: (Vec<char>, bool)| (c.0@, c.1)) == cues(),
{
    let mut v: Vec<(Vec<char>, bool)> = Vec::new();
    v.push((chars_of("required"), true));
    v.push((chars_of("must have"), true));
    v.push((chars_of("essential"), true));
    v.push((chars_of("you will need"), true));
    v.push((chars_of("minimum"), true));
    v.push((chars_of("mandatory"), true));
    v.push((chars_of("preferred"), false));
    v.push((chars_of("desirable"), false));
    v.push((chars_of("bonus"), false));
    v.push((chars_of("nice to have"), false));
    v.push((chars_of("advantageous"), false));
    v.push((chars_of("ideally"), false));
    assert(v@.map_values(|c: (Vec<char>, bool)| (c.0@, c.1)) =~= cues());
    v
}

/// The earliest cue occurrence in `lower` from `from`: start, end, is-must.
fn next_cue(lower: &Vec<char>, from: usize, table: &Vec<(Vec<char>, bool)>) -> (r: Option<(usize, usize, bool)>)
    requires
        table@.map_values(|c: (Vec<char>, bool)| (c.0@, c.1)) == cues(),
        from <= lower.len(),
    ensures
        match r {
            Some(t) => next_cue_spec(lower@, from as nat) == Some((t.0 as nat, t.1 as nat, t.2)),
            None => next_cue_spec(lower@, from as nat) is None,
        },
{
    let ghost tv = table@.map_values(|c: (Vec<char>, bool)| (c.0@, c.1));
    assert(table@.len() == 12) by {
        assert(tv.len() == table@.len());
    }
    let mut best: Option<(usize, usize, bool)> = None;
    let mut k: usize = 0;
    while k < 12
        invariant
            k <= 12,
            table@.len() == 12,
            tv == table@.map_values(|c: (Vec<char>, bool)| (c.0@, c.1)),
            tv == cues(),
            from <= lower@.len(),
            match best {
                Some(t) => best_cue(lower@, from as nat, k as nat) == Some((t.0 as nat, t.1 as nat, t.2)),
                None => best_cue(lower@, from as nat, k as nat) is None,
            },
        decreases 12 - k,
    {
        let (cue, is_must) = &table[k];
        assert(tv[k as int] == (cue@, *is_must));
        proof {
            lemma_find_from_bounds(lower@, cue@, from as nat);
        }
        match find_at(lower, cue, from) {
            Some(s) => {
                assert(s + cue@.len() <= lower@.len());
                assert(s + cue.len() <= lower.len());
                let end = s + cue.len();
                match best {
                    Some((bs, _, _)) => {
                        if s < bs {
                            best = Some((s, end, *is_must));
                        }
                    },
                    None => {
                        best = Some((s, end, *is_must));
                    },
                }
            },
            None => {},
        }
        k += 1;
    }
    best
}

// ── items ────────────────────────────────────────────────────────────────────────

/// `s` without its trailing periods.
pub open spec fn strip_periods(s: Seq<char>) -> Seq<char>
    decreases s.len(),
{
    if s.len() > 0 && s.last() == '.' {
        strip_periods(s.drop_last())
    } else {
        s
    }
}

/// One requirement item: trimmed, trailing periods dropped, trimmed again.
pub open spec fn clean_item(s: Seq<char>) -> Seq<char> {
    trim(strip_periods(trim(s)))
}

/// The non-empty cleaned items of `ps`.
pub open spec fn clean_items(ps: Seq<Seq<char>>) -> Seq<Seq<char>>
    decreases ps.len(),
{
    if ps.len() == 0 {
        Seq::empty()
    } else {
        clean_items(ps.drop_last()) + if clean_item(ps.last()).len() > 0 {
            seq![clean_item(ps.last())]
        } else {
            Seq::empty()
        }
    }
}

/// The requirement items of a cue body: split on `;`, cleaned, empties dropped.
pub open spec fn split_items_spec(body: Seq<char>) -> Seq<Seq<char>> {
    clean_items(crate::text::split_spec(body, crate::text::Sep::Semicolon))
}

fn strip_trailing_periods(v: &Vec<char>) -> (r: Vec<char>)
    ensures
        r@ == strip_periods(v@),
{
    let mut j = v.len();
    assert(v@.take(v@.len() as int) =~= v@);
    while j > 0 && v[j - 1] == '.'
        invariant
            j <= v@.len(),
            strip_periods(v@) == strip_periods(v@.take(j as int)),
        decreases j,
    {
        assert(v@.take(j as int).drop_last() =~= v@.take(j - 1));
        j -= 1;
    }
    let r = slice_vec(v, 0, j);
    assert(v@.subrange(0, j as int) =~= v@.take(j as int));
    r
}

fn split_items(body: &Vec<char>) -> (r: Vec<String>)
    ensures
        strs(r@) == split_items_spec(body@),
{
    let pieces = crate::text::split_chars(body, crate::text::Sep::Semicolon);
    let ghost ps = crate::text::split_spec(body@, crate::text::Sep::Semicolon);
    let mut out: Vec<String> = Vec::new();
    let mut i: usize = 0;
    assert(ps.take(0) =~= Seq::<Seq<char>>::empty());
    while i < pieces.len()
        invariant
            i <= pieces@.len(),
            crate::text::char_vecs(pieces@) == ps,
            strs(out@) == clean_items(ps.take(i as int)),
        decreases pieces@.len() - i,
    {
        assert(ps.take(i + 1).drop_last() =~= ps.take(i as int));
        assert(ps.take(i + 1).last() == pieces@[i as int]@);
        let t = trimmed(&strip_trailing_periods(&trimmed(&pieces[i])));
        let ghost pre = strs(out@);
        if t.len() > 0 {
            out.push(string_of(&t));
            assert(strs(out@) =~= pre + seq![t@]);
        } else {
            assert(pre + Seq::<Seq<char>>::empty() =~= pre);
        }
        i += 1;
    }
    assert(ps.take(ps.len() as int) =~= ps);
    out
}

// ── the parse ────────────────────────────────────────────────────────────────────

/// The first position from `from` that is not a gap, else `from` itself.
pub open spec fn body_start_from(raw: Seq<char>, from: nat, k: nat) -> nat
    decreases raw.len() - k,
{
    if k >= raw.len() {
        from
    } else if !is_gap(raw[k as int]) {
        k
    } else {
        body_start_from(raw, from, k + 1)
    }
}

/// The position of the last `.` in `s`.
pub open spec fn last_period(s: Seq<char>) -> Option<nat>
    decreases s.len(),
{
    if s.len() == 0 {
        None
    } else if s.last() == '.' {
        Some((s.len() - 1) as nat)
    } else {
        last_period(s.drop_last())
    }
}

/// A cue's body: the slice cut back to its last period, unless that leaves nothing
/// but whitespace.
pub open spec fn body_of(slice: Seq<char>) -> Seq<char> {
    let body = match last_period(slice) {
        Some(p) => slice.take(p as int),
        None => slice,
    };
    if trim(body).len() == 0 {
        slice
    } else {
        body
    }
}

/// The requirement items found from `cursor` on: (must-haves, nice-to-haves).
pub open spec fn scan_cues(raw: Seq<char>, lower: Seq<char>, cursor: nat) -> (Seq<Seq<char>>, Seq<Seq<char>>)
    decreases raw.len() + 1 - cursor,
{
    if cursor > raw.len() || raw.len() != lower.len() {
        (Seq::empty(), Seq::empty())
    } else {
        match next_cue_spec(lower, cursor) {
            Some((cs, ce, is_must)) => {
                proof {
                    lemma_best_cue_bounds(lower, cursor, 12);
                    lemma_best_cue_bounds(lower, ce, 12);
                }
                let bs = body_start_from(raw, ce, ce);
                let be = match next_cue_spec(lower, ce) {
                    Some(n) => n.0,
                    None => raw.len(),
                };
                let items = split_items_spec(body_of(raw.subrange(bs as int, be as int)));
                let rest = scan_cues(raw, lower, be);
                if is_must {
                    (items + rest.0, rest.1)
                } else {
                    (rest.0, items + rest.1)
                }
            },
            None => (Seq::empty(), Seq::empty()),
        }
    }
}

/// The title: between `hiring an ` (else `hiring a `) and the next ` at `, trimmed.
pub open spec fn title_from(raw: Seq<char>, lower: Seq<char>, marker: Seq<char>) -> Option<Seq<char>> {
    match find_from(lower, marker, 0) {
        Some(i) => {
            let start = i + marker.len();
            match find_from(lower, " at "@, start) {
                Some(e) => Some(trim(raw.subrange(start as int, e as int))),
                None => None,
            }
        },
        None => None,
    }
}

pub open spec fn parse_title_spec(raw: Seq<char>, lower: Seq<char>) -> Seq<char> {
    match title_from(raw, lower, "hiring an "@) {
        Some(t) => t,
        None => match title_from(raw, lower, "hiring a "@) {
            Some(t) => t,
            None => Seq::empty(),
        },
    }
}

/// The company: after the first ` at ` up to the next `.`, trimmed.
pub open spec fn parse_company_spec(raw: Seq<char>, lower: Seq<char>) -> Seq<char> {
    match find_from(lower, " at "@, 0) {
        Some(i) => {
            let start = i + 4;
            let end = match find_from(raw, "."@, start) {
                Some(e) => e,
                None => raw.len(),
            };
            trim(raw.subrange(start as int, end as int))
        },
        None => Seq::empty(),
    }
}

/// The normalised job of a job ad scanned through its lowercased copy `lower`.
pub open spec fn parse_spec(raw: Seq<char>, lower: Seq<char>) -> (Seq<char>, Seq<char>, Seq<Seq<char>>, Seq<Seq<char>>) {
    let r = scan_cues(raw, lower, 0);
    (parse_title_spec(raw, lower), parse_company_spec(raw, lower), r.0, r.1)
}

/// The model of a normalised job: title, company, must-haves, nice-to-haves (location,
/// responsibilities and keywords are empty).
pub open spec fn job_model(j: NormalizedJob) -> (Seq<char>, Seq<char>, Seq<Seq<char>>, Seq<Seq<char>>) {
    (j.title@, j.company@, strs(j.requirements.must_have@), strs(j.requirements.nice_to_have@))
}

fn body_of_exec(slice: &Vec<char>) -> (r: Vec<char>)
    ensures
        r@ == body_of(slice@),
{
    let mut j = slice.len();
    assert(slice@.take(slice@.len() as int) =~= slice@);
    while j > 0 && slice[j - 1] != '.'
        invariant
            j <= slice@.len(),
            last_period(slice@) == last_period(slice@.take(j as int)),
        decreases j,
    {
        assert(slice@.take(j as int).drop_last() =~= slice@.take(j - 1));
        assert(slice@.take(j as int).last() == slice@[j - 1]);
        j -= 1;
    }
    proof {
        if j > 0 {
            assert(slice@.take(j as int).last() == slice@[j - 1]);
        }
    }
    let body = if j > 0 {
        let b = slice_vec(slice, 0, j - 1);
        assert(slice@.subrange(0, j - 1) =~= slice@.take(j - 1));
        b
    } else {
        crate::text::copy_chars(slice)
    };
    let t = trimmed(&body);
    if t.len() == 0 {
        crate::text::copy_chars(slice)
    } else {
        body
    }
}

fn extend_strings(out: &mut Vec<String>, more: Vec<String>)
    ensures
        strs(final(out)@) == strs(old(out)@) + strs(more@),
{
    let ghost base = strs(out@);
    let mut i: usize = 0;
    while i < more.len()
        invariant
            i <= more@.len(),
            strs(out@) == base + strs(more@).take(i as int),
        decreases more@.len() - i,
    {
        let ghost pre = strs(out@);
        out.push(more[i].clone());
        assert(strs(out@) =~= pre.push(more@[i as int]@));
        assert(strs(more@).take(i + 1) =~= strs(more@).take(i as int).push(more@[i as int]@));
        i += 1;
    }
    assert(strs(more@).take(more@.len() as int) =~= strs(more@));
}

fn title_with(raw: &Vec<char>, lower: &Vec<char>, marker: &str) -> (r: Option<String>)
    requires
        aligned(raw@, lower@),
    ensures
        match r {
            Some(t) => title_from(raw@, lower@, marker@) == Some(t@),
            None => title_from(raw@, lower@, marker@) is None,
        },
{
    let m = chars_of(marker);
    proof {
        lemma_find_from_bounds(lower@, m@, 0);
    }
    match find_at(lower, &m, 0) {
        Some(i) => {
            assert(i + m.len() <= lower.len());
            let start = i + m.len();
            let at = chars_of(" at ");
            proof {
                lemma_find_from_bounds(lower@, at@, start as nat);
            }
            match find_at(lower, &at, start) {
                Some(e) => {
                    let t = trimmed(&slice_vec(raw, start, e));
                    Some(string_of(&t))
                },
                None => None,
            }
        },
        None => None,
    }
}

fn parse_title(raw: &Vec<char>, lower: &Vec<char>) -> (r: String)
    requires
        aligned(raw@, lower@),
    ensures
        r@ == parse_title_spec(raw@, lower@),
{
    match title_with(raw, lower, "hiring an ") {
        Some(t) => t,
        None => match title_with(raw, lower, "hiring a ") {
            Some(t) => t,
            None => String::new(),
        },
    }
}

fn parse_company(raw: &Vec<char>, lower: &Vec<char>) -> (r: String)
    requires
        aligned(raw@, lower@),
    ensures
        r@ == parse_company_spec(raw@, lower@),
{
    let at = chars_of(" at ");
    proof {
        lemma_find_from_bounds(lower@, at@, 0);
        reveal_strlit(" at ");
    }
    match find_at(lower, &at, 0) {
        Some(i) => {
            assert(i + at.len() <= lower.len());
            let start = i + 4;
            let dot = chars_of(".");
            proof {
                lemma_find_from_bounds(raw@, dot@, start as nat);
            }
            let end = match find_at(raw, &dot, start) {
                Some(e) => e,
                None => raw.len(),
            };
            let t = trimmed(&slice_vec(raw, start, end));
            string_of(&t)
        },
        None => String::new(),
    }
}

/// Parse a job ad: title, company, and the must-have and nice-to-have requirement
/// items. Every text parses; one without cues has empty requirement lists.
pub fn parse(raw: &str) -> (r: NormalizedJob)
    ensures
        job_model(r) == parse_spec(raw@, scan_lower(raw@)),
        r.location@.len() == 0 && r.responsibilities@.len() == 0 && r.keywords@.len() == 0,
{
    let v = chars_of(raw);
    let lower = ascii_lowered(&v);
    proof {
        lemma_scan_lower_aligned(v@);
    }
    let title = parse_title(&v, &lower);
    let company = parse_company(&v, &lower);
    let table = cue_table();
    let ghost total = scan_cues(v@, lower@, 0);
    let mut must: Vec<String> = Vec::new();
    let mut nice: Vec<String> = Vec::new();
    let mut cursor: usize = 0;
    assert(strs(must@) + total.0 =~= total.0);
    assert(strs(nice@) + total.1 =~= total.1);
    loop
        invariant
            cursor <= v@.len(),
            v@ == raw@,
            lower@ == scan_lower(raw@),
            aligned(v@, lower@),
            table@.map_values(|c: (Vec<char>, bool)| (c.0@, c.1)) == cues(),
            total == scan_cues(v@, lower@, 0),
            strs(must@) + scan_cues(v@, lower@, cursor as nat).0 == total.0,
            strs(nice@) + scan_cues(v@, lower@, cursor as nat).1 == total.1,
        ensures
            strs(must@) == total.0,
            strs(nice@) == total.1,
        decreases v@.len() + 1 - cursor,
    {
        match next_cue(&lower, cursor, &table) {
            None => {
                assert(strs(must@) + Seq::<Seq<char>>::empty() =~= strs(must@));
                assert(strs(nice@) + Seq::<Seq<char>>::empty() =~= strs(nice@));
                break;
            },
            Some((_cs, ce, is_must)) => {
                proof {
                    lemma_best_cue_bounds(lower@, cursor as nat, 12);
                    lemma_best_cue_bounds(lower@, ce as nat, 12);
                }
                let mut k = ce;
                while k < v.len() && is_gap_char(v[k])
                    invariant
                        ce <= k <= v@.len(),
                        body_start_from(v@, ce as nat, ce as nat) == body_start_from(v@, ce as nat, k as nat),
                        forall|j: int| ce <= j < k ==> is_gap(#[trigger] v@[j]),
                    decreases v@.len() - k,
                {
                    k += 1;
                }
                let bs = if k < v.len() { k } else { ce };
                let be = match next_cue(&lower, ce, &table) {
                    Some((ns, _, _)) => ns,
                    None => v.len(),
                };
                proof {
                    match next_cue_spec(lower@, ce as nat) {
                        Some(n) => {
                            assert(!is_gap(lower@[n.0 as int]));
                            assert(!is_gap(v@[n.0 as int]));
                            if k > n.0 {
                                assert(is_gap(v@[n.0 as int]));
                            }
                        },
                        None => {},
                    }
                }
                let slice = slice_vec(&v, bs, be);
                let body = body_of_exec(&slice);
                let items = split_items(&body);
                let ghost it = strs(items@);
                let ghost pm = strs(must@);
                let ghost pn = strs(nice@);
                if is_must {
                    extend_strings(&mut must, items);
                    assert(pm + (it + scan_cues(v@, lower@, be as nat).0) =~= strs(must@) + scan_cues(v@, lower@, be as nat).0);
                } else {
                    extend_strings(&mut nice, items);
                    assert(pn + (it + scan_cues(v@, lower@, be as nat).1) =~= strs(nice@) + scan_cues(v@, lower@, be as nat).1);
                }
                cursor = be;
            },
        }
    }
    NormalizedJob {
        title,
        company,
        location: String::new(),
        responsibilities: Vec::new(),
        requirements: Requirements { must_have: must, nice_to_have: nice },
        keywords: Vec::new(),
    }
}

proof fn lemma_last_period_at(s: Seq<char>, p: int)
    requires
        0 <= p < s.len(),
        s[p] == '.',
        forall|q: int| p < q < s.len() ==> s[q] != '.',
    ensures
        last_period(s) == Some(p as nat),
    decreases s.len(),
{
    if p < s.len() - 1 {
        assert(s.last() == s[s.len() - 1]);
        lemma_last_period_at(s.drop_last(), p);
    }
}

proof fn lemma_no_period(s: Seq<char>)
    requires
        forall|q: int| 0 <= q < s.len() ==> s[q] != '.',
    ensures
        last_period(s) is None,
    decreases s.len(),
{
    if s.len() > 0 {
        assert(s.last() == s[s.len() - 1]);
        lemma_no_period(s.drop_last());
    }
}

/// A cue's body keeps every character before the last period of its slice, when that
/// leaves more than whitespace; a slice without a period, or whose text before its
/// last period is blank, is kept whole.
pub proof fn law_body_cut_at_last_period(slice: Seq<char>)
    ensures
        forall|p: int|
            0 <= p < slice.len() && #[trigger] slice[p] == '.' && (forall|q: int| p < q < slice.len() ==> slice[q] != '.')
                ==> body_of(slice) == if trim(slice.take(p)).len() > 0 {
                slice.take(p)
            } else {
                slice
            },
        (forall|q: int| 0 <= q < slice.len() ==> slice[q] != '.') ==> body_of(slice) == slice,
{
    assert forall|p: int|
        0 <= p < slice.len() && #[trigger] slice[p] == '.' && (forall|q: int| p < q < slice.len() ==> slice[q] != '.')
            implies body_of(slice) == if trim(slice.take(p)).len() > 0 {
            slice.take(p)
        } else {
            slice
        } by {
        lemma_last_period_at(slice, p);
    }
    if forall|q: int| 0 <= q < slice.len() ==> slice[q] != '.' {
        lemma_no_period(slice);
    }
}

} // verus!
