//! The adaptive JSON miner: an arbitrary CV JSON value → a new master CV.
//!
//! Known case-insensitive synonym keys (never fixed paths) are mapped onto the fields
//! the engine needs; experiences get synthetic ids `imp_exp_<n>` (dense over the
//! emitted ones) and bullets `imp_exp_<n>_b<m>`; a skill without a usable rating gets
//! the neutral proficiency 3; no text is invented. Every step is total.
//!
//! Object members are held in the order the JSON map iterates them (sorted by key), and
//! a lookup takes the first member whose key matches ignoring ASCII case.

use crate::cvimport::ImportError;
use crate::cvimport::segment::trimmed_nonempty;
use crate::text::{
    chars_of, decimal, decimal_chars, eq_ignore_ascii_case, eq_ignore_ascii_case_spec, push_all, signed_decimal,
    signed_decimal_chars, split_chars, split_spec, string_of, strs, trim, trim_string, Sep,
};
use crate::types::{
    achievements_model, experiences_model, skills_model, Achievement, AchievementModel, Experience, ExperienceModel,
    MasterCv, MasterCvModel, Person, PersonModel, Skill, SkillModel,
};
use vstd::prelude::*;

verus! {

/// A JSON number as the miner reads it: a non-negative integer, a negative integer, or
/// a non-integer held as its value truncated toward zero.
#[derive(Debug, Clone, Copy, PartialEq, Eq, Structural)]
pub enum JsonNumber {
    PosInt(u64),
    NegInt(i64),
    Float(i64),
}

/// A JSON value. Object members keep the map's iteration order.
#[derive(Debug)]
pub enum JsonValue {
    Null,
    Bool(bool),
    Number(JsonNumber),
    String(String),
    Array(Vec<JsonValue>),
    Object(Vec<(String, JsonValue)>),
}

/// The proficiency of a skill without a usable rating.
pub const DEFAULT_PROFICIENCY: u8 = 3;

// ── lookups ──────────────────────────────────────────────────────────────────────

/// The value of the first member of `es`, from `from` on, whose key matches `key`
/// ignoring ASCII case.
pub open spec fn member_from(es: Seq<(String, JsonValue)>, key: Seq<char>, from: nat) -> Option<JsonValue>
    decreases es.len() - from,
{
    if from >= es.len() {
        None
    } else if eq_ignore_ascii_case_spec(es[from as int].0@, key) {
        Some(es[from as int].1)
    } else {
        member_from(es, key, from + 1)
    }
}

/// Case-insensitive object lookup; `None` for non-objects.
pub open spec fn lc_get_spec(v: JsonValue, key: Seq<char>) -> Option<JsonValue> {
    match v {
        JsonValue::Object(es) => member_from(es@, key, 0),
        _ => None,
    }
}

/// The first key of `keys`, from `from` on, holding a string that is non-empty once
/// trimmed: that trimmed string.
pub open spec fn str_field_from(v: JsonValue, keys: Seq<Seq<char>>, from: nat) -> Option<Seq<char>>
    decreases keys.len() - from,
{
    if from >= keys.len() {
        None
    } else {
        match lc_get_spec(v, keys[from as int]) {
            Some(JsonValue::String(s)) => if trim(s@).len() > 0 {
                Some(trim(s@))
            } else {
                str_field_from(v, keys, from + 1)
            },
            _ => str_field_from(v, keys, from + 1),
        }
    }
}

pub open spec fn str_field_spec(v: JsonValue, keys: Seq<Seq<char>>) -> Option<Seq<char>> {
    str_field_from(v, keys, 0)
}

pub open spec fn key_views(keys: Seq<&str>) -> Seq<Seq<char>> {
    keys.map_values(|k: &str| k@)
}

fn lc_get<'a>(v: &'a JsonValue, key: &str) -> (r: Option<&'a JsonValue>)
    ensures
        match r {
            Some(x) => lc_get_spec(*v, key@) == Some(*x),
            None => lc_get_spec(*v, key@) is None,
        },
{
    match v {
        JsonValue::Object(es) => {
            let k = chars_of(key);
            let mut i: usize = 0;
            while i < es.len()
                invariant
                    i <= es@.len(),
                    k@ == key@,
                    lc_get_spec(*v, key@) == member_from(es@, key@, 0),
                    member_from(es@, key@, 0) == member_from(es@, key@, i as nat),
                decreases es@.len() - i,
            {
                let ek = chars_of(es[i].0.as_str());
                if eq_ignore_ascii_case(&ek, &k) {
                    return Some(&es[i].1);
                }
                i += 1;
            }
            None
        },
        _ => None,
    }
}

fn str_field(v: &JsonValue, keys: &Vec<&str>) -> (r: Option<String>)
    ensures
        ostr(r) == str_field_spec(*v, key_views(keys@)),
{
    let ghost ks = key_views(keys@);
    let mut i: usize = 0;
    while i < keys.len()
        invariant
            i <= keys@.len(),
            ks == key_views(keys@),
            str_field_spec(*v, ks) == str_field_from(*v, ks, i as nat),
        decreases keys@.len() - i,
    {
        assert(ks[i as int] == keys@[i as int]@);
        match lc_get(v, keys[i]) {
            Some(JsonValue::String(s)) => {
                let t = trim_string(s.as_str());
                if !t.as_str().is_empty() {
                    return Some(t);
                }
                assert(t@.len() == 0);
            },
            _ => {},
        }
        i += 1;
    }
    None
}

pub open spec fn ostr(o: Option<String>) -> Option<Seq<char>> {
    match o {
        Some(s) => Some(s@),
        None => None,
    }
}

/// The first alternative that is present.
pub open spec fn or_else<T>(a: Option<T>, b: Option<T>) -> Option<T> {
    match a {
        Some(x) => Some(x),
        None => b,
    }
}

// ── dates and numbers ────────────────────────────────────────────────────────────

/// A date value as a string: an integer its decimal form (a non-integer number
/// truncated), a string trimmed, anything else (or nothing) empty.
pub open spec fn coerce_date_spec(v: Option<JsonValue>) -> Seq<char> {
    match v {
        Some(JsonValue::Number(n)) => match n {
            JsonNumber::PosInt(u) => decimal(u as nat),
            JsonNumber::NegInt(i) => signed_decimal(i as int),
            JsonNumber::Float(t) => signed_decimal(t as int),
        },
        Some(JsonValue::String(s)) => trim(s@),
        _ => Seq::empty(),
    }
}

fn coerce_date(v: Option<&JsonValue>) -> (r: String)
    ensures
        r@ == coerce_date_spec(match v {
            Some(x) => Some(*x),
            None => None,
        }),
{
    match v {
        Some(JsonValue::Number(n)) => match n {
            JsonNumber::PosInt(u) => {
                let d = decimal_chars(*u);
                string_of(&d)
            },
            JsonNumber::NegInt(i) => {
                let d = signed_decimal_chars(*i);
                string_of(&d)
            },
            JsonNumber::Float(t) => {
                let d = signed_decimal_chars(*t);
                string_of(&d)
            },
        },
        Some(JsonValue::String(s)) => trim_string(s.as_str()),
        _ => String::new(),
    }
}

/// What `as_i64` gives for a value: an integer that fits `i64`.
pub open spec fn as_i64_spec(v: JsonValue) -> Option<i64> {
    match v {
        JsonValue::Number(JsonNumber::PosInt(u)) => if u <= i64::MAX as u64 {
            Some(u as i64)
        } else {
            None
        },
        JsonValue::Number(JsonNumber::NegInt(i)) => Some(i),
        _ => None,
    }
}

// ── achievements ─────────────────────────────────────────────────────────────────

/// The bullets of an achievement string: its lines, trimmed, empties dropped.
pub open spec fn split_achievement_spec(s: Seq<char>) -> Seq<Seq<char>> {
    trimmed_nonempty(split_spec(s, Sep::Newline))
}

fn split_achievement(s: &String) -> (r: Vec<String>)
    ensures
        strs(r@) == split_achievement_spec(s@),
{
    let v = chars_of(s.as_str());
    let pieces = split_chars(&v, Sep::Newline);
    crate::cvimport::segment::trimmed_pieces(&pieces)
}

/// The achievement keys, in priority order.
pub open spec fn achievement_keys() -> Seq<Seq<char>> {
    seq!["achievementsTasks"@, "achievements"@, "highlights"@, "bullets"@, "responsibilities"@, "tasks"@]
}

/// The descriptions an achievement list contributes, item by item.
pub open spec fn item_descriptions(items: Seq<JsonValue>) -> Seq<Seq<char>>
    decreases items.len(),
{
    if items.len() == 0 {
        Seq::empty()
    } else {
        item_descriptions(items.drop_last()) + match items.last() {
            JsonValue::String(s) => split_achievement_spec(s@),
            JsonValue::Object(_) => match str_field_spec(items.last(), seq!["description"@, "text"@, "name"@]) {
                Some(t) => split_achievement_spec(t),
                None => Seq::empty(),
            },
            _ => Seq::empty(),
        }
    }
}

/// The descriptions of an experience element: from the first achievement key holding a
/// string or an array, from `from` on.
pub open spec fn descriptions_from(el: JsonValue, from: nat) -> Seq<Seq<char>>
    decreases 6 - from,
{
    if from >= 6 {
        Seq::empty()
    } else {
        match lc_get_spec(el, achievement_keys()[from as int]) {
            Some(JsonValue::String(s)) => split_achievement_spec(s@),
            Some(JsonValue::Array(items)) => item_descriptions(items@),
            _ => descriptions_from(el, from + 1),
        }
    }
}

/// The achievements of an experience element, ids `<exp_id>_b<m>`.
pub open spec fn achievements_spec(el: JsonValue, exp_id: Seq<char>) -> Seq<AchievementModel> {
    let ds = descriptions_from(el, 0);
    Seq::new(
        ds.len(),
        |m: int|
            AchievementModel {
                id: exp_id + "_b"@ + decimal(m as nat),
                description: ds[m],
                emphasise: None,
                tags: Seq::empty(),
                metrics: Seq::empty(),
                evidence_strength_milli: None,
            },
    )
}

fn append_strings(out: &mut Vec<String>, more: Vec<String>)
    ensures
        strs(final(out)@) == strs(old(out)@) + strs(more@),
{
    let ghost base = strs(out@);
    let mut i: usize = 0;
    while i < more.len()
        invariant
            i <= more@.len(),
            strs(out@) == base + strs(more@).take(i as int),
        decreases more@.len() - i,
    {
        let ghost pre = strs(out@);
        out.push(more[i].clone());
        assert(strs(out@) =~= pre.push(more@[i as int]@));
        assert(strs(more@).take(i + 1) =~= strs(more@).take(i as int).push(more@[i as int]@));
        i += 1;
    }
    assert(strs(more@).take(more@.len() as int) =~= strs(more@));
}

fn descriptions(el: &JsonValue) -> (r: Vec<String>)
    ensures
        strs(r@) == descriptions_from(*el, 0),
{
    let keys: Vec<&str> = vec!["achievementsTasks", "achievements", "highlights", "bullets", "responsibilities", "tasks"];
    assert(key_views(keys@) =~= achievement_keys());
    let mut out: Vec<String> = Vec::new();
    let mut i: usize = 0;
    while i < keys.len()
        invariant
            i <= keys@.len(),
            keys@.len() == 6,
            key_views(keys@) == achievement_keys(),
            strs(out@) == Seq::<Seq<char>>::empty(),
            descriptions_from(*el, 0) == descriptions_from(*el, i as nat),
        decreases keys@.len() - i,
    {
        assert(achievement_keys()[i as int] == keys@[i as int]@);
        match lc_get(el, keys[i]) {
            Some(JsonValue::String(s)) => {
                return split_achievement(s);
            },
            Some(JsonValue::Array(items)) => {
                let ghost is = items@;
                let mut j: usize = 0;
                assert(is.take(0) =~= Seq::<JsonValue>::empty());
                while j < items.len()
                    invariant
                        j <= items@.len(),
                        is == items@,
                        strs(out@) == item_descriptions(is.take(j as int)),
                    decreases items@.len() - j,
                {
                    assert(is.take(j + 1).drop_last() =~= is.take(j as int));
                    assert(is.take(j + 1).last() == items@[j as int]);
                    let ghost pre = strs(out@);
                    match &items[j] {
                        JsonValue::String(s) => {
                            append_strings(&mut out, split_achievement(s));
                        },
                        JsonValue::Object(_) => {
                            let ks: Vec<&str> = vec!["description", "text", "name"];
                            assert(key_views(ks@) =~= seq!["description"@, "text"@, "name"@]);
                            match str_field(&items[j], &ks) {
                                Some(t) => {
                                    append_strings(&mut out, split_achievement(&t));
                                },
                                None => {
                                    assert(pre + Seq::<Seq<char>>::empty() =~= pre);
                                },
                            }
                        },
                        _ => {
                            assert(pre + Seq::<Seq<char>>::empty() =~= pre);
                        },
                    }
                    j += 1;
                }
                assert(is.take(is.len() as int) =~= is);
                return out;
            },
            _ => {},
        }
        i += 1;
    }
    assert(strs(out@) =~= Seq::<Seq<char>>::empty());
    out
}

fn extract_achievements(el: &JsonValue, exp_id: &String) -> (r: Vec<Achievement>)
    ensures
        achievements_model(r@) == achievements_spec(*el, exp_id@),
{
    let ds = descriptions(el);
    let ghost target = achievements_spec(*el, exp_id@);
    let mut stem = exp_id.clone();
    stem.append("_b");
    let mut out: Vec<Achievement> = Vec::new();
    let mut m: usize = 0;
    while m < ds.len()
        invariant
            m <= ds@.len(),
            strs(ds@) == descriptions_from(*el, 0),
            target == achievements_spec(*el, exp_id@),
            stem@ == exp_id@ + "_b"@,
            achievements_model(out@) == target.take(m as int),
        decreases ds@.len() - m,
    {
        let ghost pre = achievements_model(out@);
        let mut id = stem.clone();
        let d = decimal_chars(m as u64);
        push_all(&mut id, &d);
        out.push(Achievement {
            id,
            description: ds[m].clone(),
            emphasise: None,
            tags: Vec::new(),
            metrics: Vec::new(),
            evidence_strength_milli: None,
        });
        proof {
            assert(out@.last()@.tags =~= Seq::<Seq<char>>::empty());
            assert(out@.last()@.metrics =~= Seq::<Seq<char>>::empty());
            assert(out@.last()@ == target[m as int]);
            assert(achievements_model(out@) =~= pre.push(target[m as int]));
            assert(target.take(m + 1) =~= target.take(m as int).push(target[m as int]));
        }
        m += 1;
    }
    assert(target.take(ds@.len() as int) =~= target);
    out
}

// ── the person ───────────────────────────────────────────────────────────────────

pub open spec fn person_object_keys() -> Seq<Seq<char>> {
    seq!["person"@, "basics"@, "profile"@]
}

/// The dedicated person object (the first of `person`, `basics`, `profile` holding an
/// object), else the value itself.
pub open spec fn person_source_from(v: JsonValue, from: nat) -> JsonValue
    decreases 3 - from,
{
    if from >= 3 {
        v
    } else {
        match lc_get_spec(v, person_object_keys()[from as int]) {
            Some(JsonValue::Object(es)) => JsonValue::Object(es),
            _ => person_source_from(v, from + 1),
        }
    }
}

fn person_source(v: &JsonValue) -> (r: &JsonValue)
    ensures
        *r == person_source_from(*v, 0),
{
    let keys: Vec<&str> = vec!["person", "basics", "profile"];
    assert(key_views(keys@) =~= person_object_keys());
    let mut i: usize = 0;
    while i < keys.len()
        invariant
            i <= keys@.len(),
            keys@.len() == 3,
            key_views(keys@) == person_object_keys(),
            person_source_from(*v, 0) == person_source_from(*v, i as nat),
        decreases keys@.len() - i,
    {
        assert(person_object_keys()[i as int] == keys@[i as int]@);
        match lc_get(v, keys[i]) {
            Some(obj) => {
                match obj {
                    JsonValue::Object(_) => {
                        return obj;
                    },
                    _ => {},
                }
            },
            None => {},
        }
        i += 1;
    }
    v
}

/// A person field: the dedicated object first, then the top level.
pub open spec fn pick(src: JsonValue, root: JsonValue, keys: Seq<Seq<char>>) -> Option<Seq<char>> {
    or_else(str_field_spec(src, keys), str_field_spec(root, keys))
}

/// The person mined from its source object and the top level.
pub open spec fn person_spec(src: JsonValue, root: JsonValue) -> PersonModel {
    PersonModel {
        name: pick(src, root, seq!["name"@, "fullName"@, "candidateName"@]),
        professional_title: pick(src, root, seq!["professionalTitle"@, "title"@, "headline"@, "role"@, "label"@]),
        professional_description: pick(src, root, seq!["professionalDescription"@, "summary"@, "about"@, "bio"@]),
        location: pick(src, root, seq!["location"@]),
        email: pick(src, root, seq!["email"@]),
        phone: pick(src, root, seq!["phone"@]),
        linkedin: pick(src, root, seq!["linkedin"@]),
        github: pick(src, root, seq!["github"@]),
        website: pick(src, root, seq!["website"@, "url"@]),
        image: None,
    }
}

fn pick_field(src: &JsonValue, root: &JsonValue, keys: &Vec<&str>) -> (r: Option<String>)
    ensures
        ostr(r) == pick(*src, *root, key_views(keys@)),
{
    match str_field(src, keys) {
        Some(s) => Some(s),
        None => str_field(root, keys),
    }
}

fn extract_person(src: &JsonValue, root: &JsonValue) -> (r: Person)
    ensures
        r@ == person_spec(*src, *root),
{
    let k_name: Vec<&str> = vec!["name", "fullName", "candidateName"];
    let k_title: Vec<&str> = vec!["professionalTitle", "title", "headline", "role", "label"];
    let k_desc: Vec<&str> = vec!["professionalDescription", "summary", "about", "bio"];
    let k_loc: Vec<&str> = vec!["location"];
    let k_email: Vec<&str> = vec!["email"];
    let k_phone: Vec<&str> = vec!["phone"];
    let k_li: Vec<&str> = vec!["linkedin"];
    let k_gh: Vec<&str> = vec!["github"];
    let k_web: Vec<&str> = vec!["website", "url"];
    assert(key_views(k_name@) =~= seq!["name"@, "fullName"@, "candidateName"@]);
    assert(key_views(k_title@) =~= seq!["professionalTitle"@, "title"@, "headline"@, "role"@, "label"@]);
    assert(key_views(k_desc@) =~= seq!["professionalDescription"@, "summary"@, "about"@, "bio"@]);
    assert(key_views(k_loc@) =~= seq!["location"@]);
    assert(key_views(k_email@) =~= seq!["email"@]);
    assert(key_views(k_phone@) =~= seq!["phone"@]);
    assert(key_views(k_li@) =~= seq!["linkedin"@]);
    assert(key_views(k_gh@) =~= seq!["github"@]);
    assert(key_views(k_web@) =~= seq!["website"@, "url"@]);
    Person {
        name: pick_field(src, root, &k_name),
        professional_title: pick_field(src, root, &k_title),
        professional_description: pick_field(src, root, &k_desc),
        location: pick_field(src, root, &k_loc),
        email: pick_field(src, root, &k_email),
        phone: pick_field(src, root, &k_phone),
        linkedin: pick_field(src, root, &k_li),
        github: pick_field(src, root, &k_gh),
        website: pick_field(src, root, &k_web),
        image: None,
    }
}

// ── experiences ──────────────────────────────────────────────────────────────────

pub open spec fn role_array_keys() -> Seq<Seq<char>> {
    seq!["experience"@, "work"@, "workExperience"@, "employment"@, "positions"@, "history"@]
}

/// The non-empty array under role key `k`, if any.
pub open spec fn role_array(v: JsonValue, k: Seq<char>) -> Option<Seq<JsonValue>> {
    match lc_get_spec(v, k) {
        Some(JsonValue::Array(a)) => if a@.len() > 0 {
            Some(a@)
        } else {
            None
        },
        _ => None,
    }
}

/// The index of the first role key, from `from` on, holding a non-empty array.
pub open spec fn winner_from(v: JsonValue, from: nat) -> Option<nat>
    decreases 6 - from,
{
    if from >= 6 {
        None
    } else if role_array(v, role_array_keys()[from as int]) is Some {
        Some(from)
    } else {
        winner_from(v, from + 1)
    }
}

/// The role keys before `upto`, other than the winner's, that hold a non-empty array.
pub open spec fn ignored_upto(v: JsonValue, w: nat, upto: nat) -> Seq<Seq<char>>
    decreases upto,
{
    if upto == 0 {
        Seq::empty()
    } else {
        let k = (upto - 1) as nat;
        ignored_upto(v, w, k) + if k != w && role_array(v, role_array_keys()[k as int]) is Some {
            seq![role_array_keys()[k as int]]
        } else {
            Seq::empty()
        }
    }
}

/// The id of the n-th emitted experience.
pub open spec fn mined_experience_id(n: nat) -> Seq<char> {
    "imp_exp_"@ + decimal(n)
}

pub open spec fn job_title_keys() -> Seq<Seq<char>> {
    seq!["jobTitle"@, "title"@, "position"@, "role"@]
}

pub open spec fn business_keys() -> Seq<Seq<char>> {
    seq!["businessName"@, "company"@, "employer"@, "organisation"@, "name"@]
}

/// The first of three date keys present on `el`.
pub open spec fn date_value(el: JsonValue, a: Seq<char>, b: Seq<char>, c: Seq<char>) -> Option<JsonValue> {
    or_else(lc_get_spec(el, a), or_else(lc_get_spec(el, b), lc_get_spec(el, c)))
}

/// The experience mined from a role element with this job title, as the n-th emitted.
pub open spec fn mined_experience(el: JsonValue, n: nat, title: Seq<char>) -> ExperienceModel {
    let end = coerce_date_spec(date_value(el, "endDate"@, "end"@, "to"@));
    ExperienceModel {
        id: mined_experience_id(n),
        job_title: title,
        business_name: match str_field_spec(el, business_keys()) {
            Some(b) => b,
            None => Seq::empty(),
        },
        consultancy: None,
        location: str_field_spec(el, seq!["location"@]),
        employment_type: None,
        start_date: coerce_date_spec(date_value(el, "startDate"@, "start"@, "from"@)),
        end_date: if end.len() == 0 {
            None
        } else {
            Some(end)
        },
        domain: None,
        hide: None,
        contact: None,
        tags: Seq::empty(),
        achievements_tasks: achievements_spec(el, mined_experience_id(n)),
    }
}

/// The experiences mined from role elements: one per element with a job title.
pub open spec fn mined_experiences(els: Seq<JsonValue>) -> Seq<ExperienceModel>
    decreases els.len(),
{
    if els.len() == 0 {
        Seq::empty()
    } else {
        let prev = mined_experiences(els.drop_last());
        match str_field_spec(els.last(), job_title_keys()) {
            Some(t) => prev.push(mined_experience(els.last(), prev.len(), t)),
            None => prev,
        }
    }
}

/// The experiences of a CV value and the names of the role arrays that lost to the
/// winner.
pub open spec fn experience_spec(v: JsonValue) -> (Seq<ExperienceModel>, Seq<Seq<char>>) {
    match winner_from(v, 0) {
        Some(w) => (mined_experiences(role_array(v, role_array_keys()[w as int])->0), ignored_upto(v, w, 6)),
        None => (Seq::empty(), Seq::empty()),
    }
}

proof fn lemma_winner_holds(v: JsonValue, from: nat)
    ensures
        winner_from(v, from) matches Some(w) ==> w < 6 && role_array(v, role_array_keys()[w as int]) is Some,
    decreases 6 - from,
{
    if from < 6 && role_array(v, role_array_keys()[from as int]) is None {
        lemma_winner_holds(v, from + 1);
    }
}

fn role_array_of<'a>(v: &'a JsonValue, key: &str) -> (r: Option<&'a Vec<JsonValue>>)
    ensures
        match r {
            Some(a) => role_array(*v, key@) == Some(a@),
            None => role_array(*v, key@) is None,
        },
{
    match lc_get(v, key) {
        Some(JsonValue::Array(a)) => {
            if a.len() > 0 {
                Some(a)
            } else {
                None
            }
        },
        _ => None,
    }
}

fn date_of<'a>(el: &'a JsonValue, a: &str, b: &str, c: &str) -> (r: Option<&'a JsonValue>)
    ensures
        match r {
            Some(x) => date_value(*el, a@, b@, c@) == Some(*x),
            None => date_value(*el, a@, b@, c@) is None,
        },
{
    match lc_get(el, a) {
        Some(x) => Some(x),
        None => match lc_get(el, b) {
            Some(x) => Some(x),
            None => lc_get(el, c),
        },
    }
}

fn mine_experience(el: &JsonValue, n: usize, title: String) -> (r: Experience)
    ensures
        r@ == mined_experience(*el, n as nat, title@),
{
    let mut exp_id = String::from_str("imp_exp_");
    let d = decimal_chars(n as u64);
    push_all(&mut exp_id, &d);
    let achievements = extract_achievements(el, &exp_id);
    let kb: Vec<&str> = vec!["businessName", "company", "employer", "organisation", "name"];
    assert(key_views(kb@) =~= business_keys());
    let kl: Vec<&str> = vec!["location"];
    assert(key_views(kl@) =~= seq!["location"@]);
    let business_name = match str_field(el, &kb) {
        Some(b) => b,
        None => String::new(),
    };
    let start_date = coerce_date(date_of(el, "startDate", "start", "from"));
    let end = coerce_date(date_of(el, "endDate", "end", "to"));
    let end_date = if end.as_str().is_empty() {
        None
    } else {
        Some(end)
    };
    let r = Experience {
        id: exp_id,
        job_title: title,
        business_name,
        consultancy: None,
        location: str_field(el, &kl),
        employment_type: None,
        start_date,
        end_date,
        domain: None,
        hide: None,
        contact: None,
        tags: Vec::new(),
        achievements_tasks: achievements,
    };
    assert(r@.tags =~= Seq::<Seq<char>>::empty());
    r
}

fn extract_experience(v: &JsonValue) -> (r: (Vec<Experience>, Vec<String>))
    ensures
        (experiences_model(r.0@), strs(r.1@)) == experience_spec(*v),
{
    let keys: Vec<&str> = vec!["experience", "work", "workExperience", "employment", "positions", "history"];
    assert(key_views(keys@) =~= role_array_keys());
    let mut w: usize = 0;
    let mut found = false;
    while w < keys.len() && !found
        invariant
            w <= keys@.len(),
            keys@.len() == 6,
            key_views(keys@) == role_array_keys(),
            found ==> w >= 1 && winner_from(*v, 0) == Some((w - 1) as nat),
            !found ==> winner_from(*v, 0) == winner_from(*v, w as nat),
        decreases 6 - w + if found { 0int } else { 1int },
    {
        assert(role_array_keys()[w as int] == keys@[w as int]@);
        if role_array_of(v, keys[w]).is_some() {
            found = true;
        }
        w += 1;
    }
    if !found {
        let e: Vec<Experience> = Vec::new();
        let g: Vec<String> = Vec::new();
        assert(strs(g@) =~= Seq::<Seq<char>>::empty());
        assert(experiences_model(e@) =~= Seq::<ExperienceModel>::empty());
        return (e, g);
    }
    let win = w - 1;
    let mut ignored: Vec<String> = Vec::new();
    let mut k: usize = 0;
    assert(strs(ignored@) =~= ignored_upto(*v, win as nat, 0));
    while k < keys.len()
        invariant
            k <= keys@.len(),
            keys@.len() == 6,
            win < 6,
            key_views(keys@) == role_array_keys(),
            strs(ignored@) == ignored_upto(*v, win as nat, k as nat),
        decreases keys@.len() - k,
    {
        assert(role_array_keys()[k as int] == keys@[k as int]@);
        let ghost pre = strs(ignored@);
        if k != win && role_array_of(v, keys[k]).is_some() {
            ignored.push(String::from_str(keys[k]));
            assert(strs(ignored@) =~= pre.push(keys@[k as int]@));
        } else {
            assert(pre + Seq::<Seq<char>>::empty() =~= pre);
        }
        k += 1;
    }
    assert(role_array_keys()[win as int] == keys@[win as int]@);
    proof {
        lemma_winner_holds(*v, 0);
    }
    let arr = match role_array_of(v, keys[win]) {
        Some(a) => a,
        None => {
            return (Vec::new(), ignored);
        },
    };
    let ghost els = arr@;
    let kt: Vec<&str> = vec!["jobTitle", "title", "position", "role"];
    assert(key_views(kt@) =~= job_title_keys());
    let mut exps: Vec<Experience> = Vec::new();
    let mut i: usize = 0;
    assert(els.take(0) =~= Seq::<JsonValue>::empty());
    assert(experiences_model(exps@) =~= Seq::<ExperienceModel>::empty());
    while i < arr.len()
        invariant
            i <= arr@.len(),
            els == arr@,
            key_views(kt@) == job_title_keys(),
            experiences_model(exps@) == mined_experiences(els.take(i as int)),
        decreases arr@.len() - i,
    {
        let el = &arr[i];
        proof {
            assert(els.take(i + 1).drop_last() =~= els.take(i as int));
            assert(els.take(i + 1).last() == *el);
        }
        match str_field(el, &kt) {
            Some(title) => {
                let n = exps.len();
                let ghost pre = experiences_model(exps@);
                let e = mine_experience(el, n, title);
                exps.push(e);
                assert(experiences_model(exps@) =~= pre.push(e@));
            },
            None => {},
        }
        i += 1;
    }
    assert(els.take(els.len() as int) =~= els);
    (exps, ignored)
}

// ── skills ───────────────────────────────────────────────────────────────────────

/// The skill keys, in order, and the list each feeds (0 programming languages, 1
/// skills, 2 tools & technologies, 3 services).
pub open spec fn skill_plan() -> Seq<(Seq<char>, nat)> {
    seq![
        ("programmingLanguages"@, 0nat),
        ("skills"@, 1nat),
        ("languages"@, 1nat),
        ("tools"@, 2nat),
        ("technologies"@, 2nat),
        ("toolsTechnologies"@, 2nat),
        ("asAServices"@, 3nat),
        ("services"@, 3nat),
    ]
}

pub open spec fn rating_keys() -> Seq<Seq<char>> {
    seq!["proficiency"@, "level"@, "rating"@]
}

/// A skill's proficiency: the first rating key present decides — its value when an
/// integer in 1..=5, else the default; no rating key gives the default.
pub open spec fn proficiency_from(v: JsonValue, from: nat) -> u8
    decreases 3 - from,
{
    if from >= 3 {
        DEFAULT_PROFICIENCY
    } else {
        match lc_get_spec(v, rating_keys()[from as int]) {
            Some(n) => match as_i64_spec(n) {
                Some(i) => if 1 <= i <= 5 {
                    i as u8
                } else {
                    DEFAULT_PROFICIENCY
                },
                None => DEFAULT_PROFICIENCY,
            },
            None => proficiency_from(v, from + 1),
        }
    }
}

/// The skill of a skill element: a non-blank string, or an object with a non-blank
/// `name`.
pub open spec fn skill_from_spec(v: JsonValue) -> Option<SkillModel> {
    let name = match v {
        JsonValue::String(s) => if trim(s@).len() > 0 {
            Some(trim(s@))
        } else {
            None
        },
        JsonValue::Object(_) => str_field_spec(v, seq!["name"@]),
        _ => None,
    };
    match name {
        Some(n) => Some(
            SkillModel { name: n, proficiency: proficiency_from(v, 0), aliases: Seq::empty(), evidence_ids: Seq::empty() },
        ),
        None => None,
    }
}

/// The skills of an array of skill elements, unusable ones skipped.
pub open spec fn skills_of(items: Seq<JsonValue>) -> Seq<SkillModel>
    decreases items.len(),
{
    if items.len() == 0 {
        Seq::empty()
    } else {
        skills_of(items.drop_last()) + match skill_from_spec(items.last()) {
            Some(s) => seq![s],
            None => Seq::empty(),
        }
    }
}

/// The skills list `b` collects from the plan entries before `upto`.
pub open spec fn bucket_from_plan(v: JsonValue, b: nat, upto: nat) -> Seq<SkillModel>
    decreases upto,
{
    if upto == 0 {
        Seq::empty()
    } else {
        let k = (upto - 1) as nat;
        bucket_from_plan(v, b, k) + if skill_plan()[k as int].1 == b {
            match lc_get_spec(v, skill_plan()[k as int].0) {
                Some(JsonValue::Array(items)) => skills_of(items@),
                _ => Seq::empty(),
            }
        } else {
            Seq::empty()
        }
    }
}

fn proficiency_of(v: &JsonValue) -> (r: u8)
    ensures
        r == proficiency_from(*v, 0),
{
    let keys: Vec<&str> = vec!["proficiency", "level", "rating"];
    assert(key_views(keys@) =~= rating_keys());
    let mut i: usize = 0;
    while i < keys.len()
        invariant
            i <= keys@.len(),
            keys@.len() == 3,
            key_views(keys@) == rating_keys(),
            proficiency_from(*v, 0) == proficiency_from(*v, i as nat),
        decreases keys@.len() - i,
    {
        assert(rating_keys()[i as int] == keys@[i as int]@);
        match lc_get(v, keys[i]) {
            Some(n) => {
                let as_i = match n {
                    JsonValue::Number(JsonNumber::PosInt(u)) => if *u <= 9223372036854775807u64 {
                        Some(*u as i64)
                    } else {
                        None
                    },
                    JsonValue::Number(JsonNumber::NegInt(k)) => Some(*k),
                    _ => None,
                };
                match as_i {
                    Some(k) => {
                        if 1 <= k && k <= 5 {
                            return k as u8;
                        }
                    },
                    None => {},
                }
                return DEFAULT_PROFICIENCY;
            },
            None => {},
        }
        i += 1;
    }
    DEFAULT_PROFICIENCY
}

fn skill_from(v: &JsonValue) -> (r: Option<Skill>)
    ensures
        match r {
            Some(s) => skill_from_spec(*v) == Some(s@),
            None => skill_from_spec(*v) is None,
        },
{
    let name = match v {
        JsonValue::String(s) => {
            let t = trim_string(s.as_str());
            if t.as_str().is_empty() {
                assert(t@.len() == 0);
                return None;
            }
            t
        },
        JsonValue::Object(_) => {
            let kn: Vec<&str> = vec!["name"];
            assert(key_views(kn@) =~= seq!["name"@]);
            match str_field(v, &kn) {
                Some(n) => n,
                None => {
                    return None;
                },
            }
        },
        _ => {
            return None;
        },
    };
    let proficiency = proficiency_of(v);
    let s = Skill { name, proficiency, aliases: Vec::new(), evidence_ids: Vec::new() };
    assert(s@.aliases =~= Seq::<Seq<char>>::empty());
    assert(s@.evidence_ids =~= Seq::<Seq<char>>::empty());
    Some(s)
}

/// The four skill lists the miner fills.
pub struct SkillLists {
    pub programming_languages: Vec<Skill>,
    pub skills: Vec<Skill>,
    pub tools_technologies: Vec<Skill>,
    pub as_a_services: Vec<Skill>,
}

fn extract_skills(v: &JsonValue) -> (r: SkillLists)
    ensures
        skills_model(r.programming_languages@) == bucket_from_plan(*v, 0, 8),
        skills_model(r.skills@) == bucket_from_plan(*v, 1, 8),
        skills_model(r.tools_technologies@) == bucket_from_plan(*v, 2, 8),
        skills_model(r.as_a_services@) == bucket_from_plan(*v, 3, 8),
{
    let keys: Vec<&str> = vec![
        "programmingLanguages",
        "skills",
        "languages",
        "tools",
        "technologies",
        "toolsTechnologies",
        "asAServices",
        "services",
    ];
    let buckets: Vec<u8> = vec![0, 1, 1, 2, 2, 2, 3, 3];
    assert(key_views(keys@) =~= skill_plan().map_values(|p: (Seq<char>, nat)| p.0));
    let mut l0: Vec<Skill> = Vec::new();
    let mut l1: Vec<Skill> = Vec::new();
    let mut l2: Vec<Skill> = Vec::new();
    let mut l3: Vec<Skill> = Vec::new();
    assert(skills_model(l0@) =~= Seq::<SkillModel>::empty());
    assert(skills_model(l1@) =~= Seq::<SkillModel>::empty());
    assert(skills_model(l2@) =~= Seq::<SkillModel>::empty());
    assert(skills_model(l3@) =~= Seq::<SkillModel>::empty());
    let mut k: usize = 0;
    while k < keys.len()
        invariant
            k <= keys@.len(),
            keys@.len() == 8,
            buckets@ == seq![0u8, 1, 1, 2, 2, 2, 3, 3],
            key_views(keys@) == skill_plan().map_values(|p: (Seq<char>, nat)| p.0),
            skills_model(l0@) == bucket_from_plan(*v, 0, k as nat),
            skills_model(l1@) == bucket_from_plan(*v, 1, k as nat),
            skills_model(l2@) == bucket_from_plan(*v, 2, k as nat),
            skills_model(l3@) == bucket_from_plan(*v, 3, k as nat),
        decreases keys@.len() - k,
    {
        assert(key_views(keys@)[k as int] == keys@[k as int]@);
        assert(skill_plan().map_values(|p: (Seq<char>, nat)| p.0)[k as int] == skill_plan()[k as int].0);
        assert(skill_plan()[k as int].0 == keys@[k as int]@);
        assert(skill_plan()[k as int].1 == buckets@[k as int] as nat);
        let b = buckets[k];
        let ghost (p0, p1, p2, p3) = (skills_model(l0@), skills_model(l1@), skills_model(l2@), skills_model(l3@));
        let mut found: Vec<Skill> = Vec::new();
        match lc_get(v, keys[k]) {
            Some(JsonValue::Array(arr)) => {
                let ghost is = arr@;
                let mut j: usize = 0;
                assert(is.take(0) =~= Seq::<JsonValue>::empty());
                assert(skills_model(found@) =~= Seq::<SkillModel>::empty());
                while j < arr.len()
                    invariant
                        j <= arr@.len(),
                        is == arr@,
                        skills_model(found@) == skills_of(is.take(j as int)),
                    decreases arr@.len() - j,
                {
                    assert(is.take(j + 1).drop_last() =~= is.take(j as int));
                    assert(is.take(j + 1).last() == arr@[j as int]);
                    let ghost pre = skills_model(found@);
                    match skill_from(&arr[j]) {
                        Some(s) => {
                            found.push(s);
                            assert(skills_model(found@) =~= pre + seq![s@]);
                        },
                        None => {
                            assert(pre + Seq::<SkillModel>::empty() =~= pre);
                        },
                    }
                    j += 1;
                }
                assert(is.take(is.len() as int) =~= is);
            },
            _ => {
                assert(skills_model(found@) =~= Seq::<SkillModel>::empty());
            },
        }
        let ghost fm = skills_model(found@);
        if b == 0 {
            crate::types::append_skill_models(&mut l0, found);
        } else if b == 1 {
            crate::types::append_skill_models(&mut l1, found);
        } else if b == 2 {
            crate::types::append_skill_models(&mut l2, found);
        } else {
            crate::types::append_skill_models(&mut l3, found);
        }
        proof {
            assert(p0 + Seq::<SkillModel>::empty() =~= p0);
            assert(p1 + Seq::<SkillModel>::empty() =~= p1);
            assert(p2 + Seq::<SkillModel>::empty() =~= p2);
            assert(p3 + Seq::<SkillModel>::empty() =~= p3);
        }
        k += 1;
    }
    SkillLists { programming_languages: l0, skills: l1, tools_technologies: l2, as_a_services: l3 }
}

// ── the miner ────────────────────────────────────────────────────────────────────

/// The CV mined from a value, or `None` when it has no name, no experience and no
/// skill.
pub open spec fn import_cv_json_spec(v: JsonValue) -> Option<MasterCvModel> {
    let person = person_spec(person_source_from(v, 0), v);
    let exps = experience_spec(v).0;
    let pl = bucket_from_plan(v, 0, 8);
    let sk = bucket_from_plan(v, 1, 8);
    let tt = bucket_from_plan(v, 2, 8);
    let aas = bucket_from_plan(v, 3, 8);
    if person.name is None && exps.len() == 0 && pl.len() == 0 && sk.len() == 0 && tt.len() == 0 && aas.len() == 0 {
        None
    } else {
        Some(
            MasterCvModel {
                schema_version: "1.0.0"@,
                person,
                headline: person.professional_title,
                summary_variants: Seq::empty(),
                programming_languages: pl,
                skills: sk,
                tools_technologies: tt,
                as_a_services: aas,
                experience: exps,
                projects: Seq::empty(),
                education: Seq::empty(),
                certifications: Seq::empty(),
                awards: Seq::empty(),
                preferences: None,
            },
        )
    }
}

/// Mine an arbitrary CV JSON value into a new master CV; `Empty` when the value
/// carries no person name, no experience and no skill.
pub fn import_cv_json(v: &JsonValue) -> (r: Result<MasterCv, ImportError>)
    ensures
        match r {
            Ok(cv) => import_cv_json_spec(*v) == Some(cv@),
            Err(e) => import_cv_json_spec(*v) is None && e is Empty,
        },
{
    let src = person_source(v);
    let person = extract_person(src, v);
    let (experience, _ignored) = extract_experience(v);
    let skills = extract_skills(v);
    if person.name.is_none() && experience.len() == 0 && skills.programming_languages.len() == 0
        && skills.skills.len() == 0 && skills.tools_technologies.len() == 0 && skills.as_a_services.len() == 0 {
        return Err(ImportError::Empty);
    }
    let headline = crate::types::copy_opt(&person.professional_title);
    let cv = MasterCv {
        schema_version: String::from_str("1.0.0"),
        person,
        headline,
        summary_variants: Vec::new(),
        programming_languages: skills.programming_languages,
        skills: skills.skills,
        tools_technologies: skills.tools_technologies,
        as_a_services: skills.as_a_services,
        experience,
        projects: Vec::new(),
        education: Vec::new(),
        certifications: Vec::new(),
        awards: Vec::new(),
        preferences: None,
    };
    assert(cv@.summary_variants =~= Seq::<Seq<char>>::empty());
    assert(cv@.projects =~= Seq::<Seq<char>>::empty());
    assert(cv@.education =~= Seq::<Seq<char>>::empty());
    assert(cv@.certifications =~= Seq::<Seq<char>>::empty());
    assert(cv@.awards =~= Seq::<Seq<char>>::empty());
    Ok(cv)
}

/// The names of the role arrays that lost to the winning one.
pub fn ignored_role_arrays(v: &JsonValue) -> (r: Vec<String>)
    ensures
        strs(r@) == experience_spec(*v).1,
{
    let (_exp, ignored) = extract_experience(v);
    ignored
}

// ── completeness ─────────────────────────────────────────────────────────────────

/// What the miner could not find that the app needs.
#[derive(Debug, Clone, PartialEq, Eq)]
pub struct CompletenessReport {
    pub missing_person_name: bool,
    pub missing_experience: bool,
    pub missing_achievement: bool,
    pub missing_skill: bool,
    pub ignored_role_arrays: Vec<String>,
}

impl CompletenessReport {
    /// True when no important class is missing (the ignored arrays are informational).
    pub fn is_complete(&self) -> (r: bool)
        ensures
            r == (!self.missing_person_name && !self.missing_experience && !self.missing_achievement
                && !self.missing_skill),
    {
        !self.missing_person_name && !self.missing_experience && !self.missing_achievement && !self.missing_skill
    }
}

/// Some experience has both a job title and a business name.
pub open spec fn has_full_experience(cv: MasterCvModel) -> bool {
    exists|i: int|
        0 <= i < cv.experience.len() && #[trigger] cv.experience[i].job_title.len() > 0
            && cv.experience[i].business_name.len() > 0
}

/// Some achievement has a description.
pub open spec fn has_achievement(cv: MasterCvModel) -> bool {
    exists|i: int, j: int|
        0 <= i < cv.experience.len() && 0 <= j < cv.experience[i].achievements_tasks.len()
            && #[trigger] cv.experience[i].achievements_tasks[j].description.len() > 0
}

/// The completeness report of a produced CV, given the ignored role arrays.
pub fn completeness(cv: &MasterCv, ignored: &Vec<String>) -> (r: CompletenessReport)
    ensures
        r.missing_person_name == (cv@.person.name is None),
        r.missing_experience == !has_full_experience(cv@),
        r.missing_achievement == !has_achievement(cv@),
        r.missing_skill == (cv@.programming_languages.len() == 0 && cv@.skills.len() == 0
            && cv@.tools_technologies.len() == 0 && cv@.as_a_services.len() == 0),
        strs(r.ignored_role_arrays@) == strs(ignored@),
{
    let missing_person_name = cv.person.name.is_none();
    let mut full = false;
    let mut ach = false;
    let mut i: usize = 0;
    while i < cv.experience.len()
        invariant
            i <= cv.experience@.len(),
            full == exists|x: int|
                0 <= x < i && #[trigger] cv@.experience[x].job_title.len() > 0 && cv@.experience[x].business_name.len() > 0,
            ach == exists|x: int, j: int|
                0 <= x < i && 0 <= j < cv@.experience[x].achievements_tasks.len()
                    && #[trigger] cv@.experience[x].achievements_tasks[j].description.len() > 0,
        decreases cv.experience@.len() - i,
    {
        let e = &cv.experience[i];
        assert(cv@.experience[i as int] == e@);
        if !e.job_title.as_str().is_empty() && !e.business_name.as_str().is_empty() {
            assert(cv@.experience[i as int].job_title.len() > 0 && cv@.experience[i as int].business_name.len() > 0);
            full = true;
        }
        let mut j: usize = 0;
        let ghost ach0 = ach;
        while j < e.achievements_tasks.len()
            invariant
                j <= e.achievements_tasks@.len(),
                i < cv@.experience.len(),
                cv@.experience[i as int] == e@,
                ach == (ach0 || exists|k: int|
                    0 <= k < j && #[trigger] e@.achievements_tasks[k].description.len() > 0),
            decreases e.achievements_tasks@.len() - j,
        {
            assert(e@.achievements_tasks[j as int] == e.achievements_tasks@[j as int]@);
            if !e.achievements_tasks[j].description.as_str().is_empty() {
                assert(e@.achievements_tasks[j as int].description.len() > 0);
                ach = true;
            }
            j += 1;
        }
        proof {
            if ach && !ach0 {
                let k = choose|k: int| 0 <= k < j && #[trigger] e@.achievements_tasks[k].description.len() > 0;
                assert(cv@.experience[i as int].achievements_tasks[k].description.len() > 0);
            }
        }
        i += 1;
    }
    let missing_skill = cv.programming_languages.len() == 0 && cv.skills.len() == 0 && cv.tools_technologies.len() == 0
        && cv.as_a_services.len() == 0;
    CompletenessReport {
        missing_person_name,
        missing_experience: !full,
        missing_achievement: !ach,
        missing_skill,
        ignored_role_arrays: crate::types::copy_strings(ignored),
    }
}

proof fn lemma_str_field_nonempty(v: JsonValue, keys: Seq<Seq<char>>, from: nat)
    ensures
        str_field_from(v, keys, from) matches Some(t) ==> t.len() > 0,
    decreases keys.len() - from,
{
    if from < keys.len() {
        lemma_str_field_nonempty(v, keys, from + 1);
    }
}

/// Mined roles are exactly the role elements with a non-blank job title: the k-th
/// emitted role has a non-empty title and the synthetic id `imp_exp_k`, so ids are
/// dense over the emitted roles.
pub proof fn law_mined_roles_titled_and_dense(els: Seq<JsonValue>, k: int)
    requires
        0 <= k < mined_experiences(els).len(),
    ensures
        mined_experiences(els)[k].job_title.len() > 0,
        mined_experiences(els)[k].id == mined_experience_id(k as nat),
        mined_experiences(els).len() <= els.len(),
    decreases els.len(),
{
    let prev = mined_experiences(els.drop_last());
    if k < prev.len() {
        law_mined_roles_titled_and_dense(els.drop_last(), k);
        match str_field_spec(els.last(), job_title_keys()) {
            Some(t) => {
                assert(mined_experiences(els)[k] == prev[k]);
            },
            None => {},
        }
    } else {
        lemma_str_field_nonempty(els.last(), job_title_keys(), 0);
        if prev.len() > 0 {
            law_mined_roles_titled_and_dense(els.drop_last(), 0);
        }
    }
}

} // verus!
