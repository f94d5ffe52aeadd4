//! Normalisation and the alias map: the comparable form of a phrase.
//!
//! A token is normalised by trimming, dropping control characters and taking the
//! Unicode lowercase. A phrase is split on whitespace and `, ; . ( ) :` (keeping `/`,
//! so `ci/cd` survives as one token), each piece normalised, empty pieces dropped.
//! A token that is an alias key also contributes the tokens of its alias target.

use crate::text::{
    all_ascii, ascii_lowered, char_vecs, chars_of, is_control, is_ctrl, is_ws, lemma_ascii_lower_char, lemma_split_ascii,
    lemma_split_lowered, lemma_split_same_pattern, lowercase_of, split_chars, split_spec, string_of, strs, to_lowercase, trim, trim_end,
    trim_start, trimmed, Sep,
};
use vstd::prelude::*;

verus! {

// ── specifications ───────────────────────────────────────────────────────────────

/// `s` with every control character removed.
pub open spec fn strip_ctrl(s: Seq<char>) -> Seq<char>
    decreases s.len(),
{
    if s.len() == 0 {
        s
    } else {
        let r = strip_ctrl(s.drop_last());
        if is_ctrl(s.last()) {
            r
        } else {
            r.push(s.last())
        }
    }
}

/// The normal form of one token: trimmed, control chars dropped, lowercased.
pub open spec fn normalize_spec(tok: Seq<char>) -> Seq<char> {
    lowercase_of(strip_ctrl(trim(tok)))
}

/// The non-empty members of `s`, in order.
pub open spec fn keep_nonempty(s: Seq<Seq<char>>) -> Seq<Seq<char>>
    decreases s.len(),
{
    if s.len() == 0 {
        s
    } else {
        let r = keep_nonempty(s.drop_last());
        if s.last().len() > 0 {
            r.push(s.last())
        } else {
            r
        }
    }
}

/// The normalised, non-empty tokens of a phrase.
pub open spec fn tokenize_spec(phrase: Seq<char>) -> Seq<Seq<char>> {
    keep_nonempty(split_spec(phrase, Sep::Token).map_values(|p: Seq<char>| normalize_spec(p)))
}

/// `out` extended by `t` unless `t` is already present.
pub open spec fn push_unique(out: Seq<Seq<char>>, t: Seq<char>) -> Seq<Seq<char>> {
    if out.contains(t) {
        out
    } else {
        out.push(t)
    }
}

/// `out` extended by each member of `items` not yet present (first occurrences kept).
pub open spec fn dedup_into(out: Seq<Seq<char>>, items: Seq<Seq<char>>) -> Seq<Seq<char>>
    decreases items.len(),
{
    if items.len() == 0 {
        out
    } else {
        push_unique(dedup_into(out, items.drop_last()), items.last())
    }
}

/// A token plus, when it is an alias key, the (deduplicated) tokens of its target.
pub open spec fn expand_spec(token: Seq<char>, al: Map<Seq<char>, Seq<char>>) -> Seq<Seq<char>> {
    if al.contains_key(token) {
        dedup_into(seq![token], tokenize_spec(al[token]))
    } else {
        seq![token]
    }
}

/// The concatenated expansions of `toks`.
pub open spec fn expand_all(toks: Seq<Seq<char>>, al: Map<Seq<char>, Seq<char>>) -> Seq<Seq<char>>
    decreases toks.len(),
{
    if toks.len() == 0 {
        Seq::empty()
    } else {
        expand_all(toks.drop_last(), al) + expand_spec(toks.last(), al)
    }
}

/// The alias-expanded, deduplicated token set of a phrase, in first-seen order.
pub open spec fn normalized_set_spec(phrase: Seq<char>, al: Map<Seq<char>, Seq<char>>) -> Seq<Seq<char>> {
    dedup_into(Seq::empty(), expand_all(tokenize_spec(phrase), al))
}

/// The normal form of an ASCII token: trimmed, control chars dropped, ASCII-lowered.
pub open spec fn ascii_normalize_spec(tok: Seq<char>) -> Seq<char> {
    ascii_lowered(strip_ctrl(trim(tok)))
}

/// The tokens of an ASCII phrase, normalised through ASCII lowering.
pub open spec fn ascii_tokenize_spec(phrase: Seq<char>) -> Seq<Seq<char>> {
    keep_nonempty(split_spec(phrase, Sep::Token).map_values(|p: Seq<char>| ascii_normalize_spec(p)))
}

/// The alias-expanded, deduplicated token set of an ASCII phrase.
pub open spec fn ascii_normalized_set_spec(phrase: Seq<char>, al: Map<Seq<char>, Seq<char>>) -> Seq<Seq<char>> {
    dedup_into(Seq::empty(), expand_all(ascii_tokenize_spec(phrase), al))
}

// ── lemmas ───────────────────────────────────────────────────────────────────────

proof fn lemma_trim_start_lowered(s: Seq<char>)
    ensures
        trim_start(ascii_lowered(s)) == ascii_lowered(trim_start(s)),
        all_ascii(s) ==> all_ascii(trim_start(s)),
    decreases s.len(),
{
    if s.len() > 0 {
        lemma_ascii_lower_char(s[0]);
        assert(ascii_lowered(s)[0] == crate::text::ascii_lower(s[0]));
        if is_ws(s[0]) {
            assert(ascii_lowered(s).drop_first() =~= ascii_lowered(s.drop_first()));
            lemma_trim_start_lowered(s.drop_first());
            assert(all_ascii(s) ==> all_ascii(s.drop_first()));
        }
    }
}

proof fn lemma_trim_end_lowered(s: Seq<char>)
    ensures
        trim_end(ascii_lowered(s)) == ascii_lowered(trim_end(s)),
        all_ascii(s) ==> all_ascii(trim_end(s)),
    decreases s.len(),
{
    if s.len() > 0 {
        lemma_ascii_lower_char(s.last());
        assert(ascii_lowered(s).last() == crate::text::ascii_lower(s.last()));
        if is_ws(s.last()) {
            assert(ascii_lowered(s).drop_last() =~= ascii_lowered(s.drop_last()));
            lemma_trim_end_lowered(s.drop_last());
            assert(all_ascii(s) ==> all_ascii(s.drop_last()));
        }
    }
}

proof fn lemma_strip_ctrl_lowered(s: Seq<char>)
    ensures
        strip_ctrl(ascii_lowered(s)) == ascii_lowered(strip_ctrl(s)),
        all_ascii(s) ==> all_ascii(strip_ctrl(s)),
    decreases s.len(),
{
    if s.len() == 0 {
        assert(ascii_lowered(s) =~= s);
    } else {
        lemma_ascii_lower_char(s.last());
        assert(ascii_lowered(s).last() == crate::text::ascii_lower(s.last()));
        assert(ascii_lowered(s).drop_last() =~= ascii_lowered(s.drop_last()));
        lemma_strip_ctrl_lowered(s.drop_last());
        assert(all_ascii(s) ==> all_ascii(s.drop_last()));
        let r = strip_ctrl(s.drop_last());
        if !is_ctrl(s.last()) {
            assert(ascii_lowered(r.push(s.last())) =~= ascii_lowered(r).push(crate::text::ascii_lower(s.last())));
            assert(all_ascii(s) ==> (s.last() as u32) < 128) by {
                assert(s.last() == s[s.len() - 1]);
            }
            assert(all_ascii(r) && (s.last() as u32) < 128 ==> all_ascii(r.push(s.last()))) by {
                assert forall|i: int| 0 <= i < r.push(s.last()).len() && all_ascii(r) && (s.last() as u32) < 128 implies (
                #[trigger] r.push(s.last())[i] as u32) < 128 by {
                    if i < r.len() {
                        assert(r.push(s.last())[i] == r[i]);
                    }
                }
            }
        }
    }
}

proof fn lemma_lowered_twice(s: Seq<char>)
    ensures
        ascii_lowered(ascii_lowered(s)) == ascii_lowered(s),
{
    assert forall|i: int| 0 <= i < s.len() implies #[trigger] ascii_lowered(ascii_lowered(s))[i] == ascii_lowered(s)[i] by {
        lemma_ascii_lower_char(s[i]);
    }
    assert(ascii_lowered(ascii_lowered(s)) =~= ascii_lowered(s));
}

/// The ASCII normal form of an ASCII token is its normal form (`str::to_lowercase`
/// agrees with ASCII lowering on ASCII text), and the token's own normal form is ASCII.
proof fn lemma_ascii_normal_ascii(tok: Seq<char>)
    requires
        all_ascii(tok),
    ensures
        all_ascii(strip_ctrl(trim(tok))),
{
    lemma_trim_start_lowered(tok);
    lemma_trim_end_lowered(trim_start(tok));
    lemma_strip_ctrl_lowered(trim(tok));
}

/// ASCII tokenizing ignores ASCII case: a phrase tokenizes as its ASCII-lowered form.
pub proof fn lemma_ascii_tokenize_lowered(s: Seq<char>)
    ensures
        ascii_tokenize_spec(ascii_lowered(s)) == ascii_tokenize_spec(s),
{
    lemma_split_lowered(s);
    let ps = split_spec(s, Sep::Token);
    let a = split_spec(ascii_lowered(s), Sep::Token).map_values(|p: Seq<char>| ascii_normalize_spec(p));
    let b = ps.map_values(|p: Seq<char>| ascii_normalize_spec(p));
    assert forall|j: int| 0 <= j < a.len() implies #[trigger] a[j] == b[j] by {
        let p = ps[j];
        lemma_trim_start_lowered(p);
        lemma_trim_end_lowered(trim_start(p));
        lemma_strip_ctrl_lowered(trim(p));
        lemma_lowered_twice(strip_ctrl(trim(p)));
        assert(split_spec(ascii_lowered(s), Sep::Token)[j] == ascii_lowered(p));
    }
    assert(a =~= b);
}

pub proof fn lemma_dedup_append(o: Seq<Seq<char>>, a: Seq<Seq<char>>, b: Seq<Seq<char>>)
    ensures
        dedup_into(o, a + b) == dedup_into(dedup_into(o, a), b),
    decreases b.len(),
{
    if b.len() == 0 {
        assert(a + b == a);
    } else {
        assert((a + b).drop_last() == a + b.drop_last());
        assert((a + b).last() == b.last());
        lemma_dedup_append(o, a, b.drop_last());
    }
}

/// Deduplication keeps exactly the members of its inputs, each once.
pub proof fn lemma_dedup_props(o: Seq<Seq<char>>, items: Seq<Seq<char>>)
    requires
        o.no_duplicates(),
    ensures
        dedup_into(o, items).no_duplicates(),
        forall|t: Seq<char>| #[trigger] dedup_into(o, items).contains(t) <==> (o.contains(t) || items.contains(t)),
    decreases items.len(),
{
    if items.len() > 0 {
        lemma_dedup_props(o, items.drop_last());
        let r = dedup_into(o, items.drop_last());
        let x = items.last();
        assert forall|t: Seq<char>| #[trigger] dedup_into(o, items).contains(t) <==> (o.contains(t) || items.contains(t)) by {
            if items.contains(t) && t != x {
                let k = choose|k: int| 0 <= k < items.len() && items[k] == t;
                assert(items.drop_last()[k] == t);
            }
            if items.drop_last().contains(t) {
                let k = choose|k: int| 0 <= k < items.drop_last().len() && items.drop_last()[k] == t;
                assert(items[k] == t);
            }
            if !r.contains(x) {
                if r.push(x).contains(t) && t != x {
                    let k = choose|k: int| 0 <= k < r.push(x).len() && r.push(x)[k] == t;
                    assert(r[k] == t);
                }
                if r.contains(t) {
                    let k = choose|k: int| 0 <= k < r.len() && r[k] == t;
                    assert(r.push(x)[k] == t);
                }
                assert(r.push(x)[r.len() as int] == x);
            }
            assert(items[items.len() - 1] == x);
        }
        if !r.contains(x) {
            assert forall|i: int, j: int| 0 <= i < j < r.push(x).len() implies r.push(x)[i] != r.push(x)[j] by {
                if j == r.len() {
                    assert(r[i] == r.push(x)[i]);
                }
            }
        }
    }
}

// ── executable ───────────────────────────────────────────────────────────────────

/// `t` appended to `out` unless already present.
pub fn push_unique_string(out: &mut Vec<String>, t: String)
    ensures
        strs(final(out)@) == push_unique(strs(old(out)@), t@),
{
    let ghost before = strs(out@);
    let mut i: usize = 0;
    while i < out.len()
        invariant
            i <= out.len(),
            strs(out@) == before,
            forall|k: int| 0 <= k < i ==> out@[k]@ != t@,
        decreases out.len() - i,
    {
        if out[i] == t {
            assert(before[i as int] == t@);
            return;
        }
        i += 1;
    }
    assert(!before.contains(t@)) by {
        if before.contains(t@) {
            let k = choose|k: int| 0 <= k < before.len() && before[k] == t@;
            assert(out@[k]@ == t@);
        }
    }
    out.push(t);
    assert(strs(out@) =~= before.push(t@));
}

/// Whether `v` holds a string equal to `t`.
pub fn contains_string(v: &Vec<String>, t: &String) -> (r: bool)
    ensures
        r == strs(v@).contains(t@),
{
    let mut i: usize = 0;
    while i < v.len()
        invariant
            i <= v.len(),
            forall|k: int| 0 <= k < i ==> v@[k]@ != t@,
        decreases v.len() - i,
    {
        if v[i] == *t {
            assert(strs(v@)[i as int] == t@);
            return true;
        }
        i += 1;
    }
    assert(!strs(v@).contains(t@)) by {
        if strs(v@).contains(t@) {
            let k = choose|k: int| 0 <= k < strs(v@).len() && strs(v@)[k] == t@;
            assert(v@[k]@ == t@);
        }
    }
    false
}

/// `strip_ctrl(v)`.
fn strip_controls(v: &Vec<char>) -> (r: Vec<char>)
    ensures
        r@ == strip_ctrl(v@),
{
    let mut out: Vec<char> = Vec::new();
    let mut i: usize = 0;
    while i < v.len()
        invariant
            i <= v.len(),
            out@ == strip_ctrl(v@.take(i as int)),
        decreases v.len() - i,
    {
        assert(v@.take(i + 1).drop_last() == v@.take(i as int));
        assert(v@.take(i + 1).last() == v@[i as int]);
        if !is_control(v[i]) {
            out.push(v[i]);
        }
        i += 1;
    }
    assert(v@.take(v@.len() as int) == v@);
    out
}

/// The normal form of a token given as chars.
pub fn normalize_chars(v: &Vec<char>) -> (r: String)
    ensures
        r@ == normalize_spec(v@),
        all_ascii(v@) ==> normalize_spec(v@) == ascii_normalize_spec(v@),
{
    let t = trimmed(v);
    let f = strip_controls(&t);
    let s = string_of(&f);
    proof {
        if all_ascii(v@) {
            lemma_ascii_normal_ascii(v@);
        }
    }
    to_lowercase(s.as_str())
}

/// Lowercase a single token: trim surrounding whitespace, strip control characters,
/// Unicode-lowercase. Never panics, whatever the input.
pub fn normalize_token(tok: &str) -> (r: String)
    ensures
        r@ == normalize_spec(tok@),
{
    let v = chars_of(tok);
    normalize_chars(&v)
}

/// The normalised, non-empty tokens of `v`.
pub fn tokenize_chars(v: &Vec<char>) -> (r: Vec<String>)
    ensures
        strs(r@) == tokenize_spec(v@),
        all_ascii(v@) ==> tokenize_spec(v@) == ascii_tokenize_spec(v@),
{
    let pieces = split_chars(v, Sep::Token);
    let ghost mapped = split_spec(v@, Sep::Token).map_values(|p: Seq<char>| normalize_spec(p));
    let ghost amapped = split_spec(v@, Sep::Token).map_values(|p: Seq<char>| ascii_normalize_spec(p));
    proof {
        if all_ascii(v@) {
            lemma_split_ascii(v@, Sep::Token);
        }
    }
    let mut out: Vec<String> = Vec::new();
    let mut i: usize = 0;
    while i < pieces.len()
        invariant
            i <= pieces.len(),
            char_vecs(pieces@) == split_spec(v@, Sep::Token),
            mapped == split_spec(v@, Sep::Token).map_values(|p: Seq<char>| normalize_spec(p)),
            amapped == split_spec(v@, Sep::Token).map_values(|p: Seq<char>| ascii_normalize_spec(p)),
            all_ascii(v@) ==> forall|j: int| 0 <= j < split_spec(v@, Sep::Token).len() ==> all_ascii(
                #[trigger] split_spec(v@, Sep::Token)[j],
            ),
            all_ascii(v@) ==> forall|j: int| 0 <= j < i ==> #[trigger] mapped[j] == amapped[j],
            strs(out@) == keep_nonempty(mapped.take(i as int)),
        decreases pieces.len() - i,
    {
        assert(char_vecs(pieces@)[i as int] == pieces@[i as int]@);
        let t = normalize_chars(&pieces[i]);
        proof {
            assert(mapped.take(i + 1).drop_last() == mapped.take(i as int));
            assert(mapped.take(i + 1).last() == mapped[i as int]);
            assert(char_vecs(pieces@)[i as int] == pieces@[i as int]@);
        }
        let ghost before = strs(out@);
        if !t.as_str().is_empty() {
            out.push(t);
            assert(strs(out@) =~= before.push(t@));
        }
        i += 1;
    }
    assert(mapped.take(mapped.len() as int) == mapped);
    assert(all_ascii(v@) ==> mapped =~= amapped);
    out
}

/// Split a free-text phrase into normalised tokens. Splits on whitespace and `, ; .
/// ( ) :` but keeps `/`, so `ci/cd` survives as one token. Empty tokens are dropped.
pub fn tokenize(phrase: &str) -> (r: Vec<String>)
    ensures
        strs(r@) == tokenize_spec(phrase@),
        all_ascii(phrase@) ==> strs(r@) == ascii_tokenize_spec(phrase@),
{
    let v = chars_of(phrase);
    tokenize_chars(&v)
}


// ── the alias map ────────────────────────────────────────────────────────────────

/// An alias map from a normalised token to its expansion target. Its model is a
/// `Map` over char sequences; inserting an existing key replaces its target.
#[derive(Debug)]
pub struct AliasMap {
    entries: Vec<(String, String)>,
}

impl AliasMap {
    #[verifier::type_invariant]
    spec fn keys_unique(self) -> bool {
        forall|i: int, j: int|
            0 <= i < self.entries@.len() && 0 <= j < self.entries@.len() && #[trigger] self.entries@[i].0@
                == #[trigger] self.entries@[j].0@ ==> i == j
    }

    spec fn has_key_at(self, k: Seq<char>, i: int) -> bool {
        0 <= i < self.entries@.len() && self.entries@[i].0@ == k
    }

    /// The map this alias list denotes.
    pub closed spec fn as_map(self) -> Map<Seq<char>, Seq<char>> {
        Map::new(
            |k: Seq<char>| exists|i: int| self.has_key_at(k, i),
            |k: Seq<char>| self.entries@[choose|i: int| self.has_key_at(k, i)].1@,
        )
    }

    /// An empty alias map.
    pub fn new() -> (r: AliasMap)
        ensures
            r@ == Map::<Seq<char>, Seq<char>>::empty(),
    {
        let r = AliasMap { entries: Vec::new() };
        assert(r.as_map() =~= Map::<Seq<char>, Seq<char>>::empty());
        r
    }

    fn find(&self, key: &String) -> (r: Option<usize>)
        ensures
            r matches Some(i) ==> self.has_key_at(key@, i as int),
            r is None ==> forall|i: int| !self.has_key_at(key@, i),
    {
        let mut i: usize = 0;
        while i < self.entries.len()
            invariant
                i <= self.entries@.len(),
                forall|k: int| 0 <= k < i ==> !self.has_key_at(key@, k),
            decreases self.entries@.len() - i,
        {
            if self.entries[i].0 == *key {
                return Some(i);
            }
            i += 1;
        }
        None
    }

    /// The target of `key`, if it is a key.
    pub fn get(&self, key: &String) -> (r: Option<String>)
        ensures
            r is Some <==> self@.contains_key(key@),
            r matches Some(v) ==> v@ == self@[key@],
    {
        proof { use_type_invariant(self); }
        match self.find(key) {
            Some(i) => {
                proof {
                    assert(self.has_key_at(key@, i as int));
                    let j = choose|j: int| self.has_key_at(key@, j);
                    assert(self.entries@[j].0@ == self.entries@[i as int].0@);
                }
                Some(self.entries[i].1.clone())
            },
            None => None,
        }
    }

    /// Map `key` to `value`, replacing any previous target of `key`.
    pub fn insert(&mut self, key: String, value: String)
        ensures
            final(self)@ == old(self)@.insert(key@, value@),
    {
        proof { use_type_invariant(&*self); }
        let ghost old_self = *self;
        let ghost old_map = self.as_map();
        let ghost old_entries = self.entries@;
        let ghost kv = key@;
        let ghost vv = value@;
        let found = self.find(&key);
        proof {
            match found {
                Some(i) => { assert(old_entries[i as int].0@ == kv); },
                None => {
                    assert forall|i: int| 0 <= i < old_entries.len() implies old_entries[i].0@ != kv by {
                        assert(!self.has_key_at(kv, i));
                    }
                },
            }
        }
        let mut entries: Vec<(String, String)> = Vec::new();
        std::mem::swap(&mut entries, &mut self.entries);
        match found {
            Some(i) => {
                entries.set(i, (key, value));
                proof {
                    assert forall|a: int, b: int|
                        0 <= a < entries@.len() && 0 <= b < entries@.len() && #[trigger] entries@[a].0@
                            == #[trigger] entries@[b].0@ implies a == b by {
                        if a != i && b != i {
                            assert(old_entries[a].0@ == old_entries[b].0@);
                        } else if a == i && b != i {
                            assert(old_entries[b].0@ == old_entries[i as int].0@);
                        } else if b == i && a != i {
                            assert(old_entries[a].0@ == old_entries[i as int].0@);
                        }
                    }
                }
            },
            None => {
                entries.push((key, value));
                proof {
                    assert forall|a: int, b: int|
                        0 <= a < entries@.len() && 0 <= b < entries@.len() && #[trigger] entries@[a].0@
                            == #[trigger] entries@[b].0@ implies a == b by {
                        let n = old_entries.len() as int;
                        if a < n && b < n {
                            assert(old_entries[a].0@ == old_entries[b].0@);
                        } else if a < n {
                            assert(old_entries[a].0@ == kv);
                        } else if b < n {
                            assert(old_entries[b].0@ == kv);
                        }
                    }
                }
            },
        }
        self.entries = entries;
        proof {
            use_type_invariant(&*self);
            let nm = self.as_map();
            let target = old_map.insert(kv, vv);
            assert forall|k: Seq<char>| nm.dom().contains(k) <==> target.dom().contains(k) by {
                if k == kv {
                    match found {
                        Some(i) => { assert(self.has_key_at(k, i as int)); },
                        None => { assert(self.has_key_at(k, old_entries.len() as int)); },
                    }
                } else {
                    if nm.dom().contains(k) {
                        let j = choose|j: int| self.has_key_at(k, j);
                        assert(self.has_key_at(k, j));
                        match found {
                            Some(i) => { assert(j != i); },
                            None => { assert(j < old_entries.len()); },
                        }
                        assert(self.entries@[j] == old_entries[j]);
                        assert(old_self.has_key_at(k, j));
                    }
                    if old_map.dom().contains(k) {
                        let j = choose|j: int| old_self.has_key_at(k, j);
                        assert(old_self.has_key_at(k, j));
                        assert(self.has_key_at(k, j));
                    }
                }
            }
            assert forall|k: Seq<char>| nm.dom().contains(k) implies nm[k] == target[k] by {
                let j = choose|j: int| self.has_key_at(k, j);
                if k == kv {
                    match found {
                        Some(i) => { assert(self.has_key_at(k, i as int)); assert(j == i); },
                        None => { assert(self.has_key_at(k, old_entries.len() as int)); assert(j == old_entries.len()); },
                    }
                } else {
                    let j0 = choose|j0: int| old_self.has_key_at(k, j0);
                    assert(old_self.has_key_at(k, j0));
                    assert(self.has_key_at(k, j0));
                    assert(j == j0);
                    assert(old_map[k] == old_entries[j0].1@);
                }
            }
            assert(nm =~= target);
        }
    }
}

impl View for AliasMap {
    type V = Map<Seq<char>, Seq<char>>;

    closed spec fn view(&self) -> Map<Seq<char>, Seq<char>> {
        self.as_map()
    }
}


/// The seed alias map: `js→javascript`, `ts→typescript`, `k8s→kubernetes`,
/// `ci/cd→continuous integration`, `golang→go`, `postgres→postgresql`,
/// `gcp→google cloud`. Keys and targets are already lowercase.
pub open spec fn seed_map() -> Map<Seq<char>, Seq<char>> {
    Map::empty().insert("js"@, "javascript"@).insert("ts"@, "typescript"@).insert(
        "k8s"@,
        "kubernetes"@,
    ).insert("ci/cd"@, "continuous integration"@).insert("golang"@, "go"@).insert(
        "postgres"@,
        "postgresql"@,
    ).insert("gcp"@, "google cloud"@)
}

/// The seed alias map (see [`seed_map`]).
pub fn seed_aliases() -> (r: AliasMap)
    ensures
        r@ == seed_map(),
{
    let mut m = AliasMap::new();
    m.insert(String::from_str("js"), String::from_str("javascript"));
    m.insert(String::from_str("ts"), String::from_str("typescript"));
    m.insert(String::from_str("k8s"), String::from_str("kubernetes"));
    m.insert(String::from_str("ci/cd"), String::from_str("continuous integration"));
    m.insert(String::from_str("golang"), String::from_str("go"));
    m.insert(String::from_str("postgres"), String::from_str("postgresql"));
    m.insert(String::from_str("gcp"), String::from_str("google cloud"));
    m
}

/// Expand a normalised token through the alias map: the token itself plus, if it is
/// an alias key, the tokens of its target (each once). `js → [js, javascript]`.
pub fn expand(token: &str, aliases: &AliasMap) -> (r: Vec<String>)
    ensures
        strs(r@) == expand_spec(token@, aliases@),
{
    let key = String::from_str(token);
    let mut out: Vec<String> = Vec::new();
    out.push(String::from_str(token));
    assert(strs(out@) =~= seq![token@]);
    match aliases.get(&key) {
        Some(target) => {
            let toks = tokenize(target.as_str());
            let ghost ts = tokenize_spec(target@);
            let mut i: usize = 0;
            assert(ts.take(0) =~= Seq::<Seq<char>>::empty());
            while i < toks.len()
                invariant
                    i <= toks.len(),
                    strs(toks@) == ts,
                    strs(out@) == dedup_into(seq![token@], ts.take(i as int)),
                decreases toks.len() - i,
            {
                proof {
                    assert(ts.take(i + 1).drop_last() == ts.take(i as int));
                    assert(ts.take(i + 1).last() == toks@[i as int]@);
                }
                push_unique_string(&mut out, toks[i].clone());
                i += 1;
            }
            assert(ts.take(ts.len() as int) == ts);
        },
        None => {},
    }
    out
}

/// The full alias-expanded, deduplicated token set of `v` (first-seen order).
pub fn normalized_set_chars(v: &Vec<char>, aliases: &AliasMap) -> (r: Vec<String>)
    ensures
        strs(r@) == normalized_set_spec(v@, aliases@),
        all_ascii(v@) ==> strs(r@) == ascii_normalized_set_spec(v@, aliases@),
        strs(r@).no_duplicates(),
{
    let toks = tokenize_chars(v);
    let ghost ts = tokenize_spec(v@);
    let ghost al = aliases@;
    let mut out: Vec<String> = Vec::new();
    let mut i: usize = 0;
    assert(ts.take(0) =~= Seq::<Seq<char>>::empty());
    assert(strs(out@) =~= Seq::<Seq<char>>::empty());
    while i < toks.len()
        invariant
            i <= toks.len(),
            strs(toks@) == ts,
            al == aliases@,
            strs(out@) == dedup_into(Seq::empty(), expand_all(ts.take(i as int), al)),
        decreases toks.len() - i,
    {
        let ex = expand(toks[i].as_str(), aliases);
        let ghost es = expand_spec(ts[i as int], al);
        let ghost base = strs(out@);
        let mut j: usize = 0;
        assert(es.take(0) =~= Seq::<Seq<char>>::empty());
        while j < ex.len()
            invariant
                j <= ex.len(),
                strs(ex@) == es,
                strs(out@) == dedup_into(base, es.take(j as int)),
            decreases ex.len() - j,
        {
            proof {
                assert(es.take(j + 1).drop_last() == es.take(j as int));
                assert(es.take(j + 1).last() == ex@[j as int]@);
            }
            push_unique_string(&mut out, ex[j].clone());
            j += 1;
        }
        proof {
            assert(es.take(es.len() as int) == es);
            assert(ts.take(i + 1).drop_last() == ts.take(i as int));
            assert(ts.take(i + 1).last() == ts[i as int]);
            lemma_dedup_append(Seq::empty(), expand_all(ts.take(i as int), al), es);
        }
        i += 1;
    }
    proof {
        assert(ts.take(ts.len() as int) == ts);
        lemma_dedup_props(Seq::empty(), expand_all(ts, al));
    }
    out
}

/// The full normalised-token set for a phrase, alias-expanded and deduplicated — the
/// comparable form used by the matching primitive.
pub fn normalized_set(phrase: &str, aliases: &AliasMap) -> (r: Vec<String>)
    ensures
        strs(r@) == normalized_set_spec(phrase@, aliases@),
        all_ascii(phrase@) ==> strs(r@) == ascii_normalized_set_spec(phrase@, aliases@),
        strs(r@).no_duplicates(),
{
    let v = chars_of(phrase);
    normalized_set_chars(&v, aliases)
}

/// Whitespace and each of `, ; . ( ) :` separate tokens: putting a space in place of
/// one of them leaves a phrase's tokens unchanged, so `(aws)` yields the token `aws`.
pub proof fn law_token_separators(a: Seq<char>, b: Seq<char>, c: char)
    requires
        is_ws(c) || c == ',' || c == ';' || c == '.' || c == '(' || c == ')' || c == ':',
    ensures
        tokenize_spec(a + seq![c] + b) == tokenize_spec(a + seq![' '] + b),
{
    let s1 = a + seq![c] + b;
    let s2 = a + seq![' '] + b;
    assert forall|i: int| 0 <= i < s1.len() implies Sep::Token.spec_is_sep(#[trigger] s1[i]) == Sep::Token.spec_is_sep(
        s2[i],
    ) && (!Sep::Token.spec_is_sep(s1[i]) ==> s1[i] == s2[i]) by {
        if i < a.len() {
            assert(s1[i] == a[i] && s2[i] == a[i]);
        } else if i == a.len() {
            assert(s1[i] == c && s2[i] == ' ');
        } else {
            assert(s1[i] == b[i - a.len() - 1] && s2[i] == b[i - a.len() - 1]);
        }
    }
    lemma_split_same_pattern(s1, s2, Sep::Token);
}

} // verus!
