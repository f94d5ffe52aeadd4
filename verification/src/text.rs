//! Character-level text primitives shared by every module: conversion between
//! `&str`/`String` and `Vec<char>`, Unicode whitespace/control classes, trimming,
//! separator-driven splitting, ASCII case folding and decimal rendering.

use vstd::prelude::*;

verus! {

// ── conversion ──────────────────────────────────────────────────────────────────

/// The chars of `s`, in order.
pub fn chars_of(s: &str) -> (r: Vec<char>)
    ensures
        r@ == s@,
{
    let mut out: Vec<char> = Vec::new();
    for c in it: s.chars()
        invariant
            out@ == it.seq().take(it.index() as int),
            it.seq() == s@,
    {
        out.push(c);
    }
    out
}

/// `String::push`: appends one char.
#[verifier::external_body]
fn string_push(s: &mut String, c: char)
    ensures
        final(s)@ == old(s)@.push(c),
{
    s.push(c)
}

/// A `String` holding exactly the chars of `v[from..to]`.
pub fn string_of_range(v: &Vec<char>, from: usize, to: usize) -> (r: String)
    requires
        from <= to <= v.len(),
    ensures
        r@ == v@.subrange(from as int, to as int),
{
    let mut s = String::new();
    let mut i = from;
    while i < to
        invariant
            from <= i <= to <= v.len(),
            s@ == v@.subrange(from as int, i as int),
        decreases to - i,
    {
        string_push(&mut s, v[i]);
        assert(v@.subrange(from as int, i + 1) == v@.subrange(from as int, i as int).push(v@[i as int]));
        i += 1;
    }
    s
}

/// A `String` holding exactly the chars of `v`.
pub fn string_of(v: &Vec<char>) -> (r: String)
    ensures
        r@ == v@,
{
    let r = string_of_range(v, 0, v.len());
    assert(v@.subrange(0, v@.len() as int) == v@);
    r
}

/// Appends the chars of `v` to `s`.
pub fn push_all(s: &mut String, v: &Vec<char>)
    ensures
        final(s)@ == old(s)@ + v@,
{
    let mut i: usize = 0;
    while i < v.len()
        invariant
            i <= v.len(),
            s@ == old(s)@ + v@.take(i as int),
        decreases v.len() - i,
    {
        string_push(s, v[i]);
        assert(v@.take(i + 1) == v@.take(i as int).push(v@[i as int]));
        i += 1;
    }
    assert(v@.take(v@.len() as int) == v@);
}

/// Appends one char to `s`.
pub fn push_char(s: &mut String, c: char)
    ensures
        final(s)@ == old(s)@.push(c),
{
    string_push(s, c)
}

/// Spec-level string equality decided at run time.
pub fn chars_eq(a: &Vec<char>, b: &Vec<char>) -> (r: bool)
    ensures
        r == (a@ == b@),
{
    if a.len() != b.len() {
        return false;
    }
    let mut i: usize = 0;
    while i < a.len()
        invariant
            a.len() == b.len(),
            i <= a.len(),
            forall|k: int| 0 <= k < i ==> a@[k] == b@[k],
        decreases a.len() - i,
    {
        if a[i] != b[i] {
            return false;
        }
        i += 1;
    }
    assert(a@ =~= b@);
    true
}

/// Equality of two `str`s by their chars.
pub fn str_eq(a: &str, b: &str) -> (r: bool)
    ensures
        r == (a@ == b@),
{
    let va = chars_of(a);
    let vb = chars_of(b);
    chars_eq(&va, &vb)
}

// ── Unicode lowercase (std) ──────────────────────────────────────────────────────

/// What `str::to_lowercase` returns for a string (full Unicode case mapping,
/// including the context-dependent final-sigma rule).
pub uninterp spec fn lowercase_of(s: Seq<char>) -> Seq<char>;

/// Every character is ASCII.
pub open spec fn all_ascii(s: Seq<char>) -> bool {
    forall|i: int| 0 <= i < s.len() ==> (#[trigger] s[i] as u32) < 128
}

/// `s` with `A`–`Z` lowered and every other character kept.
pub open spec fn ascii_lowered(s: Seq<char>) -> Seq<char> {
    s.map_values(|c: char| ascii_lower(c))
}

/// `str::to_lowercase`: the Unicode lowercase of `s`. The contract names the result;
/// the Unicode case tables it follows are not restated here, except that an ASCII
/// character lowercases to its ASCII lowercase, one for one, so an ASCII string's
/// lowercase is its ASCII lowercase.
#[verifier::external_body]
pub fn to_lowercase(s: &str) -> (r: String)
    ensures
        r@ == lowercase_of(s@),
        all_ascii(s@) ==> r@ == ascii_lowered(s@),
{
    s.to_lowercase()
}

// ── character classes ────────────────────────────────────────────────────────────

/// Unicode `White_Space` (what `char::is_whitespace` tests).
pub open spec fn is_ws(c: char) -> bool {
    let u = c as u32;
    (0x09 <= u && u <= 0x0D) || u == 0x20 || u == 0x85 || u == 0xA0 || u == 0x1680
        || (0x2000 <= u && u <= 0x200A) || u == 0x2028 || u == 0x2029 || u == 0x202F
        || u == 0x205F || u == 0x3000
}

/// Unicode general category `Cc` (what `char::is_control` tests).
pub open spec fn is_ctrl(c: char) -> bool {
    let u = c as u32;
    u <= 0x1F || (0x7F <= u && u <= 0x9F)
}

pub fn is_whitespace(c: char) -> (r: bool)
    ensures
        r == is_ws(c),
{
    let u = c as u32;
    (0x09 <= u && u <= 0x0D) || u == 0x20 || u == 0x85 || u == 0xA0 || u == 0x1680
        || (0x2000 <= u && u <= 0x200A) || u == 0x2028 || u == 0x2029 || u == 0x202F
        || u == 0x205F || u == 0x3000
}

pub fn is_control(c: char) -> (r: bool)
    ensures
        r == is_ctrl(c),
{
    let u = c as u32;
    u <= 0x1F || (0x7F <= u && u <= 0x9F)
}

pub open spec fn is_ascii_digit_spec(c: char) -> bool {
    '0' <= c && c <= '9'
}

/// ASCII-only lowercase of one char (what `char::to_ascii_lowercase` returns).
pub open spec fn ascii_lower(c: char) -> char {
    if 'A' <= c && c <= 'Z' {
        (((c as u32) + 32) as u8) as char
    } else {
        c
    }
}

/// What lowering a char keeps: its class as whitespace or control, ASCII-ness, and a
/// second lowering changes nothing.
pub proof fn lemma_ascii_lower_char(c: char)
    ensures
        ascii_lower(c) as u32 == if 'A' <= c && c <= 'Z' {
            (c as u32) + 32
        } else {
            c as int
        },
        is_ws(ascii_lower(c)) == is_ws(c),
        is_ctrl(ascii_lower(c)) == is_ctrl(c),
        ascii_lower(ascii_lower(c)) == ascii_lower(c),
        (c as u32) < 128 ==> (ascii_lower(c) as u32) < 128,
{
    if 'A' <= c && c <= 'Z' {
        let u = ((c as u32) + 32) as u8;
        assert(97 <= u <= 122);
        assert((u as char) as u32 == u as u32);
    }
}

pub fn to_ascii_lower(c: char) -> (r: char)
    ensures
        r == ascii_lower(c),
{
    if 'A' <= c && c <= 'Z' {
        ((c as u8) + 32) as char
    } else {
        c
    }
}

/// `a` and `b` are equal ignoring ASCII case (what `eq_ignore_ascii_case` tests).
pub open spec fn eq_ignore_ascii_case_spec(a: Seq<char>, b: Seq<char>) -> bool {
    a.len() == b.len() && forall|i: int| 0 <= i < a.len() ==> ascii_lower(a[i]) == ascii_lower(b[i])
}

pub fn eq_ignore_ascii_case(a: &Vec<char>, b: &Vec<char>) -> (r: bool)
    ensures
        r == eq_ignore_ascii_case_spec(a@, b@),
{
    if a.len() != b.len() {
        return false;
    }
    let mut i: usize = 0;
    while i < a.len()
        invariant
            a.len() == b.len(),
            i <= a.len(),
            forall|k: int| 0 <= k < i ==> ascii_lower(a@[k]) == ascii_lower(b@[k]),
        decreases a.len() - i,
    {
        if to_ascii_lower(a[i]) != to_ascii_lower(b[i]) {
            return false;
        }
        i += 1;
    }
    true
}

// ── trimming ─────────────────────────────────────────────────────────────────────

/// `s` without its leading whitespace.
pub open spec fn trim_start(s: Seq<char>) -> Seq<char>
    decreases s.len(),
{
    if s.len() > 0 && is_ws(s[0]) {
        trim_start(s.drop_first())
    } else {
        s
    }
}

/// `s` without its trailing whitespace.
pub open spec fn trim_end(s: Seq<char>) -> Seq<char>
    decreases s.len(),
{
    if s.len() > 0 && is_ws(s.last()) {
        trim_end(s.drop_last())
    } else {
        s
    }
}

/// `s` without leading and trailing whitespace (what `str::trim` returns).
pub open spec fn trim(s: Seq<char>) -> Seq<char> {
    trim_end(trim_start(s))
}

proof fn lemma_trim_start_at(s: Seq<char>, i: int)
    requires
        0 <= i <= s.len(),
        forall|k: int| 0 <= k < i ==> is_ws(s[k]),
        i == s.len() || !is_ws(s[i]),
    ensures
        trim_start(s) == s.subrange(i, s.len() as int),
    decreases i,
{
    if i == 0 {
        assert(s.subrange(0, s.len() as int) == s);
    } else {
        lemma_trim_start_at(s.drop_first(), i - 1);
        assert(s.drop_first().subrange(i - 1, s.drop_first().len() as int) == s.subrange(i, s.len() as int));
    }
}

proof fn lemma_trim_end_at(s: Seq<char>, j: int)
    requires
        0 <= j <= s.len(),
        forall|k: int| j <= k < s.len() ==> is_ws(s[k]),
        j == 0 || !is_ws(s[j - 1]),
    ensures
        trim_end(s) == s.subrange(0, j),
    decreases s.len() - j,
{
    if j == s.len() {
        assert(s.subrange(0, j) == s);
    } else {
        lemma_trim_end_at(s.drop_last(), j);
        assert(s.drop_last().subrange(0, j) == s.subrange(0, j));
    }
}

/// Bounds `(i, j)` with `v[i..j] == trim(v)`.
pub fn trim_bounds(v: &Vec<char>) -> (r: (usize, usize))
    ensures
        r.0 <= r.1 <= v.len(),
        v@.subrange(r.0 as int, r.1 as int) == trim(v@),
{
    let mut i: usize = 0;
    while i < v.len() && is_whitespace(v[i])
        invariant
            i <= v.len(),
            forall|k: int| 0 <= k < i ==> is_ws(v@[k]),
        decreases v.len() - i,
    {
        i += 1;
    }
    proof {
        lemma_trim_start_at(v@, i as int);
    }
    let ghost t = v@.subrange(i as int, v@.len() as int);
    let mut j: usize = v.len();
    while j > i && is_whitespace(v[j - 1])
        invariant
            i <= j <= v.len(),
            t == v@.subrange(i as int, v@.len() as int),
            forall|k: int| j <= k < v.len() ==> is_ws(v@[k]),
        decreases j,
    {
        j -= 1;
    }
    proof {
        assert forall|k: int| j - i <= k < t.len() implies is_ws(t[k]) by {
            assert(t[k] == v@[k + i]);
        }
        if j > i {
            assert(t[j - i - 1] == v@[j - 1]);
        }
        lemma_trim_end_at(t, j - i);
        assert(t.subrange(0, j - i) == v@.subrange(i as int, j as int));
    }
    (i, j)
}

/// The length of `trim_end(v)`: `v[..r] == trim_end(v)`.
pub fn trim_end_len(v: &Vec<char>) -> (r: usize)
    ensures
        r <= v.len(),
        v@.subrange(0, r as int) == trim_end(v@),
{
    let mut j: usize = v.len();
    while j > 0 && is_whitespace(v[j - 1])
        invariant
            j <= v.len(),
            forall|k: int| j <= k < v.len() ==> is_ws(v@[k]),
        decreases j,
    {
        j -= 1;
    }
    proof {
        lemma_trim_end_at(v@, j as int);
    }
    j
}

/// The chars of `trim(v)`.
pub fn trimmed(v: &Vec<char>) -> (r: Vec<char>)
    ensures
        r@ == trim(v@),
{
    let (i, j) = trim_bounds(v);
    slice_vec(v, i, j)
}

/// The chars of `trim(s)`.
pub fn trim_str(s: &str) -> (r: Vec<char>)
    ensures
        r@ == trim(s@),
{
    let v = chars_of(s);
    trimmed(&v)
}

/// `v[from..to]` as a new vector.
pub fn slice_vec(v: &Vec<char>, from: usize, to: usize) -> (r: Vec<char>)
    requires
        from <= to <= v.len(),
    ensures
        r@ == v@.subrange(from as int, to as int),
{
    let mut out: Vec<char> = Vec::new();
    let mut i = from;
    while i < to
        invariant
            from <= i <= to <= v.len(),
            out@ == v@.subrange(from as int, i as int),
        decreases to - i,
    {
        out.push(v[i]);
        assert(v@.subrange(from as int, i + 1) == v@.subrange(from as int, i as int).push(v@[i as int]));
        i += 1;
    }
    out
}

/// Copy of a char vector.
pub fn copy_chars(v: &Vec<char>) -> (r: Vec<char>)
    ensures
        r@ == v@,
{
    let r = slice_vec(v, 0, v.len());
    assert(v@.subrange(0, v@.len() as int) == v@);
    r
}

// ── splitting ────────────────────────────────────────────────────────────────────

/// A separator class for [`split_chars`].
#[derive(Clone, Copy, Debug, PartialEq, Eq)]
pub enum Sep {
    /// Whitespace and `, ; . ( ) :` — the phrase tokenizer's separators.
    Token,
    /// `;` — requirement-list items.
    Semicolon,
    /// `, · • |` — a skills list line.
    SkillList,
    /// `▹` — glued PDF bullets.
    Triangle,
    /// Unicode whitespace alone.
    Space,
    /// `\n` — lines.
    Newline,
}

impl Sep {
    pub open spec fn spec_is_sep(self, c: char) -> bool {
        match self {
            Sep::Token => is_ws(c) || c == ',' || c == ';' || c == '.' || c == '(' || c == ')' || c == ':',
            Sep::Semicolon => c == ';',
            Sep::SkillList => c == ',' || c == '\u{B7}' || c == '\u{2022}' || c == '|',
            Sep::Triangle => c == '\u{25B9}',
            Sep::Space => is_ws(c),
            Sep::Newline => c == '\n',
        }
    }

    pub fn is_sep(&self, c: char) -> (r: bool)
        ensures
            r == self.spec_is_sep(c),
    {
        match self {
            Sep::Token => is_whitespace(c) || c == ',' || c == ';' || c == '.' || c == '(' || c == ')' || c == ':',
            Sep::Semicolon => c == ';',
            Sep::SkillList => c == ',' || c == '\u{B7}' || c == '\u{2022}' || c == '|',
            Sep::Triangle => c == '\u{25B9}',
            Sep::Space => is_whitespace(c),
            Sep::Newline => c == '\n',
        }
    }
}

/// The pieces of `s` between separators of class `k`, empty pieces included (what
/// `str::split` yields): one piece more than there are separators.
pub open spec fn split_spec(s: Seq<char>, k: Sep) -> Seq<Seq<char>>
    decreases s.len(),
{
    if s.len() == 0 {
        seq![Seq::<char>::empty()]
    } else {
        let p = split_spec(s.drop_last(), k);
        if k.spec_is_sep(s.last()) {
            p.push(Seq::<char>::empty())
        } else {
            p.update(p.len() - 1, p.last().push(s.last()))
        }
    }
}

/// The pieces of an ASCII text are ASCII.
pub proof fn lemma_split_ascii(s: Seq<char>, k: Sep)
    requires
        all_ascii(s),
    ensures
        forall|j: int| 0 <= j < split_spec(s, k).len() ==> all_ascii(#[trigger] split_spec(s, k)[j]),
    decreases s.len(),
{
    if s.len() > 0 {
        assert(all_ascii(s.drop_last()));
        lemma_split_ascii(s.drop_last(), k);
        lemma_split_nonempty(s.drop_last(), k);
        let p = split_spec(s.drop_last(), k);
        assert((s.last() as u32) < 128) by {
            assert(s.last() == s[s.len() - 1]);
        }
        if !k.spec_is_sep(s.last()) {
            assert(all_ascii(p.last()) ==> all_ascii(p.last().push(s.last()))) by {
                assert forall|i: int| 0 <= i < p.last().push(s.last()).len() && all_ascii(p.last()) implies (
                #[trigger] p.last().push(s.last())[i] as u32) < 128 by {
                    if i < p.last().len() {
                        assert(p.last().push(s.last())[i] == p.last()[i]);
                    }
                }
            }
            assert(p.last() == p[p.len() - 1]);
        }
    }
}

/// Splitting depends only on where the separators are and on the other characters:
/// two texts alike in both split alike.
pub proof fn lemma_split_same_pattern(s1: Seq<char>, s2: Seq<char>, k: Sep)
    requires
        s1.len() == s2.len(),
        forall|i: int| 0 <= i < s1.len() ==> k.spec_is_sep(#[trigger] s1[i]) == k.spec_is_sep(s2[i]),
        forall|i: int| 0 <= i < s1.len() && !k.spec_is_sep(#[trigger] s1[i]) ==> s1[i] == s2[i],
    ensures
        split_spec(s1, k) == split_spec(s2, k),
    decreases s1.len(),
{
    if s1.len() > 0 {
        assert(s1.last() == s1[s1.len() - 1] && s2.last() == s2[s2.len() - 1]);
        lemma_split_same_pattern(s1.drop_last(), s2.drop_last(), k);
    }
}

/// Splitting at the phrase tokenizer's separators commutes with ASCII lowering.
pub proof fn lemma_split_lowered(s: Seq<char>)
    ensures
        split_spec(ascii_lowered(s), Sep::Token) == split_spec(s, Sep::Token).map_values(|p: Seq<char>| ascii_lowered(p)),
    decreases s.len(),
{
    let l = ascii_lowered(s);
    assert(ascii_lowered(Seq::<char>::empty()) =~= Seq::<char>::empty());
    if s.len() == 0 {
        assert(split_spec(s, Sep::Token).map_values(|p: Seq<char>| ascii_lowered(p)) =~= seq![Seq::<char>::empty()]);
    } else {
        assert(l.drop_last() =~= ascii_lowered(s.drop_last()));
        lemma_split_lowered(s.drop_last());
        lemma_split_nonempty(s.drop_last(), Sep::Token);
        lemma_ascii_lower_char(s.last());
        assert(l.last() == ascii_lower(s.last()));
        let c = s.last();
        assert(Sep::Token.spec_is_sep(ascii_lower(c)) == Sep::Token.spec_is_sep(c)) by {
            vstd::utf8::char_u32_cast(ascii_lower(c), ascii_lower(c) as u32);
            vstd::utf8::char_u32_cast(c, c as u32);
        }
        let p = split_spec(s.drop_last(), Sep::Token);
        let pm = p.map_values(|q: Seq<char>| ascii_lowered(q));
        if Sep::Token.spec_is_sep(c) {
            assert(pm.push(Seq::<char>::empty()) =~= p.push(Seq::<char>::empty()).map_values(|q: Seq<char>| ascii_lowered(q)));
        } else {
            assert(ascii_lowered(p.last().push(c)) =~= pm.last().push(ascii_lower(c)));
            assert(pm.update(pm.len() - 1, pm.last().push(ascii_lower(c))) =~= p.update(p.len() - 1, p.last().push(c)).map_values(
                |q: Seq<char>| ascii_lowered(q),
            ));
        }
    }
}

pub proof fn lemma_split_nonempty(s: Seq<char>, k: Sep)
    ensures
        split_spec(s, k).len() >= 1,
    decreases s.len(),
{
    if s.len() > 0 {
        lemma_split_nonempty(s.drop_last(), k);
    }
}

/// The char sequences held by a sequence of char vectors.
pub open spec fn char_vecs(v: Seq<Vec<char>>) -> Seq<Seq<char>> {
    v.map_values(|x: Vec<char>| x@)
}

/// The char sequences held by a sequence of strings.
pub open spec fn strs(v: Seq<String>) -> Seq<Seq<char>> {
    v.map_values(|x: String| x@)
}

/// Splits `v` at every separator of class `k`.
pub fn split_chars(v: &Vec<char>, k: Sep) -> (r: Vec<Vec<char>>)
    ensures
        char_vecs(r@) == split_spec(v@, k),
{
    let mut pieces: Vec<Vec<char>> = Vec::new();
    let mut cur: Vec<char> = Vec::new();
    let mut i: usize = 0;
    assert(v@.take(0) == Seq::<char>::empty());
    while i < v.len()
        invariant
            i <= v.len(),
            char_vecs(pieces@).push(cur@) == split_spec(v@.take(i as int), k),
        decreases v.len() - i,
    {
        let c = v[i];
        proof {
            assert(v@.take(i + 1).drop_last() == v@.take(i as int));
            assert(v@.take(i + 1).last() == c);
            lemma_split_nonempty(v@.take(i as int), k);
        }
        let ghost before = char_vecs(pieces@);
        if k.is_sep(c) {
            let done = cur;
            pieces.push(done);
            cur = Vec::new();
            assert(char_vecs(pieces@) =~= before.push(done@));
        } else {
            let ghost old_cur = cur@;
            cur.push(c);
            assert(char_vecs(pieces@).push(cur@) =~= before.push(old_cur).update(before.len() as int, cur@));
        }
        i += 1;
    }
    assert(v@.take(v@.len() as int) == v@);
    let ghost before = char_vecs(pieces@);
    pieces.push(cur);
    assert(char_vecs(pieces@) =~= before.push(cur@));
    pieces
}



/// `s` trimmed, as a `String`.
pub fn trim_string(s: &str) -> (r: String)
    ensures
        r@ == trim(s@),
{
    let t = trim_str(s);
    string_of(&t)
}

/// The Unicode lowercase of `s` trimmed (what `s.trim().to_lowercase()` returns).
pub fn lower_trimmed(s: &str) -> (r: String)
    ensures
        r@ == lowercase_of(trim(s@)),
        all_ascii(trim(s@)) ==> r@ == ascii_lowered(trim(s@)),
{
    let t = trim_string(s);
    to_lowercase(t.as_str())
}

// ── prefixes, words and integers ─────────────────────────────────────────────────

/// `p` is a prefix of `a`.
pub open spec fn starts_with(a: Seq<char>, p: Seq<char>) -> bool {
    p.len() <= a.len() && a.take(p.len() as int) == p
}

pub fn starts_with_chars(a: &Vec<char>, p: &Vec<char>) -> (r: bool)
    ensures
        r == starts_with(a@, p@),
{
    if p.len() > a.len() {
        return false;
    }
    let mut i: usize = 0;
    while i < p.len()
        invariant
            p@.len() <= a@.len(),
            i <= p@.len(),
            forall|k: int| 0 <= k < i ==> a@[k] == p@[k],
        decreases p@.len() - i,
    {
        if a[i] != p[i] {
            assert(a@.take(p@.len() as int)[i as int] != p@[i as int]);
            return false;
        }
        i += 1;
    }
    assert(a@.take(p@.len() as int) =~= p@);
    true
}

/// The non-empty members of `s`, in order.
pub open spec fn nonempty_pieces(s: Seq<Seq<char>>) -> Seq<Seq<char>>
    decreases s.len(),
{
    if s.len() == 0 {
        s
    } else {
        let r = nonempty_pieces(s.drop_last());
        if s.last().len() > 0 {
            r.push(s.last())
        } else {
            r
        }
    }
}

/// The whitespace-separated words of `s` (what `str::split_whitespace` yields).
pub open spec fn words(s: Seq<char>) -> Seq<Seq<char>> {
    nonempty_pieces(split_spec(s, Sep::Space))
}

/// The non-empty pieces of `v` split at separators of class `k`.
pub fn split_nonempty(v: &Vec<char>, k: Sep) -> (r: Vec<Vec<char>>)
    ensures
        char_vecs(r@) == nonempty_pieces(split_spec(v@, k)),
{
    let pieces = split_chars(v, k);
    let ghost ps = split_spec(v@, k);
    let mut out: Vec<Vec<char>> = Vec::new();
    let mut i: usize = 0;
    assert(ps.take(0) =~= Seq::<Seq<char>>::empty());
    while i < pieces.len()
        invariant
            i <= pieces@.len(),
            char_vecs(pieces@) == ps,
            char_vecs(out@) == nonempty_pieces(ps.take(i as int)),
        decreases pieces@.len() - i,
    {
        assert(ps.take(i + 1).drop_last() =~= ps.take(i as int));
        assert(ps.take(i + 1).last() == pieces@[i as int]@);
        if pieces[i].len() > 0 {
            let ghost pre = char_vecs(out@);
            out.push(copy_chars(&pieces[i]));
            assert(char_vecs(out@) =~= pre.push(pieces@[i as int]@));
        }
        i += 1;
    }
    assert(ps.take(ps.len() as int) =~= ps);
    out
}

/// The value of a run of ASCII digits.
pub open spec fn digits_value(s: Seq<char>) -> int
    decreases s.len(),
{
    if s.len() == 0 {
        0
    } else {
        digits_value(s.drop_last()) * 10 + ((s.last() as u32) - 48)
    }
}

/// All members are ASCII digits.
pub open spec fn all_digits(s: Seq<char>) -> bool {
    forall|i: int| 0 <= i < s.len() ==> is_ascii_digit_spec(#[trigger] s[i])
}

/// What `str::parse::<i32>` accepts: an optional `+` or `-`, then one or more ASCII
/// digits, the value within `i32`.
pub open spec fn parse_i32_spec(s: Seq<char>) -> Option<i32> {
    let neg = s.len() > 0 && s[0] == '-';
    let body = if s.len() > 0 && (s[0] == '-' || s[0] == '+') {
        s.drop_first()
    } else {
        s
    };
    let v = if neg {
        -digits_value(body)
    } else {
        digits_value(body)
    };
    if body.len() > 0 && all_digits(body) && i32::MIN <= v <= i32::MAX {
        Some(v as i32)
    } else {
        None
    }
}

proof fn lemma_digits_value_nonneg(s: Seq<char>)
    requires
        all_digits(s),
    ensures
        digits_value(s) >= 0,
    decreases s.len(),
{
    if s.len() > 0 {
        assert(all_digits(s.drop_last())) by {
            assert forall|i: int| 0 <= i < s.drop_last().len() implies is_ascii_digit_spec(#[trigger] s.drop_last()[i]) by {
                assert(s.drop_last()[i] == s[i]);
            }
        }
        lemma_digits_value_nonneg(s.drop_last());
        assert(is_ascii_digit_spec(s[s.len() - 1]));
    }
}

proof fn lemma_digits_value_grows(s: Seq<char>, i: int)
    requires
        all_digits(s),
        0 <= i <= s.len(),
    ensures
        digits_value(s.take(i)) <= digits_value(s),
    decreases s.len() - i,
{
    if i == s.len() {
        assert(s.take(i) =~= s);
    } else {
        lemma_digits_value_grows(s, i + 1);
        assert(s.take(i + 1).drop_last() =~= s.take(i));
        assert(all_digits(s.take(i))) by {
            assert forall|k: int| 0 <= k < s.take(i).len() implies is_ascii_digit_spec(#[trigger] s.take(i)[k]) by {
                assert(s.take(i)[k] == s[k]);
            }
        }
        lemma_digits_value_nonneg(s.take(i));
        assert(is_ascii_digit_spec(s[i]));
        assert(s.take(i + 1).last() == s[i]);
    }
}

/// `str::parse::<i32>` on the chars of `v`.
pub fn parse_i32(v: &Vec<char>) -> (r: Option<i32>)
    ensures
        r == parse_i32_spec(v@),
{
    let n = v.len();
    let neg = n > 0 && v[0] == '-';
    let start: usize = if n > 0 && (v[0] == '-' || v[0] == '+') { 1 } else { 0 };
    let ghost body = if v@.len() > 0 && (v@[0] == '-' || v@[0] == '+') {
        v@.drop_first()
    } else {
        v@
    };
    assert(body =~= v@.skip(start as int));
    if start == n {
        return None;
    }
    let mut acc: i64 = 0;
    let mut i: usize = start;
    assert(body.take(0) =~= Seq::<char>::empty());
    while i < n
        invariant
            start <= i <= n == v@.len(),
            body == v@.skip(start as int),
            body == (if v@.len() > 0 && (v@[0] == '-' || v@[0] == '+') { v@.drop_first() } else { v@ }),
            neg == (v@.len() > 0 && v@[0] == '-'),
            all_digits(body.take(i - start)),
            acc == digits_value(body.take(i - start)),
            0 <= acc <= 2147483648,
        decreases n - i,
    {
        let c = v[i];
        if !('0' <= c && c <= '9') {
            proof {
                assert(body[i - start] == c);
                assert(!is_ascii_digit_spec(body[i - start]));
            }
            return None;
        }
        let d = (c as u32 - 48) as i64;
        let next = acc * 10 + d;
        proof {
            assert(body.take(i - start + 1).drop_last() =~= body.take(i - start));
            assert(body.take(i - start + 1).last() == c);
            assert(all_digits(body.take(i - start + 1))) by {
                assert forall|k: int| 0 <= k < body.take(i - start + 1).len() implies is_ascii_digit_spec(
                    #[trigger] body.take(i - start + 1)[k],
                ) by {
                    if k < i - start {
                        assert(body.take(i - start + 1)[k] == body.take(i - start)[k]);
                    }
                }
            }
        }
        if next > 2147483648 {
            proof {
                if all_digits(body) {
                    lemma_digits_value_grows(body, i - start + 1);
                }
            }
            return None;
        }
        acc = next;
        i += 1;
    }
    assert(body.take(n - start) =~= body);
    if neg {
        Some((-acc) as i32)
    } else if acc <= 2147483647 {
        Some(acc as i32)
    } else {
        None
    }
}

// ── decimal rendering ────────────────────────────────────────────────────────────

pub open spec fn digit_char(d: nat) -> char {
    ((d % 10) + 48) as char
}

/// The decimal digits of `n` (what `n.to_string()` returns for an unsigned integer).
pub open spec fn decimal(n: nat) -> Seq<char>
    decreases n,
{
    if n < 10 {
        seq![digit_char(n)]
    } else {
        decimal(n / 10).push(digit_char(n % 10))
    }
}

pub fn decimal_chars(n: u64) -> (r: Vec<char>)
    ensures
        r@ == decimal(n as nat),
    decreases n,
{
    if n < 10 {
        let c = ((n as u32) + 48) as u8 as char;
        let mut v = Vec::new();
        v.push(c);
        assert(v@ == seq![digit_char(n as nat)]);
        v
    } else {
        let mut v = decimal_chars(n / 10);
        let d = n % 10;
        let c = ((d as u32) + 48) as u8 as char;
        v.push(c);
        v
    }
}

pub fn decimal_chars_u128(n: u128) -> (r: Vec<char>)
    ensures
        r@ == decimal(n as nat),
    decreases n,
{
    if n < 10 {
        let c = ((n as u32) + 48) as u8 as char;
        let mut v = Vec::new();
        v.push(c);
        assert(v@ == seq![digit_char(n as nat)]);
        v
    } else {
        let mut v = decimal_chars_u128(n / 10);
        let d = n % 10;
        let c = ((d as u32) + 48) as u8 as char;
        v.push(c);
        v
    }
}

/// The decimal rendering of a signed integer (what `i64::to_string` returns).
pub open spec fn signed_decimal(i: int) -> Seq<char> {
    if i < 0 {
        seq!['-'] + decimal((-i) as nat)
    } else {
        decimal(i as nat)
    }
}

pub fn signed_decimal_chars(i: i64) -> (r: Vec<char>)
    ensures
        r@ == signed_decimal(i as int),
{
    if i < 0 {
        let mag: u64 = if i == i64::MIN { 9223372036854775808u64 } else { (-i) as u64 };
        let d = decimal_chars(mag);
        let mut out: Vec<char> = Vec::new();
        out.push('-');
        let mut k: usize = 0;
        while k < d.len()
            invariant
                k <= d@.len(),
                out@ == seq!['-'] + d@.take(k as int),
            decreases d@.len() - k,
        {
            out.push(d[k]);
            assert(d@.take(k + 1) =~= d@.take(k as int).push(d@[k as int]));
            assert(seq!['-'] + d@.take(k + 1) =~= (seq!['-'] + d@.take(k as int)).push(d@[k as int]));
            k += 1;
        }
        assert(d@.take(d@.len() as int) =~= d@);
        out
    } else {
        decimal_chars(i as u64)
    }
}

} // verus!
