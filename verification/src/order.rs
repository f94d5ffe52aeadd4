//! Sort keys and the one stable sort the engine uses.
//!
//! A key is a vector of integer ranks compared component by component, higher first,
//! then an identifier compared character by character (by code point), lower first —
//! the order of `str::cmp` on UTF-8. Sorting is a stable insertion sort: an item goes
//! after every earlier item it does not strictly precede.

use vstd::prelude::*;

verus! {

/// A sort key: descending integer ranks, then an ascending identifier.
pub struct SortKey {
    pub rank: Vec<i64>,
    pub id: Vec<char>,
}

impl View for SortKey {
    type V = (Seq<i64>, Seq<char>);

    open spec fn view(&self) -> (Seq<i64>, Seq<char>) {
        (self.rank@, self.id@)
    }
}

/// Three-way comparison of rank vectors, higher first: -1 when `a` comes first, 1
/// when `b` does, 0 when they agree on every shared component.
pub open spec fn rank_order(a: Seq<i64>, b: Seq<i64>) -> int
    decreases a.len(),
{
    if a.len() == 0 || b.len() == 0 {
        0
    } else if a[0] > b[0] {
        -1
    } else if a[0] < b[0] {
        1
    } else {
        rank_order(a.drop_first(), b.drop_first())
    }
}

/// Three-way lexicographic comparison of identifiers by code point (a proper prefix
/// comes first).
pub open spec fn id_order(a: Seq<char>, b: Seq<char>) -> int
    decreases a.len(),
{
    if a.len() == 0 {
        if b.len() == 0 {
            0
        } else {
            -1
        }
    } else if b.len() == 0 {
        1
    } else if (a[0] as u32) < (b[0] as u32) {
        -1
    } else if (a[0] as u32) > (b[0] as u32) {
        1
    } else {
        id_order(a.drop_first(), b.drop_first())
    }
}

/// `a` strictly precedes `b`.
pub open spec fn key_before(a: (Seq<i64>, Seq<char>), b: (Seq<i64>, Seq<char>)) -> bool {
    let r = rank_order(a.0, b.0);
    r < 0 || (r == 0 && id_order(a.1, b.1) < 0)
}

/// `sorted` with index `x` inserted after every member it does not strictly precede.
pub open spec fn insert_by_key(sorted: Seq<nat>, keys: Seq<(Seq<i64>, Seq<char>)>, x: nat) -> Seq<nat>
    decreases sorted.len(),
{
    if sorted.len() == 0 {
        seq![x]
    } else if key_before(keys[x as int], keys[sorted.last() as int]) {
        insert_by_key(sorted.drop_last(), keys, x).push(sorted.last())
    } else {
        sorted.push(x)
    }
}

/// The indices `0..n` stably sorted by `keys`.
pub open spec fn sorted_indices(keys: Seq<(Seq<i64>, Seq<char>)>, n: nat) -> Seq<nat>
    decreases n,
{
    if n == 0 {
        Seq::empty()
    } else {
        insert_by_key(sorted_indices(keys, (n - 1) as nat), keys, (n - 1) as nat)
    }
}

/// The views of a vector of keys.
pub open spec fn key_views(v: Seq<SortKey>) -> Seq<(Seq<i64>, Seq<char>)> {
    v.map_values(|k: SortKey| k@)
}

// ── lemmas ───────────────────────────────────────────────────────────────────────

proof fn lemma_rank_order_step(a: Seq<i64>, b: Seq<i64>, i: int)
    requires
        0 <= i < a.len(),
        i < b.len(),
    ensures
        rank_order(a.skip(i), b.skip(i)) == if a[i] > b[i] {
            -1
        } else if a[i] < b[i] {
            1
        } else {
            rank_order(a.skip(i + 1), b.skip(i + 1))
        },
{
    assert(a.skip(i).drop_first() =~= a.skip(i + 1));
    assert(b.skip(i).drop_first() =~= b.skip(i + 1));
}

proof fn lemma_id_order_step(a: Seq<char>, b: Seq<char>, i: int)
    requires
        0 <= i < a.len(),
        i < b.len(),
    ensures
        id_order(a.skip(i), b.skip(i)) == if (a[i] as u32) < (b[i] as u32) {
            -1
        } else if (a[i] as u32) > (b[i] as u32) {
            1
        } else {
            id_order(a.skip(i + 1), b.skip(i + 1))
        },
{
    assert(a.skip(i).drop_first() =~= a.skip(i + 1));
    assert(b.skip(i).drop_first() =~= b.skip(i + 1));
}

/// What insertion does to membership and length.
pub proof fn lemma_insert_members(sorted: Seq<nat>, keys: Seq<(Seq<i64>, Seq<char>)>, x: nat)
    ensures
        insert_by_key(sorted, keys, x).len() == sorted.len() + 1,
        forall|e: nat| #[trigger] insert_by_key(sorted, keys, x).contains(e) <==> (sorted.contains(e) || e == x),
        sorted.no_duplicates() && !sorted.contains(x) ==> insert_by_key(sorted, keys, x).no_duplicates(),
    decreases sorted.len(),
{
    if sorted.len() > 0 && key_before(keys[x as int], keys[sorted.last() as int]) {
        let s0 = sorted.drop_last();
        lemma_insert_members(s0, keys, x);
        let r0 = insert_by_key(s0, keys, x);
        assert(sorted =~= s0.push(sorted.last()));
        assert forall|e: nat| #[trigger] r0.push(sorted.last()).contains(e) <==> (sorted.contains(e) || e == x) by {
            if r0.push(sorted.last()).contains(e) {
                let k = choose|k: int| 0 <= k < r0.push(sorted.last()).len() && r0.push(sorted.last())[k] == e;
                if k < r0.len() {
                    assert(r0.contains(e));
                } else {
                    assert(sorted[sorted.len() - 1] == e);
                }
            }
            if sorted.contains(e) {
                let k = choose|k: int| 0 <= k < sorted.len() && sorted[k] == e;
                if k < sorted.len() - 1 {
                    assert(s0[k] == e);
                    assert(s0.contains(e));
                    assert(r0.contains(e));
                    let k2 = choose|k2: int| 0 <= k2 < r0.len() && r0[k2] == e;
                    assert(r0.push(sorted.last())[k2] == e);
                } else {
                    assert(r0.push(sorted.last())[r0.len() as int] == e);
                }
            }
            if e == x {
                assert(r0.contains(x));
                let k2 = choose|k2: int| 0 <= k2 < r0.len() && r0[k2] == x;
                assert(r0.push(sorted.last())[k2] == x);
            }
        }
        if sorted.no_duplicates() && !sorted.contains(x) {
            assert(!s0.contains(x)) by {
                if s0.contains(x) {
                    let k = choose|k: int| 0 <= k < s0.len() && s0[k] == x;
                    assert(sorted[k] == x);
                }
            }
            assert(s0.no_duplicates()) by {
                assert forall|i: int, j: int| 0 <= i < s0.len() && 0 <= j < s0.len() && i != j implies s0[i] != s0[j] by {
                    assert(sorted[i] == s0[i] && sorted[j] == s0[j]);
                }
            }
            assert(!r0.contains(sorted.last())) by {
                if r0.contains(sorted.last()) {
                    if s0.contains(sorted.last()) {
                        let k = choose|k: int| 0 <= k < s0.len() && s0[k] == sorted.last();
                        assert(sorted[k] == sorted[sorted.len() - 1]);
                    } else {
                        assert(sorted.contains(x)) by {
                            assert(sorted[sorted.len() - 1] == x);
                        }
                    }
                }
            }
            let r = r0.push(sorted.last());
            assert forall|i: int, j: int| 0 <= i < r.len() && 0 <= j < r.len() && i != j implies r[i] != r[j] by {
                if i < r0.len() && j < r0.len() {
                } else if i == r0.len() as int {
                    assert(r0[j] == r[j]);
                    if r[i] == r[j] {
                        assert(r0.contains(sorted.last()));
                    }
                } else {
                    assert(r0[i] == r[i]);
                    if r[i] == r[j] {
                        assert(r0.contains(sorted.last()));
                    }
                }
            }
        }
    } else if sorted.len() == 0 {
        assert forall|e: nat| #[trigger] seq![x].contains(e) <==> (sorted.contains(e) || e == x) by {
            if seq![x].contains(e) {
                let k = choose|k: int| 0 <= k < 1 && seq![x][k] == e;
            }
            if e == x {
                assert(seq![x][0] == x);
            }
        }
    } else {
        assert forall|e: nat| #[trigger] sorted.push(x).contains(e) <==> (sorted.contains(e) || e == x) by {
            if sorted.push(x).contains(e) {
                let k = choose|k: int| 0 <= k < sorted.len() + 1 && sorted.push(x)[k] == e;
                if k < sorted.len() {
                    assert(sorted[k] == e);
                }
            }
            if sorted.contains(e) {
                let k = choose|k: int| 0 <= k < sorted.len() && sorted[k] == e;
                assert(sorted.push(x)[k] == e);
            }
            if e == x {
                assert(sorted.push(x)[sorted.len() as int] == x);
            }
        }
        if sorted.no_duplicates() && !sorted.contains(x) {
            let r = sorted.push(x);
            assert forall|i: int, j: int| 0 <= i < r.len() && 0 <= j < r.len() && i != j implies r[i] != r[j] by {
                if i == sorted.len() as int {
                    assert(r[j] == sorted[j]);
                } else if j == sorted.len() as int {
                    assert(r[i] == sorted[i]);
                }
            }
        }
    }
}

/// `sorted_indices(keys, n)` is a permutation of `0..n`.
pub proof fn lemma_sorted_indices_perm(keys: Seq<(Seq<i64>, Seq<char>)>, n: nat)
    ensures
        sorted_indices(keys, n).len() == n,
        sorted_indices(keys, n).no_duplicates(),
        forall|e: nat| #[trigger] sorted_indices(keys, n).contains(e) <==> e < n,
    decreases n,
{
    if n > 0 {
        let m = (n - 1) as nat;
        lemma_sorted_indices_perm(keys, m);
        lemma_insert_members(sorted_indices(keys, m), keys, m);
        assert(!sorted_indices(keys, m).contains(m));
    }
}

/// The insertion of `x` into `s` is `s` with `x` placed at the first position `p` from
/// which every later member is strictly preceded by `x`.
proof fn lemma_insert_at(s: Seq<nat>, keys: Seq<(Seq<i64>, Seq<char>)>, x: nat, p: int)
    requires
        0 <= p <= s.len(),
        forall|k: int| p <= k < s.len() ==> key_before(keys[x as int], #[trigger] keys[s[k] as int]),
        p == 0 || !key_before(keys[x as int], keys[s[p - 1] as int]),
    ensures
        insert_by_key(s, keys, x) == s.take(p).push(x) + s.skip(p),
    decreases s.len(),
{
    if s.len() == p {
        if p == 0 {
            assert(s.take(p).push(x) + s.skip(p) =~= seq![x]);
        } else {
            assert(s.take(p).push(x) + s.skip(p) =~= s.push(x));
        }
    } else {
        let s0 = s.drop_last();
        assert(key_before(keys[x as int], keys[s[s.len() - 1] as int]));
        assert forall|k: int| p <= k < s0.len() implies key_before(keys[x as int], #[trigger] keys[s0[k] as int]) by {
            assert(s0[k] == s[k]);
        }
        if p > 0 {
            assert(s0[p - 1] == s[p - 1]);
        }
        lemma_insert_at(s0, keys, x, p);
        assert(s0.take(p) =~= s.take(p));
        assert((s0.take(p).push(x) + s0.skip(p)).push(s.last()) =~= s.take(p).push(x) + s.skip(p));
    }
}

// ── the order is a total preorder ────────────────────────────────────────────────

/// `s` lists indices of `keys` best first: no later index strictly precedes an earlier.
pub open spec fn ordered_by(s: Seq<nat>, keys: Seq<(Seq<i64>, Seq<char>)>) -> bool {
    forall|i: int, j: int| 0 <= i < j < s.len() ==> !key_before(#[trigger] keys[s[j] as int], #[trigger] keys[s[i] as int])
}

/// All rank vectors of `keys` have the same length.
pub open spec fn uniform_ranks(keys: Seq<(Seq<i64>, Seq<char>)>) -> bool {
    forall|i: int, j: int| 0 <= i < keys.len() && 0 <= j < keys.len() ==> #[trigger] keys[i].0.len() == #[trigger] keys[j].0.len()
}

proof fn lemma_rank_antisym(a: Seq<i64>, b: Seq<i64>)
    ensures
        rank_order(a, b) == -rank_order(b, a),
    decreases a.len(),
{
    if a.len() > 0 && b.len() > 0 && a[0] == b[0] {
        lemma_rank_antisym(a.drop_first(), b.drop_first());
    }
}

proof fn lemma_rank_zero(a: Seq<i64>, b: Seq<i64>)
    requires
        a.len() == b.len(),
        rank_order(a, b) == 0,
    ensures
        a == b,
    decreases a.len(),
{
    if a.len() > 0 {
        lemma_rank_zero(a.drop_first(), b.drop_first());
        assert forall|i: int| 0 <= i < a.len() implies a[i] == b[i] by {
            if i > 0 {
                assert(a[i] == a.drop_first()[i - 1]);
                assert(b[i] == b.drop_first()[i - 1]);
            }
        }
    }
    assert(a =~= b);
}

proof fn lemma_rank_trans(a: Seq<i64>, b: Seq<i64>, c: Seq<i64>)
    requires
        a.len() == b.len(),
        b.len() == c.len(),
        rank_order(a, b) < 0,
        rank_order(b, c) < 0,
    ensures
        rank_order(a, c) < 0,
    decreases a.len(),
{
    if a[0] == b[0] && b[0] == c[0] {
        lemma_rank_trans(a.drop_first(), b.drop_first(), c.drop_first());
    }
}

pub proof fn lemma_id_antisym(a: Seq<char>, b: Seq<char>)
    ensures
        id_order(a, b) == -id_order(b, a),
    decreases a.len(),
{
    if a.len() > 0 && b.len() > 0 && (a[0] as u32) == (b[0] as u32) {
        lemma_id_antisym(a.drop_first(), b.drop_first());
    }
}

pub proof fn lemma_id_zero(a: Seq<char>, b: Seq<char>)
    requires
        id_order(a, b) == 0,
    ensures
        a == b,
    decreases a.len(),
{
    if a.len() > 0 {
        lemma_id_zero(a.drop_first(), b.drop_first());
        let (ca, cb) = (a[0], b[0]);
        vstd::utf8::char_u32_cast(ca, ca as u32);
        vstd::utf8::char_u32_cast(cb, cb as u32);
        assert(ca == cb);
        assert forall|i: int| 0 <= i < a.len() implies a[i] == b[i] by {
            if i > 0 {
                assert(a[i] == a.drop_first()[i - 1]);
                assert(b[i] == b.drop_first()[i - 1]);
            }
        }
    }
    assert(a =~= b);
}

proof fn lemma_id_trans(a: Seq<char>, b: Seq<char>, c: Seq<char>)
    requires
        id_order(a, b) < 0,
        id_order(b, c) < 0,
    ensures
        id_order(a, c) < 0,
    decreases a.len(),
{
    if a.len() > 0 && b.len() > 0 && c.len() > 0 && (a[0] as u32) == (b[0] as u32) && (b[0] as u32) == (c[0] as u32) {
        lemma_id_trans(a.drop_first(), b.drop_first(), c.drop_first());
    }
}

/// Strict precedence is asymmetric.
pub proof fn lemma_before_asym(a: (Seq<i64>, Seq<char>), b: (Seq<i64>, Seq<char>))
    ensures
        key_before(a, b) ==> !key_before(b, a),
{
    lemma_rank_antisym(a.0, b.0);
    lemma_id_antisym(a.1, b.1);
}

/// "Does not strictly follow" is transitive over keys whose ranks have one length.
pub proof fn lemma_not_before_trans(a: (Seq<i64>, Seq<char>), b: (Seq<i64>, Seq<char>), c: (Seq<i64>, Seq<char>))
    requires
        a.0.len() == b.0.len(),
        b.0.len() == c.0.len(),
        !key_before(b, a),
        !key_before(c, b),
    ensures
        !key_before(c, a),
{
    lemma_rank_antisym(a.0, b.0);
    lemma_rank_antisym(b.0, c.0);
    lemma_rank_antisym(a.0, c.0);
    lemma_id_antisym(a.1, b.1);
    lemma_id_antisym(b.1, c.1);
    lemma_id_antisym(a.1, c.1);
    if rank_order(a.0, b.0) == 0 {
        lemma_rank_zero(a.0, b.0);
    }
    if rank_order(b.0, c.0) == 0 {
        lemma_rank_zero(b.0, c.0);
    }
    if rank_order(a.0, b.0) < 0 && rank_order(b.0, c.0) < 0 {
        lemma_rank_trans(a.0, b.0, c.0);
    }
    if rank_order(a.0, b.0) == 0 && rank_order(b.0, c.0) == 0 {
        if id_order(a.1, b.1) == 0 {
            lemma_id_zero(a.1, b.1);
        } else if id_order(b.1, c.1) == 0 {
            lemma_id_zero(b.1, c.1);
        } else {
            lemma_id_trans(a.1, b.1, c.1);
        }
    }
}

proof fn lemma_insert_ordered(s: Seq<nat>, keys: Seq<(Seq<i64>, Seq<char>)>, x: nat)
    requires
        ordered_by(s, keys),
        uniform_ranks(keys),
        x < keys.len(),
        forall|k: int| 0 <= k < s.len() ==> #[trigger] s[k] < keys.len(),
    ensures
        ordered_by(insert_by_key(s, keys, x), keys),
    decreases s.len(),
{
    if s.len() == 0 {
    } else if key_before(keys[x as int], keys[s.last() as int]) {
        let s0 = s.drop_last();
        let last = s.last();
        assert forall|i: int, j: int| 0 <= i < j < s0.len() implies !key_before(
            #[trigger] keys[s0[j] as int],
            #[trigger] keys[s0[i] as int],
        ) by {
            assert(s0[i] == s[i] && s0[j] == s[j]);
        }
        lemma_insert_ordered(s0, keys, x);
        lemma_insert_members(s0, keys, x);
        let r0 = insert_by_key(s0, keys, x);
        let r = r0.push(last);
        assert(insert_by_key(s, keys, x) == r);
        lemma_before_asym(keys[x as int], keys[last as int]);
        assert forall|i: int, j: int| 0 <= i < j < r.len() implies !key_before(
            #[trigger] keys[r[j] as int],
            #[trigger] keys[r[i] as int],
        ) by {
            if j < r0.len() {
                assert(r[i] == r0[i] && r[j] == r0[j]);
            } else {
                assert(r[j] == last);
                assert(r[i] == r0[i]);
                assert(r0.contains(r0[i]));
                if r0[i] != x {
                    assert(s0.contains(r0[i]));
                    let k = choose|k: int| 0 <= k < s0.len() && s0[k] == r0[i];
                    assert(s[k] == r0[i]);
                    assert(s[s.len() - 1] == last);
                }
            }
        }
    } else {
        let last = s.last();
        let r = s.push(x);
        assert forall|i: int, j: int| 0 <= i < j < r.len() implies !key_before(
            #[trigger] keys[r[j] as int],
            #[trigger] keys[r[i] as int],
        ) by {
            if j < s.len() {
                assert(r[i] == s[i] && r[j] == s[j]);
            } else {
                assert(r[j] == x && r[i] == s[i]);
                assert(s[s.len() - 1] == last);
                if i < s.len() - 1 {
                    assert(!key_before(keys[last as int], keys[s[i] as int]));
                    lemma_not_before_trans(keys[s[i] as int], keys[last as int], keys[x as int]);
                }
            }
        }
    }
}

/// The stable sort lists its indices best first: no later index strictly precedes an
/// earlier one, for keys whose rank vectors have one length.
pub proof fn law_sorted_indices_ordered(keys: Seq<(Seq<i64>, Seq<char>)>, n: nat)
    requires
        uniform_ranks(keys),
        n <= keys.len(),
    ensures
        ordered_by(sorted_indices(keys, n), keys),
    decreases n,
{
    if n > 0 {
        let m = (n - 1) as nat;
        law_sorted_indices_ordered(keys, m);
        lemma_sorted_indices_perm(keys, m);
        let s = sorted_indices(keys, m);
        assert forall|k: int| 0 <= k < s.len() implies #[trigger] s[k] < keys.len() by {
            assert(s.contains(s[k]));
        }
        lemma_insert_ordered(s, keys, m);
    }
}

// ── executable ───────────────────────────────────────────────────────────────────

/// Whether key `a` strictly precedes key `b`.
pub fn key_precedes(a: &SortKey, b: &SortKey) -> (r: bool)
    ensures
        r == key_before(a@, b@),
{
    let mut i: usize = 0;
    assert(a.rank@.skip(0) =~= a.rank@ && b.rank@.skip(0) =~= b.rank@);
    let n: usize = if a.rank.len() < b.rank.len() { a.rank.len() } else { b.rank.len() };
    while i < n
        invariant
            n == if a.rank@.len() < b.rank@.len() { a.rank@.len() } else { b.rank@.len() },
            i <= n,
            rank_order(a.rank@, b.rank@) == rank_order(a.rank@.skip(i as int), b.rank@.skip(i as int)),
        decreases n - i,
    {
        proof { lemma_rank_order_step(a.rank@, b.rank@, i as int); }
        if a.rank[i] > b.rank[i] {
            return true;
        } else if a.rank[i] < b.rank[i] {
            return false;
        }
        i += 1;
    }
    assert(a.rank@.skip(i as int).len() == 0 || b.rank@.skip(i as int).len() == 0);
    let mut j: usize = 0;
    assert(a.id@.skip(0) =~= a.id@ && b.id@.skip(0) =~= b.id@);
    let m: usize = if a.id.len() < b.id.len() { a.id.len() } else { b.id.len() };
    while j < m
        invariant
            m == if a.id@.len() < b.id@.len() { a.id@.len() } else { b.id@.len() },
            j <= m,
            rank_order(a.rank@, b.rank@) == 0,
            id_order(a.id@, b.id@) == id_order(a.id@.skip(j as int), b.id@.skip(j as int)),
        decreases m - j,
    {
        proof { lemma_id_order_step(a.id@, b.id@, j as int); }
        let ca = a.id[j] as u32;
        let cb = b.id[j] as u32;
        if ca < cb {
            return true;
        } else if ca > cb {
            return false;
        }
        j += 1;
    }
    assert(a.id@.skip(j as int).len() == 0 || b.id@.skip(j as int).len() == 0);
    j < b.id.len()
}

/// The indices of `keys`, stably sorted by key.
pub fn sort_indices(keys: &Vec<SortKey>) -> (r: Vec<usize>)
    ensures
        r@.len() == keys@.len(),
        r@.map_values(|i: usize| i as nat) == sorted_indices(key_views(keys@), keys@.len() as nat),
        forall|k: int| 0 <= k < r@.len() ==> #[trigger] r@[k] < keys@.len(),
        r@.no_duplicates(),
{
    let ghost kv = key_views(keys@);
    let mut out: Vec<usize> = Vec::new();
    let mut i: usize = 0;
    while i < keys.len()
        invariant
            i <= keys@.len(),
            kv == key_views(keys@),
            out@.map_values(|e: usize| e as nat) == sorted_indices(kv, i as nat),
        decreases keys@.len() - i,
    {
        let ghost s = out@.map_values(|e: usize| e as nat);
        proof {
            lemma_sorted_indices_perm(kv, i as nat);
            assert forall|k: int| 0 <= k < out@.len() implies #[trigger] out@[k] < i by {
                assert(s[k] == out@[k] as nat);
                assert(s.contains(s[k]));
            }
        }
        let mut p: usize = out.len();
        while p > 0 && key_precedes(&keys[i], &keys[out[p - 1]])
            invariant
                p <= out@.len(),
                s == out@.map_values(|e: usize| e as nat),
                s == sorted_indices(kv, i as nat),
                i < keys@.len(),
                kv == key_views(keys@),
                forall|e: nat| #[trigger] s.contains(e) <==> e < i,
                forall|k: int| 0 <= k < out@.len() ==> #[trigger] out@[k] < i,
                forall|k: int| p <= k < s.len() ==> key_before(kv[i as int], #[trigger] kv[s[k] as int]),
            decreases p,
        {
            proof {
                assert(s[p - 1] == out@[p - 1] as nat);
                assert(s.contains(s[p - 1]));
            }
            p -= 1;
        }
        proof {
            if p > 0 {
                assert(s[p - 1] == out@[p - 1] as nat);
                assert(s.contains(s[p - 1]));
                assert(kv[s[p - 1] as int] == keys@[out@[p - 1] as int]@);
            }
            assert(kv[i as int] == keys@[i as int]@);
            lemma_insert_at(s, kv, i as nat, p as int);
        }
        out.insert(p, i);
        proof {
            assert(out@.map_values(|e: usize| e as nat) =~= s.take(p as int).push(i as nat) + s.skip(p as int));
        }
        i += 1;
    }
    proof {
        lemma_sorted_indices_perm(kv, keys@.len() as nat);
        let s = out@.map_values(|e: usize| e as nat);
        assert forall|k: int| 0 <= k < out@.len() implies #[trigger] out@[k] < keys@.len() by {
            assert(s[k] == out@[k] as nat);
            assert(s.contains(s[k]));
        }
        assert forall|a: int, b: int| 0 <= a < out@.len() && 0 <= b < out@.len() && a != b implies out@[a] != out@[b] by {
            assert(s[a] == out@[a] as nat && s[b] == out@[b] as nat);
        }
    }
    out
}

} // verus!
