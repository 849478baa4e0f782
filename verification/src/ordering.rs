//! Lexicographic ordering of names, and name-keyed tables kept sorted.
//!
//! Wherever the compiler walks a mapping to produce output it must do so in
//! a deterministic order, so name-keyed tables are held as vectors of pairs
//! sorted strictly ascending by key. [`sorted_insert`] gives such tables
//! map semantics: inserting an existing key replaces its value.

use vstd::prelude::*;
use vstd::string::StrSliceExecFns;

verus! {

/// Strict lexicographic order on character sequences, by code point.
pub open spec fn lex_lt(a: Seq<char>, b: Seq<char>) -> bool
    decreases a.len(),
{
    if b.len() == 0 {
        false
    } else if a.len() == 0 {
        true
    } else if a[0] != b[0] {
        a[0] < b[0]
    } else {
        lex_lt(a.drop_first(), b.drop_first())
    }
}

/// Exactly one of `lex_lt(a, b)`, `a == b`, `lex_lt(b, a)` holds.
pub proof fn lemma_lex_trichotomy(a: Seq<char>, b: Seq<char>)
    ensures
        !lex_lt(a, b) && !lex_lt(b, a) ==> a =~= b,
        lex_lt(a, b) ==> a != b && !lex_lt(b, a),
    decreases a.len(),
{
    if a.len() > 0 && b.len() > 0 && a[0] == b[0] {
        lemma_lex_trichotomy(a.drop_first(), b.drop_first());
        if !lex_lt(a, b) && !lex_lt(b, a) {
            assert(a =~= seq![a[0]] + a.drop_first());
            assert(b =~= seq![b[0]] + b.drop_first());
        }
        if lex_lt(a, b) && a == b {
            assert(a.drop_first() == b.drop_first());
        }
    }
}

/// Lexicographic order is transitive.
pub proof fn lemma_lex_transitive(a: Seq<char>, b: Seq<char>, c: Seq<char>)
    requires
        lex_lt(a, b),
        lex_lt(b, c),
    ensures
        lex_lt(a, c),
    decreases a.len() + b.len() + c.len(),
{
    if c.len() == 0 || b.len() == 0 {
        // lex_lt(b, c) forces c.len() > 0, and lex_lt(a, b) forces b.len() > 0
    } else if a.len() == 0 {
    } else {
        if a[0] == b[0] && b[0] == c[0] {
            lemma_lex_transitive(a.drop_first(), b.drop_first(), c.drop_first());
        }
    }
}

/// Dropping a common prefix of length `i` does not change the order.
pub proof fn lemma_lex_skip(a: Seq<char>, b: Seq<char>, i: int)
    requires
        0 <= i <= a.len(),
        0 <= i <= b.len(),
        forall|j: int| 0 <= j < i ==> a[j] == b[j],
    ensures
        lex_lt(a, b) == lex_lt(a.skip(i), b.skip(i)),
    decreases i,
{
    if i == 0 {
        assert(a.skip(0) =~= a);
        assert(b.skip(0) =~= b);
    } else {
        assert(a.len() > 0 && b.len() > 0 && a[0] == b[0]);
        assert(lex_lt(a, b) == lex_lt(a.drop_first(), b.drop_first()));
        assert forall|j: int| 0 <= j < i - 1 implies a.drop_first()[j] == b.drop_first()[j] by {
            assert(a[j + 1] == b[j + 1]);
        }
        lemma_lex_skip(a.drop_first(), b.drop_first(), i - 1);
        assert(a.drop_first().skip(i - 1) =~= a.skip(i));
        assert(b.drop_first().skip(i - 1) =~= b.skip(i));
    }
}

/// Whether `a@` comes strictly before `b@` lexicographically.
pub fn str_lex_lt(a: &str, b: &str) -> (r: bool)
    ensures
        r == lex_lt(a@, b@),
{
    let an = a.unicode_len();
    let bn = b.unicode_len();
    let mut i: usize = 0;
    loop
        invariant
            0 <= i <= an,
            0 <= i <= bn,
            an == a@.len(),
            bn == b@.len(),
            forall|j: int| 0 <= j < i ==> a@[j] == b@[j],
        decreases an - i,
    {
        proof {
            lemma_lex_skip(a@, b@, i as int);
        }
        if i == bn {
            return false;
        }
        if i == an {
            return true;
        }
        let ca = a.get_char(i);
        let cb = b.get_char(i);
        if ca != cb {
            return ca < cb;
        }
        i += 1;
    }
}

/// Whether two strings hold the same characters.
pub fn str_eq(a: &str, b: &str) -> (r: bool)
    ensures
        r == (a@ == b@),
{
    let lt = str_lex_lt(a, b);
    let gt = str_lex_lt(b, a);
    proof {
        lemma_lex_trichotomy(a@, b@);
        lemma_lex_trichotomy(b@, a@);
    }
    !lt && !gt
}

/// Whether `p` is a prefix of `s`.
pub open spec fn spec_starts_with(s: Seq<char>, p: Seq<char>) -> bool {
    s.len() >= p.len() && s.subrange(0, p.len() as int) == p
}

/// Whether `s` starts with `p`.
pub fn str_starts_with(s: &str, p: &str) -> (r: bool)
    ensures
        r == spec_starts_with(s@, p@),
{
    let sn = s.unicode_len();
    let pn = p.unicode_len();
    if pn > sn {
        return false;
    }
    let mut i: usize = 0;
    while i < pn
        invariant
            0 <= i <= pn <= sn,
            sn == s@.len(),
            pn == p@.len(),
            forall|j: int| 0 <= j < i ==> s@[j] == p@[j],
        decreases pn - i,
    {
        if s.get_char(i) != p.get_char(i) {
            proof {
                assert(s@.subrange(0, pn as int)[i as int] != p@[i as int]);
            }
            return false;
        }
        i += 1;
    }
    proof {
        assert(s@.subrange(0, pn as int) =~= p@);
    }
    true
}

/// The view of a name-keyed table: each key as its characters.
pub open spec fn entries_view<D>(s: Seq<(String, D)>) -> Seq<(Seq<char>, D)> {
    s.map_values(|p: (String, D)| (p.0@, p.1))
}

/// Keys strictly ascending (hence distinct).
pub open spec fn entries_sorted<D>(s: Seq<(Seq<char>, D)>) -> bool {
    forall|i: int, j: int| 0 <= i < j < s.len() ==> lex_lt(#[trigger] s[i].0, #[trigger] s[j].0)
}

/// Insertion into a sorted table: before the first larger key, replacing an
/// equal one.
pub open spec fn spec_sorted_insert<D>(s: Seq<(Seq<char>, D)>, k: Seq<char>, v: D) -> Seq<
    (Seq<char>, D),
>
    decreases s.len(),
{
    if s.len() == 0 {
        seq![(k, v)]
    } else if lex_lt(k, s[0].0) {
        seq![(k, v)] + s
    } else if !lex_lt(s[0].0, k) {
        seq![(k, v)] + s.drop_first()
    } else {
        seq![s[0]] + spec_sorted_insert(s.drop_first(), k, v)
    }
}

/// `spec_sorted_insert` walks past a prefix of strictly smaller keys.
proof fn lemma_sorted_insert_skip<D>(s: Seq<(Seq<char>, D)>, k: Seq<char>, v: D, i: int)
    requires
        0 <= i <= s.len(),
        forall|j: int| 0 <= j < i ==> lex_lt(#[trigger] s[j].0, k),
    ensures
        spec_sorted_insert(s, k, v) =~= s.take(i) + spec_sorted_insert(s.skip(i), k, v),
    decreases i,
{
    if i == 0 {
        assert(s.take(0) =~= Seq::empty());
        assert(s.skip(0) =~= s);
    } else {
        assert(lex_lt(s[0].0, k));
        lemma_lex_trichotomy(k, s[0].0);
        lemma_sorted_insert_skip(s.drop_first(), k, v, i - 1);
        assert(s.drop_first().take(i - 1) =~= s.take(i).drop_first());
        assert(s.drop_first().skip(i - 1) =~= s.skip(i));
        assert(spec_sorted_insert(s, k, v) =~= seq![s[0]] + spec_sorted_insert(
            s.drop_first(),
            k,
            v,
        ));
        assert(seq![s[0]] + (s.drop_first().take(i - 1) + spec_sorted_insert(s.skip(i), k, v))
            =~= s.take(i) + spec_sorted_insert(s.skip(i), k, v));
    }
}

/// Inserting keeps the table sorted.
pub proof fn lemma_sorted_insert_sorted<D>(s: Seq<(Seq<char>, D)>, k: Seq<char>, v: D)
    requires
        entries_sorted(s),
    ensures
        entries_sorted(spec_sorted_insert(s, k, v)),
        spec_sorted_insert(s, k, v).len() <= s.len() + 1,
    decreases s.len(),
{
    let out = spec_sorted_insert(s, k, v);
    if s.len() == 0 {
    } else if lex_lt(k, s[0].0) {
        assert forall|i: int, j: int| 0 <= i < j < out.len() implies lex_lt(
            #[trigger] out[i].0,
            #[trigger] out[j].0,
        ) by {
            if i == 0 && j > 1 {
                lemma_lex_transitive(k, s[0].0, s[j - 1].0);
            }
        }
    } else if !lex_lt(s[0].0, k) {
        lemma_lex_trichotomy(k, s[0].0);
        assert forall|i: int, j: int| 0 <= i < j < out.len() implies lex_lt(
            #[trigger] out[i].0,
            #[trigger] out[j].0,
        ) by {
            if i == 0 {
                assert(out[j] == s[j]);
                assert(lex_lt(s[0].0, s[j].0));
            }
        }
    } else {
        assert(entries_sorted(s.drop_first())) by {
            assert forall|i: int, j: int|
                0 <= i < j < s.drop_first().len() implies lex_lt(
                #[trigger] s.drop_first()[i].0,
                #[trigger] s.drop_first()[j].0,
            ) by {
                assert(s.drop_first()[i] == s[i + 1]);
                assert(s.drop_first()[j] == s[j + 1]);
            }
        }
        lemma_sorted_insert_sorted(s.drop_first(), k, v);
        let rest = spec_sorted_insert(s.drop_first(), k, v);
        assert forall|i: int, j: int| 0 <= i < j < out.len() implies lex_lt(
            #[trigger] out[i].0,
            #[trigger] out[j].0,
        ) by {
            if i == 0 {
                // out[j] is either (k, v) or an element of s.drop_first()
                assert(out[j] == rest[j - 1]);
                lemma_sorted_insert_member(s.drop_first(), k, v, j - 1);
                if rest[j - 1].0 =~= k {
                } else {
                    let m = choose|m: int|
                        0 <= m < s.drop_first().len() && rest[j - 1] == s.drop_first()[m];
                    assert(s.drop_first()[m] == s[m + 1]);
                    assert(lex_lt(s[0].0, s[m + 1].0));
                }
            } else {
                assert(out[i] == rest[i - 1] && out[j] == rest[j - 1]);
            }
        }
    }
}

/// Every entry of an insertion's result is the new pair or an old entry.
proof fn lemma_sorted_insert_member<D>(s: Seq<(Seq<char>, D)>, k: Seq<char>, v: D, i: int)
    requires
        0 <= i < spec_sorted_insert(s, k, v).len(),
    ensures
        spec_sorted_insert(s, k, v)[i].0 =~= k || exists|m: int|
            0 <= m < s.len() && spec_sorted_insert(s, k, v)[i] == s[m],
    decreases s.len(),
{
    let out = spec_sorted_insert(s, k, v);
    if s.len() == 0 {
    } else if lex_lt(k, s[0].0) {
        if i > 0 {
            assert(out[i] == s[i - 1]);
        }
    } else if !lex_lt(s[0].0, k) {
        if i > 0 {
            assert(out[i] == s.drop_first()[i - 1]);
            assert(s.drop_first()[i - 1] == s[i]);
        }
    } else {
        if i == 0 {
            assert(out[0] == s[0]);
        } else {
            lemma_sorted_insert_member(s.drop_first(), k, v, i - 1);
            assert(out[i] == spec_sorted_insert(s.drop_first(), k, v)[i - 1]);
            if !(spec_sorted_insert(s.drop_first(), k, v)[i - 1].0 =~= k) {
                let m = choose|m: int|
                    0 <= m < s.drop_first().len() && spec_sorted_insert(s.drop_first(), k, v)[i - 1]
                        == s.drop_first()[m];
                assert(s.drop_first()[m] == s[m + 1]);
            }
        }
    }
}

/// The value at `k` (of the last entry holding it, where keys repeat).
pub open spec fn spec_assoc<D>(entries: Seq<(Seq<char>, D)>, k: Seq<char>) -> Option<D>
    decreases entries.len(),
{
    if entries.len() == 0 {
        None
    } else if entries.last().0 == k {
        Some(entries.last().1)
    } else {
        spec_assoc(entries.drop_last(), k)
    }
}

/// Insert `(key, value)` into a table sorted strictly ascending by key,
/// replacing the entry of an equal key.
pub fn sorted_insert<D>(table: &mut Vec<(String, D)>, key: String, value: D)
    ensures
        entries_view(final(table)@) == spec_sorted_insert(entries_view(old(table)@), key@, value),
{
    let ghost orig = entries_view(old(table)@);
    let n = table.len();
    let mut pos: usize = n;
    let mut i: usize = 0;
    while i < n
        invariant
            0 <= i <= n,
            n == table@.len(),
            entries_view(table@) == orig,
            pos == n || pos < i,
            forall|j: int| 0 <= j < i && j < pos ==> lex_lt(#[trigger] orig[j].0, key@),
            pos < n ==> !lex_lt(orig[pos as int].0, key@),
        decreases n - i,
    {
        proof {
            assert(orig[i as int].0 == table@[i as int].0@);
        }
        if pos == n && !str_lex_lt(table[i].0.as_str(), key.as_str()) {
            pos = i;
        }
        i += 1;
    }
    let i: usize = pos;
    proof {
        lemma_sorted_insert_skip(orig, key@, value, i as int);
    }
    if i < n && !str_lex_lt(key.as_str(), table[i].0.as_str()) {
        // equal keys: replace
        proof {
            lemma_lex_trichotomy(key@, orig[i as int].0);
            assert(orig.skip(i as int)[0] == orig[i as int]);
        }
        table.set(i, (key, value));
        proof {
            assert(entries_view(table@) =~= orig.take(i as int) + spec_sorted_insert(
                orig.skip(i as int),
                key@,
                value,
            ));
        }
    } else {
        proof {
            if i < n {
                assert(orig.skip(i as int)[0] == orig[i as int]);
            } else {
                assert(orig.skip(i as int) =~= Seq::empty());
            }
        }
        table.insert(i, (key, value));
        proof {
            assert(entries_view(table@) =~= orig.take(i as int) + spec_sorted_insert(
                orig.skip(i as int),
                key@,
                value,
            ));
        }
    }
}

} // verus!
