//! Deterministic cache-key derivation. Query pairs are sorted by key (ties
//! broken by value), serialized with explicit length prefixes, and hashed;
//! the derived key is provably independent of the pairs' insertion order.

use vstd::prelude::*;

use vstd::multiset::Multiset;

use crate::codec::enc_str;
use crate::text::{chars_to_string, push_range, push_str_chars, push_u64_dec, str_to_chars};

verus! {

/// Lexicographic order on character sequences, by code point.
pub open spec fn lex_leq(x: Seq<char>, y: Seq<char>) -> bool
    decreases x.len(),
{
    if x.len() == 0 {
        true
    } else if y.len() == 0 {
        false
    } else if (x[0] as u32) < (y[0] as u32) {
        true
    } else if (x[0] as u32) > (y[0] as u32) {
        false
    } else {
        lex_leq(x.drop_first(), y.drop_first())
    }
}

/// Order on query pairs: by key, ties broken by value.
pub open spec fn pair_leq(a: (Seq<char>, Seq<char>), b: (Seq<char>, Seq<char>)) -> bool {
    if a.0 == b.0 {
        lex_leq(a.1, b.1)
    } else {
        lex_leq(a.0, b.0)
    }
}

proof fn lemma_lex_refl(x: Seq<char>)
    ensures
        lex_leq(x, x),
    decreases x.len(),
{
    if x.len() > 0 {
        lemma_lex_refl(x.drop_first());
    }
}

proof fn lemma_lex_conn(x: Seq<char>, y: Seq<char>)
    ensures
        lex_leq(x, y) || lex_leq(y, x),
    decreases x.len(),
{
    if x.len() > 0 && y.len() > 0 && (x[0] as u32) == (y[0] as u32) {
        lemma_lex_conn(x.drop_first(), y.drop_first());
    }
}

proof fn lemma_lex_antisym(x: Seq<char>, y: Seq<char>)
    requires
        lex_leq(x, y),
        lex_leq(y, x),
    ensures
        x == y,
    decreases x.len(),
{
    if x.len() == 0 {
        assert(y.len() == 0);
        assert(x =~= y);
    } else {
        assert(y.len() > 0);
        assert((x[0] as u32) == (y[0] as u32));
        vstd::utf8::char_u32_cast(x[0], x[0] as u32);
        vstd::utf8::char_u32_cast(y[0], x[0] as u32);
        assert(x[0] == y[0]);
        lemma_lex_antisym(x.drop_first(), y.drop_first());
        assert(forall|k: int|
            1 <= k < x.len() ==> x[k] == x.drop_first()[k - 1] && y[k] == y.drop_first()[k - 1]);
        assert(x =~= y);
    }
}

proof fn lemma_lex_trans(x: Seq<char>, y: Seq<char>, z: Seq<char>)
    requires
        lex_leq(x, y),
        lex_leq(y, z),
    ensures
        lex_leq(x, z),
    decreases x.len(),
{
    if x.len() > 0 && y.len() > 0 && z.len() > 0 && (x[0] as u32) == (y[0] as u32) && (
    y[0] as u32) == (z[0] as u32) {
        lemma_lex_trans(x.drop_first(), y.drop_first(), z.drop_first());
    }
}

proof fn lemma_pair_conn(a: (Seq<char>, Seq<char>), b: (Seq<char>, Seq<char>))
    ensures
        pair_leq(a, b) || pair_leq(b, a),
{
    lemma_lex_conn(a.0, b.0);
    lemma_lex_conn(a.1, b.1);
}

proof fn lemma_pair_antisym(a: (Seq<char>, Seq<char>), b: (Seq<char>, Seq<char>))
    requires
        pair_leq(a, b),
        pair_leq(b, a),
    ensures
        a == b,
{
    if a.0 == b.0 {
        lemma_lex_antisym(a.1, b.1);
    } else {
        lemma_lex_antisym(a.0, b.0);
    }
}

proof fn lemma_pair_trans(
    a: (Seq<char>, Seq<char>),
    b: (Seq<char>, Seq<char>),
    c: (Seq<char>, Seq<char>),
)
    requires
        pair_leq(a, b),
        pair_leq(b, c),
    ensures
        pair_leq(a, c),
{
    if a.0 == b.0 && b.0 == c.0 {
        lemma_lex_trans(a.1, b.1, c.1);
    } else if a.0 == b.0 {
        assert(lex_leq(a.0, c.0));
    } else if b.0 == c.0 {
        assert(lex_leq(a.0, c.0));
    } else {
        lemma_lex_trans(a.0, b.0, c.0);
        if a.0 == c.0 {
            lemma_lex_antisym(a.0, b.0);
        }
    }
}

/// Every element is ordered below every later one.
pub open spec fn pairs_sorted(l: Seq<(Seq<char>, Seq<char>)>) -> bool {
    forall|i: int, j: int| 0 <= i < j < l.len() ==> pair_leq(#[trigger] l[i], #[trigger] l[j])
}

/// Inserts `x` into an already sorted sequence, keeping it sorted.
pub open spec fn insert_pair(x: (Seq<char>, Seq<char>), l: Seq<(Seq<char>, Seq<char>)>) -> Seq<
    (Seq<char>, Seq<char>),
>
    decreases l.len(),
{
    if l.len() == 0 {
        seq![x]
    } else if pair_leq(x, l[0]) {
        seq![x] + l
    } else {
        seq![l[0]] + insert_pair(x, l.drop_first())
    }
}

/// Insertion sort of query pairs.
pub open spec fn sort_pairs_spec(l: Seq<(Seq<char>, Seq<char>)>) -> Seq<(Seq<char>, Seq<char>)>
    decreases l.len(),
{
    if l.len() == 0 {
        l
    } else {
        insert_pair(l[0], sort_pairs_spec(l.drop_first()))
    }
}

proof fn lemma_insert_pair_ensures(x: (Seq<char>, Seq<char>), l: Seq<(Seq<char>, Seq<char>)>)
    requires
        pairs_sorted(l),
    ensures
        pairs_sorted(insert_pair(x, l)),
        insert_pair(x, l).to_multiset() == l.to_multiset().insert(x),
        insert_pair(x, l).len() == l.len() + 1,
    decreases l.len(),
{
    broadcast use vstd::seq_lib::group_to_multiset_ensures;

    if l.len() == 0 {
        assert(seq![x] =~= Seq::<(Seq<char>, Seq<char>)>::empty().push(x));
        assert(insert_pair(x, l).to_multiset() =~= l.to_multiset().insert(x));
    } else if pair_leq(x, l[0]) {
        let r = seq![x] + l;
        assert forall|i: int, j: int| 0 <= i < j < r.len() implies pair_leq(
            #[trigger] r[i],
            #[trigger] r[j],
        ) by {
            if i == 0 {
                if j > 1 {
                    lemma_pair_trans(x, l[0], l[j - 1]);
                }
            }
        }
        assert(r =~= l.insert(0, x));
        vstd::seq_lib::lemma_multiset_commutative(seq![x], l);
        assert(seq![x] =~= Seq::<(Seq<char>, Seq<char>)>::empty().push(x));
        assert(seq![x].to_multiset() =~= Multiset::<(Seq<char>, Seq<char>)>::empty().insert(x));
        assert(r.to_multiset() =~= l.to_multiset().insert(x));
    } else {
        let tail = l.drop_first();
        assert(pairs_sorted(tail)) by {
            assert(forall|i: int, j: int|
                0 <= i < j < tail.len() ==> pair_leq(#[trigger] tail[i], #[trigger] tail[j]))
                by {
                assert(forall|i: int, j: int|
                    0 <= i < j < tail.len() ==> tail[i] == l[i + 1] && tail[j] == l[j + 1]);
            }
        }
        lemma_insert_pair_ensures(x, tail);
        let rec = insert_pair(x, tail);
        let r = seq![l[0]] + rec;
        lemma_pair_conn(x, l[0]);
        assert(pair_leq(l[0], x));
        assert forall|i: int, j: int| 0 <= i < j < r.len() implies pair_leq(
            #[trigger] r[i],
            #[trigger] r[j],
        ) by {
            if i == 0 {
                // Every element of `rec` is either `x` or came from `tail`.
                assert(rec.to_multiset().contains(r[j]));
                if r[j] == x {
                } else {
                    assert(tail.to_multiset().contains(r[j]));
                    assert(tail.contains(r[j]));
                    let w = choose|w: int| 0 <= w < tail.len() && tail[w] == r[j];
                    assert(l[w + 1] == r[j]);
                    assert(pair_leq(l[0], l[w + 1]));
                }
            } else {
                assert(r[i] == rec[i - 1] && r[j] == rec[j - 1]);
            }
        }
        vstd::seq_lib::lemma_multiset_commutative(seq![l[0]], rec);
        vstd::seq_lib::lemma_multiset_commutative(seq![l[0]], tail);
        assert(seq![l[0]] + tail =~= l);
        assert(seq![l[0]].to_multiset().add(rec.to_multiset()) =~= seq![l[0]].to_multiset().add(
            tail.to_multiset(),
        ).insert(x));
        assert(r.to_multiset() =~= l.to_multiset().insert(x));
    }
}

/// The insertion sort returns a sorted permutation of its input.
pub proof fn lemma_sort_pairs_ensures(l: Seq<(Seq<char>, Seq<char>)>)
    ensures
        pairs_sorted(sort_pairs_spec(l)),
        sort_pairs_spec(l).to_multiset() == l.to_multiset(),
        sort_pairs_spec(l).len() == l.len(),
    decreases l.len(),
{
    broadcast use vstd::seq_lib::group_to_multiset_ensures;

    if l.len() > 0 {
        lemma_sort_pairs_ensures(l.drop_first());
        lemma_insert_pair_ensures(l[0], sort_pairs_spec(l.drop_first()));
        assert(l.drop_first().to_multiset().insert(l[0]) =~= l.to_multiset()) by {
            assert(l =~= seq![l[0]] + l.drop_first());
            vstd::seq_lib::lemma_multiset_commutative(seq![l[0]], l.drop_first());
            assert(seq![l[0]] =~= Seq::<(Seq<char>, Seq<char>)>::empty().push(l[0]));
        }
    }
}

/// Two sorted sequences holding the same multiset of pairs are equal.
pub proof fn lemma_sorted_multiset_unique(
    s1: Seq<(Seq<char>, Seq<char>)>,
    s2: Seq<(Seq<char>, Seq<char>)>,
)
    requires
        pairs_sorted(s1),
        pairs_sorted(s2),
        s1.to_multiset() == s2.to_multiset(),
    ensures
        s1 == s2,
    decreases s1.len(),
{
    broadcast use vstd::seq_lib::group_to_multiset_ensures;

    if s1.len() == 0 {
        assert(s1.to_multiset().len() == s1.len());
        assert(s2.to_multiset().len() == s2.len());
        assert(s2.len() == 0);
        assert(s1 =~= s2);
    } else {
        assert(s1.to_multiset().len() == s1.len());
        assert(s2.to_multiset().len() == s2.len());
        assert(s2.len() == s1.len());
        assert(s2.to_multiset().contains(s1[0])) by {
            assert(s1.contains(s1[0]));
        }
        assert(s1.to_multiset().contains(s2[0])) by {
            assert(s2.contains(s2[0]));
        }
        assert(s2.contains(s1[0]));
        assert(s1.contains(s2[0]));
        let j = choose|j: int| 0 <= j < s2.len() && s2[j] == s1[0];
        let k = choose|k: int| 0 <= k < s1.len() && s1[k] == s2[0];
        assert(j > 0 ==> pair_leq(s2[0], s2[j]));
        assert(k > 0 ==> pair_leq(s1[0], s1[k]));
        lemma_pair_refl_helper(s1[0]);
        lemma_pair_refl_helper(s2[0]);
        assert(pair_leq(s2[0], s1[0]));
        assert(pair_leq(s1[0], s2[0]));
        lemma_pair_antisym(s1[0], s2[0]);
        let t1 = s1.drop_first();
        let t2 = s2.drop_first();
        assert(t1.to_multiset() =~= t2.to_multiset()) by {
            assert(s1.remove(0) =~= t1);
            assert(s2.remove(0) =~= t2);
            assert(s1.remove(0).to_multiset() =~= s1.to_multiset().remove(s1[0]));
            assert(s2.remove(0).to_multiset() =~= s2.to_multiset().remove(s2[0]));
        }
        assert(pairs_sorted(t1)) by {
            assert(forall|i: int, j2: int|
                0 <= i < j2 < t1.len() ==> t1[i] == s1[i + 1] && t1[j2] == s1[j2 + 1]);
        }
        assert(pairs_sorted(t2)) by {
            assert(forall|i: int, j2: int|
                0 <= i < j2 < t2.len() ==> t2[i] == s2[i + 1] && t2[j2] == s2[j2 + 1]);
        }
        lemma_sorted_multiset_unique(t1, t2);
        assert(forall|k: int| 1 <= k < s1.len() ==> s1[k] == t1[k - 1] && s2[k] == t2[k - 1]);
        assert(s1 =~= s2);
    }
}

proof fn lemma_pair_refl_helper(a: (Seq<char>, Seq<char>))
    ensures
        pair_leq(a, a),
{
    lemma_lex_refl(a.1);
}

/// The mathematical image of a vector of character-vector pairs.
pub open spec fn pairs_view(q: Seq<(Vec<char>, Vec<char>)>) -> Seq<(Seq<char>, Seq<char>)> {
    q.map(|i: int, p: (Vec<char>, Vec<char>)| (p.0@, p.1@))
}

/// The mathematical image of a query: its pairs as character sequences.
pub open spec fn query_view(q: Seq<(String, String)>) -> Seq<(Seq<char>, Seq<char>)> {
    q.map(|i: int, p: (String, String)| (p.0@, p.1@))
}

// ---------------------------------------------------------------------------
// Executable sort.
// ---------------------------------------------------------------------------
/// Decides `lex_leq` on character vectors.
#[verifier::loop_isolation(false)]
fn lex_leq_exec(a: &Vec<char>, b: &Vec<char>) -> (r: bool)
    ensures
        r == lex_leq(a@, b@),
{
    let mut i: usize = 0;
    proof {
        assert(a@.skip(0) =~= a@);
        assert(b@.skip(0) =~= b@);
    }
    loop
        invariant
            i <= a@.len(),
            i <= b@.len(),
            lex_leq(a@, b@) == lex_leq(a@.skip(i as int), b@.skip(i as int)),
        decreases a@.len() - i,
    {
        proof {
            assert(a@.skip(i as int).len() == a@.len() - i);
        }
        if i == a.len() {
            return true;
        }
        if i == b.len() {
            return false;
        }
        let ca = a[i];
        let cb = b[i];
        proof {
            assert(a@.skip(i as int)[0] == a@[i as int]);
            assert(b@.skip(i as int)[0] == b@[i as int]);
        }
        if (ca as u32) < (cb as u32) {
            return true;
        }
        if (ca as u32) > (cb as u32) {
            return false;
        }
        proof {
            assert(a@.skip(i as int).drop_first() =~= a@.skip(i + 1));
            assert(b@.skip(i as int).drop_first() =~= b@.skip(i + 1));
        }
        i = i + 1;
    }
}

/// Decides `pair_leq` on character-vector pairs.
fn pair_leq_exec(a: &(Vec<char>, Vec<char>), b: &(Vec<char>, Vec<char>)) -> (r: bool)
    ensures
        r == pair_leq((a.0@, a.1@), (b.0@, b.1@)),
{
    if crate::text::chars_eq(&a.0, &b.0) {
        lex_leq_exec(&a.1, &b.1)
    } else {
        lex_leq_exec(&a.0, &b.0)
    }
}

/// Inserts `x` into a sorted vector of pairs, mirroring `insert_pair`.
fn insert_pair_exec(x: (Vec<char>, Vec<char>), mut v: Vec<(Vec<char>, Vec<char>)>) -> (r: Vec<
    (Vec<char>, Vec<char>),
>)
    ensures
        pairs_view(r@) == insert_pair((x.0@, x.1@), pairs_view(v@)),
    decreases v@.len(),
{
    if v.len() == 0 {
        let mut r: Vec<(Vec<char>, Vec<char>)> = Vec::new();
        r.push(x);
        proof {
            assert(pairs_view(r@) =~= insert_pair((x.0@, x.1@), pairs_view(v@)));
        }
        r
    } else if pair_leq_exec(&x, &v[0]) {
        proof {
            assert(pairs_view(v@)[0] == (v@[0].0@, v@[0].1@));
        }
        let ghost oldv = pairs_view(v@);
        v.insert(0, x);
        proof {
            assert(pairs_view(v@) =~= seq![(x.0@, x.1@)] + oldv);
        }
        v
    } else {
        proof {
            assert(pairs_view(v@)[0] == (v@[0].0@, v@[0].1@));
        }
        let ghost oldv = pairs_view(v@);
        let h = v.remove(0);
        proof {
            assert(pairs_view(v@) =~= oldv.drop_first());
        }
        let mut rest = insert_pair_exec(x, v);
        let mut r: Vec<(Vec<char>, Vec<char>)> = Vec::new();
        r.push(h);
        r.append(&mut rest);
        proof {
            assert(pairs_view(r@) =~= seq![oldv[0]] + insert_pair(
                (x.0@, x.1@),
                oldv.drop_first(),
            ));
        }
        r
    }
}

/// Sorts query pairs, mirroring `sort_pairs_spec`.
fn sort_pairs_exec(mut v: Vec<(Vec<char>, Vec<char>)>) -> (r: Vec<(Vec<char>, Vec<char>)>)
    ensures
        pairs_view(r@) == sort_pairs_spec(pairs_view(v@)),
    decreases v@.len(),
{
    if v.len() == 0 {
        proof {
            assert(pairs_view(v@).len() == 0);
        }
        v
    } else {
        let ghost oldv = pairs_view(v@);
        let h = v.remove(0);
        proof {
            assert(pairs_view(v@) =~= oldv.drop_first());
            assert((h.0@, h.1@) == oldv[0]);
        }
        let rest = sort_pairs_exec(v);
        insert_pair_exec(h, rest)
    }
}

// ---------------------------------------------------------------------------
// Serialization and hashing of the sorted pairs.
// ---------------------------------------------------------------------------
/// Canonical serialization of a pair list: each key and value with an
/// explicit length prefix, in order.
pub open spec fn canon_pairs(l: Seq<(Seq<char>, Seq<char>)>) -> Seq<char>
    decreases l.len(),
{
    if l.len() == 0 {
        Seq::<char>::empty()
    } else {
        enc_str(l[0].0) + enc_str(l[0].1) + canon_pairs(l.drop_first())
    }
}

proof fn lemma_canon_pairs_push(l: Seq<(Seq<char>, Seq<char>)>, x: (Seq<char>, Seq<char>))
    ensures
        canon_pairs(l.push(x)) == canon_pairs(l) + (enc_str(x.0) + enc_str(x.1)),
    decreases l.len(),
{
    if l.len() == 0 {
        assert(l.push(x).drop_first() =~= Seq::<(Seq<char>, Seq<char>)>::empty());
        assert(canon_pairs(l.push(x)) == (enc_str(x.0) + enc_str(x.1)) + canon_pairs(
            Seq::<(Seq<char>, Seq<char>)>::empty(),
        ));
        assert(canon_pairs(l.push(x)) =~= canon_pairs(l) + (enc_str(x.0) + enc_str(x.1)));
    } else {
        assert(l.push(x).drop_first() =~= l.drop_first().push(x));
        lemma_canon_pairs_push(l.drop_first(), x);
        assert(canon_pairs(l.push(x)) =~= canon_pairs(l) + (enc_str(x.0) + enc_str(x.1)));
    }
}

/// Appends the length-prefixed form of one field to `out`.
fn push_field_chars(out: &mut Vec<char>, f: &Vec<char>)
    ensures
        final(out)@ == old(out)@ + enc_str(f@),
{
    push_u64_dec(out, f.len() as u64);
    out.push(':');
    push_range(out, f, 0, f.len());
    proof {
        assert(f@.subrange(0, f@.len() as int) =~= f@);
        assert(final(out)@ =~= old(out)@ + enc_str(f@));
    }
}

/// Serializes a sorted pair list canonically.
#[verifier::loop_isolation(false)]
fn canon_pairs_exec(v: &Vec<(Vec<char>, Vec<char>)>) -> (r: Vec<char>)
    ensures
        r@ == canon_pairs(pairs_view(v@)),
{
    let mut out: Vec<char> = Vec::new();
    let n = v.len();
    let mut i: usize = 0;
    proof {
        assert(pairs_view(v@).take(0) =~= Seq::<(Seq<char>, Seq<char>)>::empty());
    }
    while i < n
        invariant
            i <= n,
            n == v@.len(),
            out@ == canon_pairs(pairs_view(v@).take(i as int)),
        decreases n - i,
    {
        proof {
            assert(pairs_view(v@)[i as int] == (v@[i as int].0@, v@[i as int].1@));
        }
        push_field_chars(&mut out, &v[i].0);
        push_field_chars(&mut out, &v[i].1);
        proof {
            assert(pairs_view(v@).take(i + 1) =~= pairs_view(v@).take(i as int).push(
                pairs_view(v@)[i as int],
            ));
            lemma_canon_pairs_push(pairs_view(v@).take(i as int), pairs_view(v@)[i as int]);
            assert(out@ =~= canon_pairs(pairs_view(v@).take(i + 1)));
        }
        i = i + 1;
    }
    proof {
        assert(pairs_view(v@).take(n as int) =~= pairs_view(v@));
    }
    out
}

/// The 32 lowercase hex digits of the MD5 digest of a string's UTF-8 bytes:
/// a function of the characters alone.
pub uninterp spec fn md5_hex_of(s: Seq<char>) -> Seq<char>;

/// Relies on `md5::compute` and `Digest`'s `LowerHex` rendering: the digest
/// of the input's UTF-8 bytes, shown as two lowercase hex digits per digest
/// byte — 32 characters, a function of the input alone.
#[verifier::external_body]
fn md5_hex(s: &str) -> (r: String)
    ensures
        r@ == md5_hex_of(s@),
        r@.len() == 32,
{
    format!("{:x}", md5::compute(s.as_bytes()))
}

// ---------------------------------------------------------------------------
// The cache key.
// ---------------------------------------------------------------------------
/// The two cache namespaces, with their differentiated time-to-live.
#[derive(Debug, Clone, Copy, PartialEq, Eq, Structural)]
pub enum CacheNamespace {
    Lessons,
    Courses,
}

/// The textual label of a namespace.
pub open spec fn namespace_label(ns: CacheNamespace) -> Seq<char> {
    match ns {
        CacheNamespace::Lessons => "lessons"@,
        CacheNamespace::Courses => "courses"@,
    }
}

/// The textual label of a namespace.
pub fn namespace_label_exec(ns: CacheNamespace) -> (r: &'static str)
    ensures
        r@ == namespace_label(ns),
{
    match ns {
        CacheNamespace::Lessons => "lessons",
        CacheNamespace::Courses => "courses",
    }
}

/// The derived store key: `{namespace}:{source}:{hash}`, where the hash is
/// taken over the canonical serialization of the sorted query pairs.
pub open spec fn cache_key_of(
    ns: CacheNamespace,
    source: Seq<char>,
    query: Seq<(Seq<char>, Seq<char>)>,
) -> Seq<char> {
    namespace_label(ns) + seq![':'] + source + seq![':'] + md5_hex_of(
        canon_pairs(sort_pairs_spec(query)),
    )
}

/// Derives the store key for a query against one source.
pub fn cache_key(ns: CacheNamespace, source: &str, query: &Vec<(String, String)>) -> (r: String)
    ensures
        r@ == cache_key_of(ns, source@, query_view(query@)),
{
    let mut pairs: Vec<(Vec<char>, Vec<char>)> = Vec::new();
    let n = query.len();
    let mut i: usize = 0;
    while i < n
        invariant
            i <= n,
            n == query@.len(),
            pairs_view(pairs@) =~= query_view(query@).take(i as int),
        decreases n - i,
    {
        let k = str_to_chars(query[i].0.as_str());
        let v = str_to_chars(query[i].1.as_str());
        let ghost kk = k@;
        let ghost vv = v@;
        let ghost oldp = pairs@;
        proof {
            assert(pairs_view(oldp).len() == oldp.len());
            assert(oldp.len() == i as int);
        }
        pairs.push((k, v));
        proof {
            assert(pairs@.len() == i + 1);
            assert(pairs@[i as int].0@ == kk);
            assert(pairs@[i as int].1@ == vv);
            assert(pairs_view(pairs@)[i as int] == (kk, vv));
            assert(kk == query@[i as int].0@);
            assert(vv == query@[i as int].1@);
            assert(query_view(query@)[i as int] == (query@[i as int].0@, query@[i as int].1@));
            assert(forall|m: int| 0 <= m < i ==> pairs@[m] == oldp[m]);
            assert(forall|m: int|
                0 <= m < i ==> pairs_view(pairs@)[m] == #[trigger] pairs_view(oldp)[m]);
            assert(pairs_view(pairs@) =~= query_view(query@).take(i + 1));
        }
        i = i + 1;
    }
    proof {
        assert(query_view(query@).take(n as int) =~= query_view(query@));
    }
    let sorted = sort_pairs_exec(pairs);
    let canon = canon_pairs_exec(&sorted);
    let canon_str = chars_to_string(&canon);
    let hash = md5_hex(canon_str.as_str());
    let mut out: Vec<char> = Vec::new();
    push_str_chars(&mut out, namespace_label_exec(ns));
    out.push(':');
    push_str_chars(&mut out, source);
    out.push(':');
    push_str_chars(&mut out, hash.as_str());
    proof {
        assert(out@ =~= cache_key_of(ns, source@, query_view(query@)));
    }
    chars_to_string(&out)
}

/// Law: the derived cache key is identical for any two queries holding the
/// same pairs, regardless of insertion order.
pub proof fn lemma_cache_key_permutation_invariant(
    ns: CacheNamespace,
    source: Seq<char>,
    q1: Seq<(Seq<char>, Seq<char>)>,
    q2: Seq<(Seq<char>, Seq<char>)>,
)
    requires
        q1.to_multiset() == q2.to_multiset(),
    ensures
        cache_key_of(ns, source, q1) == cache_key_of(ns, source, q2),
{
    lemma_sort_pairs_ensures(q1);
    lemma_sort_pairs_ensures(q2);
    lemma_sorted_multiset_unique(sort_pairs_spec(q1), sort_pairs_spec(q2));
}

} // verus!
