//! Lexicographic order on text and a stable sort by a text key, newest first.
use vstd::prelude::*;

verus! {

broadcast use vstd::seq_lib::group_seq_properties;

/// Lexicographic order on character sequences by code point, which is the
/// order `Ord for str` uses (UTF-8 preserves code point order).
pub open spec fn lex_lt(a: Seq<char>, b: Seq<char>) -> bool
    decreases a.len(),
{
    if a.len() == 0 {
        b.len() > 0
    } else if b.len() == 0 {
        false
    } else if a[0] != b[0] {
        a[0] < b[0]
    } else {
        lex_lt(a.drop_first(), b.drop_first())
    }
}

pub proof fn lemma_lex_irreflexive(a: Seq<char>)
    ensures
        !lex_lt(a, a),
    decreases a.len(),
{
    if a.len() > 0 {
        lemma_lex_irreflexive(a.drop_first());
    }
}

pub proof fn lemma_lex_transitive(a: Seq<char>, b: Seq<char>, c: Seq<char>)
    requires
        lex_lt(a, b),
        lex_lt(b, c),
    ensures
        lex_lt(a, c),
    decreases a.len(),
{
    if a.len() > 0 && b.len() > 0 && c.len() > 0 && a[0] == b[0] && b[0] == c[0] {
        lemma_lex_transitive(a.drop_first(), b.drop_first(), c.drop_first());
    }
}

pub proof fn lemma_lex_total(a: Seq<char>, b: Seq<char>)
    ensures
        a == b || lex_lt(a, b) || lex_lt(b, a),
    decreases a.len(),
{
    if a.len() > 0 && b.len() > 0 && a[0] == b[0] {
        lemma_lex_total(a.drop_first(), b.drop_first());
        if a.drop_first() == b.drop_first() {
            assert(a =~= seq![a[0]] + a.drop_first());
            assert(b =~= seq![b[0]] + b.drop_first());
        }
    } else if a.len() == 0 && b.len() == 0 {
        assert(a =~= b);
    }
}

pub proof fn lemma_lex_asymmetric(a: Seq<char>, b: Seq<char>)
    requires
        lex_lt(a, b),
    ensures
        !lex_lt(b, a),
{
    if lex_lt(b, a) {
        lemma_lex_transitive(a, b, a);
        lemma_lex_irreflexive(a);
    }
}

/// `a < b` in the order of `Ord for str`.
pub fn lex_less(a: &Vec<char>, b: &Vec<char>) -> (r: bool)
    ensures
        r == lex_lt(a@, b@),
{
    let mut i: usize = 0;
    assert(a@.skip(0) =~= a@);
    assert(b@.skip(0) =~= b@);
    while i < a.len() && i < b.len() && a[i] == b[i]
        invariant
            i <= a@.len(),
            i <= b@.len(),
            lex_lt(a@, b@) == lex_lt(a@.skip(i as int), b@.skip(i as int)),
        decreases a.len() - i,
    {
        assert(a@.skip(i as int).drop_first() =~= a@.skip(i + 1));
        assert(b@.skip(i as int).drop_first() =~= b@.skip(i + 1));
        i = i + 1;
    }
    if i == a.len() {
        i < b.len()
    } else if i == b.len() {
        false
    } else {
        a[i] < b[i]
    }
}

/// Values that are ordered by a text key.
pub trait SortKey: Sized {
    spec fn sort_key(&self) -> Seq<char>;

    fn key_chars(&self) -> (r: Vec<char>)
        ensures
            r@ == self.sort_key(),
    ;
}

/// The key function of a `SortKey` type.
pub open spec fn key_of<T: SortKey>() -> spec_fn(T) -> Seq<char> {
    |x: T| x.sort_key()
}

/// The number of leading elements whose key is not less than `k`: where an
/// element with key `k` goes so that it follows every element that sorts
/// with it or before it.
pub open spec fn insertion_point<T>(sorted: Seq<T>, key: spec_fn(T) -> Seq<char>, k: Seq<char>) -> int
    decreases sorted.len(),
{
    if sorted.len() == 0 {
        0
    } else if lex_lt(key(sorted[0]), k) {
        0
    } else {
        1 + insertion_point(sorted.drop_first(), key, k)
    }
}

/// Places `x` into a sequence that is ordered by descending key.
pub open spec fn insert_desc<T>(sorted: Seq<T>, key: spec_fn(T) -> Seq<char>, x: T) -> Seq<T> {
    sorted.insert(insertion_point(sorted, key, key(x)), x)
}

/// The elements of `s` by descending key; elements with equal keys keep
/// their order (`slice::sort_by` with the reversed key comparison).
pub open spec fn sorted_desc<T>(s: Seq<T>, key: spec_fn(T) -> Seq<char>) -> Seq<T>
    decreases s.len(),
{
    if s.len() == 0 {
        s
    } else {
        insert_desc(sorted_desc(s.drop_last(), key), key, s.last())
    }
}

/// Whether keys never increase along `s`.
pub open spec fn is_desc<T>(s: Seq<T>, key: spec_fn(T) -> Seq<char>) -> bool {
    forall|i: int, j: int|
        0 <= i < j < s.len() ==> !lex_lt(#[trigger] key(s[i]), #[trigger] key(s[j]))
}

/// The predicate "has key `k`".
pub open spec fn has_key<T>(key: spec_fn(T) -> Seq<char>, k: Seq<char>) -> spec_fn(T) -> bool {
    |x: T| key(x) == k
}

/// The elements of `s` whose key is `k`, in order.
pub open spec fn with_key<T>(s: Seq<T>, key: spec_fn(T) -> Seq<char>, k: Seq<char>) -> Seq<T> {
    s.filter(has_key(key, k))
}

proof fn lemma_insertion_point_at<T>(sorted: Seq<T>, key: spec_fn(T) -> Seq<char>, k: Seq<char>, p: int)
    requires
        0 <= p <= sorted.len(),
        forall|j: int| 0 <= j < p ==> !lex_lt(#[trigger] key(sorted[j]), k),
        p < sorted.len() ==> lex_lt(key(sorted[p]), k),
    ensures
        insertion_point(sorted, key, k) == p,
    decreases p,
{
    if p > 0 {
        assert(!lex_lt(key(sorted[0]), k));
        assert forall|j: int| 0 <= j < p - 1 implies !lex_lt(
            #[trigger] key(sorted.drop_first()[j]),
            k,
        ) by {
            assert(sorted.drop_first()[j] == sorted[j + 1]);
        }
        lemma_insertion_point_at(sorted.drop_first(), key, k, p - 1);
    }
}

proof fn lemma_insertion_point_facts<T>(sorted: Seq<T>, key: spec_fn(T) -> Seq<char>, k: Seq<char>)
    ensures
        0 <= insertion_point(sorted, key, k) <= sorted.len(),
        forall|j: int|
            0 <= j < insertion_point(sorted, key, k) ==> !lex_lt(#[trigger] key(sorted[j]), k),
        insertion_point(sorted, key, k) < sorted.len() ==> lex_lt(
            key(sorted[insertion_point(sorted, key, k)]),
            k,
        ),
    decreases sorted.len(),
{
    if sorted.len() > 0 && !lex_lt(key(sorted[0]), k) {
        lemma_insertion_point_facts(sorted.drop_first(), key, k);
        assert forall|j: int| 0 <= j < insertion_point(sorted, key, k) implies !lex_lt(
            #[trigger] key(sorted[j]),
            k,
        ) by {
            if j > 0 {
                assert(sorted[j] == sorted.drop_first()[j - 1]);
            }
        }
    }
}

/// Sorts by descending key, keeping the order of elements with equal keys.
pub fn sort_desc_stable<T: SortKey>(items: Vec<T>) -> (r: Vec<T>)
    ensures
        r@ == sorted_desc(items@, key_of::<T>()),
{
    let ghost orig = items@;
    let ghost key = key_of::<T>();
    let mut rest = items;
    let mut r: Vec<T> = Vec::new();
    let ghost mut i: int = 0;
    assert(orig.skip(0) =~= orig);
    assert(orig.take(0) =~= Seq::<T>::empty());
    while rest.len() > 0
        invariant
            0 <= i <= orig.len(),
            key == key_of::<T>(),
            rest@ == orig.skip(i),
            r@ == sorted_desc(orig.take(i), key),
        decreases rest@.len(),
    {
        let x = rest.remove(0);
        let kx = x.key_chars();
        let mut p: usize = 0;
        while p < r.len() && !lex_less(&r[p].key_chars(), &kx)
            invariant
                p <= r@.len(),
                key == key_of::<T>(),
                kx@ == key(x),
                forall|j: int| 0 <= j < p ==> !lex_lt(#[trigger] key(r@[j]), kx@),
            decreases r@.len() - p,
        {
            p = p + 1;
        }
        proof {
            lemma_insertion_point_at(r@, key, kx@, p as int);
            assert(orig.take(i + 1).drop_last() =~= orig.take(i));
            assert(orig.take(i + 1).last() == x);
            assert(orig.skip(i + 1) =~= orig.skip(i).drop_first());
        }
        r.insert(p, x);
        proof {
            i = i + 1;
        }
    }
    assert(orig.take(i) =~= orig);
    r
}

/// Sorting keeps exactly the given elements.
pub proof fn lemma_sorted_desc_permutes<T>(s: Seq<T>, key: spec_fn(T) -> Seq<char>)
    ensures
        sorted_desc(s, key).to_multiset() == s.to_multiset(),
    decreases s.len(),
{
    broadcast use vstd::seq_lib::to_multiset_insert, vstd::seq_lib::to_multiset_build;

    if s.len() > 0 {
        let r = sorted_desc(s.drop_last(), key);
        lemma_sorted_desc_permutes(s.drop_last(), key);
        lemma_insertion_point_facts(r, key, key(s.last()));
        assert(s =~= s.drop_last().push(s.last()));
    }
}

/// Sorting orders by descending key.
pub proof fn lemma_sorted_desc_is_desc<T>(s: Seq<T>, key: spec_fn(T) -> Seq<char>)
    ensures
        is_desc(sorted_desc(s, key), key),
    decreases s.len(),
{
    if s.len() > 0 {
        let r = sorted_desc(s.drop_last(), key);
        let x = s.last();
        let k = key(x);
        lemma_sorted_desc_is_desc(s.drop_last(), key);
        lemma_insertion_point_facts(r, key, k);
        let p = insertion_point(r, key, k);
        let out = r.insert(p, x);
        assert forall|j: int| p <= j < r.len() implies lex_lt(#[trigger] key(r[j]), k) by {
            if j > p {
                lemma_lex_total(key(r[j]), key(r[p]));
                if key(r[j]) != key(r[p]) {
                    assert(!lex_lt(key(r[p]), key(r[j])));
                    lemma_lex_transitive(key(r[j]), key(r[p]), k);
                }
            }
        }
        assert forall|a: int, b: int| 0 <= a < b < out.len() implies !lex_lt(
            #[trigger] key(out[a]),
            #[trigger] key(out[b]),
        ) by {
            if a < p && b < p {
                assert(out[a] == r[a] && out[b] == r[b]);
            } else if a < p && b == p {
                assert(out[a] == r[a] && out[b] == x);
            } else if a < p {
                assert(out[a] == r[a] && out[b] == r[b - 1]);
            } else if a == p {
                assert(out[a] == x && out[b] == r[b - 1]);
                lemma_lex_asymmetric(key(r[b - 1]), k);
            } else {
                assert(out[a] == r[a - 1] && out[b] == r[b - 1]);
            }
        }
    }
}

/// Sorting keeps the order of the elements that share a key.
pub proof fn lemma_sorted_desc_stable<T>(s: Seq<T>, key: spec_fn(T) -> Seq<char>, k: Seq<char>)
    ensures
        with_key(sorted_desc(s, key), key, k) == with_key(s, key, k),
    decreases s.len(),
{
    let pred = has_key(key, k);
    if s.len() == 0 {
    } else {
        let r = sorted_desc(s.drop_last(), key);
        let x = s.last();
        let kx = key(x);
        lemma_sorted_desc_stable(s.drop_last(), key, k);
        lemma_sorted_desc_is_desc(s.drop_last(), key);
        lemma_insertion_point_facts(r, key, kx);
        let p = insertion_point(r, key, kx);
        let front = r.take(p);
        let back = r.skip(p);
        assert(r =~= front + back);
        assert(r.insert(p, x) =~= front + (seq![x] + back));
        assert(s =~= s.drop_last().push(x));
        s.drop_last().lemma_filter_push(x, pred);
        Seq::<T>::filter_distributes_over_add(front, seq![x] + back, pred);
        Seq::<T>::filter_distributes_over_add(seq![x], back, pred);
        Seq::<T>::filter_distributes_over_add(front, back, pred);
        assert(r.filter(pred) == s.drop_last().filter(pred));
        if kx == k {
            assert forall|j: int| 0 <= j < back.len() implies !pred(back[j]) by {
                let q = p + j;
                assert(back[j] == r[q]);
                if q > p {
                    lemma_lex_total(key(r[q]), key(r[p]));
                    if key(r[q]) != key(r[p]) {
                        lemma_lex_transitive(key(r[q]), key(r[p]), kx);
                    }
                }
                lemma_lex_irreflexive(kx);
            }
            back.lemma_all_neg_filter_empty(pred);
            assert(seq![x].filter(pred) =~= seq![x]) by {
                Seq::<T>::empty().lemma_filter_push(x, pred);
                assert(Seq::<T>::empty().push(x) =~= seq![x]);
            }
            assert(back.filter(pred) =~= Seq::<T>::empty());
            assert(r.filter(pred) =~= front.filter(pred));
            assert(s.filter(pred) =~= front.filter(pred).push(x));
            assert(r.insert(p, x).filter(pred) =~= front.filter(pred) + seq![x]);
        } else {
            assert(seq![x].filter(pred) =~= Seq::<T>::empty()) by {
                Seq::<T>::empty().lemma_filter_push(x, pred);
                assert(Seq::<T>::empty().push(x) =~= seq![x]);
            }
            assert(s.filter(pred) == s.drop_last().filter(pred));
            assert(r.insert(p, x).filter(pred) =~= front.filter(pred) + back.filter(pred));
        }
    }
}

/// Sorting commutes with a map that keeps keys: sorting the images by the
/// image key gives the images of the sorted elements.
pub proof fn lemma_sorted_desc_map<T, U>(
    s: Seq<T>,
    key: spec_fn(T) -> Seq<char>,
    f: spec_fn(T) -> U,
    ukey: spec_fn(U) -> Seq<char>,
)
    requires
        forall|x: T| #[trigger] key(x) == ukey(f(x)),
    ensures
        sorted_desc(s, key).map_values(f) == sorted_desc(s.map_values(f), ukey),
    decreases s.len(),
{
    if s.len() > 0 {
        let r = sorted_desc(s.drop_last(), key);
        lemma_sorted_desc_map(s.drop_last(), key, f, ukey);
        assert(s.map_values(f).drop_last() =~= s.drop_last().map_values(f));
        let x = s.last();
        let rf = r.map_values(f);
        assert forall|j: int| 0 <= j < r.len() implies #[trigger] key(r[j]) == ukey(rf[j]) by {
            assert(key(r[j]) == ukey(f(r[j])));
        }
        lemma_insertion_point_facts(r, key, key(x));
        let p = insertion_point(r, key, key(x));
        assert(key(x) == ukey(f(x)));
        assert forall|j: int| 0 <= j < p implies !lex_lt(#[trigger] ukey(rf[j]), ukey(f(x))) by {
            assert(key(r[j]) == ukey(rf[j]));
        }
        if p < r.len() {
            assert(key(r[p]) == ukey(rf[p]));
        }
        lemma_insertion_point_at(rf, ukey, ukey(f(x)), p);
        assert(r.insert(p, x).map_values(f) =~= rf.insert(p, f(x)));
    }
}

} // verus!
