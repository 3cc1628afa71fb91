//! Text ordering and stable sorting by a text key.
use vstd::prelude::*;

verus! {

/// `a` comes strictly before `b` in lexicographic order of code points
/// (the order of `String`'s `Ord`, since UTF-8 preserves code point order).
pub open spec fn text_lt(a: Seq<char>, b: Seq<char>) -> bool
    decreases a.len(),
{
    if a.len() == 0 {
        b.len() > 0
    } else if b.len() == 0 {
        false
    } else if a[0] != b[0] {
        (a[0] as int) < (b[0] as int)
    } else {
        text_lt(a.drop_first(), b.drop_first())
    }
}

/// `a < b` on strings.
pub fn text_less(a: &String, b: &String) -> (r: bool)
    ensures
        r == text_lt(a@, b@),
{
    let x = crate::text::chars_of(a.as_str());
    let y = crate::text::chars_of(b.as_str());
    let mut i: usize = 0;
    assert(a@.skip(0) =~= a@);
    assert(b@.skip(0) =~= b@);
    while i < x.len() && i < y.len() && x[i] == y[i]
        invariant
            0 <= i <= x@.len(),
            i <= y@.len(),
            x@ == a@,
            y@ == b@,
            text_lt(a@, b@) == text_lt(a@.skip(i as int), b@.skip(i as int)),
        decreases x@.len() - i,
    {
        assert(a@.skip((i + 1) as int) == a@.skip(i as int).drop_first());
        assert(b@.skip((i + 1) as int) == b@.skip(i as int).drop_first());
        i = i + 1;
    }
    if i == x.len() {
        i < y.len()
    } else if i == y.len() {
        false
    } else {
        x[i] < y[i]
    }
}

/// Things with a sort order: `a.precedes(b)` when `a` sorts strictly before `b`.
pub trait SortKey: Sized {
    spec fn precedes(&self, other: &Self) -> bool;

    fn sorts_before(&self, other: &Self) -> (r: bool)
        ensures
            r == self.precedes(other),
    ;
}

/// How many elements of `s` that `x` does not precede.
pub open spec fn rank_of<T: SortKey>(s: Seq<T>, x: T) -> int
    decreases s.len(),
{
    if s.len() == 0 {
        0
    } else {
        rank_of(s.drop_last(), x) + if x.precedes(&s.last()) { 0int } else { 1int }
    }
}

/// `x` inserted after every element of the sorted `s` that it does not precede.
pub open spec fn insert_sorted<T: SortKey>(s: Seq<T>, x: T) -> Seq<T> {
    let p = rank_of(s, x);
    s.take(p) + seq![x] + s.skip(p)
}

/// `s` stably sorted: elements that do not precede one another keep their order.
pub open spec fn stable_sorted<T: SortKey>(s: Seq<T>) -> Seq<T>
    decreases s.len(),
{
    if s.len() == 0 {
        s
    } else {
        insert_sorted(stable_sorted(s.drop_last()), s.last())
    }
}

proof fn lemma_rank_bounds<T: SortKey>(s: Seq<T>, x: T)
    ensures
        0 <= rank_of(s, x) <= s.len(),
    decreases s.len(),
{
    if s.len() > 0 {
        lemma_rank_bounds(s.drop_last(), x);
    }
}

proof fn lemma_sorted_len<T: SortKey>(s: Seq<T>)
    ensures
        stable_sorted(s).len() == s.len(),
    decreases s.len(),
{
    if s.len() > 0 {
        lemma_sorted_len(s.drop_last());
        lemma_rank_bounds(stable_sorted(s.drop_last()), s.last());
    }
}

/// Stable sort: what `sort_by` with the same order does.
pub fn stable_sort<T: SortKey>(v: Vec<T>) -> (out: Vec<T>)
    ensures
        out@ == stable_sorted(v@),
{
    let ghost orig = v@;
    let mut pending = v;
    let mut out: Vec<T> = Vec::new();
    let mut k: usize = 0;
    assert(orig.len() == pending.len());
    while pending.len() > 0
        invariant
            k <= orig.len(),
            orig.len() <= usize::MAX,
            pending@ == orig.skip(k as int),
            out@ == stable_sorted(orig.take(k as int)),
            out@.len() == k,
        decreases pending@.len(),
    {
        let x = pending.remove(0);
        assert(x == orig[k as int]);
        let mut p: usize = 0;
        let mut i: usize = 0;
        while i < out.len()
            invariant
                0 <= i <= out@.len(),
                p <= i,
                p == rank_of(out@.take(i as int), x),
            decreases out@.len() - i,
        {
            assert(out@.take((i + 1) as int).drop_last() == out@.take(i as int));
            if !x.sorts_before(&out[i]) {
                p = p + 1;
            }
            i = i + 1;
        }
        assert(out@.take(out@.len() as int) == out@);
        proof {
            assert(orig.take((k + 1) as int).drop_last() == orig.take(k as int));
            assert(orig.take((k + 1) as int).last() == orig[k as int]);
            lemma_sorted_len(orig.take(k as int));
        }
        out.insert(p, x);
        assert(out@ =~= stable_sorted(orig.take((k + 1) as int)));
        k = k + 1;
        assert(pending@ =~= orig.skip(k as int));
    }
    assert(orig.take(k as int) == orig);
    out
}


proof fn lemma_insert_members<T: SortKey>(s: Seq<T>, x: T)
    ensures
        forall|j: int| 0 <= j < insert_sorted(s, x).len() ==> (insert_sorted(s, x)[j] == x || s.contains(#[trigger] insert_sorted(s, x)[j])),
        insert_sorted(s, x).len() == s.len() + 1,
{
    lemma_rank_bounds(s, x);
    let p = rank_of(s, x);
    assert forall|j: int| 0 <= j < insert_sorted(s, x).len() implies (insert_sorted(s, x)[j] == x || s.contains(#[trigger] insert_sorted(s, x)[j])) by {
        if j < p {
            assert(insert_sorted(s, x)[j] == s[j]);
        } else if j > p {
            assert(insert_sorted(s, x)[j] == s[j - 1]);
        }
    }
}

/// Every element of a stably sorted sequence comes from the sequence.
pub proof fn lemma_stable_sorted_members<T: SortKey>(s: Seq<T>)
    ensures
        forall|j: int| 0 <= j < stable_sorted(s).len() ==> s.contains(#[trigger] stable_sorted(s)[j]),
        stable_sorted(s).len() == s.len(),
    decreases s.len(),
{
    if s.len() > 0 {
        lemma_stable_sorted_members(s.drop_last());
        lemma_insert_members(stable_sorted(s.drop_last()), s.last());
        assert forall|j: int| 0 <= j < stable_sorted(s).len() implies s.contains(#[trigger] stable_sorted(s)[j]) by {
            let y = stable_sorted(s)[j];
            if y != s.last() {
                let k = choose|k: int| 0 <= k < s.drop_last().len() && s.drop_last()[k] == y;
                assert(s[k] == y);
            } else {
                assert(s[s.len() - 1] == y);
            }
        }
    }
}


/// The order among the elements of `s` is one a sort can rely on: nothing
/// precedes itself, precedence is transitive, and so is being tied (neither
/// precedes the other).
pub open spec fn orders_well<T: SortKey>(s: Seq<T>) -> bool {
    &&& forall|a: T| s.contains(a) ==> !#[trigger] a.precedes(&a)
    &&& forall|a: T, b: T, c: T|
        #![trigger a.precedes(&b), b.precedes(&c)]
        s.contains(a) && s.contains(b) && s.contains(c) && a.precedes(&b) && b.precedes(&c) ==> a.precedes(&c)
    &&& forall|a: T, b: T, c: T|
        #![trigger a.precedes(&b), b.precedes(&c)]
        s.contains(a) && s.contains(b) && s.contains(c) && !a.precedes(&b) && !b.precedes(&a)
            && !b.precedes(&c) && !c.precedes(&b) ==> !a.precedes(&c) && !c.precedes(&a)
}

/// No element precedes an element before it.
pub open spec fn in_order<T: SortKey>(s: Seq<T>) -> bool {
    forall|i: int, j: int| #![trigger s[i], s[j]] 0 <= i < j < s.len() ==> !s[j].precedes(&s[i])
}

/// In a sequence in order, once `x` precedes an element it precedes all later ones.
proof fn lemma_precedes_onward<T: SortKey>(s: Seq<T>, t: Seq<T>, x: T, i: int, j: int)
    requires
        orders_well(s),
        in_order(t),
        forall|k: int| 0 <= k < t.len() ==> s.contains(#[trigger] t[k]),
        s.contains(x),
        0 <= i < j < t.len(),
        x.precedes(&t[i]),
    ensures
        x.precedes(&t[j]),
{
    let a = t[i];
    let b = t[j];
    assert(s.contains(a));
    assert(s.contains(b));
    assert(!b.precedes(&a));
    if a.precedes(&b) {
        assert(x.precedes(&a) && a.precedes(&b));
    } else if !x.precedes(&b) {
        if b.precedes(&x) {
            assert(b.precedes(&x) && x.precedes(&a));
        } else {
            // `x` is tied with `b`, and `b` with `a`: so `x` is tied with `a`.
            assert(!x.precedes(&b) && !b.precedes(&x) && !b.precedes(&a) && !a.precedes(&b));
        }
    }
}

/// The elements of an ordered sequence that `x` does not precede are exactly
/// its first `rank_of` elements.
proof fn lemma_rank_splits<T: SortKey>(s: Seq<T>, t: Seq<T>, x: T)
    requires
        orders_well(s),
        in_order(t),
        forall|k: int| 0 <= k < t.len() ==> s.contains(#[trigger] t[k]),
        s.contains(x),
    ensures
        0 <= rank_of(t, x) <= t.len(),
        forall|k: int| #![trigger t[k]] 0 <= k < rank_of(t, x) ==> !x.precedes(&t[k]),
        forall|k: int| #![trigger t[k]] rank_of(t, x) <= k < t.len() ==> x.precedes(&t[k]),
    decreases t.len(),
{
    if t.len() > 0 {
        let d = t.drop_last();
        let n = t.len() - 1;
        assert forall|k: int| 0 <= k < d.len() implies #[trigger] d[k] == t[k] by {}
        assert(in_order(d)) by {
            assert forall|i: int, j: int| #![trigger d[i], d[j]] 0 <= i < j < d.len() implies !d[j].precedes(&d[i]) by {
                assert(d[i] == t[i] && d[j] == t[j]);
            }
        }
        assert forall|k: int| 0 <= k < d.len() implies s.contains(#[trigger] d[k]) by {
            assert(d[k] == t[k]);
        }
        lemma_rank_splits(s, d, x);
        if !x.precedes(&t[n]) {
            assert forall|k: int| #![trigger t[k]] 0 <= k < n implies !x.precedes(&t[k]) by {
                if x.precedes(&t[k]) {
                    lemma_precedes_onward(s, t, x, k, n);
                }
            }
            assert(rank_of(d, x) == n) by {
                if rank_of(d, x) < n {
                    let k = rank_of(d, x);
                    assert(x.precedes(&d[k]));
                    assert(d[k] == t[k]);
                }
            }
        }
        assert forall|k: int| #![trigger t[k]] 0 <= k < rank_of(t, x) implies !x.precedes(&t[k]) by {
            if k < n {
                assert(d[k] == t[k]);
            }
        }
        assert forall|k: int| #![trigger t[k]] rank_of(t, x) <= k < t.len() implies x.precedes(&t[k]) by {
            if k < n {
                assert(d[k] == t[k]);
            }
        }
    }
}

/// Sorting puts the elements in order, when the order is one a sort can rely on.
pub proof fn law_stable_sort_in_order<T: SortKey>(s: Seq<T>)
    requires
        orders_well(s),
    ensures
        in_order(stable_sorted(s)),
    decreases s.len(),
{
    if s.len() > 0 {
        let d = s.drop_last();
        let x = s.last();
        assert(orders_well(d)) by {
            assert forall|a: T| d.contains(a) implies s.contains(a) by {
                let k = choose|k: int| 0 <= k < d.len() && d[k] == a;
                assert(s[k] == a);
            }
        }
        law_stable_sort_in_order(d);
        let t = stable_sorted(d);
        lemma_stable_sorted_members(d);
        assert forall|k: int| 0 <= k < t.len() implies s.contains(#[trigger] t[k]) by {
            let m = choose|m: int| 0 <= m < d.len() && d[m] == t[k];
            assert(s[m] == t[k]);
        }
        assert(s.contains(x)) by {
            assert(s[s.len() - 1] == x);
        }
        lemma_rank_splits(s, t, x);
        let p = rank_of(t, x);
        let u = stable_sorted(s);
        assert(u == t.take(p) + seq![x] + t.skip(p));
        assert forall|k: int| 0 <= k < u.len() implies #[trigger] u[k] == (if k < p { t[k] } else if k == p { x } else { t[k - 1] }) by {}
        assert forall|i: int, j: int| #![trigger u[i], u[j]] 0 <= i < j < u.len() implies !u[j].precedes(&u[i]) by {
            if j < p {
            } else if j == p {
            } else if i < p {
            } else if i == p {
                let y = t[j - 1];
                assert(x.precedes(&y));
                if y.precedes(&x) {
                    assert(x.precedes(&y) && y.precedes(&x));
                    assert(s.contains(y));
                    assert(!x.precedes(&x));
                }
            } else {
            }
        }
    }
}

/// Ordering by a text key, ascending, is an order a sort can rely on.
pub proof fn lemma_text_key_orders_well<T: SortKey>(s: Seq<T>, key: spec_fn(T) -> Seq<char>)
    requires
        forall|a: T, b: T| #[trigger] a.precedes(&b) == text_lt(key(a), key(b)),
    ensures
        orders_well(s),
{
    assert forall|a: T| s.contains(a) implies !#[trigger] a.precedes(&a) by {
        lemma_text_lt_irreflexive(key(a));
    }
    assert forall|a: T, b: T, c: T|
        #![trigger a.precedes(&b), b.precedes(&c)]
        s.contains(a) && s.contains(b) && s.contains(c) && a.precedes(&b) && b.precedes(&c) implies a.precedes(&c) by {
        lemma_text_lt_transitive(key(a), key(b), key(c));
    }
    assert forall|a: T, b: T, c: T|
        #![trigger a.precedes(&b), b.precedes(&c)]
        s.contains(a) && s.contains(b) && s.contains(c) && !a.precedes(&b) && !b.precedes(&a)
            && !b.precedes(&c) && !c.precedes(&b) implies !a.precedes(&c) && !c.precedes(&a) by {
        lemma_text_lt_total(key(a), key(b));
        lemma_text_lt_total(key(b), key(c));
        lemma_text_lt_irreflexive(key(a));
    }
}

/// Ordering by a text key, descending, is an order a sort can rely on.
pub proof fn lemma_text_key_desc_orders_well<T: SortKey>(s: Seq<T>, key: spec_fn(T) -> Seq<char>)
    requires
        forall|a: T, b: T| #[trigger] a.precedes(&b) == text_lt(key(b), key(a)),
    ensures
        orders_well(s),
{
    assert forall|a: T| s.contains(a) implies !#[trigger] a.precedes(&a) by {
        lemma_text_lt_irreflexive(key(a));
    }
    assert forall|a: T, b: T, c: T|
        #![trigger a.precedes(&b), b.precedes(&c)]
        s.contains(a) && s.contains(b) && s.contains(c) && a.precedes(&b) && b.precedes(&c) implies a.precedes(&c) by {
        lemma_text_lt_transitive(key(c), key(b), key(a));
    }
    assert forall|a: T, b: T, c: T|
        #![trigger a.precedes(&b), b.precedes(&c)]
        s.contains(a) && s.contains(b) && s.contains(c) && !a.precedes(&b) && !b.precedes(&a)
            && !b.precedes(&c) && !c.precedes(&b) implies !a.precedes(&c) && !c.precedes(&a) by {
        lemma_text_lt_total(key(a), key(b));
        lemma_text_lt_total(key(b), key(c));
        lemma_text_lt_irreflexive(key(a));
    }
}

/// The index of the first element satisfying `p`.
pub open spec fn first_match<A>(s: Seq<A>, p: spec_fn(A) -> bool) -> Option<int>
    decreases s.len(),
{
    if s.len() == 0 {
        None
    } else {
        match first_match(s.drop_last(), p) {
            Some(i) => Some(i),
            None => if p(s.last()) { Some(s.len() - 1) } else { None },
        }
    }
}

/// A first match in a prefix is the first match of the whole sequence.
pub proof fn lemma_first_match_prefix<A>(s: Seq<A>, p: spec_fn(A) -> bool, i: int)
    requires
        0 <= i < s.len(),
        first_match(s.take(i), p) is None,
        p(s[i]),
    ensures
        first_match(s, p) == Some(i),
    decreases s.len() - i,
{
    if s.len() > i + 1 {
        assert(s.drop_last().take(i) == s.take(i));
        assert(s.drop_last()[i] == s[i]);
        lemma_first_match_prefix(s.drop_last(), p, i);
    } else {
        assert(s.drop_last() == s.take(i));
    }
}

/// Extending a prefix without a match by a non-matching element keeps it without one.
pub proof fn lemma_first_match_step<A>(s: Seq<A>, p: spec_fn(A) -> bool, i: int)
    requires
        0 <= i < s.len(),
        first_match(s.take(i), p) is None,
        !p(s[i]),
    ensures
        first_match(s.take(i + 1), p) is None,
{
    assert(s.take(i + 1).drop_last() == s.take(i));
}


/// `first_match` finds the first element that satisfies `p`, and finds
/// nothing only when no element does.
pub proof fn lemma_first_match_spec<A>(s: Seq<A>, p: spec_fn(A) -> bool)
    ensures
        match first_match(s, p) {
            Some(i) => 0 <= i < s.len() && p(s[i]) && forall|j: int| 0 <= j < i ==> !p(#[trigger] s[j]),
            None => forall|j: int| 0 <= j < s.len() ==> !p(#[trigger] s[j]),
        },
    decreases s.len(),
{
    if s.len() > 0 {
        let d = s.drop_last();
        lemma_first_match_spec(d, p);
        match first_match(d, p) {
            Some(i) => {
                assert forall|j: int| 0 <= j < i implies !p(#[trigger] s[j]) by {
                    assert(s[j] == d[j]);
                }
                assert(s[i] == d[i]);
            },
            None => {
                assert forall|j: int| 0 <= j < s.len() - 1 implies !p(#[trigger] s[j]) by {
                    assert(s[j] == d[j]);
                }
            },
        }
    }
}

/// No text comes before itself.
pub proof fn lemma_text_lt_irreflexive(a: Seq<char>)
    ensures
        !text_lt(a, a),
    decreases a.len(),
{
    if a.len() > 0 {
        lemma_text_lt_irreflexive(a.drop_first());
    }
}

/// Of two different texts, one comes first, and not both.
pub proof fn lemma_text_lt_total(a: Seq<char>, b: Seq<char>)
    ensures
        a != b ==> (text_lt(a, b) || text_lt(b, a)),
        !(text_lt(a, b) && text_lt(b, a)),
    decreases a.len(),
{
    if a.len() > 0 && b.len() > 0 {
        lemma_text_lt_total(a.drop_first(), b.drop_first());
        if a != b && a[0] == b[0] {
            assert(a.drop_first() != b.drop_first()) by {
                if a.drop_first() == b.drop_first() {
                    assert(a =~= seq![a[0]] + a.drop_first());
                    assert(b =~= seq![b[0]] + b.drop_first());
                }
            }
        }
        if a[0] != b[0] {
            assert((a[0] as int) != (b[0] as int));
        }
    } else if a.len() == 0 && b.len() == 0 {
        assert(a =~= b);
    }
}

/// The text order is transitive.
pub proof fn lemma_text_lt_transitive(a: Seq<char>, b: Seq<char>, c: Seq<char>)
    requires
        text_lt(a, b),
        text_lt(b, c),
    ensures
        text_lt(a, c),
    decreases a.len(),
{
    if a.len() > 0 && b.len() > 0 && c.len() > 0 {
        if a[0] == b[0] && b[0] == c[0] {
            lemma_text_lt_transitive(a.drop_first(), b.drop_first(), c.drop_first());
        }
    }
}

/// `s` is strictly increasing.
pub open spec fn strictly_sorted(s: Seq<Seq<char>>) -> bool {
    forall|i: int, j: int| 0 <= i < j < s.len() ==> text_lt(s[i], s[j])
}


/// Inserts `x` into a strictly increasing list of texts, unless it is there.
pub fn insert_sorted_unique(out: &mut Vec<String>, x: String)
    requires
        strictly_sorted(crate::validate::views(old(out)@)),
    ensures
        strictly_sorted(crate::validate::views(final(out)@)),
        crate::validate::views(final(out)@).to_set() == crate::validate::views(old(out)@).to_set().insert(x@),
{
    let ghost v = crate::validate::views(out@);
    let mut p: usize = 0;
    while p < out.len() && text_less(&out[p], &x)
        invariant
            0 <= p <= out@.len(),
            v == crate::validate::views(out@),
            forall|k: int| 0 <= k < p ==> text_lt(#[trigger] v[k], x@),
        decreases out@.len() - p,
    {
        p = p + 1;
    }
    if p < out.len() && out[p] == x {
        assert(v.to_set().insert(x@) =~= v.to_set()) by {
            assert(v[p as int] == x@);
        }
        return;
    }
    proof {
        if p < v.len() {
            lemma_text_lt_total(v[p as int], x@);
        }
    }
    out.insert(p, x);
    let ghost w = crate::validate::views(out@);
    assert(w =~= v.take(p as int).push(x@) + v.skip(p as int));
    assert forall|i: int, j: int| 0 <= i < j < w.len() implies text_lt(w[i], w[j]) by {
        if j < p {
        } else if j == p {
        } else if i < p {
            assert(w[j] == v[j - 1]);
            if i < p {
                if p < v.len() {
                    lemma_text_lt_transitive(v[i], x@, v[p as int]);
                    if j - 1 > p {
                        lemma_text_lt_transitive(v[i], v[p as int], v[j - 1]);
                    }
                }
            }
        } else if i == p {
            assert(w[j] == v[j - 1]);
            if j - 1 > p {
                lemma_text_lt_transitive(x@, v[p as int], v[j - 1]);
            }
        } else {
            assert(w[i] == v[i - 1]);
            assert(w[j] == v[j - 1]);
        }
    }
    assert(w.to_set() =~= v.to_set().insert(x@)) by {
        assert forall|f: Seq<char>| w.to_set().contains(f) implies v.to_set().insert(x@).contains(f) by {
            let k = choose|k: int| 0 <= k < w.len() && w[k] == f;
            if k < p {
                assert(v[k] == f);
            } else if k > p {
                assert(v[k - 1] == f);
            }
        }
        assert forall|f: Seq<char>| v.to_set().insert(x@).contains(f) implies w.to_set().contains(f) by {
            if f == x@ {
                assert(w[p as int] == f);
            } else {
                let k = choose|k: int| 0 <= k < v.len() && v[k] == f;
                if k < p {
                    assert(w[k] == f);
                } else {
                    assert(w[k + 1] == f);
                }
            }
        }
    }
}

} // verus!
