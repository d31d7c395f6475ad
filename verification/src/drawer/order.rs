//! Ordering rows by keys. Every table orders its rows by a tuple of fields; the tuple is
//! written out as a sequence of integers, compared element by element, a shorter sequence
//! coming first when it is a prefix of the other. A name ends in -1, below every
//! character, so that a name comes before any longer name it is a prefix of.
use vstd::prelude::*;

verus! {

/// Lexicographic order on integer sequences.
pub open spec fn key_lt(a: Seq<int>, b: Seq<int>) -> bool
    decreases a.len(),
{
    if a.len() == 0 {
        b.len() > 0
    } else if b.len() == 0 {
        false
    } else if a[0] < b[0] {
        true
    } else if a[0] > b[0] {
        false
    } else {
        key_lt(a.drop_first(), b.drop_first())
    }
}

pub proof fn lemma_key_lt_irreflexive(a: Seq<int>)
    ensures
        !key_lt(a, a),
    decreases a.len(),
{
    if a.len() > 0 {
        lemma_key_lt_irreflexive(a.drop_first());
    }
}

pub proof fn lemma_key_lt_transitive(a: Seq<int>, b: Seq<int>, c: Seq<int>)
    requires
        key_lt(a, b),
        key_lt(b, c),
    ensures
        key_lt(a, c),
    decreases a.len(),
{
    if a.len() > 0 && b.len() > 0 && c.len() > 0 && a[0] == b[0] && b[0] == c[0] {
        lemma_key_lt_transitive(a.drop_first(), b.drop_first(), c.drop_first());
    }
}

pub proof fn lemma_key_lt_total(a: Seq<int>, b: Seq<int>)
    requires
        a != b,
    ensures
        key_lt(a, b) || key_lt(b, a),
    decreases a.len(),
{
    if a.len() > 0 && b.len() > 0 && a[0] == b[0] {
        if a.drop_first() == b.drop_first() {
            assert(a =~= seq![a[0]] + a.drop_first());
            assert(b =~= seq![b[0]] + b.drop_first());
        }
        lemma_key_lt_total(a.drop_first(), b.drop_first());
    } else if a.len() == 0 && b.len() == 0 {
        assert(a =~= b);
    }
}

pub proof fn lemma_key_lt_asymmetric(a: Seq<int>, b: Seq<int>)
    requires
        key_lt(a, b),
    ensures
        !key_lt(b, a),
{
    if key_lt(b, a) {
        lemma_key_lt_transitive(a, b, a);
        lemma_key_lt_irreflexive(a);
    }
}

/// A key that comes first still comes first with anything after it, unless it is a
/// prefix of the other.
pub proof fn lemma_key_lt_append(a: Seq<int>, b: Seq<int>, x: Seq<int>, y: Seq<int>)
    requires
        key_lt(a, b),
        !a.is_prefix_of(b),
    ensures
        key_lt(a + x, b + y),
    decreases a.len(),
{
    assert(a.len() > 0) by {
        if a.len() == 0 {
            assert(a.is_prefix_of(b));
        }
    }
    assert(b.len() > 0);
    assert((a + x)[0] == a[0]);
    assert((b + y)[0] == b[0]);
    if a[0] == b[0] {
        assert((a + x).drop_first() =~= a.drop_first() + x);
        assert((b + y).drop_first() =~= b.drop_first() + y);
        assert(!a.drop_first().is_prefix_of(b.drop_first())) by {
            if a.drop_first().is_prefix_of(b.drop_first()) {
                assert forall|k: int| 0 <= k < a.len() implies a[k] == b[k] by {
                    if k > 0 {
                        assert(a.drop_first()[k - 1] == b.drop_first()[k - 1]);
                    }
                }
                assert(a.is_prefix_of(b));
            }
        }
        lemma_key_lt_append(a.drop_first(), b.drop_first(), x, y);
    }
}

/// `a` followed by `b` compares like the pair `(a, b)` when `a` carries its own end mark.
pub open spec fn ints_of(v: Seq<i128>) -> Seq<int> {
    v.map_values(|x: i128| x as int)
}

/// The key of row `x`.
pub open spec fn key_of(keys: Seq<Vec<i128>>, x: usize) -> Seq<int> {
    ints_of(keys[x as int]@)
}

/// Each row of `s` comes strictly before every later one.
pub open spec fn sorted_by(keys: Seq<Vec<i128>>, s: Seq<usize>) -> bool {
    forall|a: int, b: int|
        0 <= a < b < s.len() ==> key_lt(key_of(keys, s[a]), key_of(keys, s[b]))
}

/// Distinct rows have distinct keys.
pub open spec fn keys_distinct(keys: Seq<Vec<i128>>) -> bool {
    forall|x: usize, y: usize|
        x < keys.len() && y < keys.len() && x != y ==> key_of(keys, x) != key_of(keys, y)
}

/// Whether `a` comes before `b`.
pub fn key_less(a: &Vec<i128>, b: &Vec<i128>) -> (r: bool)
    ensures
        r == key_lt(ints_of(a@), ints_of(b@)),
{
    let mut i: usize = 0;
    assert(ints_of(a@).skip(0) =~= ints_of(a@));
    assert(ints_of(b@).skip(0) =~= ints_of(b@));
    while i < a.len() && i < b.len() && a[i] == b[i]
        invariant
            i <= a@.len(),
            i <= b@.len(),
            key_lt(ints_of(a@), ints_of(b@)) == key_lt(
                ints_of(a@).skip(i as int),
                ints_of(b@).skip(i as int),
            ),
        decreases a@.len() - i,
    {
        proof {
            let x = ints_of(a@).skip(i as int);
            let y = ints_of(b@).skip(i as int);
            assert(x.drop_first() =~= ints_of(a@).skip(i + 1));
            assert(y.drop_first() =~= ints_of(b@).skip(i + 1));
            assert(x[0] == a@[i as int] as int);
            assert(y[0] == b@[i as int] as int);
        }
        i += 1;
    }
    let ghost x = ints_of(a@).skip(i as int);
    let ghost y = ints_of(b@).skip(i as int);
    if i == a.len() {
        i < b.len()
    } else if i == b.len() {
        false
    } else {
        assert(x[0] == a@[i as int] as int);
        assert(y[0] == b@[i as int] as int);
        a[i] < b[i]
    }
}

/// The rows of `rows`, ordered by their keys. Rows with equal keys cannot occur: keys
/// of distinct rows differ.
pub fn sort_by_keys(keys: &Vec<Vec<i128>>, rows: &Vec<usize>) -> (r: Vec<usize>)
    requires
        forall|k: int| 0 <= k < rows@.len() ==> rows@[k] < keys@.len(),
        rows@.no_duplicates(),
        keys_distinct(keys@),
    ensures
        r@.len() == rows@.len(),
        r@.to_set() == rows@.to_set(),
        r@.no_duplicates(),
        sorted_by(keys@, r@),
{
    let mut out: Vec<usize> = Vec::new();
    let mut i: usize = 0;
    while i < rows.len()
        invariant
            i <= rows@.len(),
            forall|k: int| 0 <= k < rows@.len() ==> rows@[k] < keys@.len(),
            rows@.no_duplicates(),
            keys_distinct(keys@),
            out@.len() == i,
            out@.to_set() == rows@.take(i as int).to_set(),
            out@.no_duplicates(),
            forall|k: int| 0 <= k < out@.len() ==> out@[k] < keys@.len(),
            sorted_by(keys@, out@),
        decreases rows@.len() - i,
    {
        let x = rows[i];
        let mut p: usize = 0;
        while p < out.len() && key_less(&keys[out[p]], &keys[x]) == true
            invariant
                p <= out@.len(),
                x < keys@.len(),
                forall|k: int| 0 <= k < out@.len() ==> out@[k] < keys@.len(),
                forall|k: int| 0 <= k < p ==> key_lt(key_of(keys@, out@[k]), key_of(keys@, x)),
            decreases out@.len() - p,
        {
            p += 1;
        }
        proof {
            // x is new: it is not among the rows taken so far
            assert(!rows@.take(i as int).contains(x)) by {
                if rows@.take(i as int).contains(x) {
                    let k = choose|k: int| 0 <= k < i && rows@.take(i as int)[k] == x;
                    assert(rows@[k] == rows@[i as int]);
                }
            }
            assert(!out@.to_set().contains(x));
            // everything from p on comes after x
            assert forall|k: int| p <= k < out@.len() implies key_lt(
                key_of(keys@, x),
                key_of(keys@, out@[k]),
            ) by {
                if k > p {
                    assert(key_lt(key_of(keys@, out@[p as int]), key_of(keys@, out@[k])));
                }
                assert(out@[p as int] != x) by {
                    assert(out@.to_set().contains(out@[p as int]));
                }
                assert(!key_lt(key_of(keys@, out@[p as int]), key_of(keys@, x)));
                lemma_key_lt_total(key_of(keys@, out@[p as int]), key_of(keys@, x));
                if k > p {
                    lemma_key_lt_transitive(
                        key_of(keys@, x),
                        key_of(keys@, out@[p as int]),
                        key_of(keys@, out@[k]),
                    );
                }
            }
        }
        let ghost before = out@;
        out.insert(p, x);
        proof {
            before.insert_ensures(p as int, x);
            assert forall|a: int, b: int| 0 <= a < b < out@.len() implies key_lt(
                key_of(keys@, out@[a]),
                key_of(keys@, out@[b]),
            ) by {
                if b < p {
                } else if a < p && b == p {
                } else if a < p && b > p {
                    assert(out@[b] == before[b - 1]);
                } else if a == p {
                    assert(out@[b] == before[b - 1]);
                } else {
                    assert(out@[a] == before[a - 1]);
                    assert(out@[b] == before[b - 1]);
                }
            }
            assert(rows@.take(i + 1) =~= rows@.take(i as int).push(x));
            assert(out@.to_set() =~= before.to_set().insert(x)) by {
                assert forall|y: usize| out@.to_set().contains(y) implies before.to_set().insert(
                    x,
                ).contains(y) by {
                    let k = choose|k: int| 0 <= k < out@.len() && out@[k] == y;
                    if k < p {
                        assert(before[k] == y);
                    } else if k > p {
                        assert(before[k - 1] == y);
                    }
                }
                assert forall|y: usize| before.to_set().insert(x).contains(y) implies out@.to_set().contains(
                    y,
                ) by {
                    if y == x {
                        assert(out@[p as int] == x);
                    } else {
                        let k = choose|k: int| 0 <= k < before.len() && before[k] == y;
                        if k < p {
                            assert(out@[k] == y);
                        } else {
                            assert(out@[k + 1] == y);
                        }
                    }
                }
            }
            assert(rows@.take(i as int).push(x).to_set() =~= rows@.take(i as int).to_set().insert(
                x,
            )) by {
                assert forall|y: usize| rows@.take(i as int).push(x).to_set().contains(
                    y,
                ) implies rows@.take(i as int).to_set().insert(x).contains(y) by {
                    let k = choose|k: int|
                        0 <= k < i + 1 && rows@.take(i as int).push(x)[k] == y;
                    if k < i {
                        assert(rows@.take(i as int)[k] == y);
                    }
                }
                assert forall|y: usize| rows@.take(i as int).to_set().insert(x).contains(
                    y,
                ) implies rows@.take(i as int).push(x).to_set().contains(y) by {
                    if y == x {
                        assert(rows@.take(i as int).push(x)[i as int] == x);
                    } else {
                        let k = choose|k: int| 0 <= k < i && rows@.take(i as int)[k] == y;
                        assert(rows@.take(i as int).push(x)[k] == y);
                    }
                }
            }
            assert forall|a: int, b: int|
                0 <= a < out@.len() && 0 <= b < out@.len() && a != b implies out@[a]
                != out@[b] by {
                if a != p && b != p {
                    let a2 = if a < p {
                        a
                    } else {
                        a - 1
                    };
                    let b2 = if b < p {
                        b
                    } else {
                        b - 1
                    };
                    assert(out@[a] == before[a2]);
                    assert(out@[b] == before[b2]);
                } else if a == p {
                    let b2 = if b < p {
                        b
                    } else {
                        b - 1
                    };
                    assert(out@[b] == before[b2]);
                    assert(before.to_set().contains(before[b2]));
                } else {
                    let a2 = if a < p {
                        a
                    } else {
                        a - 1
                    };
                    assert(out@[a] == before[a2]);
                    assert(before.to_set().contains(before[a2]));
                }
            }
        }
        i += 1;
    }
    assert(rows@.take(rows@.len() as int) =~= rows@);
    out
}

/// Each row of `s` comes strictly before every later one, by the keys `key` gives them.
pub open spec fn sorted_with(key: spec_fn(usize) -> Seq<int>, s: Seq<usize>) -> bool {
    forall|a: int, b: int| 0 <= a < b < s.len() ==> key_lt(key(s[a]), key(s[b]))
}

/// Two orderings of the same rows by the same keys are the same ordering.
pub proof fn lemma_sorted_unique(key: spec_fn(usize) -> Seq<int>, s: Seq<usize>, t: Seq<usize>)
    requires
        sorted_with(key, s),
        sorted_with(key, t),
        s.to_set() == t.to_set(),
        s.no_duplicates(),
        t.no_duplicates(),
    ensures
        s == t,
    decreases s.len(),
{
    s.unique_seq_to_set();
    t.unique_seq_to_set();
    if s.len() > 0 {
        // the first row of each comes before every other row of the same set
        assert(s[0] == t[0]) by {
            if s[0] != t[0] {
                assert(t.to_set().contains(s[0]));
                let j = choose|j: int| 0 <= j < t.len() && t[j] == s[0];
                assert(s.to_set().contains(t[0]));
                let i = choose|i: int| 0 <= i < s.len() && s[i] == t[0];
                assert(j > 0);
                assert(i > 0);
                assert(key_lt(key(t[0]), key(t[j])));
                assert(key_lt(key(s[0]), key(s[i])));
                lemma_key_lt_asymmetric(key(t[0]), key(s[0]));
            }
        }
        let s2 = s.drop_first();
        let t2 = t.drop_first();
        assert(s2.to_set() =~= t2.to_set()) by {
            assert forall|y: usize| s2.to_set().contains(y) implies t2.to_set().contains(y) by {
                let i = choose|i: int| 0 <= i < s2.len() && s2[i] == y;
                assert(s[i + 1] == y);
                assert(t.to_set().contains(y));
                let j = choose|j: int| 0 <= j < t.len() && t[j] == y;
                assert(j != 0);
                assert(t2[j - 1] == y);
            }
            assert forall|y: usize| t2.to_set().contains(y) implies s2.to_set().contains(y) by {
                let i = choose|i: int| 0 <= i < t2.len() && t2[i] == y;
                assert(t[i + 1] == y);
                assert(s.to_set().contains(y));
                let j = choose|j: int| 0 <= j < s.len() && s[j] == y;
                assert(j != 0);
                assert(s2[j - 1] == y);
            }
        }
        assert forall|a: int, b: int| 0 <= a < b < s2.len() implies key_lt(
            key(s2[a]),
            key(s2[b]),
        ) by {
            assert(s2[a] == s[a + 1]);
            assert(s2[b] == s[b + 1]);
        }
        assert forall|a: int, b: int| 0 <= a < b < t2.len() implies key_lt(
            key(t2[a]),
            key(t2[b]),
        ) by {
            assert(t2[a] == t[a + 1]);
            assert(t2[b] == t[b + 1]);
        }
        lemma_sorted_unique(key, s2, t2);
        assert(s =~= seq![s[0]] + s2);
        assert(t =~= seq![t[0]] + t2);
    } else {
        if t.len() > 0 {
            assert(t.to_set().contains(t[0]));
        }
        assert(s =~= t);
    }
}

/// Rows whose keys all differ can always be put in order: some ordering of any rows, each
/// once, has every row before every later one.
pub proof fn lemma_sortable(key: spec_fn(usize) -> Seq<int>, s: Seq<usize>) -> (t: Seq<usize>)
    requires
        s.no_duplicates(),
        forall|x: usize, y: usize| x != y ==> #[trigger] key(x) != #[trigger] key(y),
    ensures
        t.no_duplicates(),
        t.to_set() == s.to_set(),
        sorted_with(key, t),
{
    broadcast use vstd::multiset::group_multiset_axioms;
    broadcast use vstd::seq_lib::group_to_multiset_ensures;

    let leq = |a: usize, b: usize| a == b || key_lt(key(a), key(b));
    assert(vstd::relations::total_ordering(leq)) by {
        assert forall|a: usize| #[trigger] leq(a, a) by {}
        assert forall|a: usize, b: usize| #[trigger] leq(a, b) && #[trigger] leq(b, a) implies a
            == b by {
            if a != b {
                lemma_key_lt_asymmetric(key(a), key(b));
            }
        }
        assert forall|a: usize, b: usize, c: usize| #[trigger] leq(a, b) && #[trigger] leq(
            b,
            c,
        ) implies #[trigger] leq(a, c) by {
            if a != b && b != c {
                lemma_key_lt_transitive(key(a), key(b), key(c));
            }
        }
        assert forall|a: usize, b: usize| #[trigger] leq(a, b) || #[trigger] leq(b, a) by {
            if a != b {
                lemma_key_lt_total(key(a), key(b));
            }
        }
    }
    let t = s.sort_by(leq);
    s.lemma_sort_by_ensures(leq);
    s.lemma_multiset_has_no_duplicates();
    assert forall|x: usize| t.to_multiset().contains(x) implies t.to_multiset().count(x) == 1 by {
        assert(s.to_multiset().contains(x));
    }
    t.lemma_multiset_has_no_duplicates_conv();
    assert(t.to_set() =~= s.to_set()) by {
        assert forall|x: usize| t.to_set().contains(x) <==> s.to_set().contains(x) by {
            assert(t.contains(x) <==> t.to_multiset().count(x) > 0);
            assert(s.contains(x) <==> s.to_multiset().count(x) > 0);
        }
    }
    assert forall|a: int, b: int| 0 <= a < b < t.len() implies key_lt(key(t[a]), key(t[b])) by {
        assert(leq(t[a], t[b]));
        assert(t[a] != t[b]);
    }
    t
}

} // verus!
