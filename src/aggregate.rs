use vstd::prelude::*;

use crate::measurement::Quaternion;

verus! {

/// What one module gave in a run, seen as its identifier and its outcome.
pub type Outcome = (Seq<char>, Option<Quaternion>);

/// Lexicographic order on identifiers from position `i` on, by code point.
pub open spec fn id_le_from(a: Seq<char>, b: Seq<char>, i: int) -> bool
    decreases a.len() - i,
{
    if i < 0 || i >= a.len() {
        true
    } else if i >= b.len() {
        false
    } else if a[i] != b[i] {
        (a[i] as int) < (b[i] as int)
    } else {
        id_le_from(a, b, i + 1)
    }
}

/// `a` comes no later than `b` in lexicographic order by code point, which is
/// also the byte order of their UTF-8 encodings.
pub open spec fn id_le(a: Seq<char>, b: Seq<char>) -> bool {
    id_le_from(a, b, 0)
}

/// The view of one collected pair.
pub open spec fn outcome_of(e: (String, Option<Quaternion>)) -> Outcome {
    (e.0@, e.1)
}

/// The view of a list of collected pairs.
pub open spec fn outcomes_of(s: Seq<(String, Option<Quaternion>)>) -> Seq<Outcome> {
    s.map_values(|e: (String, Option<Quaternion>)| outcome_of(e))
}

/// `s` with `e` placed after the last element whose identifier is not greater
/// than that of `e`.
pub open spec fn insert_by_id(s: Seq<Outcome>, e: Outcome) -> Seq<Outcome>
    decreases s.len(),
{
    if s.len() == 0 {
        seq![e]
    } else if id_le(s.last().0, e.0) {
        s.push(e)
    } else {
        insert_by_id(s.drop_last(), e).push(s.last())
    }
}

/// `s` stably sorted by identifier.
pub open spec fn sort_by_id(s: Seq<Outcome>) -> Seq<Outcome>
    decreases s.len(),
{
    if s.len() == 0 {
        s
    } else {
        insert_by_id(sort_by_id(s.drop_last()), s.last())
    }
}

/// Every identifier in `s` is no greater than the next one.
pub open spec fn sorted_by_id(s: Seq<Outcome>) -> bool {
    forall|i: int| 0 <= i < s.len() - 1 ==> #[trigger] id_le(s[i].0, s[i + 1].0)
}

proof fn lemma_id_le_from_total(a: Seq<char>, b: Seq<char>, i: int)
    requires
        0 <= i,
    ensures
        id_le_from(a, b, i) || id_le_from(b, a, i),
    decreases a.len() - i,
{
    if i < a.len() && i < b.len() {
        if a[i] == b[i] {
            lemma_id_le_from_total(a, b, i + 1);
        } else {
            assert((a[i] as int) != (b[i] as int));
        }
    }
}

/// Any two identifiers are ordered one way or the other.
pub proof fn lemma_id_le_total(a: Seq<char>, b: Seq<char>)
    ensures
        id_le(a, b) || id_le(b, a),
{
    lemma_id_le_from_total(a, b, 0);
}

proof fn lemma_insert_by_id_last(s: Seq<Outcome>, e: Outcome)
    ensures
        insert_by_id(s, e).len() == s.len() + 1,
        insert_by_id(s, e).last() == e || (s.len() > 0 && insert_by_id(s, e).last() == s.last()),
    decreases s.len(),
{
    if s.len() > 0 && !id_le(s.last().0, e.0) {
        lemma_insert_by_id_last(s.drop_last(), e);
    }
}

proof fn lemma_insert_by_id_sorted(s: Seq<Outcome>, e: Outcome)
    requires
        sorted_by_id(s),
    ensures
        sorted_by_id(insert_by_id(s, e)),
    decreases s.len(),
{
    if s.len() > 0 && !id_le(s.last().0, e.0) {
        let t = s.drop_last();
        assert(sorted_by_id(t)) by {
            assert forall|i: int| 0 <= i < t.len() - 1 implies #[trigger] id_le(t[i].0, t[i + 1].0) by {
                assert(id_le(s[i].0, s[i + 1].0));
            }
        }
        lemma_insert_by_id_sorted(t, e);
        lemma_insert_by_id_last(t, e);
        lemma_id_le_total(s.last().0, e.0);
        let u = insert_by_id(t, e);
        if t.len() > 0 && u.last() == t.last() {
            let k = s.len() - 2;
            assert(id_le(s[k].0, s[k + 1].0));
        }
        assert forall|i: int| 0 <= i < u.len() implies #[trigger] id_le(u.push(s.last())[i].0, u.push(s.last())[i + 1].0) by {
            if i < u.len() - 1 {
                assert(id_le(u[i].0, u[i + 1].0));
            }
        }
    }
}

/// The result of sorting is sorted by identifier.
pub proof fn lemma_sort_by_id_sorted(s: Seq<Outcome>)
    ensures
        sorted_by_id(sort_by_id(s)),
        sort_by_id(s).len() == s.len(),
    decreases s.len(),
{
    if s.len() > 0 {
        lemma_sort_by_id_sorted(s.drop_last());
        lemma_insert_by_id_sorted(sort_by_id(s.drop_last()), s.last());
        lemma_insert_by_id_last(sort_by_id(s.drop_last()), s.last());
    }
}

/// Sorting a list that is already sorted by identifier leaves it as it is.
pub proof fn lemma_sort_by_id_of_sorted(s: Seq<Outcome>)
    requires
        sorted_by_id(s),
    ensures
        sort_by_id(s) == s,
    decreases s.len(),
{
    if s.len() > 0 {
        let t = s.drop_last();
        assert(sorted_by_id(t)) by {
            assert forall|i: int| 0 <= i < t.len() - 1 implies #[trigger] id_le(t[i].0, t[i + 1].0) by {
                assert(id_le(s[i].0, s[i + 1].0));
            }
        }
        lemma_sort_by_id_of_sorted(t);
        if t.len() == 0 {
            assert(seq![s.last()] =~= s);
        } else {
            let k = s.len() - 2;
            assert(id_le(s[k].0, s[k + 1].0));
            assert(t.push(s.last()) =~= s);
        }
    }
}

/// Aggregating is deterministic and idempotent: sorting the sorted outcomes
/// again gives the same list in the same order.
pub proof fn lemma_aggregate_idempotent(s: Seq<Outcome>)
    ensures
        sort_by_id(sort_by_id(s)) == sort_by_id(s),
{
    lemma_sort_by_id_sorted(s);
    lemma_sort_by_id_of_sorted(sort_by_id(s));
}

proof fn lemma_insert_by_id_multiset(s: Seq<Outcome>, e: Outcome)
    ensures
        insert_by_id(s, e).to_multiset() == s.to_multiset().insert(e),
    decreases s.len(),
{
    broadcast use vstd::seq_lib::group_to_multiset_ensures;

    if s.len() > 0 {
        let t = s.drop_last();
        assert(s =~= t.push(s.last()));
        if !id_le(s.last().0, e.0) {
            lemma_insert_by_id_multiset(t, e);
            assert(insert_by_id(s, e).to_multiset() =~= s.to_multiset().insert(e));
        }
    } else {
        assert(seq![e] =~= s.push(e));
    }
}

/// Aggregating neither loses nor repeats an outcome: the sorted list holds
/// the same outcomes, each as often as before.
pub proof fn lemma_sort_by_id_permutes(s: Seq<Outcome>)
    ensures
        sort_by_id(s).to_multiset() == s.to_multiset(),
    decreases s.len(),
{
    broadcast use vstd::seq_lib::group_to_multiset_ensures;

    if s.len() > 0 {
        let t = s.drop_last();
        assert(s =~= t.push(s.last()));
        lemma_sort_by_id_permutes(t);
        lemma_insert_by_id_multiset(sort_by_id(t), s.last());
    }
}

/// No two outcomes in `s` carry the same identifier.
pub open spec fn ids_distinct(s: Seq<Outcome>) -> bool {
    forall|i: int, j: int| 0 <= i < s.len() && 0 <= j < s.len() && i != j ==> s[i].0 != s[j].0
}

proof fn lemma_id_le_from_antisymmetric(a: Seq<char>, b: Seq<char>, i: int)
    requires
        0 <= i <= a.len(),
        i <= b.len(),
        id_le_from(a, b, i),
        id_le_from(b, a, i),
    ensures
        a.len() == b.len(),
        forall|k: int| i <= k < a.len() ==> a[k] == b[k],
    decreases a.len() - i,
{
    if i < a.len() && i < b.len() {
        if a[i] == b[i] {
            lemma_id_le_from_antisymmetric(a, b, i + 1);
        } else {
            assert((a[i] as int) != (b[i] as int));
        }
    }
}

/// Two identifiers each no later than the other are equal.
pub proof fn lemma_id_le_antisymmetric(a: Seq<char>, b: Seq<char>)
    requires
        id_le(a, b),
        id_le(b, a),
    ensures
        a == b,
{
    lemma_id_le_from_antisymmetric(a, b, 0);
    assert(a =~= b);
}

proof fn lemma_id_le_from_transitive(a: Seq<char>, b: Seq<char>, c: Seq<char>, i: int)
    requires
        0 <= i,
        id_le_from(a, b, i),
        id_le_from(b, c, i),
    ensures
        id_le_from(a, c, i),
    decreases a.len() - i,
{
    if i < a.len() && i < b.len() && i < c.len() && a[i] == b[i] && b[i] == c[i] {
        lemma_id_le_from_transitive(a, b, c, i + 1);
    }
}

/// The order on identifiers is transitive.
pub proof fn lemma_id_le_transitive(a: Seq<char>, b: Seq<char>, c: Seq<char>)
    requires
        id_le(a, b),
        id_le(b, c),
    ensures
        id_le(a, c),
{
    lemma_id_le_from_transitive(a, b, c, 0);
}

proof fn lemma_sorted_drop_last(s: Seq<Outcome>)
    requires
        sorted_by_id(s),
        ids_distinct(s),
        s.len() > 0,
    ensures
        sorted_by_id(s.drop_last()),
        ids_distinct(s.drop_last()),
{
    let t = s.drop_last();
    assert forall|i: int| 0 <= i < t.len() - 1 implies #[trigger] id_le(t[i].0, t[i + 1].0) by {
        assert(id_le(s[i].0, s[i + 1].0));
    }
    assert forall|i: int, j: int| 0 <= i < t.len() && 0 <= j < t.len() && i != j implies t[i].0 != t[j].0 by {
        assert(s[i].0 != s[j].0);
    }
}

proof fn lemma_sorted_pairs(s: Seq<Outcome>, i: int, j: int)
    requires
        sorted_by_id(s),
        0 <= i <= j < s.len(),
    ensures
        id_le(s[i].0, s[j].0),
    decreases j - i,
{
    if i == j {
        lemma_id_le_total(s[i].0, s[i].0);
    } else {
        lemma_sorted_pairs(s, i, j - 1);
        let k = j - 1;
        assert(id_le(s[k].0, s[k + 1].0));
        lemma_id_le_transitive(s[i].0, s[k].0, s[j].0);
    }
}

proof fn lemma_count_repeated(s: Seq<Outcome>, i: int, j: int)
    requires
        0 <= i < j < s.len(),
        s[i] == s[j],
    ensures
        s.to_multiset().count(s[i]) >= 2,
    decreases s.len(),
{
    broadcast use vstd::seq_lib::group_to_multiset_ensures;

    let t = s.drop_last();
    assert(s =~= t.push(s.last()));
    assert(t[i] == s[i]);
    if j == s.len() - 1 {
        assert(t.contains(s[i]));
    } else {
        lemma_count_repeated(t, i, j);
    }
}

proof fn lemma_count_at_most_one(s: Seq<Outcome>, x: Outcome)
    requires
        ids_distinct(s),
    ensures
        s.to_multiset().count(x) <= 1,
    decreases s.len(),
{
    broadcast use vstd::seq_lib::group_to_multiset_ensures;

    if s.len() > 0 {
        let t = s.drop_last();
        assert(s =~= t.push(s.last()));
        assert(ids_distinct(t)) by {
            assert forall|i: int, j: int| 0 <= i < t.len() && 0 <= j < t.len() && i != j implies t[i].0 != t[j].0 by {
                assert(s[i].0 != s[j].0);
            }
        }
        lemma_count_at_most_one(t, x);
        if x == s.last() && t.contains(x) {
            let k = choose|k: int| 0 <= k < t.len() && t[k] == x;
            assert(s[k].0 != s[s.len() - 1].0);
        }
    }
}

proof fn lemma_ids_distinct_permutation(x: Seq<Outcome>, y: Seq<Outcome>)
    requires
        ids_distinct(x),
        x.to_multiset() == y.to_multiset(),
    ensures
        ids_distinct(y),
{
    broadcast use vstd::seq_lib::group_to_multiset_ensures;

    assert forall|i: int, j: int| 0 <= i < y.len() && 0 <= j < y.len() && i != j implies y[i].0 != y[j].0 by {
        if y[i].0 == y[j].0 {
            assert(y.contains(y[i]));
            assert(y.contains(y[j]));
            assert(y.to_multiset().count(y[i]) > 0);
            assert(y.to_multiset().count(y[j]) > 0);
            assert(x.to_multiset().count(y[i]) > 0);
            assert(x.to_multiset().count(y[j]) > 0);
            assert(x.contains(y[i]));
            assert(x.contains(y[j]));
            let p = choose|p: int| 0 <= p < x.len() && x[p] == y[i];
            let q = choose|q: int| 0 <= q < x.len() && x[q] == y[j];
            if p == q {
                if i < j {
                    lemma_count_repeated(y, i, j);
                } else {
                    lemma_count_repeated(y, j, i);
                }
                lemma_count_at_most_one(x, y[i]);
            }
        }
    }
}

proof fn lemma_sorted_permutations_equal(a: Seq<Outcome>, b: Seq<Outcome>)
    requires
        sorted_by_id(a),
        sorted_by_id(b),
        ids_distinct(a),
        ids_distinct(b),
        a.to_multiset() == b.to_multiset(),
    ensures
        a == b,
    decreases a.len(),
{
    broadcast use vstd::seq_lib::group_to_multiset_ensures;

    vstd::seq_lib::to_multiset_len(a);
    vstd::seq_lib::to_multiset_len(b);
    if a.len() > 0 {
        let n = a.len() as int;
        let x = a.last();
        let y = b.last();
        assert(b.contains(y));
        assert(a.contains(x));
        assert(b.to_multiset().count(y) > 0);
        assert(a.to_multiset().count(x) > 0);
        assert(a.to_multiset().count(y) > 0);
        assert(b.to_multiset().count(x) > 0);
        assert(a.contains(y));
        assert(b.contains(x));
        let k = choose|k: int| 0 <= k < a.len() && a[k] == y;
        let m = choose|m: int| 0 <= m < b.len() && b[m] == x;
        lemma_sorted_pairs(a, k, n - 1);
        lemma_sorted_pairs(b, m, n - 1);
        lemma_id_le_antisymmetric(x.0, y.0);
        assert(k == n - 1);
        let da = a.drop_last();
        let db = b.drop_last();
        assert(a =~= da.push(x));
        assert(b =~= db.push(x));
        vstd::seq_lib::to_multiset_build(da, x);
        vstd::seq_lib::to_multiset_build(db, x);
        assert(da.to_multiset() =~= db.to_multiset()) by {
            assert forall|v: Outcome| da.to_multiset().count(v) == db.to_multiset().count(v) by {
                if v == x {
                    vstd::multiset::lemma_insert_increases_count_by_1(da.to_multiset(), x);
                    vstd::multiset::lemma_insert_increases_count_by_1(db.to_multiset(), x);
                } else {
                    vstd::multiset::lemma_insert_other_elements_unchanged(da.to_multiset(), x, v);
                    vstd::multiset::lemma_insert_other_elements_unchanged(db.to_multiset(), x, v);
                }
                assert(a.to_multiset() == da.to_multiset().insert(x));
                assert(b.to_multiset() == db.to_multiset().insert(x));
                assert(a.to_multiset().count(v) == b.to_multiset().count(v));
            }
        }
        lemma_sorted_drop_last(a);
        lemma_sorted_drop_last(b);
        lemma_sorted_permutations_equal(da, db);
        assert(a =~= b);
    }
}

/// When no two outcomes share an identifier, the aggregated order depends
/// only on which outcomes there are, not on the order they were collected in.
pub proof fn lemma_aggregate_order_independent(s1: Seq<Outcome>, s2: Seq<Outcome>)
    requires
        ids_distinct(s1),
        s1.to_multiset() == s2.to_multiset(),
    ensures
        sort_by_id(s1) == sort_by_id(s2),
{
    lemma_sort_by_id_permutes(s1);
    lemma_sort_by_id_permutes(s2);
    lemma_sort_by_id_sorted(s1);
    lemma_sort_by_id_sorted(s2);
    lemma_ids_distinct_permutation(s1, sort_by_id(s1));
    lemma_ids_distinct_permutation(s1, sort_by_id(s2));
    lemma_sorted_permutations_equal(sort_by_id(s1), sort_by_id(s2));
}

proof fn lemma_insert_by_id_at(s: Seq<Outcome>, e: Outcome, j: int)
    requires
        0 <= j <= s.len(),
        forall|k: int| j <= k < s.len() ==> !id_le(#[trigger] s[k].0, e.0),
        j > 0 ==> id_le(s[j - 1].0, e.0),
    ensures
        insert_by_id(s, e) == s.insert(j, e),
    decreases s.len(),
{
    if j == s.len() {
        if s.len() == 0 {
            assert(seq![e] =~= s.insert(j, e));
        } else {
            assert(s.push(e) =~= s.insert(j, e));
        }
    } else {
        let t = s.drop_last();
        assert(!id_le(s[s.len() - 1].0, e.0));
        assert forall|k: int| j <= k < t.len() implies !id_le(#[trigger] t[k].0, e.0) by {
            assert(!id_le(s[k].0, e.0));
        }
        lemma_insert_by_id_at(t, e, j);
        assert(t.insert(j, e).push(s.last()) =~= s.insert(j, e));
    }
}

/// Whether identifier `a` comes no later than `b`.
pub fn id_le_exec(a: &String, b: &String) -> (r: bool)
    ensures
        r == id_le(a@, b@),
{
    let sa = a.as_str();
    let sb = b.as_str();
    let la = sa.unicode_len();
    let lb = sb.unicode_len();
    let mut i: usize = 0;
    while i < la
        invariant
            la == a@.len(),
            lb == b@.len(),
            sa@ == a@,
            sb@ == b@,
            i <= la,
            id_le(a@, b@) == id_le_from(a@, b@, i as int),
        decreases la - i,
    {
        if i >= lb {
            return false;
        }
        let ca = sa.get_char(i);
        let cb = sb.get_char(i);
        if ca != cb {
            return (ca as u32) < (cb as u32);
        }
        i = i + 1;
    }
    true
}

/// Orders the collected pairs of a run by identifier, ascending, keeping the
/// relative order of pairs with equal identifiers.
pub fn aggregate(results: &Vec<(String, Option<Quaternion>)>) -> (r: Vec<(String, Option<Quaternion>)>)
    ensures
        outcomes_of(r@) == sort_by_id(outcomes_of(results@)),
{
    let mut sorted: Vec<(String, Option<Quaternion>)> = Vec::new();
    let mut i: usize = 0;
    while i < results.len()
        invariant
            i <= results.len(),
            outcomes_of(sorted@) == sort_by_id(outcomes_of(results@).subrange(0, i as int)),
            sorted@.len() == i,
        decreases results.len() - i,
    {
        let id = results[i].0.clone();
        let q = results[i].1;
        let ghost e: Outcome = (id@, q);
        let ghost s = outcomes_of(sorted@);
        let mut j: usize = sorted.len();
        loop
            invariant
                j <= sorted@.len(),
                s == outcomes_of(sorted@),
                s.len() == sorted@.len(),
                e == (id@, q),
                forall|k: int| j <= k < s.len() ==> !id_le(#[trigger] s[k].0, e.0),
            ensures
                j <= sorted@.len(),
                forall|k: int| j <= k < s.len() ==> !id_le(#[trigger] s[k].0, e.0),
                j > 0 ==> id_le(s[j - 1].0, e.0),
            decreases j,
        {
            if j == 0 {
                break;
            }
            assert(s[j - 1] == outcome_of(sorted@[j - 1]));
            if id_le_exec(&sorted[j - 1].0, &id) {
                break;
            }
            j = j - 1;
        }
        proof {
            lemma_insert_by_id_at(s, e, j as int);
            let p = outcomes_of(results@).subrange(0, i as int + 1);
            assert(p.drop_last() =~= outcomes_of(results@).subrange(0, i as int));
            assert(p.last() == e);
        }
        sorted.insert(j, (id, q));
        proof {
            assert(outcomes_of(sorted@) =~= s.insert(j as int, e));
        }
        i = i + 1;
    }
    proof {
        assert(outcomes_of(results@).subrange(0, i as int) =~= outcomes_of(results@));
    }
    sorted
}

} // verus!
