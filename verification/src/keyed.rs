//! Tables: sequences of keyed rows, seen as maps.
use vstd::prelude::*;

verus! {

/// No key stands in two rows.
pub open spec fn distinct_keys<K, V>(s: Seq<(K, V)>) -> bool {
    forall|i: int, j: int|
        0 <= i < s.len() && 0 <= j < s.len() && i != j ==> #[trigger] s[i].0 != #[trigger] s[j].0
}

/// Whether a row has key `k`.
pub open spec fn has_key<K, V>(s: Seq<(K, V)>, k: K) -> bool {
    exists|i: int| 0 <= i < s.len() && (#[trigger] s[i]).0 == k
}

/// The map that a table is.
pub open spec fn table<K, V>(s: Seq<(K, V)>) -> Map<K, V> {
    Map::new(
        |k: K| has_key(s, k),
        |k: K| s[choose|i: int| 0 <= i < s.len() && (#[trigger] s[i]).0 == k].1,
    )
}

pub proof fn lemma_table_row<K, V>(s: Seq<(K, V)>, i: int)
    requires
        distinct_keys(s),
        0 <= i < s.len(),
    ensures
        table(s).dom().contains(s[i].0),
        table(s)[s[i].0] == s[i].1,
{
    let k = s[i].0;
    assert(has_key(s, k));
    let j = choose|j: int| 0 <= j < s.len() && (#[trigger] s[j]).0 == k;
    assert(i == j);
}

pub proof fn lemma_table_absent<K, V>(s: Seq<(K, V)>, k: K)
    requires
        forall|i: int| 0 <= i < s.len() ==> (#[trigger] s[i]).0 != k,
    ensures
        !table(s).dom().contains(k),
{
}

pub proof fn lemma_table_push<K, V>(s: Seq<(K, V)>, k: K, v: V)
    requires
        distinct_keys(s),
        !table(s).dom().contains(k),
    ensures
        distinct_keys(s.push((k, v))),
        table(s.push((k, v))) == table(s).insert(k, v),
{
    let t = s.push((k, v));
    assert forall|i: int| 0 <= i < s.len() implies (#[trigger] s[i]).0 != k by {
        if s[i].0 == k {
            assert(has_key(s, k));
        }
    }
    assert(distinct_keys(t));
    let (a, b) = (table(t), table(s).insert(k, v));
    assert forall|x: K| a.dom().contains(x) == b.dom().contains(x) by {
        if has_key(t, x) {
            let i = choose|i: int| 0 <= i < t.len() && (#[trigger] t[i]).0 == x;
            if i < s.len() {
                assert(s[i].0 == x);
            }
        }
        if has_key(s, x) {
            let i = choose|i: int| 0 <= i < s.len() && (#[trigger] s[i]).0 == x;
            assert(t[i].0 == x);
        }
        assert(t[s.len() as int].0 == k);
    }
    assert forall|x: K| a.dom().contains(x) implies a[x] == b[x] by {
        let i = choose|i: int| 0 <= i < t.len() && (#[trigger] t[i]).0 == x;
        lemma_table_row(t, i);
        if i < s.len() {
            lemma_table_row(s, i);
        }
    }
    assert(a =~= b);
}

pub proof fn lemma_table_update<K, V>(s: Seq<(K, V)>, i: int, v: V)
    requires
        distinct_keys(s),
        0 <= i < s.len(),
    ensures
        distinct_keys(s.update(i, (s[i].0, v))),
        table(s.update(i, (s[i].0, v))) == table(s).insert(s[i].0, v),
{
    let t = s.update(i, (s[i].0, v));
    assert forall|j: int| 0 <= j < s.len() implies (#[trigger] t[j]).0 == s[j].0 by {}
    assert(distinct_keys(t)) by {
        assert forall|p: int, q: int|
            0 <= p < t.len() && 0 <= q < t.len() && p != q implies #[trigger] t[p].0
            != #[trigger] t[q].0 by {
            assert(s[p].0 != s[q].0);
        }
    }
    let (a, b) = (table(t), table(s).insert(s[i].0, v));
    assert forall|x: K| a.dom().contains(x) == b.dom().contains(x) by {
        if has_key(t, x) {
            let j = choose|j: int| 0 <= j < t.len() && (#[trigger] t[j]).0 == x;
            assert(s[j].0 == x);
        }
        if has_key(s, x) {
            let j = choose|j: int| 0 <= j < s.len() && (#[trigger] s[j]).0 == x;
            assert(t[j].0 == x);
        }
        assert(t[i].0 == s[i].0);
    }
    assert forall|x: K| a.dom().contains(x) implies a[x] == b[x] by {
        let j = choose|j: int| 0 <= j < t.len() && (#[trigger] t[j]).0 == x;
        lemma_table_row(t, j);
        lemma_table_row(s, j);
        if j != i {
            assert(s[j].0 != s[i].0);
        }
    }
    assert(a =~= b);
}

pub proof fn lemma_table_len<K, V>(s: Seq<(K, V)>)
    requires
        distinct_keys(s),
    ensures
        table(s).dom().finite(),
        table(s).dom().len() == s.len(),
    decreases s.len(),
{
    if s.len() == 0 {
        assert(table(s).dom() =~= Set::empty());
    } else {
        let front = s.drop_last();
        let (k, v) = s.last();
        assert forall|i: int, j: int|
            0 <= i < front.len() && 0 <= j < front.len() && i != j implies #[trigger] front[i].0
            != #[trigger] front[j].0 by {
            assert(s[i].0 != s[j].0);
        }
        assert forall|i: int| 0 <= i < front.len() implies (#[trigger] front[i]).0 != k by {
            assert(s[i].0 != s[s.len() - 1].0);
        }
        lemma_table_absent(front, k);
        lemma_table_len(front);
        lemma_table_push(front, k, v);
        assert(s =~= front.push((k, v)));
        assert(table(s).dom() =~= table(front).dom().insert(k));
    }
}

/// The sum of the amounts in a map.
pub open spec fn map_total<K>(m: Map<K, u128>) -> nat
    decreases m.dom().len(),
{
    if !m.dom().finite() || m.dom().len() == 0 {
        0
    } else {
        let k = m.dom().choose();
        m[k] as nat + map_total(m.remove(k))
    }
}

pub proof fn lemma_map_total_remove<K>(m: Map<K, u128>, k: K)
    requires
        m.dom().finite(),
        m.dom().contains(k),
    ensures
        map_total(m) == m[k] + map_total(m.remove(k)),
    decreases m.dom().len(),
{
    let c = m.dom().choose();
    assert(m.dom().len() != 0);
    assert(m.dom().contains(c));
    if c != k {
        let (mc, mk) = (m.remove(c), m.remove(k));
        assert(mc.dom() =~= m.dom().remove(c));
        assert(mk.dom() =~= m.dom().remove(k));
        lemma_map_total_remove(mc, k);
        lemma_map_total_remove(mk, c);
        assert(mc.remove(k) =~= mk.remove(c));
    }
}

/// Setting one amount changes the sum by as much as it changes the amount.
pub proof fn lemma_map_total_insert<K>(m: Map<K, u128>, k: K, v: u128)
    requires
        m.dom().finite(),
    ensures
        map_total(m.insert(k, v)) == map_total(m) - (if m.dom().contains(k) {
            m[k] as int
        } else {
            0
        }) + v,
{
    let t = m.insert(k, v);
    assert(t.dom() =~= m.dom().insert(k));
    lemma_map_total_remove(t, k);
    if m.dom().contains(k) {
        lemma_map_total_remove(m, k);
        assert(t.remove(k) =~= m.remove(k));
    } else {
        assert(t.remove(k) =~= m);
    }
}

} // verus!
