//! Text order and the stable ranking that leaderboards and payouts rest on.
use vstd::prelude::*;
use vstd::utf8::encode_utf8;

verus! {

/// Whether `a` stands at or before `b` in the lexicographic order of bytes.
pub open spec fn bytes_le(a: Seq<u8>, b: Seq<u8>) -> bool
    decreases a.len(),
{
    if a.len() == 0 {
        true
    } else if b.len() == 0 {
        false
    } else if a[0] != b[0] {
        a[0] < b[0]
    } else {
        bytes_le(a.skip(1), b.skip(1))
    }
}

/// Whether text `a` stands at or before text `b`: strings are ordered by their
/// UTF-8 bytes.
pub open spec fn text_le(a: Seq<char>, b: Seq<char>) -> bool {
    bytes_le(encode_utf8(a), encode_utf8(b))
}

pub proof fn lemma_bytes_le_total(a: Seq<u8>, b: Seq<u8>)
    ensures
        bytes_le(a, b) || bytes_le(b, a),
    decreases a.len(),
{
    if a.len() > 0 && b.len() > 0 && a[0] == b[0] {
        lemma_bytes_le_total(a.skip(1), b.skip(1));
    }
}

pub proof fn lemma_bytes_le_transitive(a: Seq<u8>, b: Seq<u8>, c: Seq<u8>)
    requires
        bytes_le(a, b),
        bytes_le(b, c),
    ensures
        bytes_le(a, c),
    decreases a.len(),
{
    if a.len() > 0 && b.len() > 0 && c.len() > 0 && a[0] == b[0] && b[0] == c[0] {
        lemma_bytes_le_transitive(a.skip(1), b.skip(1), c.skip(1));
    }
}

pub proof fn lemma_bytes_le_antisymmetric(a: Seq<u8>, b: Seq<u8>)
    requires
        bytes_le(a, b),
        bytes_le(b, a),
    ensures
        a == b,
    decreases a.len(),
{
    if a.len() > 0 {
        lemma_bytes_le_antisymmetric(a.skip(1), b.skip(1));
        assert(a =~= seq![a[0]] + a.skip(1));
        assert(b =~= seq![b[0]] + b.skip(1));
    } else {
        assert(a =~= b);
    }
}

/// Two texts that stand at or before each other are the same text.
pub proof fn lemma_text_le_antisymmetric(a: Seq<char>, b: Seq<char>)
    requires
        text_le(a, b),
        text_le(b, a),
    ensures
        a == b,
{
    lemma_bytes_le_antisymmetric(encode_utf8(a), encode_utf8(b));
    vstd::utf8::encode_utf8_decode_utf8(a);
    vstd::utf8::encode_utf8_decode_utf8(b);
}

/// Whether the bytes `a` stand at or before the bytes `b`.
pub fn bytes_at_or_before(a: &[u8], b: &[u8]) -> (r: bool)
    ensures
        r == bytes_le(a@, b@),
{
    let mut i: usize = 0;
    proof {
        assert(a@.skip(0) =~= a@);
        assert(b@.skip(0) =~= b@);
    }
    while i < a.len() && i < b.len() && a[i] == b[i]
        invariant
            i <= a@.len(),
            i <= b@.len(),
            bytes_le(a@, b@) == bytes_le(a@.skip(i as int), b@.skip(i as int)),
        decreases a@.len() - i,
    {
        proof {
            assert(a@.skip(i as int).skip(1) =~= a@.skip(i + 1));
            assert(b@.skip(i as int).skip(1) =~= b@.skip(i + 1));
        }
        i = i + 1;
    }
    if i == a.len() {
        true
    } else if i == b.len() {
        false
    } else {
        a[i] < b[i]
    }
}

/// Whether text `a` stands at or before text `b`.
pub fn text_at_or_before(a: &str, b: &str) -> (r: bool)
    ensures
        r == text_le(a@, b@),
{
    bytes_at_or_before(a.as_bytes(), b.as_bytes())
}

/// Items that can be ranked: a total preorder that says which of two items may
/// stand ahead of the other.
pub trait Ranked: Sized {
    /// Whether `self` may stand ahead of `other` (ties may stand either way).
    spec fn ahead(self, other: Self) -> bool;

    proof fn ahead_total(a: Self, b: Self)
        ensures
            a.ahead(b) || b.ahead(a),
    ;

    proof fn ahead_transitive(a: Self, b: Self, c: Self)
        requires
            a.ahead(b),
            b.ahead(c),
        ensures
            a.ahead(c),
    ;

    fn stands_ahead(&self, other: &Self) -> (r: bool)
        ensures
            r == self.ahead(*other),
    ;
}

/// `x` put into a ranking behind every item that may stand ahead of it.
pub open spec fn placed<T: Ranked>(s: Seq<T>, x: T) -> Seq<T>
    decreases s.len(),
{
    if s.len() == 0 {
        seq![x]
    } else if s.last().ahead(x) {
        s.push(x)
    } else {
        placed(s.drop_last(), x).push(s.last())
    }
}

/// The stable ranking of `s`: the items in rank order, ties in the order in which
/// they came.
pub open spec fn ranking<T: Ranked>(s: Seq<T>) -> Seq<T>
    decreases s.len(),
{
    if s.len() == 0 {
        s
    } else {
        placed(ranking(s.drop_last()), s.last())
    }
}

/// Every item may stand ahead of those behind it.
pub open spec fn in_rank_order<T: Ranked>(s: Seq<T>) -> bool {
    forall|i: int, j: int| 0 <= i < j < s.len() ==> #[trigger] s[i].ahead(#[trigger] s[j])
}

proof fn lemma_placed<T: Ranked>(s: Seq<T>, x: T)
    requires
        in_rank_order(s),
    ensures
        in_rank_order(placed(s, x)),
        placed(s, x).to_multiset() == s.to_multiset().insert(x),
        placed(s, x).len() == s.len() + 1,
    decreases s.len(),
{
    broadcast use vstd::seq_lib::group_to_multiset_ensures;

    if s.len() == 0 {
        assert(seq![x] =~= s.push(x));
        assert(in_rank_order(seq![x]));
    } else if s.last().ahead(x) {
        let out = s.push(x);
        assert forall|i: int, j: int| 0 <= i < j < out.len() implies #[trigger] out[i].ahead(
            #[trigger] out[j],
        ) by {
            if j == s.len() && i < s.len() - 1 {
                assert(s[i].ahead(s[s.len() - 1]));
                T::ahead_transitive(s[i], s.last(), x);
            }
        }
    } else {
        let front = s.drop_last();
        lemma_placed(front, x);
        let rest = placed(front, x);
        let out = rest.push(s.last());
        T::ahead_total(x, s.last());
        assert forall|i: int, j: int| 0 <= i < j < out.len() implies #[trigger] out[i].ahead(
            #[trigger] out[j],
        ) by {
            if j == rest.len() {
                assert(rest.contains(rest[i]));
                assert(rest.to_multiset().count(rest[i]) > 0);
                if rest[i] != x {
                    assert(front.to_multiset().count(rest[i]) > 0);
                    assert(front.contains(rest[i]));
                    let k = choose|k: int| 0 <= k < front.len() && front[k] == rest[i];
                    assert(s[k].ahead(s[s.len() - 1]));
                }
            }
        }
        assert(s =~= front.push(s.last()));
        assert(out.to_multiset() =~= s.to_multiset().insert(x));
    }
}

/// A ranking is in rank order and holds exactly the items that it was made from.
pub proof fn ranking_orders_and_keeps<T: Ranked>(s: Seq<T>)
    ensures
        in_rank_order(ranking(s)),
        ranking(s).to_multiset() == s.to_multiset(),
        ranking(s).len() == s.len(),
    decreases s.len(),
{
    broadcast use vstd::seq_lib::group_to_multiset_ensures;

    if s.len() > 0 {
        ranking_orders_and_keeps(s.drop_last());
        lemma_placed(ranking(s.drop_last()), s.last());
        assert(s =~= s.drop_last().push(s.last()));
    }
}

/// A ranking depends on the items alone, not on the order in which they came,
/// wherever items that tie are equal.
pub proof fn ranking_ignores_arrival_order<T: Ranked>(s: Seq<T>, t: Seq<T>)
    requires
        s.to_multiset() == t.to_multiset(),
        forall|a: T, b: T|
            s.contains(a) && s.contains(b) && #[trigger] a.ahead(b) && #[trigger] b.ahead(a)
                ==> a == b,
    ensures
        ranking(s) == ranking(t),
{
    broadcast use vstd::seq_lib::group_to_multiset_ensures;

    ranking_orders_and_keeps(s);
    ranking_orders_and_keeps(t);
    let (rs, rt) = (ranking(s), ranking(t));
    assert forall|a: T, b: T|
        rs.contains(a) && rs.contains(b) && #[trigger] a.ahead(b) && #[trigger] b.ahead(
            a,
        ) implies a == b by {
        assert(rs.to_multiset().count(a) > 0 && rs.to_multiset().count(b) > 0);
        assert(s.contains(a) && s.contains(b));
    }
    lemma_rank_order_unique(rs, rt);
}

proof fn lemma_rank_order_unique<T: Ranked>(s: Seq<T>, t: Seq<T>)
    requires
        in_rank_order(s),
        in_rank_order(t),
        s.to_multiset() == t.to_multiset(),
        forall|a: T, b: T|
            s.contains(a) && s.contains(b) && #[trigger] a.ahead(b) && #[trigger] b.ahead(a)
                ==> a == b,
    ensures
        s == t,
    decreases s.len(),
{
    broadcast use vstd::seq_lib::group_to_multiset_ensures;

    assert(s.len() == s.to_multiset().len() && t.len() == t.to_multiset().len());
    if s.len() == 0 {
        assert(s =~= t);
    } else {
        let (x, y) = (s.last(), t.last());
        assert(t.contains(y) && s.contains(x));
        assert(t.to_multiset().count(y) > 0 && s.to_multiset().count(x) > 0);
        assert(s.contains(y) && t.contains(x));
        let i = choose|i: int| 0 <= i < s.len() && s[i] == y;
        let j = choose|j: int| 0 <= j < t.len() && t[j] == x;
        T::ahead_total(x, x);
        if x != y {
            assert(s[i].ahead(s[s.len() - 1]));
            assert(t[j].ahead(t[t.len() - 1]));
            assert(y.ahead(x) && x.ahead(y));
        }
        let (s2, t2) = (s.drop_last(), t.drop_last());
        assert(s2 =~= s.remove(s.len() - 1));
        assert(t2 =~= t.remove(t.len() - 1));
        assert forall|a: T, b: T|
            s2.contains(a) && s2.contains(b) && #[trigger] a.ahead(b) && #[trigger] b.ahead(
                a,
            ) implies a == b by {
            let p = choose|p: int| 0 <= p < s2.len() && s2[p] == a;
            let q = choose|q: int| 0 <= q < s2.len() && s2[q] == b;
            assert(s[p] == a && s[q] == b);
            assert(s.contains(a) && s.contains(b));
        }
        lemma_rank_order_unique(s2, t2);
        assert(s =~= s2.push(x));
        assert(t =~= t2.push(y));
    }
}

fn place<T: Ranked>(ranked: &mut Vec<T>, x: T)
    ensures
        final(ranked)@ == placed(old(ranked)@, x),
{
    let ghost s = ranked@;
    let mut at: usize = ranked.len();
    proof {
        assert(s.take(s.len() as int) =~= s);
        assert(s.skip(s.len() as int) =~= Seq::empty());
        assert(placed(s, x) =~= placed(s, x) + Seq::<T>::empty());
    }
    while at > 0 && !ranked[at - 1].stands_ahead(&x)
        invariant
            ranked@ == s,
            at <= s.len(),
            placed(s, x) == placed(s.take(at as int), x) + s.skip(at as int),
        decreases at,
    {
        proof {
            let front = s.take(at as int);
            assert(front.drop_last() =~= s.take(at - 1));
            assert(front.last() == s[at - 1]);
            assert(placed(front, x) + s.skip(at as int) =~= placed(s.take(at - 1), x) + s.skip(
                at - 1,
            ));
        }
        at = at - 1;
    }
    proof {
        let front = s.take(at as int);
        if at > 0 {
            assert(front.last() == s[at - 1]);
        } else {
            assert(front.push(x) =~= seq![x]);
        }
        assert(placed(front, x) =~= front.push(x));
        assert(s.insert(at as int, x) =~= front.push(x) + s.skip(at as int));
    }
    ranked.insert(at, x);
}

/// The stable ranking of `items`.
pub fn rank_items<T: Ranked>(items: Vec<T>) -> (ranked: Vec<T>)
    ensures
        ranked@ == ranking(items@),
{
    let ghost all = items@;
    let mut ranked: Vec<T> = Vec::new();
    proof {
        assert(all.take(0) =~= Seq::empty());
    }
    for x in it: items
        invariant
            it.seq() == all,
            ranked@ == ranking(all.take(it.index() as int)),
    {
        proof {
            let i = it.index() as int;
            assert(all.take(i + 1).drop_last() =~= all.take(i));
            assert(all.take(i + 1).last() == all[i]);
        }
        place(&mut ranked, x);
    }
    proof {
        assert(all.take(all.len() as int) =~= all);
    }
    ranked
}

/// The order of bytes is that of a dictionary: a text stands at or before another exactly
/// where it is the beginning of it, or is smaller at the first place at which they
/// differ.
pub proof fn bytes_are_ordered_as_in_a_dictionary(a: Seq<u8>, b: Seq<u8>)
    ensures
        bytes_le(a, b) <==> {
            ||| a.is_prefix_of(b)
            ||| exists|k: int|
                0 <= k < a.len() && k < b.len() && a.take(k) == b.take(k) && #[trigger] a[k]
                    < b[k]
        },
    decreases a.len(),
{
    if a.len() > 0 && b.len() > 0 && a[0] == b[0] {
        let (c, d) = (a.skip(1), b.skip(1));
        bytes_are_ordered_as_in_a_dictionary(c, d);
        assert(c.is_prefix_of(d) <==> a.is_prefix_of(b)) by {
            if c.is_prefix_of(d) {
                assert forall|i: int| 0 <= i < a.len() implies a[i] == b[i] by {
                    if i > 0 {
                        assert(c[i - 1] == d[i - 1]);
                    }
                }
                assert(a =~= b.subrange(0, a.len() as int));
            }
            if a.is_prefix_of(b) {
                assert(c =~= d.subrange(0, c.len() as int)) by {
                    assert forall|i: int| 0 <= i < c.len() implies c[i] == d[i] by {
                        assert(a[i + 1] == b.subrange(0, a.len() as int)[i + 1]);
                    }
                }
            }
        }
        if exists|k: int|
            0 <= k < c.len() && k < d.len() && c.take(k) == d.take(k) && #[trigger] c[k] < d[k] {
            let k = choose|k: int|
                0 <= k < c.len() && k < d.len() && c.take(k) == d.take(k) && #[trigger] c[k] < d[k];
            assert(a.take(k + 1) =~= b.take(k + 1)) by {
                assert forall|i: int| 0 <= i < k + 1 implies a[i] == b[i] by {
                    if i > 0 {
                        assert(c.take(k)[i - 1] == d.take(k)[i - 1]);
                    }
                }
            }
            assert(a[k + 1] < b[k + 1]);
        }
        if exists|k: int|
            0 <= k < a.len() && k < b.len() && a.take(k) == b.take(k) && #[trigger] a[k] < b[k] {
            let k = choose|k: int|
                0 <= k < a.len() && k < b.len() && a.take(k) == b.take(k) && #[trigger] a[k] < b[k];
            assert(c.take(k - 1) =~= d.take(k - 1)) by {
                assert forall|i: int| 0 <= i < k - 1 implies c[i] == d[i] by {
                    assert(a.take(k)[i + 1] == b.take(k)[i + 1]);
                }
            }
            assert(c[k - 1] < d[k - 1]);
        }
    } else if a.len() > 0 && b.len() > 0 {
        if a[0] < b[0] {
            assert(a.take(0) =~= b.take(0));
        }
        assert(!a.is_prefix_of(b)) by {
            if a.is_prefix_of(b) {
                assert(a[0] == b.subrange(0, a.len() as int)[0]);
            }
        }
        if exists|k: int|
            0 <= k < a.len() && k < b.len() && a.take(k) == b.take(k) && #[trigger] a[k] < b[k] {
            let k = choose|k: int|
                0 <= k < a.len() && k < b.len() && a.take(k) == b.take(k) && #[trigger] a[k] < b[k];
            if k > 0 {
                assert(a.take(k)[0] == b.take(k)[0]);
            }
        }
    } else if a.len() == 0 {
        assert(a =~= b.subrange(0, 0));
    }
}

/// Ties keep the order in which they came: one more item goes in behind all that may
/// stand ahead of it and before the rest, whose order stays.
pub proof fn a_newcomer_stands_behind_its_equals<T: Ranked>(s: Seq<T>, x: T)
    ensures
        exists|k: int|
            {
                &&& 0 <= k <= s.len()
                &&& #[trigger] ranking(s).take(k) + seq![x] + ranking(s).skip(k) == ranking(
                    s.push(x),
                )
                &&& forall|i: int| 0 <= i < k ==> (#[trigger] ranking(s)[i]).ahead(x)
                &&& forall|i: int| k <= i < s.len() ==> !(#[trigger] ranking(s)[i]).ahead(x)
            },
{
    assert(s.push(x).drop_last() =~= s);
    ranking_orders_and_keeps(s);
    let k = lemma_place_of_newcomer(ranking(s), x);
    assert(ranking(s).take(k) + seq![x] + ranking(s).skip(k) == ranking(s.push(x)));
}

proof fn lemma_place_of_newcomer<T: Ranked>(r: Seq<T>, x: T) -> (k: int)
    requires
        in_rank_order(r),
    ensures
        0 <= k <= r.len(),
        r.take(k) + seq![x] + r.skip(k) == placed(r, x),
        forall|i: int| 0 <= i < k ==> (#[trigger] r[i]).ahead(x),
        forall|i: int| k <= i < r.len() ==> !(#[trigger] r[i]).ahead(x),
    decreases r.len(),
{
    if r.len() == 0 {
        assert(r.take(0) + seq![x] + r.skip(0) =~= seq![x]);
        0
    } else if r.last().ahead(x) {
        assert forall|i: int| 0 <= i < r.len() implies (#[trigger] r[i]).ahead(x) by {
            if i < r.len() - 1 {
                assert(r[i].ahead(r[r.len() - 1]));
                T::ahead_transitive(r[i], r.last(), x);
            }
        }
        assert(r.take(r.len() as int) + seq![x] + r.skip(r.len() as int) =~= r.push(x));
        r.len() as int
    } else {
        let front = r.drop_last();
        let k = lemma_place_of_newcomer(front, x);
        assert(r.take(k) + seq![x] + r.skip(k) =~= (front.take(k) + seq![x] + front.skip(k)).push(
            r.last(),
        ));
        assert forall|i: int| 0 <= i < k implies (#[trigger] r[i]).ahead(x) by {
            assert(front[i].ahead(x));
        }
        assert forall|i: int| k <= i < r.len() implies !(#[trigger] r[i]).ahead(x) by {
            if i < front.len() {
                assert(!front[i].ahead(x));
            }
        }
        k
    }
}

/// What is ranked is what was handed in, each ahead of those that follow it.
pub proof fn ranked_items_are_those_handed_in<T: Ranked>(
    items: Vec<T>,
    ranked: Vec<T>,
    i: int,
    j: int,
)
    requires
        call_ensures(rank_items::<T>, (items,), ranked),
    ensures
        ranked@.to_multiset() == items@.to_multiset(),
        0 <= i < j < ranked@.len() ==> ranked@[i].ahead(ranked@[j]),
{
    ranking_orders_and_keeps(items@);
}

} // verus!
