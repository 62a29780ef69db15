//! The order of texts: character by character, by code point, a shorter text
//! before every text that it begins; and the ranking of a list of texts in
//! that order.

use vstd::prelude::*;

verus! {

/// Whether `a`, from position `at` on, comes before or with `b`, where the
/// two agree before `at`.
pub open spec fn lex_le_from(a: Seq<char>, b: Seq<char>, at: int) -> bool
    decreases a.len() - at,
{
    if at >= a.len() || at < 0 {
        true
    } else if at >= b.len() {
        false
    } else if a[at] != b[at] {
        (a[at] as u32) < (b[at] as u32)
    } else {
        lex_le_from(a, b, at + 1)
    }
}

/// Whether `a` comes before `b` in the order of texts, or is `b`.
pub open spec fn lex_le(a: Seq<char>, b: Seq<char>) -> bool {
    lex_le_from(a, b, 0)
}

/// Whether `a` comes before `b` in the order of texts, or is `b`.
pub fn text_le(a: &Vec<char>, b: &Vec<char>) -> (res: bool)
    ensures
        res == lex_le(a@, b@),
{
    let mut i: usize = 0;
    while i < a.len()
        invariant
            i <= a.len(),
            lex_le(a@, b@) == lex_le_from(a@, b@, i as int),
        decreases a.len() - i,
    {
        if i >= b.len() {
            return false;
        }
        if a[i] != b[i] {
            return (a[i] as u32) < (b[i] as u32);
        }
        i += 1;
    }
    true
}

proof fn lemma_total_from(a: Seq<char>, b: Seq<char>, at: int)
    requires
        0 <= at,
        at <= a.len(),
        at <= b.len(),
    ensures
        lex_le_from(a, b, at) || lex_le_from(b, a, at),
    decreases a.len() - at,
{
    if at < a.len() && at < b.len() {
        if a[at] == b[at] {
            lemma_total_from(a, b, at + 1);
        } else {
            vstd::utf8::char_u32_cast(a[at], a[at] as u32);
            vstd::utf8::char_u32_cast(b[at], b[at] as u32);
        }
    }
}

/// Of two texts, one comes before or with the other.
pub proof fn lemma_lex_total(a: Seq<char>, b: Seq<char>)
    ensures
        lex_le(a, b) || lex_le(b, a),
{
    lemma_total_from(a, b, 0);
}

proof fn lemma_reflexive_from(a: Seq<char>, at: int)
    requires
        0 <= at,
    ensures
        lex_le_from(a, a, at),
    decreases a.len() - at,
{
    if at < a.len() {
        lemma_reflexive_from(a, at + 1);
    }
}

/// A text comes with itself.
pub proof fn lemma_lex_reflexive(a: Seq<char>)
    ensures
        lex_le(a, a),
{
    lemma_reflexive_from(a, 0);
}

proof fn lemma_antisymmetric_from(a: Seq<char>, b: Seq<char>, at: int)
    requires
        0 <= at <= a.len(),
        at <= b.len(),
        lex_le_from(a, b, at),
        lex_le_from(b, a, at),
    ensures
        a.len() == b.len(),
        forall|k: int| at <= k < a.len() ==> a[k] == b[k],
    decreases a.len() - at,
{
    if at < a.len() && at < b.len() {
        lemma_antisymmetric_from(a, b, at + 1);
    }
}

/// Two texts that each come before or with the other are one text.
pub proof fn lemma_lex_antisymmetric(a: Seq<char>, b: Seq<char>)
    requires
        lex_le(a, b),
        lex_le(b, a),
    ensures
        a == b,
{
    lemma_antisymmetric_from(a, b, 0);
    assert(a =~= b);
}

proof fn lemma_transitive_from(a: Seq<char>, b: Seq<char>, c: Seq<char>, at: int)
    requires
        0 <= at,
        lex_le_from(a, b, at),
        lex_le_from(b, c, at),
    ensures
        lex_le_from(a, c, at),
    decreases a.len() - at,
{
    if at < a.len() && at < b.len() && at < c.len() && a[at] == b[at] && b[at] == c[at] {
        lemma_transitive_from(a, b, c, at + 1);
    }
}

/// The order of texts is transitive.
pub proof fn lemma_lex_transitive(a: Seq<char>, b: Seq<char>, c: Seq<char>)
    requires
        lex_le(a, b),
        lex_le(b, c),
    ensures
        lex_le(a, c),
{
    lemma_transitive_from(a, b, c, 0);
}

/// Whether the entry at position `a` may stand before the entry at
/// position `b`: its key comes before or with the other key, or after or
/// with it where the ranking is descending.
pub open spec fn may_precede(keys: Seq<Seq<char>>, a: int, b: int, descending: bool) -> bool {
    if descending {
        lex_le(keys[b], keys[a])
    } else {
        lex_le(keys[a], keys[b])
    }
}

/// A ranking with the position `x` entered: after every position that may
/// stand before it, counted from the end.
pub open spec fn placed(order: Seq<int>, keys: Seq<Seq<char>>, x: int, descending: bool) -> Seq<
    int,
>
    decreases order.len(),
{
    if order.len() == 0 {
        seq![x]
    } else if may_precede(keys, order.last(), x, descending) {
        order.push(x)
    } else {
        placed(order.drop_last(), keys, x, descending).push(order.last())
    }
}

/// The positions `0..n` ranked by their keys. Positions with equal keys keep
/// their order.
pub open spec fn ranking(keys: Seq<Seq<char>>, n: int, descending: bool) -> Seq<int>
    decreases n,
{
    if n <= 0 {
        Seq::<int>::empty()
    } else {
        placed(ranking(keys, n - 1, descending), keys, n - 1, descending)
    }
}

/// The positions of all keys, ranked.
pub open spec fn ranked(keys: Seq<Seq<char>>, descending: bool) -> Seq<int> {
    ranking(keys, keys.len() as int, descending)
}

/// Whether every position in a ranking may stand before the next one.
pub open spec fn in_order(order: Seq<int>, keys: Seq<Seq<char>>, descending: bool) -> bool {
    forall|k: int|
        0 <= k < order.len() - 1 ==> #[trigger] may_precede(
            keys,
            order[k],
            order[k + 1],
            descending,
        )
}

/// What entering a position does: the ranking grows by one, holds what it
/// held and the position, and the new position stands at `at` with the rest
/// around it as before.
pub proof fn lemma_placed(order: Seq<int>, keys: Seq<Seq<char>>, x: int, descending: bool)
    ensures
        placed(order, keys, x, descending).len() == order.len() + 1,
        forall|k: int|
            0 <= k < order.len() + 1 ==> (#[trigger] placed(order, keys, x, descending)[k] == x
                || order.contains(placed(order, keys, x, descending)[k])),
        placed(order, keys, x, descending).contains(x),
        forall|k: int|
            0 <= k < order.len() ==> placed(order, keys, x, descending).contains(
                #[trigger] order[k],
            ),
        placed(order, keys, x, descending).last() == x || (order.len() > 0 && placed(
            order,
            keys,
            x,
            descending,
        ).last() == order.last()),
    decreases order.len(),
{
    let p = placed(order, keys, x, descending);
    if order.len() == 0 {
        assert(p[0] == x);
    } else if may_precede(keys, order.last(), x, descending) {
        assert(p[order.len() as int] == x);
        assert forall|k: int| 0 <= k < order.len() implies p.contains(#[trigger] order[k]) by {
            assert(p[k] == order[k]);
        }
        assert forall|k: int| 0 <= k < order.len() + 1 implies (#[trigger] p[k] == x
            || order.contains(p[k])) by {
            if k < order.len() {
                assert(order[k] == p[k]);
            }
        }
    } else {
        let inner = placed(order.drop_last(), keys, x, descending);
        lemma_placed(order.drop_last(), keys, x, descending);
        assert forall|k: int| 0 <= k < order.len() + 1 implies (#[trigger] p[k] == x
            || order.contains(p[k])) by {
            if k < order.len() {
                assert(p[k] == inner[k]);
                if inner[k] != x {
                    assert(order.drop_last().contains(inner[k]));
                    let j = choose|j: int|
                        0 <= j < order.drop_last().len() && order.drop_last()[j] == inner[k];
                    assert(order[j] == inner[k]);
                }
            } else {
                assert(p[k] == order.last());
                assert(order[order.len() - 1] == order.last());
            }
        }
        let at = choose|at: int| 0 <= at < inner.len() && inner[at] == x;
        assert(p[at] == x);
        assert forall|k: int| 0 <= k < order.len() implies p.contains(#[trigger] order[k]) by {
            if k < order.len() - 1 {
                assert(order.drop_last()[k] == order[k]);
                assert(inner.contains(order[k]));
                let j = choose|j: int| 0 <= j < inner.len() && inner[j] == order[k];
                assert(p[j] == order[k]);
            } else {
                assert(p[order.len() as int] == order[k]);
            }
        }
    }
}

/// Entering a position into a ranking that is in order leaves it in order.
pub proof fn lemma_placed_in_order(
    order: Seq<int>,
    keys: Seq<Seq<char>>,
    x: int,
    descending: bool,
)
    requires
        in_order(order, keys, descending),
    ensures
        in_order(placed(order, keys, x, descending), keys, descending),
    decreases order.len(),
{
    let p = placed(order, keys, x, descending);
    lemma_placed(order, keys, x, descending);
    if order.len() == 0 {
    } else if may_precede(keys, order.last(), x, descending) {
        assert forall|k: int| 0 <= k < p.len() - 1 implies #[trigger] may_precede(
            keys,
            p[k],
            p[k + 1],
            descending,
        ) by {
            if k < order.len() - 1 {
                assert(may_precede(keys, order[k], order[k + 1], descending));
            }
        }
    } else {
        let rest = order.drop_last();
        let inner = placed(rest, keys, x, descending);
        assert forall|k: int| 0 <= k < rest.len() - 1 implies #[trigger] may_precede(
            keys,
            rest[k],
            rest[k + 1],
            descending,
        ) by {
            assert(may_precede(keys, order[k], order[k + 1], descending));
        }
        lemma_placed_in_order(rest, keys, x, descending);
        lemma_placed(rest, keys, x, descending);
        assert forall|k: int| 0 <= k < p.len() - 1 implies #[trigger] may_precede(
            keys,
            p[k],
            p[k + 1],
            descending,
        ) by {
            if k < inner.len() - 1 {
                assert(may_precede(keys, inner[k], inner[k + 1], descending));
            } else {
                assert(p[k] == inner.last());
                assert(p[k + 1] == order.last());
                if inner.last() == x {
                    lemma_lex_total(keys[order.last()], keys[x]);
                } else {
                    assert(rest.last() == order[order.len() - 2]);
                    assert(may_precede(
                        keys,
                        order[order.len() - 2],
                        order[order.len() - 2 + 1],
                        descending,
                    ));
                }
            }
        }
    }
}

/// A ranking holds each of the ranked positions, and only those, and is in
/// order.
pub proof fn lemma_ranking(keys: Seq<Seq<char>>, n: int, descending: bool)
    requires
        0 <= n,
    ensures
        ranking(keys, n, descending).len() == n,
        forall|k: int| 0 <= k < n ==> 0 <= #[trigger] ranking(keys, n, descending)[k] < n,
        forall|i: int| 0 <= i < n ==> ranking(keys, n, descending).contains(i),
        in_order(ranking(keys, n, descending), keys, descending),
    decreases n,
{
    if n > 0 {
        let before = ranking(keys, n - 1, descending);
        let now = ranking(keys, n, descending);
        lemma_ranking(keys, n - 1, descending);
        lemma_placed(before, keys, n - 1, descending);
        lemma_placed_in_order(before, keys, n - 1, descending);
        assert forall|k: int| 0 <= k < n implies 0 <= #[trigger] now[k] < n by {
            if now[k] != n - 1 {
                assert(before.contains(now[k]));
            }
        }
        assert forall|i: int| 0 <= i < n implies now.contains(i) by {
            if i < n - 1 {
                assert(before.contains(i));
                let j = choose|j: int| 0 <= j < before.len() && before[j] == i;
                assert(now.contains(before[j]));
            }
        }
    }
}

/// Keys that are in order already keep their places.
pub proof fn lemma_ranking_of_ordered(keys: Seq<Seq<char>>, n: int)
    requires
        0 <= n <= keys.len(),
        forall|k: int| 0 <= k < keys.len() - 1 ==> lex_le(#[trigger] keys[k], keys[k + 1]),
    ensures
        ranking(keys, n, false) == Seq::new(n as nat, |k: int| k),
    decreases n,
{
    if n > 0 {
        lemma_ranking_of_ordered(keys, n - 1);
        let before = ranking(keys, n - 1, false);
        if n > 1 {
            assert(before.last() == n - 2);
            assert(lex_le(keys[n - 2], keys[n - 2 + 1]));
        }
        assert(ranking(keys, n, false) =~= Seq::new(n as nat, |k: int| k));
    }
}

/// The positions in a vector, as numbers.
pub open spec fn positions(v: Seq<usize>) -> Seq<int> {
    Seq::new(v.len(), |k: int| v[k] as int)
}

/// Where `placed` puts a position: after the last entry that may stand
/// before it.
proof fn lemma_placed_at(
    order: Seq<int>,
    keys: Seq<Seq<char>>,
    x: int,
    descending: bool,
    at: int,
)
    requires
        0 <= at <= order.len(),
        at > 0 ==> may_precede(keys, order[at - 1], x, descending),
        forall|k: int| at <= k < order.len() ==> !may_precede(keys, order[k], x, descending),
    ensures
        placed(order, keys, x, descending) == order.subrange(0, at).push(x) + order.subrange(
            at,
            order.len() as int,
        ),
    decreases order.len(),
{
    let p = placed(order, keys, x, descending);
    let want = order.subrange(0, at).push(x) + order.subrange(at, order.len() as int);
    if order.len() == 0 {
        assert(p =~= want);
    } else if at == order.len() {
        assert(p =~= want);
    } else {
        let rest = order.drop_last();
        assert(!may_precede(keys, order[order.len() - 1], x, descending));
        assert forall|k: int| at <= k < rest.len() implies !may_precede(
            keys,
            rest[k],
            x,
            descending,
        ) by {
            assert(rest[k] == order[k]);
        }
        if at > 0 {
            assert(rest[at - 1] == order[at - 1]);
        }
        lemma_placed_at(rest, keys, x, descending, at);
        assert(p =~= want);
    }
}

fn precedes(keys: &Vec<Vec<char>>, a: usize, b: usize, descending: bool) -> (res: bool)
    requires
        a < keys.len(),
        b < keys.len(),
    ensures
        res == may_precede(crate::text::texts(keys@), a as int, b as int, descending),
{
    if descending {
        text_le(&keys[b], &keys[a])
    } else {
        text_le(&keys[a], &keys[b])
    }
}

/// Ranks the positions of a list of keys: ascending by key, or descending.
/// Positions with equal keys keep their order.
pub fn rank(keys: &Vec<Vec<char>>, descending: bool) -> (res: Vec<usize>)
    ensures
        positions(res@) == ranked(crate::text::texts(keys@), descending),
        res.len() == keys.len(),
        forall|k: int| 0 <= k < res.len() ==> res@[k] < keys.len(),
{
    let ghost shown = crate::text::texts(keys@);
    let mut order: Vec<usize> = Vec::new();
    let mut n: usize = 0;
    assert(positions(order@) =~= ranking(shown, 0, descending));
    while n < keys.len()
        invariant
            n <= keys.len(),
            shown == crate::text::texts(keys@),
            positions(order@) == ranking(shown, n as int, descending),
            order.len() == n,
            forall|k: int| 0 <= k < order.len() ==> order@[k] < n,
        decreases keys.len() - n,
    {
        let ghost before = positions(order@);
        let mut at: usize = order.len();
        while at > 0 && !precedes(keys, order[at - 1], n, descending)
            invariant
                at <= order.len(),
                n < keys.len(),
                shown == crate::text::texts(keys@),
                before == positions(order@),
                forall|k: int| 0 <= k < order.len() ==> order@[k] < n,
                forall|k: int|
                    at <= k < order.len() ==> !may_precede(shown, before[k], n as int, descending),
            decreases at,
        {
            at -= 1;
        }
        proof {
            lemma_placed_at(before, shown, n as int, descending, at as int);
        }
        order.insert(at, n);
        assert(positions(order@) =~= before.subrange(0, at as int).push(n as int)
            + before.subrange(at as int, before.len() as int));
        n += 1;
    }
    proof {
        lemma_ranking(shown, keys.len() as int, descending);
    }
    order
}

} // verus!
