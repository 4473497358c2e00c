//! Sums over sequences and maps, and counters that wrap at the machine word.

use vstd::prelude::*;

verus! {

/// The number of values of a machine word.
pub open spec fn word() -> int {
    usize::MAX + 1
}

/// `counter` holds `n`, up to the wrap-around of a machine word.
pub open spec fn counts(counter: usize, n: int) -> bool {
    counter == n % word()
}

pub proof fn lemma_counts_plus(counter: usize, n: int, k: usize)
    requires
        counts(counter, n),
    ensures
        counts(counter.wrapping_add(k), n + k),
{
    vstd::arithmetic::div_mod::lemma_add_mod_noop(n, k as int, word());
    vstd::arithmetic::div_mod::lemma_small_mod(k as nat, word() as nat);
    let sum: int = counter + k;
    if sum < word() {
        vstd::arithmetic::div_mod::lemma_small_mod(sum as nat, word() as nat);
    } else {
        vstd::arithmetic::div_mod::lemma_mod_add_multiples_vanish(sum - word(), word());
        vstd::arithmetic::div_mod::lemma_small_mod((sum - word()) as nat, word() as nat);
    }
}

pub proof fn lemma_counts_minus(counter: usize, n: int, k: usize)
    requires
        counts(counter, n),
    ensures
        counts(counter.wrapping_sub(k), n - k),
{
    vstd::arithmetic::div_mod::lemma_sub_mod_noop(n, k as int, word());
    vstd::arithmetic::div_mod::lemma_small_mod(k as nat, word() as nat);
    let difference: int = counter - k;
    if difference >= 0 {
        vstd::arithmetic::div_mod::lemma_small_mod(difference as nat, word() as nat);
    } else {
        vstd::arithmetic::div_mod::lemma_mod_add_multiples_vanish(difference, word());
        vstd::arithmetic::div_mod::lemma_small_mod((difference + word()) as nat, word() as nat);
    }
}

/// A counter of a number that fits the machine word holds exactly that number.
pub proof fn lemma_counts_exact(counter: usize, n: int)
    requires
        counts(counter, n),
        0 <= n <= usize::MAX,
    ensures
        counter == n,
{
    vstd::arithmetic::div_mod::lemma_small_mod(n as nat, word() as nat);
}

pub proof fn lemma_counts_zero()
    ensures
        counts(0, 0),
{
    vstd::arithmetic::div_mod::lemma_small_mod(0, word() as nat);
}

/// The sum of `f` over the elements of `s`.
pub open spec fn seq_sum<A>(s: Seq<A>, f: spec_fn(A) -> int) -> int
    decreases s.len(),
{
    if s.len() == 0 {
        0
    } else {
        seq_sum(s.drop_last(), f) + f(s.last())
    }
}

pub proof fn lemma_seq_sum_push<A>(s: Seq<A>, a: A, f: spec_fn(A) -> int)
    ensures
        seq_sum(s.push(a), f) == seq_sum(s, f) + f(a),
{
    assert(s.push(a).drop_last() =~= s);
}

pub proof fn lemma_seq_sum_update<A>(s: Seq<A>, i: int, a: A, f: spec_fn(A) -> int)
    requires
        0 <= i < s.len(),
    ensures
        seq_sum(s.update(i, a), f) == seq_sum(s, f) - f(s[i]) + f(a),
    decreases s.len(),
{
    if i == s.len() - 1 {
        assert(s.update(i, a).drop_last() =~= s.drop_last());
    } else {
        lemma_seq_sum_update(s.drop_last(), i, a, f);
        assert(s.update(i, a).drop_last() =~= s.drop_last().update(i, a));
    }
}

pub proof fn lemma_seq_sum_concat<A>(s: Seq<A>, t: Seq<A>, f: spec_fn(A) -> int)
    ensures
        seq_sum(s + t, f) == seq_sum(s, f) + seq_sum(t, f),
    decreases t.len(),
{
    if t.len() == 0 {
        assert(s + t =~= s);
    } else {
        lemma_seq_sum_concat(s, t.drop_last(), f);
        assert((s + t).drop_last() =~= s + t.drop_last());
    }
}

pub proof fn lemma_seq_sum_drop_first<A>(s: Seq<A>, f: spec_fn(A) -> int)
    requires
        s.len() > 0,
    ensures
        seq_sum(s, f) == f(s[0]) + seq_sum(s.drop_first(), f),
{
    let head = seq![s[0]];
    assert(head =~= Seq::<A>::empty().push(s[0]));
    lemma_seq_sum_push(Seq::<A>::empty(), s[0], f);
    lemma_seq_sum_concat(head, s.drop_first(), f);
    assert(s =~= head + s.drop_first());
}

/// Where no summand is negative, neither is the sum, and no summand exceeds it.
pub proof fn lemma_seq_sum_bounds<A>(s: Seq<A>, f: spec_fn(A) -> int)
    requires
        forall|i: int| 0 <= i < s.len() ==> f(#[trigger] s[i]) >= 0,
    ensures
        seq_sum(s, f) >= 0,
        forall|i: int| 0 <= i < s.len() ==> f(#[trigger] s[i]) <= seq_sum(s, f),
    decreases s.len(),
{
    if s.len() > 0 {
        assert forall|i: int| 0 <= i < s.drop_last().len() implies f(
            #[trigger] s.drop_last()[i],
        ) >= 0 by {
            assert(s.drop_last()[i] == s[i]);
        }
        lemma_seq_sum_bounds(s.drop_last(), f);
        assert forall|i: int| 0 <= i < s.len() implies f(#[trigger] s[i]) <= seq_sum(s, f) by {
            if i < s.len() - 1 {
                assert(s.drop_last()[i] == s[i]);
            }
        }
    }
}

/// Where each summand is zero or one, the sum is at most the number of summands, and below it
/// where one summand is zero.
pub proof fn lemma_seq_sum_at_most_len<A>(s: Seq<A>, f: spec_fn(A) -> int)
    requires
        forall|i: int| 0 <= i < s.len() ==> 0 <= f(#[trigger] s[i]) <= 1,
    ensures
        0 <= seq_sum(s, f) <= s.len(),
        forall|i: int| 0 <= i < s.len() && f(#[trigger] s[i]) == 0 ==> seq_sum(s, f) < s.len(),
    decreases s.len(),
{
    if s.len() > 0 {
        assert forall|i: int| 0 <= i < s.drop_last().len() implies 0 <= f(
            #[trigger] s.drop_last()[i],
        ) <= 1 by {
            assert(s.drop_last()[i] == s[i]);
        }
        lemma_seq_sum_at_most_len(s.drop_last(), f);
        assert forall|i: int| 0 <= i < s.len() && f(#[trigger] s[i]) == 0 implies seq_sum(s, f)
            < s.len() by {
            if i < s.len() - 1 {
                assert(s.drop_last()[i] == s[i]);
            }
        }
    }
}

pub proof fn lemma_seq_sum_zero<A>(s: Seq<A>, f: spec_fn(A) -> int)
    requires
        forall|i: int| 0 <= i < s.len() ==> f(#[trigger] s[i]) == 0,
    ensures
        seq_sum(s, f) == 0,
    decreases s.len(),
{
    if s.len() > 0 {
        assert forall|i: int| 0 <= i < s.drop_last().len() implies f(
            #[trigger] s.drop_last()[i],
        ) == 0 by {
            assert(s.drop_last()[i] == s[i]);
        }
        lemma_seq_sum_zero(s.drop_last(), f);
    }
}

/// Counts one for `x` and nothing for any other value.
pub open spec fn one_for<A>(x: A) -> spec_fn(A) -> int {
    |y: A|
        if y == x {
            1int
        } else {
            0int
        }
}

/// How often `x` occurs in `s`.
pub open spec fn occurrences<A>(s: Seq<A>, x: A) -> int {
    seq_sum(s, one_for(x))
}

/// The sum of `f` over the values of `m`.
pub open spec fn map_sum<K, V>(m: Map<K, V>, f: spec_fn(V) -> int) -> int
    decreases m.dom().len(),
    when m.dom().finite()
{
    if m.dom().len() == 0 {
        0
    } else {
        let k = m.dom().choose();
        f(m[k]) + map_sum(m.remove(k), f)
    }
}

pub proof fn lemma_map_sum_remove<K, V>(m: Map<K, V>, k: K, f: spec_fn(V) -> int)
    requires
        m.dom().finite(),
        m.contains_key(k),
    ensures
        map_sum(m, f) == f(m[k]) + map_sum(m.remove(k), f),
    decreases m.dom().len(),
{
    assert(m.dom().contains(k));
    let first = m.dom().choose();
    assert(m.dom().len() > 0);
    assert(m.dom().contains(first));
    if first != k {
        assert(m.remove(first).contains_key(k));
        lemma_map_sum_remove(m.remove(first), k, f);
        lemma_map_sum_remove(m.remove(k), first, f);
        assert(m.remove(first).remove(k) =~= m.remove(k).remove(first));
    }
}

pub proof fn lemma_map_sum_insert<K, V>(m: Map<K, V>, k: K, v: V, f: spec_fn(V) -> int)
    requires
        m.dom().finite(),
    ensures
        m.contains_key(k) ==> map_sum(m.insert(k, v), f) == map_sum(m, f) - f(m[k]) + f(v),
        !m.contains_key(k) ==> map_sum(m.insert(k, v), f) == map_sum(m, f) + f(v),
{
    lemma_map_sum_remove(m.insert(k, v), k, f);
    assert(m.insert(k, v).remove(k) =~= m.remove(k));
    if m.contains_key(k) {
        lemma_map_sum_remove(m, k, f);
    } else {
        assert(m.remove(k) =~= m);
    }
}

/// Where no summand is negative, neither is the sum, and no summand exceeds it.
pub proof fn lemma_map_sum_bounds<K, V>(m: Map<K, V>, f: spec_fn(V) -> int)
    requires
        m.dom().finite(),
        forall|k: K| m.contains_key(k) ==> f(#[trigger] m[k]) >= 0,
    ensures
        map_sum(m, f) >= 0,
        forall|k: K| m.contains_key(k) ==> f(#[trigger] m[k]) <= map_sum(m, f),
    decreases m.dom().len(),
{
    if m.dom().len() > 0 {
        let first = m.dom().choose();
        assert(m.contains_key(first));
        let rest = m.remove(first);
        assert forall|k: K| rest.contains_key(k) implies f(#[trigger] rest[k]) >= 0 by {
            assert(m.contains_key(k) && rest[k] == m[k]);
        }
        lemma_map_sum_bounds(rest, f);
        assert forall|k: K| m.contains_key(k) implies f(#[trigger] m[k]) <= map_sum(m, f) by {
            if k != first {
                assert(rest.contains_key(k) && rest[k] == m[k]);
            }
        }
    } else {
        assert forall|k: K| m.contains_key(k) implies f(#[trigger] m[k]) <= map_sum(m, f) by {
            assert(m.dom().contains(k));
            assert(m.dom() =~= Set::empty());
        }
    }
}

/// Two maps with the same keys and the same summands have the same sum.
pub proof fn lemma_map_sum_same<K, V>(m: Map<K, V>, n: Map<K, V>, f: spec_fn(V) -> int)
    requires
        m.dom().finite(),
        m.dom() == n.dom(),
        forall|k: K| m.contains_key(k) ==> f(#[trigger] m[k]) == f(n[k]),
    ensures
        map_sum(m, f) == map_sum(n, f),
    decreases m.dom().len(),
{
    if m.dom().len() > 0 {
        let first = m.dom().choose();
        assert(m.contains_key(first));
        assert forall|k: K| m.remove(first).contains_key(k) implies f(
            #[trigger] m.remove(first)[k],
        ) == f(n.remove(first)[k]) by {
            assert(m.contains_key(k) && m.remove(first)[k] == m[k]);
        }
        assert(m.remove(first).dom() =~= n.remove(first).dom());
        lemma_map_sum_same(m.remove(first), n.remove(first), f);
    }
}

/// Values that add nothing may be left out of a sum.
pub proof fn lemma_map_sum_restrict<K, V>(m: Map<K, V>, n: Map<K, V>, f: spec_fn(V) -> int)
    requires
        m.dom().finite(),
        n.dom().subset_of(m.dom()),
        forall|k: K| n.contains_key(k) ==> f(#[trigger] n[k]) == f(m[k]),
        forall|k: K| m.contains_key(k) && !n.contains_key(k) ==> f(#[trigger] m[k]) == 0,
    ensures
        map_sum(m, f) == map_sum(n, f),
    decreases m.dom().len(),
{
    vstd::set_lib::lemma_set_subset_finite(m.dom(), n.dom());
    if m.dom().len() > 0 {
        let first = m.dom().choose();
        assert(m.contains_key(first));
        let mr = m.remove(first);
        let nr = n.remove(first);
        assert forall|k: K| nr.contains_key(k) implies f(#[trigger] nr[k]) == f(mr[k]) by {
            assert(n.contains_key(k) && nr[k] == n[k]);
        }
        assert forall|k: K| mr.contains_key(k) && !nr.contains_key(k) implies f(
            #[trigger] mr[k],
        ) == 0 by {
            assert(m.contains_key(k) && mr[k] == m[k]);
        }
        lemma_map_sum_restrict(mr, nr, f);
        if n.contains_key(first) {
            lemma_map_sum_remove(n, first, f);
        } else {
            assert(nr =~= n);
        }
    } else {
        assert(m.dom() =~= Set::empty());
        assert(n.dom() =~= Set::empty());
        assert(n.dom().len() == 0);
    }
}

} // verus!
