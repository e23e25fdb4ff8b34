use vstd::prelude::*;
use itertools::Itertools;
use crate::options::texts;

verus! {

/// The `k`-element combinations of the indices `start..n`, each an
/// increasing sequence, in lexicographic order.
pub open spec fn combos(start: int, n: int, k: nat) -> Seq<Seq<int>>
    decreases k, n - start,
{
    if k == 0 {
        seq![Seq::empty()]
    } else if start >= n {
        Seq::empty()
    } else {
        combos(start + 1, n, (k - 1) as nat).map_values(|c: Seq<int>| seq![start] + c)
            + combos(start + 1, n, k)
    }
}

/// Every index combination of the sizes `1..m`, size by size.
pub open spec fn sizes_below(n: int, m: nat) -> Seq<Seq<int>>
    decreases m,
{
    if m <= 1 {
        Seq::empty()
    } else {
        sizes_below(n, (m - 1) as nat) + combos(0, n, (m - 1) as nat)
    }
}

/// The index combinations tested for `n` features: every non-empty proper
/// subset, by ascending size.
pub open spec fn enumeration(n: nat) -> Seq<Seq<int>> {
    sizes_below(n as int, n)
}

/// The names joined by single spaces.
pub open spec fn joined(parts: Seq<Seq<char>>) -> Seq<char>
    decreases parts.len(),
{
    if parts.len() == 0 {
        Seq::empty()
    } else if parts.len() == 1 {
        parts[0]
    } else {
        joined(parts.drop_last()) + seq![' '] + parts.last()
    }
}

/// The names that a combination of indices picks, in index order.
pub open spec fn picked(names: Seq<Seq<char>>, c: Seq<int>) -> Seq<Seq<char>> {
    c.map_values(|i: int| names[i])
}

/// The distinguished feature that is never part of a tested subset.
pub open spec fn default_name() -> Seq<char> {
    "default"@
}

/// The feature names without `default`, in their order.
pub open spec fn without_default(names: Seq<Seq<char>>) -> Seq<Seq<char>>
    decreases names.len(),
{
    if names.len() == 0 {
        Seq::empty()
    } else if names.last() == default_name() {
        without_default(names.drop_last())
    } else {
        without_default(names.drop_last()).push(names.last())
    }
}

/// Indices as mathematical integers.
pub open spec fn as_ints(v: Seq<usize>) -> Seq<int> {
    v.map_values(|x: usize| x as int)
}

/// A combination of indices rendered as the picked names joined by spaces.
pub open spec fn render(names: Seq<Seq<char>>, c: Seq<int>) -> Seq<char> {
    joined(picked(names, c))
}

/// Each combination of indices rendered.
pub open spec fn render_all(names: Seq<Seq<char>>, cs: Seq<Seq<int>>) -> Seq<Seq<char>> {
    cs.map_values(|c: Seq<int>| render(names, c))
}

/// The rendered subsets for the declared feature names.
pub open spec fn rendered_sets(names: Seq<Seq<char>>) -> Seq<Seq<char>> {
    let f = without_default(names);
    render_all(f, enumeration(f.len()))
}

/// An increasing sequence of indices in `lo..hi`.
pub open spec fn increasing_in(c: Seq<int>, lo: int, hi: int) -> bool {
    &&& forall|i: int| 0 <= i < c.len() ==> lo <= #[trigger] c[i] < hi
    &&& forall|i: int, j: int| 0 <= i < j < c.len() ==> c[i] < c[j]
}

/// `a` comes before `b` in lexicographic order (same length, first difference smaller).
pub open spec fn lex_less(a: Seq<int>, b: Seq<int>) -> bool {
    &&& a.len() == b.len()
    &&& exists|p: int|
        0 <= p < a.len() && a[p] < b[p] && (forall|q: int| 0 <= q < p ==> a[q] == b[q])
}

/// Number of ways to choose `k` items out of `m`.
pub open spec fn binom(m: int, k: nat) -> nat
    decreases m,
{
    if k == 0 {
        1
    } else if m <= 0 {
        0
    } else {
        binom(m - 1, (k - 1) as nat) + binom(m - 1, k)
    }
}

/// `2` to the power `n`.
pub open spec fn pow2(n: nat) -> nat
    decreases n,
{
    if n == 0 {
        1
    } else {
        2 * pow2((n - 1) as nat)
    }
}

proof fn lemma_combos_shape(start: int, n: int, k: nat)
    ensures
        forall|i: int|
            0 <= i < combos(start, n, k).len() ==> {
                let c = #[trigger] combos(start, n, k)[i];
                c.len() == k && increasing_in(c, start, n)
            },
    decreases k, n - start,
{
    if k > 0 && start < n {
        lemma_combos_shape(start + 1, n, (k - 1) as nat);
        lemma_combos_shape(start + 1, n, k);
        let left = combos(start + 1, n, (k - 1) as nat);
        assert forall|i: int| 0 <= i < combos(start, n, k).len() implies {
            let c = #[trigger] combos(start, n, k)[i];
            c.len() == k && increasing_in(c, start, n)
        } by {
            let c = combos(start, n, k)[i];
            if i < left.len() {
                let d = left[i];
                assert(c == seq![start] + d);
                assert(d.len() == k - 1 && increasing_in(d, start + 1, n));
                assert forall|a: int| 0 <= a < c.len() implies start <= #[trigger] c[a] < n by {
                    if a > 0 {
                        assert(c[a] == d[a - 1]);
                    }
                }
                assert forall|a: int, b: int| 0 <= a < b < c.len() implies c[a] < c[b] by {
                    assert(c[b] == d[b - 1]);
                    if a > 0 {
                        assert(c[a] == d[a - 1]);
                    }
                }
            } else {
                let d = combos(start + 1, n, k)[i - left.len()];
                assert(c == d);
                assert(d.len() == k && increasing_in(d, start + 1, n));
            }
        }
    }
}

proof fn lemma_combos_sorted(start: int, n: int, k: nat)
    ensures
        forall|i: int, j: int|
            0 <= i < j < combos(start, n, k).len() ==> lex_less(
                #[trigger] combos(start, n, k)[i],
                #[trigger] combos(start, n, k)[j],
            ),
    decreases k, n - start,
{
    if k > 0 && start < n {
        lemma_combos_sorted(start + 1, n, (k - 1) as nat);
        lemma_combos_sorted(start + 1, n, k);
        lemma_combos_shape(start + 1, n, (k - 1) as nat);
        lemma_combos_shape(start + 1, n, k);
        let left = combos(start + 1, n, (k - 1) as nat);
        let right = combos(start + 1, n, k);
        let all = combos(start, n, k);
        assert forall|i: int, j: int| 0 <= i < j < all.len() implies lex_less(
            #[trigger] all[i],
            #[trigger] all[j],
        ) by {
            if j < left.len() {
                let a = left[i];
                let b = left[j];
                assert(lex_less(a, b));
                let p = choose|p: int|
                    0 <= p < a.len() && a[p] < b[p] && (forall|q: int| 0 <= q < p ==> a[q] == b[q]);
                assert(all[i] == seq![start] + a);
                assert(all[j] == seq![start] + b);
                assert(forall|q: int| 0 <= q < p + 1 ==> all[i][q] == all[j][q]);
                assert(all[i][p + 1] < all[j][p + 1]);
            } else if i < left.len() {
                let a = left[i];
                let b = right[j - left.len()];
                assert(all[i] == seq![start] + a);
                assert(all[j] == b);
                assert(b[0] >= start + 1);
                assert(all[i][0] < all[j][0]);
            } else {
                assert(all[i] == right[i - left.len()]);
                assert(all[j] == right[j - left.len()]);
            }
        }
    }
}

proof fn lemma_combos_complete(start: int, n: int, k: nat, c: Seq<int>)
    requires
        c.len() == k,
        increasing_in(c, start, n),
    ensures
        combos(start, n, k).contains(c),
    decreases k, n - start,
{
    if k == 0 {
        assert(c =~= Seq::<int>::empty());
        assert(combos(start, n, k)[0] == c);
    } else {
        assert(c[0] < n);
        let left = combos(start + 1, n, (k - 1) as nat);
        let right = combos(start + 1, n, k);
        if c[0] == start {
            let rest = c.drop_first();
            assert(increasing_in(rest, start + 1, n)) by {
                assert forall|i: int| 0 <= i < rest.len() implies start + 1 <= #[trigger] rest[i] < n by {
                    assert(c[0] < c[i + 1]);
                }
            }
            lemma_combos_complete(start + 1, n, (k - 1) as nat, rest);
            let i = choose|i: int| 0 <= i < left.len() && left[i] == rest;
            assert(c =~= seq![start] + rest);
            assert(combos(start, n, k)[i] == c);
        } else {
            assert(increasing_in(c, start + 1, n)) by {
                assert forall|i: int| 0 <= i < c.len() implies start + 1 <= #[trigger] c[i] < n by {
                    if i > 0 {
                        assert(c[0] < c[i]);
                    }
                }
            }
            lemma_combos_complete(start + 1, n, k, c);
            let i = choose|i: int| 0 <= i < right.len() && right[i] == c;
            assert(combos(start, n, k)[i + left.len()] == c);
        }
    }
}

proof fn lemma_combos_len(start: int, n: int, k: nat)
    ensures
        combos(start, n, k).len() == binom(n - start, k),
    decreases k, n - start,
{
    if k > 0 && start < n {
        lemma_combos_len(start + 1, n, (k - 1) as nat);
        lemma_combos_len(start + 1, n, k);
    }
}

/// Relies on itertools' `combinations`: the `k`-element combinations of
/// `0..n`, in lexicographic order of the index tuples.
#[verifier::external_body]
fn index_combinations(n: usize, k: usize) -> (r: Vec<Vec<usize>>)
    ensures
        r@.len() == combos(0, n as int, k as nat).len(),
        forall|i: int|
            0 <= i < r@.len() ==> as_ints((#[trigger] r@[i])@) == combos(
                0,
                n as int,
                k as nat,
            )[i],
{
    (0..n).combinations(k).collect()
}

/// Relies on itertools' `join`: the parts separated by one space.
#[verifier::external_body]
fn join_names(parts: &Vec<String>) -> (r: String)
    ensures
        r@ == joined(texts(parts@)),
{
    parts.iter().join(" ")
}

/// The feature names with `default` removed, in their order.
pub fn non_default_names(names: &Vec<String>) -> (r: Vec<String>)
    ensures
        texts(r@) == without_default(texts(names@)),
{
    let default = "default".to_owned();
    let mut r: Vec<String> = Vec::new();
    let mut i: usize = 0;
    while i < names.len()
        invariant
            i <= names@.len(),
            default@ == default_name(),
            texts(r@) == without_default(texts(names@).take(i as int)),
        decreases names@.len() - i,
    {
        let ghost before = texts(names@).take(i as int);
        assert(texts(names@).take(i + 1).drop_last() == before);
        if names[i] != default {
            r.push(names[i].clone());
            assert(texts(r@) =~= without_default(texts(names@).take(i + 1)));
        }
        i = i + 1;
    }
    assert(texts(names@).take(names@.len() as int) =~= texts(names@));
    r
}

fn pick_names(names: &Vec<String>, c: &Vec<usize>) -> (r: Vec<String>)
    requires
        forall|i: int| 0 <= i < c@.len() ==> (#[trigger] c@[i]) < names@.len(),
    ensures
        texts(r@) == picked(texts(names@), as_ints(c@)),
{
    let ghost ci = as_ints(c@);
    let mut r: Vec<String> = Vec::new();
    let mut i: usize = 0;
    while i < c.len()
        invariant
            i <= c@.len(),
            ci == as_ints(c@),
            forall|j: int| 0 <= j < c@.len() ==> (#[trigger] c@[j]) < names@.len(),
            texts(r@) == picked(texts(names@), ci.take(i as int)),
        decreases c@.len() - i,
    {
        let idx = c[i];
        let ghost prev = r@;
        assert(texts(prev).len() == prev.len());
        r.push(names[idx].clone());
        i = i + 1;
        assert forall|k: int| 0 <= k < i implies texts(r@)[k] == picked(texts(names@), ci.take(i as int))[k] by {
            if k < i - 1 {
                assert(texts(prev)[k] == picked(texts(names@), ci.take(i - 1))[k]);
            }
        }
        assert(texts(r@) =~= picked(texts(names@), ci.take(i as int)));
    }
    assert(ci.take(c@.len() as int) =~= ci);
    r
}

/// Enumerates the feature subsets to test, each rendered as the chosen names
/// joined by single spaces: every non-empty proper subset of the names other
/// than `default`, by ascending size, and within a size in lexicographic
/// order of the index tuples.
pub fn feature_sets(feature_names: &Vec<String>) -> (r: Vec<String>)
    ensures
        texts(r@) == rendered_sets(texts(feature_names@)),
{
    let features = non_default_names(feature_names);
    let ghost f = texts(features@);
    let n = features.len();
    let mut sets: Vec<String> = Vec::new();
    let mut k: usize = 1;
    while k < n
        invariant
            1 <= k,
            n == f.len(),
            f == texts(features@),
            k <= n || k == 1,
            texts(sets@) == render_all(f, sizes_below(n as int, k as nat)),
        decreases n - k,
    {
        let combinations = index_combinations(n, k);
        let ghost group = combos(0, n as int, k as nat);
        let ghost done = texts(sets@);
        proof {
            lemma_combos_shape(0, n as int, k as nat);
        }
        let mut j: usize = 0;
        while j < combinations.len()
            invariant
                j <= combinations@.len(),
                combinations@.len() == group.len(),
                forall|i: int|
                    0 <= i < combinations@.len() ==> as_ints((#[trigger] combinations@[i])@) == group[i],
                forall|i: int|
                    0 <= i < group.len() ==> {
                        let c = #[trigger] group[i];
                        c.len() == k && increasing_in(c, 0, n as int)
                    },
                n == f.len(),
                f == texts(features@),
                texts(sets@) == done + render_all(f, group.take(j as int)),
            decreases combinations@.len() - j,
        {
            let ghost c = group[j as int];
            assert forall|i: int| 0 <= i < combinations@[j as int]@.len() implies (
            #[trigger] combinations@[j as int]@[i]) < features@.len() by {
                assert(as_ints(combinations@[j as int]@)[i] == c[i]);
            }
            assert(as_ints(combinations@[j as int]@) == c);
            let chosen = pick_names(&features, &combinations[j]);
            let set = join_names(&chosen);
            let ghost prev = sets@;
            assert(texts(prev).len() == prev.len());
            assert(group.take(j as int).len() == j);
            sets.push(set);
            j = j + 1;
            assert forall|t: int| 0 <= t < sets@.len() implies texts(sets@)[t] == (done + render_all(f, group.take(j as int)))[t] by {
                if t < prev.len() {
                    assert(texts(prev)[t] == (done + render_all(f, group.take(j - 1)))[t]);
                    if t >= done.len() {
                        assert(group.take(j - 1)[t - done.len()] == group.take(j as int)[t - done.len()]);
                    }
                } else {
                    assert(group.take(j as int)[j - 1] == c);
                }
            }
            assert(texts(sets@) =~= done + render_all(f, group.take(j as int)));
        }
        assert(group.take(group.len() as int) =~= group);
        k = k + 1;
        assert(texts(sets@) =~= render_all(f, sizes_below(n as int, k as nat)));
    }
    assert(sizes_below(n as int, k as nat) == enumeration(f.len()));
    sets
}

/// Sum of `binom(m, k)` over `k < t`.
pub open spec fn binom_sum(m: int, t: nat) -> nat
    decreases t,
{
    if t == 0 {
        0
    } else {
        binom_sum(m, (t - 1) as nat) + binom(m, (t - 1) as nat)
    }
}

proof fn lemma_binom_above(m: int, k: nat)
    requires
        0 <= m < k,
    ensures
        binom(m, k) == 0,
    decreases m,
{
    if m > 0 {
        lemma_binom_above(m - 1, (k - 1) as nat);
        lemma_binom_above(m - 1, k);
    }
}

proof fn lemma_binom_diag(m: nat)
    ensures
        binom(m as int, m) == 1,
    decreases m,
{
    if m > 0 {
        lemma_binom_diag((m - 1) as nat);
        lemma_binom_above(m - 1, m);
    }
}

proof fn lemma_binom_sum_pascal(m: nat, t: nat)
    requires
        t >= 1,
    ensures
        binom_sum((m + 1) as int, t) == binom_sum(m as int, t) + binom_sum(m as int, (t - 1) as nat),
    decreases t,
{
    let a = (m + 1) as int;
    if t > 1 {
        lemma_binom_sum_pascal(m, (t - 1) as nat);
        assert(binom(a, (t - 1) as nat) == binom(m as int, (t - 2) as nat) + binom(m as int, (t - 1) as nat));
        assert(binom_sum(m as int, (t - 1) as nat) == binom_sum(m as int, (t - 2) as nat) + binom(m as int, (t - 2) as nat));
    } else {
        assert(binom_sum(a, 0) == 0);
        assert(binom_sum(m as int, 0) == 0);
        assert(binom(a, 0) == 1);
        assert(binom(m as int, 0) == 1);
    }
}

proof fn lemma_binom_sum_total(m: nat)
    ensures
        binom_sum(m as int, m + 1) == pow2(m),
    decreases m,
{
    if m > 0 {
        let p = (m - 1) as nat;
        lemma_binom_sum_total(p);
        lemma_binom_sum_pascal(p, m + 1);
        lemma_binom_above(p as int, m);
        assert(binom_sum(p as int, m + 1) == binom_sum(p as int, m));
        assert(pow2(m) == 2 * pow2(p));
    } else {
        assert(binom_sum(0, 0) == 0);
        assert(binom_sum(0, 1) == 1);
    }
}

proof fn lemma_sizes_below_facts(n: nat, m: nat)
    requires
        m <= n + 1,
    ensures
        sizes_below(n as int, m).len() + 1 == binom_sum(n as int, m) || m == 0,
        forall|i: int|
            0 <= i < sizes_below(n as int, m).len() ==> {
                let c = #[trigger] sizes_below(n as int, m)[i];
                1 <= c.len() < m && increasing_in(c, 0, n as int)
            },
        forall|i: int, j: int|
            0 <= i < j < sizes_below(n as int, m).len() ==> {
                let a = #[trigger] sizes_below(n as int, m)[i];
                let b = #[trigger] sizes_below(n as int, m)[j];
                a.len() < b.len() || lex_less(a, b)
            },
        forall|c: Seq<int>|
            1 <= c.len() < m && increasing_in(c, 0, n as int) ==> #[trigger] sizes_below(
                n as int,
                m,
            ).contains(c),
    decreases m,
{
    if m > 1 {
        let k = (m - 1) as nat;
        lemma_sizes_below_facts(n, k);
        lemma_combos_shape(0, n as int, k);
        lemma_combos_sorted(0, n as int, k);
        lemma_combos_len(0, n as int, k);
        let front = sizes_below(n as int, k);
        let group = combos(0, n as int, k);
        let all = sizes_below(n as int, m);
        assert(all == front + group);
        assert forall|i: int| 0 <= i < all.len() implies {
            let c = #[trigger] all[i];
            1 <= c.len() < m && increasing_in(c, 0, n as int)
        } by {
            if i >= front.len() {
                assert(all[i] == group[i - front.len()]);
            }
        }
        assert forall|i: int, j: int| 0 <= i < j < all.len() implies {
            let a = #[trigger] all[i];
            let b = #[trigger] all[j];
            a.len() < b.len() || lex_less(a, b)
        } by {
            if j >= front.len() {
                assert(all[j] == group[j - front.len()]);
                if i >= front.len() {
                    assert(all[i] == group[i - front.len()]);
                }
            }
        }
        assert forall|c: Seq<int>|
            1 <= c.len() < m && increasing_in(c, 0, n as int) implies #[trigger] all.contains(c) by {
            if c.len() < k {
                assert(front.contains(c));
                let i = choose|i: int| 0 <= i < front.len() && front[i] == c;
                assert(all[i] == c);
            } else {
                lemma_combos_complete(0, n as int, k, c);
                let i = choose|i: int| 0 <= i < group.len() && group[i] == c;
                assert(all[i + front.len()] == c);
            }
        }
        if k == 1 {
            assert(binom_sum(n as int, 0) == 0);
            assert(binom_sum(n as int, 1) == 1);
        }
    } else if m == 1 {
        assert(binom_sum(n as int, 0) == 0);
        assert(binom_sum(n as int, 1) == 1);
    }
}

/// Enumeration completeness: for `n >= 2` features there are exactly
/// `2^n - 2` subsets, no two of them equal, and every non-empty proper
/// subset, written as its increasing indices, is among them.
pub proof fn lemma_enumeration_complete(n: nat)
    requires
        n >= 2,
    ensures
        enumeration(n).len() == pow2(n) - 2,
        forall|i: int, j: int|
            0 <= i < j < enumeration(n).len() ==> #[trigger] enumeration(n)[i]
                != #[trigger] enumeration(n)[j],
        forall|c: Seq<int>|
            1 <= c.len() < n && increasing_in(c, 0, n as int) ==> #[trigger] enumeration(
                n,
            ).contains(c),
        forall|i: int|
            0 <= i < enumeration(n).len() ==> {
                let c = #[trigger] enumeration(n)[i];
                1 <= c.len() < n && increasing_in(c, 0, n as int)
            },
{
    lemma_sizes_below_facts(n, n);
    lemma_binom_sum_total(n);
    lemma_binom_diag(n);
    let e = enumeration(n);
    assert forall|i: int, j: int| 0 <= i < j < e.len() implies #[trigger] e[i] != #[trigger] e[j] by {
        let a = e[i];
        let b = e[j];
        if a.len() == b.len() {
            assert(lex_less(a, b));
            let p = choose|p: int|
                0 <= p < a.len() && a[p] < b[p] && (forall|q: int| 0 <= q < p ==> a[q] == b[q]);
            assert(a[p] != b[p]);
        }
    }
}

/// Enumeration order: subsets come by ascending size, and within one size
/// in lexicographic order of their index tuples; each subset lists its
/// indices in increasing order, so the names keep the order of the list.
pub proof fn lemma_enumeration_order(n: nat)
    ensures
        forall|i: int, j: int|
            0 <= i < j < enumeration(n).len() ==> {
                let a = #[trigger] enumeration(n)[i];
                let b = #[trigger] enumeration(n)[j];
                a.len() < b.len() || (a.len() == b.len() && lex_less(a, b))
            },
        forall|i: int|
            0 <= i < enumeration(n).len() ==> increasing_in(
                #[trigger] enumeration(n)[i],
                0,
                n as int,
            ),
{
    lemma_sizes_below_facts(n, n);
}

proof fn lemma_without_default(names: Seq<Seq<char>>)
    ensures
        forall|j: int|
            0 <= j < without_default(names).len() ==> #[trigger] without_default(names)[j]
                != default_name(),
    decreases names.len(),
{
    if names.len() > 0 {
        let rest = without_default(names.drop_last());
        lemma_without_default(names.drop_last());
        if names.last() != default_name() {
            assert forall|j: int| 0 <= j < rest.len() + 1 implies #[trigger] rest.push(names.last())[j]
                != default_name() by {
                if j < rest.len() {
                    assert(rest.push(names.last())[j] == rest[j]);
                }
            }
        }
    }
}

/// Default exclusion: no name of any enumerated subset is `default`.
pub proof fn lemma_default_excluded(names: Seq<Seq<char>>)
    ensures
        forall|i: int, j: int|
            0 <= i < enumeration(without_default(names).len()).len() && 0 <= j
                < enumeration(without_default(names).len())[i].len() ==> #[trigger] picked(
                without_default(names),
                enumeration(without_default(names).len())[i],
            )[j] != default_name(),
{
    let f = without_default(names);
    lemma_without_default(names);
    lemma_enumeration_order(f.len());
    assert forall|i: int, j: int|
        0 <= i < enumeration(f.len()).len() && 0 <= j < enumeration(f.len())[i].len() implies #[trigger] picked(
        f,
        enumeration(f.len())[i],
    )[j] != default_name() by {
        let c = enumeration(f.len())[i];
        assert(increasing_in(c, 0, f.len() as int));
        assert(0 <= c[j] < f.len());
    }
}

} // verus!
