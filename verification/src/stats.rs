use vstd::prelude::*;

use vstd::pervasive::VecAdditionalExecFns;
use vstd::relations::{sorted_by, total_ordering};
use vstd::seq_lib::group_to_multiset_ensures;
use vstd::seq_lib::lemma_sorted_unique;

use crate::ratio::Ratio;

verus! {

// ---------------------------------------------------------------------------
// The coerced domain
// ---------------------------------------------------------------------------

/// A coerced value lies in the range that some integer kind of at most
/// 32 bits (signed or unsigned) can take; widening such a value into `i64`
/// is lossless.
pub open spec fn in_coerced_range(v: int) -> bool {
    -0x8000_0000 <= v <= 0xFFFF_FFFF
}

/// Every element of the sequence lies in the coerced domain.
pub open spec fn all_in_coerced_range(s: Seq<i64>) -> bool {
    forall|i: int| 0 <= i < s.len() ==> in_coerced_range(#[trigger] s[i] as int)
}

// ---------------------------------------------------------------------------
// Sum and average
// ---------------------------------------------------------------------------

/// The sum of the values of a sequence.
pub open spec fn sum_int(s: Seq<i64>) -> int
    decreases s.len(),
{
    if s.len() == 0 {
        0
    } else {
        sum_int(s.drop_last()) + s.last()
    }
}

proof fn lemma_sum_take_step(s: Seq<i64>, i: int)
    requires
        0 <= i < s.len(),
    ensures
        sum_int(s.take(i + 1)) == sum_int(s.take(i)) + s[i],
{
    assert(s.take(i + 1).drop_last() =~= s.take(i));
    assert(s.take(i + 1).last() == s[i]);
}

/// The sum of the sequence, exactly.
pub fn sum(data: &Vec<i64>) -> (r: i128)
    requires
        all_in_coerced_range(data@),
    ensures
        r as int == sum_int(data@),
{
    let mut total: i128 = 0;
    let mut i: usize = 0;
    while i < data.len()
        invariant
            0 <= i <= data@.len(),
            all_in_coerced_range(data@),
            total as int == sum_int(data@.take(i as int)),
            -0x8000_0000 * (i as int) <= total as int <= 0xFFFF_FFFF * (i as int),
        decreases data@.len() - i,
    {
        proof {
            lemma_sum_take_step(data@, i as int);
            assert(in_coerced_range(data@[i as int] as int));
        }
        total = total + data[i] as i128;
        i = i + 1;
    }
    proof {
        assert(data@.take(data@.len() as int) =~= data@);
    }
    total
}

/// The average: the sum of the values over their count, exactly.  The empty
/// sequence gives `0 / 1` by explicit policy, so the operation is total.
pub fn average(data: &Vec<i64>) -> (r: Ratio)
    requires
        all_in_coerced_range(data@),
    ensures
        r.wf(),
        data@.len() == 0 ==> r.num == 0 && r.den == 1,
        data@.len() > 0 ==> r.num == sum_int(data@) && r.den == data@.len(),
{
    if data.len() == 0 {
        Ratio { num: 0, den: 1 }
    } else {
        Ratio { num: sum(data), den: data.len() }
    }
}

// ---------------------------------------------------------------------------
// Minimum, maximum, and the range spread
// ---------------------------------------------------------------------------

/// The least value of a non-empty sequence.
pub open spec fn seq_min(s: Seq<i64>) -> int
    recommends
        s.len() > 0,
    decreases s.len(),
{
    if s.len() <= 1 {
        s[0] as int
    } else if (s.last() as int) < seq_min(s.drop_last()) {
        s.last() as int
    } else {
        seq_min(s.drop_last())
    }
}

/// The greatest value of a non-empty sequence.
pub open spec fn seq_max(s: Seq<i64>) -> int
    recommends
        s.len() > 0,
    decreases s.len(),
{
    if s.len() <= 1 {
        s[0] as int
    } else if (s.last() as int) > seq_max(s.drop_last()) {
        s.last() as int
    } else {
        seq_max(s.drop_last())
    }
}

proof fn lemma_min_max_take_step(s: Seq<i64>, i: int)
    requires
        1 <= i < s.len(),
    ensures
        seq_min(s.take(i + 1)) == if (s[i] as int) < seq_min(s.take(i)) {
            s[i] as int
        } else {
            seq_min(s.take(i))
        },
        seq_max(s.take(i + 1)) == if (s[i] as int) > seq_max(s.take(i)) {
            s[i] as int
        } else {
            seq_max(s.take(i))
        },
{
    assert(s.take(i + 1).drop_last() =~= s.take(i));
    assert(s.take(i + 1).last() == s[i]);
}

/// The distance between the extremes: `max - min`.  Sequences of length
/// zero or one spread over nothing and give `0`.
pub open spec fn spread_spec(s: Seq<i64>) -> int {
    if s.len() <= 1 {
        0
    } else {
        seq_max(s) - seq_min(s)
    }
}

/// The numeric distance between the greatest and the least value.  This is
/// a range, not a statistical variance: the contract is the difference of
/// the extremes.
pub fn range_spread(data: &Vec<i64>) -> (r: i64)
    requires
        all_in_coerced_range(data@),
    ensures
        r as int == spread_spec(data@),
        data@.len() <= 1 ==> r == 0,
{
    if data.len() <= 1 {
        return 0;
    }
    let mut mn: i64 = data[0];
    let mut mx: i64 = data[0];
    let mut i: usize = 1;
    while i < data.len()
        invariant
            1 <= i <= data@.len(),
            all_in_coerced_range(data@),
            mn as int == seq_min(data@.take(i as int)),
            mx as int == seq_max(data@.take(i as int)),
            in_coerced_range(mn as int),
            in_coerced_range(mx as int),
        decreases data@.len() - i,
    {
        proof {
            lemma_min_max_take_step(data@, i as int);
            assert(in_coerced_range(data@[i as int] as int));
        }
        let x = data[i];
        if x < mn {
            mn = x;
        }
        if x > mx {
            mx = x;
        }
        i = i + 1;
    }
    proof {
        assert(data@.take(data@.len() as int) =~= data@);
    }
    mx - mn
}

// ---------------------------------------------------------------------------
// Sorting and the median
// ---------------------------------------------------------------------------

/// Ascending order.
pub open spec fn sorted_seq(s: Seq<i64>) -> bool {
    forall|a: int, b: int| 0 <= a < b < s.len() ==> s[a] <= s[b]
}

/// The total order the median sorts by.
pub open spec fn leq64() -> spec_fn(i64, i64) -> bool {
    |a: i64, b: i64| a <= b
}

/// The ascending rearrangement of a sequence.
pub open spec fn sorted_version(s: Seq<i64>) -> Seq<i64> {
    s.sort_by(leq64())
}

/// The median as an exact quotient `(numerator, denominator)`: the middle
/// element of the ascending rearrangement when the length is odd, the mean
/// of the two middle elements when it is even, and `0 / 1` for the empty
/// sequence by explicit policy.
pub open spec fn median_spec(s: Seq<i64>) -> (int, int) {
    if s.len() == 0 {
        (0, 1)
    } else {
        let t = sorted_version(s);
        if s.len() % 2 == 1 {
            (t[s.len() as int / 2] as int, 1)
        } else {
            ((t[s.len() as int / 2 - 1] as int) + (t[s.len() as int / 2] as int), 2)
        }
    }
}

/// Sorts the vector ascending in place, keeping exactly the same values.
fn sort_i64(v: &mut Vec<i64>)
    ensures
        final(v)@.len() == old(v)@.len(),
        sorted_seq(final(v)@),
        final(v)@.to_multiset() == old(v)@.to_multiset(),
{
    let mut i: usize = 1;
    while i < v.len()
        invariant
            1 <= i,
            v@.len() == old(v)@.len(),
            v@.to_multiset() == old(v)@.to_multiset(),
            forall|a: int, b: int| 0 <= a < b < i && b < v@.len() ==> v@[a] <= v@[b],
        decreases v@.len() - i,
    {
        let mut j: usize = i;
        while j > 0 && v[j - 1] > v[j]
            invariant
                0 <= j <= i < v@.len(),
                v@.len() == old(v)@.len(),
                v@.to_multiset() == old(v)@.to_multiset(),
                forall|a: int, b: int| 0 <= a < b <= i && b != j ==> v@[a] <= v@[b],
            decreases j,
        {
            let x = v[j - 1];
            let y = v[j];
            let ghost before = v@;
            v.set(j - 1, y);
            v.set(j, x);
            proof {
                broadcast use group_to_multiset_ensures;

                assert(v@ =~= before.update(j - 1, y).update(j as int, x));
                assert(v@.to_multiset() =~= before.to_multiset());
            }
            j = j - 1;
        }
        i = i + 1;
    }
}

proof fn lemma_leq64_total_ordering()
    ensures
        total_ordering(leq64()),
{
}

/// Relates a sorted rearrangement produced by executable code to the
/// specification-level one: they are the same sequence.
proof fn lemma_is_sorted_version(s: Seq<i64>, t: Seq<i64>)
    requires
        sorted_seq(t),
        t.to_multiset() == s.to_multiset(),
    ensures
        t == sorted_version(s),
{
    broadcast use group_to_multiset_ensures;

    lemma_leq64_total_ordering();
    s.lemma_sort_by_ensures(leq64());
    assert(sorted_by(t, leq64()));
    lemma_sorted_unique(t, sorted_version(s), leq64());
    assert(t =~= sorted_version(s));
}

/// The median: the middle of the values in ascending order, exactly.  An
/// even length gives the mean of the two middle elements as a quotient over
/// two; the empty sequence gives `0 / 1` by explicit policy.
pub fn median(data: &Vec<i64>) -> (r: Ratio)
    ensures
        r.wf(),
        r.num == median_spec(data@).0,
        r.den == median_spec(data@).1,
{
    let mut t: Vec<i64> = Vec::new();
    let mut i: usize = 0;
    while i < data.len()
        invariant
            0 <= i <= data@.len(),
            t@ =~= data@.take(i as int),
        decreases data@.len() - i,
    {
        t.push(data[i]);
        i = i + 1;
    }
    proof {
        assert(data@.take(data@.len() as int) =~= data@);
    }
    sort_i64(&mut t);
    proof {
        lemma_is_sorted_version(data@, t@);
        broadcast use group_to_multiset_ensures;

        assert(t@.len() == data@.len());
    }
    let n = t.len();
    if n == 0 {
        Ratio { num: 0, den: 1 }
    } else if n % 2 == 1 {
        Ratio { num: t[n / 2] as i128, den: 1 }
    } else {
        Ratio { num: (t[n / 2 - 1] as i128) + (t[n / 2] as i128), den: 2 }
    }
}

// ---------------------------------------------------------------------------
// Membership and the multi-mode
// ---------------------------------------------------------------------------

/// Whether `value` occurs in the sequence.  Doubles as the linear search
/// the mode tally uses to keep first-seen order.
pub fn search(data: &Vec<i64>, value: i64) -> (found: bool)
    ensures
        found == data@.contains(value),
{
    let mut i: usize = 0;
    while i < data.len()
        invariant
            0 <= i <= data@.len(),
            forall|j: int| 0 <= j < i ==> data@[j] != value,
        decreases data@.len() - i,
    {
        if data[i] == value {
            return true;
        }
        i = i + 1;
    }
    false
}

/// How often `v` occurs in `s`.
pub open spec fn count_of(s: Seq<i64>, v: i64) -> nat
    decreases s.len(),
{
    if s.len() == 0 {
        0
    } else {
        count_of(s.drop_last(), v) + if s.last() == v {
            1nat
        } else {
            0nat
        }
    }
}

/// The distinct values of `s`, each at the position of its first
/// occurrence.  This order, not a sorted one, decides how ties among the
/// modes are reported.
pub open spec fn first_seen(s: Seq<i64>) -> Seq<i64>
    decreases s.len(),
{
    if s.len() == 0 {
        Seq::empty()
    } else {
        let p = first_seen(s.drop_last());
        if p.contains(s.last()) {
            p
        } else {
            p.push(s.last())
        }
    }
}

/// The greatest occurrence count in `s` among the values of `vals`.
pub open spec fn max_count(s: Seq<i64>, vals: Seq<i64>) -> nat
    decreases vals.len(),
{
    if vals.len() == 0 {
        0
    } else {
        let rest = max_count(s, vals.drop_last());
        let c = count_of(s, vals.last());
        if c > rest {
            c
        } else {
            rest
        }
    }
}

/// Every value whose occurrence count equals the maximum occurrence count,
/// in first-seen order — provided something repeats at all.  When the
/// maximum count is one or the sequence is empty there is no mode and the
/// result is empty.
pub open spec fn modes_spec(s: Seq<i64>) -> Seq<i64> {
    let firsts = first_seen(s);
    let m = max_count(s, firsts);
    if m <= 1 {
        Seq::empty()
    } else {
        firsts.filter(|v: i64| count_of(s, v) == m)
    }
}

proof fn lemma_count_take_step(s: Seq<i64>, v: i64, i: int)
    requires
        0 <= i < s.len(),
    ensures
        count_of(s.take(i + 1), v) == count_of(s.take(i), v) + if s[i] == v {
            1nat
        } else {
            0nat
        },
{
    assert(s.take(i + 1).drop_last() =~= s.take(i));
    assert(s.take(i + 1).last() == s[i]);
}

proof fn lemma_first_seen_take_step(s: Seq<i64>, i: int)
    requires
        0 <= i < s.len(),
    ensures
        first_seen(s.take(i + 1)) == if first_seen(s.take(i)).contains(s[i]) {
            first_seen(s.take(i))
        } else {
            first_seen(s.take(i)).push(s[i])
        },
{
    assert(s.take(i + 1).drop_last() =~= s.take(i));
    assert(s.take(i + 1).last() == s[i]);
}

proof fn lemma_max_count_take_step(s: Seq<i64>, vals: Seq<i64>, k: int)
    requires
        0 <= k < vals.len(),
    ensures
        max_count(s, vals.take(k + 1)) == if count_of(s, vals[k]) > max_count(s, vals.take(k)) {
            count_of(s, vals[k])
        } else {
            max_count(s, vals.take(k))
        },
{
    assert(vals.take(k + 1).drop_last() =~= vals.take(k));
    assert(vals.take(k + 1).last() == vals[k]);
}

pub(crate) proof fn lemma_filter_take_step<A>(vals: Seq<A>, pred: spec_fn(A) -> bool, q: int)
    requires
        0 <= q < vals.len(),
    ensures
        vals.take(q + 1).filter(pred) == if pred(vals[q]) {
            vals.take(q).filter(pred).push(vals[q])
        } else {
            vals.take(q).filter(pred)
        },
{
    assert(vals.take(q + 1).drop_last() =~= vals.take(q));
    assert(vals.take(q + 1).last() == vals[q]);
    reveal_with_fuel(Seq::filter, 2);
}

/// How often `value` occurs in the sequence.
fn count_occurrences(data: &Vec<i64>, value: i64) -> (c: usize)
    ensures
        c as nat == count_of(data@, value),
{
    let mut c: usize = 0;
    let mut i: usize = 0;
    while i < data.len()
        invariant
            0 <= i <= data@.len(),
            c as nat == count_of(data@.take(i as int), value),
            c <= i,
        decreases data@.len() - i,
    {
        proof {
            lemma_count_take_step(data@, value, i as int);
        }
        if data[i] == value {
            c = c + 1;
        }
        i = i + 1;
    }
    proof {
        assert(data@.take(data@.len() as int) =~= data@);
    }
    c
}

/// The multi-mode: every value that occurs as often as any value does,
/// in first-seen order — empty when nothing repeats.  The tally runs in
/// two passes, first collecting the distinct values in first-seen order,
/// then counting each one's occurrences.
pub fn modes(data: &Vec<i64>) -> (r: Vec<i64>)
    ensures
        r@ == modes_spec(data@),
        data@.len() == 0 ==> r@ == Seq::<i64>::empty(),
{
    let ghost s = data@;
    let mut firsts: Vec<i64> = Vec::new();
    let mut i: usize = 0;
    while i < data.len()
        invariant
            0 <= i <= data@.len(),
            firsts@ == first_seen(data@.take(i as int)),
        decreases data@.len() - i,
    {
        proof {
            lemma_first_seen_take_step(data@, i as int);
        }
        let x = data[i];
        if !search(&firsts, x) {
            firsts.push(x);
        }
        i = i + 1;
    }
    proof {
        assert(data@.take(data@.len() as int) =~= data@);
    }
    let mut counts: Vec<usize> = Vec::new();
    let mut j: usize = 0;
    while j < firsts.len()
        invariant
            0 <= j <= firsts@.len(),
            counts@.len() == j,
            firsts@ == first_seen(data@),
            forall|k: int| 0 <= k < j ==> counts@[k] as nat == count_of(data@, firsts@[k]),
        decreases firsts@.len() - j,
    {
        let c = count_occurrences(data, firsts[j]);
        counts.push(c);
        j = j + 1;
    }
    let mut m: usize = 0;
    let mut k: usize = 0;
    while k < counts.len()
        invariant
            0 <= k <= counts@.len(),
            counts@.len() == firsts@.len(),
            firsts@ == first_seen(data@),
            forall|q: int| 0 <= q < counts@.len() ==> counts@[q] as nat == count_of(
                data@,
                firsts@[q],
            ),
            m as nat == max_count(data@, firsts@.take(k as int)),
        decreases counts@.len() - k,
    {
        proof {
            lemma_max_count_take_step(data@, firsts@, k as int);
        }
        if counts[k] > m {
            m = counts[k];
        }
        k = k + 1;
    }
    proof {
        assert(firsts@.take(firsts@.len() as int) =~= firsts@);
    }
    if m <= 1 {
        let r: Vec<i64> = Vec::new();
        return r;
    }
    let ghost pred = |v: i64| count_of(data@, v) == m as nat;
    let mut out: Vec<i64> = Vec::new();
    let mut q: usize = 0;
    while q < firsts.len()
        invariant
            0 <= q <= firsts@.len(),
            counts@.len() == firsts@.len(),
            firsts@ == first_seen(data@),
            m as nat == max_count(data@, firsts@),
            m > 1,
            forall|p: int| 0 <= p < counts@.len() ==> counts@[p] as nat == count_of(
                data@,
                firsts@[p],
            ),
            out@ == firsts@.take(q as int).filter(pred),
            pred == (|v: i64| count_of(data@, v) == m as nat),
        decreases firsts@.len() - q,
    {
        proof {
            lemma_filter_take_step(firsts@, pred, q as int);
        }
        if counts[q] == m {
            out.push(firsts[q]);
        }
        q = q + 1;
    }
    proof {
        assert(firsts@.take(firsts@.len() as int) =~= firsts@);
    }
    out
}

// ---------------------------------------------------------------------------
// Laws
// ---------------------------------------------------------------------------

/// The average of a non-empty sequence lies between the least and the
/// greatest value: `min * len <= sum <= max * len`, which is
/// `min <= sum / len <= max` with the positive denominator cleared.
pub proof fn lemma_average_in_range(s: Seq<i64>)
    requires
        s.len() > 0,
    ensures
        seq_min(s) * s.len() <= sum_int(s),
        sum_int(s) <= seq_max(s) * s.len(),
    decreases s.len(),
{
    if s.len() == 1 {
        assert(s.drop_last().len() == 0);
        assert(s.last() == s[0]);
        assert(sum_int(s) == sum_int(s.drop_last()) + s.last());
        assert(sum_int(s) == s[0] as int);
        assert(seq_min(s) * s.len() == seq_min(s)) by (nonlinear_arith)
            requires s.len() == 1,
        ;
        assert(seq_max(s) * s.len() == seq_max(s)) by (nonlinear_arith)
            requires s.len() == 1,
        ;
    } else {
        let d = s.drop_last();
        lemma_average_in_range(d);
        let n1 = d.len() as int;
        let mn = seq_min(s);
        let mx = seq_max(s);
        assert(mn <= seq_min(d) && mn <= s.last() as int);
        assert(mx >= seq_max(d) && mx >= s.last() as int);
        assert(mn * n1 <= seq_min(d) * n1) by (nonlinear_arith)
            requires mn <= seq_min(d), n1 >= 0,
        ;
        assert(seq_max(d) * n1 <= mx * n1) by (nonlinear_arith)
            requires seq_max(d) <= mx, n1 >= 0,
        ;
        assert(mn * (n1 + 1) == mn * n1 + mn) by (nonlinear_arith);
        assert(mx * (n1 + 1) == mx * n1 + mx) by (nonlinear_arith);
        assert(sum_int(s) == sum_int(d) + s.last());
    }
}

proof fn lemma_contains_split(s: Seq<i64>, v: i64)
    requires
        s.len() > 0,
    ensures
        s.contains(v) <==> (s.drop_last().contains(v) || s.last() == v),
{
    if s.contains(v) {
        let i = choose|i: int| 0 <= i < s.len() && s[i] == v;
        if i < s.len() - 1 {
            assert(s.drop_last()[i] == v);
        }
    }
    if s.drop_last().contains(v) {
        let i = choose|i: int| 0 <= i < s.drop_last().len() && s.drop_last()[i] == v;
        assert(s[i] == v);
    }
}

proof fn lemma_count_zero(s: Seq<i64>, v: i64)
    ensures
        (count_of(s, v) == 0) <==> !s.contains(v),
    decreases s.len(),
{
    if s.len() > 0 {
        lemma_count_zero(s.drop_last(), v);
        lemma_contains_split(s, v);
    }
}

proof fn lemma_count_at_most_one(s: Seq<i64>, v: i64)
    requires
        forall|i: int, j: int| 0 <= i < j < s.len() ==> s[i] != s[j],
    ensures
        count_of(s, v) <= 1,
    decreases s.len(),
{
    if s.len() > 0 {
        let d = s.drop_last();
        assert(forall|i: int, j: int| 0 <= i < j < d.len() ==> d[i] != d[j]) by {
            assert(forall|i: int| 0 <= i < d.len() ==> d[i] == s[i]);
        }
        lemma_count_at_most_one(d, v);
        if s.last() == v {
            if d.contains(v) {
                let i = choose|i: int| 0 <= i < d.len() && d[i] == v;
                assert(s[i] == v && s[s.len() - 1] == v);
            }
            lemma_count_zero(d, v);
        }
    }
}

proof fn lemma_max_count_at_most_one(s: Seq<i64>, vals: Seq<i64>)
    requires
        forall|v: i64| #[trigger] count_of(s, v) <= 1,
    ensures
        max_count(s, vals) <= 1,
    decreases vals.len(),
{
    if vals.len() > 0 {
        lemma_max_count_at_most_one(s, vals.drop_last());
    }
}

/// When every value of a sequence is distinct, nothing repeats, so there
/// is no well-defined mode and the multi-mode is empty.
pub proof fn lemma_modes_all_distinct(s: Seq<i64>)
    requires
        forall|i: int, j: int| 0 <= i < j < s.len() ==> s[i] != s[j],
    ensures
        modes_spec(s) == Seq::<i64>::empty(),
{
    assert forall|v: i64| #[trigger] count_of(s, v) <= 1 by {
        lemma_count_at_most_one(s, v);
    }
    lemma_max_count_at_most_one(s, first_seen(s));
}

/// The median is invariant under any permutation of the input: it depends
/// on the multiset of values alone.
pub proof fn lemma_median_permutation(s1: Seq<i64>, s2: Seq<i64>)
    requires
        s1.to_multiset() == s2.to_multiset(),
    ensures
        median_spec(s1) == median_spec(s2),
{
    broadcast use group_to_multiset_ensures;

    lemma_leq64_total_ordering();
    s1.lemma_sort_by_ensures(leq64());
    s2.lemma_sort_by_ensures(leq64());
    lemma_sorted_unique(sorted_version(s1), sorted_version(s2), leq64());
    assert(sorted_version(s1) =~= sorted_version(s2));
    assert(s1.len() == s1.to_multiset().len());
    assert(s2.len() == s2.to_multiset().len());
}

} // verus!
