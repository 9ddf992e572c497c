use vstd::prelude::*;
use crate::order::{Order, order_of};
use crate::range::Range;

verus! {

/// How many elements after `s[0]` follow one another with difference `d`,
/// counted up to the first that does not.
pub open spec fn tail_len(s: Seq<i64>, d: int) -> nat
    decreases s.len(),
{
    if s.len() >= 2 && s[1] as int == s[0] as int + d {
        1 + tail_len(s.drop_first(), d)
    } else {
        0
    }
}

/// Length of the maximal run at the front of `s`: its first element, then as many
/// as continue in the direction that the first two fix.
pub open spec fn run_len(s: Seq<i64>) -> nat {
    if s.len() <= 1 {
        s.len()
    } else {
        match order_of(s[0] as int, s[1] as int) {
            None => 1,
            Some(o) => 1 + tail_len(s, o.step()),
        }
    }
}

/// The maximal run at the front of a non-empty `s`, as a range.
pub open spec fn first_run(s: Seq<i64>) -> Range {
    Range { start: s[0], end: s[run_len(s) - 1] }
}

/// The maximal runs of `s`, in order: each one starts where the one before ended.
pub open spec fn runs_of(s: Seq<i64>) -> Seq<Range>
    decreases s.len(),
    via runs_of_decreases
{
    if s.len() == 0 {
        seq![]
    } else {
        seq![first_run(s)] + runs_of(s.skip(run_len(s) as int))
    }
}

#[via_fn]
proof fn runs_of_decreases(s: Seq<i64>) {
    if s.len() > 0 {
        lemma_run_len_bounds(s);
    }
}

/// The elements of the ranges `rs`, one range after another.
pub open spec fn flatten(rs: Seq<Range>) -> Seq<i64>
    decreases rs.len(),
{
    if rs.len() == 0 {
        seq![]
    } else {
        rs[0].members() + flatten(rs.drop_first())
    }
}

/// Every element counted by `tail_len` follows its predecessor with difference `d`,
/// and the element after them, if any, does not.
pub proof fn lemma_tail_len(s: Seq<i64>, d: int)
    requires
        s.len() >= 1,
    ensures
        tail_len(s, d) <= s.len() - 1,
        forall|i: int| 1 <= i <= tail_len(s, d) ==> #[trigger] s[i] as int == s[i - 1] as int + d,
        tail_len(s, d) + 1 < s.len() ==> s[tail_len(s, d) + 1int] as int != s[tail_len(s, d) as int] as int + d,
    decreases s.len(),
{
    if s.len() >= 2 && s[1] as int == s[0] as int + d {
        let t = s.drop_first();
        lemma_tail_len(t, d);
        assert forall|i: int| 1 <= i <= tail_len(s, d) implies #[trigger] s[i] as int == s[i - 1] as int + d by {
            if i >= 2 {
                assert(s[i] == t[i - 1] && s[i - 1] == t[i - 2]);
            }
        }
    }
}

/// `tail_len` is `k - 1` when the first `k` elements follow one another with
/// difference `d` and the next one, if any, does not.
pub proof fn lemma_tail_len_exact(s: Seq<i64>, d: int, k: int)
    requires
        1 <= k <= s.len(),
        forall|i: int| 1 <= i < k ==> #[trigger] s[i] as int == s[i - 1] as int + d,
        k < s.len() ==> s[k] as int != s[k - 1] as int + d,
    ensures
        tail_len(s, d) == k - 1,
    decreases k,
{
    if k > 1 {
        let t = s.drop_first();
        assert forall|i: int| 1 <= i < k - 1 implies #[trigger] t[i] as int == t[i - 1] as int + d by {
            assert(t[i] == s[i + 1] && t[i - 1] == s[i]);
        }
        lemma_tail_len_exact(t, d, k - 1);
    }
}

/// A non-empty sequence starts with a run of at least one and at most all of its elements.
pub proof fn lemma_run_len_bounds(s: Seq<i64>)
    requires
        s.len() > 0,
    ensures
        1 <= run_len(s) <= s.len(),
{
    if s.len() >= 2 {
        if let Some(o) = order_of(s[0] as int, s[1] as int) {
            lemma_tail_len(s, o.step());
        }
    }
}

/// The run at the front of `s` has exactly `k` elements when its first `k` continue
/// the direction of the first two and the element after them, if any, does not.
pub proof fn lemma_run_len_exact(s: Seq<i64>, o: Option<Order>, k: int)
    requires
        1 <= k <= s.len(),
        k == 1 ==> k == s.len() || order_of(s[0] as int, s[1] as int) is None,
        k >= 2 ==> o is Some && o == order_of(s[0] as int, s[1] as int),
        k >= 2 ==> forall|i: int| 1 <= i < k ==> #[trigger] s[i] as int == s[i - 1] as int + o->Some_0.step(),
        k >= 2 && k < s.len() ==> s[k] as int != s[k - 1] as int + o->Some_0.step(),
    ensures
        run_len(s) == k,
{
    if k >= 2 {
        lemma_tail_len_exact(s, o->Some_0.step(), k);
    }
}

/// Inside a run of step `d`, the element at offset `i` is `s[0] + i * d`.
pub proof fn lemma_run_offsets(s: Seq<i64>, d: int, k: int)
    requires
        d == 1 || d == -1,
        0 <= k <= s.len(),
        forall|i: int| 1 <= i < k ==> #[trigger] s[i] as int == s[i - 1] as int + d,
    ensures
        forall|i: int| 0 <= i < k ==> #[trigger] s[i] as int == s[0] as int + if d == 1 { i } else { -i },
    decreases k,
{
    if k > 0 {
        lemma_run_offsets(s, d, k - 1);
    }
}

/// The first run of a non-empty `s`, walked from start to end, is the front of `s`
/// that it covers.
pub proof fn lemma_first_run_members(s: Seq<i64>)
    requires
        s.len() > 0,
    ensures
        first_run(s).members() == s.take(run_len(s) as int),
{
    lemma_run_len_bounds(s);
    let n = run_len(s) as int;
    let r = first_run(s);
    if n >= 2 {
        let d = order_of(s[0] as int, s[1] as int)->Some_0.step();
        lemma_tail_len(s, d);
        lemma_run_offsets(s, d, n);
        assert(s[n - 1] as int == s[0] as int + if d == 1 { n - 1 } else { 1 - n });
    }
    assert(r.members() =~= s.take(n));
}

/// Expanding every run of `s` in order, one after another, gives back `s`.
pub proof fn lemma_round_trip(s: Seq<i64>)
    ensures
        flatten(runs_of(s)) == s,
    decreases s.len(),
{
    if s.len() > 0 {
        lemma_run_len_bounds(s);
        let n = run_len(s) as int;
        lemma_first_run_members(s);
        lemma_round_trip(s.skip(n));
        let rs = runs_of(s);
        assert(rs.drop_first() =~= runs_of(s.skip(n)));
        assert(s.take(n) + s.skip(n) =~= s);
    }
}

/// No run of `s` could take in the start of the run after it: the element that
/// follows a run never continues it.
pub proof fn lemma_minimal(s: Seq<i64>)
    ensures
        forall|i: int|
            0 <= i < runs_of(s).len() - 1 ==> !(#[trigger] runs_of(s)[i]).extends(
                runs_of(s)[i + 1].start as int,
            ),
    decreases s.len(),
{
    if s.len() > 0 {
        lemma_run_len_bounds(s);
        let n = run_len(s) as int;
        let t = s.skip(n);
        lemma_minimal(t);
        let rs = runs_of(s);
        assert(rs.drop_first() =~= runs_of(t));
        if rs.len() >= 2 {
            assert(n < s.len());
            assert(rs[1].start == s[n]);
            if n >= 2 {
                let d = order_of(s[0] as int, s[1] as int)->Some_0.step();
                lemma_tail_len(s, d);
                lemma_run_offsets(s, d, n);
                assert(s[n - 1] as int == s[0] as int + if d == 1 { n - 1 } else { 1 - n });
            }
            assert(!rs[0].extends(rs[1].start as int));
        }
        assert forall|i: int| 0 <= i < rs.len() - 1 implies !(#[trigger] rs[i]).extends(
            rs[i + 1].start as int,
        ) by {
            if i > 0 {
                assert(rs[i] == runs_of(t)[i - 1] && rs[i + 1] == runs_of(t)[i]);
            }
        }
    }
}

/// A sequence of equal values is cut into single-element runs, one per value.
pub proof fn lemma_all_equal(s: Seq<i64>)
    requires
        forall|i: int, j: int| 0 <= i < s.len() && 0 <= j < s.len() ==> s[i] == s[j],
    ensures
        runs_of(s).len() == s.len(),
        forall|i: int| 0 <= i < s.len() ==> #[trigger] runs_of(s)[i] == (Range { start: s[i], end: s[i] }),
    decreases s.len(),
{
    if s.len() > 0 {
        assert(run_len(s) == 1) by {
            if s.len() >= 2 {
                assert(s[1] == s[0]);
            }
        }
        let t = s.skip(1);
        lemma_all_equal(t);
        let rs = runs_of(s);
        assert(rs.drop_first() =~= runs_of(t));
        assert forall|i: int| 0 <= i < s.len() implies #[trigger] rs[i] == (Range { start: s[i], end: s[i] }) by {
            if i > 0 {
                assert(rs[i] == runs_of(t)[i - 1]);
            }
        }
    }
}

/// The ascending sequence `a, a + 1, ..., a + k` is a single run from `a` to `a + k`.
pub proof fn lemma_ascending(s: Seq<i64>, a: i64, k: nat)
    requires
        s.len() == k + 1,
        forall|i: int| 0 <= i <= k ==> #[trigger] s[i] as int == a + i,
    ensures
        runs_of(s) == seq![Range { start: a, end: (a + k) as i64 }],
{
    let o = Some(Order::Ascending);
    assert forall|i: int| 1 <= i < k + 1 implies #[trigger] s[i] as int == s[i - 1] as int + o->Some_0.step() by {
        assert(s[i - 1] as int == a + i - 1);
    }
    if k >= 1 {
        assert(s[1] as int == a + 1);
    }
    lemma_run_len_exact(s, o, k + 1int);
    assert(s.skip(k + 1int) =~= Seq::<i64>::empty());
    assert(runs_of(s.skip(k + 1int)) =~= Seq::<Range>::empty());
    assert(runs_of(s) =~= seq![Range { start: a, end: (a + k) as i64 }]);
}

} // verus!
