//! Merging a freshly generated schedule into an account's outstanding locks.
//!
//! The applier drops entries whose unlock height has already passed, merges
//! the new schedule into what remains (amounts at an equal height are added,
//! saturating), consolidates the earliest entries when the lock-count bound
//! would be exceeded, and reports the total still-locked balance that a
//! single replace-style lock instruction must cover.

use vstd::prelude::*;
use crate::arith::spec_saturating_add_u128;
use crate::schedule::LockSchedule;
use crate::schedule::keys_above;
use crate::schedule::keys_below;
use crate::schedule::keys_strictly_increasing;
use crate::schedule::lemma_sum_concat;
use crate::schedule::lemma_sum_nonneg;
use crate::schedule::sum_amounts;

verus! {

/// The outstanding, not yet unlocked `(height, amount)` entries of one
/// account, ordered by strictly increasing unlock height.
pub struct AccountLockState {
    entries: Vec<(u64, u128)>,
}

impl View for AccountLockState {
    type V = Seq<(u64, u128)>;

    closed spec fn view(&self) -> Seq<(u64, u128)> {
        self.entries@
    }
}

impl AccountLockState {
    /// A state is well formed when its unlock heights strictly increase.
    pub open spec fn wf(self) -> bool {
        keys_strictly_increasing(self@)
    }

    /// An account with no outstanding locks.
    pub fn empty() -> (r: AccountLockState)
        ensures
            r@ == Seq::<(u64, u128)>::empty(),
            r.wf(),
    {
        let entries: Vec<(u64, u128)> = Vec::new();
        proof {
            assert(entries@ =~= Seq::<(u64, u128)>::empty());
        }
        AccountLockState { entries }
    }

    /// Builds a state from an entry list; accepts it only when the unlock
    /// heights strictly increase.
    pub fn from_entries(entries: Vec<(u64, u128)>) -> (r: Option<AccountLockState>)
        ensures
            keys_strictly_increasing(entries@) ==> (r matches Some(s) && s@ == entries@ && s.wf()),
            !keys_strictly_increasing(entries@) ==> r is None,
    {
        let n = entries.len();
        let mut i: usize = 1;
        while i < n
            invariant
                1 <= i,
                n == entries@.len(),
                forall|p: int, q: int| 0 <= p < q < i && q < n ==> (#[trigger] entries@[p]).0 < (
                #[trigger] entries@[q]).0,
            decreases n - i,
        {
            if entries[i - 1].0 >= entries[i].0 {
                return None;
            }
            proof {
                assert forall|p: int, q: int| 0 <= p < q < i + 1 && q < n implies (
                #[trigger] entries@[p]).0 < (#[trigger] entries@[q]).0 by {
                    if q == i && p < i - 1 {
                        assert(entries@[p].0 < entries@[i - 1].0);
                    }
                }
            }
            i = i + 1;
        }
        Some(AccountLockState { entries })
    }

    /// Number of outstanding entries.
    pub fn len(&self) -> (r: usize)
        ensures
            r == self@.len(),
    {
        self.entries.len()
    }

    /// The entry at position `i`: `(unlock_height, amount)`.
    pub fn get(&self, i: usize) -> (r: (u64, u128))
        requires
            i < self@.len(),
        ensures
            r == self@[i as int],
    {
        self.entries[i]
    }

    /// Read-only access to the entry list.
    pub fn entries(&self) -> (r: &Vec<(u64, u128)>)
        ensures
            r@ == self@,
    {
        &self.entries
    }
}

/// The entries of `s` whose unlock height is strictly above `h`, in order.
pub open spec fn spec_unexpired(s: Seq<(u64, u128)>, h: u64) -> Seq<(u64, u128)>
    decreases s.len(),
{
    if s.len() == 0 {
        Seq::empty()
    } else {
        let rest = spec_unexpired(s.drop_last(), h);
        if s.last().0 > h {
            rest.push(s.last())
        } else {
            rest
        }
    }
}

/// Dropping expired entries keeps the order, keeps every key above `h`,
/// never increases the sum, and respects any upper bound on the keys.
pub proof fn lemma_unexpired_props(s: Seq<(u64, u128)>, h: u64)
    requires
        keys_strictly_increasing(s),
    ensures
        ({
            let u = spec_unexpired(s, h);
            &&& keys_strictly_increasing(u)
            &&& keys_above(u, h)
            &&& u.len() <= s.len()
            &&& 0 <= sum_amounts(u) <= sum_amounts(s)
            &&& forall|b: u64| keys_below(s, b) ==> #[trigger] keys_below(u, b)
        }),
    decreases s.len(),
{
    lemma_sum_nonneg(s);
    if s.len() > 0 {
        let s0 = s.drop_last();
        let last = s.last();
        assert(keys_strictly_increasing(s0));
        assert(keys_below(s0, last.0));
        lemma_unexpired_props(s0, h);
        let u0 = spec_unexpired(s0, h);
        let u = spec_unexpired(s, h);
        lemma_sum_nonneg(u0);
        assert(keys_below(u0, last.0));
        assert(sum_amounts(s) == sum_amounts(s0) + last.1);
        if last.0 > h {
            assert(u == u0.push(last));
            assert(u.drop_last() =~= u0);
            assert(sum_amounts(u) == sum_amounts(u0) + last.1);
            assert forall|i: int, j: int| 0 <= i < j < u.len() implies (#[trigger] u[i]).0 < (
            #[trigger] u[j]).0 by {
                if j == u.len() - 1 {
                    assert(u[i] == u0[i]);
                }
            }
            assert forall|b: u64| keys_below(s, b) implies #[trigger] keys_below(u, b) by {
                assert(keys_below(s0, b));
                assert(keys_below(u0, b));
                assert(last.0 < b);
                assert forall|i: int| 0 <= i < u.len() implies (#[trigger] u[i]).0 < b by {
                    if i < u.len() - 1 {
                        assert(u[i] == u0[i]);
                    }
                }
            }
        }
    }
}

/// The entries of `v` whose unlock height is strictly above `h`, in order.
fn filter_unexpired(v: &Vec<(u64, u128)>, h: u64) -> (r: Vec<(u64, u128)>)
    ensures
        r@ == spec_unexpired(v@, h),
{
    let mut out: Vec<(u64, u128)> = Vec::new();
    let mut i: usize = 0;
    proof {
        assert(v@.take(0) =~= Seq::<(u64, u128)>::empty());
        assert(out@ =~= Seq::<(u64, u128)>::empty());
    }
    while i < v.len()
        invariant
            i <= v@.len(),
            out@ == spec_unexpired(v@.take(i as int), h),
        decreases v@.len() - i,
    {
        proof {
            assert(v@.take(i + 1).drop_last() =~= v@.take(i as int));
            assert(v@.take(i + 1).last() == v@[i as int]);
        }
        let e = v[i];
        if e.0 > h {
            out.push(e);
        }
        i = i + 1;
    }
    proof {
        assert(v@.take(v@.len() as int) =~= v@);
    }
    out
}

/// Merging two ordered entry lists: the earlier key goes first; amounts at
/// an equal key are added, saturating.
pub open spec fn spec_merge(a: Seq<(u64, u128)>, b: Seq<(u64, u128)>) -> Seq<(u64, u128)>
    decreases a.len() + b.len(),
{
    if a.len() == 0 {
        b
    } else if b.len() == 0 {
        a
    } else if a[0].0 < b[0].0 {
        seq![a[0]] + spec_merge(a.drop_first(), b)
    } else if b[0].0 < a[0].0 {
        seq![b[0]] + spec_merge(a, b.drop_first())
    } else {
        seq![(a[0].0, spec_saturating_add_u128(a[0].1, b[0].1))] + spec_merge(
            a.drop_first(), b.drop_first(),
        )
    }
}

/// The sum of a singleton entry list is its one amount.
proof fn lemma_sum_singleton(e: (u64, u128))
    ensures
        sum_amounts(seq![e]) == e.1,
{
    let s = seq![e];
    assert(s.len() == 1 && s.last() == e);
    assert(s.drop_last() =~= Seq::<(u64, u128)>::empty());
    assert(sum_amounts(s.drop_last()) == 0);
    assert(sum_amounts(s) == sum_amounts(s.drop_last()) + e.1);
}

/// An ordered entry list decomposes into its head and its tail.
proof fn lemma_sorted_tail(s: Seq<(u64, u128)>)
    requires
        keys_strictly_increasing(s),
        s.len() > 0,
    ensures
        keys_strictly_increasing(s.drop_first()),
        keys_above(s.drop_first(), s[0].0),
        s =~= seq![s[0]] + s.drop_first(),
        sum_amounts(s) == s[0].1 + sum_amounts(s.drop_first()),
{
    assert forall|i: int| 0 <= i < s.drop_first().len() implies (#[trigger] s.drop_first()[i]).0
        > s[0].0 by {
        assert(s.drop_first()[i] == s[i + 1]);
    }
    assert forall|i: int, j: int| 0 <= i < j < s.drop_first().len() implies (
    #[trigger] s.drop_first()[i]).0 < (#[trigger] s.drop_first()[j]).0 by {
        assert(s.drop_first()[i] == s[i + 1]);
        assert(s.drop_first()[j] == s[j + 1]);
    }
    lemma_sum_concat(seq![s[0]], s.drop_first());
    lemma_sum_singleton(s[0]);
    assert(s =~= seq![s[0]] + s.drop_first());
}

/// A head below every key of an ordered tail extends it in order.
proof fn lemma_cons_sorted(x: (u64, u128), m: Seq<(u64, u128)>)
    requires
        keys_strictly_increasing(m),
        keys_above(m, x.0),
    ensures
        keys_strictly_increasing(seq![x] + m),
        sum_amounts(seq![x] + m) == x.1 + sum_amounts(m),
{
    let c = seq![x] + m;
    assert forall|i: int, j: int| 0 <= i < j < c.len() implies (#[trigger] c[i]).0 < (
    #[trigger] c[j]).0 by {
        assert(c[j] == m[j - 1]);
        if i > 0 {
            assert(c[i] == m[i - 1]);
        }
    }
    lemma_sum_concat(seq![x], m);
    lemma_sum_singleton(x);
}

/// Merging keeps the order, adds the sums (exactly, when they fit), stays
/// within the combined length, and respects key bounds common to both sides.
pub proof fn lemma_merge_props(a: Seq<(u64, u128)>, b: Seq<(u64, u128)>)
    requires
        keys_strictly_increasing(a),
        keys_strictly_increasing(b),
    ensures
        ({
            let m = spec_merge(a, b);
            &&& keys_strictly_increasing(m)
            &&& m.len() <= a.len() + b.len()
            &&& 0 <= sum_amounts(m) <= sum_amounts(a) + sum_amounts(b)
            &&& (sum_amounts(a) + sum_amounts(b) <= u128::MAX ==> sum_amounts(m) == sum_amounts(a)
                + sum_amounts(b))
            &&& forall|h: u64| keys_above(a, h) && keys_above(b, h) ==> #[trigger] keys_above(m, h)
        }),
    decreases a.len() + b.len(),
{
    let m = spec_merge(a, b);
    lemma_sum_nonneg(a);
    lemma_sum_nonneg(b);
    lemma_sum_nonneg(m);
    if a.len() == 0 || b.len() == 0 {
        // the merge is the other operand unchanged
    } else {
        lemma_sorted_tail(a);
        lemma_sorted_tail(b);
        lemma_sum_nonneg(a.drop_first());
        lemma_sum_nonneg(b.drop_first());
        if a[0].0 < b[0].0 {
            lemma_merge_props(a.drop_first(), b);
            let m2 = spec_merge(a.drop_first(), b);
            assert(m == seq![a[0]] + m2);
            assert(keys_above(b, a[0].0));
            assert(keys_above(m2, a[0].0));
            lemma_cons_sorted(a[0], m2);
            assert forall|h: u64| keys_above(a, h) && keys_above(b, h) implies
                #[trigger] keys_above(m, h) by {
                assert(keys_above(a.drop_first(), h)) by {
                    assert forall|i: int| 0 <= i < a.drop_first().len() implies (
                    #[trigger] a.drop_first()[i]).0 > h by {
                        assert(a.drop_first()[i] == a[i + 1]);
                    }
                }
                assert(keys_above(m2, h));
                assert forall|i: int| 0 <= i < m.len() implies (#[trigger] m[i]).0 > h by {
                    if i == 0 {
                        assert(m[0] == a[0]);
                    } else {
                        assert(m[i] == m2[i - 1]);
                    }
                }
            }
        } else if b[0].0 < a[0].0 {
            lemma_merge_props(a, b.drop_first());
            let m2 = spec_merge(a, b.drop_first());
            assert(m == seq![b[0]] + m2);
            assert(keys_above(a, b[0].0));
            assert(keys_above(m2, b[0].0));
            lemma_cons_sorted(b[0], m2);
            assert forall|h: u64| keys_above(a, h) && keys_above(b, h) implies
                #[trigger] keys_above(m, h) by {
                assert(keys_above(b.drop_first(), h)) by {
                    assert forall|i: int| 0 <= i < b.drop_first().len() implies (
                    #[trigger] b.drop_first()[i]).0 > h by {
                        assert(b.drop_first()[i] == b[i + 1]);
                    }
                }
                assert(keys_above(m2, h));
                assert forall|i: int| 0 <= i < m.len() implies (#[trigger] m[i]).0 > h by {
                    if i == 0 {
                        assert(m[0] == b[0]);
                    } else {
                        assert(m[i] == m2[i - 1]);
                    }
                }
            }
        } else {
            lemma_merge_props(a.drop_first(), b.drop_first());
            let m2 = spec_merge(a.drop_first(), b.drop_first());
            let x = (a[0].0, spec_saturating_add_u128(a[0].1, b[0].1));
            assert(m == seq![x] + m2);
            assert(keys_above(m2, x.0));
            lemma_cons_sorted(x, m2);
            lemma_sum_nonneg(m2);
            assert forall|h: u64| keys_above(a, h) && keys_above(b, h) implies
                #[trigger] keys_above(m, h) by {
                assert(keys_above(a.drop_first(), h)) by {
                    assert forall|i: int| 0 <= i < a.drop_first().len() implies (
                    #[trigger] a.drop_first()[i]).0 > h by {
                        assert(a.drop_first()[i] == a[i + 1]);
                    }
                }
                assert(keys_above(b.drop_first(), h)) by {
                    assert forall|i: int| 0 <= i < b.drop_first().len() implies (
                    #[trigger] b.drop_first()[i]).0 > h by {
                        assert(b.drop_first()[i] == b[i + 1]);
                    }
                }
                assert(keys_above(m2, h));
                assert forall|i: int| 0 <= i < m.len() implies (#[trigger] m[i]).0 > h by {
                    if i == 0 {
                        assert(m[0] == x);
                    } else {
                        assert(m[i] == m2[i - 1]);
                    }
                }
            }
        }
    }
}

/// Merges two ordered entry lists; amounts at an equal key are added,
/// saturating.
fn merge(a: &Vec<(u64, u128)>, b: &Vec<(u64, u128)>) -> (r: Vec<(u64, u128)>)
    ensures
        r@ == spec_merge(a@, b@),
{
    let mut out: Vec<(u64, u128)> = Vec::new();
    let mut i: usize = 0;
    let mut j: usize = 0;
    proof {
        assert(a@.skip(0) =~= a@);
        assert(b@.skip(0) =~= b@);
        assert(out@ + spec_merge(a@, b@) =~= spec_merge(a@, b@));
    }
    while i < a.len() || j < b.len()
        invariant
            i <= a@.len(),
            j <= b@.len(),
            spec_merge(a@, b@) == out@ + spec_merge(a@.skip(i as int), b@.skip(j as int)),
        decreases a@.len() - i + b@.len() - j,
    {
        let ghost ra = a@.skip(i as int);
        let ghost rb = b@.skip(j as int);
        if i < a.len() && (j >= b.len() || a[i].0 < b[j].0) {
            let x = a[i];
            proof {
                assert(ra[0] == a@[i as int]);
                assert(ra.drop_first() =~= a@.skip(i + 1));
                if rb.len() == 0 {
                    assert(spec_merge(ra, rb) == ra);
                    assert(ra =~= seq![x] + ra.drop_first());
                    assert(spec_merge(ra.drop_first(), rb) == ra.drop_first());
                } else {
                    assert(spec_merge(ra, rb) == seq![x] + spec_merge(ra.drop_first(), rb));
                }
                assert((out@ + seq![x]) + spec_merge(a@.skip(i + 1), rb) =~= out@ + (seq![x]
                    + spec_merge(a@.skip(i + 1), rb)));
            }
            out.push(x);
            i = i + 1;
        } else if i >= a.len() || (j < b.len() && b[j].0 < a[i].0) {
            let x = b[j];
            proof {
                assert(rb[0] == b@[j as int]);
                assert(rb.drop_first() =~= b@.skip(j + 1));
                if ra.len() == 0 {
                    assert(spec_merge(ra, rb) == rb);
                    assert(rb =~= seq![x] + rb.drop_first());
                    assert(spec_merge(ra, rb.drop_first()) == rb.drop_first());
                } else {
                    assert(spec_merge(ra, rb) == seq![x] + spec_merge(ra, rb.drop_first()));
                }
                assert((out@ + seq![x]) + spec_merge(ra, b@.skip(j + 1)) =~= out@ + (seq![x]
                    + spec_merge(ra, b@.skip(j + 1))));
            }
            out.push(x);
            j = j + 1;
        } else {
            let x = (a[i].0, a[i].1.saturating_add(b[j].1));
            proof {
                assert(ra[0] == a@[i as int]);
                assert(rb[0] == b@[j as int]);
                assert(ra.drop_first() =~= a@.skip(i + 1));
                assert(rb.drop_first() =~= b@.skip(j + 1));
                assert(spec_merge(ra, rb) == seq![x] + spec_merge(
                    ra.drop_first(), rb.drop_first(),
                ));
                assert((out@ + seq![x]) + spec_merge(a@.skip(i + 1), b@.skip(j + 1)) =~= out@ + (
                seq![x] + spec_merge(a@.skip(i + 1), b@.skip(j + 1))));
            }
            out.push(x);
            i = i + 1;
            j = j + 1;
        }
    }
    proof {
        assert(a@.skip(i as int) =~= Seq::<(u64, u128)>::empty());
        assert(b@.skip(j as int) =~= Seq::<(u64, u128)>::empty());
        assert(out@ + spec_merge(a@.skip(i as int), b@.skip(j as int)) =~= out@);
    }
    out
}

/// An entry list reduced to at most `max` entries: while over the bound,
/// the earliest entry folds into the next one, its amount added (saturating)
/// at the later, retained height — so nothing unlocks earlier than before.
pub open spec fn spec_consolidate(s: Seq<(u64, u128)>, max: int) -> Seq<(u64, u128)>
    recommends
        max >= 1,
    decreases s.len(),
{
    if s.len() <= max || s.len() < 2 {
        s
    } else {
        spec_consolidate(
            seq![(s[1].0, spec_saturating_add_u128(s[0].1, s[1].1))] + s.skip(2), max,
        )
    }
}

/// Consolidation keeps the order, lands exactly on the bound when it was
/// exceeded, preserves the sum (exactly, when it fits), and respects any
/// lower bound on the keys.
pub proof fn lemma_consolidate_props(s: Seq<(u64, u128)>, max: int)
    requires
        keys_strictly_increasing(s),
        max >= 1,
    ensures
        ({
            let c = spec_consolidate(s, max);
            &&& keys_strictly_increasing(c)
            &&& c.len() == (if s.len() <= max { s.len() as int } else { max })
            &&& 0 <= sum_amounts(c) <= sum_amounts(s)
            &&& (sum_amounts(s) <= u128::MAX ==> sum_amounts(c) == sum_amounts(s))
            &&& forall|h: u64| keys_above(s, h) ==> #[trigger] keys_above(c, h)
        }),
    decreases s.len(),
{
    lemma_sum_nonneg(s);
    if s.len() <= max || s.len() < 2 {
        // nothing to consolidate
    } else {
        let x = (s[1].0, spec_saturating_add_u128(s[0].1, s[1].1));
        let t = s.skip(2);
        let s2 = seq![x] + t;
        assert forall|i: int, j: int| 0 <= i < j < t.len() implies (#[trigger] t[i]).0 < (
        #[trigger] t[j]).0 by {
            assert(t[i] == s[i + 2]);
            assert(t[j] == s[j + 2]);
        }
        assert(keys_above(t, x.0)) by {
            assert forall|i: int| 0 <= i < t.len() implies (#[trigger] t[i]).0 > x.0 by {
                assert(t[i] == s[i + 2]);
            }
        }
        lemma_cons_sorted(x, t);
        lemma_sum_nonneg(t);
        // the sum of the first two entries folds into the new head
        let pre = seq![s[0], s[1]];
        assert(s =~= pre + t);
        lemma_sum_concat(pre, t);
        assert(pre.drop_last() =~= seq![s[0]]);
        lemma_sum_singleton(s[0]);
        assert(sum_amounts(pre) == s[0].1 + s[1].1);
        assert(sum_amounts(s2) == x.1 + sum_amounts(t));
        lemma_consolidate_props(s2, max);
        let c = spec_consolidate(s, max);
        assert(c == spec_consolidate(s2, max));
        assert forall|h: u64| keys_above(s, h) implies #[trigger] keys_above(c, h) by {
            assert(keys_above(s2, h)) by {
                assert forall|i: int| 0 <= i < s2.len() implies (#[trigger] s2[i]).0 > h by {
                    if i == 0 {
                        assert(s2[0] == x);
                        assert(s[1].0 > h);
                    } else {
                        assert(s2[i] == s[i + 1]);
                    }
                }
            }
        }
    }
}

/// Reduces an entry list to at most `max_locks` entries by folding the
/// earliest entries forward.
fn consolidate(entries: Vec<(u64, u128)>, max_locks: u32) -> (r: Vec<(u64, u128)>)
    requires
        max_locks >= 1,
    ensures
        r@ == spec_consolidate(entries@, max_locks as int),
{
    let mut out = entries;
    let ghost orig = out@;
    while out.len() > max_locks as usize
        invariant
            max_locks >= 1,
            spec_consolidate(out@, max_locks as int) == spec_consolidate(
                orig, max_locks as int,
            ),
        decreases out@.len(),
    {
        let ghost before = out@;
        let first = out.remove(0);
        let second = out.remove(0);
        let merged = (second.0, first.1.saturating_add(second.1));
        out.insert(0, merged);
        proof {
            assert(out@ =~= seq![merged] + before.skip(2));
            assert(spec_consolidate(before, max_locks as int) == spec_consolidate(
                out@, max_locks as int,
            ));
        }
    }
    out
}

/// The total amount of an entry list, clamped at `u128::MAX`.
fn saturating_total(v: &Vec<(u64, u128)>) -> (r: u128)
    ensures
        r == (if sum_amounts(v@) > u128::MAX { u128::MAX as int } else { sum_amounts(v@) }),
{
    let mut acc: u128 = 0;
    let mut i: usize = 0;
    proof {
        assert(v@.take(0) =~= Seq::<(u64, u128)>::empty());
    }
    while i < v.len()
        invariant
            i <= v@.len(),
            acc == (if sum_amounts(v@.take(i as int)) > u128::MAX {
                u128::MAX as int
            } else {
                sum_amounts(v@.take(i as int))
            }),
        decreases v@.len() - i,
    {
        proof {
            assert(v@.take(i + 1).drop_last() =~= v@.take(i as int));
            assert(v@.take(i + 1).last() == v@[i as int]);
            lemma_sum_nonneg(v@.take(i as int));
        }
        acc = acc.saturating_add(v[i].1);
        i = i + 1;
    }
    proof {
        assert(v@.take(v@.len() as int) =~= v@);
    }
    acc
}

/// The account's lock entries after a block: expired entries dropped, the
/// new schedule merged in, and the earliest entries consolidated so that at
/// most `max` remain.
pub open spec fn spec_apply(
    state: Seq<(u64, u128)>,
    sched: Seq<(u64, u128)>,
    h: u64,
    max: int,
) -> Seq<(u64, u128)> {
    spec_consolidate(spec_merge(spec_unexpired(state, h), spec_unexpired(sched, h)), max)
}

/// Merges a freshly generated schedule into an account's outstanding locks
/// as of `current_height`.
///
/// Entries whose unlock height has already passed are not carried forward;
/// amounts meeting at an equal height are added (saturating); and when the
/// result would exceed `max_locks` entries, the earliest ones fold forward
/// into the nearest retained height. The returned amount is the total
/// still-locked balance, which a single replace-style lock instruction
/// under the fixed reward lock identifier must cover.
pub fn apply(
    state: &AccountLockState,
    schedule: &LockSchedule,
    current_height: u64,
    max_locks: u32,
) -> (r: (AccountLockState, u128))
    requires
        state.wf(),
        schedule.wf(),
        max_locks >= 1,
    ensures
        r.0@ == spec_apply(state@, schedule@, current_height, max_locks as int),
        r.0.wf(),
        r.0@.len() <= max_locks,
        keys_above(r.0@, current_height),
        r.1 == (if sum_amounts(r.0@) > u128::MAX { u128::MAX as int } else { sum_amounts(r.0@) }),
        0 <= sum_amounts(r.0@) <= sum_amounts(spec_unexpired(state@, current_height))
            + sum_amounts(spec_unexpired(schedule@, current_height)),
        sum_amounts(spec_unexpired(state@, current_height)) + sum_amounts(
            spec_unexpired(schedule@, current_height),
        ) <= u128::MAX ==> sum_amounts(r.0@) == sum_amounts(
            spec_unexpired(state@, current_height),
        ) + sum_amounts(spec_unexpired(schedule@, current_height)),
{
    proof {
        lemma_unexpired_props(state@, current_height);
        lemma_unexpired_props(schedule@, current_height);
        lemma_merge_props(
            spec_unexpired(state@, current_height),
            spec_unexpired(schedule@, current_height),
        );
        lemma_consolidate_props(
            spec_merge(
                spec_unexpired(state@, current_height),
                spec_unexpired(schedule@, current_height),
            ),
            max_locks as int,
        );
    }
    let kept_state = filter_unexpired(state.entries(), current_height);
    let kept_sched = filter_unexpired(schedule.entries(), current_height);
    let merged = merge(&kept_state, &kept_sched);
    let consolidated = consolidate(merged, max_locks);
    let total = saturating_total(&consolidated);
    (AccountLockState { entries: consolidated }, total)
}

} // verus!
