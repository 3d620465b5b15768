//! Persistent player progress: which levels are solved, the treasure
//! (recovered passwords) collected so far, and how many hints each level
//! has revealed.
use vstd::prelude::*;
use std::collections::BTreeMap;

verus! {

broadcast use vstd::laws_cmp::group_laws_cmp;

/// Whether `s` is in non-decreasing order.
pub open spec fn sorted_u32(s: Seq<u32>) -> bool {
    forall|i: int, j: int| 0 <= i < j < s.len() ==> #[trigger] s[i] <= #[trigger] s[j]
}

/// Whether level `n` is open given the solved levels: the intro (0) and the
/// first puzzle (1) always are; a later level is once it or the one before
/// it is solved.
pub open spec fn unlocked(solved: Seq<u32>, n: u32) -> bool {
    n <= 1 || solved.contains(n) || solved.contains((n - 1) as u32)
}

/// The solved list `after` is what marking level `n` solved makes of
/// `before`: unchanged when `n` is already there, else `before` with `n`
/// added, in ascending order.
pub open spec fn marked(before: Seq<u32>, after: Seq<u32>, n: u32) -> bool {
    if before.contains(n) {
        after == before
    } else {
        sorted_u32(after) && after.to_multiset() == before.to_multiset().insert(n)
    }
}

/// Hints revealed so far for level `n`.
pub open spec fn hints_of(m: Map<u32, usize>, n: u32) -> usize {
    if m.contains_key(n) {
        m[n]
    } else {
        0
    }
}

/// The hint counts after revealing one more hint for level `n` out of
/// `max`: the level's count goes up by one while it is below `max`, and is
/// recorded either way.
pub open spec fn revealed(m: Map<u32, usize>, n: u32, max: usize) -> Map<u32, usize> {
    m.insert(
        n,
        if hints_of(m, n) < max {
            (hints_of(m, n) + 1) as usize
        } else {
            hints_of(m, n)
        },
    )
}

/// Whether `s` is in strictly ascending order (sorted, nothing twice).
pub open spec fn strictly_ascending(s: Seq<u32>) -> bool {
    forall|i: int, j: int| 0 <= i < j < s.len() ==> #[trigger] s[i] < #[trigger] s[j]
}

/// The intro and the first puzzle are open whatever has been solved.
pub proof fn lemma_first_levels_open(solved: Seq<u32>)
    ensures
        unlocked(solved, 0),
        unlocked(solved, 1),
{
}

/// The unlock rule: a level after the first puzzle is open exactly when it
/// or the level before it is solved, whatever else is solved.
pub proof fn lemma_unlock_rule(solved: Seq<u32>, n: u32)
    requires
        n >= 2,
    ensures
        unlocked(solved, n) <==> (solved.contains(n) || solved.contains((n - 1) as u32)),
        !solved.contains(n) && !solved.contains((n - 1) as u32) ==> !unlocked(solved, n),
{
}

/// Once level `n` is marked solved it counts as solved and open, the level
/// after it is unlocked, and no earlier progress is lost.
pub proof fn lemma_mark_solved_unlocks_next(before: Seq<u32>, after: Seq<u32>, n: u32)
    requires
        marked(before, after, n),
    ensures
        after.contains(n),
        unlocked(after, n),
        n < u32::MAX ==> unlocked(after, (n + 1) as u32),
        forall|m: u32| before.contains(m) ==> after.contains(m),
{
    broadcast use vstd::multiset::group_multiset_axioms;

    if !before.contains(n) {
        vstd::seq_lib::to_multiset_contains(after, n);
        assert forall|m: u32| before.contains(m) implies after.contains(m) by {
            vstd::seq_lib::to_multiset_contains(before, m);
            vstd::seq_lib::to_multiset_contains(after, m);
        }
    }
    if n < u32::MAX {
        assert(((n + 1) as u32 - 1) as u32 == n);
    }
}

/// Marking a level solved keeps a strictly ascending solved list strictly
/// ascending: nothing is ever listed twice.
pub proof fn lemma_mark_solved_keeps_strict_order(before: Seq<u32>, after: Seq<u32>, n: u32)
    requires
        strictly_ascending(before),
        marked(before, after, n),
    ensures
        strictly_ascending(after),
{
    broadcast use vstd::multiset::group_multiset_axioms;

    if !before.contains(n) {
        assert(before.no_duplicates());
        before.lemma_multiset_has_no_duplicates();
        assert forall|x: u32| after.to_multiset().contains(x) implies after.to_multiset().count(x)
            == 1 by {
            vstd::seq_lib::to_multiset_contains(before, x);
            if x == n {
                assert(before.to_multiset().count(n) == 0);
            }
        }
        after.lemma_multiset_has_no_duplicates_conv();
        assert forall|i: int, j: int| 0 <= i < j < after.len() implies #[trigger] after[i]
            < #[trigger] after[j] by {
            assert(after[i] <= after[j]);
            assert(after[i] != after[j]);
        }
    }
}

/// Marking the same level solved twice changes nothing the second time.
pub proof fn lemma_mark_solved_idempotent(before: Seq<u32>, mid: Seq<u32>, after: Seq<u32>, n: u32)
    requires
        marked(before, mid, n),
        marked(mid, after, n),
    ensures
        after == mid,
{
    lemma_mark_solved_unlocks_next(before, mid, n);
}

/// Two lists in ascending order with the same elements are the same list.
pub proof fn lemma_sorted_permutation_unique(a: Seq<u32>, b: Seq<u32>)
    requires
        sorted_u32(a),
        sorted_u32(b),
        a.to_multiset() == b.to_multiset(),
    ensures
        a == b,
    decreases a.len(),
{
    broadcast use vstd::multiset::group_multiset_axioms;

    vstd::seq_lib::to_multiset_len(a);
    vstd::seq_lib::to_multiset_len(b);
    if a.len() == 0 {
        assert(a =~= b);
    } else {
        vstd::seq_lib::to_multiset_contains(a, a[0]);
        vstd::seq_lib::to_multiset_contains(b, a[0]);
        vstd::seq_lib::to_multiset_contains(a, b[0]);
        vstd::seq_lib::to_multiset_contains(b, b[0]);
        let i = choose|i: int| 0 <= i < b.len() && b[i] == a[0];
        let j = choose|j: int| 0 <= j < a.len() && a[j] == b[0];
        assert(b[0] <= b[i]);
        assert(a[0] <= a[j]);
        assert(a[0] == b[0]);
        vstd::seq_lib::to_multiset_remove(a, 0);
        vstd::seq_lib::to_multiset_remove(b, 0);
        let ra = a.remove(0);
        let rb = b.remove(0);
        assert(sorted_u32(ra)) by {
            assert forall|x: int, y: int| 0 <= x < y < ra.len() implies #[trigger] ra[x] <= #[trigger] ra[y] by {
                assert(a[x + 1] <= a[y + 1]);
            }
        }
        assert(sorted_u32(rb)) by {
            assert forall|x: int, y: int| 0 <= x < y < rb.len() implies #[trigger] rb[x] <= #[trigger] rb[y] by {
                assert(b[x + 1] <= b[y + 1]);
            }
        }
        lemma_sorted_permutation_unique(ra, rb);
        assert(a =~= b) by {
            assert forall|x: int| 0 <= x < a.len() implies a[x] == b[x] by {
                if x > 0 {
                    assert(ra[x - 1] == rb[x - 1]);
                }
            }
        }
    }
}

/// Marking a level solved has one outcome: two saves with the same solved
/// list end with the same solved list.
pub proof fn lemma_mark_solved_deterministic(before: Seq<u32>, a: Seq<u32>, b: Seq<u32>, n: u32)
    requires
        marked(before, a, n),
        marked(before, b, n),
    ensures
        a == b,
{
    if !before.contains(n) {
        lemma_sorted_permutation_unique(a, b);
    }
}

/// Marking a level solved twice with the same password leaves the same
/// progress as marking it once: the same solved list and the same
/// treasure.
pub proof fn lemma_mark_twice_is_once(
    before: Seq<u32>,
    mid: Seq<u32>,
    after: Seq<u32>,
    once: Seq<u32>,
    treasure: Map<u32, String>,
    n: u32,
    password: String,
)
    requires
        marked(before, mid, n),
        marked(mid, after, n),
        marked(before, once, n),
    ensures
        after == once,
        treasure.insert(n, password).insert(n, password) == treasure.insert(n, password),
{
    lemma_mark_solved_idempotent(before, mid, after, n);
    lemma_mark_solved_deterministic(before, mid, once, n);
    assert(treasure.insert(n, password).insert(n, password) =~= treasure.insert(n, password));
}

/// Revealing a hint raises the level's count by one until it reaches
/// `max`, never past it, and leaves every other level's count alone.
pub proof fn lemma_reveal_hint_bounded(m: Map<u32, usize>, n: u32, max: usize)
    ensures
        hints_of(revealed(m, n, max), n) >= hints_of(m, n),
        hints_of(m, n) < max ==> hints_of(revealed(m, n, max), n) == hints_of(m, n) + 1,
        hints_of(m, n) >= max ==> hints_of(revealed(m, n, max), n) == hints_of(m, n),
        hints_of(m, n) <= max ==> hints_of(revealed(m, n, max), n) <= max,
        forall|k: u32| k != n ==> hints_of(revealed(m, n, max), k) == hints_of(m, k),
{
}

/// Sorts `v` into ascending order.
pub fn sort_u32(v: &mut Vec<u32>)
    ensures
        sorted_u32(final(v)@),
        final(v)@.to_multiset() == old(v)@.to_multiset(),
{
    broadcast use vstd::seq_lib::group_to_multiset_ensures;

    let ghost orig = v@;
    let mut rest: Vec<u32> = Vec::new();
    std::mem::swap(&mut rest, v);
    assert(v@ =~= Seq::<u32>::empty());
    assert(v@.to_multiset().add(rest@.to_multiset()) =~= orig.to_multiset());
    while rest.len() > 0
        invariant
            sorted_u32(v@),
            v@.to_multiset().add(rest@.to_multiset()) == orig.to_multiset(),
        decreases rest.len(),
    {
        let ghost r0 = rest@;
        let ghost out0 = v@;
        let x = rest.remove(0);
        let mut p: usize = 0;
        while p < v.len() && v[p] <= x
            invariant
                v@ == out0,
                p <= v.len(),
                forall|i: int| 0 <= i < p ==> #[trigger] out0[i] <= x,
            decreases v.len() - p,
        {
            p = p + 1;
        }
        v.insert(p, x);
        proof {
            let out1 = v@;
            assert forall|i: int, j: int| 0 <= i < j < out1.len() implies #[trigger] out1[i]
                <= #[trigger] out1[j] by {
                if j < p {
                    assert(out0[i] <= out0[j]);
                } else if j == p {
                    assert(out0[i] <= x);
                } else if i < p {
                    assert(out0[i] <= x);
                    assert(out0[p as int] > x);
                    assert(out0[p as int] <= out0[j - 1]);
                } else if i == p {
                    assert(out0[p as int] > x);
                    assert(out0[p as int] <= out0[j - 1]);
                } else {
                    assert(out0[i - 1] <= out0[j - 1]);
                }
            }
            broadcast use vstd::multiset::group_multiset_axioms;
            vstd::seq_lib::to_multiset_remove(r0, 0);
            vstd::seq_lib::to_multiset_insert(out0, p as int, x);
            assert(rest@ == r0.remove(0));
            assert(x == r0[0]);
            assert(r0.to_multiset().count(x) > 0) by {
                vstd::seq_lib::to_multiset_contains(r0, x);
            }
            assert(out1.to_multiset().add(rest@.to_multiset()) =~= orig.to_multiset());
        }
    }
    assert(v@.to_multiset().add(rest@.to_multiset()) =~= v@.to_multiset());
}

/// A player's progress.
pub struct Save {
    /// Levels the player has cleared, by level number.
    pub solved: Vec<u32>,
    /// Recovered passwords, by level number.
    pub treasure: BTreeMap<u32, String>,
    /// Hints revealed so far, by level number.
    pub hints_used: BTreeMap<u32, usize>,
}

impl Default for Save {
    fn default() -> (s: Self)
        ensures
            s.solved@.len() == 0,
            s.treasure@ == Map::<u32, String>::empty(),
            s.hints_used@ == Map::<u32, usize>::empty(),
    {
        Save { solved: Vec::new(), treasure: BTreeMap::new(), hints_used: BTreeMap::new() }
    }
}

impl Save {
    /// Whether level `n` is cleared.
    pub fn is_solved(&self, n: u32) -> (r: bool)
        ensures
            r == self.solved@.contains(n),
    {
        for i in 0..self.solved.len()
            invariant
                forall|j: int| 0 <= j < i ==> self.solved@[j] != n,
        {
            if self.solved[i] == n {
                return true;
            }
        }
        false
    }

    /// Whether level `n` can be entered. The intro (0) and first puzzle (1)
    /// are always open; any later level is unlocked once the previous one is
    /// solved, since its treasure is the password that logs in for it.
    pub fn is_unlocked(&self, n: u32) -> (r: bool)
        ensures
            r == unlocked(self.solved@, n),
    {
        n <= 1 || self.is_solved(n) || self.is_solved(n - 1)
    }

    /// Records level `n` as cleared with the password it yielded.
    pub fn mark_solved(&mut self, n: u32, password: String)
        ensures
            marked(old(self).solved@, final(self).solved@, n),
            final(self).treasure@ == old(self).treasure@.insert(n, password),
            final(self).hints_used@ == old(self).hints_used@,
    {
        if !self.is_solved(n) {
            let ghost before = self.solved@;
            self.solved.push(n);
            proof {
                vstd::seq_lib::to_multiset_build(before, n);
            }
            sort_u32(&mut self.solved);
        }
        self.treasure.insert(n, password);
    }

    /// Hints revealed so far for level `n`.
    pub fn hints_used(&self, n: u32) -> (r: usize)
        ensures
            r == hints_of(self.hints_used@, n),
    {
        match self.hints_used.get(&n) {
            Some(k) => *k,
            None => 0,
        }
    }

    /// Reveals one more hint for level `n`, unless all `max` are out. The
    /// level's count is recorded (as 0 at least) either way.
    pub fn reveal_hint(&mut self, n: u32, max: usize)
        ensures
            final(self).hints_used@ == revealed(old(self).hints_used@, n, max),
            final(self).solved@ == old(self).solved@,
            final(self).treasure@ == old(self).treasure@,
    {
        let cur = self.hints_used(n);
        let next = if cur < max {
            cur + 1
        } else {
            cur
        };
        self.hints_used.insert(n, next);
    }
}

} // verus!
