//! Level content of a campaign (`levels.toml`), ordered by level number.
use vstd::prelude::*;

verus! {

/// One objective of the ladder.
#[derive(Debug)]
pub struct Level {
    pub n: u32,
    pub title: String,
    pub goal: String,
    pub commands: Vec<String>,
    pub hints: Vec<String>,
    pub solution: String,
}

/// A campaign's name and its levels.
pub struct Campaign {
    pub campaign: String,
    pub levels: Vec<Level>,
}

/// Whether the levels come in non-decreasing order of their numbers.
pub open spec fn sorted_by_n(s: Seq<Level>) -> bool {
    forall|i: int, j: int| 0 <= i < j < s.len() ==> #[trigger] s[i].n <= #[trigger] s[j].n
}

/// The predicate "has level number `k`".
pub open spec fn numbered(k: u32) -> spec_fn(Level) -> bool {
    |l: Level| l.n == k
}

/// The levels of `s` numbered `k`, in their order in `s`.
pub open spec fn with_n(s: Seq<Level>, k: u32) -> Seq<Level> {
    s.filter(numbered(k))
}

/// What the ordering promises: after sorting, a level never comes after a
/// level with a higher number, and the levels with any one number are
/// exactly those of the campaign with that number, in the campaign's order.
pub proof fn lemma_sorted_levels_meaning(sorted: Seq<Level>, orig: Seq<Level>, k: u32)
    requires
        sorted_by_n(sorted),
        forall|m: u32| #[trigger] with_n(sorted, m) == with_n(orig, m),
    ensures
        forall|i: int, j: int| 0 <= i < j < sorted.len() ==> sorted[i].n <= sorted[j].n,
        forall|i: int| 0 <= i < with_n(orig, k).len() ==> #[trigger] with_n(orig, k)[i].n == k,
        forall|i: int| 0 <= i < orig.len() && orig[i].n == k ==> with_n(sorted, k).contains(
            #[trigger] orig[i],
        ),
        forall|i: int| 0 <= i < sorted.len() && sorted[i].n == k ==> with_n(orig, k).contains(
            #[trigger] sorted[i],
        ),
{
    broadcast use vstd::seq_lib::group_filter_ensures;

    assert(with_n(sorted, k) == with_n(orig, k));
    assert forall|i: int| 0 <= i < with_n(orig, k).len() implies #[trigger] with_n(orig, k)[i].n == k by {
        orig.lemma_filter_pred(numbered(k), i);
    }
    assert forall|i: int| 0 <= i < orig.len() && orig[i].n == k implies with_n(sorted, k).contains(
        #[trigger] orig[i],
    ) by {
        orig.lemma_filter_contains(numbered(k), i);
    }
    assert forall|i: int| 0 <= i < sorted.len() && sorted[i].n == k implies with_n(orig, k).contains(
        #[trigger] sorted[i],
    ) by {
        sorted.lemma_filter_contains(numbered(k), i);
    }
}

proof fn lemma_insert_groups(out: Seq<Level>, p: int, l: Level, k: u32)
    requires
        0 <= p <= out.len(),
        forall|i: int| p <= i < out.len() ==> #[trigger] out[i].n > l.n,
    ensures
        with_n(out.insert(p, l), k) == (if l.n == k {
            with_n(out, k).push(l)
        } else {
            with_n(out, k)
        }),
{
    let a = out.take(p);
    let b = out.skip(p);
    let f = numbered(k);
    assert(out.insert(p, l) =~= a + (seq![l] + b));
    assert(out =~= a + b);
    Seq::filter_distributes_over_add(a, seq![l] + b, f);
    Seq::filter_distributes_over_add(a, b, f);
    b.lemma_filter_prepend(l, f);
    if l.n == k {
        assert(b.all(|x: Level| !f(x)));
        b.lemma_all_neg_filter_empty(f);
        assert(b.filter(f) =~= Seq::<Level>::empty());
        assert(a.filter(f) + (seq![l] + b.filter(f)) =~= (a.filter(f) + b.filter(f)).push(l));
    } else {
        assert(Seq::<Level>::empty() + b.filter(f) =~= b.filter(f));
    }
}

proof fn lemma_remove_first_groups(r: Seq<Level>, k: u32)
    requires
        r.len() > 0,
    ensures
        with_n(r, k) == (if r[0].n == k {
            seq![r[0]] + with_n(r.remove(0), k)
        } else {
            with_n(r.remove(0), k)
        }),
{
    let f = numbered(k);
    assert(r =~= seq![r[0]] + r.remove(0));
    r.remove(0).lemma_filter_prepend(r[0], f);
    if r[0].n != k {
        assert(Seq::<Level>::empty() + with_n(r.remove(0), k) =~= with_n(r.remove(0), k));
    }
}

impl Campaign {
    /// Orders the levels by number, keeping levels with the same number in
    /// their order (a stable sort).
    pub fn sort_levels(&mut self)
        ensures
            sorted_by_n(final(self).levels@),
            forall|k: u32| #[trigger] with_n(final(self).levels@, k) == with_n(old(self).levels@, k),
            final(self).levels@.to_multiset() == old(self).levels@.to_multiset(),
            final(self).campaign == old(self).campaign,
    {
        broadcast use vstd::seq_lib::group_to_multiset_ensures;

        let ghost orig = self.levels@;
        let mut rest: Vec<Level> = Vec::new();
        std::mem::swap(&mut rest, &mut self.levels);
        assert(self.levels@.to_multiset().add(rest@.to_multiset()) =~= orig.to_multiset());
        proof {
            assert forall|k: u32| #[trigger] with_n(self.levels@, k) + with_n(rest@, k) == with_n(orig, k) by {
                reveal(Seq::filter);
                assert(with_n(self.levels@, k) =~= Seq::<Level>::empty());
                assert(Seq::<Level>::empty() + with_n(rest@, k) =~= with_n(rest@, k));
            }
        }
        while rest.len() > 0
            invariant
                sorted_by_n(self.levels@),
                forall|k: u32| #[trigger] with_n(self.levels@, k) + with_n(rest@, k) == with_n(orig, k),
                self.levels@.to_multiset().add(rest@.to_multiset()) == orig.to_multiset(),
                self.campaign == old(self).campaign,
                orig == old(self).levels@,
            decreases rest.len(),
        {
            let ghost r0 = rest@;
            let ghost out0 = self.levels@;
            let l = rest.remove(0);
            let mut p: usize = 0;
            while p < self.levels.len() && self.levels[p].n <= l.n
                invariant
                    self.levels@ == out0,
                    p <= self.levels.len(),
                    forall|i: int| 0 <= i < p ==> #[trigger] out0[i].n <= l.n,
                decreases self.levels.len() - p,
            {
                p = p + 1;
            }
            assert(forall|i: int| p <= i < out0.len() ==> #[trigger] out0[i].n > l.n) by {
                assert forall|i: int| p <= i < out0.len() implies #[trigger] out0[i].n > l.n by {
                    assert(out0[p as int].n > l.n);
                    if p < i {
                        assert(out0[p as int].n <= out0[i].n);
                    }
                }
            }
            self.levels.insert(p, l);
            proof {
                let out1 = self.levels@;
                assert(out1 == out0.insert(p as int, l));
                {
                    broadcast use vstd::multiset::group_multiset_axioms;
                    vstd::seq_lib::to_multiset_remove(r0, 0);
                    vstd::seq_lib::to_multiset_insert(out0, p as int, l);
                    assert(rest@ == r0.remove(0));
                    assert(r0.to_multiset().count(l) > 0) by {
                        vstd::seq_lib::to_multiset_contains(r0, l);
                    }
                    assert(out1.to_multiset().add(rest@.to_multiset()) =~= orig.to_multiset());
                }
                assert forall|i: int, j: int| 0 <= i < j < out1.len() implies #[trigger] out1[i].n
                    <= #[trigger] out1[j].n by {
                    if j < p {
                        assert(out0[i].n <= out0[j].n);
                    } else if j == p {
                        assert(out0[i].n <= l.n);
                    } else if i < p {
                        assert(out0[i].n <= l.n);
                        assert(out0[j - 1].n > l.n);
                    } else if i == p {
                        assert(out0[j - 1].n > l.n);
                    } else {
                        assert(out0[i - 1].n <= out0[j - 1].n);
                    }
                }
                assert forall|k: u32| #[trigger] with_n(out1, k) + with_n(rest@, k) == with_n(orig, k) by {
                    lemma_insert_groups(out0, p as int, l, k);
                    lemma_remove_first_groups(r0, k);
                    assert(with_n(out0, k) + with_n(r0, k) == with_n(orig, k));
                    if l.n == k {
                        assert(with_n(out0, k).push(l) + with_n(rest@, k) =~= with_n(out0, k) + (
                        seq![l] + with_n(rest@, k)));
                    }
                }
            }
        }
        assert(self.levels@.to_multiset().add(rest@.to_multiset()) =~= self.levels@.to_multiset());
        proof {
            assert forall|k: u32| #[trigger] with_n(self.levels@, k) == with_n(orig, k) by {
                reveal(Seq::filter);
                assert(with_n(rest@, k) =~= Seq::<Level>::empty());
                assert(with_n(self.levels@, k) + Seq::<Level>::empty() =~= with_n(self.levels@, k));
            }
        }
    }

    /// The highest level number this campaign defines content for; 0 when it
    /// defines none.
    pub fn max_n(&self) -> (m: u32)
        ensures
            forall|i: int| 0 <= i < self.levels@.len() ==> #[trigger] self.levels@[i].n <= m,
            self.levels@.len() == 0 ==> m == 0,
            self.levels@.len() > 0 ==> exists|i: int|
                0 <= i < self.levels@.len() && #[trigger] self.levels@[i].n == m,
    {
        let mut m: u32 = 0;
        for i in 0..self.levels.len()
            invariant
                forall|j: int| 0 <= j < i ==> #[trigger] self.levels@[j].n <= m,
                i == 0 ==> m == 0,
                i > 0 ==> exists|j: int| 0 <= j < i && #[trigger] self.levels@[j].n == m,
        {
            if i == 0 || self.levels[i].n > m {
                m = self.levels[i].n;
            }
        }
        m
    }
}

} // verus!
