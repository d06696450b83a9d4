//! A rolling window of recently observed round-trip delays, with their sum
//! and percentile selection over a sorted copy. Formatting and terminal
//! output are left to the caller.

use vstd::prelude::*;

verus! {

/// How many recent delays the window keeps.
pub const QUEUE_LEN: usize = 150;

/// The sum of a sequence of delays, in microseconds.
pub open spec fn sum_micros_spec(s: Seq<u64>) -> int
    decreases s.len(),
{
    if s.len() == 0 {
        0
    } else {
        sum_micros_spec(s.drop_last()) + s.last()
    }
}

/// A delay sequence ordered from smallest to largest.
pub open spec fn is_sorted(s: Seq<u64>) -> bool {
    forall|a: int, b: int| 0 <= a <= b < s.len() ==> s[a] <= s[b]
}

/// The reported percentiles, in tenths of a percent.
pub open spec fn permille_spec(k: int) -> u32 {
    seq![800u32, 900u32, 950u32, 980u32, 985u32, 990u32, 995u32, 998u32, 999u32][k]
}

/// Which entry of a sorted window of `len` delays stands for the given
/// percentile.
pub open spec fn percentile_index_spec(len: int, permille: int) -> int {
    len * permille / 1000
}

/// A rolling window of the most recent round-trip delays, oldest first,
/// each in microseconds, plus a scratch buffer reused for sorting.
pub struct Delays {
    delays: Vec<u64>,
    sorted_delays: Vec<u64>,
}

impl Delays {
    /// The window of recent delays, oldest first.
    pub closed spec fn delays_spec(&self) -> Seq<u64> {
        self.delays@
    }

    /// The scratch buffer as the last percentile calculation left it.
    pub closed spec fn sorted_spec(&self) -> Seq<u64> {
        self.sorted_delays@
    }

    /// The window never holds more than `QUEUE_LEN` delays.
    pub closed spec fn wf(&self) -> bool {
        self.delays@.len() <= QUEUE_LEN
    }

    pub fn len(&self) -> (r: usize)
        ensures
            r == self.delays_spec().len(),
    {
        self.delays.len()
    }

    pub fn is_empty(&self) -> (r: bool)
        ensures
            r <==> self.delays_spec().len() == 0,
    {
        self.delays.is_empty()
    }

    /// The delays of the window, oldest first.
    pub fn recent_delays(&self) -> (r: &Vec<u64>)
        ensures
            r@ == self.delays_spec(),
    {
        &self.delays
    }

    /// Records one observed delay, evicting the oldest entries so that the
    /// window never exceeds `QUEUE_LEN`.
    pub fn new_event(&mut self, micros: u64)
        requires
            old(self).wf(),
        ensures
            final(self).wf(),
            final(self).delays_spec() == if old(self).delays_spec().len() < QUEUE_LEN {
                old(self).delays_spec().push(micros)
            } else {
                old(self).delays_spec().skip(
                    old(self).delays_spec().len() - (QUEUE_LEN - 1),
                ).push(micros)
            },
            final(self).sorted_spec() == old(self).sorted_spec(),
    {
        while self.delays.len() >= QUEUE_LEN
            invariant
                old(self).wf(),
                self.delays@.len() == old(self).delays@.len() || (old(self).delays@.len()
                    == QUEUE_LEN && self.delays@.len() == QUEUE_LEN - 1),
                self.delays@ =~= old(self).delays@.skip(
                    old(self).delays@.len() - self.delays@.len(),
                ),
                self.sorted_delays@ == old(self).sorted_delays@,
            decreases self.delays@.len(),
        {
            self.delays.remove(0);
        }
        self.delays.push(micros);
    }

    /// The sum of the delays of the window, in microseconds. The window
    /// holds at most `QUEUE_LEN` delays, so the sum fits the result type.
    pub fn sum_micros(&self) -> (s: u128)
        requires
            self.wf(),
        ensures
            s == sum_micros_spec(self.delays_spec()),
    {
        let mut s: u128 = 0;
        let mut i: usize = 0;
        while i < self.delays.len()
            invariant
                self.wf(),
                i <= self.delays@.len(),
                s == sum_micros_spec(self.delays@.take(i as int)),
                s <= i * (u64::MAX as int),
            decreases self.delays@.len() - i,
        {
            proof {
                assert(self.delays@.take(i + 1).drop_last() =~= self.delays@.take(i as int));
                assert(self.delays@.take(i + 1).last() == self.delays@[i as int]);
            }
            s = s + self.delays[i] as u128;
            i = i + 1;
        }
        proof {
            assert(self.delays@.take(self.delays@.len() as int) =~= self.delays@);
        }
        s
    }
}

/// Sorts the buffer from smallest to largest, keeping exactly the same
/// delays. Each round takes the next delay out and puts it back in front of
/// the first larger entry of the sorted prefix.
fn sort_micros(v: &mut Vec<u64>)
    ensures
        is_sorted(final(v)@),
        final(v)@.to_multiset() == old(v)@.to_multiset(),
        final(v)@.len() == old(v)@.len(),
{
    broadcast use vstd::seq_lib::group_to_multiset_ensures;

    let mut i: usize = 1;
    while i < v.len()
        invariant
            v@.len() == old(v)@.len(),
            v@.to_multiset() == old(v)@.to_multiset(),
            1 <= i,
            is_sorted(v@.take(if i < v@.len() { i as int } else { v@.len() as int })),
        decreases v@.len() - i,
    {
        let ghost before = v@;
        let x = v[i];
        let mut j: usize = 0;
        while j < i && v[j] <= x
            invariant
                j <= i,
                i < v@.len(),
                v@ == before,
                forall|k: int| 0 <= k < j ==> v@[k] <= x,
            decreases i - j,
        {
            j = j + 1;
        }
        let moved = v.remove(i);
        v.insert(j, moved);
        proof {
            assert(moved == before[i as int]);
            let after = v@;
            assert(after.to_multiset() == before.to_multiset()) by {
                broadcast use vstd::multiset::group_multiset_axioms;

                let m = before.to_multiset();
                vstd::seq_lib::to_multiset_remove(before, i as int);
                vstd::seq_lib::to_multiset_insert(before.remove(i as int), j as int, moved);
                assert(before.contains(moved));
                vstd::seq_lib::to_multiset_contains(before, moved);
                assert(m.count(moved) > 0);
                assert(m.remove(moved).insert(moved) =~= m);
            }
            assert(is_sorted(after.take(i + 1))) by {
                assert forall|a: int, b: int|
                    #![trigger after.take(i + 1)[a], after.take(i + 1)[b]]
                    0 <= a <= b < i + 1 implies after.take(i + 1)[a] <= after.take(i + 1)[b] by {
                    // before the move: entries under `j` are at most `x`,
                    // the sorted prefix from `j` on is larger than `x`
                    assert(forall|k: int|
                        0 <= k < i + 1 ==> after[k] == if k < j {
                            before[k]
                        } else if k == j {
                            moved
                        } else {
                            before[k - 1]
                        });
                    assert(j < i ==> before[j as int] > x);
                    assert(is_sorted(before.take(i as int)));
                    assert forall|k: int| j <= k < i implies before[k] >= before[j as int] by {
                        assert(before.take(i as int)[j as int] == before[j as int]);
                        assert(before.take(i as int)[k] == before[k]);
                        assert(before.take(i as int)[j as int] <= before.take(i as int)[k]);
                    }
                }
            }
        }
        i = i + 1;
    }
    proof {
        if v@.len() > 0 {
            assert(v@.take(v@.len() as int) =~= v@);
        }
    }
}

impl Delays {
    /// Sorts a copy of the window into the scratch buffer and picks one
    /// entry per reported percentile: for a window of `len` delays the
    /// entry at `len * permille / 1000` of the sorted copy. Returns the
    /// (permille, delay) pairs, from the 80.0th to the 99.9th percentile.
    pub fn calculate_percentiles(&mut self) -> (r: Vec<(u32, u64)>)
        requires
            old(self).wf(),
            old(self).delays_spec().len() > 0,
        ensures
            final(self).wf(),
            final(self).delays_spec() == old(self).delays_spec(),
            is_sorted(final(self).sorted_spec()),
            final(self).sorted_spec().to_multiset() == old(self).delays_spec().to_multiset(),
            r@.len() == 9,
            forall|k: int|
                0 <= k < 9 ==> #[trigger] r@[k] == (
                    permille_spec(k),
                    final(self).sorted_spec()[percentile_index_spec(
                        old(self).delays_spec().len() as int,
                        permille_spec(k) as int,
                    )],
                ),
    {
        self.sorted_delays.clear();
        let mut i: usize = 0;
        while i < self.delays.len()
            invariant
                self.wf(),
                self.delays@ == old(self).delays@,
                i <= self.delays@.len(),
                self.sorted_delays@ == self.delays@.take(i as int),
            decreases self.delays@.len() - i,
        {
            proof {
                assert(self.delays@.take(i + 1) =~= self.delays@.take(i as int).push(
                    self.delays@[i as int],
                ));
            }
            let d = self.delays[i];
            self.sorted_delays.push(d);
            i = i + 1;
        }
        proof {
            assert(self.delays@.take(self.delays@.len() as int) =~= self.delays@);
        }
        sort_micros(&mut self.sorted_delays);

        let permilles: Vec<u32> = vec![800, 900, 950, 980, 985, 990, 995, 998, 999];
        proof {
            assert forall|k: int| 0 <= k < 9 implies permilles@[k] == permille_spec(k) by {
                assert(permilles@ =~= seq![
                    800u32,
                    900u32,
                    950u32,
                    980u32,
                    985u32,
                    990u32,
                    995u32,
                    998u32,
                    999u32,
                ]);
            }
        }
        let len = self.delays.len();
        let mut r: Vec<(u32, u64)> = Vec::with_capacity(permilles.len());
        let mut k: usize = 0;
        while k < permilles.len()
            invariant
                self.wf(),
                self.delays@ == old(self).delays@,
                self.delays@.len() > 0,
                len == self.delays@.len(),
                is_sorted(self.sorted_delays@),
                self.sorted_delays@.to_multiset() == old(self).delays@.to_multiset(),
                self.sorted_delays@.len() == self.delays@.len(),
                permilles@.len() == 9,
                forall|t: int| 0 <= t < 9 ==> permilles@[t] == permille_spec(t),
                forall|t: int| 0 <= t < 9 ==> permille_spec(t) <= 999,
                k <= 9,
                r@.len() == k,
                forall|t: int|
                    0 <= t < k ==> #[trigger] r@[t] == (
                        permille_spec(t),
                        self.sorted_delays@[percentile_index_spec(
                            self.delays@.len() as int,
                            permille_spec(t) as int,
                        )],
                    ),
            decreases 9 - k,
        {
            let p = permilles[k];
            proof {
                assert(p == permille_spec(k as int));
                assert(p <= 999);
                assert(len * (p as usize) <= 150 * 999) by (nonlinear_arith)
                    requires
                        len <= 150,
                        (p as usize) <= 999,
                ;
            }
            let idx = (len * (p as usize)) / 1000;
            proof {
                assert(idx < len) by (nonlinear_arith)
                    requires
                        1 <= len,
                        (p as usize) <= 999,
                        idx == (len * (p as usize)) / 1000,
                ;
            }
            let d = self.sorted_delays[idx];
            r.push((p, d));
            k = k + 1;
        }
        r
    }
}

impl Default for Delays {
    /// An empty window.
    fn default() -> (r: Self)
        ensures
            r.wf(),
            r.delays_spec().len() == 0,
            r.sorted_spec().len() == 0,
    {
        Self {
            delays: Vec::with_capacity(QUEUE_LEN),
            sorted_delays: Vec::with_capacity(QUEUE_LEN),
        }
    }
}

} // verus!
