use vstd::prelude::*;

verus! {

/// The sum of a sequence of samples.
pub open spec fn seq_sum(s: Seq<u128>) -> int
    decreases s.len(),
{
    if s.len() == 0 {
        0
    } else {
        seq_sum(s.drop_last()) + s.last()
    }
}

/// The largest of zero and the samples.
pub open spec fn seq_max(s: Seq<u128>) -> u128
    decreases s.len(),
{
    if s.len() == 0 {
        0
    } else {
        let m = seq_max(s.drop_last());
        if s.last() > m { s.last() } else { m }
    }
}

/// The sum of a prefix is at most the sum of the whole sequence.
pub proof fn lemma_prefix_sum_le(s: Seq<u128>, i: int)
    requires
        0 <= i <= s.len(),
    ensures
        0 <= seq_sum(s.take(i)) <= seq_sum(s),
    decreases s.len() - i,
{
    if i < s.len() {
        lemma_prefix_sum_le(s, i + 1);
        assert(s.take(i + 1).drop_last() =~= s.take(i));
    } else {
        assert(s.take(i) =~= s);
    }
    lemma_sum_nonneg(s.take(i));
}

pub proof fn lemma_sum_nonneg(s: Seq<u128>)
    ensures
        seq_sum(s) >= 0,
    decreases s.len(),
{
    if s.len() > 0 {
        lemma_sum_nonneg(s.drop_last());
    }
}

/// What a buffer of `n` slots that started out as zeros holds once `pushes` have been pushed
/// into it, oldest first, each into the slot after the one before.
pub open spec fn after_pushes(n: nat, pushes: Seq<u128>) -> Seq<u128>
    decreases pushes.len(),
{
    if pushes.len() == 0 {
        Seq::new(n, |i: int| 0u128)
    } else {
        after_pushes(n, pushes.drop_last()).update(
            (pushes.len() - 1) % (n as int),
            pushes.last(),
        )
    }
}

/// The last `n` of `pushes` (all of them where there are fewer).
pub open spec fn recent(n: nat, pushes: Seq<u128>) -> Seq<u128> {
    let k = pushes.len() as int;
    pushes.subrange(if k > n { k - n } else { 0 }, k)
}

proof fn lemma_mod_distinct(a: int, b: int, n: int)
    requires
        n > 0,
        0 < a - b < n,
    ensures
        a % n != b % n,
{
    vstd::arithmetic::div_mod::lemma_fundamental_div_mod(a, n);
    vstd::arithmetic::div_mod::lemma_fundamental_div_mod(b, n);
    vstd::arithmetic::div_mod::lemma_mod_bound(a, n);
    vstd::arithmetic::div_mod::lemma_mod_bound(b, n);
    if a % n == b % n {
        assert(a - b == n * (a / n - b / n)) by (nonlinear_arith)
            requires
                a == n * (a / n) + a % n,
                b == n * (b / n) + b % n,
                a % n == b % n;
        assert(false) by (nonlinear_arith)
            requires
                a - b == n * (a / n - b / n),
                0 < a - b < n,
                n > 0;
    }
}

/// Where the pushed samples are: each of the last `n` is in the slot of its position, and a
/// slot that no sample reached yet is zero.
proof fn lemma_after_pushes_slots(n: nat, pushes: Seq<u128>)
    requires
        n > 0,
    ensures
        after_pushes(n, pushes).len() == n,
        forall|j: int|
            #![trigger pushes[j]]
            0 <= j < pushes.len() && j >= pushes.len() - n ==> after_pushes(n, pushes)[j % (
            n as int)] == pushes[j],
        forall|i: int|
            pushes.len() <= i < n ==> #[trigger] after_pushes(n, pushes)[i] == 0,
    decreases pushes.len(),
{
    let k = pushes.len() as int;
    if k > 0 {
        let prev = pushes.drop_last();
        lemma_after_pushes_slots(n, prev);
        vstd::arithmetic::div_mod::lemma_mod_bound(k - 1, n as int);
        assert forall|j: int|
            #![trigger pushes[j]]
            0 <= j < k && j >= k - n implies after_pushes(n, pushes)[j % (n as int)]
            == pushes[j] by {
            vstd::arithmetic::div_mod::lemma_mod_bound(j, n as int);
            if j < k - 1 {
                lemma_mod_distinct(k - 1, j, n as int);
                assert(prev[j] == pushes[j]);
            }
        }
        assert forall|i: int| k <= i < n implies #[trigger] after_pushes(n, pushes)[i] == 0 by {
            vstd::arithmetic::div_mod::lemma_small_mod((k - 1) as nat, n);
        }
    }
}

proof fn lemma_sum_update(s: Seq<u128>, i: int, x: u128)
    requires
        0 <= i < s.len(),
    ensures
        seq_sum(s.update(i, x)) == seq_sum(s) - s[i] + x,
    decreases s.len(),
{
    if i < s.len() - 1 {
        lemma_sum_update(s.drop_last(), i, x);
        assert(s.update(i, x).drop_last() =~= s.drop_last().update(i, x));
    } else {
        assert(s.update(i, x).drop_last() =~= s.drop_last());
    }
}

proof fn lemma_sum_drop_first(s: Seq<u128>)
    requires
        s.len() > 0,
    ensures
        seq_sum(s) == s[0] + seq_sum(s.drop_first()),
    decreases s.len(),
{
    if s.len() > 1 {
        lemma_sum_drop_first(s.drop_last());
        assert(s.drop_last().drop_first() =~= s.drop_first().drop_last());
        assert(seq_sum(s.drop_first()) == seq_sum(s.drop_first().drop_last())
            + s.drop_first().last());
    } else {
        assert(s.drop_first().len() == 0);
        assert(s.drop_last().len() == 0);
        assert(seq_sum(s.drop_last()) == 0);
    }
}

proof fn lemma_max_bounds(s: Seq<u128>)
    ensures
        forall|i: int| 0 <= i < s.len() ==> s[i] <= seq_max(s),
        seq_max(s) == 0 || exists|i: int| 0 <= i < s.len() && s[i] == seq_max(s),
    decreases s.len(),
{
    if s.len() > 0 {
        lemma_max_bounds(s.drop_last());
        assert forall|i: int| 0 <= i < s.len() implies s[i] <= seq_max(s) by {
            if i < s.len() - 1 {
                assert(s.drop_last()[i] == s[i]);
            }
        }
        if seq_max(s) != 0 && seq_max(s) != s.last() {
            let i = choose|i: int| 0 <= i < s.drop_last().len() && s.drop_last()[i] == seq_max(
                s.drop_last(),
            );
            assert(s[i] == seq_max(s));
        }
        if seq_max(s) == s.last() && s.last() != 0 {
            assert(s[s.len() - 1] == seq_max(s));
        }
    }
}

/// Two sequences with the same elements apart from zeros have the same largest element.
proof fn lemma_max_same_elements(a: Seq<u128>, b: Seq<u128>)
    requires
        forall|i: int|
            #![trigger a[i]]
            0 <= i < a.len() ==> a[i] == 0 || exists|j: int|
                #![trigger b[j]]
                0 <= j < b.len() && b[j] == a[i],
        forall|j: int|
            #![trigger b[j]]
            0 <= j < b.len() ==> exists|i: int| #![trigger a[i]] 0 <= i < a.len() && a[i] == b[j],
    ensures
        seq_max(a) == seq_max(b),
{
    lemma_max_bounds(a);
    lemma_max_bounds(b);
    if seq_max(a) != 0 {
        let i = choose|i: int| 0 <= i < a.len() && a[i] == seq_max(a);
        let j = choose|j: int| 0 <= j < b.len() && b[j] == a[i];
        assert(seq_max(a) <= seq_max(b));
    }
    if seq_max(b) != 0 {
        let j = choose|j: int| 0 <= j < b.len() && b[j] == seq_max(b);
        let i = choose|i: int| 0 <= i < a.len() && a[i] == b[j];
        assert(seq_max(b) <= seq_max(a));
    }
}

/// Law: the sum and the largest of the samples that a buffer of `n` slots holds after `pushes`
/// are the sum and the largest of the last `n` pushed samples (slots never written count as
/// zero), so `average` is the mean of the last `n` samples over `n` and `max` is their largest.
pub proof fn lemma_sliding_window(n: nat, pushes: Seq<u128>)
    requires
        n > 0,
    ensures
        seq_sum(after_pushes(n, pushes)) == seq_sum(recent(n, pushes)),
        seq_max(after_pushes(n, pushes)) == seq_max(recent(n, pushes)),
    decreases pushes.len(),
{
    let k = pushes.len() as int;
    let a = after_pushes(n, pushes);
    let w = recent(n, pushes);
    let lo = if k > n { k - n } else { 0 };
    lemma_after_pushes_slots(n, pushes);
    // The sums.
    if k == 0 {
        assert(seq_sum(Seq::new(n, |i: int| 0u128)) == 0) by {
            lemma_zero_sum(n);
        }
        assert(w.len() == 0);
    } else {
        let prev = pushes.drop_last();
        lemma_sliding_window(n, prev);
        lemma_after_pushes_slots(n, prev);
        let pa = after_pushes(n, prev);
        let slot = (k - 1) % (n as int);
        vstd::arithmetic::div_mod::lemma_mod_bound(k - 1, n as int);
        lemma_sum_update(pa, slot, pushes.last());
        let pw = recent(n, prev);
        if k - 1 >= n {
            // The oldest sample leaves the window; it was in the slot now overwritten.
            assert(pa[((k - 1 - n) % (n as int))] == prev[k - 1 - n]);
            assert((k - 1 - n) % (n as int) == slot) by {
                vstd::arithmetic::div_mod::lemma_mod_sub_multiples_vanish(k - 1, n as int);
            }
            lemma_sum_drop_first(pw);
            assert(pw.drop_first().push(pushes.last()) =~= w);
            assert(w.drop_last() =~= pw.drop_first());
        } else {
            vstd::arithmetic::div_mod::lemma_small_mod((k - 1) as nat, n);
            assert(pa[slot] == 0);
            assert(w.drop_last() =~= pw);
        }
    }
    // The largest samples: every slot holds zero or a sample of the window, and every sample
    // of the window is in some slot.
    assert forall|i: int|
        #![trigger a[i]]
        0 <= i < a.len() implies a[i] == 0 || exists|j: int|
            #![trigger w[j]]
            0 <= j < w.len() && w[j] == a[i] by {
        if i < k {
            // The sample of the window in slot `i`.
            let j = lo + (i - lo) % (n as int);
            vstd::arithmetic::div_mod::lemma_mod_bound(i - lo, n as int);
            assert(j % (n as int) == i) by {
                let q = (i - lo) / (n as int);
                vstd::arithmetic::div_mod::lemma_fundamental_div_mod(i - lo, n as int);
                assert(j == (n as int) * (-q) + i) by (nonlinear_arith)
                    requires
                        j == lo + (i - lo) % (n as int),
                        i - lo == (n as int) * q + (i - lo) % (n as int);
                vstd::arithmetic::div_mod::lemma_mod_multiples_vanish(-q, i, n as int);
                vstd::arithmetic::div_mod::lemma_small_mod(i as nat, n);
            }
            if k > n {
                assert(j < k);
            } else {
                assert((i - lo) % (n as int) == i) by {
                    vstd::arithmetic::div_mod::lemma_small_mod(i as nat, n);
                }
            }
            assert(pushes[j] == a[i]);
            assert(w[j - lo] == pushes[j]);
        }
    }
    assert forall|j: int|
        #![trigger w[j]]
        0 <= j < w.len() implies exists|i: int| #![trigger a[i]] 0 <= i < a.len() && a[i] == w[j] by {
        vstd::arithmetic::div_mod::lemma_mod_bound(j + lo, n as int);
        assert(w[j] == pushes[j + lo]);
        assert(a[(j + lo) % (n as int)] == pushes[j + lo]);
    }
    lemma_max_same_elements(a, w);
}

proof fn lemma_zero_sum(n: nat)
    ensures
        seq_sum(Seq::new(n, |i: int| 0u128)) == 0,
    decreases n,
{
    if n > 0 {
        lemma_zero_sum((n - 1) as nat);
        assert(Seq::new(n, |i: int| 0u128).drop_last() =~= Seq::new((n - 1) as nat, |i: int| 0u128));
    }
}

/// A fixed number of recent samples, overwritten oldest first.
pub struct RingBufferAverage {
    elements: Vec<u128>,
    current_index: usize,
}

impl RingBufferAverage {
    /// The buffer holds at least one slot, and the next slot is one of them.
    pub closed spec fn wf(self) -> bool {
        &&& self.elements.len() > 0
        &&& self.current_index < self.elements.len()
    }

    /// The samples held, in storage order.
    pub closed spec fn samples(self) -> Seq<u128> {
        self.elements@
    }

    /// The slot that the next sample overwrites.
    pub closed spec fn next_slot(self) -> int {
        self.current_index as int
    }

    /// A buffer of `capacity` zero samples.
    pub fn new(capacity: usize) -> (r: Self)
        requires
            capacity > 0,
        ensures
            r.wf(),
            r.samples() == Seq::new(capacity as nat, |i: int| 0u128),
            r.next_slot() == 0,
    {
        let mut vec: Vec<u128> = Vec::with_capacity(capacity);
        let mut i: usize = 0;
        while i < capacity
            invariant
                i <= capacity,
                vec@ == Seq::new(i as nat, |j: int| 0u128),
            decreases capacity - i,
        {
            vec.push(0);
            i = i + 1;
        }
        Self { elements: vec, current_index: 0 }
    }

    /// The mean of the samples, rounded down.
    pub fn average(&self) -> (r: u128)
        requires
            self.wf(),
            seq_sum(self.samples()) <= u128::MAX,
        ensures
            r == seq_sum(self.samples()) / (self.samples().len() as int),
    {
        let mut sum: u128 = 0;
        let mut i: usize = 0;
        while i < self.elements.len()
            invariant
                i <= self.elements@.len(),
                sum == seq_sum(self.elements@.take(i as int)),
                seq_sum(self.elements@) <= u128::MAX,
            decreases self.elements@.len() - i,
        {
            proof {
                lemma_prefix_sum_le(self.elements@, i + 1);
                assert(self.elements@.take(i + 1).drop_last() =~= self.elements@.take(i as int));
            }
            sum = sum + self.elements[i];
            i = i + 1;
        }
        proof {
            assert(self.elements@.take(i as int) =~= self.elements@);
        }
        sum / (self.elements.len() as u128)
    }

    /// The largest sample (the samples are never below zero).
    pub fn max(&self) -> (r: u128)
        ensures
            r == seq_max(self.samples()),
    {
        let mut max: u128 = 0;
        let mut i: usize = 0;
        while i < self.elements.len()
            invariant
                i <= self.elements@.len(),
                max == seq_max(self.elements@.take(i as int)),
            decreases self.elements@.len() - i,
        {
            proof {
                assert(self.elements@.take(i + 1).drop_last() =~= self.elements@.take(i as int));
            }
            let item = self.elements[i];
            if item > max {
                max = item;
            }
            i = i + 1;
        }
        proof {
            assert(self.elements@.take(i as int) =~= self.elements@);
        }
        max
    }

    /// Overwrites the oldest sample.
    pub fn push_sample(&mut self, sample: u128)
        requires
            old(self).wf(),
        ensures
            final(self).wf(),
            final(self).samples() == old(self).samples().update(old(self).next_slot(), sample),
            final(self).next_slot() == (old(self).next_slot() + 1) % (old(self).samples().len() as int),
    {
        let index = self.current_index;
        let len = self.elements.len();
        self.elements.set(index, sample);
        self.current_index = (index + 1) % len;
    }
}

/// Law: a buffer that holds what `pushes` left in it holds what `pushes` and one more sample
/// leave once `push_sample` has pushed that sample; a buffer made by `new` holds what no pushes
/// leave. So a buffer of `n` slots that was made by `new` and then given `pushes` one by one
/// holds `after_pushes(n, pushes)`, and `lemma_sliding_window` applies to it.
pub proof fn lemma_push_step(
    before: RingBufferAverage,
    after: RingBufferAverage,
    sample: u128,
    pushes: Seq<u128>,
)
    requires
        before.wf(),
        before.samples() == after_pushes(before.samples().len(), pushes),
        before.next_slot() == (pushes.len() as int) % (before.samples().len() as int),
        after.samples() == before.samples().update(before.next_slot(), sample),
        after.next_slot() == (before.next_slot() + 1) % (before.samples().len() as int),
    ensures
        after.samples() == after_pushes(before.samples().len(), pushes.push(sample)),
        after.next_slot() == (pushes.push(sample).len() as int) % (before.samples().len() as int),
        Seq::new(before.samples().len(), |i: int| 0u128) == after_pushes(
            before.samples().len(),
            Seq::<u128>::empty(),
        ),
{
    let n = before.samples().len() as int;
    assert(pushes.push(sample).drop_last() =~= pushes);
    vstd::arithmetic::div_mod::lemma_add_mod_noop_right(1, pushes.len() as int, n);
}

} // verus!
