//! Temporal scoping: discrete timestamp sets over a fixed axis.

use vstd::prelude::*;

verus! {

/// Bit `i` of the word `w` (bit 0 is the least significant).
spec fn word_bit(w: u64, i: u64) -> bool {
    (w >> i) & 1u64 == 1u64
}

/// Number of 64-bit words needed for an axis of `n` timestamps.
spec fn word_count(n: int) -> int {
    if n % 64 == 0 { n / 64 } else { n / 64 + 1 }
}

/// Whether timestamp `t` is set in the packed words `blocks`.
spec fn bit_at(blocks: Seq<u64>, t: int) -> bool {
    0 <= t && t / 64 < blocks.len() && word_bit(blocks[t / 64], (t % 64) as u64)
}

/// The timestamps `0..n`.
pub open spec fn axis(n: nat) -> Set<int> {
    Set::new(|t: int| 0 <= t < n)
}

/// Timestamps strictly before `t` on an axis of `n`.
pub open spec fn before_set(t: int, n: int) -> Set<int> {
    Set::new(|i: int| 0 <= i < t && i < n)
}

/// Timestamps strictly after `t` on an axis of `n`.
pub open spec fn after_set(t: int, n: int) -> Set<int> {
    Set::new(|i: int| t < i < n && 0 <= i)
}

/// Timestamps in `[a, b]` on an axis of `n`.
pub open spec fn between_set(a: int, b: int, n: int) -> Set<int> {
    Set::new(|i: int| a <= i <= b && 0 <= i < n)
}

/// The single timestamp `t` if it lies on an axis of `n`, else nothing.
pub open spec fn singleton_set(t: int, n: int) -> Set<int> {
    if 0 <= t < n { set![t] } else { Set::empty() }
}

proof fn lemma_bit_zero(i: u64)
    by (bit_vector)
    requires
        i < 64,
    ensures
        !word_bit(0u64, i),
{
}

proof fn lemma_bit_set_one(w: u64, j: u64, i: u64)
    by (bit_vector)
    requires
        i < 64,
        j < 64,
    ensures
        word_bit(w | (1u64 << j), i) == (i == j || word_bit(w, i)),
{
}

proof fn lemma_bit_test(w: u64, j: u64)
    by (bit_vector)
    requires
        j < 64,
    ensures
        ((w & (1u64 << j)) != 0u64) == word_bit(w, j),
{
}

proof fn lemma_bit_or(a: u64, b: u64, i: u64)
    by (bit_vector)
    requires
        i < 64,
    ensures
        word_bit(a | b, i) == (word_bit(a, i) || word_bit(b, i)),
{
}

proof fn lemma_bit_and(a: u64, b: u64, i: u64)
    by (bit_vector)
    requires
        i < 64,
    ensures
        word_bit(a & b, i) == (word_bit(a, i) && word_bit(b, i)),
{
}

proof fn lemma_bit_not(a: u64, i: u64)
    by (bit_vector)
    requires
        i < 64,
    ensures
        word_bit(!a, i) == !word_bit(a, i),
{
}

proof fn lemma_bit_low_mask(a: u64, m: u64, i: u64)
    by (bit_vector)
    requires
        0 < m < 64,
        i < 64,
    ensures
        (1u64 << m) >= 1u64,
        word_bit(a & (((1u64 << m) - 1u64) as u64), i) == (i < m && word_bit(a, i)),
{
}

proof fn lemma_bit_shift_facts(w: u64, j: u64)
    by (bit_vector)
    requires
        j < 63,
    ensures
        ((w & 1u64) == 1u64) == word_bit(w, 0u64),
        w != 0u64 && (w & 1u64) != 1u64 ==> (w >> 1u64) != 0u64 && (w >> 1u64) < w,
        word_bit(w >> 1u64, j) == word_bit(w, (j + 1) as u64),
        !word_bit(w >> 1u64, 63u64),
{
}

proof fn lemma_bit_xor(a: u64, b: u64, i: u64)
    by (bit_vector)
    requires
        i < 64,
    ensures
        word_bit(a ^ b, i) ==> word_bit(a, i) != word_bit(b, i),
        (a ^ b) == 0u64 ==> a == b,
{
}

/// A nonzero word has a set bit.
proof fn lemma_nonzero_has_bit(w: u64) -> (j: u64)
    requires
        w != 0,
    ensures
        j < 64,
        word_bit(w, j),
    decreases w,
{
    lemma_bit_shift_facts(w, 0);
    if w & 1u64 == 1u64 {
        0
    } else {
        let j2 = lemma_nonzero_has_bit(w >> 1u64);
        if j2 == 63 {
            assert(false);
        }
        lemma_bit_shift_facts(w, j2);
        (j2 + 1) as u64
    }
}

/// Two words that agree on every bit are equal.
proof fn lemma_word_ext(a: u64, b: u64)
    requires
        forall|i: u64| i < 64 ==> word_bit(a, i) == word_bit(b, i),
    ensures
        a == b,
{
    lemma_bit_xor(a, b, 0);
    if a ^ b != 0u64 {
        let j = lemma_nonzero_has_bit(a ^ b);
        lemma_bit_xor(a, b, j);
        assert(word_bit(a, j) == word_bit(b, j));
    }
}

/// A set of discrete timestamp ids over a fixed axis `0..num_timestamps`.
///
/// Closed under union, intersection and complement; the contiguous window
/// shapes survive as the constructors [`before`](Self::before),
/// [`after`](Self::after) and [`between`](Self::between). Backed by a bitset
/// whose bits past the axis are always clear.
#[derive(Debug, Clone)]
pub struct TimeSet {
    blocks: Vec<u64>,
    n: usize,
}

impl TimeSet {
    /// The representation invariant: one bit per timestamp, packed into the
    /// least number of words, with every bit past the axis clear.
    pub closed spec fn wf(&self) -> bool {
        &&& self.blocks.len() == word_count(self.n as int)
        &&& forall|t: int|
            self.n <= t < 64 * self.blocks.len() ==> !#[trigger] bit_at(self.blocks@, t)
    }

    /// The axis size `n`: members are drawn from `0..n`.
    pub closed spec fn axis_len(&self) -> nat {
        self.n as nat
    }

    /// Two values with the same words over the same axis.
    pub closed spec fn same_repr(&self, other: &Self) -> bool {
        self.n == other.n && self.blocks@ == other.blocks@
    }
}

impl View for TimeSet {
    type V = Set<int>;

    closed spec fn view(&self) -> Set<int> {
        Set::new(|t: int| 0 <= t < self.n && bit_at(self.blocks@, t))
    }
}

impl TimeSet {
    /// The empty set over an axis of `n` timestamps.
    pub fn empty(n: usize) -> (s: Self)
        ensures
            s.wf(),
            s.axis_len() == n,
            s@ == Set::<int>::empty(),
    {
        let words: usize = if n % 64 == 0 { n / 64 } else { n / 64 + 1 };
        let mut blocks: Vec<u64> = Vec::new();
        let mut k: usize = 0;
        while k < words
            invariant
                k <= words,
                blocks.len() == k,
                forall|i: int| 0 <= i < k ==> blocks@[i] == 0u64,
            decreases words - k,
        {
            blocks.push(0u64);
            k = k + 1;
        }
        let s = TimeSet { blocks, n };
        assert forall|t: int| 0 <= t && t / 64 < s.blocks.len() implies !#[trigger] bit_at(s.blocks@, t) by {
            lemma_bit_zero((t % 64) as u64);
        }
        assert(s@ =~= Set::<int>::empty());
        s
    }

    /// Axis size this set is defined over.
    pub fn num_timestamps(&self) -> (r: usize)
        ensures
            r == self.axis_len(),
    {
        self.n
    }

    /// Add a timestamp (ignored if off-axis).
    pub fn insert(&mut self, t: usize)
        requires
            old(self).wf(),
        ensures
            final(self).wf(),
            final(self).axis_len() == old(self).axis_len(),
            final(self)@ == (if t < old(self).axis_len() { old(self)@.insert(t as int) } else { old(self)@ }),
    {
        if t < self.n {
            let k: usize = t / 64;
            let j: u64 = (t % 64) as u64;
            let w: u64 = self.blocks[k];
            let ghost old_blocks = self.blocks@;
            self.blocks.set(k, w | (1u64 << j));
            assert forall|s: int| #![trigger bit_at(self.blocks@, s)]
                bit_at(self.blocks@, s) == (bit_at(old_blocks, s) || s == t) by {
                if 0 <= s && s / 64 == k as int {
                    lemma_bit_set_one(w, j, (s % 64) as u64);
                }
            }
            assert(self@ =~= old(self)@.insert(t as int));
        }
    }

    /// Is `t` in the set?
    pub fn contains(&self, t: usize) -> (r: bool)
        requires
            self.wf(),
        ensures
            r == self@.contains(t as int),
    {
        if t < self.n {
            let j: u64 = (t % 64) as u64;
            let w: u64 = self.blocks[t / 64];
            proof {
                lemma_bit_test(w, j);
            }
            (w & (1u64 << j)) != 0
        } else {
            false
        }
    }
}


impl TimeSet {
    /// The full axis `0..n`.
    pub fn all(n: usize) -> (s: Self)
        ensures
            s.wf(),
            s.axis_len() == n,
            s@ == axis(n as nat),
    {
        let mut s = Self::empty(n);
        let mut t: usize = 0;
        while t < n
            invariant
                t <= n,
                s.wf(),
                s.axis_len() == n,
                s@ == Set::new(|i: int| 0 <= i < t),
            decreases n - t,
        {
            s.insert(t);
            t = t + 1;
            assert(s@ =~= Set::new(|i: int| 0 <= i < t));
        }
        assert(s@ =~= axis(n as nat));
        s
    }

    /// Timestamps strictly before `t` (clamped to the axis).
    pub fn before(t: usize, n: usize) -> (s: Self)
        ensures
            s.wf(),
            s.axis_len() == n,
            s@ == before_set(t as int, n as int),
    {
        let mut s = Self::empty(n);
        let hi: usize = if t < n { t } else { n };
        let mut i: usize = 0;
        while i < hi
            invariant
                i <= hi,
                hi == (if t < n { t } else { n }),
                s.wf(),
                s.axis_len() == n,
                s@ == Set::new(|x: int| 0 <= x < i),
            decreases hi - i,
        {
            s.insert(i);
            i = i + 1;
            assert(s@ =~= Set::new(|x: int| 0 <= x < i));
        }
        assert(s@ =~= before_set(t as int, n as int));
        s
    }

    /// Timestamps strictly after `t`.
    pub fn after(t: usize, n: usize) -> (s: Self)
        ensures
            s.wf(),
            s.axis_len() == n,
            s@ == after_set(t as int, n as int),
    {
        let mut s = Self::empty(n);
        let start: usize = t.saturating_add(1);
        let mut i: usize = start;
        while i < n
            invariant
                start <= i,
                start == (if t < usize::MAX { t + 1 } else { t as int }),
                s.wf(),
                s.axis_len() == n,
                s@ == Set::new(|x: int| start <= x < i && x < n),
            decreases n - i,
        {
            s.insert(i);
            i = i + 1;
            assert(s@ =~= Set::new(|x: int| start <= x < i && x < n));
        }
        assert(s@ =~= after_set(t as int, n as int));
        s
    }

    /// Timestamps in `[a, b]` inclusive (clamped to the axis).
    pub fn between(a: usize, b: usize, n: usize) -> (s: Self)
        ensures
            s.wf(),
            s.axis_len() == n,
            s@ == between_set(a as int, b as int, n as int),
    {
        let mut s = Self::empty(n);
        let last: usize = n.saturating_sub(1);
        let hi: usize = if b < last { b } else { last };
        let mut i: usize = a;
        while i <= hi
            invariant
                a <= i,
                i <= hi + 1 || i == a,
                hi <= last,
                last == (if n > 0 { n - 1 } else { 0 }),
                hi == (if b < last { b } else { last }),
                s.wf(),
                s.axis_len() == n,
                s@ == Set::new(|x: int| a <= x < i && x < n),
            decreases hi + 1 - i,
        {
            if i < n {
                s.insert(i);
            }
            i = i + 1;
            assert(s@ =~= Set::new(|x: int| a <= x < i && x < n));
        }
        assert(s@ =~= between_set(a as int, b as int, n as int));
        s
    }

    /// The single timestamp `t` (empty if `t` is off-axis).
    pub fn singleton(t: usize, n: usize) -> (s: Self)
        ensures
            s.wf(),
            s.axis_len() == n,
            s@ == singleton_set(t as int, n as int),
    {
        let mut s = Self::empty(n);
        s.insert(t);
        proof {
            if t < n {
                assert(s@ =~= set![t as int]);
            } else {
                assert(s@ =~= Set::<int>::empty());
            }
        }
        s
    }
}


/// Timestamps of the first `m` bit positions of `blocks` that are set.
spec fn set_below(blocks: Seq<u64>, m: int) -> Set<int> {
    Set::new(|t: int| 0 <= t < m && bit_at(blocks, t))
}

proof fn lemma_set_below_step(blocks: Seq<u64>, m: int)
    requires
        0 <= m,
        set_below(blocks, m).finite(),
    ensures
        !set_below(blocks, m).contains(m),
        set_below(blocks, m + 1) == (if bit_at(blocks, m) {
            set_below(blocks, m).insert(m)
        } else {
            set_below(blocks, m)
        }),
        set_below(blocks, m + 1).finite(),
{
    if bit_at(blocks, m) {
        assert(set_below(blocks, m + 1) =~= set_below(blocks, m).insert(m));
    } else {
        assert(set_below(blocks, m + 1) =~= set_below(blocks, m));
    }
}

impl TimeSet {
    /// Number of timestamps in the set.
    pub fn len(&self) -> (r: usize)
        requires
            self.wf(),
        ensures
            self@.finite(),
            r == self@.len(),
    {
        let ghost blocks = self.blocks@;
        let nb = self.blocks.len();
        let mut count: usize = 0;
        let mut k: usize = 0;
        proof {
            assert(set_below(blocks, 0) =~= Set::<int>::empty());
        }
        while k < nb
            invariant
                self.wf(),
                blocks == self.blocks@,
                nb == blocks.len(),
                k <= nb,
                set_below(blocks, 64 * k).finite(),
                count == set_below(blocks, 64 * k).len(),
                count <= 64 * k,
                count <= self.n,
            decreases nb - k,
        {
            let w: u64 = self.blocks[k];
            let mut j: u64 = 0;
            while j < 64
                invariant
                    self.wf(),
                    blocks == self.blocks@,
                    nb == blocks.len(),
                    k < nb,
                    j <= 64,
                    w == blocks[k as int],
                    set_below(blocks, 64 * k + j).finite(),
                    count == set_below(blocks, 64 * k + j).len(),
                    count <= 64 * k + j,
                    count <= self.n,
                decreases 64 - j,
            {
                let ghost t: int = 64 * k + j;
                proof {
                    assert(t / 64 == k as int);
                    assert(t % 64 == j as int);
                    lemma_set_below_step(blocks, t);
                }
                if (w >> j) & 1u64 == 1u64 {
                    assert(bit_at(blocks, t));
                    assert(t < self.n);
                    count = count + 1;
                } else {
                    assert(!bit_at(blocks, t));
                }
                j = j + 1;
            }
            k = k + 1;
        }
        proof {
            assert(set_below(blocks, 64 * nb) =~= self@);
        }
        count
    }

    /// Is the set empty?
    pub fn is_empty(&self) -> (r: bool)
        requires
            self.wf(),
        ensures
            r == (self@ == Set::<int>::empty()),
    {
        let nb = self.blocks.len();
        let mut k: usize = 0;
        while k < nb
            invariant
                self.wf(),
                nb == self.blocks.len(),
                k <= nb,
                forall|i: int| 0 <= i < k ==> self.blocks@[i] == 0u64,
            decreases nb - k,
        {
            let w = self.blocks[k];
            if w != 0u64 {
                proof {
                    let j = lemma_nonzero_has_bit(w);
                    let t: int = 64 * k + j;
                    assert(t / 64 == k as int);
                    assert(t % 64 == j as int);
                    assert(bit_at(self.blocks@, t));
                    assert(self@.contains(t));
                }
                return false;
            }
            k = k + 1;
        }
        proof {
            assert forall|t: int| !#[trigger] self@.contains(t) by {
                if 0 <= t && t / 64 < nb {
                    lemma_bit_zero((t % 64) as u64);
                }
            }
            assert(self@ =~= Set::<int>::empty());
        }
        true
    }

    /// Set union. Both sets must share the axis.
    pub fn union(&self, other: &Self) -> (r: Self)
        requires
            self.wf(),
            other.wf(),
            self.axis_len() == other.axis_len(),
        ensures
            r.wf(),
            r.axis_len() == self.axis_len(),
            r@ == self@.union(other@),
    {
        let nb = self.blocks.len();
        let mut blocks: Vec<u64> = Vec::new();
        let mut k: usize = 0;
        while k < nb
            invariant
                nb == self.blocks.len(),
                nb == other.blocks.len(),
                k <= nb,
                blocks.len() == k,
                forall|i: int| 0 <= i < k ==> blocks@[i] == (self.blocks@[i] | other.blocks@[i]),
            decreases nb - k,
        {
            blocks.push(self.blocks[k] | other.blocks[k]);
            k = k + 1;
        }
        let r = TimeSet { blocks, n: self.n };
        assert forall|t: int| #![trigger bit_at(r.blocks@, t)]
            bit_at(r.blocks@, t) == (bit_at(self.blocks@, t) || bit_at(other.blocks@, t)) by {
            if 0 <= t && t / 64 < nb {
                lemma_bit_or(self.blocks@[t / 64], other.blocks@[t / 64], (t % 64) as u64);
            }
        }
        assert(r@ =~= self@.union(other@));
        r
    }

    /// Set intersection. Both sets must share the axis.
    pub fn intersect(&self, other: &Self) -> (r: Self)
        requires
            self.wf(),
            other.wf(),
            self.axis_len() == other.axis_len(),
        ensures
            r.wf(),
            r.axis_len() == self.axis_len(),
            r@ == self@.intersect(other@),
    {
        let nb = self.blocks.len();
        let mut blocks: Vec<u64> = Vec::new();
        let mut k: usize = 0;
        while k < nb
            invariant
                nb == self.blocks.len(),
                nb == other.blocks.len(),
                k <= nb,
                blocks.len() == k,
                forall|i: int| 0 <= i < k ==> blocks@[i] == (self.blocks@[i] & other.blocks@[i]),
            decreases nb - k,
        {
            blocks.push(self.blocks[k] & other.blocks[k]);
            k = k + 1;
        }
        let r = TimeSet { blocks, n: self.n };
        assert forall|t: int| #![trigger bit_at(r.blocks@, t)]
            bit_at(r.blocks@, t) == (bit_at(self.blocks@, t) && bit_at(other.blocks@, t)) by {
            if 0 <= t && t / 64 < nb {
                lemma_bit_and(self.blocks@[t / 64], other.blocks@[t / 64], (t % 64) as u64);
            }
        }
        assert(r@ =~= self@.intersect(other@));
        r
    }

    /// Set union, checked: `None` when the two sets live on different axes.
    pub fn checked_union(&self, other: &Self) -> (r: Option<Self>)
        requires
            self.wf(),
            other.wf(),
        ensures
            r is None <==> self.axis_len() != other.axis_len(),
            r matches Some(u) ==> u.wf() && u.axis_len() == self.axis_len() && u@ == self@.union(other@),
    {
        if self.n != other.n {
            None
        } else {
            Some(self.union(other))
        }
    }

    /// Set intersection, checked: `None` when the two sets live on different
    /// axes.
    pub fn checked_intersect(&self, other: &Self) -> (r: Option<Self>)
        requires
            self.wf(),
            other.wf(),
        ensures
            r is None <==> self.axis_len() != other.axis_len(),
            r matches Some(u) ==> u.wf() && u.axis_len() == self.axis_len() && u@ == self@.intersect(other@),
    {
        if self.n != other.n {
            None
        } else {
            Some(self.intersect(other))
        }
    }

    /// Complement within the axis (trailing off-axis bits stay clear).
    pub fn complement(&self) -> (r: Self)
        requires
            self.wf(),
        ensures
            r.wf(),
            r.axis_len() == self.axis_len(),
            r@ == axis(self.axis_len()).difference(self@),
    {
        let nb = self.blocks.len();
        let mut blocks: Vec<u64> = Vec::new();
        let mut k: usize = 0;
        while k < nb
            invariant
                nb == self.blocks.len(),
                k <= nb,
                blocks.len() == k,
                forall|i: int| 0 <= i < k ==> blocks@[i] == !self.blocks@[i],
            decreases nb - k,
        {
            blocks.push(!self.blocks[k]);
            k = k + 1;
        }
        let tail: usize = self.n % 64;
        let ghost flipped = blocks@;
        if tail != 0 && nb > 0 {
            let last = nb - 1;
            let w = blocks[last];
            let shift: u64 = tail as u64;
            proof {
                lemma_bit_low_mask(w, shift, 0);
            }
            let mask: u64 = (1u64 << shift) - 1u64;
            blocks.set(last, w & mask);
        }
        let r = TimeSet { blocks, n: self.n };
        proof {
            assert forall|t: int| 0 <= t && t / 64 < nb implies
                #[trigger] bit_at(r.blocks@, t) == (t < self.n && !bit_at(self.blocks@, t)) by {
                let i = (t % 64) as u64;
                lemma_bit_not(self.blocks@[t / 64], i);
                if tail != 0 && t / 64 == nb - 1 {
                    lemma_bit_low_mask(flipped[t / 64], tail as u64, i);
                }
            }
            assert(r@ =~= axis(self.axis_len()).difference(self@));
        }
        r
    }
}


impl TimeSet {
    /// The member timestamps in increasing order.
    pub fn iter(&self) -> (r: Vec<usize>)
        requires
            self.wf(),
        ensures
            forall|i: int, j: int| 0 <= i < j < r.len() ==> r@[i] < r@[j],
            forall|t: int| self@.contains(t) <==> exists|i: int| 0 <= i < r.len() && r@[i] == t,
    {
        let mut r: Vec<usize> = Vec::new();
        let mut t: usize = 0;
        while t < self.n
            invariant
                self.wf(),
                t <= self.n,
                forall|i: int, j: int| 0 <= i < j < r.len() ==> r@[i] < r@[j],
                forall|i: int| 0 <= i < r.len() ==> r@[i] < t,
                forall|x: int|
                    (0 <= x < t && self@.contains(x)) <==> exists|i: int| 0 <= i < r.len() && r@[i] == x,
            decreases self.n - t,
        {
            if self.contains(t) {
                let ghost prev = r@;
                r.push(t);
                proof {
                    assert forall|x: int|
                        (0 <= x < t + 1 && self@.contains(x)) <==> exists|i: int| 0 <= i < r.len() && r@[i] == x by {
                        if x == t {
                            assert(r@[r.len() - 1] == x);
                        } else if exists|i: int| 0 <= i < r.len() && r@[i] == x {
                            let i = choose|i: int| 0 <= i < r.len() && r@[i] == x;
                            if i < prev.len() {
                                assert(prev[i] == x);
                            }
                        } else if 0 <= x < t && self@.contains(x) {
                            let i = choose|i: int| 0 <= i < prev.len() && prev[i] == x;
                            assert(r@[i] == x);
                        }
                    }
                }
            } else {
                assert forall|x: int|
                    (0 <= x < t + 1 && self@.contains(x)) <==> exists|i: int| 0 <= i < r.len() && r@[i] == x by {
                    if exists|i: int| 0 <= i < r.len() && r@[i] == x {
                        let i = choose|i: int| 0 <= i < r.len() && r@[i] == x;
                        assert(r@[i] < t);
                    }
                }
            }
            t = t + 1;
        }
        proof {
            assert forall|x: int| self@.contains(x) implies 0 <= x < self.n by {}
        }
        r
    }
}

impl PartialEq for TimeSet {
    fn eq(&self, other: &Self) -> (r: bool) {
        if self.n != other.n || self.blocks.len() != other.blocks.len() {
            return false;
        }
        let nb = self.blocks.len();
        let mut k: usize = 0;
        while k < nb
            invariant
                nb == self.blocks.len(),
                nb == other.blocks.len(),
                k <= nb,
                forall|i: int| 0 <= i < k ==> self.blocks@[i] == other.blocks@[i],
            decreases nb - k,
        {
            if self.blocks[k] != other.blocks[k] {
                return false;
            }
            k = k + 1;
        }
        assert(self.blocks@ =~= other.blocks@);
        true
    }
}

impl vstd::std_specs::cmp::PartialEqSpecImpl for TimeSet {
    open spec fn obeys_eq_spec() -> bool {
        true
    }

    open spec fn eq_spec(&self, other: &Self) -> bool {
        self.same_repr(other)
    }
}

impl Eq for TimeSet {}

/// A well-formed set only holds timestamps on its axis.
pub proof fn law_members_on_axis(a: &TimeSet)
    requires
        a.wf(),
    ensures
        a@.subset_of(axis(a.axis_len())),
        a@.finite(),
{
    assert(a@.subset_of(axis(a.axis_len())));
    vstd::set_lib::lemma_int_range(0, a.axis_len() as int);
    assert(axis(a.axis_len()) =~= vstd::set_lib::set_int_range(0, a.axis_len() as int));
    vstd::set_lib::lemma_len_subset(a@, axis(a.axis_len()));
}

/// `==` on well-formed sets is set equality over the same axis: the packed
/// representation is canonical.
pub proof fn law_eq_is_set_equality(a: &TimeSet, b: &TimeSet)
    requires
        a.wf(),
        b.wf(),
    ensures
        a.same_repr(b) <==> (a.axis_len() == b.axis_len() && a@ == b@),
{
    if a.axis_len() == b.axis_len() && a@ == b@ {
        let nb = a.blocks.len();
        assert forall|k: int| 0 <= k < nb implies a.blocks@[k] == b.blocks@[k] by {
            assert forall|i: u64| i < 64 implies word_bit(a.blocks@[k], i) == word_bit(b.blocks@[k], i) by {
                let t: int = 64 * k + i;
                assert(t / 64 == k);
                assert(t % 64 == i as int);
                assert(bit_at(a.blocks@, t) == word_bit(a.blocks@[k], i));
                assert(bit_at(b.blocks@, t) == word_bit(b.blocks@[k], i));
                if t < a.n {
                    assert(a@.contains(t) == b@.contains(t));
                }
            }
            lemma_word_ext(a.blocks@[k], b.blocks@[k]);
        }
        assert(a.blocks@ =~= b.blocks@);
    }
}

/// Complement is an involution: complementing twice gives back the set.
pub proof fn law_complement_involutive(a: &TimeSet)
    requires
        a.wf(),
    ensures
        axis(a.axis_len()).difference(axis(a.axis_len()).difference(a@)) == a@,
{
    assert(axis(a.axis_len()).difference(axis(a.axis_len()).difference(a@)) =~= a@);
}

/// De Morgan over a shared axis: the complement of a union is the
/// intersection of the complements, and dually.
pub proof fn law_de_morgan(a: &TimeSet, b: &TimeSet)
    requires
        a.wf(),
        b.wf(),
        a.axis_len() == b.axis_len(),
    ensures
        axis(a.axis_len()).difference(a@.union(b@)) == axis(a.axis_len()).difference(a@).intersect(
            axis(b.axis_len()).difference(b@),
        ),
        axis(a.axis_len()).difference(a@.intersect(b@)) == axis(a.axis_len()).difference(a@).union(
            axis(b.axis_len()).difference(b@),
        ),
{
    assert(axis(a.axis_len()).difference(a@.union(b@)) =~= axis(a.axis_len()).difference(a@).intersect(
        axis(b.axis_len()).difference(b@),
    ));
    assert(axis(a.axis_len()).difference(a@.intersect(b@)) =~= axis(a.axis_len()).difference(a@).union(
        axis(b.axis_len()).difference(b@),
    ));
}

/// `before(t)`, `singleton(t)` and `after(t)` partition the axis: together
/// they cover it, and no two of them share a timestamp.
pub proof fn law_before_at_after_partition(t: int, n: int)
    requires
        0 <= t,
        0 <= n,
    ensures
        before_set(t, n).union(singleton_set(t, n)).union(after_set(t, n)) == axis(n as nat),
        before_set(t, n).intersect(after_set(t, n)) == Set::<int>::empty(),
        before_set(t, n).intersect(singleton_set(t, n)) == Set::<int>::empty(),
        singleton_set(t, n).intersect(after_set(t, n)) == Set::<int>::empty(),
{
    assert(before_set(t, n).union(singleton_set(t, n)).union(after_set(t, n)) =~= axis(n as nat));
    assert(before_set(t, n).intersect(after_set(t, n)) =~= Set::<int>::empty());
    assert(before_set(t, n).intersect(singleton_set(t, n)) =~= Set::<int>::empty());
    assert(singleton_set(t, n).intersect(after_set(t, n)) =~= Set::<int>::empty());
}

/// Nothing lies before the first timestamp, and moving the bound one step
/// later adds exactly the timestamp it passes.
pub proof fn law_before_grows_one_step(t: int, n: int)
    requires
        0 <= t,
        0 <= n,
    ensures
        before_set(0, n) == Set::<int>::empty(),
        before_set(t + 1, n) == before_set(t, n).union(singleton_set(t, n)),
        !before_set(t, n).contains(t),
{
    assert(before_set(0, n) =~= Set::<int>::empty());
    assert(before_set(t + 1, n) =~= before_set(t, n).union(singleton_set(t, n)));
}

/// A singleton holds `t` and nothing else when `t` is on the axis, and
/// nothing when it is off the axis.
pub proof fn law_singleton_is_one_point(t: int, n: int)
    requires
        0 <= t,
        0 <= n,
    ensures
        singleton_set(t, n).subset_of(set![t]),
        singleton_set(t, n).finite(),
        t < n ==> singleton_set(t, n).contains(t) && singleton_set(t, n).len() == 1,
        t >= n ==> singleton_set(t, n).len() == 0,
{
    if t >= n {
        assert(singleton_set(t, n) =~= Set::<int>::empty());
    }
}

/// `between(a, b)` is the axis with what lies before `a` and what lies after
/// `b` removed; a window whose two ends meet is a single timestamp.
pub proof fn law_between_is_the_window(a: int, b: int, n: int)
    requires
        0 <= a,
        0 <= b,
        0 <= n,
    ensures
        between_set(a, b, n) == axis(n as nat).difference(before_set(a, n)).difference(after_set(b, n)),
        between_set(a, a, n) == singleton_set(a, n),
        forall|i: int| a <= i <= b && 0 <= i < n ==> #[trigger] between_set(a, b, n).contains(i),
{
    assert(between_set(a, b, n) =~= axis(n as nat).difference(before_set(a, n)).difference(after_set(b, n)));
    assert(between_set(a, a, n) =~= singleton_set(a, n));
}

/// The axis holds exactly `n` timestamps, and a set and its complement
/// split them: the complement has `n - len` members.
pub proof fn law_complement_len(a: &TimeSet)
    requires
        a.wf(),
    ensures
        axis(a.axis_len()).finite(),
        axis(a.axis_len()).len() == a.axis_len(),
        axis(a.axis_len()).difference(a@).len() == a.axis_len() - a@.len(),
{
    law_members_on_axis(a);
    let ax = axis(a.axis_len());
    vstd::set_lib::lemma_int_range(0, a.axis_len() as int);
    assert(ax =~= vstd::set_lib::set_int_range(0, a.axis_len() as int));
    vstd::set_lib::lemma_set_difference_len(ax, a@);
    assert(ax.intersect(a@) =~= a@);
}

/// The complement of the empty set is the whole axis, and the whole axis
/// complements to nothing.
pub proof fn law_complement_of_extremes(n: nat)
    ensures
        axis(n).difference(Set::<int>::empty()) == axis(n),
        axis(n).difference(axis(n)) == Set::<int>::empty(),
{
    assert(axis(n).difference(Set::<int>::empty()) =~= axis(n));
    assert(axis(n).difference(axis(n)) =~= Set::<int>::empty());
}


/// What a relation id resolves to, given `n_base` base relations and the
/// registered `(base, window)` entries: a base id resolves to itself with no
/// window, a registered id to its entry, anything else to nothing.
pub open spec fn resolve_id<W>(n_base: nat, entries: Seq<(usize, W)>, relation: int) -> Option<(usize, Option<W>)> {
    if 0 <= relation < n_base {
        Some((relation as usize, None))
    } else if n_base <= relation < n_base + entries.len() {
        Some((entries[relation - n_base].0, Some(entries[relation - n_base].1)))
    } else {
        None
    }
}

/// A registry of virtual relations: time-scoped views `(base relation,
/// window)` registered at fresh ids past the base relations `0..n_base`.
///
/// A hop through a virtual id is a hop through its base relation filtered by
/// its window; base ids carry no window.
#[derive(Debug, Clone)]
pub struct VirtualRelations<W> {
    n_base: usize,
    windows: Vec<(usize, W)>,
}

impl<W> VirtualRelations<W> {
    /// Number of base relations.
    pub closed spec fn base_count(&self) -> nat {
        self.n_base as nat
    }

    /// The registered `(base, window)` entries, in registration order.
    pub closed spec fn entries(&self) -> Seq<(usize, W)> {
        self.windows@
    }

    /// A registry over `n_base` base relations with nothing registered.
    pub fn new(n_base: usize) -> (r: Self)
        ensures
            r.base_count() == n_base,
            r.entries() == Seq::<(usize, W)>::empty(),
    {
        VirtualRelations { n_base, windows: Vec::new() }
    }

    /// Number of base relations.
    pub fn num_base(&self) -> (r: usize)
        ensures
            r == self.base_count(),
    {
        self.n_base
    }

    /// Number of registered views.
    pub fn num_registered(&self) -> (r: usize)
        ensures
            r == self.entries().len(),
    {
        self.windows.len()
    }

    /// Register a view of `base` under `window` and return its fresh id
    /// `n_base + (number registered before)`. `None`, with nothing
    /// registered, if `base` is not a base relation.
    pub fn register(&mut self, base: usize, window: W) -> (r: Option<usize>)
        requires
            old(self).base_count() + old(self).entries().len() < usize::MAX,
        ensures
            final(self).base_count() == old(self).base_count(),
            base < old(self).base_count() ==> {
                &&& r == Some((old(self).base_count() + old(self).entries().len()) as usize)
                &&& final(self).entries() == old(self).entries().push((base, window))
            },
            base >= old(self).base_count() ==> {
                &&& r == None::<usize>
                &&& final(self).entries() == old(self).entries()
            },
    {
        if base >= self.n_base {
            return None;
        }
        self.windows.push((base, window));
        Some(self.n_base + self.windows.len() - 1)
    }

    /// Resolve a (possibly virtual) relation id to its base relation and
    /// window (`None` for a base id, which is unconstrained).
    pub fn resolve(&self, relation: usize) -> (r: Option<(usize, Option<&W>)>)
        ensures
            r matches Some((b, w)) ==> resolve_id(self.base_count(), self.entries(), relation as int) == Some((b, match w { Some(x) => Some(*x), None => None::<W> })),
            r is None <==> resolve_id(self.base_count(), self.entries(), relation as int) is None,
    {
        if relation < self.n_base {
            Some((relation, None))
        } else {
            let i = relation - self.n_base;
            if i < self.windows.len() {
                let entry = &self.windows[i];
                Some((entry.0, Some(&entry.1)))
            } else {
                None
            }
        }
    }
}

impl VirtualRelations<TimeSet> {
    /// Register `base` over a timestamp set, which must share the model's
    /// timestamp axis `axis_len`. `None`, with nothing registered, if `base`
    /// is not a base relation or the axes differ.
    pub fn register_on_axis(&mut self, base: usize, times: TimeSet, axis_len: usize) -> (r: Option<usize>)
        requires
            old(self).base_count() + old(self).entries().len() < usize::MAX,
        ensures
            final(self).base_count() == old(self).base_count(),
            base < old(self).base_count() && times.axis_len() == axis_len ==> {
                &&& r == Some((old(self).base_count() + old(self).entries().len()) as usize)
                &&& final(self).entries() == old(self).entries().push((base, times))
            },
            !(base < old(self).base_count() && times.axis_len() == axis_len) ==> {
                &&& r == None::<usize>
                &&& final(self).entries() == old(self).entries()
            },
    {
        if times.num_timestamps() != axis_len {
            return None;
        }
        self.register(base, times)
    }
}

/// A registered id resolves to exactly the `(base, window)` registered under
/// it: what `register` writes, `resolve` reads back.
pub proof fn law_resolve_reads_back_register<W>(n_base: nat, entries: Seq<(usize, W)>, base: usize, window: W)
    requires
        base < n_base,
    ensures
        resolve_id(n_base, entries.push((base, window)), (n_base + entries.len()) as int) == Some((base, Some(window))),
{
}

/// Registering a view leaves every previously resolvable id unchanged, and
/// the new id was unresolvable before.
pub proof fn law_register_is_fresh<W>(n_base: nat, entries: Seq<(usize, W)>, base: usize, window: W, relation: int)
    requires
        relation != n_base + entries.len(),
    ensures
        resolve_id(n_base, entries.push((base, window)), relation) == resolve_id(n_base, entries, relation),
        resolve_id(n_base, entries, (n_base + entries.len()) as int) is None,
{
}

/// Base relations resolve to themselves with no window.
pub proof fn law_base_ids_are_unscoped<W>(n_base: nat, entries: Seq<(usize, W)>, relation: int)
    requires
        0 <= relation < n_base,
    ensures
        resolve_id(n_base, entries, relation) == Some((relation as usize, None::<W>)),
{
}

} // verus!
