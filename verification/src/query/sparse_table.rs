//! A sparse table: precomputed folds of every power-of-two-length window,
//! answering range-aggregate queries over immutable data with a greedy
//! decomposition of the range into shrinking windows.
use vstd::prelude::*;

use crate::FixedDataSource;
use crate::math::integer_log2;
use crate::operator::AssociativeOperator;
use crate::operator::fold_combine;
use crate::operator::lemma_fold_concat;

verus! {

use vstd::arithmetic::power2::pow2;
use vstd::arithmetic::power2::lemma_pow2_unfold;
use vstd::arithmetic::power2::lemma_pow2_strictly_increases;
use vstd::arithmetic::power2::lemma_pow2_pos;
use vstd::arithmetic::power2::lemma2_to64;

/// Precomputed folds over immutable data: level `l` of the table holds, at
/// position `i`, the fold of the window of length two-to-the-`l` starting
/// at `i`.  Level zero is the data itself.
pub struct SparseTable<T, O> {
    table: Vec<Vec<T>>,
    operator: O,
}

impl<T: Copy, O: AssociativeOperator<T>> View for SparseTable<T, O> {
    type V = Seq<T>;

    closed spec fn view(&self) -> Seq<T> {
        self.table@[0]@
    }
}

impl<T: Copy, O: AssociativeOperator<T>> SparseTable<T, O> {
    /// Every level holds the fold of every window of its length, and there
    /// are exactly enough levels for the longest window not to exceed the
    /// data.
    pub closed spec fn wf(self) -> bool {
        &&& self.table@.len() >= 1
        &&& self@.len() >= 1
        &&& self@.len() <= usize::MAX / 2
        &&& pow2((self.table@.len() - 1) as nat) <= self@.len()
        &&& self@.len() < pow2(self.table@.len() as nat)
        &&& forall|l: int|
            0 <= l < self.table@.len() ==> #[trigger] self.table@[l]@.len() == self@.len() - pow2(
                l as nat,
            ) + 1
        &&& forall|l: int, i: int|
            0 <= l < self.table@.len() && 0 <= i < self.table@[l]@.len()
                ==> #[trigger] self.table@[l]@[i] == fold_combine::<T, O>(
                self@.subrange(i, i + pow2(l as nat)),
            )
    }

    /// Precomputes the table over the values of `data`, aggregated by
    /// `operator`.  The represented sequence is exactly the input sequence,
    /// in its original order.
    pub fn compute<V: FixedDataSource<T>>(data: V, operator: O) -> (r: Self)
        requires
            1 <= data.remaining().len(),
            data.remaining().len() <= usize::MAX / 2,
        ensures
            r.wf(),
            r@ == data.remaining(),
    {
        let ghost input = data.remaining();
        let mut source = data;
        let total = source.len();
        let mut reversed: Vec<T> = Vec::new();
        while reversed.len() < total
            invariant
                reversed@.len() <= total,
                source.remaining().len() == total - reversed@.len(),
                source.remaining() == input.take(total - reversed@.len()),
                total == input.len(),
                forall|j: int| 0 <= j < reversed@.len() ==> reversed@[j] == input[total - 1 - j],
            decreases total - reversed@.len(),
        {
            proof {
                assert(source.remaining().last() == input[total - reversed@.len() - 1]);
            }
            let value = source.next_back().unwrap();
            reversed.push(value);
            proof {
                assert(source.remaining() =~= input.take(total - reversed@.len()));
            }
        }
        let mut cells: Vec<T> = Vec::new();
        let mut i: usize = total;
        while i > 0
            invariant
                i <= total,
                cells@.len() == total - i,
                total == input.len(),
                reversed@.len() == total,
                forall|j: int| 0 <= j < reversed@.len() ==> reversed@[j] == input[total - 1 - j],
                forall|j: int| 0 <= j < cells@.len() ==> cells@[j] == input[j],
            decreases i,
        {
            i = i - 1;
            cells.push(reversed[i]);
        }
        proof {
            assert(cells@ =~= input);
            lemma2_to64();
        }
        let length = total;
        let levels = integer_log2(length as u64);
        let mut table: Vec<Vec<T>> = Vec::new();
        table.push(cells);
        let mut half: usize = 1;
        let mut level: usize = 1;
        while level <= levels as usize
            invariant
                1 <= level,
                level <= levels as usize + 1,
                levels <= 63,
                table@.len() == level,
                length == input.len(),
                1 <= length <= usize::MAX / 2,
                half == pow2((level - 1) as nat),
                pow2(levels as nat) <= length < pow2((levels + 1) as nat),
                table@[0]@ == input,
                forall|l: int|
                    0 <= l < table@.len() ==> #[trigger] table@[l]@.len() == length - pow2(l as nat)
                        + 1,
                forall|l: int, i2: int|
                    0 <= l < table@.len() && 0 <= i2 < table@[l]@.len()
                        ==> #[trigger] table@[l]@[i2] == fold_combine::<T, O>(
                        input.subrange(i2, i2 + pow2(l as nat)),
                    ),
            decreases levels as usize + 1 - level,
        {
            proof {
                lemma_pow2_unfold(level as nat);
                lemma_pow2_pos((level - 1) as nat);
                if level < levels as usize {
                    lemma_pow2_strictly_increases(level as nat, levels as nat);
                }
            }
            let width = half + half;
            let limit = length - width + 1;
            let mut row: Vec<T> = Vec::new();
            let mut position: usize = 0;
            while position < limit
                invariant
                    position <= limit,
                    row@.len() == position,
                    limit == length - width + 1,
                    width == half + half,
                    half == pow2((level - 1) as nat),
                    width == pow2(level as nat),
                    width <= length,
                    length == input.len(),
                    1 <= level,
                    table@.len() == level,
                    table@[0]@ == input,
                    forall|l: int|
                        0 <= l < table@.len() ==> #[trigger] table@[l]@.len() == length - pow2(
                            l as nat,
                        ) + 1,
                    forall|l: int, i2: int|
                        0 <= l < table@.len() && 0 <= i2 < table@[l]@.len()
                            ==> #[trigger] table@[l]@[i2] == fold_combine::<T, O>(
                            input.subrange(i2, i2 + pow2(l as nat)),
                        ),
                    forall|k: int|
                        0 <= k < row@.len() ==> #[trigger] row@[k] == fold_combine::<T, O>(
                            input.subrange(k, k + pow2(level as nat)),
                        ),
                decreases limit - position,
            {
                let a = table[level - 1][position];
                let b = table[level - 1][position + half];
                let value = operator.combine(&a, &b);
                proof {
                    let p = position as int;
                    let h = pow2((level - 1) as nat) as int;
                    lemma_pow2_pos((level - 1) as nat);
                    lemma_fold_concat::<T, O>(
                        input.subrange(p, p + h),
                        input.subrange(p + h, p + 2 * h),
                    );
                    assert(input.subrange(p, p + h) + input.subrange(p + h, p + 2 * h)
                        =~= input.subrange(p, p + 2 * h));
                }
                row.push(value);
                position = position + 1;
            }
            table.push(row);
            half = width;
            level = level + 1;
        }
        SparseTable { table, operator }
    }

    /// The fold of the operator over the represented values at indexes
    /// `[left, right]`, assembled greedily from precomputed windows of
    /// shrinking power-of-two lengths.
    pub fn query(&self, left: usize, right: usize) -> (r: T)
        requires
            self.wf(),
            left <= right,
            right < self@.len(),
        ensures
            r == fold_combine::<T, O>(self@.subrange(left as int, right + 1)),
    {
        let range_length = right - left + 1;
        let level_top = integer_log2(range_length as u64);
        let mut interval: usize = 1;
        let mut k: u32 = 0;
        while k < level_top
            invariant
                k <= level_top,
                interval == pow2(k as nat),
                pow2(level_top as nat) <= range_length,
                range_length <= self@.len(),
            decreases level_top - k,
        {
            proof {
                lemma_pow2_unfold((k + 1) as nat);
                if k + 1 < level_top {
                    lemma_pow2_strictly_increases((k + 1) as nat, level_top as nat);
                }
            }
            interval = interval * 2;
            k = k + 1;
        }
        let mut lev: usize = level_top as usize;
        proof {
            lemma_pow2_pos(lev as nat);
            lemma_pow2_unfold((level_top + 1) as nat);
            if lev >= self.table@.len() {
                if lev > self.table@.len() {
                    lemma_pow2_strictly_increases(self.table@.len() as nat, lev as nat);
                }
                assert(false);
            }
        }
        let mut value: T = self.table[lev][left];
        let mut current: usize = left + interval;
        proof {
            assert(self@.subrange(left as int, left + pow2(lev as nat)) =~= self@.subrange(
                left as int,
                current as int,
            ));
        }
        while lev > 0
            invariant
                self.wf(),
                lev < self.table@.len(),
                interval == pow2(lev as nat),
                interval <= self@.len(),
                left <= right,
                right < self@.len(),
                left < current <= right + 1,
                value == fold_combine::<T, O>(self@.subrange(left as int, current as int)),
                right + 1 - current < pow2(lev as nat),
            decreases lev,
        {
            proof {
                lemma_pow2_unfold(lev as nat);
            }
            lev = lev - 1;
            interval = interval / 2;
            if current + interval - 1 <= right {
                let piece = self.table[lev][current];
                let combined = self.operator.combine(&value, &piece);
                proof {
                    lemma_fold_concat::<T, O>(
                        self@.subrange(left as int, current as int),
                        self@.subrange(current as int, current + pow2(lev as nat)),
                    );
                    assert(self@.subrange(left as int, current as int) + self@.subrange(
                        current as int,
                        current + pow2(lev as nat),
                    ) =~= self@.subrange(left as int, current + pow2(lev as nat)));
                }
                value = combined;
                current = current + interval;
            }
        }
        proof {
            lemma2_to64();
            assert(current == right + 1);
        }
        value
    }
}

} // verus!
