//! Cumulative aggregates, strided row selection and seeded sampling.

use vstd::prelude::*;

use crate::error::EngineError;
use crate::series::Series;
use crate::series_stats::{spec_fold_max, spec_fold_min, spec_fold_sum};
use crate::value::{Dtype, TypedValue, Val};

verus! {

/// The cumulative-sum cell at position `i`: null where the cell is null,
/// else the sum of the non-null cells up to and including it.
pub open spec fn spec_cum_sum_cell(s: Seq<Val>, i: int) -> Val {
    if s[i] is Null {
        Val::Null
    } else {
        Val::Int64(spec_fold_sum(s.take(i + 1)))
    }
}

/// The cumulative-least cell at position `i`.
pub open spec fn spec_cum_min_cell(s: Seq<Val>, i: int) -> Val {
    if s[i] is Null {
        Val::Null
    } else {
        match spec_fold_min(s.take(i + 1)) {
            Some(m) => Val::Int64(m),
            None => Val::Null,
        }
    }
}

/// The cumulative-greatest cell at position `i`.
pub open spec fn spec_cum_max_cell(s: Seq<Val>, i: int) -> Val {
    if s[i] is Null {
        Val::Null
    } else {
        match spec_fold_max(s.take(i + 1)) {
            Some(m) => Val::Int64(m),
            None => Val::Null,
        }
    }
}

impl Series {
    /// The running sum of an Int64 series, null cells left null and skipped.
    /// Fails with `InvalidArgument` on another dtype and with
    /// `ComputationFailure` when a running total leaves the `i64` range.
    pub fn cum_sum(&self) -> (r: Result<Series, EngineError>)
        requires
            self.wf(),
        ensures
            r is Ok <==> (self@.dtype == Dtype::Int64 && forall|k: int|
                0 <= k <= self@.values.len() ==> i64::MIN <= spec_fold_sum(
                    #[trigger] self@.values.take(k),
                ) <= i64::MAX),
            r matches Err(e) ==> {
                &&& self@.dtype != Dtype::Int64 ==> e is InvalidArgument
                &&& self@.dtype == Dtype::Int64 ==> e is ComputationFailure
            },
            r matches Ok(s) ==> {
                &&& s.wf()
                &&& s@.name == self@.name
                &&& s@.dtype == Dtype::Int64
                &&& s@.values =~= Seq::new(
                    self@.values.len(),
                    |i: int| spec_cum_sum_cell(self@.values, i),
                )
            },
    {
        if self.dtype != Dtype::Int64 {
            return Err(
                EngineError::InvalidArgument(
                    String::from_str("a running sum needs an Int64 series"),
                ),
            );
        }
        let mut cells: Vec<TypedValue> = Vec::new();
        let mut acc: i64 = 0;
        let mut i: usize = 0;
        while i < self.values.len()
            invariant
                self.wf(),
                self@.dtype == Dtype::Int64,
                i <= self@.values.len(),
                cells@.len() == i,
                acc as int == spec_fold_sum(self@.values.take(i as int)),
                forall|k: int|
                    0 <= k <= i ==> i64::MIN <= spec_fold_sum(#[trigger] self@.values.take(k))
                        <= i64::MAX,
                forall|j: int|
                    0 <= j < i ==> #[trigger] cells@[j]@ == spec_cum_sum_cell(self@.values, j),
            decreases self@.values.len() - i,
        {
            proof {
                assert(self@.values.take(i + 1).drop_last() =~= self@.values.take(i as int));
                assert(self@.values.take(i + 1).last() == self@.values[i as int]);
                assert(self@.values[i as int] == self.values@[i as int]@);
                assert(crate::value::val_matches(self@.values[i as int], self@.dtype));
            }
            if self.values[i].is_null() {
                cells.push(TypedValue::Null);
            } else {
                let x: i64 = match &self.values[i] {
                    TypedValue::Int64(v) => *v,
                    _ => {
                        proof {
                            assert(false);
                        }
                        0
                    },
                };
                match acc.checked_add(x) {
                    Some(v) => {
                        acc = v;
                        cells.push(TypedValue::Int64(v));
                    },
                    None => {
                        proof {
                            crate::series_stats::lemma_fold_sum_stuck(
                                self@.values,
                                i as int,
                            );
                        }
                        return Err(
                            EngineError::ComputationFailure(
                                String::from_str("running sum overflowed"),
                            ),
                        );
                    },
                }
            }
            i = i + 1;
        }
        proof {
            assert(self@.values.take(self@.values.len() as int) =~= self@.values);
        }
        Ok(Series { name: self.name.clone(), dtype: Dtype::Int64, values: cells })
    }

    /// The running least of an Int64 series, null cells left null and
    /// skipped.  Fails with `InvalidArgument` on another dtype.
    pub fn cum_min(&self) -> (r: Result<Series, EngineError>)
        requires
            self.wf(),
        ensures
            r is Ok <==> self@.dtype == Dtype::Int64,
            r matches Err(e) ==> e is InvalidArgument,
            r matches Ok(s) ==> {
                &&& s.wf()
                &&& s@.name == self@.name
                &&& s@.dtype == Dtype::Int64
                &&& s@.values =~= Seq::new(
                    self@.values.len(),
                    |i: int| spec_cum_min_cell(self@.values, i),
                )
            },
    {
        self.cum_extreme(true)
    }

    /// The running greatest of an Int64 series, null cells left null and
    /// skipped.  Fails with `InvalidArgument` on another dtype.
    pub fn cum_max(&self) -> (r: Result<Series, EngineError>)
        requires
            self.wf(),
        ensures
            r is Ok <==> self@.dtype == Dtype::Int64,
            r matches Err(e) ==> e is InvalidArgument,
            r matches Ok(s) ==> {
                &&& s.wf()
                &&& s@.name == self@.name
                &&& s@.dtype == Dtype::Int64
                &&& s@.values =~= Seq::new(
                    self@.values.len(),
                    |i: int| spec_cum_max_cell(self@.values, i),
                )
            },
    {
        self.cum_extreme(false)
    }

    /// Shared body of `cum_min` and `cum_max`.
    fn cum_extreme(&self, want_min: bool) -> (r: Result<Series, EngineError>)
        requires
            self.wf(),
        ensures
            r is Ok <==> self@.dtype == Dtype::Int64,
            r matches Err(e) ==> e is InvalidArgument,
            r matches Ok(s) ==> {
                &&& s.wf()
                &&& s@.name == self@.name
                &&& s@.dtype == Dtype::Int64
                &&& s@.values =~= Seq::new(
                    self@.values.len(),
                    |i: int|
                        if want_min {
                            spec_cum_min_cell(self@.values, i)
                        } else {
                            spec_cum_max_cell(self@.values, i)
                        },
                )
            },
    {
        if self.dtype != Dtype::Int64 {
            return Err(
                EngineError::InvalidArgument(
                    String::from_str("a running extreme needs an Int64 series"),
                ),
            );
        }
        let mut cells: Vec<TypedValue> = Vec::new();
        let mut best: Option<i64> = None;
        let mut i: usize = 0;
        while i < self.values.len()
            invariant
                self.wf(),
                self@.dtype == Dtype::Int64,
                i <= self@.values.len(),
                cells@.len() == i,
                best is Some <==> spec_fold_min(self@.values.take(i as int)) is Some,
                want_min ==> (best matches Some(b) ==> Some(b as int) == spec_fold_min(
                    self@.values.take(i as int),
                )),
                !want_min ==> (best matches Some(b) ==> Some(b as int) == spec_fold_max(
                    self@.values.take(i as int),
                )),
                !want_min ==> (best is Some <==> spec_fold_max(
                    self@.values.take(i as int),
                ) is Some),
                forall|j: int|
                    0 <= j < i ==> #[trigger] cells@[j]@ == (if want_min {
                        spec_cum_min_cell(self@.values, j)
                    } else {
                        spec_cum_max_cell(self@.values, j)
                    }),
            decreases self@.values.len() - i,
        {
            proof {
                assert(self@.values.take(i + 1).drop_last() =~= self@.values.take(i as int));
                assert(self@.values.take(i + 1).last() == self@.values[i as int]);
                assert(self@.values[i as int] == self.values@[i as int]@);
                assert(crate::value::val_matches(self@.values[i as int], self@.dtype));
            }
            if self.values[i].is_null() {
                cells.push(TypedValue::Null);
            } else {
                let x: i64 = match &self.values[i] {
                    TypedValue::Int64(v) => *v,
                    _ => {
                        proof {
                            assert(false);
                        }
                        0
                    },
                };
                let next = match best {
                    None => x,
                    Some(b) => {
                        if want_min == (x < b) || x == b {
                            x
                        } else {
                            b
                        }
                    },
                };
                best = Some(next);
                cells.push(TypedValue::Int64(next));
            }
            i = i + 1;
        }
        Ok(Series { name: self.name.clone(), dtype: Dtype::Int64, values: cells })
    }

    /// Every `n`-th cell, starting at the first.  Fails with
    /// `InvalidArgument` exactly when `n` is zero.  The result holds exactly
    /// the cells at indices `0, n, 2n, ...` below the length.
    pub fn take_every(&self, n: usize) -> (r: Result<Series, EngineError>)
        requires
            self.wf(),
        ensures
            r is Ok <==> n != 0,
            r matches Err(e) ==> e is InvalidArgument,
            r matches Ok(s) ==> {
                &&& s.wf()
                &&& s@.name == self@.name
                &&& s@.dtype == self@.dtype
                &&& s@.values.len() * n >= self@.values.len()
                &&& s@.values.len() >= 1 ==> (s@.values.len() - 1) * n < self@.values.len()
                &&& forall|k: int|
                    0 <= k < s@.values.len() ==> (#[trigger] s@.values[k]) == self@.values[k
                    * n]
            },
    {
        if n == 0 {
            return Err(
                EngineError::InvalidArgument(String::from_str("the stride must be positive")),
            );
        }
        let mut cells: Vec<TypedValue> = Vec::new();
        let mut idx: usize = 0;
        while idx < self.values.len()
            invariant
                self.wf(),
                n >= 1,
                cells@.len() * n == idx,
                cells@.len() >= 1 ==> (cells@.len() - 1) * n < self@.values.len(),
                forall|k: int|
                    0 <= k < cells@.len() ==> (#[trigger] cells@[k]@) == self@.values[k * n],
                forall|k: int|
                    0 <= k < cells@.len() ==> crate::value::val_matches(
                        #[trigger] cells@[k]@,
                        self@.dtype,
                    ),
            decreases self@.values.len() - cells@.len(),
        {
            let ghost l0 = cells@.len();
            proof {
                assert(l0 * n < self@.values.len());
                assert(l0 <= l0 * n) by (nonlinear_arith)
                    requires
                        n >= 1,
                        l0 >= 0,
                ;
                assert(self@.values[idx as int] == self.values@[idx as int]@);
            }
            cells.push(self.values[idx].dup());
            proof {
                assert((l0 + 1) * n == l0 * n + n) by (nonlinear_arith);
                assert(((l0 + 1) - 1) * n == l0 * n) by (nonlinear_arith);
            }
            match idx.checked_add(n) {
                Some(v) => {
                    idx = v;
                },
                None => {
                    proof {
                        assert(cells@.len() * n > usize::MAX);
                        assert(cells@.len() * n >= self@.values.len());
                    }
                    let s = Series { name: self.name.clone(), dtype: self.dtype, values: cells };
                    proof {
                        assert forall|j: int| 0 <= j < s@.values.len() implies crate::value::val_matches(
                            #[trigger] s@.values[j],
                            s@.dtype,
                        ) by {
                            assert(crate::value::val_matches(cells@[j]@, self@.dtype));
                        }
                    }
                    return Ok(s);
                },
            }
        }
        proof {
            assert(cells@.len() * n >= self@.values.len());
        }
        let s = Series { name: self.name.clone(), dtype: self.dtype, values: cells };
        proof {
            assert forall|j: int| 0 <= j < s@.values.len() implies crate::value::val_matches(
                #[trigger] s@.values[j],
                s@.dtype,
            ) by {
                assert(crate::value::val_matches(cells@[j]@, self@.dtype));
            }
        }
        Ok(s)
    }
}

/// Draws `count` indices below `range`, deterministically from `seed`.
/// Fails with `InvalidArgument` when `range` is zero but indices are asked
/// for, or when more distinct indices are asked for than exist.  Without
/// replacement the result holds no index twice.
pub fn seedable_random_indices(
    range: usize,
    count: usize,
    replacement: bool,
    seed: u64,
) -> (r: Result<Vec<usize>, EngineError>)
    ensures
        r is Ok <==> (count == 0 || (range > 0 && (replacement || count <= range))),
        r matches Err(e) ==> e is InvalidArgument,
        r matches Ok(v) ==> {
            &&& v@.len() == count
            &&& forall|i: int| 0 <= i < v@.len() ==> #[trigger] v@[i] < range
            &&& !replacement ==> v@.no_duplicates()
        },
{
    if count == 0 {
        let empty: Vec<usize> = Vec::new();
        assert(empty@.no_duplicates());
        return Ok(empty);
    }
    if range == 0 {
        return Err(
            EngineError::InvalidArgument(String::from_str("cannot sample an empty range")),
        );
    }
    let mut state: u64 = seed;
    if replacement {
        let mut out: Vec<usize> = Vec::new();
        let mut i: usize = 0;
        while i < count
            invariant
                range > 0,
                i <= count,
                out@.len() == i,
                forall|j: int| 0 <= j < i ==> #[trigger] out@[j] < range,
            decreases count - i,
        {
            state = lcg_step(state);
            let draw = (state >> 33) % (range as u64);
            proof {
                assert(draw < range as u64) by {
                    assert(range as u64 > 0);
                };
            }
            out.push(draw as usize);
            i = i + 1;
        }
        Ok(out)
    } else {
        if count > range {
            return Err(
                EngineError::InvalidArgument(
                    String::from_str("cannot sample more distinct indices than exist"),
                ),
            );
        }
        // A partial shuffle of 0 .. range, kept a permutation throughout.
        let mut pool: Vec<usize> = Vec::new();
        let mut p: usize = 0;
        while p < range
            invariant
                p <= range,
                pool@.len() == p,
                forall|j: int| 0 <= j < p ==> #[trigger] pool@[j] == j,
            decreases range - p,
        {
            pool.push(p);
            p = p + 1;
        }
        proof {
            assert(pool@.no_duplicates());
            assert(forall|j: int| 0 <= j < pool@.len() ==> #[trigger] pool@[j] < range);
        }
        let mut i: usize = 0;
        while i < count
            invariant
                count <= range,
                pool@.len() == range,
                i <= count,
                pool@.no_duplicates(),
                forall|j: int| 0 <= j < pool@.len() ==> #[trigger] pool@[j] < range,
            decreases count - i,
        {
            state = lcg_step(state);
            let remaining = (range - i) as u64;
            let off = ((state >> 33) % remaining) as usize;
            let j = i + off;
            proof {
                assert((state >> 33) % remaining < remaining) by {
                    assert(remaining > 0);
                };
                assert(j < range);
            }
            let a = pool[i];
            let b = pool[j];
            let ghost before = pool@;
            pool.set(i, b);
            pool.set(j, a);
            proof {
                assert(pool@.len() == before.len());
                assert forall|x: int, y: int|
                    0 <= x < pool@.len() && 0 <= y < pool@.len() && x != y implies pool@[x]
                    != pool@[y] by {
                    assert(pool@[x] == (if x == i {
                        before[j as int]
                    } else if x == j {
                        before[i as int]
                    } else {
                        before[x]
                    }));
                    assert(pool@[y] == (if y == i {
                        before[j as int]
                    } else if y == j {
                        before[i as int]
                    } else {
                        before[y]
                    }));
                }
            }
            i = i + 1;
        }
        let mut out: Vec<usize> = Vec::new();
        let mut k: usize = 0;
        while k < count
            invariant
                count <= pool@.len(),
                pool@.no_duplicates(),
                forall|j: int| 0 <= j < pool@.len() ==> #[trigger] pool@[j] < range,
                k <= count,
                out@.len() == k,
                forall|j: int| 0 <= j < k ==> #[trigger] out@[j] == pool@[j],
            decreases count - k,
        {
            out.push(pool[k]);
            k = k + 1;
        }
        proof {
            assert(out@ =~= pool@.take(count as int));
            assert forall|x: int, y: int|
                0 <= x < out@.len() && 0 <= y < out@.len() && x != y implies out@[x]
                != out@[y] by {
                assert(out@[x] == pool@[x]);
                assert(out@[y] == pool@[y]);
            }
            assert(forall|j: int| 0 <= j < out@.len() ==> #[trigger] out@[j] < range);
        }
        Ok(out)
    }
}

/// Advances the linear congruential generator: a pure function of the
/// state, so sampling with an explicit seed is reproducible.
fn lcg_step(state: u64) -> u64 {
    state.wrapping_mul(6364136223846793005).wrapping_add(1442695040888963407)
}

} // verus!
