//! Elementwise integer power, peak detection and value counts.

use vstd::prelude::*;

use crate::error::EngineError;
use crate::frame::DataFrame;
use crate::series::{series_wf, Series};
use crate::series_arith::val_int;
use crate::series_stats::spec_distinct;
use crate::value::{val_matches, values_equal, Dtype, TypedValue, Val};

verus! {

/// The mathematical power `x^e`.
pub open spec fn spec_pow(x: int, e: nat) -> int
    decreases e,
{
    if e == 0 {
        1
    } else {
        spec_pow(x, (e - 1) as nat) * x
    }
}

/// Whether every partial power of a cell fits an `i64` (vacuous for null).
pub open spec fn pow_cell_ok(v: Val, e: nat) -> bool {
    v is Null || forall|k: nat|
        k <= e ==> i64::MIN <= #[trigger] spec_pow(val_int(v), k) <= i64::MAX
}

/// The result cell of the power operator.
pub open spec fn spec_pow_cell(v: Val, e: nat) -> Val {
    if v is Null {
        Val::Null
    } else {
        Val::Int64(spec_pow(val_int(v), e))
    }
}

/// Whether position `i` is a strict local peak (greatest when `want_max`,
/// least otherwise): a non-null cell strictly beyond each existing non-null
/// neighbour.
pub open spec fn spec_peak_cell(s: Seq<Val>, i: int, want_max: bool) -> Val {
    Val::Boolean(
        {
            &&& !(s[i] is Null)
            &&& (i == 0 || s[i - 1] is Null || (if want_max {
                val_int(s[i]) > val_int(s[i - 1])
            } else {
                val_int(s[i]) < val_int(s[i - 1])
            }))
            &&& (i == s.len() - 1 || s[i + 1] is Null || (if want_max {
                val_int(s[i]) > val_int(s[i + 1])
            } else {
                val_int(s[i]) < val_int(s[i + 1])
            }))
        },
    )
}

/// The number of cells equal to `v`.
pub open spec fn spec_count_eq(s: Seq<Val>, v: Val) -> int
    decreases s.len(),
{
    if s.len() == 0 {
        0
    } else {
        spec_count_eq(s.drop_last(), v) + (if s.last() == v {
            1int
        } else {
            0int
        })
    }
}

/// A rolling aggregate.
#[derive(Clone, Copy, PartialEq, Eq, Structural, Debug)]
pub enum RollOp {
    Sum,
    Min,
    Max,
}

/// The window ending at position `i` (meaningful for `i + 1 >= w`).
pub open spec fn spec_window(s: Seq<Val>, i: int, w: int) -> Seq<Val> {
    s.subrange(i + 1 - w, i + 1)
}

/// Whether a window holds no null.
pub open spec fn window_non_null(s: Seq<Val>, i: int, w: int) -> bool {
    forall|k: int| 0 <= k < w ==> !((#[trigger] spec_window(s, i, w)[k]) is Null)
}

/// The rolling cell at position `i`: null while fewer than `w` cells have
/// been seen (the null-padded prefix) and where the window holds a null,
/// else the aggregate of the window.
pub open spec fn spec_rolling_cell(s: Seq<Val>, i: int, w: int, op: RollOp) -> Val {
    if i + 1 < w || !window_non_null(s, i, w) {
        Val::Null
    } else {
        match op {
            RollOp::Sum => Val::Int64(crate::series_stats::spec_fold_sum(spec_window(s, i, w))),
            RollOp::Min => match crate::series_stats::spec_fold_min(spec_window(s, i, w)) {
                Some(m) => Val::Int64(m),
                None => Val::Null,
            },
            RollOp::Max => match crate::series_stats::spec_fold_max(spec_window(s, i, w)) {
                Some(m) => Val::Int64(m),
                None => Val::Null,
            },
        }
    }
}

/// Whether every rolling sum is representable: each running total over a
/// full, null-free window must fit an `i64`.
pub open spec fn spec_rolling_sum_ok(s: Seq<Val>, w: int) -> bool {
    forall|i: int, k: int|
        w - 1 <= i < s.len() && window_non_null(s, i, w) && 0 <= k <= w ==> i64::MIN
            <= crate::series_stats::spec_fold_sum(#[trigger] spec_window(s, i, w).take(k))
            <= i64::MAX
}

impl Series {
    /// The rolling sum over a window of `window` cells; see `rolling`.
    pub fn rolling_sum(&self, window: usize) -> (r: Result<Series, EngineError>)
        requires
            self.wf(),
        ensures
            r is Ok <==> (window >= 1 && self@.dtype == Dtype::Int64 && spec_rolling_sum_ok(
                self@.values,
                window as int,
            )),
            r matches Ok(s) ==> {
                &&& s.wf()
                &&& s@.name == self@.name
                &&& s@.dtype == Dtype::Int64
                &&& s@.values =~= Seq::new(
                    self@.values.len(),
                    |i: int| spec_rolling_cell(self@.values, i, window as int, RollOp::Sum),
                )
            },
    {
        self.rolling(window, RollOp::Sum)
    }

    /// The rolling least over a window of `window` cells; see `rolling`.
    pub fn rolling_min(&self, window: usize) -> (r: Result<Series, EngineError>)
        requires
            self.wf(),
        ensures
            r is Ok <==> (window >= 1 && self@.dtype == Dtype::Int64),
            r matches Ok(s) ==> {
                &&& s.wf()
                &&& s@.name == self@.name
                &&& s@.dtype == Dtype::Int64
                &&& s@.values =~= Seq::new(
                    self@.values.len(),
                    |i: int| spec_rolling_cell(self@.values, i, window as int, RollOp::Min),
                )
            },
    {
        self.rolling(window, RollOp::Min)
    }

    /// The rolling greatest over a window of `window` cells; see `rolling`.
    pub fn rolling_max(&self, window: usize) -> (r: Result<Series, EngineError>)
        requires
            self.wf(),
        ensures
            r is Ok <==> (window >= 1 && self@.dtype == Dtype::Int64),
            r matches Ok(s) ==> {
                &&& s.wf()
                &&& s@.name == self@.name
                &&& s@.dtype == Dtype::Int64
                &&& s@.values =~= Seq::new(
                    self@.values.len(),
                    |i: int| spec_rolling_cell(self@.values, i, window as int, RollOp::Max),
                )
            },
    {
        self.rolling(window, RollOp::Max)
    }

    /// Aggregates each window of `window` trailing cells of an Int64 series:
    /// the leading cells with no full window are null, as is every cell
    /// whose window holds a null.  Fails with `InvalidArgument` on a zero
    /// window or another dtype and with `ComputationFailure` when a rolling
    /// sum leaves the `i64` range.
    pub fn rolling(&self, window: usize, op: RollOp) -> (r: Result<Series, EngineError>)
        requires
            self.wf(),
        ensures
            r is Ok <==> (window >= 1 && self@.dtype == Dtype::Int64 && (op is Sum
                ==> spec_rolling_sum_ok(self@.values, window as int))),
            r matches Err(e) ==> {
                &&& !(window >= 1 && self@.dtype == Dtype::Int64) ==> e is InvalidArgument
                &&& (window >= 1 && self@.dtype == Dtype::Int64) ==> e is ComputationFailure
            },
            r matches Ok(s) ==> {
                &&& s.wf()
                &&& s@.name == self@.name
                &&& s@.dtype == Dtype::Int64
                &&& s@.values =~= Seq::new(
                    self@.values.len(),
                    |i: int| spec_rolling_cell(self@.values, i, window as int, op),
                )
            },
    {
        if window == 0 || self.dtype != Dtype::Int64 {
            return Err(
                EngineError::InvalidArgument(
                    String::from_str("a rolling window needs an Int64 series and a positive size"),
                ),
            );
        }
        let n = self.values.len();
        let mut cells: Vec<TypedValue> = Vec::new();
        let mut i: usize = 0;
        while i < n
            invariant
                self.wf(),
                self@.dtype == Dtype::Int64,
                window >= 1,
                n == self@.values.len(),
                i <= n,
                cells@.len() == i,
                forall|j: int|
                    0 <= j < i ==> #[trigger] cells@[j]@ == spec_rolling_cell(
                        self@.values,
                        j,
                        window as int,
                        op,
                    ),
                op is Sum ==> forall|j: int, m: int|
                    window - 1 <= j < i && window_non_null(self@.values, j, window as int) && 0
                        <= m <= window ==> i64::MIN <= crate::series_stats::spec_fold_sum(
                        #[trigger] spec_window(self@.values, j, window as int).take(m),
                    ) <= i64::MAX,
            decreases n - i,
        {
            if i + 1 < window {
                cells.push(TypedValue::Null);
                i = i + 1;
                continue ;
            }
            let start = i + 1 - window;
            let ghost win = spec_window(self@.values, i as int, window as int);
            // First pass: does the window hold a null?
            let mut has_null = false;
            let mut k: usize = 0;
            while k < window
                invariant
                    self.wf(),
                    self@.dtype == Dtype::Int64,
                    window >= 1,
                    n == self@.values.len(),
                    i < n,
                    i + 1 >= window,
                    start == i + 1 - window,
                    win == spec_window(self@.values, i as int, window as int),
                    k <= window,
                    has_null == exists|m: int| 0 <= m < k && (#[trigger] win[m]) is Null,
                decreases window - k,
            {
                proof {
                    assert(win[k as int] == self@.values[start + k]);
                    assert(self@.values[start + k] == self.values@[start + k]@);
                }
                if self.values[start + k].is_null() {
                    proof {
                        assert(win[k as int] is Null);
                    }
                    has_null = true;
                }
                k = k + 1;
            }
            if has_null {
                proof {
                    assert(!window_non_null(self@.values, i as int, window as int));
                }
                cells.push(TypedValue::Null);
                i = i + 1;
                continue ;
            }
            proof {
                assert(window_non_null(self@.values, i as int, window as int));
            }
            // Second pass: aggregate the null-free window.
            let mut acc: i64 = 0;
            let mut best: Option<i64> = None;
            let mut k: usize = 0;
            while k < window
                invariant
                    self.wf(),
                    self@.dtype == Dtype::Int64,
                    window >= 1,
                    n == self@.values.len(),
                    i < n,
                    i + 1 >= window,
                    start == i + 1 - window,
                    win == spec_window(self@.values, i as int, window as int),
                    window_non_null(self@.values, i as int, window as int),
                    k <= window,
                    op is Sum ==> acc as int == crate::series_stats::spec_fold_sum(
                        win.take(k as int),
                    ),
                    op is Sum ==> forall|m: int|
                        0 <= m <= k ==> i64::MIN <= crate::series_stats::spec_fold_sum(
                            #[trigger] win.take(m),
                        ) <= i64::MAX,
                    op is Min ==> (best is Some <==> crate::series_stats::spec_fold_min(
                        win.take(k as int),
                    ) is Some),
                    op is Min ==> (best matches Some(b) ==> Some(b as int)
                        == crate::series_stats::spec_fold_min(win.take(k as int))),
                    op is Max ==> (best is Some <==> crate::series_stats::spec_fold_max(
                        win.take(k as int),
                    ) is Some),
                    op is Max ==> (best matches Some(b) ==> Some(b as int)
                        == crate::series_stats::spec_fold_max(win.take(k as int))),
                decreases window - k,
            {
                proof {
                    assert(win.take(k + 1).drop_last() =~= win.take(k as int));
                    assert(win.take(k + 1).last() == win[k as int]);
                    assert(win[k as int] == self@.values[start + k]);
                    assert(self@.values[start + k] == self.values@[start + k]@);
                    assert(val_matches(self@.values[start + k], self@.dtype));
                    assert(!(win[k as int] is Null));
                }
                let x: i64 = match &self.values[start + k] {
                    TypedValue::Int64(v) => *v,
                    _ => {
                        proof {
                            assert(false);
                        }
                        0
                    },
                };
                match op {
                    RollOp::Sum => {
                        match acc.checked_add(x) {
                            Some(v) => {
                                acc = v;
                            },
                            None => {
                                proof {
                                    assert(!(i64::MIN <= crate::series_stats::spec_fold_sum(
                                        spec_window(
                                            self@.values,
                                            i as int,
                                            window as int,
                                        ).take(k + 1),
                                    ) <= i64::MAX));
                                    assert(!spec_rolling_sum_ok(self@.values, window as int));
                                }
                                return Err(
                                    EngineError::ComputationFailure(
                                        String::from_str("a rolling sum overflowed"),
                                    ),
                                );
                            },
                        }
                    },
                    RollOp::Min => {
                        best = match best {
                            None => Some(x),
                            Some(b) => Some(
                                if x < b {
                                    x
                                } else {
                                    b
                                },
                            ),
                        };
                    },
                    RollOp::Max => {
                        best = match best {
                            None => Some(x),
                            Some(b) => Some(
                                if x > b {
                                    x
                                } else {
                                    b
                                },
                            ),
                        };
                    },
                }
                k = k + 1;
            }
            proof {
                assert(win.take(window as int) =~= win);
                if op is Sum {
                    assert forall|m: int| 0 <= m <= window implies i64::MIN
                        <= crate::series_stats::spec_fold_sum(#[trigger] spec_window(
                        self@.values,
                        i as int,
                        window as int,
                    ).take(m)) <= i64::MAX by {
                        assert(spec_window(self@.values, i as int, window as int) == win);
                    }
                }
            }
            let cell = match op {
                RollOp::Sum => TypedValue::Int64(acc),
                RollOp::Min => match best {
                    Some(b) => TypedValue::Int64(b),
                    None => TypedValue::Null,
                },
                RollOp::Max => match best {
                    Some(b) => TypedValue::Int64(b),
                    None => TypedValue::Null,
                },
            };
            cells.push(cell);
            i = i + 1;
        }
        let r = Series { name: self.name.clone(), dtype: Dtype::Int64, values: cells };
        Ok(r)
    }

    /// Raises each cell of an Int64 series to a fixed power, null cells left
    /// null.  Fails with `InvalidArgument` on another dtype and with
    /// `ComputationFailure` when a partial power leaves the `i64` range.
    pub fn int_pow(&self, exponent: u32) -> (r: Result<Series, EngineError>)
        requires
            self.wf(),
        ensures
            r is Ok <==> (self@.dtype == Dtype::Int64 && forall|i: int|
                0 <= i < self@.values.len() ==> pow_cell_ok(
                    #[trigger] self@.values[i],
                    exponent as nat,
                )),
            r matches Err(e) ==> {
                &&& self@.dtype != Dtype::Int64 ==> e is InvalidArgument
                &&& self@.dtype == Dtype::Int64 ==> e is ComputationFailure
            },
            r matches Ok(s) ==> {
                &&& s.wf()
                &&& s@.name == self@.name
                &&& s@.dtype == Dtype::Int64
                &&& s@.values =~= Seq::new(
                    self@.values.len(),
                    |i: int| spec_pow_cell(self@.values[i], exponent as nat),
                )
            },
    {
        if self.dtype != Dtype::Int64 {
            return Err(
                EngineError::InvalidArgument(String::from_str("a power needs an Int64 series")),
            );
        }
        let mut cells: Vec<TypedValue> = Vec::new();
        let mut i: usize = 0;
        while i < self.values.len()
            invariant
                self.wf(),
                self@.dtype == Dtype::Int64,
                i <= self@.values.len(),
                cells@.len() == i,
                forall|j: int|
                    0 <= j < i ==> pow_cell_ok(#[trigger] self@.values[j], exponent as nat),
                forall|j: int|
                    0 <= j < i ==> #[trigger] cells@[j]@ == spec_pow_cell(
                        self@.values[j],
                        exponent as nat,
                    ),
            decreases self@.values.len() - i,
        {
            proof {
                assert(self@.values[i as int] == self.values@[i as int]@);
                assert(val_matches(self@.values[i as int], self@.dtype));
            }
            if self.values[i].is_null() {
                cells.push(TypedValue::Null);
            } else {
                let x: i64 = match &self.values[i] {
                    TypedValue::Int64(v) => *v,
                    _ => {
                        proof {
                            assert(false);
                        }
                        0
                    },
                };
                let mut acc: i64 = 1;
                let mut k: u32 = 0;
                let mut failed = false;
                while k < exponent
                    invariant
                        x as int == val_int(self@.values[i as int]),
                        !(self@.values[i as int] is Null),
                        k <= exponent,
                        !failed ==> acc as int == spec_pow(x as int, k as nat),
                        !failed ==> forall|m: nat|
                            m <= k ==> i64::MIN <= #[trigger] spec_pow(x as int, m)
                                <= i64::MAX,
                        failed ==> !pow_cell_ok(self@.values[i as int], exponent as nat),
                    decreases exponent - k,
                {
                    if !failed {
                        match acc.checked_mul(x) {
                            Some(v) => {
                                acc = v;
                                proof {
                                    assert(spec_pow(x as int, (k + 1) as nat) == spec_pow(
                                        x as int,
                                        k as nat,
                                    ) * x);
                                }
                            },
                            None => {
                                failed = true;
                                proof {
                                    assert(spec_pow(x as int, (k + 1) as nat) == spec_pow(
                                        x as int,
                                        k as nat,
                                    ) * x);
                                    assert(!(i64::MIN <= spec_pow(x as int, (k + 1) as nat)
                                        <= i64::MAX));
                                }
                            },
                        }
                    }
                    k = k + 1;
                }
                if failed {
                    return Err(
                        EngineError::ComputationFailure(
                            String::from_str("a power overflowed the integer range"),
                        ),
                    );
                }
                cells.push(TypedValue::Int64(acc));
            }
            i = i + 1;
        }
        Ok(Series { name: self.name.clone(), dtype: Dtype::Int64, values: cells })
    }

    /// Marks the strict local greatest cells.  Fails with `InvalidArgument`
    /// on an unordered dtype.
    pub fn peak_max(&self) -> (r: Result<Series, EngineError>)
        requires
            self.wf(),
        ensures
            r is Ok <==> (self@.dtype == Dtype::Int64 || self@.dtype == Dtype::Date
                || self@.dtype == Dtype::Datetime),
            r matches Err(e) ==> e is InvalidArgument,
            r matches Ok(s) ==> {
                &&& s.wf()
                &&& s@.name == self@.name
                &&& s@.dtype == Dtype::Boolean
                &&& s@.values =~= Seq::new(
                    self@.values.len(),
                    |i: int| spec_peak_cell(self@.values, i, true),
                )
            },
    {
        self.peaks(true)
    }

    /// Marks the strict local least cells.  Fails with `InvalidArgument` on
    /// an unordered dtype.
    pub fn peak_min(&self) -> (r: Result<Series, EngineError>)
        requires
            self.wf(),
        ensures
            r is Ok <==> (self@.dtype == Dtype::Int64 || self@.dtype == Dtype::Date
                || self@.dtype == Dtype::Datetime),
            r matches Err(e) ==> e is InvalidArgument,
            r matches Ok(s) ==> {
                &&& s.wf()
                &&& s@.name == self@.name
                &&& s@.dtype == Dtype::Boolean
                &&& s@.values =~= Seq::new(
                    self@.values.len(),
                    |i: int| spec_peak_cell(self@.values, i, false),
                )
            },
    {
        self.peaks(false)
    }

    /// Shared body of `peak_max` and `peak_min`.
    fn peaks(&self, want_max: bool) -> (r: Result<Series, EngineError>)
        requires
            self.wf(),
        ensures
            r is Ok <==> (self@.dtype == Dtype::Int64 || self@.dtype == Dtype::Date
                || self@.dtype == Dtype::Datetime),
            r matches Err(e) ==> e is InvalidArgument,
            r matches Ok(s) ==> {
                &&& s.wf()
                &&& s@.name == self@.name
                &&& s@.dtype == Dtype::Boolean
                &&& s@.values =~= Seq::new(
                    self@.values.len(),
                    |i: int| spec_peak_cell(self@.values, i, want_max),
                )
            },
    {
        let ordered = match self.dtype {
            Dtype::Int64 => true,
            Dtype::Date => true,
            Dtype::Datetime => true,
            _ => false,
        };
        if !ordered {
            return Err(
                EngineError::InvalidArgument(
                    String::from_str("peak detection needs an ordered dtype"),
                ),
            );
        }
        let n = self.values.len();
        let mut cells: Vec<TypedValue> = Vec::new();
        let mut i: usize = 0;
        while i < n
            invariant
                self.wf(),
                self@.dtype == Dtype::Int64 || self@.dtype == Dtype::Date || self@.dtype
                    == Dtype::Datetime,
                n == self@.values.len(),
                i <= n,
                cells@.len() == i,
                forall|j: int|
                    0 <= j < i ==> #[trigger] cells@[j]@ == spec_peak_cell(
                        self@.values,
                        j,
                        want_max,
                    ),
            decreases n - i,
        {
            proof {
                assert(self@.values[i as int] == self.values@[i as int]@);
                assert(val_matches(self@.values[i as int], self@.dtype));
                if i > 0 {
                    assert(self@.values[i - 1] == self.values@[i - 1]@);
                    assert(val_matches(self@.values[i - 1], self@.dtype));
                }
                if i + 1 < n {
                    assert(self@.values[i + 1] == self.values@[i + 1]@);
                    assert(val_matches(self@.values[i + 1], self@.dtype));
                }
            }
            let b: bool = if self.values[i].is_null() {
                false
            } else {
                let x = crate::series_arith::int_payload(&self.values[i]);
                let left_ok = if i == 0 {
                    true
                } else if self.values[i - 1].is_null() {
                    true
                } else {
                    let y = crate::series_arith::int_payload(&self.values[i - 1]);
                    if want_max {
                        x > y
                    } else {
                        x < y
                    }
                };
                let right_ok = if i + 1 >= n {
                    true
                } else if self.values[i + 1].is_null() {
                    true
                } else {
                    let y = crate::series_arith::int_payload(&self.values[i + 1]);
                    if want_max {
                        x > y
                    } else {
                        x < y
                    }
                };
                left_ok && right_ok
            };
            cells.push(TypedValue::Boolean(b));
            i = i + 1;
        }
        Ok(Series { name: self.name.clone(), dtype: Dtype::Boolean, values: cells })
    }

    /// The distinct values (first-occurrence order) beside how often each
    /// occurs, as a two-column frame named `values` and `counts`.  Fails
    /// with `ComputationFailure` when a count cannot be carried as an
    /// `i64`.
    pub fn value_counts(&self) -> (r: Result<DataFrame, EngineError>)
        requires
            self.wf(),
        ensures
            r is Ok <==> (forall|g: int|
                0 <= g < spec_distinct(self@.values).len() ==> spec_count_eq(
                    self@.values,
                    #[trigger] spec_distinct(self@.values)[g],
                ) <= i64::MAX),
            r matches Err(e) ==> e is ComputationFailure,
            r matches Ok(d) ==> {
                &&& d.wf()
                &&& d@.len() == 2
                &&& d@[0].name == "values"@
                &&& d@[0].dtype == self@.dtype
                &&& d@[0].values == spec_distinct(self@.values)
                &&& d@[1].name == "counts"@
                &&& d@[1].dtype == Dtype::Int64
                &&& d@[1].values =~= Seq::new(
                    spec_distinct(self@.values).len(),
                    |g: int| Val::Int64(
                        spec_count_eq(self@.values, spec_distinct(self@.values)[g]),
                    ),
                )
            },
    {
        proof {
            reveal_strlit("values");
            reveal_strlit("counts");
        }
        let dvals = self.distinct();
        let mut counts: Vec<TypedValue> = Vec::new();
        let mut g: usize = 0;
        while g < dvals.values.len()
            invariant
                self.wf(),
                dvals@.values == spec_distinct(self@.values),
                g <= dvals@.values.len(),
                counts@.len() == g,
                forall|x: int|
                    0 <= x < g ==> spec_count_eq(
                        self@.values,
                        #[trigger] dvals@.values[x],
                    ) <= i64::MAX,
                forall|x: int|
                    0 <= x < g ==> #[trigger] counts@[x]@ == Val::Int64(
                        spec_count_eq(self@.values, dvals@.values[x]),
                    ),
            decreases dvals@.values.len() - g,
        {
            proof {
                assert(dvals@.values[g as int] == dvals.values@[g as int]@);
            }
            let mut cnt: u64 = 0;
            let mut i: usize = 0;
            while i < self.values.len()
                invariant
                    self.wf(),
                    dvals@.values == spec_distinct(self@.values),
                    g < dvals@.values.len(),
                    dvals@.values[g as int] == dvals.values@[g as int]@,
                    i <= self@.values.len(),
                    cnt <= i,
                    cnt as int == spec_count_eq(
                        self@.values.take(i as int),
                        dvals@.values[g as int],
                    ),
                decreases self@.values.len() - i,
            {
                proof {
                    assert(self@.values.take(i + 1).drop_last() =~= self@.values.take(
                        i as int,
                    ));
                    assert(self@.values.take(i + 1).last() == self@.values[i as int]);
                    assert(self@.values[i as int] == self.values@[i as int]@);
                }
                if values_equal(&self.values[i], &dvals.values[g]) {
                    cnt = cnt + 1;
                }
                i = i + 1;
            }
            proof {
                assert(self@.values.take(self@.values.len() as int) =~= self@.values);
            }
            if cnt > i64::MAX as u64 {
                return Err(
                    EngineError::ComputationFailure(
                        String::from_str("a count does not fit the count dtype"),
                    ),
                );
            }
            counts.push(TypedValue::Int64(cnt as i64));
            g = g + 1;
        }
        let vals_col = dvals.rename(String::from_str("values"));
        let counts_col = Series {
            name: String::from_str("counts"),
            dtype: Dtype::Int64,
            values: counts,
        };
        let d = DataFrame { columns: vec![vals_col, counts_col] };
        proof {
            assert("values"@ != "counts"@) by {
                assert("values"@[0] == 'v');
                assert("counts"@[0] == 'c');
            }
            assert(d@.len() == 2);
            assert(d@[0].values == spec_distinct(self@.values));
            assert(series_wf(d@[0]));
            assert(series_wf(d@[1]));
            assert(d@[1].values.len() == d@[0].values.len());
            assert(crate::frame::frame_wf(d@)) by {
                assert forall|x: int| 0 <= x < d@.len() implies (#[trigger] d@[x]).values.len()
                    == crate::frame::spec_height(d@) by {}
                assert forall|x: int, y: int| 0 <= x < y < d@.len() implies (
                #[trigger] d@[x].name) != (#[trigger] d@[y].name) by {}
            }
        }
        Ok(d)
    }
}

} // verus!
