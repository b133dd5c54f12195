//! Duplicate removal, aggregates, whole-series equality and dtype casts.

use vstd::prelude::*;

use crate::error::EngineError;
use crate::numtext::{
    render_i64, parse_i64, spec_parse_ok, spec_parse_val, spec_render_int,
};
use crate::series::Series;
use crate::series_arith::val_int;
use crate::value::{val_matches, values_equal, Dtype, TypedValue, Val};

verus! {

/// The values of `s` with later duplicates removed: each value keeps its
/// first occurrence only.
pub open spec fn spec_distinct(s: Seq<Val>) -> Seq<Val>
    decreases s.len(),
{
    if s.len() == 0 {
        Seq::empty()
    } else {
        let p = spec_distinct(s.drop_last());
        if p.contains(s.last()) {
            p
        } else {
            p.push(s.last())
        }
    }
}

/// Duplicate removal keeps exactly the values that occur.
pub proof fn lemma_distinct_contains(s: Seq<Val>, x: Val)
    ensures
        spec_distinct(s).contains(x) <==> s.contains(x),
    decreases s.len(),
{
    if s.len() > 0 {
        lemma_distinct_contains(s.drop_last(), x);
        let p = spec_distinct(s.drop_last());
        assert(s.contains(x) <==> (s.drop_last().contains(x) || s.last() == x)) by {
            if s.contains(x) {
                let i = choose|i: int| 0 <= i < s.len() && s[i] == x;
                if i < s.len() - 1 {
                    assert(s.drop_last()[i] == x);
                }
            }
            if s.drop_last().contains(x) {
                let i = choose|i: int| 0 <= i < s.drop_last().len() && s.drop_last()[i] == x;
                assert(s[i] == x);
            }
        }
        if !p.contains(s.last()) {
            assert(p.push(s.last()).contains(x) <==> (p.contains(x) || s.last() == x)) by {
                if p.push(s.last()).contains(x) {
                    let i = choose|i: int| 0 <= i < p.push(s.last()).len() && p.push(s.last())[i]
                        == x;
                    if i < p.len() {
                        assert(p[i] == x);
                    }
                }
                if p.contains(x) {
                    let i = choose|i: int| 0 <= i < p.len() && p[i] == x;
                    assert(p.push(s.last())[i] == x);
                }
                assert(p.push(s.last())[p.len() as int] == s.last());
            }
        }
    }
}

/// Duplicate removal leaves no duplicates.
pub proof fn lemma_distinct_no_dup(s: Seq<Val>)
    ensures
        spec_distinct(s).no_duplicates(),
    decreases s.len(),
{
    if s.len() > 0 {
        lemma_distinct_no_dup(s.drop_last());
        let p = spec_distinct(s.drop_last());
        if !p.contains(s.last()) {
            let q = p.push(s.last());
            assert forall|i: int, j: int| 0 <= i < j < q.len() implies q[i] != q[j] by {
                if j == q.len() - 1 {
                    assert(q[i] == p[i]);
                    assert(p.contains(p[i]));
                } else {
                    assert(q[i] == p[i] && q[j] == p[j]);
                }
            }
        }
    }
}

/// On a sequence without duplicates, duplicate removal is the identity.
pub proof fn lemma_distinct_of_nodup(s: Seq<Val>)
    requires
        s.no_duplicates(),
    ensures
        spec_distinct(s) == s,
    decreases s.len(),
{
    if s.len() > 0 {
        assert(s.drop_last().no_duplicates()) by {
            assert(forall|i: int|
                0 <= i < s.len() - 1 ==> #[trigger] s.drop_last()[i] == s[i]);
        }
        lemma_distinct_of_nodup(s.drop_last());
        assert(!s.drop_last().contains(s.last())) by {
            if s.drop_last().contains(s.last()) {
                let i = choose|i: int| 0 <= i < s.drop_last().len() && s.drop_last()[i]
                    == s.last();
                assert(s[i] == s[s.len() - 1]);
            }
        }
        assert(spec_distinct(s) =~= s);
    }
}

/// Removing duplicates twice is the same as removing them once.
pub proof fn lemma_distinct_idempotent(s: Seq<Val>)
    ensures
        spec_distinct(spec_distinct(s)) == spec_distinct(s),
{
    lemma_distinct_no_dup(s);
    lemma_distinct_of_nodup(spec_distinct(s));
}

/// The least integer payload among the non-null cells, if any.
pub open spec fn spec_fold_min(s: Seq<Val>) -> Option<int>
    decreases s.len(),
{
    if s.len() == 0 {
        None
    } else {
        let p = spec_fold_min(s.drop_last());
        if s.last() is Null {
            p
        } else {
            match p {
                None => Some(val_int(s.last())),
                Some(m) => Some(
                    if val_int(s.last()) < m {
                        val_int(s.last())
                    } else {
                        m
                    },
                ),
            }
        }
    }
}

/// The greatest integer payload among the non-null cells, if any.
pub open spec fn spec_fold_max(s: Seq<Val>) -> Option<int>
    decreases s.len(),
{
    if s.len() == 0 {
        None
    } else {
        let p = spec_fold_max(s.drop_last());
        if s.last() is Null {
            p
        } else {
            match p {
                None => Some(val_int(s.last())),
                Some(m) => Some(
                    if val_int(s.last()) > m {
                        val_int(s.last())
                    } else {
                        m
                    },
                ),
            }
        }
    }
}

/// The sum of the integer payloads of the non-null cells (zero when none).
pub open spec fn spec_fold_sum(s: Seq<Val>) -> int
    decreases s.len(),
{
    if s.len() == 0 {
        0
    } else {
        spec_fold_sum(s.drop_last()) + (if s.last() is Null {
            0
        } else {
            val_int(s.last())
        })
    }
}

/// Whether `v` is null or a string whose text denotes an `i64`.
pub open spec fn utf8_cell_castable(v: Val) -> bool {
    v is Null || (spec_parse_ok(val_str(v)) && i64::MIN <= spec_parse_val(val_str(v))
        <= i64::MAX)
}

/// The string payload of a value (empty for non-string values).
pub open spec fn val_str(v: Val) -> Seq<char> {
    match v {
        Val::Utf8(t) => t,
        _ => Seq::empty(),
    }
}

/// Whether a cast between two dtypes is offered.
pub open spec fn cast_supported(from: Dtype, to: Dtype) -> bool {
    ||| from == to
    ||| (from == Dtype::Int64 && to == Dtype::Utf8)
    ||| (from == Dtype::Utf8 && to == Dtype::Int64)
    ||| (from == Dtype::Int64 && to == Dtype::Boolean)
    ||| (from == Dtype::Boolean && to == Dtype::Int64)
    ||| (from == Dtype::Int64 && to == Dtype::Datetime)
    ||| (from == Dtype::Datetime && to == Dtype::Int64)
    ||| (from == Dtype::Date && to == Dtype::Int64)
}

/// The cell a supported cast produces (for Utf8 to Int64, meaningful only on
/// castable cells).
pub open spec fn spec_cast_cell(v: Val, from: Dtype, to: Dtype) -> Val {
    if v is Null {
        Val::Null
    } else if from == to {
        v
    } else if from == Dtype::Int64 && to == Dtype::Utf8 {
        Val::Utf8(spec_render_int(val_int(v)))
    } else if from == Dtype::Utf8 && to == Dtype::Int64 {
        Val::Int64(spec_parse_val(val_str(v)))
    } else if from == Dtype::Int64 && to == Dtype::Boolean {
        Val::Boolean(val_int(v) != 0)
    } else if from == Dtype::Boolean && to == Dtype::Int64 {
        Val::Int64(
            if v == Val::Boolean(true) {
                1
            } else {
                0
            },
        )
    } else if from == Dtype::Int64 && to == Dtype::Datetime {
        Val::Datetime(val_int(v))
    } else {
        // Datetime or Date widening to Int64.
        Val::Int64(val_int(v))
    }
}

/// Whether the cells of `cells` contain a value equal to `v`.
pub fn cells_contain(cells: &Vec<TypedValue>, v: &TypedValue) -> (r: bool)
    ensures
        r == Seq::new(cells@.len(), |j: int| cells@[j]@).contains(v@),
{
    let ghost views = Seq::new(cells@.len(), |j: int| cells@[j]@);
    let mut i: usize = 0;
    while i < cells.len()
        invariant
            views == Seq::new(cells@.len(), |j: int| cells@[j]@),
            i <= cells@.len(),
            forall|j: int| 0 <= j < i ==> #[trigger] views[j] != v@,
        decreases cells@.len() - i,
    {
        if values_equal(&cells[i], v) {
            assert(views[i as int] == v@);
            return true;
        }
        i = i + 1;
    }
    false
}

impl Series {
    /// Removes duplicate cells, keeping each value's first occurrence, in
    /// first-occurrence order.
    pub fn distinct(&self) -> (r: Series)
        requires
            self.wf(),
        ensures
            r.wf(),
            r@.name == self@.name,
            r@.dtype == self@.dtype,
            r@.values == spec_distinct(self@.values),
    {
        let mut cells: Vec<TypedValue> = Vec::new();
        let mut i: usize = 0;
        while i < self.values.len()
            invariant
                self.wf(),
                i <= self@.values.len(),
                forall|j: int|
                    0 <= j < cells@.len() ==> val_matches(#[trigger] cells@[j]@, self@.dtype),
                Seq::new(cells@.len(), |j: int| cells@[j]@) == spec_distinct(
                    self@.values.take(i as int),
                ),
            decreases self@.values.len() - i,
        {
            proof {
                assert(self@.values.take(i + 1).drop_last() =~= self@.values.take(i as int));
                assert(self@.values.take(i + 1).last() == self@.values[i as int]);
                assert(self@.values[i as int] == self.values@[i as int]@);
            }
            if !cells_contain(&cells, &self.values[i]) {
                cells.push(self.values[i].dup());
                assert(Seq::new(cells@.len(), |j: int| cells@[j]@) =~= spec_distinct(
                    self@.values.take(i + 1),
                ));
            } else {
                assert(Seq::new(cells@.len(), |j: int| cells@[j]@) =~= spec_distinct(
                    self@.values.take(i + 1),
                ));
            }
            i = i + 1;
        }
        proof {
            assert(self@.values.take(self@.values.len() as int) =~= self@.values);
        }
        Series { name: self.name.clone(), dtype: self.dtype, values: cells }
    }

    /// Removes duplicate cells without promising an order: the result has no
    /// duplicate values and contains exactly the values that occur.
    pub fn unordered_distinct(&self) -> (r: Series)
        requires
            self.wf(),
        ensures
            r.wf(),
            r@.name == self@.name,
            r@.dtype == self@.dtype,
            r@.values.no_duplicates(),
            forall|x: Val| r@.values.contains(x) <==> self@.values.contains(x),
    {
        proof {
            lemma_distinct_no_dup(self@.values);
            assert forall|x: Val| spec_distinct(self@.values).contains(x)
                <==> self@.values.contains(x) by {
                lemma_distinct_contains(self@.values, x);
            }
        }
        self.distinct()
    }

    /// The number of distinct cell values (a null counts as one value).
    pub fn n_unique(&self) -> (n: usize)
        requires
            self.wf(),
        ensures
            n == spec_distinct(self@.values).len(),
    {
        let d = self.distinct();
        d.len()
    }

    /// The least non-null cell of an ordered series (`None` when there is
    /// none).  Fails with `InvalidArgument` on an unordered dtype.
    pub fn min(&self) -> (r: Result<Option<TypedValue>, EngineError>)
        requires
            self.wf(),
        ensures
            r is Ok <==> (self@.dtype == Dtype::Int64 || self@.dtype == Dtype::Date || self@.dtype
                == Dtype::Datetime),
            r matches Err(e) ==> e is InvalidArgument,
            r matches Ok(o) ==> {
                &&& o is Some <==> spec_fold_min(self@.values) is Some
                &&& o matches Some(v) ==> {
                    &&& Some(val_int(v@)) == spec_fold_min(self@.values)
                    &&& self@.values.contains(v@)
                    &&& !(v@ is Null)
                }
            },
    {
        self.fold_extreme(true)
    }

    /// The greatest non-null cell of an ordered series (`None` when there is
    /// none).  Fails with `InvalidArgument` on an unordered dtype.
    pub fn max(&self) -> (r: Result<Option<TypedValue>, EngineError>)
        requires
            self.wf(),
        ensures
            r is Ok <==> (self@.dtype == Dtype::Int64 || self@.dtype == Dtype::Date || self@.dtype
                == Dtype::Datetime),
            r matches Err(e) ==> e is InvalidArgument,
            r matches Ok(o) ==> {
                &&& o is Some <==> spec_fold_max(self@.values) is Some
                &&& o matches Some(v) ==> {
                    &&& Some(val_int(v@)) == spec_fold_max(self@.values)
                    &&& self@.values.contains(v@)
                    &&& !(v@ is Null)
                }
            },
    {
        self.fold_extreme(false)
    }

    /// Shared body of `min` and `max`.
    fn fold_extreme(&self, want_min: bool) -> (r: Result<Option<TypedValue>, EngineError>)
        requires
            self.wf(),
        ensures
            r is Ok <==> (self@.dtype == Dtype::Int64 || self@.dtype == Dtype::Date || self@.dtype
                == Dtype::Datetime),
            r matches Err(e) ==> e is InvalidArgument,
            r matches Ok(o) ==> {
                &&& o is Some <==> (if want_min {
                    spec_fold_min(self@.values)
                } else {
                    spec_fold_max(self@.values)
                }) is Some
                &&& o matches Some(v) ==> {
                    &&& Some(val_int(v@)) == (if want_min {
                        spec_fold_min(self@.values)
                    } else {
                        spec_fold_max(self@.values)
                    })
                    &&& self@.values.contains(v@)
                    &&& !(v@ is Null)
                }
            },
    {
        let ordered = match self.dtype {
            Dtype::Int64 => true,
            Dtype::Date => true,
            Dtype::Datetime => true,
            _ => false,
        };
        if !ordered {
            return Err(
                EngineError::InvalidArgument(
                    String::from_str("minimum and maximum need an ordered dtype"),
                ),
            );
        }
        let mut best: Option<TypedValue> = None;
        let mut i: usize = 0;
        while i < self.values.len()
            invariant
                self.wf(),
                self@.dtype == Dtype::Int64 || self@.dtype == Dtype::Date || self@.dtype
                    == Dtype::Datetime,
                i <= self@.values.len(),
                best is Some <==> (if want_min {
                    spec_fold_min(self@.values.take(i as int))
                } else {
                    spec_fold_max(self@.values.take(i as int))
                }) is Some,
                best matches Some(v) ==> {
                    &&& Some(val_int(v@)) == (if want_min {
                        spec_fold_min(self@.values.take(i as int))
                    } else {
                        spec_fold_max(self@.values.take(i as int))
                    })
                    &&& self@.values.contains(v@)
                    &&& !(v@ is Null)
                    &&& (v@ is Int64 || v@ is Date || v@ is Datetime)
                },
            decreases self@.values.len() - i,
        {
            proof {
                assert(self@.values.take(i + 1).drop_last() =~= self@.values.take(i as int));
                assert(self@.values.take(i + 1).last() == self@.values[i as int]);
                assert(self@.values[i as int] == self.values@[i as int]@);
                assert(val_matches(self@.values[i as int], self@.dtype));
            }
            if !self.values[i].is_null() {
                let cur = crate::series_arith::int_payload(&self.values[i]);
                let replace = match &best {
                    None => true,
                    Some(b) => {
                        let bp = crate::series_arith::int_payload(b);
                        if want_min {
                            cur < bp
                        } else {
                            cur > bp
                        }
                    },
                };
                if replace {
                    proof {
                        assert(self@.values.contains(self@.values[i as int]));
                    }
                    best = Some(self.values[i].dup());
                }
            }
            i = i + 1;
        }
        proof {
            assert(self@.values.take(self@.values.len() as int) =~= self@.values);
        }
        Ok(best)
    }

    /// The sum of the non-null cells of an Int64 series (zero when none).
    /// Fails with `InvalidArgument` on another dtype and with
    /// `ComputationFailure` when a running total leaves the `i64` range.
    pub fn sum(&self) -> (r: Result<i64, EngineError>)
        requires
            self.wf(),
        ensures
            r is Ok <==> (self@.dtype == Dtype::Int64 && forall|k: int|
                0 <= k <= self@.values.len() ==> i64::MIN <= spec_fold_sum(
                    #[trigger] self@.values.take(k),
                ) <= i64::MAX),
            r matches Err(e) ==> {
                &&& self@.dtype != Dtype::Int64 ==> e is InvalidArgument
                &&& self@.dtype == Dtype::Int64 ==> e is ComputationFailure
            },
            r matches Ok(v) ==> v as int == spec_fold_sum(self@.values),
    {
        if self.dtype != Dtype::Int64 {
            return Err(
                EngineError::InvalidArgument(String::from_str("sum needs an Int64 series")),
            );
        }
        let mut acc: i64 = 0;
        let mut i: usize = 0;
        while i < self.values.len()
            invariant
                self.wf(),
                self@.dtype == Dtype::Int64,
                i <= self@.values.len(),
                acc as int == spec_fold_sum(self@.values.take(i as int)),
                forall|k: int|
                    0 <= k <= i ==> i64::MIN <= spec_fold_sum(#[trigger] self@.values.take(k))
                        <= i64::MAX,
            decreases self@.values.len() - i,
        {
            proof {
                assert(self@.values.take(i + 1).drop_last() =~= self@.values.take(i as int));
                assert(self@.values.take(i + 1).last() == self@.values[i as int]);
                assert(self@.values[i as int] == self.values@[i as int]@);
                assert(val_matches(self@.values[i as int], self@.dtype));
            }
            if !self.values[i].is_null() {
                let x: i64 = match &self.values[i] {
                    TypedValue::Int64(v) => *v,
                    _ => {
                        proof {
                            assert(false);
                        }
                        0
                    },
                };
                match acc.checked_add(x) {
                    Some(v) => {
                        acc = v;
                    },
                    None => {
                        proof {
                            lemma_fold_sum_stuck(self@.values, i as int);
                        }
                        return Err(
                            EngineError::ComputationFailure(
                                String::from_str("sum overflowed the integer range"),
                            ),
                        );
                    },
                }
            }
            i = i + 1;
        }
        proof {
            assert(self@.values.take(self@.values.len() as int) =~= self@.values);
        }
        Ok(acc)
    }

    /// Whole-series structural equality: same dtype and, cell by cell, equal
    /// values, nulls only matching nulls.  Names are not compared.
    pub fn series_equal(&self, other: &Series) -> (r: bool)
        ensures
            r == (self@.dtype == other@.dtype && self@.values == other@.values),
    {
        if self.dtype != other.dtype {
            return false;
        }
        if self.values.len() != other.values.len() {
            assert(self@.values.len() != other@.values.len());
            return false;
        }
        let mut i: usize = 0;
        while i < self.values.len()
            invariant
                self@.values.len() == other@.values.len(),
                i <= self@.values.len(),
                forall|j: int| 0 <= j < i ==> self@.values[j] == other@.values[j],
            decreases self@.values.len() - i,
        {
            if !values_equal(&self.values[i], &other.values[i]) {
                assert(self@.values[i as int] != other@.values[i as int]);
                return false;
            }
            assert(self@.values[i as int] == other@.values[i as int]);
            i = i + 1;
        }
        assert(self@.values =~= other@.values);
        true
    }

    /// Takes this series' cell wherever it is non-null and the other's cell
    /// where it is; both series must share length (`SchemaMismatch`
    /// otherwise) and dtype (`SchemaMismatch`).
    pub fn coalesce(&self, other: &Series) -> (r: Result<Series, EngineError>)
        requires
            self.wf(),
            other.wf(),
        ensures
            r is Ok <==> (self@.values.len() == other@.values.len() && self@.dtype
                == other@.dtype),
            r matches Err(e) ==> e is SchemaMismatch,
            r matches Ok(s) ==> {
                &&& s.wf()
                &&& s@.name == self@.name
                &&& s@.dtype == self@.dtype
                &&& s@.values =~= Seq::new(
                    self@.values.len(),
                    |i: int|
                        if self@.values[i] is Null {
                            other@.values[i]
                        } else {
                            self@.values[i]
                        },
                )
            },
    {
        if self.values.len() != other.values.len() {
            return Err(
                EngineError::SchemaMismatch(String::from_str("coalesce needs one length")),
            );
        }
        if self.dtype != other.dtype {
            return Err(
                EngineError::SchemaMismatch(String::from_str("coalesce needs one dtype")),
            );
        }
        let mut cells: Vec<TypedValue> = Vec::new();
        let mut i: usize = 0;
        while i < self.values.len()
            invariant
                self.wf(),
                other.wf(),
                self@.dtype == other@.dtype,
                self@.values.len() == other@.values.len(),
                i <= self@.values.len(),
                cells@.len() == i,
                forall|j: int|
                    0 <= j < i ==> #[trigger] cells@[j]@ == (if self@.values[j] is Null {
                        other@.values[j]
                    } else {
                        self@.values[j]
                    }),
            decreases self@.values.len() - i,
        {
            if self.values[i].is_null() {
                cells.push(other.values[i].dup());
            } else {
                cells.push(self.values[i].dup());
            }
            i = i + 1;
        }
        Ok(Series { name: self.name.clone(), dtype: self.dtype, values: cells })
    }

    /// Casts the series to another dtype.  Supported: the identity, Int64 to
    /// and from Utf8, Boolean and Datetime, and Date or Datetime widening to
    /// Int64.  An unsupported pair fails with `InvalidArgument`; so does a
    /// string cell that does not denote an `i64`, naming the cell's text.
    pub fn cast(&self, to: Dtype) -> (r: Result<Series, EngineError>)
        requires
            self.wf(),
        ensures
            r is Ok <==> (cast_supported(self@.dtype, to) && ((self@.dtype == Dtype::Utf8 && to
                == Dtype::Int64) ==> forall|i: int|
                0 <= i < self@.values.len() ==> utf8_cell_castable(#[trigger] self@.values[i]))),
            r matches Err(e) ==> e is InvalidArgument,
            r matches Err(e) ==> ((self@.dtype == Dtype::Utf8 && to == Dtype::Int64)
                ==> exists|i: int|
                {
                    &&& 0 <= i < self@.values.len()
                    &&& !utf8_cell_castable(#[trigger] self@.values[i])
                    &&& e.spec_message() == "cannot cast string to Int64: "@ + val_str(
                        self@.values[i],
                    )
                }),
            r matches Ok(s) ==> {
                &&& s.wf()
                &&& s@.name == self@.name
                &&& s@.dtype == to
                &&& s@.values =~= Seq::new(
                    self@.values.len(),
                    |i: int| spec_cast_cell(self@.values[i], self@.dtype, to),
                )
            },
    {
        if self.dtype == to {
            let r = self.dup();
            assert(r@.values =~= Seq::new(
                self@.values.len(),
                |i: int| spec_cast_cell(self@.values[i], self@.dtype, to),
            ));
            return Ok(r);
        }
        let supported = (self.dtype == Dtype::Int64 && to == Dtype::Utf8) || (self.dtype
            == Dtype::Utf8 && to == Dtype::Int64) || (self.dtype == Dtype::Int64 && to
            == Dtype::Boolean) || (self.dtype == Dtype::Boolean && to == Dtype::Int64) || (
        self.dtype == Dtype::Int64 && to == Dtype::Datetime) || (self.dtype == Dtype::Datetime
            && to == Dtype::Int64) || (self.dtype == Dtype::Date && to == Dtype::Int64);
        if !supported {
            return Err(
                EngineError::InvalidArgument(
                    String::from_str("cast between these dtypes is not supported"),
                ),
            );
        }
        let mut cells: Vec<TypedValue> = Vec::new();
        let mut i: usize = 0;
        while i < self.values.len()
            invariant
                self.wf(),
                self@.dtype != to,
                cast_supported(self@.dtype, to),
                i <= self@.values.len(),
                cells@.len() == i,
                forall|j: int|
                    0 <= j < i ==> utf8_cell_castable(#[trigger] self@.values[j]) || self@.dtype
                        != Dtype::Utf8,
                forall|j: int|
                    0 <= j < i ==> #[trigger] cells@[j]@ == spec_cast_cell(
                        self@.values[j],
                        self@.dtype,
                        to,
                    ),
            decreases self@.values.len() - i,
        {
            proof {
                assert(self@.values[i as int] == self.values@[i as int]@);
                assert(val_matches(self@.values[i as int], self@.dtype));
            }
            if self.values[i].is_null() {
                cells.push(TypedValue::Null);
            } else {
                match &self.values[i] {
                    TypedValue::Int64(x) => {
                        if to == Dtype::Utf8 {
                            cells.push(TypedValue::Utf8(render_i64(*x)));
                        } else if to == Dtype::Boolean {
                            cells.push(TypedValue::Boolean(*x != 0));
                        } else {
                            cells.push(TypedValue::Datetime(*x));
                        }
                    },
                    TypedValue::Utf8(t) => {
                        match parse_i64(t.as_str()) {
                            Some(v) => cells.push(TypedValue::Int64(v)),
                            None => {
                                let mut m = String::from_str(
                                    "cannot cast string to Int64: ",
                                );
                                m.append(t.as_str());
                                proof {
                                    assert(!utf8_cell_castable(self@.values[i as int]));
                                    assert(val_str(self@.values[i as int]) == t@);
                                    assert(m@ == "cannot cast string to Int64: "@ + val_str(
                                        self@.values[i as int],
                                    ));
                                }
                                return Err(EngineError::InvalidArgument(m));
                            },
                        }
                    },
                    TypedValue::Boolean(b) => {
                        cells.push(
                            TypedValue::Int64(
                                if *b {
                                    1
                                } else {
                                    0
                                },
                            ),
                        );
                    },
                    TypedValue::Datetime(x) => {
                        cells.push(TypedValue::Int64(*x));
                    },
                    TypedValue::Date(x) => {
                        cells.push(TypedValue::Int64(*x as i64));
                    },
                    _ => {
                        proof {
                            assert(false);
                        }
                    },
                }
            }
            i = i + 1;
        }
        let r = Series { name: self.name.clone(), dtype: to, values: cells };
        assert(r@.values =~= Seq::new(
            self@.values.len(),
            |i: int| spec_cast_cell(self@.values[i], self@.dtype, to),
        ));
        Ok(r)
    }

    /// The cells as a plain vector of typed values.
    pub fn to_list(&self) -> (r: Vec<TypedValue>)
        ensures
            r@.len() == self@.values.len(),
            forall|i: int| 0 <= i < r@.len() ==> #[trigger] r@[i]@ == self@.values[i],
    {
        let mut out: Vec<TypedValue> = Vec::new();
        let mut i: usize = 0;
        while i < self.values.len()
            invariant
                i <= self@.values.len(),
                out@.len() == i,
                forall|j: int| 0 <= j < i ==> #[trigger] out@[j]@ == self@.values[j],
            decreases self@.values.len() - i,
        {
            out.push(self.values[i].dup());
            i = i + 1;
        }
        out
    }
}

/// When one accumulation step of the sum leaves the `i64` range, some prefix
/// sum leaves it.
pub proof fn lemma_fold_sum_stuck(s: Seq<Val>, i: int)
    requires
        0 <= i < s.len(),
        !(i64::MIN <= spec_fold_sum(s.take(i)) + (if s[i] is Null {
            0
        } else {
            val_int(s[i])
        }) <= i64::MAX),
    ensures
        !(forall|k: int| 0 <= k <= s.len() ==> i64::MIN <= spec_fold_sum(#[trigger] s.take(k))
            <= i64::MAX),
{
    assert(s.take(i + 1).drop_last() =~= s.take(i));
    assert(s.take(i + 1).last() == s[i]);
    assert(!(i64::MIN <= spec_fold_sum(s.take(i + 1)) <= i64::MAX));
}

} // verus!
