//! Named, homogeneously typed, nullable arrays.
//!
//! A `Series` fixes its length and dtype at construction; null positions are
//! ordinary `Null` cells, tracked independently of the dtype.  Operations are
//! never in place: each produces a new series.  The ghost model `SeriesModel`
//! is what every contract speaks about.

use vstd::prelude::*;

use crate::error::EngineError;
use crate::value::{val_matches, Dtype, TypedValue, Val};

verus! {

/// The mathematical model of a series: its name, dtype and cell values.
pub struct SeriesModel {
    pub name: Seq<char>,
    pub dtype: Dtype,
    pub values: Seq<Val>,
}

/// A named, homogeneously typed, nullable array of values.
#[derive(Debug)]
pub struct Series {
    pub name: String,
    pub dtype: Dtype,
    pub values: Vec<TypedValue>,
}

impl View for Series {
    type V = SeriesModel;

    open spec fn view(&self) -> SeriesModel {
        SeriesModel {
            name: self.name@,
            dtype: self.dtype,
            values: Seq::new(self.values@.len(), |i: int| self.values@[i]@),
        }
    }
}

/// Well-formedness of a series model: every cell is null or of the dtype.
pub open spec fn series_wf(m: SeriesModel) -> bool {
    forall|i: int| 0 <= i < m.values.len() ==> val_matches(#[trigger] m.values[i], m.dtype)
}

impl Series {
    /// Well-formedness of this series.
    pub open spec fn wf(&self) -> bool {
        series_wf(self@)
    }

    /// Builds a series over explicit typed cells, checking each against the
    /// dtype.  Fails with `SchemaMismatch` exactly when some cell is neither
    /// null nor of dtype `dtype`.
    pub fn from_values(name: String, dtype: Dtype, values: Vec<TypedValue>) -> (r: Result<
        Series,
        EngineError,
    >)
        ensures
            r is Ok <==> (forall|i: int|
                0 <= i < values@.len() ==> val_matches(#[trigger] values@[i]@, dtype)),
            r matches Ok(s) ==> {
                &&& s.wf()
                &&& s@.name == name@
                &&& s@.dtype == dtype
                &&& s@.values =~= Seq::new(values@.len(), |i: int| values@[i]@)
            },
            r matches Err(e) ==> e is SchemaMismatch,
    {
        let mut i: usize = 0;
        while i < values.len()
            invariant
                i <= values.len(),
                forall|j: int| 0 <= j < i ==> val_matches(#[trigger] values@[j]@, dtype),
            decreases values.len() - i,
        {
            if !values[i].matches_dtype(dtype) {
                return Err(
                    EngineError::SchemaMismatch(
                        String::from_str("series cell does not match the series dtype"),
                    ),
                );
            }
            i = i + 1;
        }
        Ok(Series { name, dtype, values })
    }

    /// Builds an Int64 series from optional integers; absent entries become
    /// null cells.
    pub fn new_i64(name: String, items: &Vec<Option<i64>>) -> (r: Series)
        ensures
            r.wf(),
            r@.name == name@,
            r@.dtype == Dtype::Int64,
            r@.values.len() == items@.len(),
            forall|i: int|
                0 <= i < items@.len() ==> #[trigger] r@.values[i] == (match items@[i] {
                    Some(v) => Val::Int64(v as int),
                    None => Val::Null,
                }),
    {
        let mut cells: Vec<TypedValue> = Vec::new();
        let mut i: usize = 0;
        while i < items.len()
            invariant
                i <= items.len(),
                cells@.len() == i,
                forall|j: int|
                    0 <= j < i ==> #[trigger] cells@[j]@ == (match items@[j] {
                        Some(v) => Val::Int64(v as int),
                        None => Val::Null,
                    }),
            decreases items.len() - i,
        {
            match items[i] {
                Some(v) => cells.push(TypedValue::Int64(v)),
                None => cells.push(TypedValue::Null),
            }
            i = i + 1;
        }
        Series { name, dtype: Dtype::Int64, values: cells }
    }

    /// Builds a Boolean series from optional booleans.
    pub fn new_bool(name: String, items: &Vec<Option<bool>>) -> (r: Series)
        ensures
            r.wf(),
            r@.name == name@,
            r@.dtype == Dtype::Boolean,
            r@.values.len() == items@.len(),
            forall|i: int|
                0 <= i < items@.len() ==> #[trigger] r@.values[i] == (match items@[i] {
                    Some(v) => Val::Boolean(v),
                    None => Val::Null,
                }),
    {
        let mut cells: Vec<TypedValue> = Vec::new();
        let mut i: usize = 0;
        while i < items.len()
            invariant
                i <= items.len(),
                cells@.len() == i,
                forall|j: int|
                    0 <= j < i ==> #[trigger] cells@[j]@ == (match items@[j] {
                        Some(v) => Val::Boolean(v),
                        None => Val::Null,
                    }),
            decreases items.len() - i,
        {
            match items[i] {
                Some(v) => cells.push(TypedValue::Boolean(v)),
                None => cells.push(TypedValue::Null),
            }
            i = i + 1;
        }
        Series { name, dtype: Dtype::Boolean, values: cells }
    }

    /// Builds a Utf8 series from optional strings.
    pub fn new_utf8(name: String, items: &Vec<Option<String>>) -> (r: Series)
        ensures
            r.wf(),
            r@.name == name@,
            r@.dtype == Dtype::Utf8,
            r@.values.len() == items@.len(),
            forall|i: int|
                0 <= i < items@.len() ==> #[trigger] r@.values[i] == (match items@[i] {
                    Some(s) => Val::Utf8(s@),
                    None => Val::Null,
                }),
    {
        let mut cells: Vec<TypedValue> = Vec::new();
        let mut i: usize = 0;
        while i < items.len()
            invariant
                i <= items.len(),
                cells@.len() == i,
                forall|j: int|
                    0 <= j < i ==> #[trigger] cells@[j]@ == (match items@[j] {
                        Some(s) => Val::Utf8(s@),
                        None => Val::Null,
                    }),
            decreases items.len() - i,
        {
            match &items[i] {
                Some(s) => cells.push(TypedValue::Utf8(s.clone())),
                None => cells.push(TypedValue::Null),
            }
            i = i + 1;
        }
        Series { name, dtype: Dtype::Utf8, values: cells }
    }

    /// Builds a Date series (days since the epoch) from optional integers.
    pub fn new_date(name: String, items: &Vec<Option<i32>>) -> (r: Series)
        ensures
            r.wf(),
            r@.name == name@,
            r@.dtype == Dtype::Date,
            r@.values.len() == items@.len(),
            forall|i: int|
                0 <= i < items@.len() ==> #[trigger] r@.values[i] == (match items@[i] {
                    Some(v) => Val::Date(v as int),
                    None => Val::Null,
                }),
    {
        let mut cells: Vec<TypedValue> = Vec::new();
        let mut i: usize = 0;
        while i < items.len()
            invariant
                i <= items.len(),
                cells@.len() == i,
                forall|j: int|
                    0 <= j < i ==> #[trigger] cells@[j]@ == (match items@[j] {
                        Some(v) => Val::Date(v as int),
                        None => Val::Null,
                    }),
            decreases items.len() - i,
        {
            match items[i] {
                Some(v) => cells.push(TypedValue::Date(v)),
                None => cells.push(TypedValue::Null),
            }
            i = i + 1;
        }
        Series { name, dtype: Dtype::Date, values: cells }
    }

    /// Builds a Datetime series (milliseconds since the epoch) from optional
    /// integers.
    pub fn new_datetime(name: String, items: &Vec<Option<i64>>) -> (r: Series)
        ensures
            r.wf(),
            r@.name == name@,
            r@.dtype == Dtype::Datetime,
            r@.values.len() == items@.len(),
            forall|i: int|
                0 <= i < items@.len() ==> #[trigger] r@.values[i] == (match items@[i] {
                    Some(v) => Val::Datetime(v as int),
                    None => Val::Null,
                }),
    {
        let mut cells: Vec<TypedValue> = Vec::new();
        let mut i: usize = 0;
        while i < items.len()
            invariant
                i <= items.len(),
                cells@.len() == i,
                forall|j: int|
                    0 <= j < i ==> #[trigger] cells@[j]@ == (match items@[j] {
                        Some(v) => Val::Datetime(v as int),
                        None => Val::Null,
                    }),
            decreases items.len() - i,
        {
            match items[i] {
                Some(v) => cells.push(TypedValue::Datetime(v)),
                None => cells.push(TypedValue::Null),
            }
            i = i + 1;
        }
        Series { name, dtype: Dtype::Datetime, values: cells }
    }

    /// Returns a structurally equal copy of the series.
    pub fn dup(&self) -> (r: Series)
        ensures
            r@ == self@,
    {
        let mut cells: Vec<TypedValue> = Vec::new();
        let mut i: usize = 0;
        while i < self.values.len()
            invariant
                i <= self.values.len(),
                cells@.len() == i,
                forall|j: int| 0 <= j < i ==> #[trigger] cells@[j]@ == self.values@[j]@,
            decreases self.values.len() - i,
        {
            cells.push(self.values[i].dup());
            i = i + 1;
        }
        let r = Series { name: self.name.clone(), dtype: self.dtype, values: cells };
        assert(r@.values =~= self@.values);
        r
    }

    /// The number of cells.
    pub fn len(&self) -> (n: usize)
        ensures
            n == self@.values.len(),
    {
        self.values.len()
    }

    /// The series name.
    pub fn name(&self) -> (n: String)
        ensures
            n@ == self@.name,
    {
        self.name.clone()
    }

    /// The series dtype.
    pub fn dtype(&self) -> (d: Dtype)
        ensures
            d == self@.dtype,
    {
        self.dtype
    }

    /// Returns a copy of this series under a new name.
    pub fn rename(&self, name: String) -> (r: Series)
        ensures
            r@.name == name@,
            r@.dtype == self@.dtype,
            r@.values == self@.values,
    {
        let mut r = self.dup();
        r.name = name;
        r
    }

    /// Returns the cell at index `i`; fails with `IndexOutOfBounds` exactly
    /// when `i` is not below the length.
    pub fn get(&self, i: usize) -> (r: Result<TypedValue, EngineError>)
        ensures
            r is Ok <==> i < self@.values.len(),
            r matches Ok(v) ==> v@ == self@.values[i as int],
            r matches Err(e) ==> e is IndexOutOfBounds,
    {
        if i < self.values.len() {
            Ok(self.values[i].dup())
        } else {
            Err(EngineError::IndexOutOfBounds(String::from_str("get index beyond series length")))
        }
    }

    /// Gathers the cells at an explicit index list, in that order.  Fails with
    /// `IndexOutOfBounds` exactly when some index is not below the length.
    pub fn take(&self, indices: &Vec<usize>) -> (r: Result<Series, EngineError>)
        requires
            self.wf(),
        ensures
            r is Ok <==> (forall|i: int|
                0 <= i < indices@.len() ==> #[trigger] indices@[i] < self@.values.len()),
            r matches Ok(s) ==> {
                &&& s.wf()
                &&& s@.name == self@.name
                &&& s@.dtype == self@.dtype
                &&& s@.values =~= spec_take(self@.values, indices@.map_values(|j: usize| j as int))
            },
            r matches Err(e) ==> e is IndexOutOfBounds,
    {
        let mut cells: Vec<TypedValue> = Vec::new();
        let mut i: usize = 0;
        while i < indices.len()
            invariant
                self.wf(),
                i <= indices.len(),
                cells@.len() == i,
                forall|j: int| 0 <= j < i ==> #[trigger] indices@[j] < self@.values.len(),
                forall|j: int|
                    0 <= j < i ==> #[trigger] cells@[j]@ == self@.values[indices@[j] as int],
            decreases indices.len() - i,
        {
            let idx = indices[i];
            if idx >= self.values.len() {
                return Err(
                    EngineError::IndexOutOfBounds(
                        String::from_str("take index beyond series length"),
                    ),
                );
            }
            cells.push(self.values[idx].dup());
            i = i + 1;
        }
        let r = Series { name: self.name.clone(), dtype: self.dtype, values: cells };
        assert(r@.values =~= spec_take(self@.values, indices@.map_values(|j: usize| j as int)));
        Ok(r)
    }

    /// Returns the contiguous cells `[start, start + length)`, clamped to the
    /// series length as slicing conventionally is.
    pub fn slice(&self, offset: usize, length: usize) -> (r: Series)
        requires
            self.wf(),
        ensures
            r.wf(),
            r@.name == self@.name,
            r@.dtype == self@.dtype,
            r@.values =~= spec_clamped_slice(self@.values, offset as int, length as int),
    {
        let len = self.values.len();
        let start = if offset < len {
            offset
        } else {
            len
        };
        let avail = len - start;
        let count = if length < avail {
            length
        } else {
            avail
        };
        let mut cells: Vec<TypedValue> = Vec::new();
        let mut i: usize = 0;
        while i < count
            invariant
                self.wf(),
                start + count <= self@.values.len(),
                self@.values.len() <= usize::MAX,
                i <= count,
                cells@.len() == i,
                forall|j: int| 0 <= j < i ==> #[trigger] cells@[j]@ == self@.values[start + j],
            decreases count - i,
        {
            cells.push(self.values[start + i].dup());
            i = i + 1;
        }
        let r = Series { name: self.name.clone(), dtype: self.dtype, values: cells };
        assert(r@.values =~= spec_clamped_slice(self@.values, offset as int, length as int));
        r
    }

    /// The first `n` cells (all of them when `n` exceeds the length).
    pub fn head(&self, n: usize) -> (r: Series)
        requires
            self.wf(),
        ensures
            r.wf(),
            r@.name == self@.name,
            r@.dtype == self@.dtype,
            r@.values =~= spec_clamped_slice(self@.values, 0, n as int),
    {
        self.slice(0, n)
    }

    /// The last `n` cells (all of them when `n` exceeds the length).
    pub fn tail(&self, n: usize) -> (r: Series)
        requires
            self.wf(),
        ensures
            r.wf(),
            r@.name == self@.name,
            r@.dtype == self@.dtype,
            r@.values =~= self@.values.subrange(
                if n as int <= self@.values.len() {
                    self@.values.len() - n as int
                } else {
                    0
                },
                self@.values.len() as int,
            ),
    {
        let len = self.values.len();
        let start = if n <= len {
            len - n
        } else {
            0
        };
        let r = self.slice(start, len - start);
        assert(r@.values =~= self@.values.subrange(start as int, len as int));
        r
    }

    /// The cells in reverse order.
    pub fn reverse(&self) -> (r: Series)
        requires
            self.wf(),
        ensures
            r.wf(),
            r@.name == self@.name,
            r@.dtype == self@.dtype,
            r@.values.len() == self@.values.len(),
            forall|i: int|
                0 <= i < self@.values.len() ==> #[trigger] r@.values[i] == self@.values[
                    self@.values.len() - 1 - i],
    {
        let len = self.values.len();
        let mut cells: Vec<TypedValue> = Vec::new();
        let mut i: usize = 0;
        while i < len
            invariant
                self.wf(),
                len == self@.values.len(),
                i <= len,
                cells@.len() == i,
                forall|j: int| 0 <= j < i ==> #[trigger] cells@[j]@ == self@.values[len - 1 - j],
            decreases len - i,
        {
            cells.push(self.values[len - 1 - i].dup());
            i = i + 1;
        }
        Series { name: self.name.clone(), dtype: self.dtype, values: cells }
    }

    /// Keeps the cells whose mask entry is `true`; a null mask entry drops the
    /// cell.  A mask whose length differs from the series length fails with
    /// `SchemaMismatch`; a mask that is not Boolean fails with
    /// `InvalidArgument`.
    pub fn filter(&self, mask: &Series) -> (r: Result<Series, EngineError>)
        requires
            self.wf(),
        ensures
            r is Ok <==> (mask@.values.len() == self@.values.len() && mask@.dtype
                == Dtype::Boolean),
            r matches Err(e) ==> {
                &&& mask@.values.len() != self@.values.len() ==> e is SchemaMismatch
                &&& (mask@.values.len() == self@.values.len() && mask@.dtype != Dtype::Boolean)
                    ==> e is InvalidArgument
            },
            r matches Ok(s) ==> {
                &&& s.wf()
                &&& s@.name == self@.name
                &&& s@.dtype == self@.dtype
                &&& s@.values == spec_mask_filter(self@.values, mask@.values)
            },
    {
        if mask.values.len() != self.values.len() {
            return Err(
                EngineError::SchemaMismatch(
                    String::from_str("filter mask length does not equal the data length"),
                ),
            );
        }
        if mask.dtype != Dtype::Boolean {
            return Err(
                EngineError::InvalidArgument(String::from_str("filter mask must be Boolean")),
            );
        }
        let mut cells: Vec<TypedValue> = Vec::new();
        let mut i: usize = 0;
        while i < self.values.len()
            invariant
                self.wf(),
                mask@.values.len() == self@.values.len(),
                i <= self@.values.len(),
                forall|j: int| 0 <= j < cells@.len() ==> val_matches(#[trigger] cells@[j]@, self@.dtype),
                Seq::new(cells@.len(), |j: int| cells@[j]@) == spec_mask_filter(
                    self@.values.take(i as int),
                    mask@.values.take(i as int),
                ),
            decreases self@.values.len() - i,
        {
            let keep = match &mask.values[i] {
                TypedValue::Boolean(b) => *b,
                _ => false,
            };
            proof {
                assert(self@.values.take(i + 1).drop_last() =~= self@.values.take(i as int));
                assert(mask@.values.take(i + 1).drop_last() =~= mask@.values.take(i as int));
                assert(self@.values.take(i + 1).last() == self@.values[i as int]);
                assert(mask@.values.take(i + 1).last() == mask@.values[i as int]);
            }
            if keep {
                cells.push(self.values[i].dup());
                assert(Seq::new(cells@.len(), |j: int| cells@[j]@) =~= spec_mask_filter(
                    self@.values.take(i as int),
                    mask@.values.take(i as int),
                ) + seq![self@.values[i as int]]);
            } else {
                assert(Seq::new(cells@.len(), |j: int| cells@[j]@) =~= spec_mask_filter(
                    self@.values.take(i as int),
                    mask@.values.take(i as int),
                ));
            }
            i = i + 1;
        }
        proof {
            assert(self@.values.take(self@.values.len() as int) =~= self@.values);
            assert(mask@.values.take(mask@.values.len() as int) =~= mask@.values);
        }
        Ok(Series { name: self.name.clone(), dtype: self.dtype, values: cells })
    }

    /// Concatenates another series after this one, keeping this series' name.
    /// Fails with `SchemaMismatch` exactly when the dtypes differ.
    pub fn append(&self, other: &Series) -> (r: Result<Series, EngineError>)
        requires
            self.wf(),
            other.wf(),
        ensures
            r is Ok <==> self@.dtype == other@.dtype,
            r matches Err(e) ==> e is SchemaMismatch,
            r matches Ok(s) ==> {
                &&& s.wf()
                &&& s@.name == self@.name
                &&& s@.dtype == self@.dtype
                &&& s@.values =~= self@.values + other@.values
            },
    {
        if self.dtype != other.dtype {
            return Err(
                EngineError::SchemaMismatch(
                    String::from_str("cannot append a series of another dtype"),
                ),
            );
        }
        let mut cells: Vec<TypedValue> = Vec::new();
        let mut i: usize = 0;
        while i < self.values.len()
            invariant
                self.wf(),
                i <= self@.values.len(),
                cells@.len() == i,
                forall|j: int| 0 <= j < i ==> #[trigger] cells@[j]@ == self@.values[j],
            decreases self@.values.len() - i,
        {
            cells.push(self.values[i].dup());
            i = i + 1;
        }
        let n = cells.len();
        let mut k: usize = 0;
        while k < other.values.len()
            invariant
                other.wf(),
                n == self@.values.len(),
                k <= other@.values.len(),
                cells@.len() == n + k,
                forall|j: int| 0 <= j < n ==> #[trigger] cells@[j]@ == self@.values[j],
                forall|j: int| n <= j < n + k ==> #[trigger] cells@[j]@ == other@.values[j - n],
            decreases other@.values.len() - k,
        {
            cells.push(other.values[k].dup());
            k = k + 1;
        }
        let r = Series { name: self.name.clone(), dtype: self.dtype, values: cells };
        assert(r@.values =~= self@.values + other@.values);
        Ok(r)
    }

    /// A Boolean mask marking the null cells.
    pub fn is_null(&self) -> (r: Series)
        ensures
            r.wf(),
            r@.name == self@.name,
            r@.dtype == Dtype::Boolean,
            r@.values.len() == self@.values.len(),
            forall|i: int|
                0 <= i < self@.values.len() ==> #[trigger] r@.values[i] == Val::Boolean(
                    self@.values[i] is Null,
                ),
    {
        let mut cells: Vec<TypedValue> = Vec::new();
        let mut i: usize = 0;
        while i < self.values.len()
            invariant
                i <= self@.values.len(),
                cells@.len() == i,
                forall|j: int|
                    0 <= j < i ==> #[trigger] cells@[j]@ == Val::Boolean(self@.values[j] is Null),
            decreases self@.values.len() - i,
        {
            cells.push(TypedValue::Boolean(self.values[i].is_null()));
            i = i + 1;
        }
        Series { name: self.name.clone(), dtype: Dtype::Boolean, values: cells }
    }

    /// A Boolean mask marking the non-null cells.
    pub fn is_not_null(&self) -> (r: Series)
        ensures
            r.wf(),
            r@.name == self@.name,
            r@.dtype == Dtype::Boolean,
            r@.values.len() == self@.values.len(),
            forall|i: int|
                0 <= i < self@.values.len() ==> #[trigger] r@.values[i] == Val::Boolean(
                    !(self@.values[i] is Null),
                ),
    {
        let mut cells: Vec<TypedValue> = Vec::new();
        let mut i: usize = 0;
        while i < self.values.len()
            invariant
                i <= self@.values.len(),
                cells@.len() == i,
                forall|j: int|
                    0 <= j < i ==> #[trigger] cells@[j]@ == Val::Boolean(
                        !(self@.values[j] is Null),
                    ),
            decreases self@.values.len() - i,
        {
            cells.push(TypedValue::Boolean(!self.values[i].is_null()));
            i = i + 1;
        }
        Series { name: self.name.clone(), dtype: Dtype::Boolean, values: cells }
    }

    /// Replaces every null cell by the given value, which must match the
    /// series dtype; fails with `SchemaMismatch` otherwise.
    pub fn fill_none_with_value(&self, value: &TypedValue) -> (r: Result<Series, EngineError>)
        requires
            self.wf(),
        ensures
            r is Ok <==> (!(value@ is Null) && val_matches(value@, self@.dtype)),
            r matches Err(e) ==> e is SchemaMismatch,
            r matches Ok(s) ==> {
                &&& s.wf()
                &&& s@.name == self@.name
                &&& s@.dtype == self@.dtype
                &&& s@.values =~= spec_fill_none(self@.values, value@)
            },
    {
        if value.is_null() || !value.matches_dtype(self.dtype) {
            return Err(
                EngineError::SchemaMismatch(
                    String::from_str("fill value does not match the series dtype"),
                ),
            );
        }
        let mut cells: Vec<TypedValue> = Vec::new();
        let mut i: usize = 0;
        while i < self.values.len()
            invariant
                self.wf(),
                !(value@ is Null),
                val_matches(value@, self@.dtype),
                i <= self@.values.len(),
                cells@.len() == i,
                forall|j: int|
                    0 <= j < i ==> #[trigger] cells@[j]@ == (if self@.values[j] is Null {
                        value@
                    } else {
                        self@.values[j]
                    }),
            decreases self@.values.len() - i,
        {
            if self.values[i].is_null() {
                cells.push(value.dup());
            } else {
                cells.push(self.values[i].dup());
            }
            i = i + 1;
        }
        let r = Series { name: self.name.clone(), dtype: self.dtype, values: cells };
        assert(r@.values =~= spec_fill_none(self@.values, value@));
        Ok(r)
    }

    /// Replaces every null cell of an Int64 series by the given integer.
    pub fn fill_none_with_int(&self, value: i64) -> (r: Result<Series, EngineError>)
        requires
            self.wf(),
        ensures
            r is Ok <==> self@.dtype == Dtype::Int64,
            r matches Err(e) ==> e is SchemaMismatch,
            r matches Ok(s) ==> {
                &&& s.wf()
                &&& s@.name == self@.name
                &&& s@.dtype == Dtype::Int64
                &&& s@.values =~= spec_fill_none(self@.values, Val::Int64(value as int))
            },
    {
        self.fill_none_with_value(&TypedValue::Int64(value))
    }

    /// Replaces every null cell of a Binary series by the given bytes.
    pub fn fill_none_with_bin(&self, value: &Vec<u8>) -> (r: Result<Series, EngineError>)
        requires
            self.wf(),
        ensures
            r is Ok <==> self@.dtype == Dtype::Binary,
            r matches Err(e) ==> e is SchemaMismatch,
            r matches Ok(s) ==> {
                &&& s.wf()
                &&& s@.name == self@.name
                &&& s@.dtype == Dtype::Binary
                &&& s@.values =~= spec_fill_none(self@.values, Val::Binary(value@))
            },
    {
        let v = TypedValue::Binary(crate::value::copy_bytes(value));
        self.fill_none_with_value(&v)
    }
}

/// The cells of `values` gathered at `idxs`, in that order.
pub open spec fn spec_take(values: Seq<Val>, idxs: Seq<int>) -> Seq<Val> {
    Seq::new(idxs.len(), |i: int| values[idxs[i]])
}

/// The contiguous cells `[offset, offset + length)`, clamped to the length.
pub open spec fn spec_clamped_slice(values: Seq<Val>, offset: int, length: int) -> Seq<Val> {
    let start = if offset <= values.len() {
        offset
    } else {
        values.len() as int
    };
    let end = if offset + length <= values.len() {
        offset + length
    } else {
        values.len() as int
    };
    values.subrange(start, end)
}

/// The cells whose mask entry is the boolean `true`, in order.
pub open spec fn spec_mask_filter(values: Seq<Val>, mask: Seq<Val>) -> Seq<Val>
    decreases values.len(),
{
    if values.len() == 0 {
        Seq::empty()
    } else {
        spec_mask_filter(values.drop_last(), mask.drop_last()) + (if mask.last() == Val::Boolean(
            true,
        ) {
            seq![values.last()]
        } else {
            Seq::empty()
        })
    }
}

/// `values` with every null replaced by `fill`.
pub open spec fn spec_fill_none(values: Seq<Val>, fill: Val) -> Seq<Val> {
    Seq::new(
        values.len(),
        |i: int|
            if values[i] is Null {
                fill
            } else {
                values[i]
            },
    )
}

/// Taking the one-element index list `[i]` and then reading position `0`
/// yields exactly the cell at position `i`: the law behind single-row access.
pub proof fn lemma_take_then_get(m: SeriesModel, i: int)
    requires
        0 <= i < m.values.len(),
    ensures
        spec_take(m.values, seq![i]).len() == 1,
        spec_take(m.values, seq![i])[0] == m.values[i],
{
}

} // verus!
