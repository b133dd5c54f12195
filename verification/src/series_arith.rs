//! Elementwise arithmetic, comparison and boolean logic on series.
//!
//! All of these pair the cells of two equal-length series.  Null propagates:
//! wherever either operand cell is null, the result cell is null.  Integer
//! arithmetic is checked: an operation whose mathematical result does not fit
//! the cell type fails with `ComputationFailure` instead of wrapping.

use vstd::prelude::*;

use crate::error::EngineError;
use crate::series::Series;
use crate::value::{Dtype, TypedValue, Val};

verus! {

/// An elementwise arithmetic operator.
#[derive(Clone, Copy, PartialEq, Eq, Structural, Debug)]
pub enum ArithOp {
    Add,
    Sub,
    Mul,
    Div,
}

/// An elementwise comparison operator.
#[derive(Clone, Copy, PartialEq, Eq, Structural, Debug)]
pub enum CmpOp {
    Eq,
    Neq,
    Lt,
    LtEq,
    Gt,
    GtEq,
}

/// An elementwise boolean operator.
#[derive(Clone, Copy, PartialEq, Eq, Structural, Debug)]
pub enum BoolOp {
    And,
    Or,
}

/// The integer payload of a value (zero for non-integer values; used only
/// where the value is known to be an Int64).
pub open spec fn val_int(v: Val) -> int {
    match v {
        Val::Int64(x) => x,
        Val::Date(x) => x,
        Val::Datetime(x) => x,
        _ => 0,
    }
}

/// Division truncating toward zero, as machine integer division does.
pub open spec fn spec_trunc_div(x: int, d: int) -> int {
    if x == 0 {
        0
    } else if x > 0 && d > 0 {
        x / d
    } else if x < 0 && d < 0 {
        ((x * -1) / (d * -1))
    } else if x < 0 {
        ((x * -1) / d) * -1
    } else {
        (x / (d * -1)) * -1
    }
}

/// The mathematical result of an arithmetic operator on two integers.
pub open spec fn spec_arith_int(op: ArithOp, x: int, y: int) -> int {
    match op {
        ArithOp::Add => x + y,
        ArithOp::Sub => x - y,
        ArithOp::Mul => x * y,
        ArithOp::Div => spec_trunc_div(x, y),
    }
}

/// Whether an operator applied at one position can be represented: vacuous
/// when either cell is null, otherwise the divisor must be non-zero (for
/// division) and the result must fit an `i64`.
pub open spec fn arith_cell_ok(op: ArithOp, a: Val, b: Val) -> bool {
    if a is Null || b is Null {
        true
    } else {
        &&& !(op is Div && val_int(b) == 0)
        &&& i64::MIN <= spec_arith_int(op, val_int(a), val_int(b)) <= i64::MAX
    }
}

/// The result cell of an arithmetic operator: null if either operand is null,
/// else the operator applied to the two integers.
pub open spec fn spec_arith_cell(op: ArithOp, a: Val, b: Val) -> Val {
    if a is Null || b is Null {
        Val::Null
    } else {
        Val::Int64(spec_arith_int(op, val_int(a), val_int(b)))
    }
}

/// The result cell of a comparison operator: null if either operand is null,
/// else the boolean outcome.  Equality compares whole values; the ordering
/// operators compare the integer payloads.
pub open spec fn spec_cmp_cell(op: CmpOp, a: Val, b: Val) -> Val {
    if a is Null || b is Null {
        Val::Null
    } else {
        Val::Boolean(
            match op {
                CmpOp::Eq => a == b,
                CmpOp::Neq => a != b,
                CmpOp::Lt => val_int(a) < val_int(b),
                CmpOp::LtEq => val_int(a) <= val_int(b),
                CmpOp::Gt => val_int(a) > val_int(b),
                CmpOp::GtEq => val_int(a) >= val_int(b),
            },
        )
    }
}

/// The boolean payload of a value (false for non-boolean values).
pub open spec fn val_bool(v: Val) -> bool {
    match v {
        Val::Boolean(b) => b,
        _ => false,
    }
}

/// The result cell of a boolean operator: null if either operand is null.
pub open spec fn spec_bool_cell(op: BoolOp, a: Val, b: Val) -> Val {
    if a is Null || b is Null {
        Val::Null
    } else {
        Val::Boolean(
            match op {
                BoolOp::And => val_bool(a) && val_bool(b),
                BoolOp::Or => val_bool(a) || val_bool(b),
            },
        )
    }
}

/// Null propagates through every arithmetic operator: a null operand at a
/// position makes the result at that position null.
pub proof fn lemma_arith_null_propagation(op: ArithOp, a: Val, b: Val)
    requires
        a is Null || b is Null,
    ensures
        spec_arith_cell(op, a, b) is Null,
{
}

/// Null propagates through every comparison operator: a null operand at a
/// position makes the result at that position null.
pub proof fn lemma_cmp_null_propagation(op: CmpOp, a: Val, b: Val)
    requires
        a is Null || b is Null,
    ensures
        spec_cmp_cell(op, a, b) is Null,
{
}

impl Series {
    /// Applies an arithmetic operator cell by cell against another Int64
    /// series.  Fails with `SchemaMismatch` on a length mismatch, with
    /// `InvalidArgument` unless both series are Int64, and with
    /// `ComputationFailure` when some position divides by zero or overflows.
    pub fn arith(&self, other: &Series, op: ArithOp) -> (r: Result<Series, EngineError>)
        requires
            self.wf(),
            other.wf(),
        ensures
            r is Ok <==> {
                &&& self@.values.len() == other@.values.len()
                &&& self@.dtype == Dtype::Int64
                &&& other@.dtype == Dtype::Int64
                &&& forall|i: int|
                    0 <= i < self@.values.len() ==> arith_cell_ok(
                        op,
                        #[trigger] self@.values[i],
                        other@.values[i],
                    )
            },
            r matches Err(e) ==> {
                &&& self@.values.len() != other@.values.len() ==> e is SchemaMismatch
                &&& (self@.values.len() == other@.values.len() && !(self@.dtype == Dtype::Int64
                    && other@.dtype == Dtype::Int64)) ==> e is InvalidArgument
                &&& (self@.values.len() == other@.values.len() && self@.dtype == Dtype::Int64
                    && other@.dtype == Dtype::Int64) ==> e is ComputationFailure
            },
            r matches Ok(s) ==> {
                &&& s.wf()
                &&& s@.name == self@.name
                &&& s@.dtype == Dtype::Int64
                &&& s@.values =~= Seq::new(
                    self@.values.len(),
                    |i: int| spec_arith_cell(op, self@.values[i], other@.values[i]),
                )
            },
    {
        if self.values.len() != other.values.len() {
            return Err(
                EngineError::SchemaMismatch(
                    String::from_str("arithmetic needs series of one length"),
                ),
            );
        }
        if !(self.dtype == Dtype::Int64 && other.dtype == Dtype::Int64) {
            return Err(
                EngineError::InvalidArgument(
                    String::from_str("arithmetic needs two Int64 series"),
                ),
            );
        }
        let mut cells: Vec<TypedValue> = Vec::new();
        let mut i: usize = 0;
        while i < self.values.len()
            invariant
                self.wf(),
                other.wf(),
                self@.dtype == Dtype::Int64,
                other@.dtype == Dtype::Int64,
                self@.values.len() == other@.values.len(),
                i <= self@.values.len(),
                cells@.len() == i,
                forall|j: int|
                    0 <= j < i ==> arith_cell_ok(op, #[trigger] self@.values[j], other@.values[j]),
                forall|j: int|
                    0 <= j < i ==> #[trigger] cells@[j]@ == spec_arith_cell(
                        op,
                        self@.values[j],
                        other@.values[j],
                    ),
            decreases self@.values.len() - i,
        {
            if self.values[i].is_null() || other.values[i].is_null() {
                cells.push(TypedValue::Null);
            } else {
                proof {
                    assert(self@.values[i as int] == self.values@[i as int]@);
                    assert(other@.values[i as int] == other.values@[i as int]@);
                    assert(crate::value::val_matches(self@.values[i as int], self@.dtype));
                    assert(crate::value::val_matches(other@.values[i as int], other@.dtype));
                }
                let x: i64 = match &self.values[i] {
                    TypedValue::Int64(v) => *v,
                    _ => {
                        proof {
                            assert(false);
                        }
                        0
                    },
                };
                let y: i64 = match &other.values[i] {
                    TypedValue::Int64(v) => *v,
                    _ => {
                        proof {
                            assert(false);
                        }
                        0
                    },
                };
                let z: Option<i64> = match op {
                    ArithOp::Add => x.checked_add(y),
                    ArithOp::Sub => x.checked_sub(y),
                    ArithOp::Mul => x.checked_mul(y),
                    ArithOp::Div => x.checked_div(y),
                };
                match z {
                    Some(v) => cells.push(TypedValue::Int64(v)),
                    None => {
                        return Err(
                            EngineError::ComputationFailure(
                                String::from_str(
                                    "arithmetic overflow or division by zero",
                                ),
                            ),
                        );
                    },
                }
            }
            i = i + 1;
        }
        Ok(Series { name: self.name.clone(), dtype: Dtype::Int64, values: cells })
    }

    /// Elementwise addition; see `arith`.
    pub fn add(&self, other: &Series) -> (r: Result<Series, EngineError>)
        requires
            self.wf(),
            other.wf(),
        ensures
            r is Ok <==> (self@.values.len() == other@.values.len() && self@.dtype == Dtype::Int64
                && other@.dtype == Dtype::Int64 && forall|i: int|
                0 <= i < self@.values.len() ==> arith_cell_ok(
                    ArithOp::Add,
                    #[trigger] self@.values[i],
                    other@.values[i],
                )),
            r matches Ok(s) ==> {
                &&& s.wf()
                &&& s@.name == self@.name
                &&& s@.dtype == Dtype::Int64
                &&& s@.values =~= Seq::new(
                    self@.values.len(),
                    |i: int| spec_arith_cell(ArithOp::Add, self@.values[i], other@.values[i]),
                )
            },
    {
        self.arith(other, ArithOp::Add)
    }

    /// Elementwise subtraction; see `arith`.
    pub fn sub(&self, other: &Series) -> (r: Result<Series, EngineError>)
        requires
            self.wf(),
            other.wf(),
        ensures
            r is Ok <==> (self@.values.len() == other@.values.len() && self@.dtype == Dtype::Int64
                && other@.dtype == Dtype::Int64 && forall|i: int|
                0 <= i < self@.values.len() ==> arith_cell_ok(
                    ArithOp::Sub,
                    #[trigger] self@.values[i],
                    other@.values[i],
                )),
            r matches Ok(s) ==> {
                &&& s.wf()
                &&& s@.name == self@.name
                &&& s@.dtype == Dtype::Int64
                &&& s@.values =~= Seq::new(
                    self@.values.len(),
                    |i: int| spec_arith_cell(ArithOp::Sub, self@.values[i], other@.values[i]),
                )
            },
    {
        self.arith(other, ArithOp::Sub)
    }

    /// Elementwise multiplication; see `arith`.
    pub fn mul(&self, other: &Series) -> (r: Result<Series, EngineError>)
        requires
            self.wf(),
            other.wf(),
        ensures
            r is Ok <==> (self@.values.len() == other@.values.len() && self@.dtype == Dtype::Int64
                && other@.dtype == Dtype::Int64 && forall|i: int|
                0 <= i < self@.values.len() ==> arith_cell_ok(
                    ArithOp::Mul,
                    #[trigger] self@.values[i],
                    other@.values[i],
                )),
            r matches Ok(s) ==> {
                &&& s.wf()
                &&& s@.name == self@.name
                &&& s@.dtype == Dtype::Int64
                &&& s@.values =~= Seq::new(
                    self@.values.len(),
                    |i: int| spec_arith_cell(ArithOp::Mul, self@.values[i], other@.values[i]),
                )
            },
    {
        self.arith(other, ArithOp::Mul)
    }

    /// Elementwise division truncating toward zero; see `arith`.
    pub fn div(&self, other: &Series) -> (r: Result<Series, EngineError>)
        requires
            self.wf(),
            other.wf(),
        ensures
            r is Ok <==> (self@.values.len() == other@.values.len() && self@.dtype == Dtype::Int64
                && other@.dtype == Dtype::Int64 && forall|i: int|
                0 <= i < self@.values.len() ==> arith_cell_ok(
                    ArithOp::Div,
                    #[trigger] self@.values[i],
                    other@.values[i],
                )),
            r matches Ok(s) ==> {
                &&& s.wf()
                &&& s@.name == self@.name
                &&& s@.dtype == Dtype::Int64
                &&& s@.values =~= Seq::new(
                    self@.values.len(),
                    |i: int| spec_arith_cell(ArithOp::Div, self@.values[i], other@.values[i]),
                )
            },
    {
        self.arith(other, ArithOp::Div)
    }

    /// Applies a comparison operator cell by cell, yielding a Boolean series
    /// named after this series.  Fails with `SchemaMismatch` on a length
    /// mismatch and with `InvalidArgument` when the dtypes differ, or when an
    /// ordering operator is asked of a dtype that has no order here (only
    /// Int64, Date and Datetime are ordered).
    pub fn compare(&self, other: &Series, op: CmpOp) -> (r: Result<Series, EngineError>)
        requires
            self.wf(),
            other.wf(),
        ensures
            r is Ok <==> {
                &&& self@.values.len() == other@.values.len()
                &&& self@.dtype == other@.dtype
                &&& (op is Eq || op is Neq || self@.dtype == Dtype::Int64 || self@.dtype
                    == Dtype::Date || self@.dtype == Dtype::Datetime)
            },
            r matches Err(e) ==> {
                &&& self@.values.len() != other@.values.len() ==> e is SchemaMismatch
                &&& (self@.values.len() == other@.values.len()) ==> e is InvalidArgument
            },
            r matches Ok(s) ==> {
                &&& s.wf()
                &&& s@.name == self@.name
                &&& s@.dtype == Dtype::Boolean
                &&& s@.values =~= Seq::new(
                    self@.values.len(),
                    |i: int| spec_cmp_cell(op, self@.values[i], other@.values[i]),
                )
            },
    {
        if self.values.len() != other.values.len() {
            return Err(
                EngineError::SchemaMismatch(
                    String::from_str("comparison needs series of one length"),
                ),
            );
        }
        if self.dtype != other.dtype {
            return Err(
                EngineError::InvalidArgument(
                    String::from_str("comparison needs series of one dtype"),
                ),
            );
        }
        let ordered = match op {
            CmpOp::Eq => true,
            CmpOp::Neq => true,
            _ => match self.dtype {
                Dtype::Int64 => true,
                Dtype::Date => true,
                Dtype::Datetime => true,
                _ => false,
            },
        };
        if !ordered {
            return Err(
                EngineError::InvalidArgument(
                    String::from_str("ordering comparison needs an ordered dtype"),
                ),
            );
        }
        let mut cells: Vec<TypedValue> = Vec::new();
        let mut i: usize = 0;
        while i < self.values.len()
            invariant
                self.wf(),
                other.wf(),
                self@.dtype == other@.dtype,
                op is Eq || op is Neq || self@.dtype == Dtype::Int64 || self@.dtype == Dtype::Date
                    || self@.dtype == Dtype::Datetime,
                self@.values.len() == other@.values.len(),
                i <= self@.values.len(),
                cells@.len() == i,
                forall|j: int|
                    0 <= j < i ==> #[trigger] cells@[j]@ == spec_cmp_cell(
                        op,
                        self@.values[j],
                        other@.values[j],
                    ),
            decreases self@.values.len() - i,
        {
            if self.values[i].is_null() || other.values[i].is_null() {
                cells.push(TypedValue::Null);
            } else {
                proof {
                    assert(self@.values[i as int] == self.values@[i as int]@);
                    assert(other@.values[i as int] == other.values@[i as int]@);
                    assert(crate::value::val_matches(self@.values[i as int], self@.dtype));
                    assert(crate::value::val_matches(other@.values[i as int], other@.dtype));
                }
                let b: bool = match op {
                    CmpOp::Eq => crate::value::values_equal(&self.values[i], &other.values[i]),
                    CmpOp::Neq => !crate::value::values_equal(&self.values[i], &other.values[i]),
                    _ => {
                        let x: i64 = int_payload(&self.values[i]);
                        let y: i64 = int_payload(&other.values[i]);
                        match op {
                            CmpOp::Lt => x < y,
                            CmpOp::LtEq => x <= y,
                            CmpOp::Gt => x > y,
                            CmpOp::GtEq => x >= y,
                            _ => {
                                proof {
                                    assert(false);
                                }
                                false
                            },
                        }
                    },
                };
                cells.push(TypedValue::Boolean(b));
            }
            i = i + 1;
        }
        Ok(Series { name: self.name.clone(), dtype: Dtype::Boolean, values: cells })
    }

    /// Applies a boolean operator cell by cell; both series must be Boolean,
    /// else `InvalidArgument`; a length mismatch is a `SchemaMismatch`.
    pub fn bool_logic(&self, other: &Series, op: BoolOp) -> (r: Result<Series, EngineError>)
        requires
            self.wf(),
            other.wf(),
        ensures
            r is Ok <==> (self@.values.len() == other@.values.len() && self@.dtype
                == Dtype::Boolean && other@.dtype == Dtype::Boolean),
            r matches Err(e) ==> {
                &&& self@.values.len() != other@.values.len() ==> e is SchemaMismatch
                &&& (self@.values.len() == other@.values.len()) ==> e is InvalidArgument
            },
            r matches Ok(s) ==> {
                &&& s.wf()
                &&& s@.name == self@.name
                &&& s@.dtype == Dtype::Boolean
                &&& s@.values =~= Seq::new(
                    self@.values.len(),
                    |i: int| spec_bool_cell(op, self@.values[i], other@.values[i]),
                )
            },
    {
        if self.values.len() != other.values.len() {
            return Err(
                EngineError::SchemaMismatch(
                    String::from_str("boolean logic needs series of one length"),
                ),
            );
        }
        if !(self.dtype == Dtype::Boolean && other.dtype == Dtype::Boolean) {
            return Err(
                EngineError::InvalidArgument(
                    String::from_str("boolean logic needs two Boolean series"),
                ),
            );
        }
        let mut cells: Vec<TypedValue> = Vec::new();
        let mut i: usize = 0;
        while i < self.values.len()
            invariant
                self.wf(),
                other.wf(),
                self@.dtype == Dtype::Boolean,
                other@.dtype == Dtype::Boolean,
                self@.values.len() == other@.values.len(),
                i <= self@.values.len(),
                cells@.len() == i,
                forall|j: int|
                    0 <= j < i ==> #[trigger] cells@[j]@ == spec_bool_cell(
                        op,
                        self@.values[j],
                        other@.values[j],
                    ),
            decreases self@.values.len() - i,
        {
            if self.values[i].is_null() || other.values[i].is_null() {
                cells.push(TypedValue::Null);
            } else {
                proof {
                    assert(self@.values[i as int] == self.values@[i as int]@);
                    assert(other@.values[i as int] == other.values@[i as int]@);
                    assert(crate::value::val_matches(self@.values[i as int], self@.dtype));
                    assert(crate::value::val_matches(other@.values[i as int], other@.dtype));
                }
                let x: bool = match &self.values[i] {
                    TypedValue::Boolean(v) => *v,
                    _ => {
                        proof {
                            assert(false);
                        }
                        false
                    },
                };
                let y: bool = match &other.values[i] {
                    TypedValue::Boolean(v) => *v,
                    _ => {
                        proof {
                            assert(false);
                        }
                        false
                    },
                };
                let b = match op {
                    BoolOp::And => x && y,
                    BoolOp::Or => x || y,
                };
                cells.push(TypedValue::Boolean(b));
            }
            i = i + 1;
        }
        Ok(Series { name: self.name.clone(), dtype: Dtype::Boolean, values: cells })
    }
}

/// The integer payload of a non-null cell of an ordered dtype.
pub fn int_payload(v: &TypedValue) -> (r: i64)
    requires
        v@ is Int64 || v@ is Date || v@ is Datetime,
    ensures
        r as int == val_int(v@),
{
    match v {
        TypedValue::Int64(x) => *x,
        TypedValue::Date(x) => *x as i64,
        TypedValue::Datetime(x) => *x,
        _ => {
            proof {
                assert(false);
            }
            0
        },
    }
}

} // verus!
