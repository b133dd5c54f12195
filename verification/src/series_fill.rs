//! Null filling by strategy: carrying the previous or the next seen value.

use vstd::prelude::*;

use crate::error::EngineError;
use crate::series::Series;
use crate::value::{str_eq, val_matches, TypedValue, Val};

verus! {

/// A null-filling strategy.
#[derive(Clone, Copy, PartialEq, Eq, Structural, Debug)]
pub enum FillStrategy {
    /// Replace a null by the nearest non-null cell before it, if any.
    Forward,
    /// Replace a null by the nearest non-null cell after it, if any.
    Backward,
}

impl FillStrategy {
    /// Resolves a strategy name; fails with `InvalidArgument` exactly on an
    /// unknown name.
    pub fn from_name(name: &str) -> (r: Result<FillStrategy, EngineError>)
        ensures
            r is Ok <==> (name@ == "forward"@ || name@ == "backward"@),
            r matches Err(e) ==> e is InvalidArgument,
            r matches Ok(st) ==> st == (if name@ == "forward"@ {
                FillStrategy::Forward
            } else {
                FillStrategy::Backward
            }),
    {
        if str_eq(name, "forward") {
            Ok(FillStrategy::Forward)
        } else if str_eq(name, "backward") {
            Ok(FillStrategy::Backward)
        } else {
            Err(EngineError::InvalidArgument(String::from_str("unknown fill strategy")))
        }
    }
}

/// The last non-null cell of `s`, or null when there is none.
pub open spec fn spec_last_non_null(s: Seq<Val>) -> Val
    decreases s.len(),
{
    if s.len() == 0 {
        Val::Null
    } else if !(s.last() is Null) {
        s.last()
    } else {
        spec_last_non_null(s.drop_last())
    }
}

/// The first non-null cell of `s` at or after position `i`, or null.
pub open spec fn spec_next_non_null(s: Seq<Val>, i: int) -> Val
    decreases s.len() - i,
{
    if i < 0 || i >= s.len() {
        Val::Null
    } else if !(s[i] is Null) {
        s[i]
    } else {
        spec_next_non_null(s, i + 1)
    }
}

/// The cell a fill strategy produces at position `i`.
pub open spec fn spec_fill_cell(st: FillStrategy, s: Seq<Val>, i: int) -> Val {
    if !(s[i] is Null) {
        s[i]
    } else {
        match st {
            FillStrategy::Forward => spec_last_non_null(s.take(i)),
            FillStrategy::Backward => spec_next_non_null(s, i + 1),
        }
    }
}

impl Series {
    /// Replaces each null by the nearest non-null cell before it (forward)
    /// or after it (backward); a null with no such neighbour stays null.
    pub fn fill_none(&self, strategy: FillStrategy) -> (r: Series)
        requires
            self.wf(),
        ensures
            r.wf(),
            r@.name == self@.name,
            r@.dtype == self@.dtype,
            r@.values =~= Seq::new(
                self@.values.len(),
                |i: int| spec_fill_cell(strategy, self@.values, i),
            ),
    {
        let len = self.values.len();
        let mut cells: Vec<TypedValue> = Vec::new();
        match strategy {
            FillStrategy::Forward => {
                let mut carry: Option<TypedValue> = None;
                let mut i: usize = 0;
                while i < len
                    invariant
                        self.wf(),
                        len == self@.values.len(),
                        i <= len,
                        cells@.len() == i,
                        carry matches Some(c) ==> c@ == spec_last_non_null(
                            self@.values.take(i as int),
                        ) && val_matches(c@, self@.dtype) && !(c@ is Null),
                        carry is None ==> spec_last_non_null(self@.values.take(i as int))
                            is Null,
                        forall|j: int|
                            0 <= j < i ==> #[trigger] cells@[j]@ == spec_fill_cell(
                                FillStrategy::Forward,
                                self@.values,
                                j,
                            ),
                        forall|j: int|
                            0 <= j < i ==> val_matches(#[trigger] cells@[j]@, self@.dtype),
                    decreases len - i,
                {
                    proof {
                        assert(self@.values.take(i + 1).drop_last() =~= self@.values.take(
                            i as int,
                        ));
                        assert(self@.values.take(i + 1).last() == self@.values[i as int]);
                        assert(self@.values[i as int] == self.values@[i as int]@);
                        assert(val_matches(self@.values[i as int], self@.dtype));
                    }
                    if self.values[i].is_null() {
                        match &carry {
                            Some(c) => cells.push(c.dup()),
                            None => cells.push(TypedValue::Null),
                        }
                    } else {
                        cells.push(self.values[i].dup());
                        carry = Some(self.values[i].dup());
                    }
                    i = i + 1;
                }
                let r = Series { name: self.name.clone(), dtype: self.dtype, values: cells };
                assert(r@.values =~= Seq::new(
                    self@.values.len(),
                    |i: int| spec_fill_cell(strategy, self@.values, i),
                ));
                r
            },
            FillStrategy::Backward => {
                let mut carry: Option<TypedValue> = None;
                let mut k: usize = 0;
                // Walk from the end, collecting in reverse.
                while k < len
                    invariant
                        self.wf(),
                        len == self@.values.len(),
                        k <= len,
                        cells@.len() == k,
                        carry matches Some(c) ==> c@ == spec_next_non_null(
                            self@.values,
                            len - k,
                        ) && val_matches(c@, self@.dtype) && !(c@ is Null),
                        carry is None ==> spec_next_non_null(self@.values, len - k) is Null,
                        forall|j: int|
                            0 <= j < k ==> #[trigger] cells@[j]@ == spec_fill_cell(
                                FillStrategy::Backward,
                                self@.values,
                                len - 1 - j,
                            ),
                        forall|j: int|
                            0 <= j < k ==> val_matches(#[trigger] cells@[j]@, self@.dtype),
                    decreases len - k,
                {
                    let i = len - 1 - k;
                    proof {
                        assert(self@.values[i as int] == self.values@[i as int]@);
                        assert(val_matches(self@.values[i as int], self@.dtype));
                    }
                    if self.values[i].is_null() {
                        match &carry {
                            Some(c) => cells.push(c.dup()),
                            None => cells.push(TypedValue::Null),
                        }
                    } else {
                        cells.push(self.values[i].dup());
                        carry = Some(self.values[i].dup());
                    }
                    k = k + 1;
                }
                // Reverse into source order.
                let mut out: Vec<TypedValue> = Vec::new();
                let mut j: usize = 0;
                while j < len
                    invariant
                        self.wf(),
                        len == self@.values.len(),
                        cells@.len() == len,
                        forall|x: int|
                            0 <= x < len ==> #[trigger] cells@[x]@ == spec_fill_cell(
                                FillStrategy::Backward,
                                self@.values,
                                len - 1 - x,
                            ),
                        forall|x: int|
                            0 <= x < len ==> val_matches(#[trigger] cells@[x]@, self@.dtype),
                        j <= len,
                        out@.len() == j,
                        forall|x: int|
                            0 <= x < j ==> #[trigger] out@[x]@ == spec_fill_cell(
                                FillStrategy::Backward,
                                self@.values,
                                x,
                            ),
                        forall|x: int|
                            0 <= x < j ==> val_matches(#[trigger] out@[x]@, self@.dtype),
                    decreases len - j,
                {
                    out.push(cells[len - 1 - j].dup());
                    j = j + 1;
                }
                let r = Series { name: self.name.clone(), dtype: self.dtype, values: out };
                assert(r@.values =~= Seq::new(
                    self@.values.len(),
                    |i: int| spec_fill_cell(strategy, self@.values, i),
                ));
                r
            },
        }
    }
}

} // verus!
