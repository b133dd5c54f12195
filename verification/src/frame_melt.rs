//! Reshaping a wide frame into long form.
//!
//! Melting stacks the chosen value columns: for each value column in order,
//! the frame's rows reappear with the identifier cells, the value column's
//! name under `variable`, and its cells under `value`.

use vstd::prelude::*;

use crate::error::EngineError;
use crate::frame::{spec_has_col, spec_height, DataFrame};
use crate::frame_group::{spec_col_dtype, spec_col_values};
use crate::series::{series_wf, Series, SeriesModel};
use crate::value::{str_eq, val_matches, Dtype, TypedValue, Val};

verus! {

/// A cell run repeated `n` times over.
pub open spec fn spec_rep_seq(vals: Seq<Val>, n: int) -> Seq<Val>
    decreases n,
{
    if n <= 0 {
        Seq::empty()
    } else {
        spec_rep_seq(vals, n - 1) + vals
    }
}

/// One value repeated `h` times.
pub open spec fn spec_rep_val(v: Val, h: int) -> Seq<Val>
    decreases h,
{
    if h <= 0 {
        Seq::empty()
    } else {
        spec_rep_val(v, h - 1).push(v)
    }
}

/// The `variable` column: each name, as text, repeated once per row.
pub open spec fn spec_var_col(names: Seq<Seq<char>>, h: int) -> Seq<Val>
    decreases names.len(),
{
    if names.len() == 0 {
        Seq::empty()
    } else {
        spec_var_col(names.drop_last(), h) + spec_rep_val(Val::Utf8(names.last()), h)
    }
}

/// The `value` column: the chosen columns' cells, stacked in order.
pub open spec fn spec_value_col(runs: Seq<Seq<Val>>) -> Seq<Val>
    decreases runs.len(),
{
    if runs.len() == 0 {
        Seq::empty()
    } else {
        spec_value_col(runs.drop_last()) + runs.last()
    }
}

/// Everything a melt needs: every named column exists, no identifier is
/// doubled or named like the two fresh columns, and the value columns share
/// one dtype.
pub open spec fn spec_melt_ok(
    cols: Seq<SeriesModel>,
    ids: Seq<String>,
    vals: Seq<String>,
) -> bool {
    &&& vals.len() >= 1
    &&& forall|k: int| 0 <= k < ids.len() ==> spec_has_col(cols, (#[trigger] ids[k])@)
    &&& forall|k: int| 0 <= k < vals.len() ==> spec_has_col(cols, (#[trigger] vals[k])@)
    &&& forall|a: int, b: int|
        0 <= a < b < ids.len() ==> (#[trigger] ids[a])@ != (#[trigger] ids[b])@
    &&& forall|k: int|
        0 <= k < ids.len() ==> (#[trigger] ids[k])@ != "variable"@ && ids[k]@ != "value"@
    &&& forall|k: int|
        0 <= k < vals.len() ==> spec_col_dtype(cols, (#[trigger] vals[k])@) == spec_col_dtype(
            cols,
            vals[0]@,
        )
}

impl DataFrame {
    /// Reshapes to long form: the identifier columns repeated once per value
    /// column, a `variable` column of the value columns' names, and a
    /// `value` column of their stacked cells.  Succeeds exactly under
    /// `spec_melt_ok`; a missing or doubled column is a `SchemaMismatch`,
    /// value columns of unequal dtypes an `InvalidArgument`.
    pub fn melt(&self, id_vars: &Vec<String>, value_vars: &Vec<String>) -> (r: Result<
        DataFrame,
        EngineError,
    >)
        requires
            self.wf(),
        ensures
            r is Ok <==> spec_melt_ok(self@, id_vars@, value_vars@),
            r matches Err(e) ==> (e is SchemaMismatch || e is InvalidArgument),
            r matches Ok(d) ==> {
                &&& d.wf()
                &&& d@.len() == id_vars@.len() + 2
                &&& forall|k: int|
                    0 <= k < id_vars@.len() ==> (#[trigger] d@[k]) == (SeriesModel {
                        name: id_vars@[k]@,
                        dtype: spec_col_dtype(self@, id_vars@[k]@),
                        values: spec_rep_seq(
                            spec_col_values(self@, id_vars@[k]@),
                            value_vars@.len() as int,
                        ),
                    })
                &&& d@[id_vars@.len() as int] == (SeriesModel {
                    name: "variable"@,
                    dtype: Dtype::Utf8,
                    values: spec_var_col(
                        Seq::new(value_vars@.len(), |v: int| value_vars@[v]@),
                        spec_height(self@),
                    ),
                })
                &&& d@[id_vars@.len() as int + 1] == (SeriesModel {
                    name: "value"@,
                    dtype: spec_col_dtype(self@, value_vars@[0]@),
                    values: spec_value_col(
                        Seq::new(
                            value_vars@.len(),
                            |v: int| spec_col_values(self@, value_vars@[v]@),
                        ),
                    ),
                })
            },
    {
        proof {
            reveal_strlit("variable");
            reveal_strlit("value");
        }
        if value_vars.len() == 0 {
            return Err(
                EngineError::InvalidArgument(
                    String::from_str("melting needs at least one value column"),
                ),
            );
        }
        // Every named column must exist; identifiers must be unique and must
        // not collide with the two fresh columns.
        let mut k: usize = 0;
        while k < id_vars.len()
            invariant
                self.wf(),
                k <= id_vars@.len(),
                forall|x: int| 0 <= x < k ==> spec_has_col(self@, (#[trigger] id_vars@[x])@),
                forall|x: int|
                    0 <= x < k ==> (#[trigger] id_vars@[x])@ != "variable"@ && id_vars@[x]@
                        != "value"@,
                forall|a: int, b: int|
                    0 <= a < b < k ==> (#[trigger] id_vars@[a])@ != (#[trigger] id_vars@[b])@,
            decreases id_vars@.len() - k,
        {
            proof {
                reveal_strlit("variable");
                reveal_strlit("value");
            }
            match self.find_col(id_vars[k].as_str()) {
                Some(j) => {
                    proof {
                        assert(spec_has_col(self@, id_vars@[k as int]@));
                    }
                },
                None => {
                    proof {
                        assert(!spec_has_col(self@, id_vars@[k as int]@)) by {
                            if spec_has_col(self@, id_vars@[k as int]@) {
                                let j = choose|j: int|
                                    0 <= j < self@.len() && (#[trigger] self@[j].name)
                                        == id_vars@[k as int]@;
                                assert(false);
                            }
                        }
                    }
                    return Err(
                        EngineError::SchemaMismatch(
                            String::from_str("an identifier column does not exist"),
                        ),
                    );
                },
            }
            if str_eq(id_vars[k].as_str(), "variable") || str_eq(id_vars[k].as_str(), "value") {
                return Err(
                    EngineError::SchemaMismatch(
                        String::from_str("an identifier bears a reserved melted name"),
                    ),
                );
            }
            let mut b: usize = 0;
            while b < k
                invariant
                    k < id_vars@.len(),
                    b <= k,
                    forall|x: int|
                        0 <= x < b ==> (#[trigger] id_vars@[x])@ != id_vars@[k as int]@,
                decreases k - b,
            {
                if str_eq(id_vars[b].as_str(), id_vars[k].as_str()) {
                    proof {
                        assert(id_vars@[b as int]@ == id_vars@[k as int]@);
                    }
                    return Err(
                        EngineError::SchemaMismatch(
                            String::from_str("an identifier column is doubled"),
                        ),
                    );
                }
                b = b + 1;
            }
            k = k + 1;
        }
        let first = match self.column(value_vars[0].as_str()) {
            Ok(s) => s,
            Err(e) => {
                proof {
                    assert(!spec_has_col(self@, value_vars@[0]@)) by {
                        if spec_has_col(self@, value_vars@[0]@) {
                            let j = choose|j: int|
                                0 <= j < self@.len() && (#[trigger] self@[j].name)
                                    == value_vars@[0]@;
                            assert(false);
                        }
                    }
                }
                return Err(e);
            },
        };
        proof {
            let j = choose|j: int|
                0 <= j < self@.len() && (#[trigger] self@[j].name) == value_vars@[0]@;
            assert(first@ == self@[j]);
            assert(first@.dtype == spec_col_dtype(self@, value_vars@[0]@));
        }
        let shared = first.dtype();
        let h = self.height();
        let nvars = value_vars.len();
        // The value columns must exist and share one dtype; gather the
        // stacked `value` cells and the `variable` names as we check.
        let mut value_cells: Vec<TypedValue> = Vec::new();
        let mut var_cells: Vec<TypedValue> = Vec::new();
        let mut v: usize = 0;
        while v < nvars
            invariant
                self.wf(),
                h == spec_height(self@),
                nvars == value_vars@.len(),
                shared == spec_col_dtype(self@, value_vars@[0]@),
                v <= nvars,
                forall|x: int|
                    0 <= x < v ==> spec_has_col(self@, (#[trigger] value_vars@[x])@),
                forall|x: int|
                    0 <= x < v ==> spec_col_dtype(self@, (#[trigger] value_vars@[x])@)
                        == shared,
                Seq::new(value_cells@.len(), |j: int| value_cells@[j]@) =~= spec_value_col(
                    Seq::new(v as nat, |x: int| spec_col_values(self@, value_vars@[x]@)),
                ),
                forall|j: int|
                    0 <= j < value_cells@.len() ==> val_matches(
                        #[trigger] value_cells@[j]@,
                        shared,
                    ),
                Seq::new(var_cells@.len(), |j: int| var_cells@[j]@) =~= spec_var_col(
                    Seq::new(v as nat, |x: int| value_vars@[x]@),
                    h as int,
                ),
                forall|j: int|
                    0 <= j < var_cells@.len() ==> val_matches(
                        #[trigger] var_cells@[j]@,
                        Dtype::Utf8,
                    ),
            decreases nvars - v,
        {
            let col = match self.column(value_vars[v].as_str()) {
                Ok(s) => s,
                Err(e) => {
                    proof {
                        assert(!spec_has_col(self@, value_vars@[v as int]@)) by {
                            if spec_has_col(self@, value_vars@[v as int]@) {
                                let j = choose|j: int|
                                    0 <= j < self@.len() && (#[trigger] self@[j].name)
                                        == value_vars@[v as int]@;
                                assert(false);
                            }
                        }
                    }
                    return Err(e);
                },
            };
            proof {
                let j = choose|j: int|
                    0 <= j < self@.len() && (#[trigger] self@[j].name) == value_vars@[
                    v as int]@;
                assert(col@ == self@[j]);
                assert(col@.dtype == spec_col_dtype(self@, value_vars@[v as int]@));
                assert(col@.values == spec_col_values(self@, value_vars@[v as int]@));
                assert(col@.values.len() == h);
            }
            if col.dtype() != shared {
                return Err(
                    EngineError::InvalidArgument(
                        String::from_str("melted value columns must share one dtype"),
                    ),
                );
            }
            let ghost vprev = Seq::new(value_cells@.len(), |j: int| value_cells@[j]@);
            let mut r: usize = 0;
            while r < h
                invariant
                    self.wf(),
                    col.wf(),
                    col@.values.len() == h,
                    col@.dtype == shared,
                    r <= h,
                    value_cells@.len() == vprev.len() + r,
                    forall|j: int|
                        0 <= j < vprev.len() ==> #[trigger] value_cells@[j]@ == vprev[j],
                    forall|j: int|
                        vprev.len() <= j < value_cells@.len() ==> #[trigger] value_cells@[j]@
                            == col@.values[j - vprev.len()],
                    forall|j: int|
                        0 <= j < value_cells@.len() ==> val_matches(
                            #[trigger] value_cells@[j]@,
                            shared,
                        ),
                decreases h - r,
            {
                proof {
                    assert(col@.values[r as int] == col.values@[r as int]@);
                    assert(val_matches(col@.values[r as int], col@.dtype));
                }
                value_cells.push(col.values[r].dup());
                r = r + 1;
            }
            let ghost gprev = Seq::new(var_cells@.len(), |j: int| var_cells@[j]@);
            let mut r2: usize = 0;
            while r2 < h
                invariant
                    r2 <= h,
                    v < value_vars@.len(),
                    var_cells@.len() == gprev.len() + r2,
                    forall|j: int|
                        0 <= j < gprev.len() ==> #[trigger] var_cells@[j]@ == gprev[j],
                    forall|j: int|
                        gprev.len() <= j < var_cells@.len() ==> #[trigger] var_cells@[j]@
                            == Val::Utf8(value_vars@[v as int]@),
                decreases h - r2,
            {
                var_cells.push(TypedValue::Utf8(value_vars[v].clone()));
                r2 = r2 + 1;
            }
            proof {
                let names1 = Seq::new((v + 1) as nat, |x: int| value_vars@[x]@);
                assert(names1.drop_last() =~= Seq::new(v as nat, |x: int| value_vars@[x]@));
                assert(names1.last() == value_vars@[v as int]@);
                let runs1 = Seq::new(
                    (v + 1) as nat,
                    |x: int| spec_col_values(self@, value_vars@[x]@),
                );
                assert(runs1.drop_last() =~= Seq::new(
                    v as nat,
                    |x: int| spec_col_values(self@, value_vars@[x]@),
                ));
                assert(runs1.last() == spec_col_values(self@, value_vars@[v as int]@));
                assert(Seq::new(value_cells@.len(), |j: int| value_cells@[j]@)
                    =~= spec_value_col(runs1));
                assert(Seq::new(var_cells@.len(), |j: int| var_cells@[j]@) =~= spec_var_col(
                    names1,
                    h as int,
                )) by {
                    lemma_rep_val_index(Val::Utf8(value_vars@[v as int]@), h as int);
                }
            }
            v = v + 1;
        }
        // Build the output: repeated identifier columns, then the two fresh
        // ones.
        let mut cols: Vec<Series> = Vec::new();
        let mut k2: usize = 0;
        while k2 < id_vars.len()
            invariant
                self.wf(),
                h == spec_height(self@),
                nvars == value_vars@.len(),
                nvars >= 1,
                forall|x: int|
                    0 <= x < id_vars@.len() ==> spec_has_col(self@, (#[trigger] id_vars@[x])@),
                k2 <= id_vars@.len(),
                cols@.len() == k2,
                forall|x: int|
                    0 <= x < k2 ==> #[trigger] cols@[x]@ == (SeriesModel {
                        name: id_vars@[x]@,
                        dtype: spec_col_dtype(self@, id_vars@[x]@),
                        values: spec_rep_seq(
                            spec_col_values(self@, id_vars@[x]@),
                            nvars as int,
                        ),
                    }),
                forall|x: int| 0 <= x < k2 ==> series_wf(#[trigger] cols@[x]@),
                forall|x: int|
                    0 <= x < k2 ==> (#[trigger] cols@[x]@).values.len() == nvars * h,
            decreases id_vars@.len() - k2,
        {
            let col = match self.column(id_vars[k2].as_str()) {
                Ok(s) => s,
                Err(_) => {
                    proof {
                        assert(false);
                    }
                    return Err(EngineError::ComputationFailure(String::new()));
                },
            };
            proof {
                let j = choose|j: int|
                    0 <= j < self@.len() && (#[trigger] self@[j].name) == id_vars@[k2 as int]@;
                assert(col@ == self@[j]);
                assert(col@.dtype == spec_col_dtype(self@, id_vars@[k2 as int]@));
                assert(col@.values == spec_col_values(self@, id_vars@[k2 as int]@));
                assert(col@.values.len() == h);
            }
            let mut cells: Vec<TypedValue> = Vec::new();
            let mut rep: usize = 0;
            while rep < nvars
                invariant
                    self.wf(),
                    col.wf(),
                    col@.values.len() == h,
                    rep <= nvars,
                    cells@.len() == rep * h,
                    Seq::new(cells@.len(), |j: int| cells@[j]@) =~= spec_rep_seq(
                        col@.values,
                        rep as int,
                    ),
                    forall|j: int|
                        0 <= j < cells@.len() ==> val_matches(
                            #[trigger] cells@[j]@,
                            col@.dtype,
                        ),
                decreases nvars - rep,
            {
                let ghost prev = Seq::new(cells@.len(), |j: int| cells@[j]@);
                let mut r: usize = 0;
                while r < h
                    invariant
                        self.wf(),
                        col.wf(),
                        col@.values.len() == h,
                        r <= h,
                        cells@.len() == prev.len() + r,
                        forall|j: int|
                            0 <= j < prev.len() ==> #[trigger] cells@[j]@ == prev[j],
                        forall|j: int|
                            prev.len() <= j < cells@.len() ==> #[trigger] cells@[j]@
                                == col@.values[j - prev.len()],
                        forall|j: int|
                            0 <= j < cells@.len() ==> val_matches(
                                #[trigger] cells@[j]@,
                                col@.dtype,
                            ),
                    decreases h - r,
                {
                    proof {
                        assert(col@.values[r as int] == col.values@[r as int]@);
                        assert(val_matches(col@.values[r as int], col@.dtype));
                    }
                    cells.push(col.values[r].dup());
                    r = r + 1;
                }
                proof {
                    assert(Seq::new(cells@.len(), |j: int| cells@[j]@) =~= spec_rep_seq(
                        col@.values,
                        rep + 1,
                    ));
                    assert(rep * h + h == (rep + 1) * h) by (nonlinear_arith);
                }
                rep = rep + 1;
            }
            let s = Series { name: id_vars[k2].clone(), dtype: col.dtype(), values: cells };
            proof {
                assert(s@.values =~= spec_rep_seq(
                    spec_col_values(self@, id_vars@[k2 as int]@),
                    nvars as int,
                ));
                assert(series_wf(s@));
            }
            cols.push(s);
            k2 = k2 + 1;
        }
        let var_col = Series {
            name: String::from_str("variable"),
            dtype: Dtype::Utf8,
            values: var_cells,
        };
        let value_col = Series { name: String::from_str("value"), dtype: shared, values: value_cells };
        proof {
            assert(series_wf(var_col@));
            assert(series_wf(value_col@));
            assert(var_col@.values.len() == nvars * h) by {
                lemma_var_col_len(
                    Seq::new(nvars as nat, |x: int| value_vars@[x]@),
                    h as int,
                );
            }
            assert(value_col@.values.len() == nvars * h) by {
                lemma_value_col_len(
                    Seq::new(nvars as nat, |x: int| spec_col_values(self@, value_vars@[x]@)),
                    h as int,
                    self@,
                    value_vars@,
                );
            }
        }
        cols.push(var_col);
        cols.push(value_col);
        let d = DataFrame { columns: cols };
        proof {
            assert forall|x: int, y: int| 0 <= x < y < d@.len() implies (#[trigger] d@[x].name)
                != (#[trigger] d@[y].name) by {
                if y < id_vars@.len() {
                    let jx = choose|j: int|
                        0 <= j < self@.len() && (#[trigger] self@[j].name) == id_vars@[x]@;
                    let jy = choose|j: int|
                        0 <= j < self@.len() && (#[trigger] self@[j].name) == id_vars@[y]@;
                    assert(d@[x].name == id_vars@[x]@);
                    assert(d@[y].name == id_vars@[y]@);
                } else if x < id_vars@.len() {
                    assert(d@[x].name == id_vars@[x]@);
                } else {
                    assert(d@[x].name == "variable"@);
                    assert(d@[y].name == "value"@);
                    assert("variable"@.len() != "value"@.len());
                }
            }
            assert forall|x: int| 0 <= x < d@.len() implies (#[trigger] d@[x]).values.len()
                == crate::frame::spec_height(d@) by {
                if d@.len() > 0 {
                    assert(d@[0].values.len() == nvars * h);
                }
                assert(d@[x].values.len() == nvars * h);
            }
        }
        Ok(d)
    }
}

/// The repeated-value run has one entry per repetition.
proof fn lemma_rep_val_index(v: Val, h: int)
    requires
        0 <= h,
    ensures
        spec_rep_val(v, h).len() == h,
        forall|j: int| 0 <= j < h ==> #[trigger] spec_rep_val(v, h)[j] == v,
    decreases h,
{
    if h > 0 {
        lemma_rep_val_index(v, h - 1);
    }
}

/// The `variable` column holds one cell per name and row.
proof fn lemma_var_col_len(names: Seq<Seq<char>>, h: int)
    requires
        0 <= h,
    ensures
        spec_var_col(names, h).len() == names.len() * h,
    decreases names.len(),
{
    if names.len() > 0 {
        lemma_var_col_len(names.drop_last(), h);
        lemma_rep_val_index(Val::Utf8(names.last()), h);
        assert((names.len() - 1) * h + h == names.len() * h) by (nonlinear_arith);
    }
}

/// The `value` column holds one cell per value column and row.
proof fn lemma_value_col_len(
    runs: Seq<Seq<Val>>,
    h: int,
    cols: Seq<SeriesModel>,
    vals: Seq<String>,
)
    requires
        0 <= h,
        forall|x: int| 0 <= x < runs.len() ==> (#[trigger] runs[x]).len() == h,
    ensures
        spec_value_col(runs).len() == runs.len() * h,
    decreases runs.len(),
{
    if runs.len() > 0 {
        assert(forall|x: int|
            0 <= x < runs.len() - 1 ==> (#[trigger] runs.drop_last()[x]).len() == h);
        lemma_value_col_len(runs.drop_last(), h, cols, vals);
        assert((runs.len() - 1) * h + h == runs.len() * h) by (nonlinear_arith);
    }
}

} // verus!
