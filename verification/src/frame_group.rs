//! Group-by with per-group aggregation.
//!
//! Group keys keep first-occurrence order: the key column of the result is
//! exactly the distinct values of the grouping column, in the order they
//! first appear.

use vstd::prelude::*;

use crate::error::EngineError;
use crate::frame::{spec_height, DataFrame};
use crate::series::{series_wf, Series, SeriesModel};
use crate::series_arith::val_int;
use crate::series_stats::{spec_distinct, spec_fold_max, spec_fold_min, spec_fold_sum};
use crate::value::{str_eq, val_matches, values_equal, Dtype, TypedValue, Val};

verus! {

/// A per-group aggregation.
#[derive(Clone, Copy, PartialEq, Eq, Structural, Debug)]
pub enum AggOp {
    Sum,
    Min,
    Max,
    Count,
    First,
    Last,
}

impl AggOp {
    /// Resolves an aggregation name; fails with `InvalidArgument` exactly on
    /// an unknown name.
    pub fn from_name(name: &str) -> (r: Result<AggOp, EngineError>)
        ensures
            r is Ok <==> (name@ == "sum"@ || name@ == "min"@ || name@ == "max"@ || name@
                == "count"@ || name@ == "first"@ || name@ == "last"@),
            r matches Err(e) ==> e is InvalidArgument,
            r matches Ok(op) ==> op == (if name@ == "sum"@ {
                AggOp::Sum
            } else if name@ == "min"@ {
                AggOp::Min
            } else if name@ == "max"@ {
                AggOp::Max
            } else if name@ == "count"@ {
                AggOp::Count
            } else if name@ == "first"@ {
                AggOp::First
            } else {
                AggOp::Last
            }),
    {
        if str_eq(name, "sum") {
            Ok(AggOp::Sum)
        } else if str_eq(name, "min") {
            Ok(AggOp::Min)
        } else if str_eq(name, "max") {
            Ok(AggOp::Max)
        } else if str_eq(name, "count") {
            Ok(AggOp::Count)
        } else if str_eq(name, "first") {
            Ok(AggOp::First)
        } else if str_eq(name, "last") {
            Ok(AggOp::Last)
        } else {
            Err(EngineError::InvalidArgument(String::from_str("unknown aggregation name")))
        }
    }
}

/// The cells of `values` at the positions where `keys` holds `g`, in order.
pub open spec fn spec_select_where(values: Seq<Val>, keys: Seq<Val>, g: Val) -> Seq<Val>
    decreases values.len(),
{
    if values.len() == 0 {
        Seq::empty()
    } else {
        spec_select_where(values.drop_last(), keys.drop_last(), g) + (if keys.last() == g {
            seq![values.last()]
        } else {
            Seq::empty()
        })
    }
}

/// The aggregate of one group's cells.
pub open spec fn spec_agg_cell(op: AggOp, vals: Seq<Val>) -> Val {
    match op {
        AggOp::Sum => Val::Int64(spec_fold_sum(vals)),
        AggOp::Min => match spec_fold_min(vals) {
            None => Val::Null,
            Some(m) => Val::Int64(m),
        },
        AggOp::Max => match spec_fold_max(vals) {
            None => Val::Null,
            Some(m) => Val::Int64(m),
        },
        AggOp::Count => Val::Int64(vals.len() as int),
        AggOp::First => if vals.len() == 0 {
            Val::Null
        } else {
            vals[0]
        },
        AggOp::Last => if vals.len() == 0 {
            Val::Null
        } else {
            vals.last()
        },
    }
}

/// Whether the aggregate of one group is representable: every running sum of
/// a summed group and the length of a counted group must fit an `i64`.
pub open spec fn spec_agg_ok(op: AggOp, vals: Seq<Val>) -> bool {
    match op {
        AggOp::Sum => forall|k: int|
            0 <= k <= vals.len() ==> i64::MIN <= spec_fold_sum(#[trigger] vals.take(k))
                <= i64::MAX,
        AggOp::Count => vals.len() <= i64::MAX,
        _ => true,
    }
}

/// The name suffix of an aggregation.
pub open spec fn spec_agg_suffix(op: AggOp) -> Seq<char> {
    match op {
        AggOp::Sum => "_sum"@,
        AggOp::Min => "_min"@,
        AggOp::Max => "_max"@,
        AggOp::Count => "_count"@,
        AggOp::First => "_first"@,
        AggOp::Last => "_last"@,
    }
}

/// The column names of a grouped result: the key, then one per aggregation.
pub open spec fn spec_out_names(key: Seq<char>, aggs: Seq<(String, AggOp)>) -> Seq<Seq<char>> {
    Seq::new(
        1 + aggs.len(),
        |x: int|
            if x == 0 {
                key
            } else {
                aggs[x - 1].0@ + spec_agg_suffix(aggs[x - 1].1)
            },
    )
}

/// The cell values of the column named `name` (empty when there is none).
pub open spec fn spec_col_values(cols: Seq<SeriesModel>, name: Seq<char>) -> Seq<Val> {
    if exists|j: int| 0 <= j < cols.len() && (#[trigger] cols[j].name) == name {
        cols[choose|j: int| 0 <= j < cols.len() && (#[trigger] cols[j].name) == name].values
    } else {
        Seq::empty()
    }
}

/// The dtype of the column named `name` (Int64 when there is none).
pub open spec fn spec_col_dtype(cols: Seq<SeriesModel>, name: Seq<char>) -> Dtype {
    if exists|j: int| 0 <= j < cols.len() && (#[trigger] cols[j].name) == name {
        cols[choose|j: int| 0 <= j < cols.len() && (#[trigger] cols[j].name) == name].dtype
    } else {
        Dtype::Int64
    }
}

/// Everything a grouped aggregation needs: the key and every aggregated
/// column exist, a summed, least or greatest column is Int64, every group's
/// aggregate is representable, and the output names collide nowhere.
pub open spec fn spec_group_ok(
    cols: Seq<SeriesModel>,
    key: Seq<char>,
    aggs: Seq<(String, AggOp)>,
) -> bool {
    &&& exists|kc: int| 0 <= kc < cols.len() && (#[trigger] cols[kc].name) == key
    &&& forall|a: int|
        0 <= a < aggs.len() ==> exists|j: int|
            0 <= j < cols.len() && (#[trigger] cols[j].name) == (#[trigger] aggs[a]).0@
    &&& forall|a: int|
        0 <= a < aggs.len() && ((#[trigger] aggs[a]).1 is Sum || aggs[a].1 is Min || aggs[a].1
            is Max) ==> spec_col_dtype(cols, aggs[a].0@) == Dtype::Int64
    &&& forall|a: int, gi: int|
        0 <= a < aggs.len() && 0 <= gi < spec_distinct(spec_col_values(cols, key)).len()
            ==> spec_agg_ok(
            (#[trigger] aggs[a]).1,
            spec_select_where(
                spec_col_values(cols, aggs[a].0@),
                spec_col_values(cols, key),
                #[trigger] spec_distinct(spec_col_values(cols, key))[gi],
            ),
        )
    &&& forall|x: int, y: int|
        0 <= x < y < spec_out_names(key, aggs).len() ==> (#[trigger] spec_out_names(key, aggs)[x])
            != (#[trigger] spec_out_names(key, aggs)[y])
}

/// Aggregates the cells of `col` whose key cell equals `g`.
fn agg_group(col: &Series, keys: &Series, g: &TypedValue, op: AggOp) -> (r: Result<
    TypedValue,
    EngineError,
>)
    requires
        col.wf(),
        col@.values.len() == keys@.values.len(),
        (op is Sum || op is Min || op is Max) ==> col@.dtype == Dtype::Int64,
    ensures
        r is Ok <==> spec_agg_ok(op, spec_select_where(col@.values, keys@.values, g@)),
        r matches Err(e) ==> e is ComputationFailure,
        r matches Ok(v) ==> v@ == spec_agg_cell(
            op,
            spec_select_where(col@.values, keys@.values, g@),
        ),
        r matches Ok(v) ==> val_matches(
            v@,
            if op is First || op is Last {
                col@.dtype
            } else {
                Dtype::Int64
            },
        ),
{
    let ghost sel = spec_select_where(col@.values, keys@.values, g@);
    let mut acc: i64 = 0;
    let mut best: Option<i64> = None;
    let mut cnt: usize = 0;
    let mut first: Option<TypedValue> = None;
    let mut last: Option<TypedValue> = None;
    let mut i: usize = 0;
    while i < col.values.len()
        invariant
            col.wf(),
            col@.values.len() == keys@.values.len(),
            sel == spec_select_where(col@.values, keys@.values, g@),
            (op is Sum || op is Min || op is Max) ==> col@.dtype == Dtype::Int64,
            i <= col@.values.len(),
            cnt <= i,
            op is Sum ==> acc as int == spec_fold_sum(
                spec_select_where(col@.values.take(i as int), keys@.values.take(i as int), g@),
            ),
            op is Sum ==> spec_agg_ok(
                op,
                spec_select_where(col@.values.take(i as int), keys@.values.take(i as int), g@),
            ),
            op is Min ==> (best is Some <==> spec_fold_min(
                spec_select_where(col@.values.take(i as int), keys@.values.take(i as int), g@),
            ) is Some),
            op is Max ==> (best is Some <==> spec_fold_max(
                spec_select_where(col@.values.take(i as int), keys@.values.take(i as int), g@),
            ) is Some),
            op is Min ==> (best matches Some(b) ==> Some(b as int) == spec_fold_min(
                spec_select_where(col@.values.take(i as int), keys@.values.take(i as int), g@),
            )),
            op is Max ==> (best matches Some(b) ==> Some(b as int) == spec_fold_max(
                spec_select_where(col@.values.take(i as int), keys@.values.take(i as int), g@),
            )),
            cnt == spec_select_where(
                col@.values.take(i as int),
                keys@.values.take(i as int),
                g@,
            ).len(),
            first is Some <==> cnt > 0,
            last is Some <==> cnt > 0,
            first matches Some(v) ==> v@ == spec_select_where(
                col@.values.take(i as int),
                keys@.values.take(i as int),
                g@,
            )[0] && val_matches(v@, col@.dtype),
            last matches Some(v) ==> v@ == spec_select_where(
                col@.values.take(i as int),
                keys@.values.take(i as int),
                g@,
            ).last() && val_matches(v@, col@.dtype),
        decreases col@.values.len() - i,
    {
        let ghost prev = spec_select_where(
            col@.values.take(i as int),
            keys@.values.take(i as int),
            g@,
        );
        proof {
            assert(col@.values.take(i + 1).drop_last() =~= col@.values.take(i as int));
            assert(keys@.values.take(i + 1).drop_last() =~= keys@.values.take(i as int));
            assert(col@.values.take(i + 1).last() == col@.values[i as int]);
            assert(keys@.values.take(i + 1).last() == keys@.values[i as int]);
            assert(col@.values[i as int] == col.values@[i as int]@);
            assert(keys@.values[i as int] == keys.values@[i as int]@);
            assert(val_matches(col@.values[i as int], col@.dtype));
        }
        if values_equal(&keys.values[i], g) {
            let ghost cur = col@.values[i as int];
            let ghost ext = prev + seq![cur];
            proof {
                assert(spec_select_where(
                    col@.values.take(i + 1),
                    keys@.values.take(i + 1),
                    g@,
                ) =~= ext);
                assert(ext.drop_last() =~= prev);
                assert(ext.last() == cur);
            }
            let overflowed: bool = if !col.values[i].is_null() {
                let x: i64 = match &col.values[i] {
                    TypedValue::Int64(v) => *v,
                    _ => {
                        proof {
                            if op is Sum || op is Min || op is Max {
                                assert(false);
                            }
                        }
                        0
                    },
                };
                match op {
                    AggOp::Sum => {
                        match acc.checked_add(x) {
                            Some(v) => {
                                acc = v;
                                false
                            },
                            None => true,
                        }
                    },
                    AggOp::Min => {
                        best = match best {
                            None => Some(x),
                            Some(b) => Some(
                                if x < b {
                                    x
                                } else {
                                    b
                                },
                            ),
                        };
                        false
                    },
                    AggOp::Max => {
                        best = match best {
                            None => Some(x),
                            Some(b) => Some(
                                if x > b {
                                    x
                                } else {
                                    b
                                },
                            ),
                        };
                        false
                    },
                    _ => false,
                }
            } else {
                false
            };
            if overflowed {
                proof {
                    assert(op is Sum);
                    assert(spec_fold_sum(ext) == acc as int + val_int(cur));
                    lemma_select_where_prefix(col@.values, keys@.values, g@, i + 1);
                    let b = spec_select_where(
                        col@.values.take(i + 1),
                        keys@.values.take(i + 1),
                        g@,
                    );
                    assert(b == ext);
                    assert(sel.take(b.len() as int) == b);
                    assert(!spec_agg_ok(op, sel));
                }
                return Err(
                    EngineError::ComputationFailure(String::from_str("group sum overflowed")),
                );
            }
            proof {
                if op is Sum {
                    assert forall|k: int|
                        0 <= k <= ext.len() implies i64::MIN <= spec_fold_sum(
                        #[trigger] ext.take(k),
                    ) <= i64::MAX by {
                        if k <= prev.len() {
                            assert(ext.take(k) =~= prev.take(k));
                        } else {
                            assert(ext.take(k) =~= ext);
                        }
                    }
                }
            }
            // Min and Max ignore nulls; Sum adds zero for a null; First,
            // Last and Count see every selected cell.
            if cnt == 0 {
                first = Some(col.values[i].dup());
            }
            last = Some(col.values[i].dup());
            cnt = cnt + 1;
            proof {
                assert(ext[0] == (if prev.len() == 0 {
                    cur
                } else {
                    prev[0]
                }));
            }
        } else {
            proof {
                assert(spec_select_where(
                    col@.values.take(i + 1),
                    keys@.values.take(i + 1),
                    g@,
                ) =~= prev);
            }
        }
        i = i + 1;
    }
    proof {
        assert(col@.values.take(col@.values.len() as int) =~= col@.values);
        assert(keys@.values.take(keys@.values.len() as int) =~= keys@.values);
    }
    match op {
        AggOp::Sum => Ok(TypedValue::Int64(acc)),
        AggOp::Min => match best {
            None => Ok(TypedValue::Null),
            Some(b) => Ok(TypedValue::Int64(b)),
        },
        AggOp::Max => match best {
            None => Ok(TypedValue::Null),
            Some(b) => Ok(TypedValue::Int64(b)),
        },
        AggOp::Count => {
            if cnt as u64 > i64::MAX as u64 {
                return Err(
                    EngineError::ComputationFailure(String::from_str("group count overflowed")),
                );
            }
            Ok(TypedValue::Int64(cnt as i64))
        },
        AggOp::First => match first {
            None => Ok(TypedValue::Null),
            Some(v) => Ok(v),
        },
        AggOp::Last => match last {
            None => Ok(TypedValue::Null),
            Some(v) => Ok(v),
        },
    }
}

/// The selection over a prefix of the rows is a prefix of the selection over
/// all rows.
proof fn lemma_select_where_prefix(values: Seq<Val>, keys: Seq<Val>, g: Val, i: int)
    requires
        values.len() == keys.len(),
        0 <= i <= values.len(),
    ensures
        spec_select_where(values.take(i), keys.take(i), g).len() <= spec_select_where(
            values,
            keys,
            g,
        ).len(),
        spec_select_where(values, keys, g).take(
            spec_select_where(values.take(i), keys.take(i), g).len() as int,
        ) == spec_select_where(values.take(i), keys.take(i), g),
    decreases values.len() - i,
{
    let sel = spec_select_where(values, keys, g);
    let subi = spec_select_where(values.take(i), keys.take(i), g);
    if i < values.len() {
        lemma_select_where_prefix(values, keys, g, i + 1);
        assert(values.take(i + 1).drop_last() =~= values.take(i));
        assert(keys.take(i + 1).drop_last() =~= keys.take(i));
        let subn = spec_select_where(values.take(i + 1), keys.take(i + 1), g);
        assert(subi.len() <= subn.len());
        assert(sel.take(subi.len() as int) =~= subn.take(subi.len() as int)) by {
            assert(sel.take(subn.len() as int) == subn);
            assert(forall|j: int|
                0 <= j < subn.len() ==> sel.take(subn.len() as int)[j] == #[trigger] subn[j]);
        }
        assert(subn.take(subi.len() as int) =~= subi);
        assert(sel.take(subi.len() as int) == subi);
    } else {
        assert(values.take(i) =~= values);
        assert(keys.take(i) =~= keys);
        assert(sel.take(subi.len() as int) =~= subi);
    }
}

impl DataFrame {
    /// Groups by the named column and aggregates the named value columns.
    /// The result holds the distinct group keys in first-occurrence order,
    /// then, for each `(column, op)` pair, a column named after both.
    /// Succeeds exactly under `spec_group_ok`: a missing column is a
    /// `SchemaMismatch`, a summed, least or greatest column that is not
    /// Int64 or a colliding output name is an `InvalidArgument`, and an
    /// unrepresentable sum or count is a `ComputationFailure`.
    pub fn group_by_agg(&self, key: &str, aggs: &Vec<(String, AggOp)>) -> (r: Result<
        DataFrame,
        EngineError,
    >)
        requires
            self.wf(),
        ensures
            r is Ok <==> spec_group_ok(self@, key@, aggs@),
            r matches Ok(d) ==> {
                &&& d.wf()
                &&& d@.len() == 1 + aggs@.len()
                &&& forall|x: int|
                    0 <= x < d@.len() ==> (#[trigger] d@[x].name) == spec_out_names(
                        key@,
                        aggs@,
                    )[x]
                &&& d@[0] == (SeriesModel {
                    name: key@,
                    dtype: spec_col_dtype(self@, key@),
                    values: spec_distinct(spec_col_values(self@, key@)),
                })
                &&& forall|a: int|
                    0 <= a < aggs@.len() ==> (#[trigger] d@[1 + a]).values == Seq::new(
                        spec_distinct(spec_col_values(self@, key@)).len(),
                        |gi: int|
                            spec_agg_cell(
                                aggs@[a].1,
                                spec_select_where(
                                    spec_col_values(self@, aggs@[a].0@),
                                    spec_col_values(self@, key@),
                                    spec_distinct(spec_col_values(self@, key@))[gi],
                                ),
                            ),
                    )
            },
    {
        let keys = match self.column(key) {
            Ok(s) => s,
            Err(e) => {
                proof {
                    assert(!spec_group_ok(self@, key@, aggs@));
                }
                return Err(e);
            },
        };
        proof {
            let kc = choose|kc: int|
                0 <= kc < self@.len() && (#[trigger] self@[kc].name) == key@;
            assert(keys@ == self@[kc]);
            assert(keys@.values == spec_col_values(self@, key@));
            assert(keys@.dtype == spec_col_dtype(self@, key@));
            assert(keys@.values.len() == spec_height(self@));
        }
        // Compute the output names and refuse collisions.
        let mut out_names: Vec<String> = Vec::new();
        out_names.push(keys.name());
        let mut a: usize = 0;
        while a < aggs.len()
            invariant
                a <= aggs@.len(),
                keys@.name == key@,
                out_names@.len() == 1 + a,
                forall|x: int|
                    0 <= x < 1 + a ==> (#[trigger] out_names@[x])@ == spec_out_names(
                        key@,
                        aggs@,
                    )[x],
            decreases aggs@.len() - a,
        {
            let mut n = aggs[a].0.clone();
            n.append(agg_suffix(aggs[a].1).as_str());
            out_names.push(n);
            a = a + 1;
        }
        let mut x: usize = 1;
        while x < out_names.len()
            invariant
                out_names@.len() == 1 + aggs@.len(),
                forall|v: int|
                    0 <= v < out_names@.len() ==> (#[trigger] out_names@[v])@ == spec_out_names(
                        key@,
                        aggs@,
                    )[v],
                x <= out_names@.len(),
                forall|v: int, w: int|
                    0 <= v < w < x ==> (#[trigger] out_names@[v])@ != (#[trigger] out_names@[w])@,
            decreases out_names@.len() - x,
        {
            let mut y: usize = 0;
            while y < x
                invariant
                    out_names@.len() == 1 + aggs@.len(),
                    forall|v: int|
                        0 <= v < out_names@.len() ==> (#[trigger] out_names@[v])@
                            == spec_out_names(key@, aggs@)[v],
                    x < out_names@.len(),
                    y <= x,
                    forall|v: int|
                        0 <= v < y ==> (#[trigger] out_names@[v])@ != out_names@[x as int]@,
                decreases x - y,
            {
                if str_eq(out_names[y].as_str(), out_names[x].as_str()) {
                    proof {
                        assert(out_names@[y as int]@ == out_names@[x as int]@);
                        assert(spec_out_names(key@, aggs@)[y as int] == spec_out_names(
                            key@,
                            aggs@,
                        )[x as int]);
                        assert(!spec_group_ok(self@, key@, aggs@));
                    }
                    return Err(
                        EngineError::InvalidArgument(
                            String::from_str("two result columns would share a name"),
                        ),
                    );
                }
                y = y + 1;
            }
            x = x + 1;
        }
        proof {
            assert forall|v: int, w: int|
                0 <= v < w < spec_out_names(key@, aggs@).len() implies (#[trigger] spec_out_names(
                key@,
                aggs@,
            )[v]) != (#[trigger] spec_out_names(key@, aggs@)[w]) by {
                assert(out_names@[v]@ == spec_out_names(key@, aggs@)[v]);
                assert(out_names@[w]@ == spec_out_names(key@, aggs@)[w]);
                assert(out_names@[v]@ != out_names@[w]@);
            }
        }
        let groups = keys.distinct();
        let mut cols: Vec<Series> = Vec::new();
        cols.push(groups.dup());
        let mut a: usize = 0;
        while a < aggs.len()
            invariant
                self.wf(),
                keys@.name == key@,
                keys@.values == spec_col_values(self@, key@),
                keys@.values.len() == spec_height(self@),
                series_wf(keys@),
                forall|v: int, w: int|
                    0 <= v < w < spec_out_names(key@, aggs@).len() ==> (
                    #[trigger] spec_out_names(key@, aggs@)[v]) != (#[trigger] spec_out_names(
                        key@,
                        aggs@,
                    )[w]),
                groups@.name == key@,
                groups@.dtype == keys@.dtype,
                groups@.values == spec_distinct(spec_col_values(self@, key@)),
                series_wf(groups@),
                a <= aggs@.len(),
                cols@.len() == 1 + a,
                cols@[0]@ == groups@,
                forall|v: int|
                    0 <= v < out_names@.len() ==> (#[trigger] out_names@[v])@ == spec_out_names(
                        key@,
                        aggs@,
                    )[v],
                out_names@.len() == 1 + aggs@.len(),
                forall|v: int|
                    0 <= v < 1 + a ==> (#[trigger] cols@[v]@).name == spec_out_names(
                        key@,
                        aggs@,
                    )[v],
                forall|q: int|
                    0 <= q < a ==> exists|j: int|
                        0 <= j < self@.len() && (#[trigger] self@[j].name) == (
                        #[trigger] aggs@[q]).0@,
                forall|q: int|
                    0 <= q < a && ((#[trigger] aggs@[q]).1 is Sum || aggs@[q].1 is Min
                        || aggs@[q].1 is Max) ==> spec_col_dtype(self@, aggs@[q].0@)
                        == Dtype::Int64,
                forall|q: int, gi: int|
                    0 <= q < a && 0 <= gi < groups@.values.len() ==> spec_agg_ok(
                        (#[trigger] aggs@[q]).1,
                        spec_select_where(
                            spec_col_values(self@, aggs@[q].0@),
                            keys@.values,
                            #[trigger] groups@.values[gi],
                        ),
                    ),
                forall|v: int|
                    0 <= v < 1 + a ==> (#[trigger] cols@[v]@).values.len()
                        == groups@.values.len(),
                forall|v: int| 0 <= v < 1 + a ==> series_wf(#[trigger] cols@[v]@),
                forall|q: int|
                    0 <= q < a ==> (#[trigger] cols@[1 + q]@).values == Seq::new(
                        groups@.values.len(),
                        |gi: int|
                            spec_agg_cell(
                                aggs@[q].1,
                                spec_select_where(
                                    spec_col_values(self@, aggs@[q].0@),
                                    keys@.values,
                                    groups@.values[gi],
                                ),
                            ),
                    ),
            decreases aggs@.len() - a,
        {
            let col = match self.column(aggs[a].0.as_str()) {
                Ok(s) => s,
                Err(e) => {
                    proof {
                        assert(!spec_group_ok(self@, key@, aggs@));
                    }
                    return Err(e);
                },
            };
            proof {
                let j = choose|j: int|
                    0 <= j < self@.len() && (#[trigger] self@[j].name) == aggs@[a as int].0@;
                assert(col@ == self@[j]);
                assert(col@.values == spec_col_values(self@, aggs@[a as int].0@));
                assert(col@.dtype == spec_col_dtype(self@, aggs@[a as int].0@));
                assert(col@.values.len() == spec_height(self@));
            }
            let op = aggs[a].1;
            let needs_int = match op {
                AggOp::Sum => true,
                AggOp::Min => true,
                AggOp::Max => true,
                _ => false,
            };
            if needs_int && col.dtype() != Dtype::Int64 {
                proof {
                    assert(!spec_group_ok(self@, key@, aggs@));
                }
                return Err(
                    EngineError::InvalidArgument(
                        String::from_str("this aggregation needs an Int64 column"),
                    ),
                );
            }
            let mut cells: Vec<TypedValue> = Vec::new();
            let mut gi: usize = 0;
            while gi < groups.values.len()
                invariant
                    self.wf(),
                    col.wf(),
                    col@.values.len() == keys@.values.len(),
                    col@.values == spec_col_values(self@, aggs@[a as int].0@),
                    a < aggs@.len(),
                    op == aggs@[a as int].1,
                    keys@.values == spec_col_values(self@, key@),
                    groups@.values == spec_distinct(spec_col_values(self@, key@)),
                    (op is Sum || op is Min || op is Max) ==> col@.dtype == Dtype::Int64,
                    gi <= groups@.values.len(),
                    cells@.len() == gi,
                    forall|v: int|
                        0 <= v < gi ==> #[trigger] cells@[v]@ == spec_agg_cell(
                            op,
                            spec_select_where(col@.values, keys@.values, groups@.values[v]),
                        ),
                    forall|v: int|
                        0 <= v < gi ==> spec_agg_ok(
                            op,
                            spec_select_where(
                                col@.values,
                                keys@.values,
                                #[trigger] groups@.values[v],
                            ),
                        ),
                    forall|v: int|
                        0 <= v < gi ==> val_matches(
                            #[trigger] cells@[v]@,
                            if op is First || op is Last {
                                col@.dtype
                            } else {
                                Dtype::Int64
                            },
                        ),
                decreases groups@.values.len() - gi,
            {
                proof {
                    assert(groups@.values[gi as int] == groups.values@[gi as int]@);
                }
                match agg_group(&col, &keys, &groups.values[gi], op) {
                    Ok(v) => {
                        cells.push(v);
                    },
                    Err(e) => {
                        proof {
                            assert(!spec_group_ok(self@, key@, aggs@));
                        }
                        return Err(e);
                    },
                }
                gi = gi + 1;
            }
            let out_dtype = match op {
                AggOp::First => col.dtype(),
                AggOp::Last => col.dtype(),
                _ => Dtype::Int64,
            };
            let mut out_name = aggs[a].0.clone();
            out_name.append(agg_suffix(op).as_str());
            let s = Series { name: out_name, dtype: out_dtype, values: cells };
            proof {
                assert(s@.values =~= Seq::new(
                    groups@.values.len(),
                    |v: int|
                        spec_agg_cell(
                            op,
                            spec_select_where(col@.values, keys@.values, groups@.values[v]),
                        ),
                ));
                assert(series_wf(s@));
                assert(s@.name == spec_out_names(key@, aggs@)[1 + a]);
            }
            cols.push(s);
            a = a + 1;
        }
        let d = DataFrame { columns: cols };
        proof {
            assert(spec_group_ok(self@, key@, aggs@));
            assert(d@[0] == (SeriesModel {
                name: key@,
                dtype: spec_col_dtype(self@, key@),
                values: spec_distinct(spec_col_values(self@, key@)),
            }));
            assert forall|v: int, w: int| 0 <= v < w < d@.len() implies (#[trigger] d@[v].name)
                != (#[trigger] d@[w].name) by {
                assert(d@[v].name == spec_out_names(key@, aggs@)[v]);
                assert(d@[w].name == spec_out_names(key@, aggs@)[w]);
            }
            assert forall|v: int| 0 <= v < d@.len() implies (#[trigger] d@[v]).values.len()
                == spec_height(d@) by {}
        }
        Ok(d)
    }
}

/// The suffix appended to an aggregated column's name.
fn agg_suffix(op: AggOp) -> (s: String)
    ensures
        s@ == spec_agg_suffix(op),
{
    proof {
        reveal_strlit("_sum");
        reveal_strlit("_min");
        reveal_strlit("_max");
        reveal_strlit("_count");
        reveal_strlit("_first");
        reveal_strlit("_last");
    }
    match op {
        AggOp::Sum => String::from_str("_sum"),
        AggOp::Min => String::from_str("_min"),
        AggOp::Max => String::from_str("_max"),
        AggOp::Count => String::from_str("_count"),
        AggOp::First => String::from_str("_first"),
        AggOp::Last => String::from_str("_last"),
    }
}


impl DataFrame {
    /// The row indices of each group under the named key column: one
    /// ascending index list per distinct key value, in first-occurrence
    /// order of the keys.  Fails with `SchemaMismatch` exactly when the
    /// column is missing.
    pub fn group_indices(&self, key: &str) -> (r: Result<Vec<Vec<usize>>, EngineError>)
        requires
            self.wf(),
        ensures
            r is Ok <==> exists|kc: int|
                0 <= kc < self@.len() && (#[trigger] self@[kc].name) == key@,
            r matches Err(e) ==> e is SchemaMismatch,
            r matches Ok(v) ==> {
                &&& v@.len() == spec_distinct(spec_col_values(self@, key@)).len()
                &&& forall|g: int|
                    0 <= g < v@.len() ==> (#[trigger] v@[g])@.map_values(|x: usize| x as int)
                        == crate::frame_join::spec_matches_of(
                        spec_col_values(self@, key@),
                        spec_distinct(spec_col_values(self@, key@))[g],
                    )
            },
    {
        let keys = match self.column(key) {
            Ok(s) => s,
            Err(e) => {
                return Err(e);
            },
        };
        proof {
            let kc = choose|kc: int|
                0 <= kc < self@.len() && (#[trigger] self@[kc].name) == key@;
            assert(keys@ == self@[kc]);
            assert(keys@.values == spec_col_values(self@, key@));
        }
        let groups = keys.distinct();
        let mut out: Vec<Vec<usize>> = Vec::new();
        let mut g: usize = 0;
        while g < groups.values.len()
            invariant
                self.wf(),
                keys@.values == spec_col_values(self@, key@),
                groups@.values == spec_distinct(spec_col_values(self@, key@)),
                g <= groups@.values.len(),
                out@.len() == g,
                forall|x: int|
                    0 <= x < g ==> (#[trigger] out@[x])@.map_values(|y: usize| y as int)
                        == crate::frame_join::spec_matches_of(
                        keys@.values,
                        groups@.values[x],
                    ),
            decreases groups@.values.len() - g,
        {
            proof {
                assert(groups@.values[g as int] == groups.values@[g as int]@);
            }
            let mut cur: Vec<usize> = Vec::new();
            let mut i: usize = 0;
            while i < keys.values.len()
                invariant
                    self.wf(),
                    keys@.values == spec_col_values(self@, key@),
                    groups@.values == spec_distinct(spec_col_values(self@, key@)),
                    g < groups@.values.len(),
                    groups@.values[g as int] == groups.values@[g as int]@,
                    i <= keys@.values.len(),
                    cur@.map_values(|y: usize| y as int) =~= crate::frame_join::spec_matches_of(
                        keys@.values.take(i as int),
                        groups@.values[g as int],
                    ),
                decreases keys@.values.len() - i,
            {
                proof {
                    assert(keys@.values.take(i + 1).drop_last() =~= keys@.values.take(i as int));
                    assert(keys@.values.take(i + 1).last() == keys@.values[i as int]);
                    assert(keys@.values[i as int] == keys.values@[i as int]@);
                }
                if values_equal(&keys.values[i], &groups.values[g]) {
                    let ghost before = cur@.map_values(|y: usize| y as int);
                    cur.push(i);
                    proof {
                        assert(cur@.map_values(|y: usize| y as int) =~= before.push(i as int));
                        assert(cur@.map_values(|y: usize| y as int)
                            =~= crate::frame_join::spec_matches_of(
                            keys@.values.take(i + 1),
                            groups@.values[g as int],
                        ));
                    }
                } else {
                    proof {
                        assert(cur@.map_values(|y: usize| y as int)
                            =~= crate::frame_join::spec_matches_of(
                            keys@.values.take(i + 1),
                            groups@.values[g as int],
                        ));
                    }
                }
                i = i + 1;
            }
            proof {
                assert(keys@.values.take(keys@.values.len() as int) =~= keys@.values);
            }
            out.push(cur);
            g = g + 1;
        }
        Ok(out)
    }
}

} // verus!
