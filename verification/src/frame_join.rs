//! Joins of two frames on one named key column each.
//!
//! The join is specified by a row-pair list: each output row names a left
//! row, a right row, or both.  Inner keeps the matching pairs, left keeps
//! every left row, outer also appends the unmatched right rows, and cross
//! pairs everything with everything.  Null enters where a side has no row.

use vstd::prelude::*;

use crate::error::EngineError;
use crate::frame::{spec_height, DataFrame};
use crate::series::{series_wf, Series, SeriesModel};
use crate::value::{str_eq, val_matches, values_equal, TypedValue, Val};

verus! {

/// How two frames are joined.
#[derive(Clone, Copy, PartialEq, Eq, Structural, Debug)]
pub enum JoinHow {
    Inner,
    Left,
    Outer,
    Cross,
}

impl JoinHow {
    /// Resolves a join name; fails with `InvalidArgument` exactly on an
    /// unknown name.
    pub fn from_name(name: &str) -> (r: Result<JoinHow, EngineError>)
        ensures
            r is Ok <==> (name@ == "inner"@ || name@ == "left"@ || name@ == "outer"@ || name@
                == "cross"@),
            r matches Err(e) ==> e is InvalidArgument,
            r matches Ok(h) ==> h == (if name@ == "inner"@ {
                JoinHow::Inner
            } else if name@ == "left"@ {
                JoinHow::Left
            } else if name@ == "outer"@ {
                JoinHow::Outer
            } else {
                JoinHow::Cross
            }),
    {
        if str_eq(name, "inner") {
            Ok(JoinHow::Inner)
        } else if str_eq(name, "left") {
            Ok(JoinHow::Left)
        } else if str_eq(name, "outer") {
            Ok(JoinHow::Outer)
        } else if str_eq(name, "cross") {
            Ok(JoinHow::Cross)
        } else {
            Err(EngineError::InvalidArgument(String::from_str("unknown join kind")))
        }
    }
}

/// The ascending indices of the right key cells equal to `v`.
pub open spec fn spec_matches_of(rk: Seq<Val>, v: Val) -> Seq<int>
    decreases rk.len(),
{
    if rk.len() == 0 {
        Seq::empty()
    } else {
        spec_matches_of(rk.drop_last(), v) + (if rk.last() == v {
            seq![rk.len() - 1]
        } else {
            Seq::empty()
        })
    }
}

/// The row pairs of an inner join: for each left row in order, the matching
/// right rows in order.
pub open spec fn spec_inner_pairs(lk: Seq<Val>, rk: Seq<Val>) -> Seq<(int, int)>
    decreases lk.len(),
{
    if lk.len() == 0 {
        Seq::empty()
    } else {
        spec_inner_pairs(lk.drop_last(), rk) + spec_matches_of(rk, lk.last()).map_values(
            |j: int| (lk.len() - 1, j),
        )
    }
}

/// The row pairs of a left join: as inner, but a left row without a match
/// keeps one row, paired with no right row.
pub open spec fn spec_left_pairs(lk: Seq<Val>, rk: Seq<Val>) -> Seq<(int, int)>
    decreases lk.len(),
{
    if lk.len() == 0 {
        Seq::empty()
    } else {
        spec_left_pairs(lk.drop_last(), rk) + (if spec_matches_of(rk, lk.last()).len() == 0 {
            seq![(lk.len() - 1, -1int)]
        } else {
            spec_matches_of(rk, lk.last()).map_values(|j: int| (lk.len() - 1, j))
        })
    }
}

/// The rows appended by an outer join: each right row whose key no left row
/// holds, paired with no left row.
pub open spec fn spec_right_only_pairs(lk: Seq<Val>, rk: Seq<Val>) -> Seq<(int, int)>
    decreases rk.len(),
{
    if rk.len() == 0 {
        Seq::empty()
    } else {
        spec_right_only_pairs(lk, rk.drop_last()) + (if !lk.contains(rk.last()) {
            seq![(-1int, rk.len() - 1)]
        } else {
            Seq::empty()
        })
    }
}

/// The row pairs of a cross join: every left row with every right row.
pub open spec fn spec_cross_pairs(ln: int, rn: int) -> Seq<(int, int)>
    decreases ln,
{
    if ln <= 0 {
        Seq::empty()
    } else {
        spec_cross_pairs(ln - 1, rn) + Seq::new(rn as nat, |j: int| (ln - 1, j))
    }
}

/// The row pairs of a join.
pub open spec fn spec_join_pairs(how: JoinHow, lk: Seq<Val>, rk: Seq<Val>) -> Seq<(int, int)> {
    match how {
        JoinHow::Inner => spec_inner_pairs(lk, rk),
        JoinHow::Left => spec_left_pairs(lk, rk),
        JoinHow::Outer => spec_left_pairs(lk, rk) + spec_right_only_pairs(lk, rk),
        JoinHow::Cross => spec_cross_pairs(lk.len() as int, rk.len() as int),
    }
}

/// A left-side column gathered along the pairs; null where a row has no left
/// side.
pub open spec fn spec_gather_left(values: Seq<Val>, pairs: Seq<(int, int)>) -> Seq<Val> {
    Seq::new(
        pairs.len(),
        |p: int|
            if pairs[p].0 == -1 {
                Val::Null
            } else {
                values[pairs[p].0]
            },
    )
}

/// A right-side column gathered along the pairs; null where a row has no
/// right side.
pub open spec fn spec_gather_right(values: Seq<Val>, pairs: Seq<(int, int)>) -> Seq<Val> {
    Seq::new(
        pairs.len(),
        |p: int|
            if pairs[p].1 == -1 {
                Val::Null
            } else {
                values[pairs[p].1]
            },
    )
}

/// The key column gathered along the pairs: the left key where a left row
/// exists, else the right key.
pub open spec fn spec_gather_key(lk: Seq<Val>, rk: Seq<Val>, pairs: Seq<(int, int)>) -> Seq<
    Val,
> {
    Seq::new(
        pairs.len(),
        |p: int|
            if pairs[p].0 == -1 {
                rk[pairs[p].1]
            } else {
                lk[pairs[p].0]
            },
    )
}

/// Every pair names a left row below `ln` or none, a right row below `rn` or
/// none, and at least one of the two.
pub open spec fn spec_pairs_ok(pairs: Seq<(int, int)>, ln: int, rn: int) -> bool {
    forall|p: int|
        0 <= p < pairs.len() ==> {
            &&& (-1 <= (#[trigger] pairs[p]).0 < ln)
            &&& (-1 <= pairs[p].1 < rn)
            &&& (pairs[p].0 != -1 || pairs[p].1 != -1)
        }
}

/// The name a right-side column takes in the joined frame: suffixed when a
/// left column already bears it.
pub open spec fn spec_right_out_name(l: Seq<SeriesModel>, name: Seq<char>) -> Seq<char> {
    if exists|j: int| 0 <= j < l.len() && (#[trigger] l[j].name) == name {
        name + "_right"@
    } else {
        name
    }
}

/// The columns of a joined frame: the left columns (the key gathered from
/// both sides), then the right columns but its key, renamed where needed.
pub open spec fn spec_join_cols(
    l: Seq<SeriesModel>,
    r: Seq<SeriesModel>,
    lki: int,
    rki: int,
    pairs: Seq<(int, int)>,
) -> Seq<SeriesModel> {
    Seq::new(
        (l.len() + r.len() - 1) as nat,
        |c: int|
            if c < l.len() {
                SeriesModel {
                    name: l[c].name,
                    dtype: l[c].dtype,
                    values: if c == lki {
                        spec_gather_key(l[lki].values, r[rki].values, pairs)
                    } else {
                        spec_gather_left(l[c].values, pairs)
                    },
                }
            } else {
                let rc = if c - l.len() < rki {
                    c - l.len()
                } else {
                    c - l.len() + 1
                };
                SeriesModel {
                    name: spec_right_out_name(l, r[rc].name),
                    dtype: r[rc].dtype,
                    values: spec_gather_right(r[rc].values, pairs),
                }
            },
    )
}

/// The view of one built row pair.
pub open spec fn pair_view(p: (Option<usize>, Option<usize>)) -> (int, int) {
    (
        match p.0 {
            Some(i) => i as int,
            None => -1,
        },
        match p.1 {
            Some(j) => j as int,
            None => -1,
        },
    )
}

/// The view of a built row-pair list.
pub open spec fn pairs_view(pairs: Seq<(Option<usize>, Option<usize>)>) -> Seq<(int, int)> {
    pairs.map_values(|p: (Option<usize>, Option<usize>)| pair_view(p))
}

/// Builds the row-pair list of a join of two key columns.
fn build_pairs(how: JoinHow, lk: &Series, rk: &Series) -> (r: Vec<
    (Option<usize>, Option<usize>),
>)
    ensures
        pairs_view(r@) == spec_join_pairs(how, lk@.values, rk@.values),
        spec_pairs_ok(
            pairs_view(r@),
            lk@.values.len() as int,
            rk@.values.len() as int,
        ),
{
    let ghost lkv = lk@.values;
    let ghost rkv = rk@.values;
    let ln = lk.values.len();
    let rn = rk.values.len();
    let mut pairs: Vec<(Option<usize>, Option<usize>)> = Vec::new();
    match how {
        JoinHow::Cross => {
            let mut i: usize = 0;
            while i < ln
                invariant
                    lkv == lk@.values,
                    rkv == rk@.values,
                    ln == lkv.len(),
                    rn == rkv.len(),
                    i <= ln,
                    pairs_view(pairs@) == spec_cross_pairs(i as int, rn as int),
                    spec_pairs_ok(pairs_view(pairs@), ln as int, rn as int),
                decreases ln - i,
            {
                let mut j: usize = 0;
                while j < rn
                    invariant
                        lkv == lk@.values,
                        rkv == rk@.values,
                        ln == lkv.len(),
                        rn == rkv.len(),
                        i < ln,
                        j <= rn,
                        pairs_view(pairs@) =~= spec_cross_pairs(i as int, rn as int) + Seq::new(
                            j as nat,
                            |m: int| (i as int, m),
                        ),
                        spec_pairs_ok(pairs_view(pairs@), ln as int, rn as int),
                    decreases rn - j,
                {
                    let ghost pv0 = pairs_view(pairs@);
                    pairs.push((Some(i), Some(j)));
                    proof {
                        assert(pairs_view(pairs@) =~= pv0 + seq![
                            pair_view((Some(i as usize), Some(j as usize))),
                        ]);
                        assert(pairs_view(pairs@) =~= spec_cross_pairs(i as int, rn as int)
                            + Seq::new((j + 1) as nat, |m: int| (i as int, m)));
                    }
                    j = j + 1;
                }
                assert(pairs_view(pairs@) =~= spec_cross_pairs(i + 1, rn as int));
                i = i + 1;
            }
        },
        _ => {
            let left_kind = match how {
                JoinHow::Inner => false,
                _ => true,
            };
            let mut i: usize = 0;
            while i < ln
                invariant
                    lkv == lk@.values,
                    rkv == rk@.values,
                    ln == lkv.len(),
                    rn == rkv.len(),
                    left_kind == !(how is Inner),
                    i <= ln,
                    !left_kind ==> pairs_view(pairs@) == spec_inner_pairs(
                        lkv.take(i as int),
                        rkv,
                    ),
                    left_kind ==> pairs_view(pairs@) == spec_left_pairs(
                        lkv.take(i as int),
                        rkv,
                    ),
                    spec_pairs_ok(pairs_view(pairs@), ln as int, rn as int),
                decreases ln - i,
            {
                proof {
                    assert(lkv[i as int] == lk.values@[i as int]@);
                }
                let ghost before = pairs_view(pairs@);
                let mut any = false;
                let mut j: usize = 0;
                while j < rn
                    invariant
                        lkv == lk@.values,
                        rkv == rk@.values,
                        ln == lkv.len(),
                        rn == rkv.len(),
                        i < ln,
                        j <= rn,
                        lkv[i as int] == lk.values@[i as int]@,
                        any == (spec_matches_of(rkv.take(j as int), lkv[i as int]).len() > 0),
                        pairs_view(pairs@) =~= before + spec_matches_of(
                            rkv.take(j as int),
                            lkv[i as int],
                        ).map_values(|m: int| (i as int, m)),
                        spec_pairs_ok(pairs_view(pairs@), ln as int, rn as int),
                    decreases rn - j,
                {
                    proof {
                        assert(rkv.take(j + 1).drop_last() =~= rkv.take(j as int));
                        assert(rkv.take(j + 1).last() == rkv[j as int]);
                        assert(rkv[j as int] == rk.values@[j as int]@);
                    }
                    if values_equal(&lk.values[i], &rk.values[j]) {
                        let ghost pv0 = pairs_view(pairs@);
                        pairs.push((Some(i), Some(j)));
                        proof {
                            assert(pairs_view(pairs@) =~= pv0 + seq![
                                pair_view((Some(i as usize), Some(j as usize))),
                            ]);
                            let m0 = spec_matches_of(rkv.take(j as int), lkv[i as int]);
                            let m1 = spec_matches_of(rkv.take(j + 1), lkv[i as int]);
                            assert(m1 =~= m0 + seq![j as int]);
                            assert(m1.map_values(|m: int| (i as int, m)) =~= m0.map_values(
                                |m: int| (i as int, m),
                            ) + seq![(i as int, j as int)]);
                            assert(pairs_view(pairs@) =~= before + m1.map_values(
                                |m: int| (i as int, m),
                            ));
                        }
                        any = true;
                    } else {
                        proof {
                            assert(spec_matches_of(rkv.take(j + 1), lkv[i as int])
                                =~= spec_matches_of(rkv.take(j as int), lkv[i as int]));
                        }
                    }
                    j = j + 1;
                }
                proof {
                    assert(rkv.take(rn as int) =~= rkv);
                    assert(lkv.take(i + 1).drop_last() =~= lkv.take(i as int));
                    assert(lkv.take(i + 1).last() == lkv[i as int]);
                }
                if left_kind && !any {
                    let ghost pv0 = pairs_view(pairs@);
                    pairs.push((Some(i), None));
                    proof {
                        assert(pairs_view(pairs@) =~= pv0 + seq![
                            pair_view((Some(i as usize), None)),
                        ]);
                        assert(pairs_view(pairs@) =~= spec_left_pairs(lkv.take(i + 1), rkv));
                    }
                } else {
                    proof {
                        if left_kind {
                            assert(pairs_view(pairs@) =~= spec_left_pairs(
                                lkv.take(i + 1),
                                rkv,
                            ));
                        } else {
                            assert(pairs_view(pairs@) =~= spec_inner_pairs(
                                lkv.take(i + 1),
                                rkv,
                            ));
                        }
                    }
                }
                i = i + 1;
            }
            proof {
                assert(lkv.take(ln as int) =~= lkv);
            }
            if how == JoinHow::Outer {
                let ghost before = pairs_view(pairs@);
                let mut j: usize = 0;
                while j < rn
                    invariant
                        lkv == lk@.values,
                        rkv == rk@.values,
                        ln == lkv.len(),
                        rn == rkv.len(),
                        j <= rn,
                        before == spec_left_pairs(lkv, rkv),
                        pairs_view(pairs@) =~= before + spec_right_only_pairs(
                            lkv,
                            rkv.take(j as int),
                        ),
                        spec_pairs_ok(pairs_view(pairs@), ln as int, rn as int),
                    decreases rn - j,
                {
                    proof {
                        assert(rkv.take(j + 1).drop_last() =~= rkv.take(j as int));
                        assert(rkv.take(j + 1).last() == rkv[j as int]);
                        assert(rkv[j as int] == rk.values@[j as int]@);
                    }
                    if !crate::series_stats::cells_contain(&lk.values, &rk.values[j]) {
                        proof {
                            assert(Seq::new(lk.values@.len(), |x: int| lk.values@[x]@)
                                =~= lkv);
                        }
                        let ghost pv0 = pairs_view(pairs@);
                        pairs.push((None, Some(j)));
                        proof {
                            assert(pairs_view(pairs@) =~= pv0 + seq![
                                pair_view((None, Some(j as usize))),
                            ]);
                            assert(pairs_view(pairs@) =~= before + spec_right_only_pairs(
                                lkv,
                                rkv.take(j + 1),
                            ));
                        }
                    } else {
                        proof {
                            assert(Seq::new(lk.values@.len(), |x: int| lk.values@[x]@)
                                =~= lkv);
                            assert(spec_right_only_pairs(lkv, rkv.take(j + 1))
                                =~= spec_right_only_pairs(lkv, rkv.take(j as int)));
                        }
                    }
                    j = j + 1;
                }
                proof {
                    assert(rkv.take(rn as int) =~= rkv);
                }
            }
        },
    }
    pairs
}

/// Gathers a left-side column's cells along the pairs.
fn gather_left_cells(col: &Series, pairs: &Vec<(Option<usize>, Option<usize>)>) -> (r: Vec<
    TypedValue,
>)
    requires
        col.wf(),
        forall|p: int|
            0 <= p < pairs@.len() ==> ((#[trigger] pairs@[p]).0 matches Some(x) ==> x
                < col@.values.len()),
    ensures
        Seq::new(r@.len(), |p: int| r@[p]@) =~= spec_gather_left(
            col@.values,
            pairs_view(pairs@),
        ),
        r@.len() == pairs@.len(),
        forall|p: int| 0 <= p < r@.len() ==> val_matches(#[trigger] r@[p]@, col@.dtype),
{
    let mut cells: Vec<TypedValue> = Vec::new();
    let mut p: usize = 0;
    while p < pairs.len()
        invariant
            col.wf(),
            forall|q: int|
                0 <= q < pairs@.len() ==> ((#[trigger] pairs@[q]).0 matches Some(x) ==> x
                    < col@.values.len()),
            p <= pairs@.len(),
            cells@.len() == p,
            forall|q: int|
                0 <= q < p ==> #[trigger] cells@[q]@ == (if pair_view(pairs@[q]).0 == -1 {
                    Val::Null
                } else {
                    col@.values[pair_view(pairs@[q]).0]
                }),
            forall|q: int| 0 <= q < p ==> val_matches(#[trigger] cells@[q]@, col@.dtype),
        decreases pairs@.len() - p,
    {
        match pairs[p].0 {
            Some(i) => {
                proof {
                    assert(col@.values[i as int] == col.values@[i as int]@);
                    assert(val_matches(col@.values[i as int], col@.dtype));
                }
                cells.push(col.values[i].dup());
            },
            None => {
                cells.push(TypedValue::Null);
            },
        }
        p = p + 1;
    }
    cells
}

/// Gathers a right-side column's cells along the pairs.
fn gather_right_cells(col: &Series, pairs: &Vec<(Option<usize>, Option<usize>)>) -> (r: Vec<
    TypedValue,
>)
    requires
        col.wf(),
        forall|p: int|
            0 <= p < pairs@.len() ==> ((#[trigger] pairs@[p]).1 matches Some(x) ==> x
                < col@.values.len()),
    ensures
        Seq::new(r@.len(), |p: int| r@[p]@) =~= spec_gather_right(
            col@.values,
            pairs_view(pairs@),
        ),
        r@.len() == pairs@.len(),
        forall|p: int| 0 <= p < r@.len() ==> val_matches(#[trigger] r@[p]@, col@.dtype),
{
    let mut cells: Vec<TypedValue> = Vec::new();
    let mut p: usize = 0;
    while p < pairs.len()
        invariant
            col.wf(),
            forall|q: int|
                0 <= q < pairs@.len() ==> ((#[trigger] pairs@[q]).1 matches Some(x) ==> x
                    < col@.values.len()),
            p <= pairs@.len(),
            cells@.len() == p,
            forall|q: int|
                0 <= q < p ==> #[trigger] cells@[q]@ == (if pair_view(pairs@[q]).1 == -1 {
                    Val::Null
                } else {
                    col@.values[pair_view(pairs@[q]).1]
                }),
            forall|q: int| 0 <= q < p ==> val_matches(#[trigger] cells@[q]@, col@.dtype),
        decreases pairs@.len() - p,
    {
        match pairs[p].1 {
            Some(i) => {
                proof {
                    assert(col@.values[i as int] == col.values@[i as int]@);
                    assert(val_matches(col@.values[i as int], col@.dtype));
                }
                cells.push(col.values[i].dup());
            },
            None => {
                cells.push(TypedValue::Null);
            },
        }
        p = p + 1;
    }
    cells
}

/// Gathers the key column's cells along the pairs, from whichever side a row
/// has.
fn gather_key_cells(
    lkcol: &Series,
    rkcol: &Series,
    pairs: &Vec<(Option<usize>, Option<usize>)>,
) -> (r: Vec<TypedValue>)
    requires
        lkcol.wf(),
        rkcol.wf(),
        lkcol@.dtype == rkcol@.dtype,
        forall|p: int|
            0 <= p < pairs@.len() ==> {
                &&& ((#[trigger] pairs@[p]).0 matches Some(x) ==> x < lkcol@.values.len())
                &&& (pairs@[p].1 matches Some(x) ==> x < rkcol@.values.len())
                &&& (pairs@[p].0 is Some || pairs@[p].1 is Some)
            },
    ensures
        Seq::new(r@.len(), |p: int| r@[p]@) =~= spec_gather_key(
            lkcol@.values,
            rkcol@.values,
            pairs_view(pairs@),
        ),
        r@.len() == pairs@.len(),
        forall|p: int| 0 <= p < r@.len() ==> val_matches(#[trigger] r@[p]@, lkcol@.dtype),
{
    let mut cells: Vec<TypedValue> = Vec::new();
    let mut p: usize = 0;
    while p < pairs.len()
        invariant
            lkcol.wf(),
            rkcol.wf(),
            lkcol@.dtype == rkcol@.dtype,
            forall|q: int|
                0 <= q < pairs@.len() ==> {
                    &&& ((#[trigger] pairs@[q]).0 matches Some(x) ==> x < lkcol@.values.len())
                    &&& (pairs@[q].1 matches Some(x) ==> x < rkcol@.values.len())
                    &&& (pairs@[q].0 is Some || pairs@[q].1 is Some)
                },
            p <= pairs@.len(),
            cells@.len() == p,
            forall|q: int|
                0 <= q < p ==> #[trigger] cells@[q]@ == (if pair_view(pairs@[q]).0 == -1 {
                    rkcol@.values[pair_view(pairs@[q]).1]
                } else {
                    lkcol@.values[pair_view(pairs@[q]).0]
                }),
            forall|q: int| 0 <= q < p ==> val_matches(#[trigger] cells@[q]@, lkcol@.dtype),
        decreases pairs@.len() - p,
    {
        match pairs[p].0 {
            Some(i) => {
                proof {
                    assert(lkcol@.values[i as int] == lkcol.values@[i as int]@);
                    assert(val_matches(lkcol@.values[i as int], lkcol@.dtype));
                }
                cells.push(lkcol.values[i].dup());
            },
            None => {
                let j = match pairs[p].1 {
                    Some(j) => j,
                    None => {
                        proof {
                            assert(false);
                        }
                        0
                    },
                };
                proof {
                    assert(rkcol@.values[j as int] == rkcol.values@[j as int]@);
                    assert(val_matches(rkcol@.values[j as int], rkcol@.dtype));
                }
                cells.push(rkcol.values[j].dup());
            },
        }
        p = p + 1;
    }
    cells
}

/// The column names of a joined frame.
pub open spec fn spec_join_names(l: Seq<SeriesModel>, r: Seq<SeriesModel>, rki: int) -> Seq<
    Seq<char>,
> {
    Seq::new(
        (l.len() + r.len() - 1) as nat,
        |c: int|
            if c < l.len() {
                l[c].name
            } else {
                spec_right_out_name(
                    l,
                    r[if c - l.len() < rki {
                        c - l.len()
                    } else {
                        c - l.len() + 1
                    }].name,
                )
            },
    )
}

/// Everything a join needs: both key columns exist, their dtypes agree, and
/// the output names collide nowhere.
pub open spec fn spec_join_ok(
    l: Seq<SeriesModel>,
    r: Seq<SeriesModel>,
    on_left: Seq<char>,
    on_right: Seq<char>,
) -> bool {
    &&& exists|i: int| 0 <= i < l.len() && (#[trigger] l[i].name) == on_left
    &&& exists|j: int| 0 <= j < r.len() && (#[trigger] r[j].name) == on_right
    &&& crate::frame_group::spec_col_dtype(l, on_left) == crate::frame_group::spec_col_dtype(
        r,
        on_right,
    )
    &&& forall|rki: int, x: int, y: int|
        (0 <= rki < r.len() && r[rki].name == on_right && 0 <= x < y < spec_join_names(
            l,
            r,
            rki,
        ).len()) ==> (#[trigger] spec_join_names(l, r, rki)[x]) != (#[trigger] spec_join_names(
            l,
            r,
            rki,
        )[y])
}

impl DataFrame {
    /// Joins another frame on one named key column each.  The result keeps
    /// this frame's columns (the key gathered from whichever side a row has)
    /// and then the other frame's columns but its key, suffixed with
    /// `_right` where a name collides.  Succeeds exactly under
    /// `spec_join_ok`; every failure is a `SchemaMismatch`.
    pub fn join(&self, other: &DataFrame, on_left: &str, on_right: &str, how: JoinHow) -> (r:
        Result<DataFrame, EngineError>)
        requires
            self.wf(),
            other.wf(),
        ensures
            r is Ok <==> spec_join_ok(self@, other@, on_left@, on_right@),
            r matches Err(e) ==> e is SchemaMismatch,
            r matches Ok(d) ==> {
                &&& d.wf()
                &&& forall|lki: int, rki: int|
                    (0 <= lki < self@.len() && (#[trigger] self@[lki].name) == on_left@ && 0
                        <= rki < other@.len() && (#[trigger] other@[rki].name) == on_right@)
                        ==> d@ == spec_join_cols(
                        self@,
                        other@,
                        lki,
                        rki,
                        spec_join_pairs(how, self@[lki].values, other@[rki].values),
                    )
            },
    {
        let lki = match self.find_col(on_left) {
            Some(i) => i,
            None => {
                proof {
                    assert(!spec_join_ok(self@, other@, on_left@, on_right@));
                }
                return Err(
                    EngineError::SchemaMismatch(
                        String::from_str("the left key column does not exist"),
                    ),
                );
            },
        };
        let rki = match other.find_col(on_right) {
            Some(j) => j,
            None => {
                proof {
                    assert(!spec_join_ok(self@, other@, on_left@, on_right@));
                }
                return Err(
                    EngineError::SchemaMismatch(
                        String::from_str("the right key column does not exist"),
                    ),
                );
            },
        };
        proof {
            let c = choose|c: int|
                0 <= c < self@.len() && (#[trigger] self@[c].name) == on_left@;
            assert(c == lki as int);
            assert(crate::frame_group::spec_col_dtype(self@, on_left@) == self@[
                lki as int].dtype);
            let e = choose|e: int|
                0 <= e < other@.len() && (#[trigger] other@[e].name) == on_right@;
            assert(e == rki as int);
            assert(crate::frame_group::spec_col_dtype(other@, on_right@) == other@[
                rki as int].dtype);
        }
        if self.columns[lki].dtype() != other.columns[rki].dtype() {
            return Err(
                EngineError::SchemaMismatch(
                    String::from_str("the key columns must share one dtype"),
                ),
            );
        }
        // Compute the output names and refuse collisions.
        let lw = self.columns.len();
        let mut out_names: Vec<String> = Vec::new();
        let mut c: usize = 0;
        while c < lw
            invariant
                self.wf(),
                other.wf(),
                lw == self@.len(),
                rki < other@.len(),
                c <= lw,
                out_names@.len() == c,
                forall|x: int|
                    0 <= x < c ==> (#[trigger] out_names@[x])@ == spec_join_names(
                        self@,
                        other@,
                        rki as int,
                    )[x],
            decreases lw - c,
        {
            out_names.push(self.columns[c].name());
            c = c + 1;
        }
        let mut rc: usize = 0;
        while rc < other.columns.len()
            invariant
                self.wf(),
                other.wf(),
                lw == self@.len(),
                rki < other@.len(),
                rc <= other@.len(),
                out_names@.len() == lw + (if rc <= rki {
                    rc as int
                } else {
                    rc - 1
                }),
                forall|x: int|
                    0 <= x < out_names@.len() ==> (#[trigger] out_names@[x])@ == spec_join_names(
                        self@,
                        other@,
                        rki as int,
                    )[x],
            decreases other@.len() - rc,
        {
            if rc != rki {
                let mut n = other.columns[rc].name();
                match self.find_col(n.as_str()) {
                    Some(_) => {
                        proof {
                            reveal_strlit("_right");
                        }
                        n.append("_right");
                    },
                    None => {},
                }
                proof {
                    assert(n@ == spec_right_out_name(self@, other@[rc as int].name));
                }
                out_names.push(n);
            }
            rc = rc + 1;
        }
        let mut x: usize = 0;
        while x < out_names.len()
            invariant
                self.wf(),
                other.wf(),
                lw == self@.len(),
                rki < other@.len(),
                other@[rki as int].name == on_right@,
                out_names@.len() == lw + other@.len() - 1,
                forall|v: int|
                    0 <= v < out_names@.len() ==> (#[trigger] out_names@[v])@ == spec_join_names(
                        self@,
                        other@,
                        rki as int,
                    )[v],
                x <= out_names@.len(),
                forall|v: int, w: int|
                    0 <= v < w < x ==> (#[trigger] out_names@[v])@ != (#[trigger] out_names@[w])@,
            decreases out_names@.len() - x,
        {
            let mut y: usize = 0;
            while y < x
                invariant
                    self.wf(),
                    other.wf(),
                    lw == self@.len(),
                    rki < other@.len(),
                    other@[rki as int].name == on_right@,
                    out_names@.len() == lw + other@.len() - 1,
                    forall|v: int|
                        0 <= v < out_names@.len() ==> (#[trigger] out_names@[v])@
                            == spec_join_names(self@, other@, rki as int)[v],
                    x < out_names@.len(),
                    y <= x,
                    forall|v: int|
                        0 <= v < y ==> (#[trigger] out_names@[v])@ != out_names@[x as int]@,
                decreases x - y,
            {
                if str_eq(out_names[y].as_str(), out_names[x].as_str()) {
                    proof {
                        assert(spec_join_names(self@, other@, rki as int)[y as int]
                            == spec_join_names(self@, other@, rki as int)[x as int]);
                        assert(!spec_join_ok(self@, other@, on_left@, on_right@));
                    }
                    return Err(
                        EngineError::SchemaMismatch(
                            String::from_str("two joined columns would share a name"),
                        ),
                    );
                }
                y = y + 1;
            }
            x = x + 1;
        }
        let pairs = build_pairs(how, &self.columns[lki], &other.columns[rki]);
        let ghost pv = pairs_view(pairs@);
        let ghost jc = spec_join_cols(self@, other@, lki as int, rki as int, pv);
        proof {
            assert(self.columns@[lki as int]@ == self@[lki as int]);
            assert(other.columns@[rki as int]@ == other@[rki as int]);
        }
        let mut cols: Vec<Series> = Vec::new();
        let mut c: usize = 0;
        while c < lw
            invariant
                self.wf(),
                other.wf(),
                lw == self@.len(),
                lki < lw,
                rki < other@.len(),
                self@[lki as int].dtype == other@[rki as int].dtype,
                pv == pairs_view(pairs@),
                jc == spec_join_cols(self@, other@, lki as int, rki as int, pv),
                spec_pairs_ok(pv, self@[lki as int].values.len() as int, other@[
                    rki as int].values.len() as int),
                pv == spec_join_pairs(how, self@[lki as int].values, other@[
                    rki as int].values),
                c <= lw,
                cols@.len() == c,
                forall|v: int| 0 <= v < c ==> #[trigger] cols@[v]@ == jc[v],
                forall|v: int| 0 <= v < c ==> series_wf(#[trigger] cols@[v]@),
                forall|v: int|
                    0 <= v < c ==> (#[trigger] cols@[v]@).values.len() == pv.len(),
            decreases lw - c,
        {
            proof {
                assert(self.columns@[c as int]@ == self@[c as int]);
                assert(series_wf(self@[c as int]));
                assert(self@[c as int].values.len() == spec_height(self@));
                assert(self@[lki as int].values.len() == spec_height(self@));
                assert(other@[rki as int].values.len() == spec_height(other@));
            }
            proof {
                assert forall|q: int| 0 <= q < pairs@.len() implies {
                    &&& ((#[trigger] pairs@[q]).0 matches Some(xx) ==> xx < spec_height(self@))
                    &&& (pairs@[q].0 matches Some(xx) ==> xx < self@[lki as int].values.len())
                    &&& (pairs@[q].1 matches Some(xx) ==> xx < other@[rki as int].values.len())
                    &&& (pairs@[q].1 matches Some(xx) ==> xx < spec_height(other@))
                    &&& (pairs@[q].0 is Some || pairs@[q].1 is Some)
                } by {
                    assert(pv[q] == pair_view(pairs@[q]));
                    assert(-1 <= pv[q].0 < self@[lki as int].values.len());
                    assert(-1 <= pv[q].1 < other@[rki as int].values.len());
                    assert(pv[q].0 != -1 || pv[q].1 != -1);
                }
            }
            let cells = if c == lki {
                gather_key_cells(&self.columns[lki], &other.columns[rki], &pairs)
            } else {
                gather_left_cells(&self.columns[c], &pairs)
            };
            let s = Series {
                name: self.columns[c].name(),
                dtype: self.columns[c].dtype(),
                values: cells,
            };
            proof {
                assert(s@ == jc[c as int]);
                assert(series_wf(s@));
            }
            cols.push(s);
            c = c + 1;
        }
        let mut rc: usize = 0;
        while rc < other.columns.len()
            invariant
                self.wf(),
                other.wf(),
                lw == self@.len(),
                lki < lw,
                rki < other@.len(),
                self@[lki as int].dtype == other@[rki as int].dtype,
                pv == pairs_view(pairs@),
                jc == spec_join_cols(self@, other@, lki as int, rki as int, pv),
                spec_pairs_ok(pv, self@[lki as int].values.len() as int, other@[
                    rki as int].values.len() as int),
                pv == spec_join_pairs(how, self@[lki as int].values, other@[
                    rki as int].values),
                out_names@.len() == lw + other@.len() - 1,
                forall|v: int|
                    0 <= v < out_names@.len() ==> (#[trigger] out_names@[v])@ == spec_join_names(
                        self@,
                        other@,
                        rki as int,
                    )[v],
                rc <= other@.len(),
                cols@.len() == lw + (if rc <= rki {
                    rc as int
                } else {
                    rc - 1
                }),
                forall|v: int| 0 <= v < cols@.len() ==> #[trigger] cols@[v]@ == jc[v],
                forall|v: int| 0 <= v < cols@.len() ==> series_wf(#[trigger] cols@[v]@),
                forall|v: int|
                    0 <= v < cols@.len() ==> (#[trigger] cols@[v]@).values.len() == pv.len(),
            decreases other@.len() - rc,
        {
            if rc != rki {
                proof {
                    assert(other.columns@[rc as int]@ == other@[rc as int]);
                    assert(series_wf(other@[rc as int]));
                    assert(other@[rc as int].values.len() == spec_height(other@));
                    assert(other@[rki as int].values.len() == spec_height(other@));
                }
            proof {
                assert forall|q: int| 0 <= q < pairs@.len() implies {
                    &&& ((#[trigger] pairs@[q]).0 matches Some(xx) ==> xx < spec_height(self@))
                    &&& (pairs@[q].0 matches Some(xx) ==> xx < self@[lki as int].values.len())
                    &&& (pairs@[q].1 matches Some(xx) ==> xx < other@[rki as int].values.len())
                    &&& (pairs@[q].1 matches Some(xx) ==> xx < spec_height(other@))
                    &&& (pairs@[q].0 is Some || pairs@[q].1 is Some)
                } by {
                    assert(pv[q] == pair_view(pairs@[q]));
                    assert(-1 <= pv[q].0 < self@[lki as int].values.len());
                    assert(-1 <= pv[q].1 < other@[rki as int].values.len());
                    assert(pv[q].0 != -1 || pv[q].1 != -1);
                }
            }
                let cells = gather_right_cells(&other.columns[rc], &pairs);
                let k = cols.len();
                let s = Series {
                    name: out_names[k].clone(),
                    dtype: other.columns[rc].dtype(),
                    values: cells,
                };
                proof {
                    assert(spec_join_names(self@, other@, rki as int)[k as int]
                        == spec_right_out_name(self@, other@[rc as int].name));
                    assert(s@ == jc[k as int]);
                    assert(series_wf(s@));
                }
                cols.push(s);
            }
            rc = rc + 1;
        }
        let d = DataFrame { columns: cols };
        proof {
            assert(d@ =~= jc);
            assert forall|v: int, w: int| 0 <= v < w < d@.len() implies (#[trigger] d@[v].name)
                != (#[trigger] d@[w].name) by {
                assert(d@[v].name == spec_join_names(self@, other@, rki as int)[v]);
                assert(d@[w].name == spec_join_names(self@, other@, rki as int)[w]);
                assert(out_names@[v]@ != out_names@[w]@);
            }
            assert forall|v: int| 0 <= v < d@.len() implies (#[trigger] d@[v]).values.len()
                == spec_height(d@) by {}
            assert(spec_join_ok(self@, other@, on_left@, on_right@)) by {
                assert forall|rki2: int, x2: int, y2: int|
                    (0 <= rki2 < other@.len() && other@[rki2].name == on_right@ && 0 <= x2 < y2
                        < spec_join_names(self@, other@, rki2).len()) implies (
                #[trigger] spec_join_names(self@, other@, rki2)[x2]) != (
                #[trigger] spec_join_names(self@, other@, rki2)[y2]) by {
                    assert(rki2 == rki as int);
                    assert(out_names@[x2]@ != out_names@[y2]@);
                }
            }
            assert forall|lki2: int, rki2: int|
                (0 <= lki2 < self@.len() && (#[trigger] self@[lki2].name) == on_left@ && 0
                    <= rki2 < other@.len() && (#[trigger] other@[rki2].name) == on_right@)
                implies d@ == spec_join_cols(
                self@,
                other@,
                lki2,
                rki2,
                spec_join_pairs(how, self@[lki2].values, other@[rki2].values),
            ) by {
                assert(lki2 == lki as int);
                assert(rki2 == rki as int);
            }
        }
        Ok(d)
    }
}

} // verus!
