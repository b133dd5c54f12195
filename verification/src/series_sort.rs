//! Sorting, ascending or descending, nulls last.

use vstd::prelude::*;
use vstd::seq_lib::group_to_multiset_ensures;

use crate::error::EngineError;
use crate::frame::{spec_height, DataFrame};
use crate::series::{series_wf, spec_take, Series, SeriesModel};
use crate::series_arith::{int_payload, val_int};
use crate::value::{val_matches, Dtype, TypedValue, Val};

verus! {

/// The sort order on integer payloads.
pub open spec fn spec_le(x: int, y: int, descending: bool) -> bool {
    if descending {
        x >= y
    } else {
        x <= y
    }
}

/// Sortedness with the nulls-last policy: no null before a non-null cell,
/// and the non-null cells ordered by their payloads.
pub open spec fn spec_sorted_nulls_last(s: Seq<Val>, descending: bool) -> bool {
    forall|i: int, j: int|
        #![trigger s[i], s[j]]
        0 <= i < j < s.len() ==> {
            &&& (s[i] is Null ==> s[j] is Null)
            &&& ((!(s[i] is Null) && !(s[j] is Null)) ==> spec_le(
                val_int(s[i]),
                val_int(s[j]),
                descending,
            ))
        }
}

/// Inserting anywhere adds exactly one occurrence to the multiset.
proof fn lemma_insert_to_multiset(s: Seq<Val>, i: int, x: Val)
    requires
        0 <= i <= s.len(),
    ensures
        s.insert(i, x).to_multiset() == s.to_multiset().insert(x),
{
    broadcast use group_to_multiset_ensures;

    let t = s.insert(i, x);
    assert(t.remove(i) =~= s);
    assert(t[i] == x);
    assert(t.contains(x));
    assert(t.remove(i).to_multiset() =~= t.to_multiset().remove(x));
    assert(s.to_multiset() == t.to_multiset().remove(x));
    assert(t.to_multiset().count(x) > 0);
    assert(s.to_multiset().insert(x) =~= t.to_multiset());
}

/// Equal multisets stay equal under a shared suffix.
proof fn lemma_concat_ms_congruence(a: Seq<Val>, b: Seq<Val>, c: Seq<Val>)
    requires
        a.to_multiset() == b.to_multiset(),
    ensures
        (a + c).to_multiset() == (b + c).to_multiset(),
    decreases c.len(),
{
    broadcast use group_to_multiset_ensures;

    if c.len() == 0 {
        assert(a + c =~= a);
        assert(b + c =~= b);
    } else {
        lemma_concat_ms_congruence(a, b, c.drop_last());
        assert(a + c =~= (a + c.drop_last()).push(c.last()));
        assert(b + c =~= (b + c.drop_last()).push(c.last()));
        assert((a + c).to_multiset() =~= (a + c.drop_last()).to_multiset().insert(c.last()));
        assert((b + c).to_multiset() =~= (b + c.drop_last()).to_multiset().insert(c.last()));
    }
}

impl Series {
    /// The cells in sorted order, nulls moved last; ascending unless
    /// `descending`.  The result holds exactly the same cells (as a
    /// multiset).  Fails with `InvalidArgument` on an unordered dtype.
    pub fn sort(&self, descending: bool) -> (r: Result<Series, EngineError>)
        requires
            self.wf(),
        ensures
            r is Ok <==> (self@.dtype == Dtype::Int64 || self@.dtype == Dtype::Date
                || self@.dtype == Dtype::Datetime),
            r matches Err(e) ==> e is InvalidArgument,
            r matches Ok(s) ==> {
                &&& s.wf()
                &&& s@.name == self@.name
                &&& s@.dtype == self@.dtype
                &&& s@.values.to_multiset() == self@.values.to_multiset()
                &&& spec_sorted_nulls_last(s@.values, descending)
            },
    {
        broadcast use group_to_multiset_ensures;

        let ordered = match self.dtype {
            Dtype::Int64 => true,
            Dtype::Date => true,
            Dtype::Datetime => true,
            _ => false,
        };
        if !ordered {
            return Err(
                EngineError::InvalidArgument(String::from_str("sorting needs an ordered dtype")),
            );
        }
        // Split off the nulls, keeping the multiset accounted for.
        let mut work: Vec<TypedValue> = Vec::new();
        let mut nulls: usize = 0;
        let mut i: usize = 0;
        while i < self.values.len()
            invariant
                self.wf(),
                self@.dtype == Dtype::Int64 || self@.dtype == Dtype::Date || self@.dtype
                    == Dtype::Datetime,
                i <= self@.values.len(),
                nulls <= i,
                work@.len() <= i,
                forall|k: int|
                    0 <= k < work@.len() ==> !((#[trigger] work@[k]@) is Null) && val_matches(
                        work@[k]@,
                        self@.dtype,
                    ),
                (Seq::new(work@.len(), |k: int| work@[k]@) + Seq::new(
                    nulls as nat,
                    |x: int| Val::Null,
                )).to_multiset() == self@.values.take(i as int).to_multiset(),
            decreases self@.values.len() - i,
        {
            let ghost wv = Seq::new(work@.len(), |k: int| work@[k]@);
            let ghost ns = Seq::new(nulls as nat, |x: int| Val::Null);
            proof {
                assert(self@.values.take(i + 1).drop_last() =~= self@.values.take(i as int));
                assert(self@.values.take(i + 1).last() == self@.values[i as int]);
                assert(self@.values[i as int] == self.values@[i as int]@);
                assert(val_matches(self@.values[i as int], self@.dtype));
                assert(self@.values.take(i + 1) =~= self@.values.take(i as int).insert(
                    i as int,
                    self@.values[i as int],
                ));
                lemma_insert_to_multiset(
                    self@.values.take(i as int),
                    i as int,
                    self@.values[i as int],
                );
            }
            if self.values[i].is_null() {
                nulls = nulls + 1;
                proof {
                    let ns1 = Seq::new(nulls as nat, |x: int| Val::Null);
                    assert(wv + ns1 =~= (wv + ns).insert((wv + ns).len() as int, Val::Null));
                    lemma_insert_to_multiset(wv + ns, (wv + ns).len() as int, Val::Null);
                }
            } else {
                let ghost cv = self@.values[i as int];
                work.push(self.values[i].dup());
                proof {
                    let wv1 = Seq::new(work@.len(), |k: int| work@[k]@);
                    assert(wv1 =~= wv.push(cv));
                    assert(wv1 + ns =~= (wv + ns).insert(wv.len() as int, cv));
                    lemma_insert_to_multiset(wv + ns, wv.len() as int, cv);
                }
            }
            i = i + 1;
        }
        proof {
            assert(self@.values.take(self@.values.len() as int) =~= self@.values);
        }
        // Insertion sort over the non-null cells.
        let mut sorted: Vec<TypedValue> = Vec::new();
        let mut t: usize = 0;
        while t < work.len()
            invariant
                self@.dtype == Dtype::Int64 || self@.dtype == Dtype::Date || self@.dtype
                    == Dtype::Datetime,
                forall|k: int|
                    0 <= k < work@.len() ==> !((#[trigger] work@[k]@) is Null) && val_matches(
                        work@[k]@,
                        self@.dtype,
                    ),
                t <= work@.len(),
                sorted@.len() == t,
                forall|k: int|
                    0 <= k < sorted@.len() ==> !((#[trigger] sorted@[k]@) is Null)
                        && val_matches(sorted@[k]@, self@.dtype),
                Seq::new(sorted@.len(), |k: int| sorted@[k]@).to_multiset() == Seq::new(
                    work@.len(),
                    |k: int| work@[k]@,
                ).take(t as int).to_multiset(),
                spec_sorted_nulls_last(Seq::new(sorted@.len(), |k: int| sorted@[k]@), descending),
            decreases work@.len() - t,
        {
            let ghost wv = Seq::new(work@.len(), |k: int| work@[k]@);
            let ghost sv = Seq::new(sorted@.len(), |k: int| sorted@[k]@);
            proof {
                assert(wv.take(t + 1).drop_last() =~= wv.take(t as int));
                assert(wv.take(t + 1).last() == wv[t as int]);
                assert(wv[t as int] == work@[t as int]@);
                assert(wv.take(t + 1) =~= wv.take(t as int).insert(t as int, wv[t as int]));
                lemma_insert_to_multiset(wv.take(t as int), t as int, wv[t as int]);
            }
            let x = work[t].dup();
            let ghost xv = x@;
            proof {
                assert(xv is Int64 || xv is Date || xv is Datetime);
            }
            let xp = int_payload(&x);
            proof {
                assert forall|k: int| 0 <= k < sorted@.len() implies ((#[trigger] sorted@[k]@)
                    is Int64 || sorted@[k]@ is Date || sorted@[k]@ is Datetime) by {}
            }
            let pos = find_pos(&sorted, xp, descending);
            let ghost oldsv = Seq::new(sorted@.len(), |k: int| sorted@[k]@);
            sorted.insert(pos, x);
            proof {
                let newsv = Seq::new(sorted@.len(), |k: int| sorted@[k]@);
                assert(newsv =~= oldsv.insert(pos as int, xv));
                lemma_insert_to_multiset(oldsv, pos as int, xv);
                assert(newsv.to_multiset() == wv.take(t + 1).to_multiset());
                assert forall|a: int, b: int|
                    #![trigger newsv[a], newsv[b]]
                    0 <= a < b < newsv.len() implies {
                    &&& (newsv[a] is Null ==> newsv[b] is Null)
                    &&& ((!(newsv[a] is Null) && !(newsv[b] is Null)) ==> spec_le(
                        val_int(newsv[a]),
                        val_int(newsv[b]),
                        descending,
                    ))
                } by {
                    if a < pos {
                        assert(newsv[a] == oldsv[a]);
                    } else if a == pos {
                        assert(newsv[a] == xv);
                    } else {
                        assert(newsv[a] == oldsv[a - 1]);
                    }
                    if b < pos {
                        assert(newsv[b] == oldsv[b]);
                    } else if b == pos {
                        assert(newsv[b] == xv);
                    } else {
                        assert(newsv[b] == oldsv[b - 1]);
                    }
                    if b == pos {
                        assert(a < pos);
                        assert(spec_le(val_int(oldsv[a]), val_int(xv), descending));
                    }
                    if a == pos && b > pos {
                        if pos < oldsv.len() {
                            assert(spec_le(val_int(xv), val_int(oldsv[pos as int]), descending));
                            if b - 1 > pos {
                                assert(spec_le(
                                    val_int(oldsv[pos as int]),
                                    val_int(oldsv[b - 1]),
                                    descending,
                                ));
                            }
                        }
                    }
                }
            }
            t = t + 1;
        }
        proof {
            let wv = Seq::new(work@.len(), |k: int| work@[k]@);
            assert(wv.take(wv.len() as int) =~= wv);
        }
        // Rebuild: the sorted cells, then the nulls.
        let ghost sortedv = Seq::new(sorted@.len(), |k: int| sorted@[k]@);
        let mut out = sorted;
        let mut k: usize = 0;
        while k < nulls
            invariant
                k <= nulls,
                out@.len() == sortedv.len() + k,
                forall|j: int|
                    0 <= j < sortedv.len() ==> #[trigger] out@[j]@ == sortedv[j],
                forall|j: int|
                    sortedv.len() <= j < out@.len() ==> #[trigger] out@[j]@ == Val::Null,
            decreases nulls - k,
        {
            out.push(TypedValue::Null);
            k = k + 1;
        }
        let r = Series { name: self.name.clone(), dtype: self.dtype, values: out };
        proof {
            let wv = Seq::new(work@.len(), |j: int| work@[j]@);
            let ns = Seq::new(nulls as nat, |x: int| Val::Null);
            assert(r@.values =~= sortedv + ns);
            lemma_concat_ms_congruence(sortedv, wv, ns);
            assert(r@.values.to_multiset() == (wv + ns).to_multiset());
            assert(spec_sorted_nulls_last(r@.values, descending)) by {
                assert forall|a: int, b: int|
                    #![trigger r@.values[a], r@.values[b]]
                    0 <= a < b < r@.values.len() implies {
                    &&& (r@.values[a] is Null ==> r@.values[b] is Null)
                    &&& ((!(r@.values[a] is Null) && !(r@.values[b] is Null)) ==> spec_le(
                        val_int(r@.values[a]),
                        val_int(r@.values[b]),
                        descending,
                    ))
                } by {
                    if a < sortedv.len() {
                        assert(r@.values[a] == sortedv[a]);
                    } else {
                        assert(r@.values[a] == Val::Null);
                    }
                    if b < sortedv.len() {
                        assert(r@.values[b] == sortedv[b]);
                    } else {
                        assert(r@.values[b] == Val::Null);
                    }
                }
            }
            assert(series_wf(r@)) by {
                assert forall|j: int| 0 <= j < r@.values.len() implies val_matches(
                    #[trigger] r@.values[j],
                    r@.dtype,
                ) by {
                    if j < sortedv.len() {
                        assert(r@.values[j] == sortedv[j]);
                    } else {
                        assert(r@.values[j] == Val::Null);
                    }
                }
            }
        }
        Ok(r)
    }
}

/// The order argsort uses between two cells: a null never precedes a
/// non-null cell, and non-null cells compare by payload.
pub open spec fn spec_cell_le(a: Val, b: Val, descending: bool) -> bool {
    if a is Null {
        b is Null
    } else if b is Null {
        true
    } else {
        spec_le(val_int(a), val_int(b), descending)
    }
}

impl Series {
    /// The row order that sorts the series, as a list of indices: a
    /// permutation of the positions under which the gathered cells are
    /// sorted with nulls last.  Fails with `InvalidArgument` on an unordered
    /// dtype.
    pub fn argsort_indices(&self, descending: bool) -> (r: Result<Vec<usize>, EngineError>)
        requires
            self.wf(),
        ensures
            r is Ok <==> (self@.dtype == Dtype::Int64 || self@.dtype == Dtype::Date
                || self@.dtype == Dtype::Datetime),
            r matches Err(e) ==> e is InvalidArgument,
            r matches Ok(ix) ==> {
                &&& ix@.len() == self@.values.len()
                &&& ix@.no_duplicates()
                &&& forall|k: int| 0 <= k < ix@.len() ==> #[trigger] ix@[k] < self@.values.len()
                &&& spec_sorted_nulls_last(
                    Seq::new(ix@.len(), |k: int| self@.values[ix@[k] as int]),
                    descending,
                )
            },
    {
        let ordered = match self.dtype {
            Dtype::Int64 => true,
            Dtype::Date => true,
            Dtype::Datetime => true,
            _ => false,
        };
        if !ordered {
            return Err(
                EngineError::InvalidArgument(String::from_str("sorting needs an ordered dtype")),
            );
        }
        let n = self.values.len();
        let mut ix: Vec<usize> = Vec::new();
        let mut t: usize = 0;
        while t < n
            invariant
                self.wf(),
                self@.dtype == Dtype::Int64 || self@.dtype == Dtype::Date || self@.dtype
                    == Dtype::Datetime,
                n == self@.values.len(),
                t <= n,
                ix@.len() == t,
                ix@.no_duplicates(),
                forall|k: int| 0 <= k < ix@.len() ==> #[trigger] ix@[k] < t,
                forall|a: int, b: int|
                    #![trigger ix@[a], ix@[b]]
                    0 <= a < b < ix@.len() ==> spec_cell_le(
                        self@.values[ix@[a] as int],
                        self@.values[ix@[b] as int],
                        descending,
                    ),
            decreases n - t,
        {
            proof {
                assert(self@.values[t as int] == self.values@[t as int]@);
                assert(crate::value::val_matches(self@.values[t as int], self@.dtype));
            }
            let pos = find_idx_pos(self, &ix, t, descending);
            let ghost oldix = ix@;
            ix.insert(pos, t);
            proof {
                assert(ix@ =~= oldix.insert(pos as int, t as usize));
                assert forall|a: int, b: int|
                    #![trigger ix@[a], ix@[b]]
                    0 <= a < b < ix@.len() implies spec_cell_le(
                    self@.values[ix@[a] as int],
                    self@.values[ix@[b] as int],
                    descending,
                ) by {
                    if a < pos {
                        assert(ix@[a] == oldix[a]);
                    } else if a == pos {
                        assert(ix@[a] == t as usize);
                    } else {
                        assert(ix@[a] == oldix[a - 1]);
                    }
                    if b < pos {
                        assert(ix@[b] == oldix[b]);
                    } else if b == pos {
                        assert(ix@[b] == t as usize);
                    } else {
                        assert(ix@[b] == oldix[b - 1]);
                    }
                    if a == pos && b > pos {
                        if pos < oldix.len() {
                            assert(spec_cell_le(
                                self@.values[t as int],
                                self@.values[oldix[pos as int] as int],
                                descending,
                            ));
                            if b - 1 > pos {
                                assert(spec_cell_le(
                                    self@.values[oldix[pos as int] as int],
                                    self@.values[oldix[b - 1] as int],
                                    descending,
                                ));
                            }
                        }
                    }
                }
                assert forall|a: int, b: int|
                    0 <= a < ix@.len() && 0 <= b < ix@.len() && a != b implies ix@[a]
                    != ix@[b] by {
                    let av: usize = (if a == pos {
                        t as usize
                    } else if a < pos {
                        oldix[a]
                    } else {
                        oldix[a - 1]
                    });
                    let bv: usize = (if b == pos {
                        t as usize
                    } else if b < pos {
                        oldix[b]
                    } else {
                        oldix[b - 1]
                    });
                    assert(ix@[a] == av);
                    assert(ix@[b] == bv);
                }
            }
            t = t + 1;
        }
        proof {
            let gathered = Seq::new(ix@.len(), |k: int| self@.values[ix@[k] as int]);
            assert forall|a: int, b: int|
                #![trigger gathered[a], gathered[b]]
                0 <= a < b < gathered.len() implies {
                &&& (gathered[a] is Null ==> gathered[b] is Null)
                &&& ((!(gathered[a] is Null) && !(gathered[b] is Null)) ==> spec_le(
                    val_int(gathered[a]),
                    val_int(gathered[b]),
                    descending,
                ))
            } by {
                assert(spec_cell_le(
                    self@.values[ix@[a] as int],
                    self@.values[ix@[b] as int],
                    descending,
                ));
            }
        }
        Ok(ix)
    }

    /// The row order that sorts the series, as an Int64 index series.  Fails
    /// with `InvalidArgument` on an unordered dtype and with
    /// `ComputationFailure` when an index cannot be carried as an `i64`.
    pub fn argsort(&self, descending: bool) -> (r: Result<Series, EngineError>)
        requires
            self.wf(),
        ensures
            r matches Err(e) ==> (e is InvalidArgument || e is ComputationFailure),
            !(self@.dtype == Dtype::Int64 || self@.dtype == Dtype::Date || self@.dtype
                == Dtype::Datetime) ==> (r matches Err(e) && e is InvalidArgument),
            r matches Ok(s) ==> {
                &&& s.wf()
                &&& s@.name == self@.name
                &&& s@.dtype == Dtype::Int64
                &&& s@.values.len() == self@.values.len()
                &&& forall|k: int|
                    0 <= k < s@.values.len() ==> (#[trigger] s@.values[k]) is Int64 && 0
                        <= val_int(s@.values[k]) < self@.values.len()
                &&& forall|a: int, b: int|
                    0 <= a < s@.values.len() && 0 <= b < s@.values.len() && a != b ==> val_int(
                        #[trigger] s@.values[a],
                    ) != val_int(#[trigger] s@.values[b])
                &&& spec_sorted_nulls_last(
                    Seq::new(
                        s@.values.len(),
                        |k: int| self@.values[val_int(s@.values[k])],
                    ),
                    descending,
                )
            },
    {
        let ix = match self.argsort_indices(descending) {
            Ok(v) => v,
            Err(e) => {
                return Err(e);
            },
        };
        let mut cells: Vec<TypedValue> = Vec::new();
        let mut k: usize = 0;
        while k < ix.len()
            invariant
                self@.dtype == Dtype::Int64 || self@.dtype == Dtype::Date || self@.dtype
                    == Dtype::Datetime,
                ix@.no_duplicates(),
                forall|j: int| 0 <= j < ix@.len() ==> #[trigger] ix@[j] < self@.values.len(),
                k <= ix@.len(),
                cells@.len() == k,
                forall|j: int|
                    0 <= j < k ==> #[trigger] cells@[j]@ == Val::Int64(ix@[j] as int),
            decreases ix@.len() - k,
        {
            let v = ix[k];
            if v as u64 > i64::MAX as u64 {
                return Err(
                    EngineError::ComputationFailure(
                        String::from_str("an index does not fit the index dtype"),
                    ),
                );
            }
            cells.push(TypedValue::Int64(v as i64));
            k = k + 1;
        }
        let s = Series { name: self.name.clone(), dtype: Dtype::Int64, values: cells };
        proof {
            assert forall|a: int, b: int|
                0 <= a < s@.values.len() && 0 <= b < s@.values.len() && a != b implies val_int(
                #[trigger] s@.values[a],
            ) != val_int(#[trigger] s@.values[b]) by {
                assert(ix@[a] != ix@[b]);
            }
            let g1 = Seq::new(s@.values.len(), |k: int| self@.values[val_int(s@.values[k])]);
            let g2 = Seq::new(ix@.len(), |k: int| self@.values[ix@[k] as int]);
            assert(g1 =~= g2);
        }
        Ok(s)
    }
}

impl DataFrame {
    /// The frame with its rows ordered by the named column, nulls last.
    /// Fails with `SchemaMismatch` when the column is missing and with
    /// `InvalidArgument` when its dtype has no order.
    pub fn sort(&self, by: &str, descending: bool) -> (r: Result<DataFrame, EngineError>)
        requires
            self.wf(),
        ensures
            r matches Err(e) ==> (e is SchemaMismatch || e is InvalidArgument),
            (forall|j: int| 0 <= j < self@.len() ==> (#[trigger] self@[j].name) != by@) ==> (r
                matches Err(e) && e is SchemaMismatch),
            r matches Ok(d) ==> {
                &&& d.wf()
                &&& d@.len() == self@.len()
                &&& exists|ixs: Seq<int>|
                    {
                        &&& ixs.len() == spec_height(self@)
                        &&& (forall|k: int| 0 <= k < ixs.len() ==> 0 <= #[trigger] ixs[k]
                            < spec_height(self@))
                        &&& (forall|a: int, b: int|
                            0 <= a < ixs.len() && 0 <= b < ixs.len() && a != b ==> (
                            #[trigger] ixs[a]) != (#[trigger] ixs[b]))
                        &&& (forall|c: int|
                            0 <= c < self@.len() ==> (#[trigger] d@[c]) == (SeriesModel {
                                values: spec_take(self@[c].values, ixs),
                                ..self@[c]
                            }))
                        &&& (forall|j: int|
                            0 <= j < self@.len() && (#[trigger] self@[j].name) == by@
                                ==> spec_sorted_nulls_last(
                                spec_take(self@[j].values, ixs),
                                descending,
                            ))
                    }
            },
    {
        let key = match self.column(by) {
            Ok(s) => s,
            Err(e) => {
                return Err(e);
            },
        };
        let ix = match key.argsort_indices(descending) {
            Ok(v) => v,
            Err(e) => {
                return Err(e);
            },
        };
        proof {
            let kc = choose|kc: int|
                0 <= kc < self@.len() && (#[trigger] self@[kc].name) == by@;
            assert(key@ == self@[kc]);
            assert(key@.values.len() == spec_height(self@));
        }
        let d = match self.take(&ix) {
            Ok(d) => d,
            Err(_) => {
                proof {
                    assert(false);
                }
                return Err(EngineError::ComputationFailure(String::new()));
            },
        };
        proof {
            let ixs = ix@.map_values(|x: usize| x as int);
            assert(ixs.len() == spec_height(self@));
            assert forall|k: int| 0 <= k < ixs.len() implies 0 <= #[trigger] ixs[k]
                < spec_height(self@) by {
                assert(ixs[k] == ix@[k] as int);
            }
            assert forall|a: int, b: int|
                0 <= a < ixs.len() && 0 <= b < ixs.len() && a != b implies (#[trigger] ixs[a])
                != (#[trigger] ixs[b]) by {
                assert(ixs[a] == ix@[a] as int);
                assert(ixs[b] == ix@[b] as int);
                assert(ix@[a] != ix@[b]);
            }
            assert forall|j: int|
                0 <= j < self@.len() && (#[trigger] self@[j].name) == by@
                    implies spec_sorted_nulls_last(
                spec_take(self@[j].values, ixs),
                descending,
            ) by {
                assert(self@[j] == key@);
                let g = Seq::new(ix@.len(), |k: int| key@.values[ix@[k] as int]);
                assert(spec_take(self@[j].values, ixs) =~= g);
            }
        }
        Ok(d)
    }
}

/// Compares two cells in the argsort order.
fn cell_le(a: &TypedValue, b: &TypedValue, descending: bool) -> (r: bool)
    requires
        a@ is Null || a@ is Int64 || a@ is Date || a@ is Datetime,
        b@ is Null || b@ is Int64 || b@ is Date || b@ is Datetime,
    ensures
        r == spec_cell_le(a@, b@, descending),
{
    if a.is_null() {
        b.is_null()
    } else if b.is_null() {
        true
    } else {
        let x = int_payload(a);
        let y = int_payload(b);
        if descending {
            x >= y
        } else {
            x <= y
        }
    }
}

/// The first position in the index run whose cell does not precede cell `t`;
/// insertion there keeps the gathered run sorted.
fn find_idx_pos(s: &Series, ix: &Vec<usize>, t: usize, descending: bool) -> (pos: usize)
    requires
        s.wf(),
        s@.dtype == Dtype::Int64 || s@.dtype == Dtype::Date || s@.dtype == Dtype::Datetime,
        t < s@.values.len(),
        forall|k: int| 0 <= k < ix@.len() ==> #[trigger] ix@[k] < s@.values.len(),
    ensures
        pos <= ix@.len(),
        forall|k: int|
            0 <= k < pos ==> spec_cell_le(
                s@.values[(#[trigger] ix@[k]) as int],
                s@.values[t as int],
                descending,
            ),
        pos < ix@.len() ==> spec_cell_le(
            s@.values[t as int],
            s@.values[ix@[pos as int] as int],
            descending,
        ),
{
    let mut pos: usize = 0;
    while pos < ix.len()
        invariant
            s.wf(),
            s@.dtype == Dtype::Int64 || s@.dtype == Dtype::Date || s@.dtype == Dtype::Datetime,
            t < s@.values.len(),
            forall|k: int| 0 <= k < ix@.len() ==> #[trigger] ix@[k] < s@.values.len(),
            pos <= ix@.len(),
            forall|k: int|
                0 <= k < pos ==> spec_cell_le(
                    s@.values[(#[trigger] ix@[k]) as int],
                    s@.values[t as int],
                    descending,
                ),
        decreases ix@.len() - pos,
    {
        let j = ix[pos];
        proof {
            assert(s@.values[j as int] == s.values@[j as int]@);
            assert(s@.values[t as int] == s.values@[t as int]@);
            assert(val_matches(s@.values[j as int], s@.dtype));
            assert(val_matches(s@.values[t as int], s@.dtype));
        }
        if !cell_le(&s.values[j], &s.values[t], descending) {
            proof {
                assert(spec_cell_le(
                    s@.values[t as int],
                    s@.values[j as int],
                    descending,
                ));
            }
            return pos;
        }
        pos = pos + 1;
    }
    pos
}

/// The first position whose cell does not precede the payload `xp` in the
/// chosen order; insertion there keeps a run sorted.
fn find_pos(sorted: &Vec<TypedValue>, xp: i64, descending: bool) -> (pos: usize)
    requires
        forall|k: int|
            0 <= k < sorted@.len() ==> ((#[trigger] sorted@[k]@) is Int64 || sorted@[k]@
                is Date || sorted@[k]@ is Datetime),
    ensures
        pos <= sorted@.len(),
        forall|k: int|
            0 <= k < pos ==> spec_le(val_int(#[trigger] sorted@[k]@), xp as int, descending),
        pos < sorted@.len() ==> spec_le(xp as int, val_int(sorted@[pos as int]@), descending),
{
    let mut pos: usize = 0;
    while pos < sorted.len()
        invariant
            forall|k: int|
                0 <= k < sorted@.len() ==> ((#[trigger] sorted@[k]@) is Int64 || sorted@[k]@
                    is Date || sorted@[k]@ is Datetime),
            pos <= sorted@.len(),
            forall|k: int|
                0 <= k < pos ==> spec_le(val_int(#[trigger] sorted@[k]@), xp as int, descending),
        decreases sorted@.len() - pos,
    {
        let sp = int_payload(&sorted[pos]);
        let keep_going = if descending {
            sp >= xp
        } else {
            sp <= xp
        };
        if !keep_going {
            return pos;
        }
        pos = pos + 1;
    }
    pos
}

} // verus!
