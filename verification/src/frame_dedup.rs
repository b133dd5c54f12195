//! Duplicate-row removal, keeping each row's first occurrence.

use vstd::prelude::*;

use crate::error::EngineError;
use crate::frame::{frame_wf, spec_height, DataFrame};
use crate::series::spec_take;
use crate::series::{series_wf, SeriesModel};
use crate::value::{values_equal, Val};

verus! {

/// The rows of a frame, each a sequence of cells across the columns.
pub open spec fn spec_rows(cols: Seq<SeriesModel>) -> Seq<Seq<Val>> {
    Seq::new(
        spec_height(cols) as nat,
        |r: int| Seq::new(cols.len(), |c: int| cols[c].values[r]),
    )
}

/// The rows with later duplicates removed: each row keeps its first
/// occurrence only.
pub open spec fn spec_distinct_rows(s: Seq<Seq<Val>>) -> Seq<Seq<Val>>
    decreases s.len(),
{
    if s.len() == 0 {
        Seq::empty()
    } else {
        let p = spec_distinct_rows(s.drop_last());
        if p.contains(s.last()) {
            p
        } else {
            p.push(s.last())
        }
    }
}

/// Duplicate-row removal keeps exactly the rows that occur.
pub proof fn lemma_distinct_rows_contains(s: Seq<Seq<Val>>, x: Seq<Val>)
    ensures
        spec_distinct_rows(s).contains(x) <==> s.contains(x),
    decreases s.len(),
{
    if s.len() > 0 {
        lemma_distinct_rows_contains(s.drop_last(), x);
        let p = spec_distinct_rows(s.drop_last());
        assert(s.contains(x) <==> (s.drop_last().contains(x) || s.last() == x)) by {
            if s.contains(x) {
                let i = choose|i: int| 0 <= i < s.len() && s[i] == x;
                if i < s.len() - 1 {
                    assert(s.drop_last()[i] == x);
                }
            }
            if s.drop_last().contains(x) {
                let i = choose|i: int| 0 <= i < s.drop_last().len() && s.drop_last()[i] == x;
                assert(s[i] == x);
            }
        }
        if !p.contains(s.last()) {
            assert(p.push(s.last()).contains(x) <==> (p.contains(x) || s.last() == x)) by {
                if p.push(s.last()).contains(x) {
                    let i = choose|i: int|
                        0 <= i < p.push(s.last()).len() && p.push(s.last())[i] == x;
                    if i < p.len() {
                        assert(p[i] == x);
                    }
                }
                if p.contains(x) {
                    let i = choose|i: int| 0 <= i < p.len() && p[i] == x;
                    assert(p.push(s.last())[i] == x);
                }
                assert(p.push(s.last())[p.len() as int] == s.last());
            }
        }
    }
}

/// Duplicate-row removal leaves no duplicates.
pub proof fn lemma_distinct_rows_no_dup(s: Seq<Seq<Val>>)
    ensures
        spec_distinct_rows(s).no_duplicates(),
    decreases s.len(),
{
    if s.len() > 0 {
        lemma_distinct_rows_no_dup(s.drop_last());
        let p = spec_distinct_rows(s.drop_last());
        if !p.contains(s.last()) {
            let q = p.push(s.last());
            assert forall|i: int, j: int| 0 <= i < j < q.len() implies q[i] != q[j] by {
                if j == q.len() - 1 {
                    assert(q[i] == p[i]);
                    assert(p.contains(p[i]));
                } else {
                    assert(q[i] == p[i] && q[j] == p[j]);
                }
            }
        }
    }
}

/// On rows without duplicates, duplicate removal is the identity.
pub proof fn lemma_distinct_rows_of_nodup(s: Seq<Seq<Val>>)
    requires
        s.no_duplicates(),
    ensures
        spec_distinct_rows(s) == s,
    decreases s.len(),
{
    if s.len() > 0 {
        assert(s.drop_last().no_duplicates()) by {
            assert(forall|i: int|
                0 <= i < s.len() - 1 ==> #[trigger] s.drop_last()[i] == s[i]);
        }
        lemma_distinct_rows_of_nodup(s.drop_last());
        assert(!s.drop_last().contains(s.last())) by {
            if s.drop_last().contains(s.last()) {
                let i = choose|i: int|
                    0 <= i < s.drop_last().len() && s.drop_last()[i] == s.last();
                assert(s[i] == s[s.len() - 1]);
            }
        }
        assert(spec_distinct_rows(s) =~= s);
    }
}

/// Removing duplicate rows twice is the same as removing them once.
pub proof fn lemma_distinct_rows_idempotent(s: Seq<Seq<Val>>)
    ensures
        spec_distinct_rows(spec_distinct_rows(s)) == spec_distinct_rows(s),
{
    lemma_distinct_rows_no_dup(s);
    lemma_distinct_rows_of_nodup(spec_distinct_rows(s));
}

impl DataFrame {
    /// The frame with later duplicate rows removed, each row keeping its
    /// first occurrence; column names, dtypes and order stay.
    pub fn drop_duplicates(&self) -> (r: Result<DataFrame, EngineError>)
        requires
            self.wf(),
        ensures
            r is Ok,
            r matches Ok(d) ==> {
                &&& d.wf()
                &&& d@.len() == self@.len()
                &&& forall|c: int|
                    0 <= c < self@.len() ==> (#[trigger] d@[c].name) == self@[c].name && d@[
                    c].dtype == self@[c].dtype
                &&& spec_rows(d@) =~~= spec_distinct_rows(spec_rows(self@))
            },
    {
        let ghost rows = spec_rows(self@);
        let h = self.height();
        let mut keep: Vec<usize> = Vec::new();
        let mut r: usize = 0;
        while r < h
            invariant
                self.wf(),
                h == spec_height(self@),
                rows == spec_rows(self@),
                r <= h,
                forall|k: int| 0 <= k < keep@.len() ==> #[trigger] keep@[k] < r,
                Seq::new(keep@.len(), |k: int| rows[keep@[k] as int]) == spec_distinct_rows(
                    rows.take(r as int),
                ),
            decreases h - r,
        {
            proof {
                assert(rows.take(r + 1).drop_last() =~= rows.take(r as int));
                assert(rows.take(r + 1).last() == rows[r as int]);
            }
            let ghost kept = Seq::new(keep@.len(), |k: int| rows[keep@[k] as int]);
            // Is the current row already among the kept ones?
            let mut found = false;
            let mut k: usize = 0;
            while k < keep.len()
                invariant
                    self.wf(),
                    h == spec_height(self@),
                    rows == spec_rows(self@),
                    r < h,
                    kept == Seq::new(keep@.len(), |k2: int| rows[keep@[k2] as int]),
                    forall|k2: int| 0 <= k2 < keep@.len() ==> #[trigger] keep@[k2] < r,
                    k <= keep@.len(),
                    found ==> kept.contains(rows[r as int]),
                    !found ==> forall|k2: int| 0 <= k2 < k ==> #[trigger] kept[k2] != rows[
                    r as int],
                decreases keep@.len() - k,
            {
                if !found {
                    let other = keep[k];
                    let mut same = true;
                    let mut c: usize = 0;
                    while c < self.columns.len()
                        invariant
                            self.wf(),
                            h == spec_height(self@),
                            rows == spec_rows(self@),
                            r < h,
                            other < h,
                            c <= self@.len(),
                            same ==> forall|c2: int|
                                0 <= c2 < c ==> #[trigger] self@[c2].values[other as int]
                                    == self@[c2].values[r as int],
                            !same ==> rows[other as int] != rows[r as int],
                        decreases self@.len() - c,
                    {
                        proof {
                            assert(self@[c as int].values[other as int] == self.columns@[
                            c as int].values@[other as int]@);
                            assert(self@[c as int].values[r as int] == self.columns@[
                            c as int].values@[r as int]@);
                        }
                        if same && !values_equal(
                            &self.columns[c].values[other],
                            &self.columns[c].values[r],
                        ) {
                            same = false;
                            proof {
                                assert(rows[other as int][c as int] != rows[r as int][
                                c as int]);
                            }
                        }
                        c = c + 1;
                    }
                    if same {
                        found = true;
                        proof {
                            assert(rows[other as int] =~= rows[r as int]);
                            assert(kept[k as int] == rows[other as int]);
                            assert(kept.contains(rows[r as int]));
                        }
                    } else {
                        proof {
                            assert(kept[k as int] == rows[keep@[k as int] as int]);
                        }
                    }
                }
                k = k + 1;
            }
            if found {
                proof {
                    assert(Seq::new(keep@.len(), |k2: int| rows[keep@[k2] as int])
                        =~= spec_distinct_rows(rows.take(r + 1)));
                }
            } else {
                proof {
                    assert(!kept.contains(rows[r as int])) by {
                        if kept.contains(rows[r as int]) {
                            let w = choose|w: int|
                                0 <= w < kept.len() && kept[w] == rows[r as int];
                            assert(kept[w] != rows[r as int]);
                        }
                    }
                }
                keep.push(r);
                proof {
                    assert(Seq::new(keep@.len(), |k2: int| rows[keep@[k2] as int])
                        =~= kept.push(rows[r as int]));
                    assert(Seq::new(keep@.len(), |k2: int| rows[keep@[k2] as int])
                        =~= spec_distinct_rows(rows.take(r + 1)));
                }
            }
            r = r + 1;
        }
        proof {
            assert(rows.take(h as int) =~= rows);
        }
        let d = match self.take(&keep) {
            Ok(d) => d,
            Err(_) => {
                proof {
                    assert(false);
                }
                return Err(EngineError::ComputationFailure(String::new()));
            },
        };
        proof {
            let kept = Seq::new(keep@.len(), |k: int| rows[keep@[k] as int]);
            let ixs = keep@.map_values(|x: usize| x as int);
            assert forall|rr: int, cc: int|
                0 <= rr < keep@.len() && 0 <= cc < self@.len() implies #[trigger] spec_rows(
                d@,
            )[rr][cc] == kept[rr][cc] by {
                assert(d@[cc] == (SeriesModel {
                    values: spec_take(self@[cc].values, ixs),
                    ..self@[cc]
                }));
                assert(spec_take(self@[cc].values, ixs)[rr] == self@[cc].values[ixs[rr]]);
                assert(ixs[rr] == keep@[rr] as int);
                assert(kept[rr] == rows[keep@[rr] as int]);
            }
            assert(spec_height(d@) == keep@.len()) by {
                if self@.len() > 0 {
                    assert(d@[0].values.len() == ixs.len());
                }
            }
            if self@.len() == 0 {
                assert(spec_rows(d@) =~~= spec_distinct_rows(spec_rows(self@))) by {
                    assert(spec_height(self@) == 0);
                    assert(rows =~= Seq::<Seq<Val>>::empty());
                    assert(spec_height(d@) == 0);
                }
            } else {
                assert(spec_rows(d@) =~~= kept);
            }
        }
        Ok(d)
    }
}

} // verus!
