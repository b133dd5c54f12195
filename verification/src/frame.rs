//! Data frames: ordered sequences of uniquely named, equal-length series.

use vstd::prelude::*;

use crate::error::EngineError;
use crate::series::{series_wf, spec_clamped_slice, spec_mask_filter, spec_take, Series, SeriesModel};
use crate::value::{str_eq, Dtype, TypedValue, Val};

verus! {

/// A data frame: an ordered sequence of columns.
#[derive(Debug)]
pub struct DataFrame {
    pub columns: Vec<Series>,
}

impl View for DataFrame {
    type V = Seq<SeriesModel>;

    open spec fn view(&self) -> Seq<SeriesModel> {
        Seq::new(self.columns@.len(), |i: int| self.columns@[i]@)
    }
}

/// The row count of a frame: the length its columns share.
pub open spec fn spec_height(cols: Seq<SeriesModel>) -> int {
    if cols.len() == 0 {
        0
    } else {
        cols[0].values.len() as int
    }
}

/// Well-formedness of a frame: every column well formed, names unique, all
/// lengths equal.
pub open spec fn frame_wf(cols: Seq<SeriesModel>) -> bool {
    &&& forall|i: int| 0 <= i < cols.len() ==> series_wf(#[trigger] cols[i])
    &&& forall|i: int, j: int|
        0 <= i < j < cols.len() ==> (#[trigger] cols[i].name) != (#[trigger] cols[j].name)
    &&& forall|i: int| 0 <= i < cols.len() ==> (#[trigger] cols[i]).values.len() == spec_height(
        cols,
    )
}

/// The number of `true` entries of a Boolean mask.
pub open spec fn spec_mask_count(mask: Seq<Val>) -> int
    decreases mask.len(),
{
    if mask.len() == 0 {
        0
    } else {
        spec_mask_count(mask.drop_last()) + (if mask.last() == Val::Boolean(true) {
            1int
        } else {
            0int
        })
    }
}

/// Filtering keeps as many cells as the mask has `true` entries, whatever the
/// cells are: so all columns of a frame stay equally long.
pub proof fn lemma_mask_filter_len(values: Seq<Val>, mask: Seq<Val>)
    requires
        values.len() == mask.len(),
    ensures
        spec_mask_filter(values, mask).len() == spec_mask_count(mask),
    decreases values.len(),
{
    if values.len() > 0 {
        lemma_mask_filter_len(values.drop_last(), mask.drop_last());
    }
}

/// Whether some column bears the given name.
pub open spec fn spec_has_col(cols: Seq<SeriesModel>, nm: Seq<char>) -> bool {
    exists|j: int| 0 <= j < cols.len() && (#[trigger] cols[j].name) == nm
}

/// Every requested name has a column bearing it.
pub open spec fn spec_names_found(cols: Seq<SeriesModel>, names: Seq<String>) -> bool {
    forall|k: int|
        #![trigger names[k]]
        0 <= k < names.len() ==> spec_has_col(cols, names[k]@)
}

/// No two requested names coincide.
pub open spec fn spec_names_unique(names: Seq<String>) -> bool {
    forall|a: int, b: int|
        0 <= a < b < names.len() ==> (#[trigger] names[a])@ != (#[trigger] names[b])@
}

impl DataFrame {
    /// Well-formedness of this frame.
    pub open spec fn wf(&self) -> bool {
        frame_wf(self@)
    }

    /// The frame's height (row count).
    pub open spec fn spec_h(&self) -> int {
        spec_height(self@)
    }

    /// Builds a frame from columns; fails with `SchemaMismatch` exactly when
    /// two columns share a name or two columns differ in length.
    pub fn new(columns: Vec<Series>) -> (r: Result<DataFrame, EngineError>)
        requires
            forall|i: int| 0 <= i < columns@.len() ==> (#[trigger] columns@[i]).wf(),
        ensures
            r is Ok <==> ((forall|i: int, j: int|
                0 <= i < j < columns@.len() ==> (#[trigger] columns@[i]@.name)
                    != (#[trigger] columns@[j]@.name)) && (forall|i: int|
                0 <= i < columns@.len() ==> (#[trigger] columns@[i]@.values.len())
                    == columns@[0]@.values.len())),
            r matches Err(e) ==> e is SchemaMismatch,
            r matches Ok(d) ==> {
                &&& d.wf()
                &&& d@ =~= Seq::new(columns@.len(), |i: int| columns@[i]@)
            },
    {
        let mut i: usize = 0;
        while i < columns.len()
            invariant
                forall|k: int| 0 <= k < columns@.len() ==> (#[trigger] columns@[k]).wf(),
                i <= columns@.len(),
                forall|a: int, b: int|
                    0 <= a < b < i ==> (#[trigger] columns@[a]@.name) != (
                    #[trigger] columns@[b]@.name),
                forall|a: int|
                    0 <= a < i ==> (#[trigger] columns@[a]@.values.len())
                        == columns@[0]@.values.len(),
            decreases columns@.len() - i,
        {
            if columns[i].len() != columns[0].len() {
                return Err(
                    EngineError::SchemaMismatch(
                        String::from_str("frame columns must share one length"),
                    ),
                );
            }
            let mut j: usize = 0;
            while j < i
                invariant
                    i < columns@.len(),
                    j <= i,
                    forall|b: int|
                        0 <= b < j ==> (#[trigger] columns@[b]@.name) != columns@[i as int]@.name,
                decreases i - j,
            {
                if str_eq(columns[j].name.as_str(), columns[i].name.as_str()) {
                    proof {
                        assert(columns@[j as int]@.name == columns@[i as int]@.name);
                    }
                    return Err(
                        EngineError::SchemaMismatch(
                            String::from_str("frame column names must be unique"),
                        ),
                    );
                }
                j = j + 1;
            }
            i = i + 1;
        }
        let d = DataFrame { columns };
        assert(d@ =~= Seq::new(columns@.len(), |k: int| columns@[k]@));
        Ok(d)
    }

    /// Returns a structurally equal copy of the frame.
    pub fn dup(&self) -> (r: DataFrame)
        ensures
            r@ =~= self@,
    {
        let mut cols: Vec<Series> = Vec::new();
        let mut i: usize = 0;
        while i < self.columns.len()
            invariant
                i <= self.columns@.len(),
                cols@.len() == i,
                forall|j: int| 0 <= j < i ==> #[trigger] cols@[j]@ == self.columns@[j]@,
            decreases self.columns@.len() - i,
        {
            cols.push(self.columns[i].dup());
            i = i + 1;
        }
        DataFrame { columns: cols }
    }

    /// The row count.
    pub fn height(&self) -> (h: usize)
        ensures
            h == self.spec_h(),
    {
        if self.columns.len() == 0 {
            0
        } else {
            self.columns[0].len()
        }
    }

    /// The column count.
    pub fn width(&self) -> (w: usize)
        ensures
            w == self@.len(),
    {
        self.columns.len()
    }

    /// Height and width as a pair.
    pub fn shape(&self) -> (s: (usize, usize))
        ensures
            s.0 == self.spec_h(),
            s.1 == self@.len(),
    {
        (self.height(), self.width())
    }

    /// The column names, in order.
    pub fn names(&self) -> (r: Vec<String>)
        ensures
            r@.len() == self@.len(),
            forall|i: int| 0 <= i < self@.len() ==> #[trigger] r@[i]@ == self@[i].name,
    {
        let mut out: Vec<String> = Vec::new();
        let mut i: usize = 0;
        while i < self.columns.len()
            invariant
                i <= self.columns@.len(),
                out@.len() == i,
                forall|j: int| 0 <= j < i ==> #[trigger] out@[j]@ == self.columns@[j]@.name,
            decreases self.columns@.len() - i,
        {
            out.push(self.columns[i].name());
            i = i + 1;
        }
        out
    }

    /// The column dtypes, in order.
    pub fn dtypes(&self) -> (r: Vec<Dtype>)
        ensures
            r@.len() == self@.len(),
            forall|i: int| 0 <= i < self@.len() ==> #[trigger] r@[i] == self@[i].dtype,
    {
        let mut out: Vec<Dtype> = Vec::new();
        let mut i: usize = 0;
        while i < self.columns.len()
            invariant
                i <= self.columns@.len(),
                out@.len() == i,
                forall|j: int| 0 <= j < i ==> #[trigger] out@[j] == self.columns@[j]@.dtype,
            decreases self.columns@.len() - i,
        {
            out.push(self.columns[i].dtype());
            i = i + 1;
        }
        out
    }

    /// Copies of all columns, in order.
    pub fn get_columns(&self) -> (r: Vec<Series>)
        ensures
            r@.len() == self@.len(),
            forall|i: int| 0 <= i < self@.len() ==> #[trigger] r@[i]@ == self@[i],
    {
        let mut out: Vec<Series> = Vec::new();
        let mut i: usize = 0;
        while i < self.columns.len()
            invariant
                i <= self.columns@.len(),
                out@.len() == i,
                forall|j: int| 0 <= j < i ==> #[trigger] out@[j]@ == self.columns@[j]@,
            decreases self.columns@.len() - i,
        {
            out.push(self.columns[i].dup());
            i = i + 1;
        }
        out
    }

    /// The index of the column of the given name, if any; under
    /// well-formedness that index is unique.
    pub fn find_col(&self, name: &str) -> (r: Option<usize>)
        ensures
            r matches Some(i) ==> i < self@.len() && self@[i as int].name == name@,
            r is None ==> forall|j: int| 0 <= j < self@.len() ==> (#[trigger] self@[j].name)
                != name@,
    {
        let mut i: usize = 0;
        while i < self.columns.len()
            invariant
                i <= self.columns@.len(),
                forall|j: int| 0 <= j < i ==> (#[trigger] self.columns@[j]@.name) != name@,
            decreases self.columns@.len() - i,
        {
            if str_eq(self.columns[i].name.as_str(), name) {
                return Some(i);
            }
            i = i + 1;
        }
        None
    }

    /// Returns a copy of the named column; fails with `SchemaMismatch`
    /// exactly when no column has that name.
    pub fn column(&self, name: &str) -> (r: Result<Series, EngineError>)
        requires
            self.wf(),
        ensures
            r is Ok <==> exists|j: int| 0 <= j < self@.len() && (#[trigger] self@[j].name)
                == name@,
            r matches Err(e) ==> e is SchemaMismatch,
            r matches Ok(s) ==> forall|j: int|
                0 <= j < self@.len() && (#[trigger] self@[j].name) == name@ ==> s@ == self@[j],
    {
        match self.find_col(name) {
            Some(i) => {
                let s = self.columns[i].dup();
                Ok(s)
            },
            None => Err(
                EngineError::SchemaMismatch(String::from_str("no column has this name")),
            ),
        }
    }

    /// Returns a copy of the column at an index, or `None` beyond the width.
    pub fn select_at_idx(&self, i: usize) -> (r: Option<Series>)
        ensures
            r is Some <==> i < self@.len(),
            r matches Some(s) ==> s@ == self@[i as int],
    {
        if i < self.columns.len() {
            Some(self.columns[i].dup())
        } else {
            None
        }
    }

    /// Projects the named columns, in the requested order.  Fails with
    /// `SchemaMismatch` exactly when a name is missing or requested twice.
    pub fn select(&self, names: &Vec<String>) -> (r: Result<DataFrame, EngineError>)
        requires
            self.wf(),
        ensures
            r is Ok <==> (spec_names_found(self@, names@) && spec_names_unique(names@)),
            r matches Err(e) ==> e is SchemaMismatch,
            r matches Ok(d) ==> {
                &&& d.wf()
                &&& d@.len() == names@.len()
                &&& forall|k: int|
                    0 <= k < names@.len() ==> (#[trigger] d@[k]).name == names@[k]@
                &&& forall|k: int, j: int|
                    0 <= k < names@.len() && 0 <= j < self@.len() && self@[j].name == names@[k]@
                        ==> (#[trigger] d@[k]) == (#[trigger] self@[j])
            },
    {
        // Reject duplicate requested names.
        let mut a: usize = 0;
        while a < names.len()
            invariant
                a <= names@.len(),
                forall|x: int, y: int|
                    0 <= x < y < names@.len() && y < a ==> (#[trigger] names@[x])@ != (
                    #[trigger] names@[y])@,
            decreases names@.len() - a,
        {
            let mut b: usize = 0;
            while b < a
                invariant
                    a < names@.len(),
                    b <= a,
                    forall|x: int| 0 <= x < b ==> (#[trigger] names@[x])@ != names@[a as int]@,
                decreases a - b,
            {
                if str_eq(names[b].as_str(), names[a].as_str()) {
                    proof {
                        assert(names@[b as int]@ == names@[a as int]@);
                        assert(!spec_names_unique(names@));
                    }
                    return Err(
                        EngineError::SchemaMismatch(
                            String::from_str("a column was selected twice"),
                        ),
                    );
                }
                b = b + 1;
            }
            a = a + 1;
        }
        let mut cols: Vec<Series> = Vec::new();
        let mut k: usize = 0;
        while k < names.len()
            invariant
                self.wf(),
                k <= names@.len(),
                cols@.len() == k,
                forall|x: int, y: int|
                    0 <= x < y < names@.len() ==> (#[trigger] names@[x])@ != (
                    #[trigger] names@[y])@,
                forall|x: int| 0 <= x < k ==> spec_has_col(self@, (#[trigger] names@[x])@),
                forall|x: int| 0 <= x < k ==> (#[trigger] cols@[x]@).name == names@[x]@,
                forall|x: int, j: int|
                    0 <= x < k && 0 <= j < self@.len() && self@[j].name == names@[x]@ ==> (
                    #[trigger] cols@[x]@) == (#[trigger] self@[j]),
                forall|x: int|
                    0 <= x < k ==> (#[trigger] cols@[x]@).values.len() == self.spec_h(),
                forall|x: int| 0 <= x < k ==> series_wf(#[trigger] cols@[x]@),
            decreases names@.len() - k,
        {
            match self.find_col(names[k].as_str()) {
                Some(i) => {
                    proof {
                        assert(spec_has_col(self@, names@[k as int]@));
                    }
                    cols.push(self.columns[i].dup());
                },
                None => {
                    proof {
                        assert(!spec_has_col(self@, names@[k as int]@)) by {
                            if spec_has_col(self@, names@[k as int]@) {
                                let j = choose|j: int|
                                    0 <= j < self@.len() && (#[trigger] self@[j].name)
                                        == names@[k as int]@;
                                assert(false);
                            }
                        }
                        assert(!spec_names_found(self@, names@));
                    }
                    return Err(
                        EngineError::SchemaMismatch(
                            String::from_str("a selected column does not exist"),
                        ),
                    );
                },
            }
            k = k + 1;
        }
        let d = DataFrame { columns: cols };
        proof {
            assert(spec_names_found(self@, names@)) by {
                assert forall|x: int|
                    #![trigger names@[x]]
                    0 <= x < names@.len() implies spec_has_col(self@, names@[x]@) by {
                    assert(names@[x]@ == names@[x]@);
                }
            }
            assert(spec_names_unique(names@)) by {
                assert forall|a2: int, b2: int|
                    0 <= a2 < b2 < names@.len() implies (#[trigger] names@[a2])@ != (
                #[trigger] names@[b2])@ by {
                    assert(names@[a2]@ == names@[a2]@);
                    assert(names@[b2]@ == names@[b2]@);
                }
            }
        }
        assert(d.wf()) by {
            assert(forall|x: int|
                0 <= x < d@.len() ==> (#[trigger] d@[x]).values.len() == spec_height(d@));
        }
        Ok(d)
    }

    /// The frame without the named column.  Fails with `SchemaMismatch`
    /// exactly when no column has that name.
    pub fn drop(&self, name: &str) -> (r: Result<DataFrame, EngineError>)
        requires
            self.wf(),
        ensures
            r is Ok <==> exists|j: int| 0 <= j < self@.len() && (#[trigger] self@[j].name)
                == name@,
            r matches Err(e) ==> e is SchemaMismatch,
            r matches Ok(d) ==> {
                &&& d.wf()
                &&& forall|j: int|
                    0 <= j < self@.len() && (#[trigger] self@[j].name) == name@ ==> d@
                        =~= self@.subrange(0, j) + self@.subrange(j + 1, self@.len() as int)
            },
    {
        let found = self.find_col(name);
        match found {
            None => Err(
                EngineError::SchemaMismatch(String::from_str("no column has this name")),
            ),
            Some(ci) => {
                let mut cols: Vec<Series> = Vec::new();
                let mut i: usize = 0;
                while i < self.columns.len()
                    invariant
                        self.wf(),
                        ci < self@.len(),
                        i <= self.columns@.len(),
                        cols@.len() == (if i <= ci {
                            i as int
                        } else {
                            i - 1
                        }),
                        forall|j: int|
                            0 <= j < i && j < ci ==> #[trigger] cols@[j]@ == self@[j],
                        forall|j: int|
                            ci < j < i ==> #[trigger] cols@[j - 1]@ == self@[j],
                    decreases self.columns@.len() - i,
                {
                    if i != ci {
                        cols.push(self.columns[i].dup());
                    }
                    i = i + 1;
                }
                let d = DataFrame { columns: cols };
                proof {
                    let j = ci as int;
                    let rest = self@.subrange(0, j) + self@.subrange(j + 1, self@.len() as int);
                    assert(d@.len() == rest.len());
                    assert forall|x: int| 0 <= x < d@.len() implies d@[x] == rest[x] by {
                        assert(d@[x] == cols@[x]@);
                        if x < j {
                            assert(cols@[x]@ == self@[x]);
                            assert(rest[x] == self@[x]);
                        } else {
                            assert(cols@[(x + 1) - 1]@ == self@[x + 1]);
                            assert(rest[x] == self@[x + 1]);
                        }
                    }
                    assert(d@ =~= self@.subrange(0, j) + self@.subrange(
                        j + 1,
                        self@.len() as int,
                    ));
                    assert forall|x: int| 0 <= x < d@.len() implies series_wf(#[trigger] d@[x])
                        && d@[x].values.len() == spec_height(d@) by {
                        if x < j {
                            assert(d@[x] == self@[x]);
                        } else {
                            assert(d@[x] == self@[x + 1]);
                        }
                        if d@.len() > 0 {
                            if 0 < j {
                                assert(d@[0] == self@[0]);
                            } else {
                                assert(d@[0] == self@[1]);
                            }
                        }
                    }
                }
                Ok(d)
            },
        }
    }

    /// Adds a column, or replaces the column of the same name in place.
    /// Fails with `SchemaMismatch` exactly when the new column's length
    /// differs from the height of a non-empty frame.
    pub fn with_column(&self, s: Series) -> (r: Result<DataFrame, EngineError>)
        requires
            self.wf(),
            s.wf(),
        ensures
            r is Ok <==> (self@.len() == 0 || s@.values.len() == self.spec_h()),
            r matches Err(e) ==> e is SchemaMismatch,
            r matches Ok(d) ==> {
                &&& d.wf()
                &&& (forall|j: int| 0 <= j < self@.len() ==> (#[trigger] self@[j].name) != s@.name)
                    ==> d@ =~= self@.push(s@)
                &&& forall|j: int|
                    0 <= j < self@.len() && (#[trigger] self@[j].name) == s@.name ==> d@
                        =~= self@.update(j, s@)
            },
    {
        if self.columns.len() > 0 && s.len() != self.height() {
            return Err(
                EngineError::SchemaMismatch(
                    String::from_str("new column length must equal the frame height"),
                ),
            );
        }
        let found = self.find_col(s.name.as_str());
        let mut cols: Vec<Series> = Vec::new();
        let mut i: usize = 0;
        while i < self.columns.len()
            invariant
                self.wf(),
                found matches Some(ci) ==> ci < self@.len() && self@[ci as int].name == s@.name,
                i <= self.columns@.len(),
                cols@.len() == i,
                forall|j: int|
                    0 <= j < i && (found matches Some(ci) ==> j != ci as int)
                        ==> #[trigger] cols@[j]@ == self@[j],
                forall|j: int|
                    0 <= j < i && found == Some(j as usize) ==> #[trigger] cols@[j]@ == s@,
            decreases self.columns@.len() - i,
        {
            let replace = match found {
                Some(ci) => i == ci,
                None => false,
            };
            if replace {
                cols.push(s.dup());
            } else {
                cols.push(self.columns[i].dup());
            }
            i = i + 1;
        }
        match found {
            Some(_) => {},
            None => {
                cols.push(s.dup());
            },
        }
        let d = DataFrame { columns: cols };
        proof {
            match found {
                Some(ci) => {
                    assert(d@ =~= self@.update(ci as int, s@));
                    assert forall|x: int| 0 <= x < d@.len() implies series_wf(#[trigger] d@[x])
                        && d@[x].values.len() == spec_height(d@) by {}
                },
                None => {
                    assert(d@ =~= self@.push(s@));
                    assert forall|x: int| 0 <= x < d@.len() implies series_wf(#[trigger] d@[x])
                        && d@[x].values.len() == spec_height(d@) by {}
                },
            }
        }
        Ok(d)
    }

    /// Renames all columns positionally.  Fails with `SchemaMismatch` exactly
    /// when the name count differs from the width or two names coincide.
    pub fn set_column_names(&self, names: &Vec<String>) -> (r: Result<DataFrame, EngineError>)
        requires
            self.wf(),
        ensures
            r is Ok <==> (names@.len() == self@.len() && (forall|a: int, b: int|
                0 <= a < b < names@.len() ==> (#[trigger] names@[a])@ != (
                #[trigger] names@[b])@)),
            r matches Err(e) ==> e is SchemaMismatch,
            r matches Ok(d) ==> {
                &&& d.wf()
                &&& d@.len() == self@.len()
                &&& forall|k: int|
                    0 <= k < self@.len() ==> (#[trigger] d@[k]) == SeriesModel {
                        name: names@[k]@,
                        ..self@[k]
                    }
            },
    {
        if names.len() != self.columns.len() {
            return Err(
                EngineError::SchemaMismatch(
                    String::from_str("one name is needed for each column"),
                ),
            );
        }
        let mut a: usize = 0;
        while a < names.len()
            invariant
                a <= names@.len(),
                forall|x: int, y: int|
                    0 <= x < y < names@.len() && y < a ==> (#[trigger] names@[x])@ != (
                    #[trigger] names@[y])@,
            decreases names@.len() - a,
        {
            let mut b: usize = 0;
            while b < a
                invariant
                    a < names@.len(),
                    b <= a,
                    forall|x: int| 0 <= x < b ==> (#[trigger] names@[x])@ != names@[a as int]@,
                decreases a - b,
            {
                if str_eq(names[b].as_str(), names[a].as_str()) {
                    proof {
                        assert(names@[b as int]@ == names@[a as int]@);
                    }
                    return Err(
                        EngineError::SchemaMismatch(
                            String::from_str("column names must be unique"),
                        ),
                    );
                }
                b = b + 1;
            }
            a = a + 1;
        }
        let mut cols: Vec<Series> = Vec::new();
        let mut i: usize = 0;
        while i < self.columns.len()
            invariant
                self.wf(),
                names@.len() == self@.len(),
                i <= self.columns@.len(),
                cols@.len() == i,
                forall|j: int|
                    0 <= j < i ==> #[trigger] cols@[j]@ == (SeriesModel {
                        name: names@[j]@,
                        ..self@[j]
                    }),
            decreases self.columns@.len() - i,
        {
            cols.push(self.columns[i].rename(names[i].clone()));
            i = i + 1;
        }
        let d = DataFrame { columns: cols };
        proof {
            assert forall|x: int| 0 <= x < d@.len() implies series_wf(#[trigger] d@[x])
                && d@[x].values.len() == spec_height(d@) by {}
        }
        Ok(d)
    }

    /// Keeps the rows whose mask entry is `true`.  A mask whose length
    /// differs from the frame height always fails with `SchemaMismatch`; a
    /// mask that is not Boolean fails with `InvalidArgument`.
    pub fn filter(&self, mask: &Series) -> (r: Result<DataFrame, EngineError>)
        requires
            self.wf(),
        ensures
            r is Ok <==> (mask@.values.len() == self.spec_h() && mask@.dtype == Dtype::Boolean),
            r matches Err(e) ==> {
                &&& mask@.values.len() != self.spec_h() ==> e is SchemaMismatch
                &&& (mask@.values.len() == self.spec_h() && mask@.dtype != Dtype::Boolean)
                    ==> e is InvalidArgument
            },
            r matches Ok(d) ==> {
                &&& d.wf()
                &&& d@.len() == self@.len()
                &&& forall|c: int|
                    0 <= c < self@.len() ==> (#[trigger] d@[c]) == (SeriesModel {
                        values: spec_mask_filter(self@[c].values, mask@.values),
                        ..self@[c]
                    })
            },
    {
        if mask.len() != self.height() {
            return Err(
                EngineError::SchemaMismatch(
                    String::from_str("filter mask length does not equal the frame height"),
                ),
            );
        }
        if mask.dtype() != Dtype::Boolean {
            return Err(
                EngineError::InvalidArgument(String::from_str("filter mask must be Boolean")),
            );
        }
        let mut cols: Vec<Series> = Vec::new();
        let mut i: usize = 0;
        while i < self.columns.len()
            invariant
                self.wf(),
                mask@.values.len() == self.spec_h(),
                mask@.dtype == Dtype::Boolean,
                i <= self.columns@.len(),
                cols@.len() == i,
                forall|j: int| 0 <= j < i ==> series_wf(#[trigger] cols@[j]@),
                forall|j: int|
                    0 <= j < i ==> #[trigger] cols@[j]@ == (SeriesModel {
                        values: spec_mask_filter(self@[j].values, mask@.values),
                        ..self@[j]
                    }),
            decreases self.columns@.len() - i,
        {
            proof {
                assert(self.columns@[i as int]@ == self@[i as int]);
                assert(series_wf(self@[i as int]));
                assert(self@[i as int].values.len() == self.spec_h());
            }
            match self.columns[i].filter(mask) {
                Ok(s) => {
                    cols.push(s);
                },
                Err(_) => {
                    proof {
                        assert(false);
                    }
                    return Err(
                        EngineError::ComputationFailure(String::from_str("unreachable")),
                    );
                },
            }
            i = i + 1;
        }
        let d = DataFrame { columns: cols };
        proof {
            assert forall|x: int| 0 <= x < d@.len() implies series_wf(#[trigger] d@[x])
                && d@[x].values.len() == spec_height(d@) by {
                lemma_mask_filter_len(self@[x].values, mask@.values);
                if d@.len() > 0 {
                    lemma_mask_filter_len(self@[0].values, mask@.values);
                }
            }
        }
        Ok(d)
    }

    /// Stacks another frame below this one.  Fails with `SchemaMismatch`
    /// exactly when the schemas differ (width, a name, or a dtype).  The
    /// result's height is the sum of the two heights, and every column's
    /// contents are this frame's cells followed by the other's.
    pub fn vstack(&self, other: &DataFrame) -> (r: Result<DataFrame, EngineError>)
        requires
            self.wf(),
            other.wf(),
        ensures
            r is Ok <==> (self@.len() == other@.len() && (forall|c: int|
                0 <= c < self@.len() ==> (#[trigger] self@[c].name) == other@[c].name) && (
            forall|c: int|
                0 <= c < self@.len() ==> (#[trigger] self@[c].dtype) == other@[c].dtype)),
            r matches Err(e) ==> e is SchemaMismatch,
            r matches Ok(d) ==> {
                &&& d.wf()
                &&& d@.len() == self@.len()
                &&& spec_height(d@) == self.spec_h() + spec_height(other@)
                &&& forall|c: int|
                    0 <= c < self@.len() ==> (#[trigger] d@[c]) == (SeriesModel {
                        values: self@[c].values + other@[c].values,
                        ..self@[c]
                    })
            },
    {
        if self.columns.len() != other.columns.len() {
            return Err(
                EngineError::SchemaMismatch(
                    String::from_str("stacked frames must share their schema"),
                ),
            );
        }
        let mut i: usize = 0;
        while i < self.columns.len()
            invariant
                self.wf(),
                other.wf(),
                self@.len() == other@.len(),
                i <= self@.len(),
                forall|c: int| 0 <= c < i ==> (#[trigger] self@[c].name) == other@[c].name,
                forall|c: int| 0 <= c < i ==> (#[trigger] self@[c].dtype) == other@[c].dtype,
            decreases self@.len() - i,
        {
            if !str_eq(self.columns[i].name.as_str(), other.columns[i].name.as_str()) {
                proof {
                    assert(self@[i as int].name != other@[i as int].name);
                }
                return Err(
                    EngineError::SchemaMismatch(
                        String::from_str("stacked frames must share their column names"),
                    ),
                );
            }
            if self.columns[i].dtype() != other.columns[i].dtype() {
                proof {
                    assert(self@[i as int].dtype != other@[i as int].dtype);
                }
                return Err(
                    EngineError::SchemaMismatch(
                        String::from_str("stacked frames must share their column dtypes"),
                    ),
                );
            }
            proof {
                assert(self@[i as int].name == other@[i as int].name);
                assert(self@[i as int].dtype == other@[i as int].dtype);
            }
            i = i + 1;
        }
        let mut cols: Vec<Series> = Vec::new();
        let mut k: usize = 0;
        while k < self.columns.len()
            invariant
                self.wf(),
                other.wf(),
                self@.len() == other@.len(),
                forall|c: int|
                    0 <= c < self@.len() ==> (#[trigger] self@[c].name) == other@[c].name,
                forall|c: int|
                    0 <= c < self@.len() ==> (#[trigger] self@[c].dtype) == other@[c].dtype,
                k <= self@.len(),
                cols@.len() == k,
                forall|c: int| 0 <= c < k ==> series_wf(#[trigger] cols@[c]@),
                forall|c: int|
                    0 <= c < k ==> #[trigger] cols@[c]@ == (SeriesModel {
                        values: self@[c].values + other@[c].values,
                        ..self@[c]
                    }),
            decreases self@.len() - k,
        {
            proof {
                assert(self.columns@[k as int]@ == self@[k as int]);
                assert(other.columns@[k as int]@ == other@[k as int]);
                assert(series_wf(self@[k as int]));
                assert(series_wf(other@[k as int]));
                assert(self@[k as int].dtype == other@[k as int].dtype);
            }
            match self.columns[k].append(&other.columns[k]) {
                Ok(s) => {
                    cols.push(s);
                },
                Err(_) => {
                    proof {
                        assert(false);
                    }
                    return Err(
                        EngineError::ComputationFailure(String::from_str("unreachable")),
                    );
                },
            }
            k = k + 1;
        }
        let d = DataFrame { columns: cols };
        proof {
            assert forall|x: int| 0 <= x < d@.len() implies series_wf(#[trigger] d@[x])
                && d@[x].values.len() == spec_height(d@) by {
                if d@.len() > 0 {
                    assert(d@[0].values.len() == self@[0].values.len()
                        + other@[0].values.len());
                }
            }
        }
        Ok(d)
    }

    /// Stacks another frame beside this one.  Fails with `SchemaMismatch`
    /// exactly when the heights differ or a column name is shared.
    pub fn hstack(&self, other: &DataFrame) -> (r: Result<DataFrame, EngineError>)
        requires
            self.wf(),
            other.wf(),
        ensures
            r is Ok <==> ((self@.len() == 0 || other@.len() == 0 || self.spec_h() == spec_height(
                other@,
            )) && (forall|a: int, b: int|
                0 <= a < self@.len() && 0 <= b < other@.len() ==> (#[trigger] self@[a].name) != (
                #[trigger] other@[b].name))),
            r matches Err(e) ==> e is SchemaMismatch,
            r matches Ok(d) ==> {
                &&& d.wf()
                &&& d@ =~= self@ + other@
            },
    {
        if self.columns.len() > 0 && other.columns.len() > 0 && self.height() != other.height() {
            return Err(
                EngineError::SchemaMismatch(
                    String::from_str("side-stacked frames must share their height"),
                ),
            );
        }
        let mut a: usize = 0;
        while a < self.columns.len()
            invariant
                self.wf(),
                other.wf(),
                a <= self@.len(),
                forall|x: int, y: int|
                    0 <= x < a && 0 <= y < other@.len() ==> (#[trigger] self@[x].name) != (
                    #[trigger] other@[y].name),
            decreases self@.len() - a,
        {
            let mut b: usize = 0;
            while b < other.columns.len()
                invariant
                    self.wf(),
                    other.wf(),
                    a < self@.len(),
                    b <= other@.len(),
                    forall|y: int|
                        0 <= y < b ==> self@[a as int].name != (#[trigger] other@[y].name),
                decreases other@.len() - b,
            {
                if str_eq(self.columns[a].name.as_str(), other.columns[b].name.as_str()) {
                    proof {
                        assert(self@[a as int].name == other@[b as int].name);
                    }
                    return Err(
                        EngineError::SchemaMismatch(
                            String::from_str("side-stacked frames must not share a name"),
                        ),
                    );
                }
                b = b + 1;
            }
            a = a + 1;
        }
        let mut cols = self.get_columns();
        let mut k: usize = 0;
        while k < other.columns.len()
            invariant
                other.wf(),
                k <= other@.len(),
                cols@.len() == self@.len() + k,
                forall|j: int| 0 <= j < self@.len() ==> #[trigger] cols@[j]@ == self@[j],
                forall|j: int|
                    self@.len() <= j < self@.len() + k ==> #[trigger] cols@[j]@ == other@[j
                        - self@.len()],
            decreases other@.len() - k,
        {
            cols.push(other.columns[k].dup());
            k = k + 1;
        }
        let d = DataFrame { columns: cols };
        proof {
            assert(d@ =~= self@ + other@);
            if self@.len() > 0 && other@.len() > 0 {
                assert(spec_height(d@) == self.spec_h());
            }
            assert forall|x: int| 0 <= x < d@.len() implies series_wf(#[trigger] d@[x])
                && d@[x].values.len() == spec_height(d@) by {
                if x < self@.len() {
                    assert(d@[x] == self@[x]);
                } else {
                    assert(d@[x] == other@[x - self@.len()]);
                }
            }
        }
        Ok(d)
    }

    /// The rows `[offset, offset + length)`, clamped to the height.
    pub fn slice(&self, offset: usize, length: usize) -> (r: DataFrame)
        requires
            self.wf(),
        ensures
            r.wf(),
            r@.len() == self@.len(),
            forall|c: int|
                0 <= c < self@.len() ==> (#[trigger] r@[c]) == (SeriesModel {
                    values: spec_clamped_slice(self@[c].values, offset as int, length as int),
                    ..self@[c]
                }),
    {
        let mut cols: Vec<Series> = Vec::new();
        let mut i: usize = 0;
        while i < self.columns.len()
            invariant
                self.wf(),
                i <= self@.len(),
                cols@.len() == i,
                forall|j: int| 0 <= j < i ==> series_wf(#[trigger] cols@[j]@),
                forall|j: int|
                    0 <= j < i ==> #[trigger] cols@[j]@ == (SeriesModel {
                        values: spec_clamped_slice(
                            self@[j].values,
                            offset as int,
                            length as int,
                        ),
                        ..self@[j]
                    }),
            decreases self@.len() - i,
        {
            proof {
                assert(self.columns@[i as int]@ == self@[i as int]);
                assert(series_wf(self@[i as int]));
            }
            let s = self.columns[i].slice(offset, length);
            proof {
                assert(s@ == (SeriesModel {
                    values: spec_clamped_slice(self@[i as int].values, offset as int, length as int),
                    ..self@[i as int]
                }));
            }
            cols.push(s);
            i = i + 1;
        }
        let d = DataFrame { columns: cols };
        proof {
            assert forall|x: int| 0 <= x < d@.len() implies series_wf(#[trigger] d@[x])
                && d@[x].values.len() == spec_height(d@) by {
                if d@.len() > 0 {
                }
            }
        }
        d
    }

    /// The first `n` rows.
    pub fn head(&self, n: usize) -> (r: DataFrame)
        requires
            self.wf(),
        ensures
            r.wf(),
            r@.len() == self@.len(),
            forall|c: int|
                0 <= c < self@.len() ==> (#[trigger] r@[c]) == (SeriesModel {
                    values: spec_clamped_slice(self@[c].values, 0, n as int),
                    ..self@[c]
                }),
    {
        self.slice(0, n)
    }

    /// The last `n` rows.
    pub fn tail(&self, n: usize) -> (r: DataFrame)
        requires
            self.wf(),
        ensures
            r.wf(),
            r@.len() == self@.len(),
            forall|c: int|
                0 <= c < self@.len() ==> (#[trigger] r@[c]) == (SeriesModel {
                    values: self@[c].values.subrange(
                        if n as int <= self.spec_h() {
                            self.spec_h() - n as int
                        } else {
                            0
                        },
                        self.spec_h(),
                    ),
                    ..self@[c]
                }),
    {
        let h = self.height();
        let start = if n <= h {
            h - n
        } else {
            0
        };
        let r = self.slice(start, h - start);
        proof {
            assert forall|c: int| 0 <= c < self@.len() implies (#[trigger] r@[c]) == (
            SeriesModel {
                values: self@[c].values.subrange(
                    if n as int <= self.spec_h() {
                        self.spec_h() - n as int
                    } else {
                        0
                    },
                    self.spec_h(),
                ),
                ..self@[c]
            }) by {
                assert(spec_clamped_slice(self@[c].values, start as int, (h - start) as int)
                    =~= self@[c].values.subrange(start as int, self.spec_h()));
            }
        }
        r
    }

    /// Gathers the rows at an explicit index list, in that order.  Fails with
    /// `IndexOutOfBounds` exactly when some index is not below the height.
    pub fn take(&self, indices: &Vec<usize>) -> (r: Result<DataFrame, EngineError>)
        requires
            self.wf(),
        ensures
            r is Ok <==> (forall|i: int|
                0 <= i < indices@.len() ==> #[trigger] indices@[i] < self.spec_h()),
            r matches Err(e) ==> e is IndexOutOfBounds,
            r matches Ok(d) ==> {
                &&& d.wf()
                &&& d@.len() == self@.len()
                &&& forall|c: int|
                    0 <= c < self@.len() ==> (#[trigger] d@[c]) == (SeriesModel {
                        values: spec_take(
                            self@[c].values,
                            indices@.map_values(|j: usize| j as int),
                        ),
                        ..self@[c]
                    })
            },
    {
        let h = self.height();
        let mut i: usize = 0;
        while i < indices.len()
            invariant
                h == self.spec_h(),
                i <= indices@.len(),
                forall|j: int| 0 <= j < i ==> #[trigger] indices@[j] < self.spec_h(),
            decreases indices@.len() - i,
        {
            if indices[i] >= h {
                return Err(
                    EngineError::IndexOutOfBounds(
                        String::from_str("take index beyond the frame height"),
                    ),
                );
            }
            i = i + 1;
        }
        let mut cols: Vec<Series> = Vec::new();
        let mut c: usize = 0;
        while c < self.columns.len()
            invariant
                self.wf(),
                forall|j: int| 0 <= j < indices@.len() ==> #[trigger] indices@[j] < self.spec_h(),
                c <= self@.len(),
                cols@.len() == c,
                forall|j: int| 0 <= j < c ==> series_wf(#[trigger] cols@[j]@),
                forall|j: int|
                    0 <= j < c ==> #[trigger] cols@[j]@ == (SeriesModel {
                        values: spec_take(
                            self@[j].values,
                            indices@.map_values(|x: usize| x as int),
                        ),
                        ..self@[j]
                    }),
            decreases self@.len() - c,
        {
            proof {
                assert(self.columns@[c as int]@ == self@[c as int]);
                assert(series_wf(self@[c as int]));
                assert(self@[c as int].values.len() == self.spec_h());
            }
            match self.columns[c].take(indices) {
                Ok(s) => {
                    proof {
                        assert(s@ == (SeriesModel {
                            values: spec_take(
                                self@[c as int].values,
                                indices@.map_values(|x: usize| x as int),
                            ),
                            ..self@[c as int]
                        }));
                    }
                    cols.push(s);
                },
                Err(_) => {
                    proof {
                        assert(false);
                    }
                    return Err(
                        EngineError::ComputationFailure(String::from_str("unreachable")),
                    );
                },
            }
            c = c + 1;
        }
        let d = DataFrame { columns: cols };
        proof {
            assert forall|x: int| 0 <= x < d@.len() implies series_wf(#[trigger] d@[x])
                && d@[x].values.len() == spec_height(d@) by {}
        }
        Ok(d)
    }

    /// Drops every row that holds a null.
    pub fn drop_nulls(&self) -> (r: Result<DataFrame, EngineError>)
        requires
            self.wf(),
        ensures
            r is Ok,
            r matches Ok(d) ==> {
                &&& d.wf()
                &&& d@.len() == self@.len()
                &&& forall|c: int|
                    0 <= c < self@.len() ==> (#[trigger] d@[c]) == (SeriesModel {
                        values: spec_mask_filter(self@[c].values, spec_no_null_mask(self@)),
                        ..self@[c]
                    })
            },
    {
        let h = self.height();
        let mut cells: Vec<TypedValue> = Vec::new();
        let mut r: usize = 0;
        while r < h
            invariant
                self.wf(),
                h == self.spec_h(),
                r <= h,
                cells@.len() == r,
                forall|j: int|
                    0 <= j < r ==> #[trigger] cells@[j]@ == spec_no_null_mask(self@)[j],
            decreases h - r,
        {
            let mut has_null = false;
            let mut c: usize = 0;
            while c < self.columns.len()
                invariant
                    self.wf(),
                    h == self.spec_h(),
                    r < h,
                    c <= self@.len(),
                    has_null == exists|x: int|
                        0 <= x < c && (#[trigger] self@[x].values[r as int]) is Null,
                decreases self@.len() - c,
            {
                if self.columns[c].values[r].is_null() {
                    proof {
                        assert(self@[c as int].values[r as int] is Null);
                    }
                    has_null = true;
                }
                c = c + 1;
            }
            proof {
                assert(spec_no_null_mask(self@).len() == self.spec_h());
                assert(spec_no_null_mask(self@)[r as int] == Val::Boolean(
                    !exists|x: int|
                        0 <= x < self@.len() && (#[trigger] self@[x].values[r as int]) is Null,
                ));
            }
            cells.push(TypedValue::Boolean(!has_null));
            r = r + 1;
        }
        let mask = Series { name: String::new(), dtype: Dtype::Boolean, values: cells };
        proof {
            assert(mask@.values =~= spec_no_null_mask(self@));
        }
        self.filter(&mask)
    }
}

/// The row mask that keeps exactly the rows without a null.
pub open spec fn spec_no_null_mask(cols: Seq<SeriesModel>) -> Seq<Val> {
    Seq::new(
        spec_height(cols) as nat,
        |r: int|
            Val::Boolean(
                !exists|c: int| 0 <= c < cols.len() && (#[trigger] cols[c].values[r]) is Null,
            ),
    )
}

} // verus!
