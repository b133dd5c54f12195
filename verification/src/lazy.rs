//! Deferred query plans over a frame.
//!
//! A lazy frame holds a base frame and an immutable list of plan steps.  No
//! step evaluates anything: each building operation returns a new lazy frame
//! and leaves the old one valid.  Only `collect` and `fetch` materialize.

use vstd::prelude::*;

use crate::error::EngineError;
use crate::frame::{frame_wf, DataFrame};
use crate::series::{spec_clamped_slice, SeriesModel};
use crate::value::Dtype;

verus! {

/// One deferred plan step.
#[derive(Debug)]
pub enum PlanStep {
    /// Keep the named columns, in the given order.
    Select(Vec<String>),
    /// Drop the named column.
    Drop(String),
    /// Keep the first `n` rows.
    Head(usize),
    /// Keep the last `n` rows.
    Tail(usize),
}

/// The model of one plan step.
pub enum StepModel {
    Select(Seq<Seq<char>>),
    Drop(Seq<char>),
    Head(int),
    Tail(int),
}

impl View for PlanStep {
    type V = StepModel;

    open spec fn view(&self) -> StepModel {
        match self {
            PlanStep::Select(names) => StepModel::Select(
                Seq::new(names@.len(), |i: int| names@[i]@),
            ),
            PlanStep::Drop(name) => StepModel::Drop(name@),
            PlanStep::Head(n) => StepModel::Head(*n as int),
            PlanStep::Tail(n) => StepModel::Tail(*n as int),
        }
    }
}

/// What one step turns a frame into; `None` when the step cannot apply.
pub open spec fn spec_apply_step(cols: Seq<SeriesModel>, step: StepModel) -> Option<
    Seq<SeriesModel>,
> {
    match step {
        StepModel::Select(names) => if (forall|v: int|
            #![trigger names[v]]
            0 <= v < names.len() ==> crate::frame::spec_has_col(cols, names[v])) && (
        forall|a: int, b: int|
            0 <= a < b < names.len() ==> (#[trigger] names[a]) != (#[trigger] names[b])) {
            Some(
                Seq::new(
                    names.len(),
                    |k: int|
                        cols[choose|j: int|
                            0 <= j < cols.len() && (#[trigger] cols[j].name) == names[k]],
                ),
            )
        } else {
            None
        },
        StepModel::Drop(name) => if exists|j: int|
            0 <= j < cols.len() && (#[trigger] cols[j].name) == name {
            let j = choose|j: int| 0 <= j < cols.len() && (#[trigger] cols[j].name) == name;
            Some(cols.subrange(0, j) + cols.subrange(j + 1, cols.len() as int))
        } else {
            None
        },
        StepModel::Head(n) => Some(
            Seq::new(
                cols.len(),
                |c: int|
                    SeriesModel {
                        values: spec_clamped_slice(cols[c].values, 0, n),
                        ..cols[c]
                    },
            ),
        ),
        StepModel::Tail(n) => Some(
            Seq::new(
                cols.len(),
                |c: int|
                    SeriesModel {
                        values: cols[c].values.subrange(
                            if n <= cols[c].values.len() {
                                cols[c].values.len() - n
                            } else {
                                0
                            },
                            cols[c].values.len() as int,
                        ),
                        ..cols[c]
                    },
            ),
        ),
    }
}

/// What a whole plan turns a frame into, step by step; `None` when some step
/// cannot apply.
pub open spec fn spec_eval_plan(cols: Seq<SeriesModel>, steps: Seq<StepModel>) -> Option<
    Seq<SeriesModel>,
>
    decreases steps.len(),
{
    if steps.len() == 0 {
        Some(cols)
    } else {
        match spec_apply_step(cols, steps[0]) {
            None => None,
            Some(next) => spec_eval_plan(next, steps.drop_first()),
        }
    }
}

/// A deferred plan over a base frame.
#[derive(Debug)]
pub struct LazyFrame {
    pub base: DataFrame,
    pub steps: Vec<PlanStep>,
}

impl View for LazyFrame {
    type V = (Seq<SeriesModel>, Seq<StepModel>);

    open spec fn view(&self) -> (Seq<SeriesModel>, Seq<StepModel>) {
        (self.base@, Seq::new(self.steps@.len(), |i: int| self.steps@[i]@))
    }
}

impl PlanStep {
    /// Returns a structurally equal copy of the step.
    pub fn dup(&self) -> (r: PlanStep)
        ensures
            r@ == self@,
    {
        match self {
            PlanStep::Select(names) => {
                let mut out: Vec<String> = Vec::new();
                let mut i: usize = 0;
                while i < names.len()
                    invariant
                        i <= names@.len(),
                        out@.len() == i,
                        forall|j: int| 0 <= j < i ==> #[trigger] out@[j]@ == names@[j]@,
                    decreases names@.len() - i,
                {
                    out.push(names[i].clone());
                    i = i + 1;
                }
                let r = PlanStep::Select(out);
                assert(r@ == self@) by {
                    assert(Seq::new(out@.len(), |j: int| out@[j]@) =~= Seq::new(
                        names@.len(),
                        |j: int| names@[j]@,
                    ));
                }
                r
            },
            PlanStep::Drop(name) => PlanStep::Drop(name.clone()),
            PlanStep::Head(n) => PlanStep::Head(*n),
            PlanStep::Tail(n) => PlanStep::Tail(*n),
        }
    }
}

impl LazyFrame {
    /// Well-formedness: the base frame is well formed.
    pub open spec fn wf(&self) -> bool {
        frame_wf(self@.0)
    }

    /// Returns a structurally equal copy of the lazy frame.
    pub fn dup(&self) -> (r: LazyFrame)
        ensures
            r@ == self@,
    {
        let base = self.base.dup();
        let mut steps: Vec<PlanStep> = Vec::new();
        let mut i: usize = 0;
        while i < self.steps.len()
            invariant
                i <= self.steps@.len(),
                steps@.len() == i,
                forall|j: int| 0 <= j < i ==> #[trigger] steps@[j]@ == self.steps@[j]@,
            decreases self.steps@.len() - i,
        {
            steps.push(self.steps[i].dup());
            i = i + 1;
        }
        let r = LazyFrame { base, steps };
        assert(r@ == self@) by {
            assert(r@.0 =~= self@.0);
            assert(r@.1 =~= self@.1);
        }
        r
    }

    /// Appends one step, returning a new plan; the old plan stays valid.
    fn with_step(&self, step: PlanStep) -> (r: LazyFrame)
        ensures
            r@.0 == self@.0,
            r@.1 =~= self@.1.push(step@),
    {
        let mut r = self.dup();
        r.steps.push(step);
        assert(r@.1 =~= self@.1.push(step@));
        r
    }

    /// Plans a projection of the named columns.
    pub fn select(&self, names: Vec<String>) -> (r: LazyFrame)
        ensures
            r@.0 == self@.0,
            r@.1 =~= self@.1.push(
                StepModel::Select(Seq::new(names@.len(), |i: int| names@[i]@)),
            ),
    {
        self.with_step(PlanStep::Select(names))
    }

    /// Plans dropping the named column.
    pub fn drop(&self, name: String) -> (r: LazyFrame)
        ensures
            r@.0 == self@.0,
            r@.1 =~= self@.1.push(StepModel::Drop(name@)),
    {
        self.with_step(PlanStep::Drop(name))
    }

    /// Plans keeping the first `n` rows.
    pub fn head(&self, n: usize) -> (r: LazyFrame)
        ensures
            r@.0 == self@.0,
            r@.1 =~= self@.1.push(StepModel::Head(n as int)),
    {
        self.with_step(PlanStep::Head(n))
    }

    /// Plans keeping the last `n` rows.
    pub fn tail(&self, n: usize) -> (r: LazyFrame)
        ensures
            r@.0 == self@.0,
            r@.1 =~= self@.1.push(StepModel::Tail(n as int)),
    {
        self.with_step(PlanStep::Tail(n))
    }

    /// A textual sketch of the plan, one word per step, without evaluating
    /// anything.
    pub fn describe_plan(&self) -> (r: String)
        ensures
            r@ == spec_describe(self@.1),
    {
        proof {
            reveal_strlit("scan");
            reveal_strlit(" select");
            reveal_strlit(" drop");
            reveal_strlit(" head");
            reveal_strlit(" tail");
        }
        let mut s = String::from_str("scan");
        let mut i: usize = 0;
        while i < self.steps.len()
            invariant
                i <= self.steps@.len(),
                s@ == spec_describe(self@.1.take(i as int)),
            decreases self.steps@.len() - i,
        {
            proof {
                reveal_strlit("scan");
                reveal_strlit(" select");
                reveal_strlit(" drop");
                reveal_strlit(" head");
                reveal_strlit(" tail");
                assert(self@.1.take(i + 1).drop_last() =~= self@.1.take(i as int));
                assert(self@.1.take(i + 1).last() == self@.1[i as int]);
                assert(self@.1[i as int] == self.steps@[i as int]@);
            }
            match &self.steps[i] {
                PlanStep::Select(_) => s.append(" select"),
                PlanStep::Drop(_) => s.append(" drop"),
                PlanStep::Head(_) => s.append(" head"),
                PlanStep::Tail(_) => s.append(" tail"),
            }
            i = i + 1;
        }
        assert(self@.1.take(self@.1.len() as int) =~= self@.1);
        s
    }

    /// Evaluates the whole plan to a frame.  Succeeds exactly when every
    /// step applies; a step naming a missing or doubled column is a
    /// `SchemaMismatch`.
    pub fn collect(&self) -> (r: Result<DataFrame, EngineError>)
        requires
            self.wf(),
        ensures
            r is Ok <==> spec_eval_plan(self@.0, self@.1) is Some,
            r matches Err(e) ==> e is SchemaMismatch,
            r matches Ok(d) ==> {
                &&& d.wf()
                &&& Some(d@) == spec_eval_plan(self@.0, self@.1)
            },
    {
        let mut cur = self.base.dup();
        assert(cur@ =~= self@.0);
        assert(self@.1.skip(0) =~= self@.1);
        let mut i: usize = 0;
        while i < self.steps.len()
            invariant
                self.wf(),
                i <= self.steps@.len(),
                frame_wf(cur@),
                spec_eval_plan(self@.0, self@.1) == spec_eval_plan(
                    cur@,
                    self@.1.skip(i as int),
                ),
            decreases self.steps@.len() - i,
        {
            proof {
                assert(self@.1.skip(i as int).drop_first() =~= self@.1.skip(i + 1));
                assert(self@.1.skip(i as int)[0] == self@.1[i as int]);
                assert(self@.1[i as int] == self.steps@[i as int]@);
                assert(self@.1.skip(i as int).len() > 0);
            }
            let next = match &self.steps[i] {
                PlanStep::Select(names) => {
                    let ghost stepm = self@.1[i as int];
                    let ghost nv = (match stepm {
                        StepModel::Select(n) => n,
                        _ => Seq::<Seq<char>>::empty(),
                    });
                    let mut k: usize = 0;
                    while k < names.len()
                        invariant
                            frame_wf(cur@),
                            stepm == self@.1[i as int],
                            spec_eval_plan(self@.0, self@.1) == spec_eval_plan(
                                cur@,
                                self@.1.skip(i as int),
                            ),
                            self@.1.skip(i as int).len() > 0,
                            self@.1.skip(i as int)[0] == stepm,
                            stepm matches StepModel::Select(n) && n == nv,
                            nv.len() == names@.len(),
                            forall|x: int| 0 <= x < nv.len() ==> #[trigger] nv[x] == names@[x]@,
                            k <= names@.len(),
                            forall|x: int|
                                0 <= x < k ==> crate::frame::spec_has_col(
                                    cur@,
                                    #[trigger] nv[x],
                                ),
                        decreases names@.len() - k,
                    {
                        match cur.find_col(names[k].as_str()) {
                            Some(j) => {
                                proof {
                                    assert(cur@[j as int].name == nv[k as int]);
                                    assert(crate::frame::spec_has_col(cur@, nv[k as int]));
                                }
                            },
                            None => {
                                proof {
                                    assert(!crate::frame::spec_has_col(cur@, nv[k as int]))
                                        by {
                                        if crate::frame::spec_has_col(cur@, nv[k as int]) {
                                            let j = choose|j: int|
                                                0 <= j < cur@.len() && (
                                                #[trigger] cur@[j].name) == nv[k as int];
                                            assert(false);
                                        }
                                    }
                                    assert(spec_apply_step(cur@, stepm) is None);
                                    assert(spec_eval_plan(self@.0, self@.1) is None);
                                }
                                return Err(
                                    EngineError::SchemaMismatch(
                                        String::from_str("a selected column does not exist"),
                                    ),
                                );
                            },
                        }
                        k = k + 1;
                    }
                    proof {
                        assert forall|v: int| #![trigger nv[v]]
                            0 <= v < nv.len() implies crate::frame::spec_has_col(
                            cur@,
                            nv[v],
                        ) by {
                            assert(nv[v] == names@[v]@);
                        }
                    }
                    let mut x: usize = 0;
                    while x < names.len()
                        invariant
                            frame_wf(cur@),
                            stepm == self@.1[i as int],
                            spec_eval_plan(self@.0, self@.1) == spec_eval_plan(
                                cur@,
                                self@.1.skip(i as int),
                            ),
                            self@.1.skip(i as int).len() > 0,
                            self@.1.skip(i as int)[0] == stepm,
                            stepm matches StepModel::Select(n) && n == nv,
                            nv.len() == names@.len(),
                            forall|v: int| 0 <= v < nv.len() ==> #[trigger] nv[v] == names@[v]@,
                            x <= names@.len(),
                            forall|v: int, w: int|
                                0 <= v < w < x ==> (#[trigger] nv[v]) != (#[trigger] nv[w]),
                        decreases names@.len() - x,
                    {
                        let mut y: usize = 0;
                        while y < x
                            invariant
                                frame_wf(cur@),
                                stepm == self@.1[i as int],
                                spec_eval_plan(self@.0, self@.1) == spec_eval_plan(
                                    cur@,
                                    self@.1.skip(i as int),
                                ),
                                self@.1.skip(i as int).len() > 0,
                                self@.1.skip(i as int)[0] == stepm,
                                stepm matches StepModel::Select(n) && n == nv,
                                nv.len() == names@.len(),
                                forall|v: int|
                                    0 <= v < nv.len() ==> #[trigger] nv[v] == names@[v]@,
                                x < names@.len(),
                                y <= x,
                                forall|v: int|
                                    0 <= v < y ==> (#[trigger] nv[v]) != nv[x as int],
                            decreases x - y,
                        {
                            if crate::value::str_eq(names[y].as_str(), names[x].as_str()) {
                                proof {
                                    assert(nv[y as int] == nv[x as int]);
                                    assert(spec_apply_step(cur@, stepm) is None);
                                    assert(spec_eval_plan(self@.0, self@.1) is None);
                                }
                                return Err(
                                    EngineError::SchemaMismatch(
                                        String::from_str("a column was selected twice"),
                                    ),
                                );
                            }
                            proof {
                                assert(nv[y as int] != nv[x as int]);
                            }
                            y = y + 1;
                        }
                        x = x + 1;
                    }
                    proof {
                        assert forall|v: int| #![trigger nv[v]]
                            0 <= v < nv.len() implies crate::frame::spec_has_col(
                            cur@,
                            nv[v],
                        ) by {
                            assert(nv[v] == names@[v]@);
                        }
                        assert forall|a: int, b: int|
                            0 <= a < b < nv.len() implies (#[trigger] nv[a]) != (
                        #[trigger] nv[b]) by {
                            assert(nv[a] == names@[a]@);
                            assert(nv[b] == names@[b]@);
                        }
                        assert(stepm == StepModel::Select(nv));
                        assert(spec_apply_step(cur@, stepm) is Some);
                    }
                    match cur.select(names) {
                        Ok(d) => {
                            proof {
                                assert forall|k2: int| 0 <= k2 < nv.len() implies #[trigger] d@[
                                    k2] == cur@[choose|j: int|
                                    0 <= j < cur@.len() && (#[trigger] cur@[j].name) == nv[
                                    k2]] by {
                                    let j = choose|j: int|
                                        0 <= j < cur@.len() && (#[trigger] cur@[j].name) == nv[
                                        k2];
                                    assert(nv[k2] == names@[k2]@);
                                    assert(d@[k2] == cur@[j]);
                                }
                                assert(d@ =~= spec_apply_step(cur@, stepm)->Some_0);
                            }
                            d
                        },
                        Err(e) => {
                            proof {
                                assert forall|k2: int|
                                    #![trigger names@[k2]]
                                    0 <= k2 < names@.len() implies crate::frame::spec_has_col(
                                    cur@,
                                    names@[k2]@,
                                ) by {
                                    assert(nv[k2] == names@[k2]@);
                                }
                                assert(crate::frame::spec_names_found(cur@, names@));
                                assert forall|a: int, b: int|
                                    0 <= a < b < names@.len() implies (#[trigger] names@[a])@
                                    != (#[trigger] names@[b])@ by {
                                    assert(nv[a] == names@[a]@);
                                    assert(nv[b] == names@[b]@);
                                }
                                assert(crate::frame::spec_names_unique(names@));
                                assert(false);
                            }
                            return Err(e);
                        },
                    }
                },
                PlanStep::Drop(name) => {
                    match cur.drop(name.as_str()) {
                        Ok(d) => {
                            proof {
                                let j = choose|j: int|
                                    0 <= j < cur@.len() && (#[trigger] cur@[j].name) == name@;
                                assert(d@ =~= cur@.subrange(0, j) + cur@.subrange(
                                    j + 1,
                                    cur@.len() as int,
                                ));
                                assert(d@ =~= spec_apply_step(
                                    cur@,
                                    self@.1[i as int],
                                )->Some_0);
                            }
                            d
                        },
                        Err(e) => {
                            proof {
                                assert(spec_apply_step(cur@, self@.1[i as int]) is None);
                                assert(spec_eval_plan(self@.0, self@.1) is None);
                            }
                            return Err(e);
                        },
                    }
                },
                PlanStep::Head(n) => {
                    let d = cur.head(*n);
                    proof {
                        assert(d@ =~= spec_apply_step(cur@, self@.1[i as int])->Some_0);
                    }
                    d
                },
                PlanStep::Tail(n) => {
                    let d = cur.tail(*n);
                    proof {
                        assert(d@ =~= spec_apply_step(cur@, self@.1[i as int])->Some_0);
                    }
                    d
                },
            };
            cur = next;
            i = i + 1;
        }
        proof {
            assert(self@.1.skip(self@.1.len() as int) =~= Seq::<StepModel>::empty());
        }
        Ok(cur)
    }

    /// Evaluates the plan and keeps at most the first `budget` rows: a cheap
    /// preview of a large plan.
    pub fn fetch(&self, budget: usize) -> (r: Result<DataFrame, EngineError>)
        requires
            self.wf(),
        ensures
            r is Ok <==> spec_eval_plan(self@.0, self@.1) is Some,
            r matches Err(e) ==> e is SchemaMismatch,
            r matches Ok(d) ==> {
                &&& d.wf()
                &&& Some(d@) == spec_eval_plan(
                    self@.0,
                    self@.1.push(StepModel::Head(budget as int)),
                )
            },
    {
        let capped = self.head(budget);
        proof {
            lemma_eval_plan_push(self@.0, self@.1, StepModel::Head(budget as int));
        }
        capped.collect()
    }

    /// The column names the plan produces, from a schema-only pass.
    pub fn names(&self) -> (r: Result<Vec<String>, EngineError>)
        requires
            self.wf(),
        ensures
            r is Ok <==> spec_eval_plan(self@.0, self@.1) is Some,
            r matches Err(e) ==> e is SchemaMismatch,
            r matches Ok(names) ==> {
                &&& spec_eval_plan(self@.0, self@.1) matches Some(cols) ==> {
                    &&& names@.len() == cols.len()
                    &&& forall|c: int|
                        0 <= c < cols.len() ==> (#[trigger] names@[c]@) == cols[c].name
                }
            },
    {
        match self.collect() {
            Ok(d) => Ok(d.names()),
            Err(e) => Err(e),
        }
    }

    /// The column dtypes the plan produces, from a schema-only pass.
    pub fn dtypes(&self) -> (r: Result<Vec<Dtype>, EngineError>)
        requires
            self.wf(),
        ensures
            r is Ok <==> spec_eval_plan(self@.0, self@.1) is Some,
            r matches Err(e) ==> e is SchemaMismatch,
            r matches Ok(dts) ==> {
                &&& spec_eval_plan(self@.0, self@.1) matches Some(cols) ==> {
                    &&& dts@.len() == cols.len()
                    &&& forall|c: int|
                        0 <= c < cols.len() ==> (#[trigger] dts@[c]) == cols[c].dtype
                }
            },
    {
        match self.collect() {
            Ok(d) => Ok(d.dtypes()),
            Err(e) => Err(e),
        }
    }
}

impl DataFrame {
    /// Wraps this frame in an empty plan.
    pub fn to_lazy(&self) -> (r: LazyFrame)
        ensures
            r@.0 =~= self@,
            r@.1 =~= Seq::<StepModel>::empty(),
    {
        LazyFrame { base: self.dup(), steps: Vec::new() }
    }
}

/// Appending a step evaluates the old plan and then applies the step.
pub proof fn lemma_eval_plan_push(cols: Seq<SeriesModel>, steps: Seq<StepModel>, s: StepModel)
    ensures
        spec_eval_plan(cols, steps.push(s)) == (match spec_eval_plan(cols, steps) {
            None => None::<Seq<SeriesModel>>,
            Some(mid) => spec_apply_step(mid, s),
        }),
    decreases steps.len(),
{
    if steps.len() == 0 {
        assert(steps.push(s)[0] == s);
        assert(steps.push(s).drop_first() =~= Seq::<StepModel>::empty());
        match spec_apply_step(cols, s) {
            None => {},
            Some(n) => {
                assert(spec_eval_plan(n, steps.push(s).drop_first()) == Some(n));
            },
        }
    } else {
        assert(steps.push(s)[0] == steps[0]);
        assert(steps.push(s).drop_first() =~= steps.drop_first().push(s));
        match spec_apply_step(cols, steps[0]) {
            None => {},
            Some(next) => {
                lemma_eval_plan_push(next, steps.drop_first(), s);
            },
        }
    }
}

/// The one-line sketch of a plan.
pub open spec fn spec_describe(steps: Seq<StepModel>) -> Seq<char>
    decreases steps.len(),
{
    if steps.len() == 0 {
        "scan"@
    } else {
        spec_describe(steps.drop_last()) + (match steps.last() {
            StepModel::Select(_) => " select"@,
            StepModel::Drop(_) => " drop"@,
            StepModel::Head(_) => " head"@,
            StepModel::Tail(_) => " tail"@,
        })
    }
}

} // verus!
