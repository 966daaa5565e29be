//! Scenario outlines and their expansion into concrete scenarios.

use vstd::prelude::*;

use crate::data_table::{clone_rows, clone_strings, SpecTable};
use crate::text::{marker, replace, spec_marker, spec_replace, str_eq};
use crate::{clone_opt_string, Scenario, SpecScenario, SpecStep, SpecStepData, Step, StepData};

verus! {

/// One tagged `Examples` block: column names and rows of concrete values.
#[derive(Debug, PartialEq)]
pub struct TaggedScenarios {
    pub(crate) tags: Vec<String>,
    pub(crate) placeholders: Vec<String>,
    pub(crate) values: Vec<Vec<String>>,
}

/// Mathematical model of [`TaggedScenarios`].
pub ghost struct SpecTagged {
    pub tags: Seq<Seq<char>>,
    pub placeholders: Seq<Seq<char>>,
    pub values: Seq<Seq<Seq<char>>>,
}

impl SpecTagged {
    /// Every row is exactly as wide as the placeholder list.
    pub open spec fn wf(self) -> bool {
        forall|i: int|
            0 <= i < self.values.len() ==> #[trigger] self.values[i].len()
                == self.placeholders.len()
    }
}

impl View for TaggedScenarios {
    type V = SpecTagged;

    closed spec fn view(&self) -> SpecTagged {
        SpecTagged {
            tags: self.tags.deep_view(),
            placeholders: self.placeholders.deep_view(),
            values: self.values.deep_view(),
        }
    }
}

impl DeepView for TaggedScenarios {
    type V = SpecTagged;

    open spec fn deep_view(&self) -> SpecTagged {
        self.view()
    }
}

/// Builds an examples block from already-validated parts, keeping them
/// unchanged. Only the parser uses this; it has checked the row widths
/// through the data-table invariant.
pub(crate) fn tagged_from_parts(
    tags: Vec<String>,
    placeholders: Vec<String>,
    values: Vec<Vec<String>>,
) -> (r: TaggedScenarios)
    ensures
        r@ == (SpecTagged {
            tags: tags.deep_view(),
            placeholders: placeholders.deep_view(),
            values: values.deep_view(),
        }),
{
    TaggedScenarios { tags, placeholders, values }
}

impl TaggedScenarios {
    /// Builds an examples block. Succeeds exactly when every row is as wide
    /// as the placeholder list, and then keeps the inputs unchanged.
    pub fn new(tags: Vec<String>, placeholders: Vec<String>, values: Vec<Vec<String>>) -> (r:
        Result<Self, String>)
        ensures
            r is Ok <==> (forall|i: int|
                0 <= i < values@.len() ==> #[trigger] values@[i]@.len() == placeholders@.len()),
            r matches Ok(t) ==> t@ == (SpecTagged {
                tags: tags.deep_view(),
                placeholders: placeholders.deep_view(),
                values: values.deep_view(),
            }) && t@.wf(),
            r matches Err(e) ==> e@ == Seq::<char>::empty(),
    {
        let mut i: usize = 0;
        while i < values.len()
            invariant
                i <= values@.len(),
                forall|j: int| 0 <= j < i ==> #[trigger] values@[j]@.len() == placeholders@.len(),
            decreases values@.len() - i,
        {
            if values[i].len() != placeholders.len() {
                return Err(String::new());
            }
            i += 1;
        }
        Ok(Self { tags, placeholders, values })
    }

    /// The position of the first placeholder equal to `placeholder`, if any.
    pub fn index_of(&self, placeholder: &str) -> (r: Option<usize>)
        ensures
            r matches Some(i) ==> i < self@.placeholders.len() && self@.placeholders[i as int]
                == placeholder@ && (forall|j: int|
                0 <= j < i ==> self@.placeholders[j] != placeholder@),
            r is None ==> (forall|j: int|
                0 <= j < self@.placeholders.len() ==> self@.placeholders[j] != placeholder@),
    {
        let mut i: usize = 0;
        while i < self.placeholders.len()
            invariant
                i <= self.placeholders@.len(),
                forall|j: int| 0 <= j < i ==> self@.placeholders[j] != placeholder@,
            decreases self.placeholders@.len() - i,
        {
            if str_eq(self.placeholders[i].as_str(), placeholder) {
                return Some(i);
            }
            i += 1;
        }
        None
    }

    /// The number of rows in this block.
    pub fn len(&self) -> (r: usize)
        ensures
            r == self@.values.len(),
    {
        self.values.len()
    }

    /// Whether every row is exactly as wide as the placeholder list. True
    /// of every block the constructors and the parser hand out; lets a
    /// caller that built values some other way test the expansion's
    /// precondition.
    pub fn is_well_formed(&self) -> (r: bool)
        ensures
            r == self@.wf(),
    {
        let mut i: usize = 0;
        while i < self.values.len()
            invariant
                i <= self.values@.len(),
                forall|j: int|
                    0 <= j < i ==> #[trigger] self@.values[j].len() == self@.placeholders.len(),
            decreases self.values@.len() - i,
        {
            proof {
                assert(self@.values[i as int] == self.values@[i as int].deep_view());
            }
            if self.values[i].len() != self.placeholders.len() {
                proof {
                    assert(!self@.wf());
                }
                return false;
            }
            i += 1;
        }
        true
    }
}

/// A scenario template with placeholders, plus its tagged examples blocks.
#[derive(Debug, PartialEq)]
pub struct ScenarioOutline {
    pub tags: Vec<String>,
    pub name: Option<String>,
    pub description: Option<String>,
    pub steps: Vec<Step>,
    pub scenarios: Vec<TaggedScenarios>,
}

/// Mathematical model of [`ScenarioOutline`].
pub ghost struct SpecOutline {
    pub tags: Seq<Seq<char>>,
    pub name: Option<Seq<char>>,
    pub description: Option<Seq<char>>,
    pub steps: Seq<SpecStep>,
    pub scenarios: Seq<SpecTagged>,
}

impl SpecOutline {
    /// Every examples block is well-formed.
    pub open spec fn wf(self) -> bool {
        forall|i: int| 0 <= i < self.scenarios.len() ==> (#[trigger] self.scenarios[i]).wf()
    }
}

impl View for ScenarioOutline {
    type V = SpecOutline;

    open spec fn view(&self) -> SpecOutline {
        SpecOutline {
            tags: self.tags.deep_view(),
            name: self.name.deep_view(),
            description: self.description.deep_view(),
            steps: self.steps.deep_view(),
            scenarios: self.scenarios.deep_view(),
        }
    }
}

impl DeepView for ScenarioOutline {
    type V = SpecOutline;

    open spec fn deep_view(&self) -> SpecOutline {
        self.view()
    }
}

/// `s` after substituting, for each column from `k` on in order, the
/// placeholder's marker by the row's cell.
pub open spec fn spec_subst(
    s: Seq<char>,
    phs: Seq<Seq<char>>,
    row: Seq<Seq<char>>,
    k: int,
) -> Seq<char>
    decreases phs.len() - k,
{
    if 0 <= k < phs.len() && k < row.len() {
        spec_subst(spec_replace(s, spec_marker(phs[k]), row[k]), phs, row, k + 1)
    } else {
        s
    }
}

/// Substitution applied to step data: doc-strings are substituted, data
/// tables are left unchanged (substitution into table cells is not
/// supported).
pub open spec fn spec_subst_data(
    d: SpecStepData,
    phs: Seq<Seq<char>>,
    row: Seq<Seq<char>>,
) -> SpecStepData {
    match d {
        SpecStepData::DocString(v) => SpecStepData::DocString(spec_subst(v, phs, row, 0)),
        SpecStepData::DataTable(t) => SpecStepData::DataTable(t),
    }
}

/// Substitution applied to a whole template step.
pub open spec fn spec_subst_step(
    st: SpecStep,
    phs: Seq<Seq<char>>,
    row: Seq<Seq<char>>,
) -> SpecStep {
    SpecStep {
        ty: st.ty,
        description: spec_subst(st.description, phs, row, 0),
        data: match st.data {
            Some(d) => Some(spec_subst_data(d, phs, row)),
            None => None,
        },
    }
}

/// The step substitution for one row, as a function value.
pub open spec fn subst_step_fn(phs: Seq<Seq<char>>, row: Seq<Seq<char>>) -> spec_fn(
    SpecStep,
) -> SpecStep {
    |st: SpecStep| spec_subst_step(st, phs, row)
}

/// The scenario produced from one row of one examples block: the block's
/// tags, the outline's name and description, and the substituted steps.
pub open spec fn spec_expand_row(o: SpecOutline, b: SpecTagged, row: Seq<Seq<char>>) -> SpecScenario {
    SpecScenario {
        tags: b.tags,
        name: o.name,
        description: o.description,
        steps: o.steps.map_values(subst_step_fn(b.placeholders, row)),
    }
}

/// The row expansion of one block, as a function value.
pub open spec fn expand_row_fn(o: SpecOutline, b: SpecTagged) -> spec_fn(Seq<Seq<char>>) -> SpecScenario {
    |row: Seq<Seq<char>>| spec_expand_row(o, b, row)
}

/// All scenarios produced from one examples block, row by row in order.
pub open spec fn spec_expand_block(o: SpecOutline, b: SpecTagged) -> Seq<SpecScenario> {
    b.values.map_values(expand_row_fn(o, b))
}

/// The block expansion of an outline, as a function value.
pub open spec fn expand_block_fn(o: SpecOutline) -> spec_fn(SpecTagged) -> Seq<SpecScenario> {
    |b: SpecTagged| spec_expand_block(o, b)
}

/// The full expansion of an outline: every block in declaration order, each
/// block's rows in declaration order.
pub open spec fn spec_expand(o: SpecOutline) -> Seq<SpecScenario> {
    o.scenarios.flat_map(expand_block_fn(o))
}

/// The expansion of the first `n` examples blocks.
pub open spec fn spec_expand_take(o: SpecOutline, n: int) -> Seq<SpecScenario> {
    o.scenarios.take(n).flat_map(expand_block_fn(o))
}

/// Expanding one more block appends exactly that block's scenarios: the
/// expansion keeps declaration order.
pub proof fn lemma_expand_take_step(o: SpecOutline, n: int)
    requires
        0 <= n < o.scenarios.len(),
    ensures
        spec_expand_take(o, n + 1) == spec_expand_take(o, n) + spec_expand_block(
            o,
            o.scenarios[n],
        ),
{
    o.scenarios.lemma_flat_map_take_append(expand_block_fn(o), n);
}

/// The full expansion is the expansion of all blocks.
pub proof fn lemma_expand_take_all(o: SpecOutline)
    ensures
        spec_expand_take(o, o.scenarios.len() as int) == spec_expand(o),
{
    assert(o.scenarios.take(o.scenarios.len() as int) =~= o.scenarios);
}

/// Expansion is deterministic: two results of [`ScenarioOutline::scenarios`]
/// on the same outline are element-wise equal.
pub proof fn lemma_expand_deterministic(
    o: SpecOutline,
    r1: Seq<SpecScenario>,
    r2: Seq<SpecScenario>,
)
    requires
        r1 == spec_expand(o),
        r2 == spec_expand(o),
    ensures
        r1 == r2,
{
}

/// For an outline with exactly two examples blocks, the expansion is the
/// first block's scenarios followed by the second block's, and each block
/// contributes one scenario per row, in row order.
pub proof fn lemma_expand_two_blocks(o: SpecOutline)
    requires
        o.scenarios.len() == 2,
    ensures
        spec_expand(o) == spec_expand_block(o, o.scenarios[0]) + spec_expand_block(
            o,
            o.scenarios[1],
        ),
        forall|i: int, j: int|
            0 <= i < 2 && 0 <= j < o.scenarios[i].values.len() ==> #[trigger] spec_expand_block(
                o,
                o.scenarios[i],
            )[j] == spec_expand_row(o, o.scenarios[i], o.scenarios[i].values[j]),
{
    lemma_expand_take_all(o);
    lemma_expand_take_step(o, 1);
    lemma_expand_take_step(o, 0);
    assert(spec_expand_take(o, 0) =~= Seq::<SpecScenario>::empty());
    assert(o.scenarios.take(0) =~= Seq::<SpecTagged>::empty());
    assert(o.scenarios.take(0).map_values(expand_block_fn(o)) =~= Seq::<Seq<SpecScenario>>::empty());
    assert(Seq::<Seq<SpecScenario>>::empty().flatten() =~= Seq::<SpecScenario>::empty());
    assert(spec_expand(o) =~= spec_expand_block(o, o.scenarios[0]) + spec_expand_block(
        o,
        o.scenarios[1],
    ));
}

/// Applies every column substitution of one row to `s`, in column order.
fn subst_all(s: String, phs: &Vec<String>, row: &Vec<String>) -> (r: String)
    requires
        phs@.len() == row@.len(),
    ensures
        r@ == spec_subst(s@, phs.deep_view(), row.deep_view(), 0),
{
    let ghost s0 = s@;
    let mut cur = s;
    let mut k: usize = 0;
    while k < phs.len()
        invariant
            k <= phs@.len(),
            phs@.len() == row@.len(),
            spec_subst(s0, phs.deep_view(), row.deep_view(), 0) == spec_subst(
                cur@,
                phs.deep_view(),
                row.deep_view(),
                k as int,
            ),
        decreases phs@.len() - k,
    {
        let m = marker(phs[k].as_str());
        let next = replace(cur.as_str(), m.as_str(), row[k].as_str());
        proof {
            assert(phs.deep_view()[k as int] == phs@[k as int]@);
            assert(row.deep_view()[k as int] == row@[k as int]@);
        }
        cur = next;
        k += 1;
    }
    cur
}

/// One template step with one row's substitutions applied.
fn subst_step(st: &Step, phs: &Vec<String>, row: &Vec<String>) -> (r: Step)
    requires
        phs@.len() == row@.len(),
    ensures
        r@ == spec_subst_step(st@, phs.deep_view(), row.deep_view()),
{
    let description = subst_all(st.description.clone(), phs, row);
    let data: Option<StepData> = match &st.data {
        Some(StepData::DocString(v)) => Some(
            StepData::DocString(subst_all(v.clone(), phs, row)),
        ),
        Some(StepData::DataTable(t)) => Some(StepData::DataTable(t.clone())),
        None => None,
    };
    Step { ty: st.ty, description, data }
}

impl ScenarioOutline {
    /// Whether every examples block is well-formed: the precondition of
    /// [`ScenarioOutline::scenarios`], testable by callers that assembled
    /// the outline themselves.
    pub fn is_well_formed(&self) -> (r: bool)
        ensures
            r == self@.wf(),
    {
        let mut i: usize = 0;
        while i < self.scenarios.len()
            invariant
                i <= self.scenarios@.len(),
                forall|j: int| 0 <= j < i ==> (#[trigger] self@.scenarios[j]).wf(),
            decreases self.scenarios@.len() - i,
        {
            proof {
                assert(self@.scenarios[i as int] == self.scenarios@[i as int].deep_view());
            }
            if !self.scenarios[i].is_well_formed() {
                proof {
                    assert(!self@.wf());
                }
                return false;
            }
            i += 1;
        }
        true
    }

    /// Expands the outline into concrete scenarios: for each examples block
    /// in declaration order, for each of its rows in declaration order, the
    /// template steps with every `<placeholder>` marker replaced by the
    /// row's cell, in the step descriptions and in doc-string step data.
    /// Data-table step data is carried through unchanged: substitution into
    /// table cells is not supported.
    ///
    /// The result is a pure function of the outline, so repeated calls
    /// yield element-wise equal sequences.
    pub fn scenarios(&self) -> (r: Vec<Scenario>)
        requires
            self@.wf(),
        ensures
            r.deep_view() == spec_expand(self@),
    {
        let mut out: Vec<Scenario> = Vec::new();
        proof {
            assert(self@.scenarios.take(0) =~= Seq::<SpecTagged>::empty());
            assert(self@.scenarios.take(0).map_values(expand_block_fn(self@)) =~= Seq::<
                Seq<SpecScenario>,
            >::empty());
            assert(Seq::<Seq<SpecScenario>>::empty().flatten() =~= Seq::<SpecScenario>::empty());
            assert(out.deep_view() =~= spec_expand_take(self@, 0));
        }
        let mut bi: usize = 0;
        while bi < self.scenarios.len()
            invariant
                bi <= self.scenarios@.len(),
                self@.wf(),
                out.deep_view() == spec_expand_take(self@, bi as int),
            decreases self.scenarios@.len() - bi,
        {
            let b = &self.scenarios[bi];
            let ghost block = self@.scenarios[bi as int];
            proof {
                assert(block == b@);
                assert(b@.wf());
            }
            let ghost pre = out.deep_view();
            let mut ri: usize = 0;
            while ri < b.values.len()
                invariant
                    ri <= b.values@.len(),
                    b@.wf(),
                    block == b@,
                    self@.wf(),
                    out.deep_view() == pre + spec_expand_block(self@, block).subrange(
                        0,
                        ri as int,
                    ),
                decreases b.values@.len() - ri,
            {
                let row = &b.values[ri];
                proof {
                    assert(row.deep_view() == block.values[ri as int]);
                    assert(block.values[ri as int].len() == block.placeholders.len());
                }
                let mut steps: Vec<Step> = Vec::new();
                let mut si: usize = 0;
                proof {
                    assert(steps.deep_view() =~= self@.steps.take(0).map_values(
                        subst_step_fn(block.placeholders, block.values[ri as int]),
                    ));
                }
                while si < self.steps.len()
                    invariant
                        si <= self.steps@.len(),
                        block == b@,
                        b@.wf(),
                        row.deep_view() == block.values[ri as int],
                        ri < block.values.len(),
                        b.placeholders@.len() == row@.len(),
                        b.placeholders.deep_view() == block.placeholders,
                        steps.deep_view() == self@.steps.take(si as int).map_values(
                            subst_step_fn(block.placeholders, block.values[ri as int]),
                        ),
                    decreases self.steps@.len() - si,
                {
                    let st = subst_step(&self.steps[si], &b.placeholders, row);
                    let ghost sp = steps.deep_view();
                    steps.push(st);
                    proof {
                        assert(steps.deep_view() =~= sp.push(st@));
                        assert(self@.steps[si as int] == self.steps@[si as int]@);
                        assert(steps.deep_view() =~= self@.steps.take(si as int + 1).map_values(
                            subst_step_fn(block.placeholders, block.values[ri as int]),
                        ));
                    }
                    si += 1;
                }
                proof {
                    assert(self@.steps.take(self@.steps.len() as int) =~= self@.steps);
                }
                let sc = Scenario {
                    tags: clone_strings(&b.tags),
                    name: clone_opt_string(&self.name),
                    description: clone_opt_string(&self.description),
                    steps,
                };
                let ghost preo = out.deep_view();
                proof {
                    assert(sc.tags.deep_view() =~= block.tags);
                    assert(sc@ == spec_expand_row(self@, block, block.values[ri as int]));
                    assert(spec_expand_block(self@, block)[ri as int] == spec_expand_row(
                        self@,
                        block,
                        block.values[ri as int],
                    ));
                }
                out.push(sc);
                proof {
                    assert(out.deep_view() =~= preo.push(sc@));
                    assert(out.deep_view() =~= pre + spec_expand_block(self@, block).subrange(
                        0,
                        ri as int + 1,
                    ));
                }
                ri += 1;
            }
            proof {
                assert(spec_expand_block(self@, block).subrange(
                    0,
                    spec_expand_block(self@, block).len() as int,
                ) =~= spec_expand_block(self@, block));
                lemma_expand_take_step(self@, bi as int);
            }
            bi += 1;
        }
        proof {
            lemma_expand_take_all(self@);
            assert(self.scenarios@.len() == self@.scenarios.len());
        }
        out
    }
}

/// Substitution is uniform: one row substitutes a step's description and
/// its doc-string body by the very same transformation, and carries a
/// data table or absent data through unchanged.
pub proof fn lemma_subst_uniform(st: SpecStep, phs: Seq<Seq<char>>, row: Seq<Seq<char>>)
    ensures
        spec_subst_step(st, phs, row).description == spec_subst(st.description, phs, row, 0),
        st.data matches Some(SpecStepData::DocString(v)) ==> spec_subst_step(st, phs, row).data
            == Some(SpecStepData::DocString(spec_subst(v, phs, row, 0))),
        st.data matches Some(SpecStepData::DataTable(t)) ==> spec_subst_step(st, phs, row).data
            == Some(SpecStepData::DataTable(t)),
        st.data is None ==> spec_subst_step(st, phs, row).data is None,
{
}

/// One examples block expands to exactly one scenario per row.
pub proof fn lemma_expand_block_len(o: SpecOutline, b: SpecTagged)
    ensures
        spec_expand_block(o, b).len() == b.values.len(),
{
}

proof fn lemma_expand_len_from(o: SpecOutline, n: int)
    requires
        0 <= n <= o.scenarios.len(),
    ensures
        spec_expand(o).len() == spec_expand_take(o, n).len() + crate::spec_rows_from(
            o.scenarios,
            n,
        ),
    decreases o.scenarios.len() - n,
{
    if n == o.scenarios.len() {
        lemma_expand_take_all(o);
    } else {
        lemma_expand_take_step(o, n);
        lemma_expand_block_len(o, o.scenarios[n]);
        lemma_expand_len_from(o, n + 1);
    }
}

/// An outline expands to exactly one scenario per example row, over all its
/// blocks.
pub proof fn lemma_expand_len(o: SpecOutline)
    ensures
        spec_expand(o).len() == crate::spec_rows_from(o.scenarios, 0),
{
    lemma_expand_len_from(o, 0);
    assert(o.scenarios.take(0) =~= Seq::<SpecTagged>::empty());
    assert(o.scenarios.take(0).map_values(expand_block_fn(o)) =~= Seq::<Seq<SpecScenario>>::empty());
    assert(Seq::<Seq<SpecScenario>>::empty().flatten() =~= Seq::<SpecScenario>::empty());
}

impl Clone for TaggedScenarios {
    /// Copies the block; the copy models the same block.
    fn clone(&self) -> (r: Self)
        ensures
            r@ == self@,
    {
        TaggedScenarios {
            tags: clone_strings(&self.tags),
            placeholders: clone_strings(&self.placeholders),
            values: clone_rows(&self.values),
        }
    }
}

/// Copies a vector of examples blocks, preserving the modelled blocks.
pub(crate) fn clone_tagged(v: &Vec<TaggedScenarios>) -> (r: Vec<TaggedScenarios>)
    ensures
        r.deep_view() == v.deep_view(),
{
    let mut r: Vec<TaggedScenarios> = Vec::new();
    let mut i: usize = 0;
    while i < v.len()
        invariant
            i <= v@.len(),
            r@.len() == i,
            r.deep_view() == v.deep_view().subrange(0, i as int),
        decreases v@.len() - i,
    {
        let x = v[i].clone();
        proof {
            crate::lemma_vec_deep(&r);
        }
        let ghost prev = r@;
        r.push(x);
        proof {
            crate::lemma_vec_deep(&r);
            crate::lemma_seq_deep_push(prev, x);
            assert(x.deep_view() == v.deep_view()[i as int]);
            assert(r.deep_view() =~= v.deep_view().subrange(0, i + 1));
        }
        i += 1;
    }
    proof {
        assert(v.deep_view().subrange(0, v@.len() as int) =~= v.deep_view());
    }
    r
}

impl Clone for ScenarioOutline {
    /// Copies the outline; the copy models the same outline.
    fn clone(&self) -> (r: Self)
        ensures
            r@ == self@,
    {
        ScenarioOutline {
            tags: clone_strings(&self.tags),
            name: clone_opt_string(&self.name),
            description: clone_opt_string(&self.description),
            steps: crate::clone_steps(&self.steps),
            scenarios: clone_tagged(&self.scenarios),
        }
    }
}

} // verus!
