//! A verified parser for Gherkin feature files.
//!
//! The crate lexes a feature source into line, comment, doc-string and
//! data-table tokens ([`lex`]), parses the token stream into a [`Feature`]
//! tree ([`parse_feature`], [`Parser`]), and expands scenario outlines into
//! concrete scenarios ([`ScenarioOutline::scenarios`]).
//!
//! Every executable function carries a contract relating its result to a
//! mathematical description of the grammar, stated over sequences of
//! characters.

use vstd::prelude::*;

pub mod data_table;
pub mod lex;
pub mod parse;
pub mod parser;
pub mod scenario_outline;
pub mod text;

pub use data_table::DataTable;
pub use parse::parse_feature;
pub use parser::Parser;
pub use scenario_outline::ScenarioOutline;

verus! {

/// The keyword a step was written with. `And` and `But` are kept as distinct
/// entries (not folded into the governing `Given`/`When`/`Then`), because
/// background validation needs to see them.
#[derive(Debug, Clone, Copy, PartialEq, Eq, Structural)]
pub enum StepType {
    Given,
    When,
    Then,
    And,
    But,
    Asterisk,
}

/// Data attached to a step: a doc-string body or a data table.
#[derive(Debug, PartialEq)]
pub enum StepData {
    DocString(String),
    DataTable(DataTable),
}

/// Mathematical model of [`StepData`].
pub ghost enum SpecStepData {
    DocString(Seq<char>),
    DataTable(crate::data_table::SpecTable),
}

impl View for StepData {
    type V = SpecStepData;

    open spec fn view(&self) -> SpecStepData {
        match self {
            StepData::DocString(s) => SpecStepData::DocString(s@),
            StepData::DataTable(t) => SpecStepData::DataTable(t@),
        }
    }
}

impl DeepView for StepData {
    type V = SpecStepData;

    open spec fn deep_view(&self) -> SpecStepData {
        self.view()
    }
}

/// One behaviour clause: a step keyword, its description, and optional data.
#[derive(Debug, PartialEq)]
pub struct Step {
    pub ty: StepType,
    pub description: String,
    pub data: Option<StepData>,
}

/// Mathematical model of [`Step`].
pub ghost struct SpecStep {
    pub ty: StepType,
    pub description: Seq<char>,
    pub data: Option<SpecStepData>,
}

impl View for Step {
    type V = SpecStep;

    open spec fn view(&self) -> SpecStep {
        SpecStep { ty: self.ty, description: self.description@, data: self.data.deep_view() }
    }
}

impl DeepView for Step {
    type V = SpecStep;

    open spec fn deep_view(&self) -> SpecStep {
        self.view()
    }
}

impl Step {
    pub fn new(ty: StepType, description: String, data: Option<StepData>) -> (r: Self)
        ensures
            r@ == (SpecStep { ty, description: description@, data: data.deep_view() }),
    {
        Self { ty, description, data }
    }
}

impl StepData {
    /// Replaces every occurrence of `from` by `to` inside a doc-string body.
    /// A data table is left unchanged: substitution into table cells is not
    /// supported.
    pub fn replace(&mut self, from: &str, to: &str)
        ensures
            final(self)@ == (match old(self)@ {
                SpecStepData::DocString(v) => SpecStepData::DocString(
                    crate::text::spec_replace(v, from@, to@),
                ),
                SpecStepData::DataTable(t) => SpecStepData::DataTable(t),
            }),
    {
        match &*self {
            StepData::DocString(value) => {
                let replaced = crate::text::replace(value.as_str(), from, to);
                *self = StepData::DocString(replaced);
            },
            StepData::DataTable(_) => {},
        }
    }
}

/// One concrete example of feature behaviour: an ordered sequence of steps.
#[derive(Debug, PartialEq)]
pub struct Scenario {
    pub tags: Vec<String>,
    pub name: Option<String>,
    pub description: Option<String>,
    pub steps: Vec<Step>,
}

/// Mathematical model of [`Scenario`].
pub ghost struct SpecScenario {
    pub tags: Seq<Seq<char>>,
    pub name: Option<Seq<char>>,
    pub description: Option<Seq<char>>,
    pub steps: Seq<SpecStep>,
}

impl View for Scenario {
    type V = SpecScenario;

    open spec fn view(&self) -> SpecScenario {
        SpecScenario {
            tags: self.tags.deep_view(),
            name: self.name.deep_view(),
            description: self.description.deep_view(),
            steps: self.steps.deep_view(),
        }
    }
}

impl DeepView for Scenario {
    type V = SpecScenario;

    open spec fn deep_view(&self) -> SpecScenario {
        self.view()
    }
}

/// The models of a sequence's elements, element by element.
pub open spec fn seq_deep<T: DeepView>(s: Seq<T>) -> Seq<T::V> {
    Seq::new(s.len(), |j: int| s[j].deep_view())
}

/// A vector's deep view is the element-wise model of its view.
pub proof fn lemma_vec_deep<T: DeepView>(v: &Vec<T>)
    ensures
        v.deep_view() == seq_deep(v@),
{
    assert(v.deep_view() =~= seq_deep(v@));
}

/// Pushing an element appends exactly its model.
pub proof fn lemma_seq_deep_push<T: DeepView>(s: Seq<T>, x: T)
    ensures
        seq_deep(s.push(x)) == seq_deep(s).push(x.deep_view()),
{
    assert(seq_deep(s.push(x)) =~= seq_deep(s).push(x.deep_view()));
}

/// Copies an optional string, preserving its value.
pub(crate) fn clone_opt_string(v: &Option<String>) -> (r: Option<String>)
    ensures
        r == *v,
{
    match v {
        Some(s) => Some(s.clone()),
        None => None,
    }
}

impl Clone for StepData {
    /// Copies the data; the copy models the same data.
    fn clone(&self) -> (r: Self)
        ensures
            r@ == self@,
    {
        match self {
            StepData::DocString(s) => StepData::DocString(s.clone()),
            StepData::DataTable(t) => StepData::DataTable(t.clone()),
        }
    }
}

impl Clone for Step {
    /// Copies the step; the copy models the same step.
    fn clone(&self) -> (r: Self)
        ensures
            r@ == self@,
    {
        Step {
            ty: self.ty,
            description: self.description.clone(),
            data: match &self.data {
                Some(d) => Some(d.clone()),
                None => None,
            },
        }
    }
}

/// Copies a vector of steps, preserving the modelled steps.
pub(crate) fn clone_steps(v: &Vec<Step>) -> (r: Vec<Step>)
    ensures
        r.deep_view() == v.deep_view(),
{
    let mut r: Vec<Step> = Vec::new();
    let mut i: usize = 0;
    while i < v.len()
        invariant
            i <= v@.len(),
            r@.len() == i,
            r.deep_view() == v.deep_view().subrange(0, i as int),
        decreases v@.len() - i,
    {
        let x = v[i].clone();
        proof {
            lemma_vec_deep(&r);
        }
        let ghost prev = r@;
        r.push(x);
        proof {
            lemma_vec_deep(&r);
            lemma_seq_deep_push(prev, x);
            assert(x.deep_view() == v.deep_view()[i as int]);
            assert(r.deep_view() =~= v.deep_view().subrange(0, i + 1));
        }
        i += 1;
    }
    proof {
        assert(v.deep_view().subrange(0, v@.len() as int) =~= v.deep_view());
    }
    r
}

impl Clone for Scenario {
    /// Copies the scenario; the copy models the same scenario.
    fn clone(&self) -> (r: Self)
        ensures
            r@ == self@,
    {
        Scenario {
            tags: crate::data_table::clone_strings(&self.tags),
            name: clone_opt_string(&self.name),
            description: clone_opt_string(&self.description),
            steps: clone_steps(&self.steps),
        }
    }
}

/// A parsed feature document: the top level of the tree.
#[derive(Debug, PartialEq)]
pub struct Feature {
    /// The language code from a leading `# language: <code>` comment,
    /// or `"en"` when none is present.
    pub language: String,
    pub tags: Vec<String>,
    pub name: Option<String>,
    pub description: Option<String>,
    pub background: Vec<Step>,
    pub scenarios: Vec<Scenario>,
    pub scenario_outlines: Vec<ScenarioOutline>,
}

/// Mathematical model of [`Feature`].
pub ghost struct SpecFeature {
    pub language: Seq<char>,
    pub tags: Seq<Seq<char>>,
    pub name: Option<Seq<char>>,
    pub description: Option<Seq<char>>,
    pub background: Seq<SpecStep>,
    pub scenarios: Seq<SpecScenario>,
    pub scenario_outlines: Seq<crate::scenario_outline::SpecOutline>,
}

impl SpecFeature {
    /// Every scenario outline's examples blocks are well-formed.
    pub open spec fn wf(self) -> bool {
        forall|i: int|
            0 <= i < self.scenario_outlines.len() ==> (#[trigger] self.scenario_outlines[i]).wf()
    }
}

impl View for Feature {
    type V = SpecFeature;

    open spec fn view(&self) -> SpecFeature {
        SpecFeature {
            language: self.language@,
            tags: self.tags.deep_view(),
            name: self.name.deep_view(),
            description: self.description.deep_view(),
            background: self.background.deep_view(),
            scenarios: self.scenarios.deep_view(),
            scenario_outlines: self.scenario_outlines.deep_view(),
        }
    }
}

impl DeepView for Feature {
    type V = SpecFeature;

    open spec fn deep_view(&self) -> SpecFeature {
        self.view()
    }
}

/// The outline expansion, as a function value.
pub open spec fn expand_outline_fn() -> spec_fn(crate::scenario_outline::SpecOutline) -> Seq<
    SpecScenario,
> {
    |o: crate::scenario_outline::SpecOutline| crate::scenario_outline::spec_expand(o)
}

/// Every scenario of a feature: the concrete scenarios in declaration order,
/// then each outline's expansion, outline by outline in declaration order.
pub open spec fn spec_all_scenarios(f: SpecFeature) -> Seq<SpecScenario> {
    f.scenarios + f.scenario_outlines.flat_map(expand_outline_fn())
}

/// The number of rows over all examples blocks from index `i` on.
pub open spec fn spec_rows_from(bs: Seq<crate::scenario_outline::SpecTagged>, i: int) -> int
    decreases bs.len() - i,
{
    if 0 <= i < bs.len() {
        bs[i].values.len() + spec_rows_from(bs, i + 1)
    } else {
        0
    }
}

/// The number of scenarios the outlines from index `i` on expand to.
pub open spec fn spec_outline_count_from(
    os: Seq<crate::scenario_outline::SpecOutline>,
    i: int,
) -> int
    decreases os.len() - i,
{
    if 0 <= i < os.len() {
        spec_rows_from(os[i].scenarios, 0) + spec_outline_count_from(os, i + 1)
    } else {
        0
    }
}

/// The total number of scenarios a feature holds: its concrete scenarios
/// plus one per example row of each outline.
pub open spec fn spec_total_count(f: SpecFeature) -> int {
    f.scenarios.len() + spec_outline_count_from(f.scenario_outlines, 0)
}

pub proof fn lemma_rows_from_nonneg(bs: Seq<crate::scenario_outline::SpecTagged>, i: int)
    ensures
        spec_rows_from(bs, i) >= 0,
    decreases bs.len() - i,
{
    if 0 <= i < bs.len() {
        lemma_rows_from_nonneg(bs, i + 1);
    }
}

pub proof fn lemma_outline_count_nonneg(os: Seq<crate::scenario_outline::SpecOutline>, i: int)
    ensures
        spec_outline_count_from(os, i) >= 0,
    decreases os.len() - i,
{
    if 0 <= i < os.len() {
        lemma_rows_from_nonneg(os[i].scenarios, 0);
        lemma_outline_count_nonneg(os, i + 1);
    }
}

/// Copies a vector of scenarios, preserving the modelled scenarios.
pub(crate) fn clone_scenarios(v: &Vec<Scenario>) -> (r: Vec<Scenario>)
    ensures
        r.deep_view() == v.deep_view(),
{
    let mut r: Vec<Scenario> = Vec::new();
    let mut i: usize = 0;
    while i < v.len()
        invariant
            i <= v@.len(),
            r@.len() == i,
            r.deep_view() == v.deep_view().subrange(0, i as int),
        decreases v@.len() - i,
    {
        let x = v[i].clone();
        proof {
            lemma_vec_deep(&r);
        }
        let ghost prev = r@;
        r.push(x);
        proof {
            lemma_vec_deep(&r);
            lemma_seq_deep_push(prev, x);
            assert(x.deep_view() == v.deep_view()[i as int]);
            assert(r.deep_view() =~= v.deep_view().subrange(0, i + 1));
        }
        i += 1;
    }
    proof {
        assert(v.deep_view().subrange(0, v@.len() as int) =~= v.deep_view());
    }
    r
}

impl Feature {
    /// Whether every outline's examples blocks are well-formed: the
    /// precondition of [`Feature::scenarios`]. True of every parsed
    /// feature; lets a caller that assembled the tree itself test it.
    pub fn is_well_formed(&self) -> (r: bool)
        ensures
            r == self@.wf(),
    {
        let mut i: usize = 0;
        while i < self.scenario_outlines.len()
            invariant
                i <= self.scenario_outlines@.len(),
                forall|j: int| 0 <= j < i ==> (#[trigger] self@.scenario_outlines[j]).wf(),
            decreases self.scenario_outlines@.len() - i,
        {
            proof {
                assert(self@.scenario_outlines[i as int] == self.scenario_outlines@[
                    i as int].deep_view());
            }
            if !self.scenario_outlines[i].is_well_formed() {
                proof {
                    assert(!self@.wf());
                }
                return false;
            }
            i += 1;
        }
        true
    }

    /// Every scenario of the feature: the concrete scenarios, then every
    /// outline's expansion, in declaration order throughout.
    pub fn scenarios(&self) -> (r: Vec<Scenario>)
        requires
            self@.wf(),
        ensures
            r.deep_view() == spec_all_scenarios(self@),
    {
        let mut out = clone_scenarios(&self.scenarios);
        let ghost base = self.scenarios.deep_view();
        proof {
            assert(self@.scenario_outlines.take(0) =~= Seq::<
                crate::scenario_outline::SpecOutline,
            >::empty());
            assert(self@.scenario_outlines.take(0).map_values(expand_outline_fn()) =~= Seq::<
                Seq<SpecScenario>,
            >::empty());
            assert(Seq::<Seq<SpecScenario>>::empty().flatten() =~= Seq::<SpecScenario>::empty());
            assert(out.deep_view() =~= base + self@.scenario_outlines.take(0).flat_map(
                expand_outline_fn(),
            ));
        }
        let mut i: usize = 0;
        while i < self.scenario_outlines.len()
            invariant
                i <= self.scenario_outlines@.len(),
                self@.wf(),
                base == self@.scenarios,
                out.deep_view() == base + self@.scenario_outlines.take(i as int).flat_map(
                    expand_outline_fn(),
                ),
            decreases self.scenario_outlines@.len() - i,
        {
            let o = &self.scenario_outlines[i];
            proof {
                assert(o@ == self@.scenario_outlines[i as int]);
            }
            let mut expanded = o.scenarios();
            let ghost pre = out.deep_view();
            let ghost exd = expanded.deep_view();
            out.append(&mut expanded);
            proof {
                assert forall|j: int|
                    0 <= j < out@.len() implies out.deep_view()[j] == (pre + exd)[j] by {
                    assert(out.deep_view()[j] == out@[j].deep_view());
                    if j < pre.len() {
                        assert(pre[j] == out@[j].deep_view());
                    } else {
                        assert(exd[j - pre.len()] == out@[j].deep_view());
                    }
                }
                assert(out.deep_view() =~= pre + exd);
                self@.scenario_outlines.lemma_flat_map_take_append(
                    expand_outline_fn(),
                    i as int,
                );
                assert(out.deep_view() =~= base + self@.scenario_outlines.take(
                    i as int + 1,
                ).flat_map(expand_outline_fn()));
            }
            i += 1;
        }
        proof {
            assert(self@.scenario_outlines.take(self@.scenario_outlines.len() as int)
                =~= self@.scenario_outlines);
        }
        out
    }

    /// The total number of scenarios the feature holds, or `None` when
    /// that count does not fit `usize`. Callers that cannot establish the
    /// bound [`Feature::total_scenario_count`] asks for can use this form.
    pub fn checked_total_scenario_count(&self) -> (r: Option<usize>)
        ensures
            r matches Some(n) ==> n == spec_total_count(self@),
            r is None ==> spec_total_count(self@) > usize::MAX,
    {
        let mut total: usize = self.scenarios.len();
        let mut i: usize = 0;
        while i < self.scenario_outlines.len()
            invariant
                i <= self.scenario_outlines@.len(),
                total + spec_outline_count_from(self@.scenario_outlines, i as int)
                    == spec_total_count(self@),
            decreases self.scenario_outlines@.len() - i,
        {
            let o = &self.scenario_outlines[i];
            proof {
                assert(o@ == self@.scenario_outlines[i as int]);
                lemma_outline_count_nonneg(self@.scenario_outlines, i as int + 1);
                lemma_rows_from_nonneg(o@.scenarios, 0);
            }
            let mut j: usize = 0;
            while j < o.scenarios.len()
                invariant
                    j <= o.scenarios@.len(),
                    o@ == self@.scenario_outlines[i as int],
                    spec_outline_count_from(self@.scenario_outlines, i as int + 1) >= 0,
                    total + spec_rows_from(o@.scenarios, j as int) + spec_outline_count_from(
                        self@.scenario_outlines,
                        i as int + 1,
                    ) == spec_total_count(self@),
                decreases o.scenarios@.len() - j,
            {
                proof {
                    lemma_rows_from_nonneg(o@.scenarios, j as int + 1);
                    assert(o@.scenarios[j as int] == o.scenarios@[j as int]@);
                }
                let add = o.scenarios[j].len();
                if add > usize::MAX - total {
                    return None;
                }
                total = total + add;
                j += 1;
            }
            i += 1;
        }
        Some(total)
    }

    /// The total number of scenarios the feature holds, counting one per
    /// example row of each outline.
    pub fn total_scenario_count(&self) -> (r: usize)
        requires
            spec_total_count(self@) <= usize::MAX,
        ensures
            r == spec_total_count(self@),
    {
        let mut total: usize = self.scenarios.len();
        let mut i: usize = 0;
        proof {
            lemma_outline_count_nonneg(self@.scenario_outlines, 0);
        }
        while i < self.scenario_outlines.len()
            invariant
                i <= self.scenario_outlines@.len(),
                spec_total_count(self@) <= usize::MAX,
                total + spec_outline_count_from(self@.scenario_outlines, i as int)
                    == spec_total_count(self@),
            decreases self.scenario_outlines@.len() - i,
        {
            let o = &self.scenario_outlines[i];
            proof {
                assert(o@ == self@.scenario_outlines[i as int]);
                lemma_outline_count_nonneg(self@.scenario_outlines, i as int + 1);
                lemma_rows_from_nonneg(o@.scenarios, 0);
            }
            let mut j: usize = 0;
            while j < o.scenarios.len()
                invariant
                    j <= o.scenarios@.len(),
                    o@ == self@.scenario_outlines[i as int],
                    spec_total_count(self@) <= usize::MAX,
                    spec_outline_count_from(self@.scenario_outlines, i as int + 1) >= 0,
                    total + spec_rows_from(o@.scenarios, j as int) + spec_outline_count_from(
                        self@.scenario_outlines,
                        i as int + 1,
                    ) == spec_total_count(self@),
                decreases o.scenarios@.len() - j,
            {
                proof {
                    lemma_rows_from_nonneg(o@.scenarios, j as int + 1);
                    assert(o@.scenarios[j as int] == o.scenarios@[j as int]@);
                }
                total = total + o.scenarios[j].len();
                j += 1;
            }
            i += 1;
        }
        total
    }
}

proof fn lemma_outlines_len_from(f: SpecFeature, n: int)
    requires
        0 <= n <= f.scenario_outlines.len(),
    ensures
        f.scenario_outlines.flat_map(expand_outline_fn()).len() == f.scenario_outlines.take(
            n,
        ).flat_map(expand_outline_fn()).len() + spec_outline_count_from(f.scenario_outlines, n),
    decreases f.scenario_outlines.len() - n,
{
    let os = f.scenario_outlines;
    if n == os.len() {
        assert(os.take(n) =~= os);
    } else {
        os.lemma_flat_map_take_append(expand_outline_fn(), n);
        crate::scenario_outline::lemma_expand_len(os[n]);
        assert(expand_outline_fn()(os[n]) == crate::scenario_outline::spec_expand(os[n]));
        lemma_outlines_len_from(f, n + 1);
    }
}

/// The counted total agrees with the expansion: a feature holds exactly as
/// many scenarios as [`Feature::scenarios`] returns — its concrete
/// scenarios plus one per example row of each outline.
pub proof fn lemma_total_count_matches_expansion(f: SpecFeature)
    ensures
        spec_total_count(f) == spec_all_scenarios(f).len(),
{
    lemma_outlines_len_from(f, 0);
    assert(f.scenario_outlines.take(0) =~= Seq::<crate::scenario_outline::SpecOutline>::empty());
    assert(f.scenario_outlines.take(0).map_values(expand_outline_fn()) =~= Seq::<
        Seq<SpecScenario>,
    >::empty());
    assert(Seq::<Seq<SpecScenario>>::empty().flatten() =~= Seq::<SpecScenario>::empty());
}

/// Copies a vector of outlines, preserving the modelled outlines.
pub(crate) fn clone_outlines(v: &Vec<ScenarioOutline>) -> (r: Vec<ScenarioOutline>)
    ensures
        r.deep_view() == v.deep_view(),
{
    let mut r: Vec<ScenarioOutline> = Vec::new();
    let mut i: usize = 0;
    while i < v.len()
        invariant
            i <= v@.len(),
            r@.len() == i,
            r.deep_view() == v.deep_view().subrange(0, i as int),
        decreases v@.len() - i,
    {
        let x = v[i].clone();
        proof {
            lemma_vec_deep(&r);
        }
        let ghost prev = r@;
        r.push(x);
        proof {
            lemma_vec_deep(&r);
            lemma_seq_deep_push(prev, x);
            assert(x.deep_view() == v.deep_view()[i as int]);
            assert(r.deep_view() =~= v.deep_view().subrange(0, i + 1));
        }
        i += 1;
    }
    proof {
        assert(v.deep_view().subrange(0, v@.len() as int) =~= v.deep_view());
    }
    r
}

impl Clone for Feature {
    /// Copies the feature; the copy models the same document.
    fn clone(&self) -> (r: Self)
        ensures
            r@ == self@,
    {
        Feature {
            language: self.language.clone(),
            tags: crate::data_table::clone_strings(&self.tags),
            name: clone_opt_string(&self.name),
            description: clone_opt_string(&self.description),
            background: clone_steps(&self.background),
            scenarios: clone_scenarios(&self.scenarios),
            scenario_outlines: clone_outlines(&self.scenario_outlines),
        }
    }
}

} // verus!
