//! The line classifier: keyword spellings and their recognition.

use vstd::prelude::*;
use vstd::string::StrSliceExecFns;

use crate::text::{ci_starts_with, spec_ci_starts_with, spec_trim, trim};

verus! {

/// The keywords of the grammar. Section keywords (`Feature` through
/// `Scenarios`) head a block and require a colon; step keywords never take
/// one.
#[derive(Debug, Clone, Copy, PartialEq, Eq, Structural)]
pub enum Keyword {
    Feature,
    Scenario,
    Background,
    ScenarioOutline,
    Scenarios,
    Given,
    When,
    Then,
    And,
    But,
    Asterisk,
}

impl Keyword {
    /// Whether this keyword's header line requires a colon directly after
    /// the spelling.
    pub open spec fn spec_has_colon(self) -> bool {
        match self {
            Keyword::Feature
            | Keyword::Scenario
            | Keyword::Background
            | Keyword::ScenarioOutline
            | Keyword::Scenarios => true,
            Keyword::Given
            | Keyword::When
            | Keyword::Then
            | Keyword::And
            | Keyword::But
            | Keyword::Asterisk => false,
        }
    }

    /// Executable counterpart of [`Keyword::spec_has_colon`].
    pub fn has_colon(&self) -> (r: bool)
        ensures
            r == self.spec_has_colon(),
    {
        match self {
            Keyword::Feature
            | Keyword::Scenario
            | Keyword::Background
            | Keyword::ScenarioOutline
            | Keyword::Scenarios => true,
            Keyword::Given
            | Keyword::When
            | Keyword::Then
            | Keyword::And
            | Keyword::But
            | Keyword::Asterisk => false,
        }
    }
}

/// The recognised spellings in priority order: a spelling earlier in the
/// table shadows any later spelling it is a prefix of, so the two-word
/// outline forms come before `scenario`, and the examples synonyms come
/// first of all.
pub open spec fn spec_combinations() -> Seq<(Keyword, Seq<char>)> {
    seq![
        (Keyword::Scenarios, "examples"@),
        (Keyword::Scenarios, "scenarios"@),
        (Keyword::ScenarioOutline, "scenario outline"@),
        (Keyword::ScenarioOutline, "scenario template"@),
        (Keyword::Feature, "feature"@),
        (Keyword::Scenario, "example"@),
        (Keyword::Scenario, "scenario"@),
        (Keyword::Background, "background"@),
        (Keyword::Given, "given"@),
        (Keyword::When, "when"@),
        (Keyword::Then, "then"@),
        (Keyword::And, "and"@),
        (Keyword::But, "but"@),
        (Keyword::Asterisk, "*"@),
    ]
}

impl Keyword {
    /// The spelling table in priority order.
    pub fn combinations() -> (r: Vec<(Keyword, &'static str)>)
        ensures
            r@.len() == spec_combinations().len(),
            forall|i: int|
                0 <= i < r@.len() ==> (#[trigger] r@[i]).0 == spec_combinations()[i].0
                    && r@[i].1@ == spec_combinations()[i].1,
    {
        let mut v: Vec<(Keyword, &'static str)> = Vec::new();
        v.push((Keyword::Scenarios, "examples"));
        v.push((Keyword::Scenarios, "scenarios"));
        v.push((Keyword::ScenarioOutline, "scenario outline"));
        v.push((Keyword::ScenarioOutline, "scenario template"));
        v.push((Keyword::Feature, "feature"));
        v.push((Keyword::Scenario, "example"));
        v.push((Keyword::Scenario, "scenario"));
        v.push((Keyword::Background, "background"));
        v.push((Keyword::Given, "given"));
        v.push((Keyword::When, "when"));
        v.push((Keyword::Then, "then"));
        v.push((Keyword::And, "and"));
        v.push((Keyword::But, "but"));
        v.push((Keyword::Asterisk, "*"));
        v
    }
}

/// The first spelling at table position `i` or later that is a
/// case-insensitive prefix of `line`.
pub open spec fn spec_match_at(line: Seq<char>, i: int) -> Option<(Keyword, Seq<char>)>
    decreases spec_combinations().len() - i,
{
    if 0 <= i < spec_combinations().len() {
        let kw = spec_combinations()[i].0;
        let sp = spec_combinations()[i].1;
        if spec_ci_starts_with(line, sp) {
            Some((kw, sp))
        } else {
            spec_match_at(line, i + 1)
        }
    } else {
        None
    }
}

/// The classification of a trimmed line. The winning spelling is the first
/// case-insensitive prefix in the table. The keyword's colon requirement
/// must be met exactly, else the line does not classify. The remaining
/// content is trimmed; a trailing colon is reported and, when
/// `strip_trailing_colon` is set, removed.
pub open spec fn spec_classify(line: Seq<char>, strip_trailing_colon: bool) -> Option<
    (Keyword, Seq<char>, Seq<char>, bool),
> {
    match spec_match_at(line, 0) {
        None => None,
        Some((kw, sp)) => {
            let name = line.subrange(0, sp.len() as int);
            let after = line.skip(sp.len() as int);
            if kw.spec_has_colon() != (after.len() > 0 && after[0] == ':') {
                None
            } else {
                let rest = if kw.spec_has_colon() {
                    after.drop_first()
                } else {
                    after
                };
                let content = spec_trim(rest);
                let had = content.len() > 0 && content.last() == ':';
                let stripped = if had && strip_trailing_colon {
                    spec_trim(content.drop_last())
                } else {
                    content
                };
                Some((kw, name, stripped, had))
            }
        },
    }
}

impl Keyword {
    /// Classifies a line of text: the keyword, the spelling as written, the
    /// remaining content, and whether that content ended with a colon.
    /// Returns `None` when no spelling matches or the colon after the
    /// keyword does not match the keyword's requirement; such a line is not
    /// a keyword line, which callers treat as ordinary content rather than
    /// an error.
    pub fn parse<'a>(line: &'a str, strip_trailing_colon: bool) -> (r: Option<
        (Keyword, &'a str, &'a str, bool),
    >)
        ensures
            r is None ==> spec_classify(line@, strip_trailing_colon) is None,
            r matches Some((kw, name, rest, had)) ==> spec_classify(line@, strip_trailing_colon)
                == Some((kw, name@, rest@, had)),
    {
        let n = line.unicode_len();
        let table = Keyword::combinations();
        let mut i: usize = 0;
        let mut found: Option<(Keyword, &'static str)> = None;
        while i < table.len() && found.is_none()
            invariant
                i <= table@.len(),
                table@.len() == spec_combinations().len(),
                forall|j: int|
                    0 <= j < table@.len() ==> (#[trigger] table@[j]).0 == spec_combinations()[j].0
                        && table@[j].1@ == spec_combinations()[j].1,
                found is None ==> spec_match_at(line@, 0) == spec_match_at(line@, i as int),
                found matches Some((kw, sp)) ==> spec_match_at(line@, 0) == Some((kw, sp@))
                    && spec_ci_starts_with(line@, sp@),
            decreases table@.len() - i,
        {
            let pair = table[i];
            if ci_starts_with(line, pair.1) {
                found = Some(pair);
            }
            i += 1;
        }
        let (kw, sp) = match found {
            Some(p) => p,
            None => {
                return None;
            },
        };
        let sl = sp.unicode_len();
        proof {
            assert(spec_ci_starts_with(line@, sp@));
        }
        let name = line.substring_char(0, sl);
        let ghost after = line@.skip(sl as int);
        let has_colon = kw.has_colon();
        let colon_next = sl < n && line.get_char(sl) == ':';
        proof {
            assert(colon_next == (after.len() > 0 && after[0] == ':'));
        }
        if has_colon != colon_next {
            return None;
        }
        let rest_start = if has_colon {
            sl + 1
        } else {
            sl
        };
        let rest = line.substring_char(rest_start, n);
        proof {
            if has_colon {
                assert(rest@ =~= after.drop_first());
            } else {
                assert(rest@ =~= after);
            }
        }
        let content = trim(rest);
        let cn = content.unicode_len();
        let had = cn > 0 && content.get_char(cn - 1) == ':';
        if had && strip_trailing_colon {
            let shorter = content.substring_char(0, cn - 1);
            proof {
                assert(shorter@ =~= content@.drop_last());
            }
            let stripped = trim(shorter);
            Some((kw, name, stripped, had))
        } else {
            Some((kw, name, content, had))
        }
    }
}

} // verus!
