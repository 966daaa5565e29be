//! The document parser: consumes the lexer's token stream and builds a
//! [`Feature`] tree, with structured errors carrying a line number.

use vstd::prelude::*;
use vstd::string::StrSliceExecFns;
use vstd::string::StringExecFns;

use crate::lex::{self, spec_lex, SpecToken, SpecTokenKind, Token, TokenKind};
use crate::parser::keyword::spec_classify;

pub use crate::parser::keyword::Keyword;
use crate::scenario_outline::{tagged_from_parts, ScenarioOutline, SpecOutline, SpecTagged};
use crate::text::{
    leading_space, spec_find, spec_indent, spec_split, spec_starts_with, spec_trim, split_char,
    split_lines, starts_with, trim,
};
use crate::{Feature, Scenario, SpecFeature, SpecScenario, SpecStep, SpecStepData, Step, StepData,
    StepType};

verus! {

/// What can go wrong while parsing.
#[derive(Debug, Clone, Copy, PartialEq, Eq, Structural)]
pub enum ErrorKind {
    /// The first keyword line of the document is not `Feature:`.
    NotAFeature(Keyword),
    /// A keyword line stands where it is not allowed.
    UnexpectedKeyword(Keyword),
    /// A line matches no keyword spelling where a keyword line is required.
    InvalidKeyword,
    /// A doc-string or table block stands where a line is required.
    UnexpectedToken,
    /// A word on a tag line does not start with `@`.
    InvalidTag,
    /// A tag block stands at the end of the input, attached to nothing.
    StandaloneTagsNotAllowed,
    /// A step line with no description, or a bare `And`/`But` opening a
    /// step block.
    InvalidBareKeyword(Keyword),
    /// A background step that is not `Given`, `And` or `But`.
    InvalidBackgroundStep(StepType),
    /// More than one `# language: <code>` comment.
    MultipleLanguageTags,
    /// A scenario or background with an empty step block.
    MustHaveAtLeastOneStep,
    /// A scenario outline without any `Examples`/`Scenarios` section.
    MustHaveAtLeastOneScenariosSection,
    /// An examples block whose column-name set differs from the outline's
    /// first examples block.
    DifferingPlaceholders,
    /// An `Examples`/`Scenarios` header not followed by a data table.
    ExpectedDataTableAfterExamples,
    /// A step line ending in a colon not followed by a doc-string or table.
    ExpectedDocStringOrDataTable,
    /// A freeform description line that does not start with the indentation
    /// of the description's first line.
    InconsistentIndentation,
    /// The input ended where more was required.
    UnexpectedEndOfInput,
    /// An error from the lexer.
    Lex(lex::ErrorKind),
}

/// Mathematical model of a parse error: its kind and zero-based line.
pub ghost struct SpecPError {
    pub kind: ErrorKind,
    pub line: int,
}

/// A parse error: its kind, the full source text, and the zero-based line
/// it points at.
#[derive(Debug, PartialEq)]
pub struct Error<'a> {
    kind: ErrorKind,
    text: &'a str,
    line_num: usize,
}

/// Mathematical model of [`Error`].
pub ghost struct SpecError {
    pub kind: ErrorKind,
    pub text: Seq<char>,
    pub line_num: int,
}

impl<'a> View for Error<'a> {
    type V = SpecError;

    closed spec fn view(&self) -> SpecError {
        SpecError { kind: self.kind, text: self.text@, line_num: self.line_num as int }
    }
}

impl<'a> Error<'a> {
    /// The error's kind.
    pub fn kind(&self) -> (r: &ErrorKind)
        ensures
            *r == self@.kind,
    {
        &self.kind
    }

    /// The full source text the error arose in.
    pub fn text(&self) -> (r: &'a str)
        ensures
            r@ == self@.text,
    {
        self.text
    }

    /// The offending source line, or an empty string when the error points
    /// just past the last line.
    pub fn line(&self) -> (r: &'a str)
        ensures
            r@ == spec_line_at(self@.text, self@.line_num),
    {
        line_at(self.text, self.line_num)
    }

    /// The zero-based line number the error points at.
    pub fn line_number(&self) -> (r: usize)
        ensures
            r == self@.line_num,
    {
        self.line_num
    }
}

/// Line `n` of `text`, or empty past the end.
pub open spec fn spec_line_at(text: Seq<char>, n: int) -> Seq<char> {
    let ls = crate::text::spec_lines(text);
    if 0 <= n < ls.len() {
        ls[n]
    } else {
        Seq::<char>::empty()
    }
}

/// Executable counterpart of [`spec_line_at`].
fn line_at<'a>(text: &'a str, n: usize) -> (r: &'a str)
    ensures
        r@ == spec_line_at(text@, n as int),
{
    let lines = split_lines(text);
    if n < lines.len() {
        let r = lines[n];
        proof {
            assert(lines@[n as int]@ == lines.deep_view()[n as int]);
        }
        r
    } else {
        let r = text.substring_char(0, 0);
        proof {
            assert(r@ =~= Seq::<char>::empty());
        }
        r
    }
}

/// The line an end-of-input error points at: just past the last token.
pub open spec fn eof_line(toks: Seq<SpecToken>) -> int {
    if toks.len() > 0 {
        toks.last().end_line
    } else {
        0
    }
}

/// Whether a token is an empty line.
pub open spec fn is_blank(t: SpecToken) -> bool {
    match t.kind {
        SpecTokenKind::Line(s) => s.len() == 0,
        _ => false,
    }
}

/// Whether a token is a comment.
pub open spec fn is_comment(t: SpecToken) -> bool {
    match t.kind {
        SpecTokenKind::Comment(_) => true,
        _ => false,
    }
}

/// The first position at or after `i` that is neither a blank line nor a
/// comment.
pub open spec fn spec_skip_blanks(toks: Seq<SpecToken>, i: int) -> int
    decreases toks.len() - i,
{
    if 0 <= i < toks.len() && (is_blank(toks[i]) || is_comment(toks[i])) {
        spec_skip_blanks(toks, i + 1)
    } else {
        i
    }
}

pub proof fn lemma_skip_blanks_bounds(toks: Seq<SpecToken>, i: int)
    ensures
        i <= spec_skip_blanks(toks, i),
        i <= toks.len() ==> spec_skip_blanks(toks, i) <= toks.len(),
    decreases toks.len() - i,
{
    if 0 <= i < toks.len() && (is_blank(toks[i]) || is_comment(toks[i])) {
        lemma_skip_blanks_bounds(toks, i + 1);
    }
}

/// The step type a keyword stands for, if it is a step keyword.
pub open spec fn step_type_of(kw: Keyword) -> Option<StepType> {
    match kw {
        Keyword::Given => Some(StepType::Given),
        Keyword::When => Some(StepType::When),
        Keyword::Then => Some(StepType::Then),
        Keyword::And => Some(StepType::And),
        Keyword::But => Some(StepType::But),
        Keyword::Asterisk => Some(StepType::Asterisk),
        _ => None,
    }
}

/// The tags of one tag line, read from its space-separated segments from
/// index `k` on: empty segments are skipped, every other segment must start
/// with `@` and contributes what follows it.
pub open spec fn spec_tags_from_segs(segs: Seq<Seq<char>>, k: int, acc: Seq<Seq<char>>) -> Result<
    Seq<Seq<char>>,
    (),
>
    decreases segs.len() - k,
{
    if !(0 <= k < segs.len()) {
        Ok(acc)
    } else if segs[k].len() == 0 {
        spec_tags_from_segs(segs, k + 1, acc)
    } else if segs[k][0] == '@' {
        spec_tags_from_segs(segs, k + 1, acc.push(segs[k].drop_first()))
    } else {
        Err(())
    }
}

/// The tags of one tag line.
pub open spec fn spec_line_tags(s: Seq<char>) -> Result<Seq<Seq<char>>, ()> {
    spec_tags_from_segs(spec_split(s, ' '), 0, Seq::<Seq<char>>::empty())
}

/// Collects consecutive tag lines (with blank lines and comments between),
/// starting at `i`. Tags left dangling at the end of the input are an
/// error; so is a tag-line word that does not start with `@`.
pub open spec fn spec_scan_tags(toks: Seq<SpecToken>, i: int, acc: Seq<Seq<char>>) -> Result<
    (Seq<Seq<char>>, int),
    SpecPError,
>
    decreases toks.len() - i,
    via spec_scan_tags_dec
{
    let j = spec_skip_blanks(toks, i);
    if !(0 <= j < toks.len()) {
        if acc.len() > 0 {
            Err(SpecPError { kind: ErrorKind::StandaloneTagsNotAllowed, line: eof_line(toks) })
        } else {
            Ok((acc, j))
        }
    } else {
        match toks[j].kind {
            SpecTokenKind::Line(s) => {
                if s.len() > 0 && s[0] == '@' {
                    match spec_line_tags(s) {
                        Ok(ws) => spec_scan_tags(toks, j + 1, acc + ws),
                        Err(()) => Err(
                            SpecPError { kind: ErrorKind::InvalidTag, line: toks[j].start_line },
                        ),
                    }
                } else {
                    Ok((acc, j))
                }
            },
            _ => Ok((acc, j)),
        }
    }
}

#[via_fn]
proof fn spec_scan_tags_dec(toks: Seq<SpecToken>, i: int, acc: Seq<Seq<char>>) {
    lemma_skip_blanks_bounds(toks, i);
}

pub proof fn lemma_scan_tags_pos(toks: Seq<SpecToken>, i: int, acc: Seq<Seq<char>>)
    requires
        0 <= i <= toks.len(),
    ensures
        spec_scan_tags(toks, i, acc) matches Ok((ws, j)) ==> i <= j <= toks.len(),
    decreases toks.len() - i,
{
    lemma_skip_blanks_bounds(toks, i);
    let j = spec_skip_blanks(toks, i);
    if 0 <= j < toks.len() {
        match toks[j].kind {
            SpecTokenKind::Line(s) => {
                if s.len() > 0 && s[0] == '@' {
                    match spec_line_tags(s) {
                        Ok(ws) => lemma_scan_tags_pos(toks, j + 1, acc + ws),
                        Err(()) => {},
                    }
                }
            },
            _ => {},
        }
    }
}

/// Collects a maximal run of step lines from `i`. The block must open with
/// `Given`, `When`, `Then` or `*` (a leading `And`/`But` has nothing to
/// extend), every step needs a non-empty description, and a step line
/// ending in a colon must be followed by a doc-string or data-table token.
/// An empty block is an error.
pub open spec fn spec_parse_steps(toks: Seq<SpecToken>, i: int, acc: Seq<SpecStep>) -> Result<
    (Seq<SpecStep>, int),
    SpecPError,
>
    decreases toks.len() - i,
    via spec_parse_steps_dec
{
    let j = spec_skip_blanks(toks, i);
    if !(0 <= j < toks.len()) {
        if acc.len() == 0 {
            Err(SpecPError { kind: ErrorKind::UnexpectedEndOfInput, line: eof_line(toks) })
        } else {
            Ok((acc, j))
        }
    } else {
        match toks[j].kind {
            SpecTokenKind::Line(s) => match spec_classify(s, true) {
                None => {
                    if acc.len() == 0 {
                        Err(SpecPError { kind: ErrorKind::InvalidKeyword, line: toks[j].start_line })
                    } else {
                        Ok((acc, j))
                    }
                },
                Some((kw, name, content, had_colon)) => {
                    match step_type_of(kw) {
                        None => {
                            if acc.len() == 0 {
                                Err(
                                    SpecPError {
                                        kind: ErrorKind::MustHaveAtLeastOneStep,
                                        line: toks[j].start_line,
                                    },
                                )
                            } else {
                                Ok((acc, j))
                            }
                        },
                        Some(ty) => {
                            if acc.len() == 0 && (ty == StepType::And || ty == StepType::But) {
                                Err(
                                    SpecPError {
                                        kind: ErrorKind::InvalidBareKeyword(kw),
                                        line: toks[j].start_line,
                                    },
                                )
                            } else if content.len() == 0 {
                                Err(
                                    SpecPError {
                                        kind: ErrorKind::InvalidBareKeyword(kw),
                                        line: toks[j].start_line,
                                    },
                                )
                            } else if had_colon {
                                let k = spec_skip_blanks(toks, j + 1);
                                if !(0 <= k < toks.len()) {
                                    Err(
                                        SpecPError {
                                            kind: ErrorKind::UnexpectedEndOfInput,
                                            line: eof_line(toks),
                                        },
                                    )
                                } else {
                                    match toks[k].kind {
                                        SpecTokenKind::DocString(v) => spec_parse_steps(
                                            toks,
                                            k + 1,
                                            acc.push(
                                                SpecStep {
                                                    ty,
                                                    description: content,
                                                    data: Some(SpecStepData::DocString(v)),
                                                },
                                            ),
                                        ),
                                        SpecTokenKind::DataTable(tb) => spec_parse_steps(
                                            toks,
                                            k + 1,
                                            acc.push(
                                                SpecStep {
                                                    ty,
                                                    description: content,
                                                    data: Some(SpecStepData::DataTable(tb)),
                                                },
                                            ),
                                        ),
                                        _ => Err(
                                            SpecPError {
                                                kind: ErrorKind::ExpectedDocStringOrDataTable,
                                                line: toks[k].start_line,
                                            },
                                        ),
                                    }
                                }
                            } else {
                                spec_parse_steps(
                                    toks,
                                    j + 1,
                                    acc.push(SpecStep { ty, description: content, data: None }),
                                )
                            }
                        },
                    }
                },
            },
            _ => {
                if acc.len() == 0 {
                    Err(SpecPError { kind: ErrorKind::UnexpectedToken, line: toks[j].start_line })
                } else {
                    Ok((acc, j))
                }
            },
        }
    }
}

#[via_fn]
proof fn spec_parse_steps_dec(toks: Seq<SpecToken>, i: int, acc: Seq<SpecStep>) {
    lemma_skip_blanks_bounds(toks, i);
    lemma_skip_blanks_bounds(toks, spec_skip_blanks(toks, i) + 1);
}

pub proof fn lemma_parse_steps_pos(toks: Seq<SpecToken>, i: int, acc: Seq<SpecStep>)
    requires
        0 <= i <= toks.len(),
    ensures
        spec_parse_steps(toks, i, acc) matches Ok((sts, k)) ==> i <= k <= toks.len(),
    decreases toks.len() - i,
{
    lemma_skip_blanks_bounds(toks, i);
    let j = spec_skip_blanks(toks, i);
    if 0 <= j < toks.len() {
        lemma_skip_blanks_bounds(toks, j + 1);
        match toks[j].kind {
            SpecTokenKind::Line(s) => match spec_classify(s, true) {
                None => {},
                Some((kw, name, content, had_colon)) => match step_type_of(kw) {
                    None => {},
                    Some(ty) => {
                        if acc.len() == 0 && (ty == StepType::And || ty == StepType::But) {
                        } else if content.len() == 0 {
                        } else if had_colon {
                            let k = spec_skip_blanks(toks, j + 1);
                            if 0 <= k < toks.len() {
                                match toks[k].kind {
                                    SpecTokenKind::DocString(v) => lemma_parse_steps_pos(
                                        toks,
                                        k + 1,
                                        acc.push(
                                            SpecStep {
                                                ty,
                                                description: content,
                                                data: Some(SpecStepData::DocString(v)),
                                            },
                                        ),
                                    ),
                                    SpecTokenKind::DataTable(tb) => lemma_parse_steps_pos(
                                        toks,
                                        k + 1,
                                        acc.push(
                                            SpecStep {
                                                ty,
                                                description: content,
                                                data: Some(SpecStepData::DataTable(tb)),
                                            },
                                        ),
                                    ),
                                    _ => {},
                                }
                            }
                        } else {
                            lemma_parse_steps_pos(
                                toks,
                                j + 1,
                                acc.push(SpecStep { ty, description: content, data: None }),
                            );
                        }
                    },
                },
            },
            _ => {},
        }
    }
}

/// The first step of a background whose keyword is not `Given`, `And` or
/// `But`, scanning from index `k`.
pub open spec fn spec_first_bad_background(steps: Seq<SpecStep>, k: int) -> Option<StepType>
    decreases steps.len() - k,
{
    if 0 <= k < steps.len() {
        if steps[k].ty == StepType::Given || steps[k].ty == StepType::And || steps[k].ty
            == StepType::But {
            spec_first_bad_background(steps, k + 1)
        } else {
            Some(steps[k].ty)
        }
    } else {
        None
    }
}

/// Background validity: a background passes exactly when every one of its
/// steps was written `Given`, `And` or `But`; otherwise the first offending
/// step's keyword is reported.
pub proof fn lemma_background_validity(steps: Seq<SpecStep>, k: int)
    requires
        0 <= k <= steps.len(),
    ensures
        spec_first_bad_background(steps, k) is None <==> (forall|m: int|
            k <= m < steps.len() ==> ((#[trigger] steps[m].ty) == StepType::Given || steps[m].ty
                == StepType::And || steps[m].ty == StepType::But)),
        spec_first_bad_background(steps, k) matches Some(ty) ==> (exists|m: int|
            k <= m < steps.len() && (#[trigger] steps[m].ty) == ty && !(steps[m].ty
                == StepType::Given || steps[m].ty == StepType::And || steps[m].ty == StepType::But)),
    decreases steps.len() - k,
{
    if 0 <= k < steps.len() {
        if steps[k].ty == StepType::Given || steps[k].ty == StepType::And || steps[k].ty
            == StepType::But {
            lemma_background_validity(steps, k + 1);
        }
    }
}

/// Freeform description text: consumes comment and line tokens from `i`,
/// skipping blank lines, and stops at the end of the input, at a doc-string
/// or table token, at a tag line, or at a keyword line — any keyword when
/// `scenario_level` is set, else only `Background`, `Scenario` and
/// `Scenario Outline`. The first contributing line's leading whitespace,
/// read back from the source text, becomes the block's required
/// indentation `ind`: every later contributing line must start with it and
/// contributes what follows it, so deeper relative indentation is kept,
/// while a line that does not share the indentation is an
/// `InconsistentIndentation` error. The collected text is trimmed; empty
/// means no description.
pub open spec fn spec_freeform(
    toks: Seq<SpecToken>,
    i: int,
    ind: Option<Seq<char>>,
    acc: Seq<char>,
    scenario_level: bool,
) -> Result<(Option<Seq<char>>, int), SpecPError>
    decreases toks.len() - i,
{
    if !(0 <= i < toks.len()) {
        Ok((freeform_result(acc), i))
    } else {
        match toks[i].kind {
            SpecTokenKind::Comment(_) => spec_freeform(toks, i + 1, ind, acc, scenario_level),
            SpecTokenKind::Line(s) => {
                if s.len() == 0 {
                    spec_freeform(toks, i + 1, ind, acc, scenario_level)
                } else {
                    let stop = s[0] == '@' || match spec_classify(s, false) {
                        Some((kw, name, content, had)) => {
                            if scenario_level {
                                true
                            } else {
                                kw == Keyword::Background || kw == Keyword::Scenario || kw
                                    == Keyword::ScenarioOutline
                            }
                        },
                        None => false,
                    };
                    if stop {
                        Ok((freeform_result(acc), i))
                    } else {
                        let raw = spec_line_at(toks[i].text, toks[i].start_line);
                        match ind {
                            None => spec_freeform(
                                toks,
                                i + 1,
                                Some(spec_indent(raw)),
                                acc + raw.skip(spec_indent(raw).len() as int) + "\n"@,
                                scenario_level,
                            ),
                            Some(ind0) => {
                                if spec_starts_with(raw, ind0) {
                                    spec_freeform(
                                        toks,
                                        i + 1,
                                        Some(ind0),
                                        acc + raw.skip(ind0.len() as int) + "\n"@,
                                        scenario_level,
                                    )
                                } else {
                                    Err(
                                        SpecPError {
                                            kind: ErrorKind::InconsistentIndentation,
                                            line: toks[i].start_line,
                                        },
                                    )
                                }
                            },
                        }
                    }
                }
            },
            _ => Ok((freeform_result(acc), i)),
        }
    }
}

/// The finished freeform text: trimmed, and `None` when empty.
pub open spec fn freeform_result(acc: Seq<char>) -> Option<Seq<char>> {
    if spec_trim(acc).len() == 0 {
        None
    } else {
        Some(spec_trim(acc))
    }
}

pub proof fn lemma_freeform_pos(
    toks: Seq<SpecToken>,
    i: int,
    ind: Option<Seq<char>>,
    acc: Seq<char>,
    scenario_level: bool,
)
    requires
        0 <= i <= toks.len(),
    ensures
        spec_freeform(toks, i, ind, acc, scenario_level) matches Ok((d, j)) ==> i <= j
            <= toks.len(),
    decreases toks.len() - i,
{
    if 0 <= i < toks.len() {
        match toks[i].kind {
            SpecTokenKind::Comment(_) => lemma_freeform_pos(toks, i + 1, ind, acc, scenario_level),
            SpecTokenKind::Line(s) => {
                if s.len() == 0 {
                    lemma_freeform_pos(toks, i + 1, ind, acc, scenario_level);
                } else {
                    let stop = s[0] == '@' || match spec_classify(s, false) {
                        Some((kw, name, content, had)) => {
                            if scenario_level {
                                true
                            } else {
                                kw == Keyword::Background || kw == Keyword::Scenario || kw
                                    == Keyword::ScenarioOutline
                            }
                        },
                        None => false,
                    };
                    if !stop {
                        let raw = spec_line_at(toks[i].text, toks[i].start_line);
                        match ind {
                            None => lemma_freeform_pos(
                                toks,
                                i + 1,
                                Some(spec_indent(raw)),
                                acc + raw.skip(spec_indent(raw).len() as int) + "\n"@,
                                scenario_level,
                            ),
                            Some(ind0) => {
                                if spec_starts_with(raw, ind0) {
                                    lemma_freeform_pos(
                                        toks,
                                        i + 1,
                                        Some(ind0),
                                        acc + raw.skip(ind0.len() as int) + "\n"@,
                                        scenario_level,
                                    );
                                }
                            },
                        }
                    }
                }
            },
            _ => {},
        }
    }
}

/// An optional background: when the next keyword line is `Background:`, its
/// step block, every step of which must have been written `Given`, `And` or
/// `But`.
pub open spec fn spec_background(toks: Seq<SpecToken>, i: int) -> Result<
    (Seq<SpecStep>, int),
    SpecPError,
> {
    let j = spec_skip_blanks(toks, i);
    if 0 <= j < toks.len() {
        match toks[j].kind {
            SpecTokenKind::Line(s) => match spec_classify(s, false) {
                Some((Keyword::Background, name, content, had)) => {
                    match spec_parse_steps(toks, j + 1, Seq::<SpecStep>::empty()) {
                        Err(e) => Err(e),
                        Ok((steps, k)) => match spec_first_bad_background(steps, 0) {
                            Some(ty) => Err(
                                SpecPError {
                                    kind: ErrorKind::InvalidBackgroundStep(ty),
                                    line: toks[j].start_line,
                                },
                            ),
                            None => Ok((steps, k)),
                        },
                    }
                },
                _ => Ok((Seq::<SpecStep>::empty(), i)),
            },
            _ => Ok((Seq::<SpecStep>::empty(), i)),
        }
    } else {
        Ok((Seq::<SpecStep>::empty(), i))
    }
}

/// A scenario after its header line: freeform description, then its steps.
pub open spec fn spec_scenario_rest(
    toks: Seq<SpecToken>,
    i: int,
    tags: Seq<Seq<char>>,
    name: Option<Seq<char>>,
) -> Result<(SpecScenario, int), SpecPError> {
    match spec_freeform(toks, i, None, Seq::<char>::empty(), true) {
        Err(e) => Err(e),
        Ok((description, j)) => match spec_parse_steps(toks, j, Seq::<SpecStep>::empty()) {
            Err(e) => Err(e),
            Ok((steps, k)) => Ok((SpecScenario { tags, name, description, steps }, k)),
        },
    }
}

/// Whether two placeholder lists name the same set of columns, in any order.
pub open spec fn same_columns(a: Seq<Seq<char>>, b: Seq<Seq<char>>) -> bool {
    (forall|x: Seq<char>| a.contains(x) ==> b.contains(x)) && (forall|x: Seq<char>|
        b.contains(x) ==> a.contains(x))
}

/// The examples sections of an outline: one or more repetitions of optional
/// tags, a `Scenarios`/`Examples` header, and a mandatory data table. Every
/// table must name the same column set as the first (order-independent).
/// The scan stops before anything that is not another examples section.
pub open spec fn spec_examples(
    toks: Seq<SpecToken>,
    i: int,
    first: Option<Seq<Seq<char>>>,
    acc: Seq<SpecTagged>,
) -> Result<(Seq<SpecTagged>, int), SpecPError>
    decreases toks.len() - i,
    via spec_examples_dec
{
    match spec_scan_tags(toks, i, Seq::<Seq<char>>::empty()) {
        Err(e) => Err(e),
        Ok((etags, k)) => {
            if !(0 <= k < toks.len()) {
                if acc.len() == 0 {
                    Err(
                        SpecPError {
                            kind: ErrorKind::MustHaveAtLeastOneScenariosSection,
                            line: eof_line(toks),
                        },
                    )
                } else {
                    Ok((acc, i))
                }
            } else {
                match toks[k].kind {
                    SpecTokenKind::Line(s) => match spec_classify(s, false) {
                        Some((Keyword::Scenarios, name, content, had)) => {
                            let m = spec_skip_blanks(toks, k + 1);
                            if !(0 <= m < toks.len()) {
                                Err(
                                    SpecPError {
                                        kind: ErrorKind::ExpectedDataTableAfterExamples,
                                        line: eof_line(toks),
                                    },
                                )
                            } else {
                                match toks[m].kind {
                                    SpecTokenKind::DataTable(tb) => {
                                        if first matches Some(fp) && !same_columns(tb.header, fp) {
                                            Err(
                                                SpecPError {
                                                    kind: ErrorKind::DifferingPlaceholders,
                                                    line: toks[m].start_line,
                                                },
                                            )
                                        } else {
                                            let fp2 = if first is Some {
                                                first
                                            } else {
                                                Some(tb.header)
                                            };
                                            if m + 1 > i {
                                                spec_examples(
                                                    toks,
                                                    m + 1,
                                                    fp2,
                                                    acc.push(
                                                        SpecTagged {
                                                            tags: etags,
                                                            placeholders: tb.header,
                                                            values: tb.rows,
                                                        },
                                                    ),
                                                )
                                            } else {
                                                Err(
                                                    SpecPError {
                                                        kind: ErrorKind::UnexpectedEndOfInput,
                                                        line: eof_line(toks),
                                                    },
                                                )
                                            }
                                        }
                                    },
                                    _ => Err(
                                        SpecPError {
                                            kind: ErrorKind::ExpectedDataTableAfterExamples,
                                            line: toks[m].start_line,
                                        },
                                    ),
                                }
                            }
                        },
                        Some((kw, name, content, had)) => {
                            if acc.len() == 0 {
                                Err(
                                    SpecPError {
                                        kind: ErrorKind::MustHaveAtLeastOneScenariosSection,
                                        line: toks[k].start_line,
                                    },
                                )
                            } else {
                                Ok((acc, i))
                            }
                        },
                        None => {
                            if acc.len() == 0 {
                                Err(
                                    SpecPError {
                                        kind: ErrorKind::InvalidKeyword,
                                        line: toks[k].start_line,
                                    },
                                )
                            } else {
                                Ok((acc, i))
                            }
                        },
                    },
                    _ => {
                        if acc.len() == 0 {
                            Err(
                                SpecPError {
                                    kind: ErrorKind::MustHaveAtLeastOneScenariosSection,
                                    line: toks[k].start_line,
                                },
                            )
                        } else {
                            Ok((acc, i))
                        }
                    },
                }
            }
        },
    }
}

#[via_fn]
proof fn spec_examples_dec(
    toks: Seq<SpecToken>,
    i: int,
    first: Option<Seq<Seq<char>>>,
    acc: Seq<SpecTagged>,
) {
    if 0 <= i <= toks.len() {
        lemma_scan_tags_pos(toks, i, Seq::<Seq<char>>::empty());
        match spec_scan_tags(toks, i, Seq::<Seq<char>>::empty()) {
            Ok((etags, k)) => {
                if 0 <= k < toks.len() {
                    lemma_skip_blanks_bounds(toks, k + 1);
                }
            },
            Err(_) => {},
        }
    }
}

/// A scenario outline after its header line: freeform description, the
/// template steps, then its examples sections.
pub open spec fn spec_outline_rest(
    toks: Seq<SpecToken>,
    i: int,
    tags: Seq<Seq<char>>,
    name: Option<Seq<char>>,
) -> Result<(SpecOutline, int), SpecPError> {
    match spec_freeform(toks, i, None, Seq::<char>::empty(), true) {
        Err(e) => Err(e),
        Ok((description, j)) => match spec_parse_steps(toks, j, Seq::<SpecStep>::empty()) {
            Err(e) => Err(e),
            Ok((steps, k)) => {
                if 0 <= k <= toks.len() {
                    match spec_examples(toks, k, None, Seq::<SpecTagged>::empty()) {
                        Err(e) => Err(e),
                        Ok((blocks, m)) => Ok(
                            (SpecOutline { tags, name, description, steps, scenarios: blocks }, m),
                        ),
                    }
                } else {
                    Err(SpecPError { kind: ErrorKind::UnexpectedEndOfInput, line: eof_line(toks) })
                }
            },
        },
    }
}

/// The body of a feature: any number of tagged scenarios and scenario
/// outlines, in declaration order, until the input ends.
pub open spec fn spec_body(
    toks: Seq<SpecToken>,
    i: int,
    scens: Seq<SpecScenario>,
    outls: Seq<SpecOutline>,
) -> Result<(Seq<SpecScenario>, Seq<SpecOutline>), SpecPError>
    decreases toks.len() - i,
{
    match spec_scan_tags(toks, i, Seq::<Seq<char>>::empty()) {
        Err(e) => Err(e),
        Ok((tags, j)) => {
            if !(0 <= j < toks.len()) {
                Ok((scens, outls))
            } else {
                match toks[j].kind {
                    SpecTokenKind::Line(s) => match spec_classify(s, false) {
                        None => Err(
                            SpecPError { kind: ErrorKind::InvalidKeyword, line: toks[j].start_line },
                        ),
                        Some((kw, name0, content, had)) => {
                            let name = if content.len() == 0 {
                                None
                            } else {
                                Some(content)
                            };
                            if kw == Keyword::Scenario {
                                match spec_scenario_rest(toks, j + 1, tags, name) {
                                    Err(e) => Err(e),
                                    Ok((sc, k)) => {
                                        if i < k <= toks.len() {
                                            spec_body(toks, k, scens.push(sc), outls)
                                        } else {
                                            Err(
                                                SpecPError {
                                                    kind: ErrorKind::UnexpectedEndOfInput,
                                                    line: eof_line(toks),
                                                },
                                            )
                                        }
                                    },
                                }
                            } else if kw == Keyword::ScenarioOutline {
                                match spec_outline_rest(toks, j + 1, tags, name) {
                                    Err(e) => Err(e),
                                    Ok((ol, k)) => {
                                        if i < k <= toks.len() {
                                            spec_body(toks, k, scens, outls.push(ol))
                                        } else {
                                            Err(
                                                SpecPError {
                                                    kind: ErrorKind::UnexpectedEndOfInput,
                                                    line: eof_line(toks),
                                                },
                                            )
                                        }
                                    },
                                }
                            } else {
                                Err(
                                    SpecPError {
                                        kind: ErrorKind::UnexpectedKeyword(kw),
                                        line: toks[j].start_line,
                                    },
                                )
                            }
                        },
                    },
                    _ => Err(
                        SpecPError { kind: ErrorKind::UnexpectedToken, line: toks[j].start_line },
                    ),
                }
            }
        },
    }
}

/// The language code of one comment of the form `language: <code>` (the
/// key and the code are trimmed), if the comment has that form.
pub open spec fn spec_language_comment(s: Seq<char>) -> Option<Seq<char>> {
    let k = spec_find(s, ':');
    if k >= s.len() {
        None
    } else {
        let key = spec_trim(s.take(k));
        let val = spec_trim(s.skip(k + 1));
        if key == "language"@ {
            Some(val)
        } else {
            None
        }
    }
}

/// Scans every comment token for a language tag. More than one is an
/// error; none means English.
pub open spec fn spec_scan_language(
    toks: Seq<SpecToken>,
    i: int,
    found: Option<Seq<char>>,
) -> Result<Seq<char>, SpecPError>
    decreases toks.len() - i,
{
    if !(0 <= i < toks.len()) {
        match found {
            Some(l) => Ok(l),
            None => Ok("en"@),
        }
    } else {
        match toks[i].kind {
            SpecTokenKind::Comment(c) => match spec_language_comment(c) {
                Some(l) => {
                    if found is Some {
                        Err(
                            SpecPError {
                                kind: ErrorKind::MultipleLanguageTags,
                                line: toks[i].start_line,
                            },
                        )
                    } else {
                        spec_scan_language(toks, i + 1, Some(l))
                    }
                },
                None => spec_scan_language(toks, i + 1, found),
            },
            _ => spec_scan_language(toks, i + 1, found),
        }
    }
}

/// A whole feature document, over its token stream: the language tag, the
/// feature's tags, the `Feature:` header with optional name, freeform
/// description, optional background, then the body.
pub open spec fn spec_parse_tokens(toks: Seq<SpecToken>) -> Result<SpecFeature, SpecPError> {
    match spec_scan_language(toks, 0, None) {
        Err(e) => Err(e),
        Ok(language) => match spec_scan_tags(toks, 0, Seq::<Seq<char>>::empty()) {
            Err(e) => Err(e),
            Ok((ftags, i)) => {
                if !(0 <= i < toks.len()) {
                    Err(SpecPError { kind: ErrorKind::UnexpectedEndOfInput, line: eof_line(toks) })
                } else {
                    match toks[i].kind {
                        SpecTokenKind::Line(s) => match spec_classify(s, false) {
                            None => Err(
                                SpecPError {
                                    kind: ErrorKind::InvalidKeyword,
                                    line: toks[i].start_line,
                                },
                            ),
                            Some((kw, name0, content, had)) => {
                                if kw != Keyword::Feature {
                                    Err(
                                        SpecPError {
                                            kind: ErrorKind::NotAFeature(kw),
                                            line: toks[i].start_line,
                                        },
                                    )
                                } else {
                                    let name = if content.len() == 0 {
                                        None
                                    } else {
                                        Some(content)
                                    };
                                    match spec_freeform(
                                        toks,
                                        i + 1,
                                        None,
                                        Seq::<char>::empty(),
                                        false,
                                    ) {
                                        Err(e) => Err(e),
                                        Ok((description, j)) => match spec_background(toks, j) {
                                            Err(e) => Err(e),
                                            Ok((background, b)) => {
                                            if 0 <= b <= toks.len() {
                                                match spec_body(
                                                    toks,
                                                    b,
                                                    Seq::<SpecScenario>::empty(),
                                                    Seq::<SpecOutline>::empty(),
                                                ) {
                                                    Err(e) => Err(e),
                                                    Ok((scens, outls)) => Ok(
                                                        SpecFeature {
                                                            language,
                                                            tags: ftags,
                                                            name,
                                                            description,
                                                            background,
                                                            scenarios: scens,
                                                            scenario_outlines: outls,
                                                        },
                                                    ),
                                                }
                                            } else {
                                                Err(
                                                    SpecPError {
                                                        kind: ErrorKind::UnexpectedEndOfInput,
                                                        line: eof_line(toks),
                                                    },
                                                )
                                            }
                                            },
                                        },
                                    }
                                }
                            },
                        },
                        _ => Err(
                            SpecPError { kind: ErrorKind::UnexpectedToken, line: toks[i].start_line },
                        ),
                    }
                }
            },
        },
    }
}

/// A whole feature document, from its source text: the lexer's tokens fed
/// to the document grammar.
pub open spec fn spec_parse_feature(text: Seq<char>) -> Result<SpecFeature, SpecPError> {
    match spec_lex(text) {
        Err(le) => Err(SpecPError { kind: ErrorKind::Lex(le.kind), line: le.line_num }),
        Ok(toks) => spec_parse_tokens(toks),
    }
}

fn make_error<'a>(kind: ErrorKind, line_num: usize, text: &'a str) -> (e: Error<'a>)
    ensures
        e@.kind == kind,
        e@.line_num == line_num,
        e@.text == text@,
{
    Error { kind, text, line_num }
}

/// The line just past the last token, where end-of-input errors point.
fn eof_line_exec(toks: &Vec<Token>) -> (r: usize)
    ensures
        r as int == eof_line(toks.deep_view()),
{
    if toks.len() > 0 {
        let r = toks[toks.len() - 1].end_line();
        proof {
            assert(toks.deep_view().last() == toks@[toks@.len() - 1].deep_view());
        }
        r
    } else {
        0
    }
}

/// Whether a token is skipped between sections: a blank line or a comment.
fn blank_or_comment(t: &Token) -> (r: bool)
    ensures
        r == (is_blank(t@) || is_comment(t@)),
{
    match t.kind() {
        TokenKind::Line(s) => s.unicode_len() == 0,
        TokenKind::Comment(_) => true,
        _ => false,
    }
}

/// Executable counterpart of [`spec_skip_blanks`].
fn skip_blanks(toks: &Vec<Token>, i: usize) -> (r: usize)
    requires
        i <= toks@.len(),
    ensures
        r as int == spec_skip_blanks(toks.deep_view(), i as int),
        i <= r <= toks@.len(),
{
    let ghost ts = toks.deep_view();
    let n = toks.len();
    let mut r = i;
    while r < n && blank_or_comment(&toks[r])
        invariant
            i <= r <= n,
            n == toks@.len(),
            ts == toks.deep_view(),
            spec_skip_blanks(ts, i as int) == spec_skip_blanks(ts, r as int),
        decreases n - r,
    {
        proof {
            assert(toks@[r as int].deep_view() == ts[r as int]);
        }
        r += 1;
    }
    proof {
        if r < n {
            assert(toks@[r as int].deep_view() == ts[r as int]);
        }
    }
    r
}

/// Executable counterpart of [`step_type_of`].
fn step_type_exec(kw: Keyword) -> (r: Option<StepType>)
    ensures
        r == step_type_of(kw),
{
    match kw {
        Keyword::Given => Some(StepType::Given),
        Keyword::When => Some(StepType::When),
        Keyword::Then => Some(StepType::Then),
        Keyword::And => Some(StepType::And),
        Keyword::But => Some(StepType::But),
        Keyword::Asterisk => Some(StepType::Asterisk),
        _ => None,
    }
}

/// Executable counterpart of [`spec_line_tags`].
fn line_tags(s: &str) -> (r: Result<Vec<String>, ()>)
    ensures
        r matches Ok(ws) ==> spec_line_tags(s@) == Ok::<_, ()>(ws.deep_view()),
        r is Err ==> spec_line_tags(s@) is Err,
{
    let segs = split_char(s, ' ');
    let ghost sg = segs.deep_view();
    let mut out: Vec<String> = Vec::new();
    let mut k: usize = 0;
    proof {
        assert(out.deep_view() =~= Seq::<Seq<char>>::empty());
    }
    while k < segs.len()
        invariant
            k <= segs@.len(),
            sg == segs.deep_view(),
            sg == spec_split(s@, ' '),
            out@.len() == out.deep_view().len(),
            spec_tags_from_segs(sg, 0, Seq::<Seq<char>>::empty()) == spec_tags_from_segs(
                sg,
                k as int,
                out.deep_view(),
            ),
        decreases segs@.len() - k,
    {
        let seg = segs[k];
        proof {
            assert(seg@ == sg[k as int]);
        }
        let sl = seg.unicode_len();
        if sl == 0 {
        } else if seg.get_char(0) == '@' {
            let tag = seg.substring_char(1, sl).to_owned();
            let ghost prev = out@;
            let ghost pre = out.deep_view();
            out.push(tag);
            proof {
                assert forall|j: int|
                    0 <= j < out@.len() implies out.deep_view()[j] == pre.push(
                    sg[k as int].drop_first(),
                )[j] by {
                    assert(out.deep_view()[j] == out@[j].deep_view());
                    if j < prev.len() {
                        assert(out@[j] == prev[j]);
                        assert(pre[j] == prev[j].deep_view());
                    } else {
                        assert(out@[j]@ =~= sg[k as int].drop_first());
                    }
                }
                assert(out.deep_view() =~= pre.push(sg[k as int].drop_first()));
            }
        } else {
            return Err(());
        }
        k += 1;
    }
    Ok(out)
}

/// Executable counterpart of [`spec_scan_tags`].
fn scan_tags<'a>(toks: &Vec<Token<'a>>, input: &'a str, i: usize) -> (r: Result<
    (Vec<String>, usize),
    Error<'a>,
>)
    requires
        i <= toks@.len(),
    ensures
        r matches Ok((ws, j)) ==> spec_scan_tags(toks.deep_view(), i as int, Seq::<
            Seq<char>,
        >::empty()) == Ok::<_, SpecPError>((ws.deep_view(), j as int)) && i <= j <= toks@.len(),
        r matches Err(e) ==> spec_scan_tags(toks.deep_view(), i as int, Seq::<Seq<char>>::empty())
            == Err::<(Seq<Seq<char>>, int), _>(SpecPError { kind: e@.kind, line: e@.line_num })
            && e@.text == input@,
{
    let ghost ts = toks.deep_view();
    let mut tags: Vec<String> = Vec::new();
    let mut cur = i;
    proof {
        assert(tags.deep_view() =~= Seq::<Seq<char>>::empty());
    }
    loop
        invariant
            i <= cur <= toks@.len(),
            ts == toks.deep_view(),
            tags@.len() == tags.deep_view().len(),
            spec_scan_tags(ts, i as int, Seq::<Seq<char>>::empty()) == spec_scan_tags(
                ts,
                cur as int,
                tags.deep_view(),
            ),
        decreases toks@.len() - cur,
    {
        let j = skip_blanks(toks, cur);
        if j >= toks.len() {
            if tags.len() > 0 {
                return Err(
                    make_error(ErrorKind::StandaloneTagsNotAllowed, eof_line_exec(toks), input),
                );
            } else {
                return Ok((tags, j));
            }
        }
        proof {
            assert(toks@[j as int].deep_view() == ts[j as int]);
        }
        match toks[j].kind() {
            TokenKind::Line(s) => {
                let sl = s.unicode_len();
                if sl > 0 && s.get_char(0) == '@' {
                    match line_tags(s) {
                        Ok(mut ws) => {
                            let ghost prev = tags@;
                            let ghost pre = tags.deep_view();
                            let ghost wsd = ws.deep_view();
                            tags.append(&mut ws);
                            proof {
                                assert forall|m: int|
                                    0 <= m < tags@.len() implies tags.deep_view()[m] == (pre
                                    + wsd)[m] by {
                                    assert(tags.deep_view()[m] == tags@[m].deep_view());
                                    if m < prev.len() {
                                        assert(tags@[m] == prev[m]);
                                        assert(pre[m] == prev[m].deep_view());
                                    } else {
                                        assert(wsd[m - prev.len()] == tags@[m].deep_view());
                                    }
                                }
                                assert(tags.deep_view() =~= pre + wsd);
                            }
                            cur = j + 1;
                        },
                        Err(()) => {
                            return Err(
                                make_error(ErrorKind::InvalidTag, toks[j].start_line(), input),
                            );
                        },
                    }
                } else {
                    return Ok((tags, j));
                }
            },
            _ => {
                return Ok((tags, j));
            },
        }
    }
}

/// Executable counterpart of [`spec_parse_steps`].
fn parse_steps<'a>(toks: &Vec<Token<'a>>, input: &'a str, i: usize) -> (r: Result<
    (Vec<Step>, usize),
    Error<'a>,
>)
    requires
        i <= toks@.len(),
    ensures
        r matches Ok((sts, k)) ==> spec_parse_steps(toks.deep_view(), i as int, Seq::<
            SpecStep,
        >::empty()) == Ok::<_, SpecPError>((sts.deep_view(), k as int)) && i <= k <= toks@.len(),
        r matches Err(e) ==> spec_parse_steps(toks.deep_view(), i as int, Seq::<SpecStep>::empty())
            == Err::<(Seq<SpecStep>, int), _>(SpecPError { kind: e@.kind, line: e@.line_num })
            && e@.text == input@,
{
    let ghost ts = toks.deep_view();
    let mut steps: Vec<Step> = Vec::new();
    let mut cur = i;
    proof {
        assert(steps.deep_view() =~= Seq::<SpecStep>::empty());
    }
    loop
        invariant
            i <= cur <= toks@.len(),
            ts == toks.deep_view(),
            steps@.len() == steps.deep_view().len(),
            spec_parse_steps(ts, i as int, Seq::<SpecStep>::empty()) == spec_parse_steps(
                ts,
                cur as int,
                steps.deep_view(),
            ),
        decreases toks@.len() - cur,
    {
        let j = skip_blanks(toks, cur);
        if j >= toks.len() {
            if steps.len() == 0 {
                return Err(
                    make_error(ErrorKind::UnexpectedEndOfInput, eof_line_exec(toks), input),
                );
            } else {
                return Ok((steps, j));
            }
        }
        proof {
            assert(toks@[j as int].deep_view() == ts[j as int]);
        }
        match toks[j].kind() {
            TokenKind::Line(s) => {
                match Keyword::parse(*s, true) {
                    None => {
                        if steps.len() == 0 {
                            return Err(
                                make_error(ErrorKind::InvalidKeyword, toks[j].start_line(), input),
                            );
                        } else {
                            return Ok((steps, j));
                        }
                    },
                    Some((kw, _name, content, had_colon)) => {
                        match step_type_exec(kw) {
                            None => {
                                if steps.len() == 0 {
                                    return Err(
                                        make_error(
                                            ErrorKind::MustHaveAtLeastOneStep,
                                            toks[j].start_line(),
                                            input,
                                        ),
                                    );
                                } else {
                                    return Ok((steps, j));
                                }
                            },
                            Some(ty) => {
                                if steps.len() == 0 && (ty == StepType::And || ty
                                    == StepType::But) {
                                    return Err(
                                        make_error(
                                            ErrorKind::InvalidBareKeyword(kw),
                                            toks[j].start_line(),
                                            input,
                                        ),
                                    );
                                }
                                if content.unicode_len() == 0 {
                                    return Err(
                                        make_error(
                                            ErrorKind::InvalidBareKeyword(kw),
                                            toks[j].start_line(),
                                            input,
                                        ),
                                    );
                                }
                                if had_colon {
                                    let k = skip_blanks(toks, j + 1);
                                    if k >= toks.len() {
                                        return Err(
                                            make_error(
                                                ErrorKind::UnexpectedEndOfInput,
                                                eof_line_exec(toks),
                                                input,
                                            ),
                                        );
                                    }
                                    proof {
                                        assert(toks@[k as int].deep_view() == ts[k as int]);
                                    }
                                    let data: StepData = match toks[k].kind() {
                                        TokenKind::DocString(v) => StepData::DocString(v.clone()),
                                        TokenKind::DataTable(tb) => StepData::DataTable(tb.clone()),
                                        _ => {
                                            return Err(
                                                make_error(
                                                    ErrorKind::ExpectedDocStringOrDataTable,
                                                    toks[k].start_line(),
                                                    input,
                                                ),
                                            );
                                        },
                                    };
                                    let st = Step {
                                        ty,
                                        description: content.to_owned(),
                                        data: Some(data),
                                    };
                                    let ghost prev = steps@;
                                    let ghost pre = steps.deep_view();
                                    steps.push(st);
                                    proof {
                                        assert forall|m: int|
                                            0 <= m < steps@.len() implies steps.deep_view()[m]
                                            == pre.push(steps@[steps@.len() - 1].deep_view())[
                                        m] by {
                                            assert(steps.deep_view()[m] == steps@[m].deep_view());
                                            if m < prev.len() {
                                                assert(steps@[m] == prev[m]);
                                                assert(pre[m] == prev[m].deep_view());
                                            }
                                        }
                                        assert(steps.deep_view() =~= pre.push(
                                            steps@[steps@.len() - 1].deep_view(),
                                        ));
                                    }
                                    cur = k + 1;
                                } else {
                                    let st = Step {
                                        ty,
                                        description: content.to_owned(),
                                        data: None,
                                    };
                                    let ghost prev = steps@;
                                    let ghost pre = steps.deep_view();
                                    steps.push(st);
                                    proof {
                                        assert forall|m: int|
                                            0 <= m < steps@.len() implies steps.deep_view()[m]
                                            == pre.push(steps@[steps@.len() - 1].deep_view())[
                                        m] by {
                                            assert(steps.deep_view()[m] == steps@[m].deep_view());
                                            if m < prev.len() {
                                                assert(steps@[m] == prev[m]);
                                                assert(pre[m] == prev[m].deep_view());
                                            }
                                        }
                                        assert(steps.deep_view() =~= pre.push(
                                            steps@[steps@.len() - 1].deep_view(),
                                        ));
                                    }
                                    cur = j + 1;
                                }
                            },
                        }
                    },
                }
            },
            _ => {
                if steps.len() == 0 {
                    return Err(
                        make_error(ErrorKind::UnexpectedToken, toks[j].start_line(), input),
                    );
                } else {
                    return Ok((steps, j));
                }
            },
        }
    }
}

/// Executable counterpart of [`spec_first_bad_background`].
fn first_bad_background(steps: &Vec<Step>) -> (r: Option<StepType>)
    ensures
        r == spec_first_bad_background(steps.deep_view(), 0),
{
    let ghost sd = steps.deep_view();
    let mut k: usize = 0;
    while k < steps.len()
        invariant
            k <= steps@.len(),
            sd == steps.deep_view(),
            spec_first_bad_background(sd, 0) == spec_first_bad_background(sd, k as int),
        decreases steps@.len() - k,
    {
        let ty = steps[k].ty;
        proof {
            assert(steps@[k as int].deep_view() == sd[k as int]);
        }
        if !(ty == StepType::Given || ty == StepType::And || ty == StepType::But) {
            return Some(ty);
        }
        k += 1;
    }
    None
}

/// Executable counterpart of [`spec_freeform`].
fn parse_freeform<'a>(
    toks: &Vec<Token<'a>>,
    input: &'a str,
    i: usize,
    scenario_level: bool,
) -> (r: Result<(Option<String>, usize), Error<'a>>)
    requires
        i <= toks@.len(),
    ensures
        r matches Ok((d, j)) ==> spec_freeform(
            toks.deep_view(),
            i as int,
            None,
            Seq::<char>::empty(),
            scenario_level,
        ) == Ok::<_, SpecPError>((d.deep_view(), j as int)) && i <= j <= toks@.len(),
        r matches Err(e) ==> spec_freeform(
            toks.deep_view(),
            i as int,
            None,
            Seq::<char>::empty(),
            scenario_level,
        ) == Err::<(Option<Seq<char>>, int), _>(SpecPError { kind: e@.kind, line: e@.line_num })
            && e@.text == input@,
{
    let ghost ts = toks.deep_view();
    let mut acc = String::new();
    let mut ind: Option<&'a str> = None;
    let mut cur = i;
    proof {
        assert(acc@ =~= Seq::<char>::empty());
    }
    loop
        invariant_except_break
            i <= cur <= toks@.len(),
            ts == toks.deep_view(),
            spec_freeform(ts, i as int, None, Seq::<char>::empty(), scenario_level)
                == spec_freeform(ts, cur as int, ind.deep_view(), acc@, scenario_level),
        ensures
            i <= cur <= toks@.len(),
            ts == toks.deep_view(),
            spec_freeform(ts, i as int, None, Seq::<char>::empty(), scenario_level) == Ok::<
                _,
                SpecPError,
            >((freeform_result(acc@), cur as int)),
        decreases toks@.len() - cur,
    {
        if cur >= toks.len() {
            break ;
        }
        proof {
            assert(toks@[cur as int].deep_view() == ts[cur as int]);
        }
        match toks[cur].kind() {
            TokenKind::Comment(_) => {
                cur += 1;
            },
            TokenKind::Line(s) => {
                let sl = s.unicode_len();
                if sl == 0 {
                    cur += 1;
                } else {
                    let stop = s.get_char(0) == '@' || match Keyword::parse(*s, false) {
                        Some((kw, _name, _content, _had)) => {
                            if scenario_level {
                                true
                            } else {
                                kw == Keyword::Background || kw == Keyword::Scenario || kw
                                    == Keyword::ScenarioOutline
                            }
                        },
                        None => false,
                    };
                    if stop {
                        break ;
                    }
                    let raw = line_at(toks[cur].text(), toks[cur].start_line());
                    let rl = raw.unicode_len();
                    match ind {
                        None => {
                            let ind0 = leading_space(raw);
                            let il = ind0.unicode_len();
                            let piece = raw.substring_char(il, rl);
                            let ghost pre = acc@;
                            acc.append(piece);
                            acc.append("\n");
                            proof {
                                assert(piece@ =~= raw@.skip(spec_indent(raw@).len() as int));
                                assert(acc@ =~= pre + raw@.skip(spec_indent(raw@).len() as int)
                                    + "\n"@);
                            }
                            ind = Some(ind0);
                            cur += 1;
                        },
                        Some(ind0) => {
                            if starts_with(raw, ind0) {
                                let il = ind0.unicode_len();
                                let piece = raw.substring_char(il, rl);
                                let ghost pre = acc@;
                                acc.append(piece);
                                acc.append("\n");
                                proof {
                                    assert(piece@ =~= raw@.skip(ind0@.len() as int));
                                    assert(acc@ =~= pre + raw@.skip(ind0@.len() as int) + "\n"@);
                                }
                                cur += 1;
                            } else {
                                return Err(
                                    make_error(
                                        ErrorKind::InconsistentIndentation,
                                        toks[cur].start_line(),
                                        input,
                                    ),
                                );
                            }
                        },
                    }
                }
            },
            _ => {
                break ;
            },
        }
    }
    let f = trim(acc.as_str());
    if f.unicode_len() == 0 {
        Ok((None, cur))
    } else {
        Ok((Some(f.to_owned()), cur))
    }
}

/// Executable counterpart of [`spec_background`].
fn parse_background<'a>(toks: &Vec<Token<'a>>, input: &'a str, i: usize) -> (r: Result<
    (Vec<Step>, usize),
    Error<'a>,
>)
    requires
        i <= toks@.len(),
    ensures
        r matches Ok((sts, k)) ==> spec_background(toks.deep_view(), i as int) == Ok::<
            _,
            SpecPError,
        >((sts.deep_view(), k as int)) && i <= k <= toks@.len(),
        r matches Err(e) ==> spec_background(toks.deep_view(), i as int) == Err::<
            (Seq<SpecStep>, int),
            _,
        >(SpecPError { kind: e@.kind, line: e@.line_num }) && e@.text == input@,
{
    let ghost ts = toks.deep_view();
    let j = skip_blanks(toks, i);
    if j >= toks.len() {
        let empty_steps: Vec<Step> = Vec::new();
        proof {
            assert(empty_steps.deep_view() =~= Seq::<SpecStep>::empty());
        }
        return Ok((empty_steps, i));
    }
    proof {
        assert(toks@[j as int].deep_view() == ts[j as int]);
    }
    match toks[j].kind() {
        TokenKind::Line(s) => {
            match Keyword::parse(*s, false) {
                Some((Keyword::Background, _name, _content, _had)) => {
                    match parse_steps(toks, input, j + 1) {
                        Err(e) => Err(e),
                        Ok((steps, k)) => {
                            match first_bad_background(&steps) {
                                Some(ty) => Err(
                                    make_error(
                                        ErrorKind::InvalidBackgroundStep(ty),
                                        toks[j].start_line(),
                                        input,
                                    ),
                                ),
                                None => Ok((steps, k)),
                            }
                        },
                    }
                },
                _ => {
                    let empty_steps: Vec<Step> = Vec::new();
                    proof {
                        assert(empty_steps.deep_view() =~= Seq::<SpecStep>::empty());
                    }
                    Ok((empty_steps, i))
                },
            }
        },
        _ => {
            let empty_steps: Vec<Step> = Vec::new();
            proof {
                assert(empty_steps.deep_view() =~= Seq::<SpecStep>::empty());
            }
            Ok((empty_steps, i))
        },
    }
}

/// Whether any string in `v` has the character sequence of `s`.
fn contains_str(v: &Vec<String>, s: &str) -> (r: bool)
    ensures
        r == v.deep_view().contains(s@),
{
    let ghost vd = v.deep_view();
    let mut k: usize = 0;
    while k < v.len()
        invariant
            k <= v@.len(),
            vd == v.deep_view(),
            forall|m: int| 0 <= m < k ==> vd[m] != s@,
        decreases v@.len() - k,
    {
        proof {
            assert(v@[k as int].deep_view() == vd[k as int]);
        }
        if crate::text::str_eq(v[k].as_str(), s) {
            proof {
                assert(vd[k as int] == s@);
            }
            return true;
        }
        k += 1;
    }
    proof {
        if vd.contains(s@) {
            let m = choose|m: int| 0 <= m < vd.len() && vd[m] == s@;
            assert(false);
        }
    }
    false
}

/// Whether `a` and `b` name the same set of columns, in any order.
fn same_placeholder_set(a: &Vec<String>, b: &Vec<String>) -> (r: bool)
    ensures
        r == same_columns(a.deep_view(), b.deep_view()),
{
    let ghost ad = a.deep_view();
    let ghost bd = b.deep_view();
    let mut k: usize = 0;
    while k < a.len()
        invariant
            k <= a@.len(),
            ad == a.deep_view(),
            bd == b.deep_view(),
            forall|m: int| 0 <= m < k ==> bd.contains(#[trigger] ad[m]),
        decreases a@.len() - k,
    {
        proof {
            assert(a@[k as int].deep_view() == ad[k as int]);
        }
        if !contains_str(b, a[k].as_str()) {
            proof {
                assert(ad.contains(ad[k as int]));
                assert(!same_columns(ad, bd));
            }
            return false;
        }
        k += 1;
    }
    let mut m: usize = 0;
    while m < b.len()
        invariant
            m <= b@.len(),
            ad == a.deep_view(),
            bd == b.deep_view(),
            forall|x: int| 0 <= x < ad.len() ==> bd.contains(#[trigger] ad[x]),
            forall|x: int| 0 <= x < m ==> ad.contains(#[trigger] bd[x]),
        decreases b@.len() - m,
    {
        proof {
            assert(b@[m as int].deep_view() == bd[m as int]);
        }
        if !contains_str(a, b[m].as_str()) {
            proof {
                assert(bd.contains(bd[m as int]));
                assert(!same_columns(ad, bd));
            }
            return false;
        }
        m += 1;
    }
    proof {
        assert forall|x: Seq<char>| ad.contains(x) implies bd.contains(x) by {
            let w = choose|w: int| 0 <= w < ad.len() && ad[w] == x;
            assert(bd.contains(ad[w]));
        }
        assert forall|x: Seq<char>| bd.contains(x) implies ad.contains(x) by {
            let w = choose|w: int| 0 <= w < bd.len() && bd[w] == x;
            assert(ad.contains(bd[w]));
        }
    }
    true
}

/// Executable counterpart of [`spec_examples`].
fn parse_examples<'a>(toks: &Vec<Token<'a>>, input: &'a str, i: usize) -> (r: Result<
    (Vec<crate::scenario_outline::TaggedScenarios>, usize),
    Error<'a>,
>)
    requires
        i <= toks@.len(),
    ensures
        r matches Ok((bs, m)) ==> spec_examples(
            toks.deep_view(),
            i as int,
            None,
            Seq::<SpecTagged>::empty(),
        ) == Ok::<_, SpecPError>((bs.deep_view(), m as int)) && i <= m <= toks@.len(),
        r matches Err(e) ==> spec_examples(
            toks.deep_view(),
            i as int,
            None,
            Seq::<SpecTagged>::empty(),
        ) == Err::<(Seq<SpecTagged>, int), _>(SpecPError { kind: e@.kind, line: e@.line_num })
            && e@.text == input@,
{
    let ghost ts = toks.deep_view();
    let mut blocks: Vec<crate::scenario_outline::TaggedScenarios> = Vec::new();
    let mut first: Option<Vec<String>> = None;
    let ghost mut spec_first: Option<Seq<Seq<char>>> = None;
    let mut cur = i;
    proof {
        assert(blocks.deep_view() =~= Seq::<SpecTagged>::empty());
    }
    loop
        invariant
            i <= cur <= toks@.len(),
            ts == toks.deep_view(),
            blocks@.len() == blocks.deep_view().len(),
            match first {
                Some(fh) => spec_first == Some(fh.deep_view()),
                None => spec_first is None,
            },
            spec_examples(ts, i as int, None, Seq::<SpecTagged>::empty()) == spec_examples(
                ts,
                cur as int,
                spec_first,
                blocks.deep_view(),
            ),
        decreases toks@.len() - cur,
    {
        match scan_tags(toks, input, cur) {
            Err(e) => {
                return Err(e);
            },
            Ok((etags, k)) => {
                if k >= toks.len() {
                    if blocks.len() == 0 {
                        return Err(
                            make_error(
                                ErrorKind::MustHaveAtLeastOneScenariosSection,
                                eof_line_exec(toks),
                                input,
                            ),
                        );
                    } else {
                        return Ok((blocks, cur));
                    }
                }
                proof {
                    assert(toks@[k as int].deep_view() == ts[k as int]);
                }
                match toks[k].kind() {
                    TokenKind::Line(s) => {
                        match Keyword::parse(*s, false) {
                            Some((Keyword::Scenarios, _name, _content, _had)) => {
                                let m = skip_blanks(toks, k + 1);
                                if m >= toks.len() {
                                    return Err(
                                        make_error(
                                            ErrorKind::ExpectedDataTableAfterExamples,
                                            eof_line_exec(toks),
                                            input,
                                        ),
                                    );
                                }
                                proof {
                                    assert(toks@[m as int].deep_view() == ts[m as int]);
                                }
                                match toks[m].kind() {
                                    TokenKind::DataTable(t) => {
                                        match &first {
                                            Some(fh) => {
                                                if !same_placeholder_set(t.header(), fh) {
                                                    return Err(
                                                        make_error(
                                                            ErrorKind::DifferingPlaceholders,
                                                            toks[m].start_line(),
                                                            input,
                                                        ),
                                                    );
                                                }
                                            },
                                            None => {},
                                        }
                                        let tb = t.clone();
                                        let (header, rows) = tb.into_parts();
                                        if first.is_none() {
                                            first = Some(crate::data_table::clone_strings(&header));
                                            proof {
                                                spec_first = Some(header.deep_view());
                                            }
                                        }
                                        let block = tagged_from_parts(etags, header, rows);
                                        let ghost prev = blocks@;
                                        let ghost pre = blocks.deep_view();
                                        blocks.push(block);
                                        proof {
                                            assert forall|w: int|
                                                0 <= w < blocks@.len() implies blocks.deep_view()[w]
                                                == pre.push(
                                                blocks@[blocks@.len() - 1].deep_view(),
                                            )[w] by {
                                                assert(blocks.deep_view()[w] == blocks@[
                                                    w].deep_view());
                                                if w < prev.len() {
                                                    assert(blocks@[w] == prev[w]);
                                                    assert(pre[w] == prev[w].deep_view());
                                                }
                                            }
                                            assert(blocks.deep_view() =~= pre.push(
                                                blocks@[blocks@.len() - 1].deep_view(),
                                            ));
                                        }
                                        cur = m + 1;
                                    },
                                    _ => {
                                        return Err(
                                            make_error(
                                                ErrorKind::ExpectedDataTableAfterExamples,
                                                toks[m].start_line(),
                                                input,
                                            ),
                                        );
                                    },
                                }
                            },
                            Some((_kw, _name, _content, _had)) => {
                                if blocks.len() == 0 {
                                    return Err(
                                        make_error(
                                            ErrorKind::MustHaveAtLeastOneScenariosSection,
                                            toks[k].start_line(),
                                            input,
                                        ),
                                    );
                                } else {
                                    return Ok((blocks, cur));
                                }
                            },
                            None => {
                                if blocks.len() == 0 {
                                    return Err(
                                        make_error(
                                            ErrorKind::InvalidKeyword,
                                            toks[k].start_line(),
                                            input,
                                        ),
                                    );
                                } else {
                                    return Ok((blocks, cur));
                                }
                            },
                        }
                    },
                    _ => {
                        if blocks.len() == 0 {
                            return Err(
                                make_error(
                                    ErrorKind::MustHaveAtLeastOneScenariosSection,
                                    toks[k].start_line(),
                                    input,
                                ),
                            );
                        } else {
                            return Ok((blocks, cur));
                        }
                    },
                }
            },
        }
    }
}

/// A scenario after its header line: description, then its step block.
fn parse_scenario_rest<'a>(
    toks: &Vec<Token<'a>>,
    input: &'a str,
    i: usize,
    tags: Vec<String>,
    name: Option<String>,
) -> (r: Result<(Scenario, usize), Error<'a>>)
    requires
        i <= toks@.len(),
    ensures
        r matches Ok((sc, k)) ==> spec_scenario_rest(
            toks.deep_view(),
            i as int,
            tags.deep_view(),
            name.deep_view(),
        ) == Ok::<_, SpecPError>((sc@, k as int)) && i <= k <= toks@.len(),
        r matches Err(e) ==> spec_scenario_rest(
            toks.deep_view(),
            i as int,
            tags.deep_view(),
            name.deep_view(),
        ) == Err::<(SpecScenario, int), _>(SpecPError { kind: e@.kind, line: e@.line_num })
            && e@.text == input@,
{
    let (description, j) = match parse_freeform(toks, input, i, true) {
        Ok(p) => p,
        Err(e) => {
            return Err(e);
        },
    };
    match parse_steps(toks, input, j) {
        Err(e) => Err(e),
        Ok((steps, k)) => {
            let sc = Scenario { tags, name, description, steps };
            Ok((sc, k))
        },
    }
}

/// A scenario outline after its header line: description, template steps,
/// then its examples sections.
fn parse_outline_rest<'a>(
    toks: &Vec<Token<'a>>,
    input: &'a str,
    i: usize,
    tags: Vec<String>,
    name: Option<String>,
) -> (r: Result<(ScenarioOutline, usize), Error<'a>>)
    requires
        i <= toks@.len(),
    ensures
        r matches Ok((ol, k)) ==> spec_outline_rest(
            toks.deep_view(),
            i as int,
            tags.deep_view(),
            name.deep_view(),
        ) == Ok::<_, SpecPError>((ol@, k as int)) && i <= k <= toks@.len(),
        r matches Err(e) ==> spec_outline_rest(
            toks.deep_view(),
            i as int,
            tags.deep_view(),
            name.deep_view(),
        ) == Err::<(SpecOutline, int), _>(SpecPError { kind: e@.kind, line: e@.line_num })
            && e@.text == input@,
{
    let (description, j) = match parse_freeform(toks, input, i, true) {
        Ok(p) => p,
        Err(e) => {
            return Err(e);
        },
    };
    match parse_steps(toks, input, j) {
        Err(e) => Err(e),
        Ok((steps, k)) => {
            match parse_examples(toks, input, k) {
                Err(e) => Err(e),
                Ok((blocks, m)) => {
                    let ol = ScenarioOutline { tags, name, description, steps, scenarios: blocks };
                    Ok((ol, m))
                },
            }
        },
    }
}

/// Executable counterpart of [`spec_body`].
fn parse_body<'a>(toks: &Vec<Token<'a>>, input: &'a str, i: usize) -> (r: Result<
    (Vec<Scenario>, Vec<ScenarioOutline>),
    Error<'a>,
>)
    requires
        i <= toks@.len(),
    ensures
        r matches Ok((ss, os)) ==> spec_body(
            toks.deep_view(),
            i as int,
            Seq::<SpecScenario>::empty(),
            Seq::<SpecOutline>::empty(),
        ) == Ok::<_, SpecPError>((ss.deep_view(), os.deep_view())),
        r matches Err(e) ==> spec_body(
            toks.deep_view(),
            i as int,
            Seq::<SpecScenario>::empty(),
            Seq::<SpecOutline>::empty(),
        ) == Err::<(Seq<SpecScenario>, Seq<SpecOutline>), _>(
            SpecPError { kind: e@.kind, line: e@.line_num },
        ) && e@.text == input@,
{
    let ghost ts = toks.deep_view();
    let mut scens: Vec<Scenario> = Vec::new();
    let mut outls: Vec<ScenarioOutline> = Vec::new();
    let mut cur = i;
    proof {
        assert(scens.deep_view() =~= Seq::<SpecScenario>::empty());
        assert(outls.deep_view() =~= Seq::<SpecOutline>::empty());
    }
    loop
        invariant
            i <= cur <= toks@.len(),
            ts == toks.deep_view(),
            spec_body(ts, i as int, Seq::<SpecScenario>::empty(), Seq::<SpecOutline>::empty())
                == spec_body(ts, cur as int, scens.deep_view(), outls.deep_view()),
        decreases toks@.len() - cur,
    {
        match scan_tags(toks, input, cur) {
            Err(e) => {
                return Err(e);
            },
            Ok((tags, j)) => {
                if j >= toks.len() {
                    return Ok((scens, outls));
                }
                proof {
                    assert(toks@[j as int].deep_view() == ts[j as int]);
                }
                match toks[j].kind() {
                    TokenKind::Line(s) => {
                        match Keyword::parse(*s, false) {
                            None => {
                                return Err(
                                    make_error(
                                        ErrorKind::InvalidKeyword,
                                        toks[j].start_line(),
                                        input,
                                    ),
                                );
                            },
                            Some((kw, _name0, content, _had)) => {
                                let name: Option<String> = if content.unicode_len() == 0 {
                                    None
                                } else {
                                    Some(content.to_owned())
                                };
                                if kw == Keyword::Scenario {
                                    match parse_scenario_rest(toks, input, j + 1, tags, name) {
                                        Err(e) => {
                                            return Err(e);
                                        },
                                        Ok((sc, k)) => {
                                            let ghost prev = scens@;
                                            let ghost pre = scens.deep_view();
                                            scens.push(sc);
                                            proof {
                                                assert forall|w: int|
                                                    0 <= w < scens@.len() implies scens.deep_view()[
                                                w] == pre.push(
                                                    scens@[scens@.len() - 1].deep_view(),
                                                )[w] by {
                                                    assert(scens.deep_view()[w] == scens@[
                                                        w].deep_view());
                                                    if w < prev.len() {
                                                        assert(scens@[w] == prev[w]);
                                                        assert(pre[w] == prev[w].deep_view());
                                                    }
                                                }
                                                assert(scens.deep_view() =~= pre.push(
                                                    scens@[scens@.len() - 1].deep_view(),
                                                ));
                                            }
                                            cur = k;
                                        },
                                    }
                                } else if kw == Keyword::ScenarioOutline {
                                    match parse_outline_rest(toks, input, j + 1, tags, name) {
                                        Err(e) => {
                                            return Err(e);
                                        },
                                        Ok((ol, k)) => {
                                            let ghost prev = outls@;
                                            let ghost pre = outls.deep_view();
                                            outls.push(ol);
                                            proof {
                                                assert forall|w: int|
                                                    0 <= w < outls@.len() implies outls.deep_view()[
                                                w] == pre.push(
                                                    outls@[outls@.len() - 1].deep_view(),
                                                )[w] by {
                                                    assert(outls.deep_view()[w] == outls@[
                                                        w].deep_view());
                                                    if w < prev.len() {
                                                        assert(outls@[w] == prev[w]);
                                                        assert(pre[w] == prev[w].deep_view());
                                                    }
                                                }
                                                assert(outls.deep_view() =~= pre.push(
                                                    outls@[outls@.len() - 1].deep_view(),
                                                ));
                                            }
                                            cur = k;
                                        },
                                    }
                                } else {
                                    return Err(
                                        make_error(
                                            ErrorKind::UnexpectedKeyword(kw),
                                            toks[j].start_line(),
                                            input,
                                        ),
                                    );
                                }
                            },
                        }
                    },
                    _ => {
                        return Err(
                            make_error(ErrorKind::UnexpectedToken, toks[j].start_line(), input),
                        );
                    },
                }
            },
        }
    }
}

/// Executable counterpart of [`spec_language_comment`].
fn language_comment(c: &str) -> (r: Option<String>)
    ensures
        r is None ==> spec_language_comment(c@) is None,
        r matches Some(l) ==> spec_language_comment(c@) == Some(l@),
{
    let n = c.unicode_len();
    let k = crate::text::find_from(c, ':', 0);
    proof {
        crate::text::lemma_find_at(c@, ':', k as int);
    }
    if k >= n {
        return None;
    }
    let key = trim(c.substring_char(0, k));
    proof {
        assert(c@.subrange(0, k as int) =~= c@.take(k as int));
    }
    let val = trim(c.substring_char(k + 1, n));
    proof {
        assert(c@.subrange(k as int + 1, n as int) =~= c@.skip(k as int + 1));
    }
    if crate::text::str_eq(key, "language") {
        Some(val.to_owned())
    } else {
        None
    }
}

/// Executable counterpart of [`spec_scan_language`].
fn scan_language<'a>(toks: &Vec<Token<'a>>, input: &'a str) -> (r: Result<String, Error<'a>>)
    ensures
        r matches Ok(l) ==> spec_scan_language(toks.deep_view(), 0, None) == Ok::<_, SpecPError>(
            l@,
        ),
        r matches Err(e) ==> spec_scan_language(toks.deep_view(), 0, None) == Err::<Seq<char>, _>(
            SpecPError { kind: e@.kind, line: e@.line_num },
        ) && e@.text == input@,
{
    let ghost ts = toks.deep_view();
    let mut found: Option<String> = None;
    let mut cur: usize = 0;
    loop
        invariant_except_break
            cur <= toks@.len(),
            ts == toks.deep_view(),
            spec_scan_language(ts, 0, None) == spec_scan_language(
                ts,
                cur as int,
                found.deep_view(),
            ),
        ensures
            spec_scan_language(ts, 0, None) == spec_scan_language(
                ts,
                cur as int,
                found.deep_view(),
            ),
            cur >= toks@.len(),
            ts == toks.deep_view(),
        decreases toks@.len() - cur,
    {
        if cur >= toks.len() {
            break ;
        }
        proof {
            assert(toks@[cur as int].deep_view() == ts[cur as int]);
        }
        match toks[cur].kind() {
            TokenKind::Comment(c) => {
                match language_comment(c) {
                    Some(l) => {
                        if found.is_some() {
                            return Err(
                                make_error(
                                    ErrorKind::MultipleLanguageTags,
                                    toks[cur].start_line(),
                                    input,
                                ),
                            );
                        }
                        found = Some(l);
                        cur += 1;
                    },
                    None => {
                        cur += 1;
                    },
                }
            },
            _ => {
                cur += 1;
            },
        }
    }
    match found {
        Some(l) => Ok(l),
        None => {
            let mut en = String::new();
            en.append("en");
            Ok(en)
        },
    }
}

/// Parses a whole feature source into its document tree. The result is
/// exactly what the mathematical grammar gives: on success the parsed
/// feature, otherwise the grammar's error kind and line, carrying the
/// source text. Empty input has no `Feature:` header and is rejected.
pub fn parse_feature<'a>(text: &'a str) -> (r: Result<Feature, Error<'a>>)
    ensures
        r matches Ok(f) ==> spec_parse_feature(text@) == Ok::<_, SpecPError>(f@) && f@.wf(),
        r matches Err(e) ==> spec_parse_feature(text@) == Err::<SpecFeature, _>(
            SpecPError { kind: e@.kind, line: e@.line_num },
        ) && e@.text == text@,
        text@.len() == 0 ==> r is Err,
{
    proof {
        if text@.len() == 0 {
            lemma_empty_input_rejected();
            assert(text@ =~= Seq::<char>::empty());
        }
        lemma_parse_feature_wf(text@);
    }
    let tokens = match crate::lex::lex(text) {
        Ok(t) => t,
        Err(le) => {
            return Err(make_error(ErrorKind::Lex(le.kind), le.line_num, text));
        },
    };
    let ghost ts = tokens.deep_view();
    let language = match scan_language(&tokens, text) {
        Ok(l) => l,
        Err(e) => {
            return Err(e);
        },
    };
    let (ftags, i) = match scan_tags(&tokens, text, 0) {
        Ok(p) => p,
        Err(e) => {
            return Err(e);
        },
    };
    if i >= tokens.len() {
        return Err(make_error(ErrorKind::UnexpectedEndOfInput, eof_line_exec(&tokens), text));
    }
    proof {
        assert(tokens@[i as int].deep_view() == ts[i as int]);
    }
    match tokens[i].kind() {
        TokenKind::Line(s) => {
            match Keyword::parse(*s, false) {
                None => Err(make_error(ErrorKind::InvalidKeyword, tokens[i].start_line(), text)),
                Some((kw, _name0, content, _had)) => {
                    if !(kw == Keyword::Feature) {
                        return Err(
                            make_error(ErrorKind::NotAFeature(kw), tokens[i].start_line(), text),
                        );
                    }
                    let name: Option<String> = if content.unicode_len() == 0 {
                        None
                    } else {
                        Some(content.to_owned())
                    };
                    let (description, j) = match parse_freeform(&tokens, text, i + 1, false) {
                        Ok(p) => p,
                        Err(e) => {
                            return Err(e);
                        },
                    };
                    match parse_background(&tokens, text, j) {
                        Err(e) => Err(e),
                        Ok((background, b)) => {
                            match parse_body(&tokens, text, b) {
                                Err(e) => Err(e),
                                Ok((scenarios, scenario_outlines)) => {
                                    let f = Feature {
                                        language,
                                        tags: ftags,
                                        name,
                                        description,
                                        background,
                                        scenarios,
                                        scenario_outlines,
                                    };
                                    Ok(f)
                                },
                            }
                        },
                    }
                },
            }
        },
        _ => Err(make_error(ErrorKind::UnexpectedToken, tokens[i].start_line(), text)),
    }
}

/// Empty input is rejected: it has no `Feature:` header.
pub proof fn lemma_empty_input_rejected()
    ensures
        spec_parse_feature(Seq::<char>::empty()) is Err,
{
    let e = Seq::<char>::empty();
    assert(spec_find(e, '\n') == 0);
    assert(spec_split(e, '\n') == seq![e]);
    assert(seq![e].last() == e);
    assert(seq![e].drop_last() =~= Seq::<Seq<char>>::empty());
    assert(crate::text::spec_lines(e) =~= Seq::<Seq<char>>::empty());
    let toks = Seq::<SpecToken>::empty();
    assert(spec_lex(e) == Ok::<_, crate::lex::SpecLexError>(toks));
    assert(spec_scan_language(toks, 0, None) == Ok::<_, SpecPError>("en"@));
    assert(spec_skip_blanks(toks, 0) == 0);
    assert(spec_scan_tags(toks, 0, Seq::<Seq<char>>::empty()) == Ok::<_, SpecPError>((
        Seq::<Seq<char>>::empty(),
        0int,
    )));
    assert(spec_parse_tokens(toks) is Err);
}

/// Every examples block the parser builds is well-formed, because the lexer
/// only hands over well-formed tables.
proof fn lemma_examples_wf(
    toks: Seq<SpecToken>,
    i: int,
    first: Option<Seq<Seq<char>>>,
    acc: Seq<SpecTagged>,
)
    requires
        0 <= i <= toks.len(),
        crate::lex::tokens_tables_wf(toks),
        forall|m: int| 0 <= m < acc.len() ==> (#[trigger] acc[m]).wf(),
    ensures
        spec_examples(toks, i, first, acc) matches Ok((bs, m)) ==> (forall|w: int|
            0 <= w < bs.len() ==> (#[trigger] bs[w]).wf()),
    decreases toks.len() - i,
{
    lemma_scan_tags_pos(toks, i, Seq::<Seq<char>>::empty());
    match spec_scan_tags(toks, i, Seq::<Seq<char>>::empty()) {
        Err(e) => {},
        Ok((etags, k)) => {
            if 0 <= k < toks.len() {
                match toks[k].kind {
                    SpecTokenKind::Line(s) => match spec_classify(s, false) {
                        Some((Keyword::Scenarios, name, content, had)) => {
                            lemma_skip_blanks_bounds(toks, k + 1);
                            let m = spec_skip_blanks(toks, k + 1);
                            if 0 <= m < toks.len() {
                                match toks[m].kind {
                                    SpecTokenKind::DataTable(tb) => {
                                        if first matches Some(fp) && !same_columns(tb.header, fp) {
                                        } else {
                                            let fp2 = if first is Some {
                                                first
                                            } else {
                                                Some(tb.header)
                                            };
                                            if m + 1 > i {
                                                let blk = SpecTagged {
                                                    tags: etags,
                                                    placeholders: tb.header,
                                                    values: tb.rows,
                                                };
                                                assert(tb.wf());
                                                assert(blk.wf());
                                                assert(forall|w: int|
                                                    0 <= w < acc.push(blk).len() ==> (
                                                    #[trigger] acc.push(blk)[w]).wf());
                                                lemma_examples_wf(toks, m + 1, fp2, acc.push(blk));
                                            }
                                        }
                                    },
                                    _ => {},
                                }
                            }
                        },
                        _ => {},
                    },
                    _ => {},
                }
            }
        },
    }
}

/// Every outline the parser builds is well-formed.
proof fn lemma_outline_rest_wf(
    toks: Seq<SpecToken>,
    i: int,
    tags: Seq<Seq<char>>,
    name: Option<Seq<char>>,
)
    requires
        0 <= i <= toks.len(),
        crate::lex::tokens_tables_wf(toks),
    ensures
        spec_outline_rest(toks, i, tags, name) matches Ok((ol, k)) ==> ol.wf(),
{
    lemma_freeform_pos(toks, i, None, Seq::<char>::empty(), true);
    match spec_freeform(toks, i, None, Seq::<char>::empty(), true) {
        Err(_) => {},
        Ok((description, j)) => {
            lemma_parse_steps_pos(toks, j, Seq::<SpecStep>::empty());
            match spec_parse_steps(toks, j, Seq::<SpecStep>::empty()) {
                Err(_) => {},
                Ok((steps, k)) => {
                    if 0 <= k <= toks.len() {
                        lemma_examples_wf(toks, k, None, Seq::<SpecTagged>::empty());
                    }
                },
            }
        },
    }
}

/// Every outline of a parsed body is well-formed.
proof fn lemma_body_wf(
    toks: Seq<SpecToken>,
    i: int,
    scens: Seq<SpecScenario>,
    outls: Seq<SpecOutline>,
)
    requires
        0 <= i <= toks.len(),
        crate::lex::tokens_tables_wf(toks),
        forall|m: int| 0 <= m < outls.len() ==> (#[trigger] outls[m]).wf(),
    ensures
        spec_body(toks, i, scens, outls) matches Ok((ss, os)) ==> (forall|m: int|
            0 <= m < os.len() ==> (#[trigger] os[m]).wf()),
    decreases toks.len() - i,
{
    lemma_scan_tags_pos(toks, i, Seq::<Seq<char>>::empty());
    match spec_scan_tags(toks, i, Seq::<Seq<char>>::empty()) {
        Err(e) => {},
        Ok((tags, j)) => {
            if 0 <= j < toks.len() {
                match toks[j].kind {
                    SpecTokenKind::Line(s) => match spec_classify(s, false) {
                        None => {},
                        Some((kw, name0, content, had)) => {
                            let name = if content.len() == 0 {
                                None
                            } else {
                                Some(content)
                            };
                            if kw == Keyword::Scenario {
                                match spec_scenario_rest(toks, j + 1, tags, name) {
                                    Err(e) => {},
                                    Ok((sc, k)) => {
                                        if i < k <= toks.len() {
                                            lemma_body_wf(toks, k, scens.push(sc), outls);
                                        }
                                    },
                                }
                            } else if kw == Keyword::ScenarioOutline {
                                match spec_outline_rest(toks, j + 1, tags, name) {
                                    Err(e) => {},
                                    Ok((ol, k)) => {
                                        if i < k <= toks.len() {
                                            lemma_outline_rest_wf(toks, j + 1, tags, name);
                                            assert(forall|m: int|
                                                0 <= m < outls.push(ol).len() ==> (
                                                #[trigger] outls.push(ol)[m]).wf());
                                            lemma_body_wf(toks, k, scens, outls.push(ol));
                                        }
                                    },
                                }
                            }
                        },
                    },
                    _ => {},
                }
            }
        },
    }
}

/// A parsed feature is well-formed: every outline's examples blocks have
/// rows exactly as wide as their placeholder lists.
pub proof fn lemma_parse_feature_wf(text: Seq<char>)
    ensures
        spec_parse_feature(text) matches Ok(f) ==> f.wf(),
{
    crate::lex::lemma_lex_wf(text);
    match spec_lex(text) {
        Err(_) => {},
        Ok(toks) => {
            match spec_scan_language(toks, 0, None) {
                Err(_) => {},
                Ok(language) => {
                    match spec_scan_tags(toks, 0, Seq::<Seq<char>>::empty()) {
                        Err(_) => {},
                        Ok((ftags, i)) => {
                            lemma_scan_tags_pos(toks, 0, Seq::<Seq<char>>::empty());
                            if 0 <= i < toks.len() {
                                match toks[i].kind {
                                    SpecTokenKind::Line(s) => match spec_classify(s, false) {
                                        None => {},
                                        Some((kw, name0, content, had)) => {
                                            if kw == Keyword::Feature {
                                                lemma_freeform_pos(
                                                    toks,
                                                    i + 1,
                                                    None,
                                                    Seq::<char>::empty(),
                                                    false,
                                                );
                                                match spec_freeform(
                                                    toks,
                                                    i + 1,
                                                    None,
                                                    Seq::<char>::empty(),
                                                    false,
                                                ) {
                                                    Err(_) => {},
                                                    Ok((description, j)) => {
                                                        lemma_skip_blanks_bounds(toks, j);
                                                        match spec_background(toks, j) {
                                                            Err(_) => {},
                                                            Ok((background, b)) => {
                                                                if 0 <= b <= toks.len() {
                                                                    lemma_body_wf(
                                                                        toks,
                                                                        b,
                                                                        Seq::<SpecScenario>::empty(),
                                                                        Seq::<SpecOutline>::empty(),
                                                                    );
                                                                }
                                                            },
                                                        }
                                                    },
                                                }
                                            }
                                        },
                                    },
                                    _ => {},
                                }
                            }
                        },
                    }
                },
            }
        },
    }
}

/// `same_columns` is exactly set equality of the column names: neither the
/// order nor the multiplicity of columns plays a part.
pub proof fn lemma_same_columns_is_set_equality(a: Seq<Seq<char>>, b: Seq<Seq<char>>)
    ensures
        same_columns(a, b) <==> a.to_set() == b.to_set(),
{
    broadcast use vstd::set::group_set_axioms;

    if same_columns(a, b) {
        assert(a.to_set() =~= b.to_set());
    }
    if a.to_set() == b.to_set() {
        assert forall|x: Seq<char>| a.contains(x) implies b.contains(x) by {
            assert(a.to_set().contains(x));
        }
        assert forall|x: Seq<char>| b.contains(x) implies a.contains(x) by {
            assert(b.to_set().contains(x));
        }
    }
}

} // verus!
