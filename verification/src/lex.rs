//! The lexer: segments feature source text into line, comment, doc-string
//! and data-table tokens, with source-line spans.

use vstd::prelude::*;
use vstd::string::StrSliceExecFns;
use vstd::string::StringExecFns;

use crate::data_table::{DataTable, SpecTable};
use crate::text::{
    leading_space, spec_indent, spec_lines, spec_split, spec_starts_with, spec_trim, split_char,
    split_lines, starts_with, str_eq, trim,
};

verus! {

/// What can go wrong while lexing.
#[derive(Debug, Clone, Copy, PartialEq, Eq, Structural)]
pub enum ErrorKind {
    /// A doc-string line does not share the opening line's indentation.
    StringInconsistentIndent,
    /// A doc-string was opened but never closed.
    UnclosedDocString,
    /// A table row has a different number of cells than its header.
    InvalidTableRow,
}

/// A lexing error: its kind, the zero-based line it points at, and the full
/// source text.
#[derive(Debug, PartialEq)]
pub struct Error<'a> {
    pub line_num: usize,
    pub kind: ErrorKind,
    pub text: &'a str,
}

/// Mathematical model of [`Error`].
pub ghost struct SpecLexError {
    pub line_num: int,
    pub kind: ErrorKind,
    pub text: Seq<char>,
}

impl<'a> View for Error<'a> {
    type V = SpecLexError;

    open spec fn view(&self) -> SpecLexError {
        SpecLexError { line_num: self.line_num as int, kind: self.kind, text: self.text@ }
    }
}

/// The payload of a token.
#[derive(Debug, PartialEq)]
pub enum TokenKind<'a> {
    /// An ordinary line, trimmed.
    Line(&'a str),
    /// A comment line: everything after the `#`.
    Comment(&'a str),
    /// A doc-string body, indentation removed and surrounding whitespace
    /// trimmed.
    DocString(String),
    /// A pipe-delimited table block.
    DataTable(DataTable),
}

/// Mathematical model of [`TokenKind`].
pub ghost enum SpecTokenKind {
    Line(Seq<char>),
    Comment(Seq<char>),
    DocString(Seq<char>),
    DataTable(SpecTable),
}

impl<'a> View for TokenKind<'a> {
    type V = SpecTokenKind;

    open spec fn view(&self) -> SpecTokenKind {
        match self {
            TokenKind::Line(s) => SpecTokenKind::Line(s@),
            TokenKind::Comment(s) => SpecTokenKind::Comment(s@),
            TokenKind::DocString(s) => SpecTokenKind::DocString(s@),
            TokenKind::DataTable(t) => SpecTokenKind::DataTable(t@),
        }
    }
}

impl<'a> DeepView for TokenKind<'a> {
    type V = SpecTokenKind;

    open spec fn deep_view(&self) -> SpecTokenKind {
        self.view()
    }
}

/// One token with its source-line span (`start_line` inclusive, `end_line`
/// exclusive) and the full source text it was read from.
#[derive(Debug, PartialEq)]
pub struct Token<'a> {
    kind: TokenKind<'a>,
    start_line: usize,
    end_line: usize,
    text: &'a str,
}

/// Mathematical model of [`Token`].
pub ghost struct SpecToken {
    pub kind: SpecTokenKind,
    pub start_line: int,
    pub end_line: int,
    pub text: Seq<char>,
}

impl<'a> View for Token<'a> {
    type V = SpecToken;

    closed spec fn view(&self) -> SpecToken {
        SpecToken {
            kind: self.kind@,
            start_line: self.start_line as int,
            end_line: self.end_line as int,
            text: self.text@,
        }
    }
}

impl<'a> DeepView for Token<'a> {
    type V = SpecToken;

    open spec fn deep_view(&self) -> SpecToken {
        self.view()
    }
}

/// The concatenation of the lines `ls[i..j]`.
pub open spec fn spec_concat_range(ls: Seq<Seq<char>>, i: int, j: int) -> Seq<char>
    decreases j - i,
{
    if i < j && 0 <= i && j <= ls.len() {
        ls[i] + spec_concat_range(ls, i + 1, j)
    } else {
        Seq::<char>::empty()
    }
}

/// The source lines a token spans, clamped to the text's line count.
pub open spec fn spec_extract(t: SpecToken) -> Seq<char> {
    let ls = spec_lines(t.text);
    let a = if t.start_line < ls.len() {
        t.start_line
    } else {
        ls.len() as int
    };
    let b = if t.end_line < ls.len() {
        t.end_line
    } else {
        ls.len() as int
    };
    spec_concat_range(ls, a, b)
}

impl<'a> Token<'a> {
    /// The token's payload.
    pub fn kind(&self) -> (r: &TokenKind<'a>)
        ensures
            r@ == self@.kind,
    {
        &self.kind
    }

    /// The zero-based line the token starts on.
    pub fn start_line(&self) -> (r: usize)
        ensures
            r == self@.start_line,
    {
        self.start_line
    }

    /// The zero-based line after the token's last line.
    pub fn end_line(&self) -> (r: usize)
        ensures
            r == self@.end_line,
    {
        self.end_line
    }

    /// The full source text the token was read from.
    pub fn text(&self) -> (r: &'a str)
        ensures
            r@ == self@.text,
    {
        self.text
    }

    /// The source lines the token spans, concatenated.
    pub fn extract(&self) -> (r: String)
        ensures
            r@ == spec_extract(self@),
    {
        let lines = split_lines(self.text);
        let ghost ls = lines.deep_view();
        let n = lines.len();
        let a = if self.start_line < n {
            self.start_line
        } else {
            n
        };
        let b = if self.end_line < n {
            self.end_line
        } else {
            n
        };
        let mut out = String::new();
        let mut k = a;
        if b <= k {
            proof {
                assert(out@ =~= spec_extract(self@));
            }
            return out;
        }
        while k < b
            invariant
                a <= k <= b <= n,
                n == lines@.len(),
                ls == lines.deep_view(),
                spec_concat_range(ls, a as int, b as int) == out@ + spec_concat_range(
                    ls,
                    k as int,
                    b as int,
                ),
            decreases b - k,
        {
            let ghost pre = out@;
            out.append(lines[k]);
            proof {
                assert(lines@[k as int]@ == ls[k as int]);
                assert(pre + (ls[k as int] + spec_concat_range(ls, k as int + 1, b as int)) =~= out@
                    + spec_concat_range(ls, k as int + 1, b as int));
            }
            k += 1;
        }
        out
    }
}

/// One table row's cells: the trimmed segments strictly between the first
/// and the last pipe of the line.
pub open spec fn spec_row_cells(line: Seq<char>) -> Seq<Seq<char>> {
    let segs = spec_split(line, '|');
    if segs.len() >= 2 {
        segs.subrange(1, segs.len() - 1).map_values(|c: Seq<char>| spec_trim(c))
    } else {
        Seq::<Seq<char>>::empty()
    }
}

/// Scans a doc-string body from line `j` until a line that trims to `"""`.
/// A line sharing the opening indent contributes itself minus the indent; a
/// blank line contributes a bare newline; any other line is an indentation
/// error. Running out of input reports the opening line.
pub open spec fn spec_docstring_from(
    lines: Seq<Seq<char>>,
    j: int,
    ind: Seq<char>,
    open_line: int,
    acc: Seq<char>,
) -> Result<(Seq<char>, int), (ErrorKind, int)>
    decreases lines.len() - j,
{
    if j < 0 || j >= lines.len() {
        Err((ErrorKind::UnclosedDocString, open_line))
    } else if spec_trim(lines[j]) == "\"\"\""@ {
        Ok((spec_trim(acc), j + 1))
    } else if spec_starts_with(lines[j], ind) {
        spec_docstring_from(
            lines,
            j + 1,
            ind,
            open_line,
            acc + lines[j].skip(ind.len() as int) + "\n"@,
        )
    } else if spec_trim(lines[j]).len() == 0 {
        spec_docstring_from(lines, j + 1, ind, open_line, acc + "\n"@)
    } else {
        Err((ErrorKind::StringInconsistentIndent, j))
    }
}

proof fn lemma_docstring_from_pos(
    lines: Seq<Seq<char>>,
    j: int,
    ind: Seq<char>,
    open_line: int,
    acc: Seq<char>,
)
    ensures
        spec_docstring_from(lines, j, ind, open_line, acc) matches Ok((c, n)) ==> j < n
            <= lines.len(),
    decreases lines.len() - j,
{
    if j < 0 || j >= lines.len() {
    } else if spec_trim(lines[j]) == "\"\"\""@ {
    } else if spec_starts_with(lines[j], ind) {
        lemma_docstring_from_pos(
            lines,
            j + 1,
            ind,
            open_line,
            acc + lines[j].skip(ind.len() as int) + "\n"@,
        );
    } else if spec_trim(lines[j]).len() == 0 {
        lemma_docstring_from_pos(lines, j + 1, ind, open_line, acc + "\n"@);
    } else {
    }
}

/// Scans table rows from line `j` while lines keep trimming to a leading
/// pipe; a row whose cell count differs from `width` is an error.
pub open spec fn spec_table_from(
    lines: Seq<Seq<char>>,
    j: int,
    width: int,
    acc: Seq<Seq<Seq<char>>>,
) -> Result<(Seq<Seq<Seq<char>>>, int), (ErrorKind, int)>
    decreases lines.len() - j,
{
    if j < 0 || j >= lines.len() || spec_trim(lines[j]).len() == 0 || spec_trim(lines[j])[0]
        != '|' {
        Ok((acc, j))
    } else if spec_row_cells(lines[j]).len() == width {
        spec_table_from(lines, j + 1, width, acc.push(spec_row_cells(lines[j])))
    } else {
        Err((ErrorKind::InvalidTableRow, j))
    }
}

proof fn lemma_table_from_pos(lines: Seq<Seq<char>>, j: int, width: int, acc: Seq<Seq<Seq<char>>>)
    requires
        0 <= j <= lines.len(),
    ensures
        spec_table_from(lines, j, width, acc) matches Ok((rs, n)) ==> j <= n <= lines.len(),
    decreases lines.len() - j,
{
    if j >= lines.len() || spec_trim(lines[j]).len() == 0 || spec_trim(lines[j])[0] != '|' {
    } else if spec_row_cells(lines[j]).len() == width {
        lemma_table_from_pos(lines, j + 1, width, acc.push(spec_row_cells(lines[j])));
    } else {
    }
}

/// The token stream from line `i` on. Doc-string blocks come first, then
/// table blocks, then single-line comment or plain-line tokens.
pub open spec fn spec_lex_from(
    lines: Seq<Seq<char>>,
    i: int,
    text: Seq<char>,
    acc: Seq<SpecToken>,
) -> Result<Seq<SpecToken>, SpecLexError>
    decreases lines.len() - i,
    via spec_lex_from_dec
{
    if i < 0 || i >= lines.len() {
        Ok(acc)
    } else {
        let t = spec_trim(lines[i]);
        if spec_starts_with(t, "\"\"\""@) {
            match spec_docstring_from(lines, i + 1, spec_indent(lines[i]), i, Seq::<char>::empty()) {
                Ok((content, next)) => spec_lex_from(
                    lines,
                    next,
                    text,
                    acc.push(
                        SpecToken {
                            kind: SpecTokenKind::DocString(content),
                            start_line: i,
                            end_line: next,
                            text,
                        },
                    ),
                ),
                Err((kind, line)) => Err(SpecLexError { line_num: line, kind, text }),
            }
        } else if t.len() > 0 && t[0] == '|' {
            let header = spec_row_cells(lines[i]);
            match spec_table_from(lines, i + 1, header.len() as int, Seq::<Seq<Seq<char>>>::empty()) {
                Ok((rows, next)) => spec_lex_from(
                    lines,
                    next,
                    text,
                    acc.push(
                        SpecToken {
                            kind: SpecTokenKind::DataTable(SpecTable { header, rows }),
                            start_line: i,
                            end_line: next,
                            text,
                        },
                    ),
                ),
                Err((kind, line)) => Err(SpecLexError { line_num: line, kind, text }),
            }
        } else if t.len() > 0 && t[0] == '#' {
            spec_lex_from(
                lines,
                i + 1,
                text,
                acc.push(
                    SpecToken {
                        kind: SpecTokenKind::Comment(t.drop_first()),
                        start_line: i,
                        end_line: i + 1,
                        text,
                    },
                ),
            )
        } else {
            spec_lex_from(
                lines,
                i + 1,
                text,
                acc.push(
                    SpecToken { kind: SpecTokenKind::Line(t), start_line: i, end_line: i + 1, text },
                ),
            )
        }
    }
}

#[via_fn]
proof fn spec_lex_from_dec(lines: Seq<Seq<char>>, i: int, text: Seq<char>, acc: Seq<SpecToken>) {
    if 0 <= i < lines.len() {
        lemma_docstring_from_pos(lines, i + 1, spec_indent(lines[i]), i, Seq::<char>::empty());
        lemma_table_from_pos(
            lines,
            i + 1,
            spec_row_cells(lines[i]).len() as int,
            Seq::<Seq<Seq<char>>>::empty(),
        );
    }
}

/// The token stream of a whole text.
pub open spec fn spec_lex(text: Seq<char>) -> Result<Seq<SpecToken>, SpecLexError> {
    spec_lex_from(spec_lines(text), 0, text, Seq::<SpecToken>::empty())
}

/// One table row's cells, as owned strings.
fn row_cells(line: &str) -> (r: Vec<String>)
    ensures
        r.deep_view() == spec_row_cells(line@),
{
    let segs = split_char(line, '|');
    let ghost sgs = segs.deep_view();
    let mut out: Vec<String> = Vec::new();
    if segs.len() < 2 {
        proof {
            assert(out.deep_view() =~= spec_row_cells(line@));
        }
        return out;
    }
    let mut k: usize = 1;
    while k < segs.len() - 1
        invariant
            1 <= k <= segs@.len() - 1,
            segs@.len() >= 2,
            sgs == segs.deep_view(),
            sgs == spec_split(line@, '|'),
            out@.len() == k - 1,
            out.deep_view() == spec_row_cells(line@).subrange(0, k - 1),
        decreases segs@.len() - k,
    {
        let cell = trim(segs[k]);
        let x = cell.to_owned();
        let ghost prev = out@;
        let ghost pre = out.deep_view();
        out.push(x);
        proof {
            assert(segs@[k as int]@ == sgs[k as int]);
            assert forall|j: int|
                0 <= j < out@.len() implies out.deep_view()[j] == spec_row_cells(line@)[j] by {
                assert(out.deep_view()[j] == out@[j].deep_view());
                if j < k - 1 {
                    assert(out@[j] == prev[j]);
                    assert(pre[j] == prev[j].deep_view());
                    assert(pre[j] == spec_row_cells(line@).subrange(0, (k - 1) as int)[j]);
                } else {
                    assert(out@[j] == x);
                    assert(spec_row_cells(line@)[j] == spec_trim(
                        sgs.subrange(1, sgs.len() - 1)[j],
                    ));
                    assert(sgs.subrange(1, sgs.len() - 1)[j] == sgs[k as int]);
                }
            }
            assert(out.deep_view() =~= spec_row_cells(line@).subrange(0, k as int));
        }
        k += 1;
    }
    proof {
        assert(spec_row_cells(line@).len() == sgs.len() - 2);
        assert(spec_row_cells(line@).subrange(0, (segs@.len() - 2) as int) =~= spec_row_cells(
            line@,
        ));
    }
    out
}

/// Scans the body of a doc-string opened at line `open_i`.
fn lex_docstring<'a>(lines: &Vec<&'a str>, open_i: usize) -> (r: Result<
    (String, usize),
    (ErrorKind, usize),
>)
    requires
        open_i < lines@.len(),
    ensures
        r matches Ok((c, n)) ==> spec_docstring_from(
            lines.deep_view(),
            open_i + 1,
            spec_indent(lines.deep_view()[open_i as int]),
            open_i as int,
            Seq::<char>::empty(),
        ) == Ok::<_, (ErrorKind, int)>((c@, n as int)) && open_i < n <= lines@.len(),
        r matches Err((k, l)) ==> spec_docstring_from(
            lines.deep_view(),
            open_i + 1,
            spec_indent(lines.deep_view()[open_i as int]),
            open_i as int,
            Seq::<char>::empty(),
        ) == Err::<(Seq<char>, int), _>((k, l as int)),
{
    let ghost dl = lines.deep_view();
    let ln = lines.len();
    let ind = leading_space(lines[open_i]);
    let ind_len = ind.unicode_len();
    let mut content = String::new();
    let mut j: usize = open_i + 1;
    proof {
        assert(lines@[open_i as int]@ == dl[open_i as int]);
        assert(content@ =~= Seq::<char>::empty());
    }
    loop
        invariant
            open_i < j <= lines@.len(),
            dl == lines.deep_view(),
            ind@ == spec_indent(dl[open_i as int]),
            ind_len == ind@.len(),
            spec_docstring_from(dl, open_i + 1, ind@, open_i as int, Seq::<char>::empty())
                == spec_docstring_from(dl, j as int, ind@, open_i as int, content@),
        decreases lines@.len() - j,
    {
        if j >= lines.len() {
            return Err((ErrorKind::UnclosedDocString, open_i));
        }
        let line = lines[j];
        proof {
            assert(line@ == dl[j as int]);
        }
        let t = trim(line);
        if str_eq(t, "\"\"\"") {
            let c = trim(content.as_str());
            return Ok((c.to_owned(), j + 1));
        }
        if starts_with(line, ind) {
            let ll = line.unicode_len();
            let piece = line.substring_char(ind_len, ll);
            let ghost pre = content@;
            content.append(piece);
            content.append("\n");
            proof {
                assert(piece@ =~= dl[j as int].skip(ind_len as int));
                assert(content@ =~= pre + dl[j as int].skip(ind@.len() as int) + "\n"@);
            }
            j += 1;
        } else if t.unicode_len() == 0 {
            let ghost pre = content@;
            content.append("\n");
            proof {
                assert(content@ =~= pre + "\n"@);
            }
            j += 1;
        } else {
            return Err((ErrorKind::StringInconsistentIndent, j));
        }
    }
}

/// Scans a table block opened at line `i`: the header row, then every
/// following row line.
fn lex_table<'a>(lines: &Vec<&'a str>, i: usize) -> (r: Result<
    (DataTable, usize),
    (ErrorKind, usize),
>)
    requires
        i < lines@.len(),
    ensures
        r matches Ok((table, n)) ==> table@.header == spec_row_cells(
            lines.deep_view()[i as int],
        ) && spec_table_from(
            lines.deep_view(),
            i + 1,
            spec_row_cells(lines.deep_view()[i as int]).len() as int,
            Seq::<Seq<Seq<char>>>::empty(),
        ) == Ok::<_, (ErrorKind, int)>((table@.rows, n as int)) && i < n <= lines@.len(),
        r matches Err((k, l)) ==> spec_table_from(
            lines.deep_view(),
            i + 1,
            spec_row_cells(lines.deep_view()[i as int]).len() as int,
            Seq::<Seq<Seq<char>>>::empty(),
        ) == Err::<(Seq<Seq<Seq<char>>>, int), _>((k, l as int)),
{
    let ghost dl = lines.deep_view();
    let ln = lines.len();
    proof {
        assert(lines@[i as int]@ == dl[i as int]);
    }
    let header = row_cells(lines[i]);
    let width = header.len();
    let ghost w = spec_row_cells(dl[i as int]).len() as int;
    let mut table = DataTable::new(header);
    let mut j: usize = i + 1;
    proof {
        assert(table@.rows =~= Seq::<Seq<Seq<char>>>::empty());
    }
    loop
        invariant
            i < j <= lines@.len(),
            dl == lines.deep_view(),
            table@.header == spec_row_cells(dl[i as int]),
            table@.header.len() == w,
            spec_table_from(dl, i + 1, w, Seq::<Seq<Seq<char>>>::empty()) == spec_table_from(
                dl,
                j as int,
                w,
                table@.rows,
            ),
        decreases lines@.len() - j,
    {
        if j >= lines.len() {
            return Ok((table, j));
        }
        let line = lines[j];
        proof {
            assert(line@ == dl[j as int]);
        }
        let t = trim(line);
        let tl = t.unicode_len();
        if tl == 0 || t.get_char(0) != '|' {
            return Ok((table, j));
        }
        let row = row_cells(line);
        let ghost rows_pre = table@.rows;
        proof {
            assert(row@.len() == row.deep_view().len());
        }
        match table.add_row(row) {
            Ok(()) => {
                proof {
                    assert(table@.rows =~= rows_pre.push(spec_row_cells(dl[j as int])));
                }
                j += 1;
            },
            Err(()) => {
                return Err((ErrorKind::InvalidTableRow, j));
            },
        }
    }
}

/// Lexes a feature source into its token stream: doc-string blocks, table
/// blocks, comment lines and plain lines, in source order with line spans.
/// Fails exactly where the mathematical description does, with the same
/// error kind and line.
pub fn lex<'a>(input: &'a str) -> (r: Result<Vec<Token<'a>>, Error<'a>>)
    ensures
        r matches Ok(toks) ==> spec_lex(input@) == Ok::<_, SpecLexError>(toks.deep_view()),
        r matches Err(e) ==> spec_lex(input@) == Err::<Seq<SpecToken>, _>(e@),
{
    let lines = split_lines(input);
    let ghost dl = lines.deep_view();
    let mut tokens: Vec<Token<'a>> = Vec::new();
    let mut i: usize = 0;
    proof {
        assert(tokens.deep_view() =~= Seq::<SpecToken>::empty());
    }
    while i < lines.len()
        invariant
            i <= lines@.len(),
            dl == lines.deep_view(),
            dl == spec_lines(input@),
            tokens@.len() == tokens.deep_view().len(),
            spec_lex_from(dl, 0, input@, Seq::<SpecToken>::empty()) == spec_lex_from(
                dl,
                i as int,
                input@,
                tokens.deep_view(),
            ),
        decreases lines@.len() - i,
    {
        let line = lines[i];
        proof {
            assert(line@ == dl[i as int]);
        }
        let t = trim(line);
        let tl = t.unicode_len();
        if starts_with(t, "\"\"\"") {
            match lex_docstring(&lines, i) {
                Ok((content, next)) => {
                    let tok = Token {
                        kind: TokenKind::DocString(content),
                        start_line: i,
                        end_line: next,
                        text: input,
                    };
                    let ghost pre = tokens.deep_view();
                    let ghost prev = tokens@;
                    tokens.push(tok);
                    proof {
                        assert forall|j: int|
                            0 <= j < tokens@.len() implies tokens.deep_view()[j] == pre.push(
                            tok@,
                        )[j] by {
                            assert(tokens.deep_view()[j] == tokens@[j].deep_view());
                            if j < prev.len() {
                                assert(tokens@[j] == prev[j]);
                            } else {
                                assert(tokens@[j] == tok);
                            }
                        }
                        assert(tokens.deep_view() =~= pre.push(tok@));
                    }
                    i = next;
                },
                Err((kind, l)) => {
                    return Err(Error { line_num: l, kind, text: input });
                },
            }
        } else if tl > 0 && t.get_char(0) == '|' {
            match lex_table(&lines, i) {
                Ok((table, next)) => {
                    let tok = Token {
                        kind: TokenKind::DataTable(table),
                        start_line: i,
                        end_line: next,
                        text: input,
                    };
                    let ghost pre = tokens.deep_view();
                    let ghost prev = tokens@;
                    tokens.push(tok);
                    proof {
                        assert forall|j: int|
                            0 <= j < tokens@.len() implies tokens.deep_view()[j] == pre.push(
                            tok@,
                        )[j] by {
                            assert(tokens.deep_view()[j] == tokens@[j].deep_view());
                            if j < prev.len() {
                                assert(tokens@[j] == prev[j]);
                            } else {
                                assert(tokens@[j] == tok);
                            }
                        }
                        assert(tokens.deep_view() =~= pre.push(tok@));
                    }
                    i = next;
                },
                Err((kind, l)) => {
                    return Err(Error { line_num: l, kind, text: input });
                },
            }
        } else if tl > 0 && t.get_char(0) == '#' {
            let c = t.substring_char(1, tl);
            proof {
                assert(c@ =~= spec_trim(dl[i as int]).drop_first());
            }
            let tok = Token {
                kind: TokenKind::Comment(c),
                start_line: i,
                end_line: i + 1,
                text: input,
            };
            let ghost pre = tokens.deep_view();
            let ghost prev = tokens@;
            tokens.push(tok);
            proof {
                assert forall|j: int|
                    0 <= j < tokens@.len() implies tokens.deep_view()[j] == pre.push(tok@)[j] by {
                    assert(tokens.deep_view()[j] == tokens@[j].deep_view());
                    if j < prev.len() {
                        assert(tokens@[j] == prev[j]);
                    } else {
                        assert(tokens@[j] == tok);
                    }
                }
                assert(tokens.deep_view() =~= pre.push(tok@));
            }
            i += 1;
        } else {
            let tok = Token { kind: TokenKind::Line(t), start_line: i, end_line: i + 1, text: input };
            let ghost pre = tokens.deep_view();
            let ghost prev = tokens@;
            tokens.push(tok);
            proof {
                assert forall|j: int|
                    0 <= j < tokens@.len() implies tokens.deep_view()[j] == pre.push(tok@)[j] by {
                    assert(tokens.deep_view()[j] == tokens@[j].deep_view());
                    if j < prev.len() {
                        assert(tokens@[j] == prev[j]);
                    } else {
                        assert(tokens@[j] == tok);
                    }
                }
                assert(tokens.deep_view() =~= pre.push(tok@));
            }
            i += 1;
        }
    }
    Ok(tokens)
}

/// Every data-table token in a stream holds a well-formed table.
pub open spec fn tokens_tables_wf(toks: Seq<SpecToken>) -> bool {
    forall|i: int|
        0 <= i < toks.len() ==> match (#[trigger] toks[i]).kind {
            SpecTokenKind::DataTable(tb) => tb.wf(),
            _ => true,
        }
}

proof fn lemma_table_from_wf(lines: Seq<Seq<char>>, j: int, width: int, acc: Seq<Seq<Seq<char>>>)
    requires
        forall|m: int| 0 <= m < acc.len() ==> (#[trigger] acc[m]).len() == width,
    ensures
        spec_table_from(lines, j, width, acc) matches Ok((rows, n)) ==> (forall|m: int|
            0 <= m < rows.len() ==> (#[trigger] rows[m]).len() == width),
    decreases lines.len() - j,
{
    if j < 0 || j >= lines.len() || spec_trim(lines[j]).len() == 0 || spec_trim(lines[j])[0]
        != '|' {
    } else if spec_row_cells(lines[j]).len() == width {
        lemma_table_from_wf(lines, j + 1, width, acc.push(spec_row_cells(lines[j])));
    }
}

/// The lexer only ever produces well-formed tables: every row of a table
/// token is as wide as its header.
pub proof fn lemma_lex_from_wf(lines: Seq<Seq<char>>, i: int, text: Seq<char>, acc: Seq<SpecToken>)
    requires
        tokens_tables_wf(acc),
    ensures
        spec_lex_from(lines, i, text, acc) matches Ok(toks) ==> tokens_tables_wf(toks),
    decreases lines.len() - i,
{
    if i < 0 || i >= lines.len() {
    } else {
        let t = spec_trim(lines[i]);
        if spec_starts_with(t, "\"\"\""@) {
            lemma_docstring_from_pos(lines, i + 1, spec_indent(lines[i]), i, Seq::<char>::empty());
            match spec_docstring_from(lines, i + 1, spec_indent(lines[i]), i, Seq::<char>::empty()) {
                Ok((content, next)) => {
                    let tok = SpecToken {
                        kind: SpecTokenKind::DocString(content),
                        start_line: i,
                        end_line: next,
                        text,
                    };
                    assert(tokens_tables_wf(acc.push(tok)));
                    lemma_lex_from_wf(lines, next, text, acc.push(tok));
                },
                Err(_) => {},
            }
        } else if t.len() > 0 && t[0] == '|' {
            let header = spec_row_cells(lines[i]);
            lemma_table_from_pos(lines, i + 1, header.len() as int, Seq::<Seq<Seq<char>>>::empty());
            match spec_table_from(lines, i + 1, header.len() as int, Seq::<Seq<Seq<char>>>::empty()) {
                Ok((rows, next)) => {
                    lemma_table_from_wf(
                        lines,
                        i + 1,
                        header.len() as int,
                        Seq::<Seq<Seq<char>>>::empty(),
                    );
                    let tok = SpecToken {
                        kind: SpecTokenKind::DataTable(SpecTable { header, rows }),
                        start_line: i,
                        end_line: next,
                        text,
                    };
                    assert(SpecTable { header, rows }.wf());
                    assert(tokens_tables_wf(acc.push(tok)));
                    lemma_lex_from_wf(lines, next, text, acc.push(tok));
                },
                Err(_) => {},
            }
        } else if t.len() > 0 && t[0] == '#' {
            let tok = SpecToken {
                kind: SpecTokenKind::Comment(t.drop_first()),
                start_line: i,
                end_line: i + 1,
                text,
            };
            assert(tokens_tables_wf(acc.push(tok)));
            lemma_lex_from_wf(lines, i + 1, text, acc.push(tok));
        } else {
            let tok = SpecToken {
                kind: SpecTokenKind::Line(t),
                start_line: i,
                end_line: i + 1,
                text,
            };
            assert(tokens_tables_wf(acc.push(tok)));
            lemma_lex_from_wf(lines, i + 1, text, acc.push(tok));
        }
    }
}

/// Every table in a lexed token stream is well-formed.
pub proof fn lemma_lex_wf(text: Seq<char>)
    ensures
        spec_lex(text) matches Ok(toks) ==> tokens_tables_wf(toks),
{
    assert(tokens_tables_wf(Seq::<SpecToken>::empty()));
    lemma_lex_from_wf(spec_lines(text), 0, text, Seq::<SpecToken>::empty());
}

proof fn lemma_docstring_unclosed_line(
    lines: Seq<Seq<char>>,
    j: int,
    ind: Seq<char>,
    open_line: int,
    acc: Seq<char>,
)
    ensures
        spec_docstring_from(lines, j, ind, open_line, acc) matches Err((k, l)) ==> (k
            == ErrorKind::UnclosedDocString ==> l == open_line) && (k
            != ErrorKind::UnclosedDocString ==> k == ErrorKind::StringInconsistentIndent),
    decreases lines.len() - j,
{
    if j < 0 || j >= lines.len() {
    } else if spec_trim(lines[j]) == "\"\"\""@ {
    } else if spec_starts_with(lines[j], ind) {
        lemma_docstring_unclosed_line(
            lines,
            j + 1,
            ind,
            open_line,
            acc + lines[j].skip(ind.len() as int) + "\n"@,
        );
    } else if spec_trim(lines[j]).len() == 0 {
        lemma_docstring_unclosed_line(lines, j + 1, ind, open_line, acc + "\n"@);
    }
}

proof fn lemma_docstring_never_closed(
    lines: Seq<Seq<char>>,
    j: int,
    ind: Seq<char>,
    open_line: int,
    acc: Seq<char>,
)
    requires
        0 <= j <= lines.len(),
        forall|k: int|
            j <= k < lines.len() ==> spec_trim(#[trigger] lines[k]) != "\"\"\""@ && (
            spec_starts_with(lines[k], ind) || spec_trim(lines[k]).len() == 0),
    ensures
        spec_docstring_from(lines, j, ind, open_line, acc) == Err::<(Seq<char>, int), _>(
            (ErrorKind::UnclosedDocString, open_line),
        ),
    decreases lines.len() - j,
{
    if j < lines.len() {
        if spec_starts_with(lines[j], ind) {
            lemma_docstring_never_closed(
                lines,
                j + 1,
                ind,
                open_line,
                acc + lines[j].skip(ind.len() as int) + "\n"@,
            );
        } else {
            lemma_docstring_never_closed(lines, j + 1, ind, open_line, acc + "\n"@);
        }
    }
}

/// An unclosed doc-string reports the line of its opening delimiter: every
/// `UnclosedDocString` error of the lexer points at a line whose trimmed
/// content opens a doc-string, and a block that is opened, kept consistent,
/// and never closed before the end of the input fails with exactly that
/// error at exactly that line.
pub proof fn lemma_unclosed_docstring_reports_opening(
    lines: Seq<Seq<char>>,
    i: int,
    text: Seq<char>,
    acc: Seq<SpecToken>,
)
    ensures
        spec_lex_from(lines, i, text, acc) matches Err(e) ==> (e.kind
            == ErrorKind::UnclosedDocString ==> 0 <= e.line_num < lines.len() && spec_starts_with(
            spec_trim(lines[e.line_num]),
            "\"\"\""@,
        )),
        (0 <= i < lines.len() && spec_starts_with(spec_trim(lines[i]), "\"\"\""@) && (forall|k: int|
            i < k < lines.len() ==> spec_trim(#[trigger] lines[k]) != "\"\"\""@ && (
            spec_starts_with(lines[k], spec_indent(lines[i])) || spec_trim(lines[k]).len() == 0)))
            ==> spec_lex_from(lines, i, text, acc) == Err::<Seq<SpecToken>, _>(
            SpecLexError { line_num: i, kind: ErrorKind::UnclosedDocString, text },
        ),
    decreases lines.len() - i,
{
    if 0 <= i < lines.len() {
        let t = spec_trim(lines[i]);
        if spec_starts_with(t, "\"\"\""@) {
            let ind = spec_indent(lines[i]);
            lemma_docstring_unclosed_line(lines, i + 1, ind, i, Seq::<char>::empty());
            lemma_docstring_from_pos(lines, i + 1, ind, i, Seq::<char>::empty());
            if forall|k: int|
                i < k < lines.len() ==> spec_trim(#[trigger] lines[k]) != "\"\"\""@ && (
                spec_starts_with(lines[k], ind) || spec_trim(lines[k]).len() == 0) {
                lemma_docstring_never_closed(lines, i + 1, ind, i, Seq::<char>::empty());
            }
            match spec_docstring_from(lines, i + 1, ind, i, Seq::<char>::empty()) {
                Ok((content, next)) => {
                    lemma_unclosed_docstring_reports_opening(
                        lines,
                        next,
                        text,
                        acc.push(
                            SpecToken {
                                kind: SpecTokenKind::DocString(content),
                                start_line: i,
                                end_line: next,
                                text,
                            },
                        ),
                    );
                },
                Err((kind, line)) => {},
            }
        } else if t.len() > 0 && t[0] == '|' {
            let header = spec_row_cells(lines[i]);
            lemma_table_from_pos(lines, i + 1, header.len() as int, Seq::<Seq<Seq<char>>>::empty());
            lemma_table_unclosed_kind(
                lines,
                i + 1,
                header.len() as int,
                Seq::<Seq<Seq<char>>>::empty(),
            );
            match spec_table_from(lines, i + 1, header.len() as int, Seq::<Seq<Seq<char>>>::empty()) {
                Ok((rows, next)) => {
                    lemma_unclosed_docstring_reports_opening(
                        lines,
                        next,
                        text,
                        acc.push(
                            SpecToken {
                                kind: SpecTokenKind::DataTable(SpecTable { header, rows }),
                                start_line: i,
                                end_line: next,
                                text,
                            },
                        ),
                    );
                },
                Err((kind, line)) => {},
            }
        } else if t.len() > 0 && t[0] == '#' {
            lemma_unclosed_docstring_reports_opening(
                lines,
                i + 1,
                text,
                acc.push(
                    SpecToken {
                        kind: SpecTokenKind::Comment(t.drop_first()),
                        start_line: i,
                        end_line: i + 1,
                        text,
                    },
                ),
            );
        } else {
            lemma_unclosed_docstring_reports_opening(
                lines,
                i + 1,
                text,
                acc.push(
                    SpecToken { kind: SpecTokenKind::Line(t), start_line: i, end_line: i + 1, text },
                ),
            );
        }
    }
}

proof fn lemma_table_unclosed_kind(lines: Seq<Seq<char>>, j: int, width: int, acc: Seq<Seq<Seq<char>>>)
    ensures
        spec_table_from(lines, j, width, acc) matches Err((k, l)) ==> k
            == ErrorKind::InvalidTableRow,
    decreases lines.len() - j,
{
    if j < 0 || j >= lines.len() || spec_trim(lines[j]).len() == 0 || spec_trim(lines[j])[0]
        != '|' {
    } else if spec_row_cells(lines[j]).len() == width {
        lemma_table_unclosed_kind(lines, j + 1, width, acc.push(spec_row_cells(lines[j])));
    }
}

} // verus!
