//! Verified character and string utilities shared by the lexer, the line
//! classifier and the parser.
//!
//! All specifications are stated over `Seq<char>`, the view of `&str` and
//! `String`.

use vstd::prelude::*;
use vstd::string::StrSliceExecFns;
use vstd::string::StringExecFns;

verus! {

/// The whitespace characters this crate recognises when trimming text.
pub open spec fn is_space(c: char) -> bool {
    c == ' ' || c == '\t' || c == '\r' || c == '\n'
}

/// Executable counterpart of [`is_space`].
pub fn is_space_exec(c: char) -> (r: bool)
    ensures
        r == is_space(c),
{
    c == ' ' || c == '\t' || c == '\r' || c == '\n'
}

/// `s` without its leading whitespace.
pub open spec fn spec_trim_start(s: Seq<char>) -> Seq<char>
    decreases s.len(),
{
    if s.len() > 0 && is_space(s[0]) {
        spec_trim_start(s.drop_first())
    } else {
        s
    }
}

/// `s` without its trailing whitespace.
pub open spec fn spec_trim_end(s: Seq<char>) -> Seq<char>
    decreases s.len(),
{
    if s.len() > 0 && is_space(s.last()) {
        spec_trim_end(s.drop_last())
    } else {
        s
    }
}

/// `s` without leading or trailing whitespace.
pub open spec fn spec_trim(s: Seq<char>) -> Seq<char> {
    spec_trim_end(spec_trim_start(s))
}

proof fn lemma_trim_start_at(s: Seq<char>, lo: int)
    requires
        0 <= lo <= s.len(),
        forall|j: int| 0 <= j < lo ==> is_space(s[j]),
        lo < s.len() ==> !is_space(s[lo]),
    ensures
        spec_trim_start(s) == s.subrange(lo, s.len() as int),
    decreases lo,
{
    if lo == 0 {
        assert(s.subrange(0, s.len() as int) =~= s);
    } else {
        let t = s.drop_first();
        lemma_trim_start_at(t, lo - 1);
        assert(t.subrange(lo - 1, t.len() as int) =~= s.subrange(lo, s.len() as int));
    }
}

proof fn lemma_trim_end_at(s: Seq<char>, hi: int)
    requires
        0 <= hi <= s.len(),
        forall|j: int| hi <= j < s.len() ==> is_space(s[j]),
        hi > 0 ==> !is_space(s[hi - 1]),
    ensures
        spec_trim_end(s) == s.subrange(0, hi),
    decreases s.len(),
{
    if hi == s.len() {
        assert(s.subrange(0, hi) =~= s);
    } else {
        let t = s.drop_last();
        lemma_trim_end_at(t, hi);
        assert(t.subrange(0, hi) =~= s.subrange(0, hi));
    }
}

/// Returns `s` without leading or trailing whitespace.
pub fn trim(s: &str) -> (r: &str)
    ensures
        r@ == spec_trim(s@),
{
    let n = s.unicode_len();
    let mut lo: usize = 0;
    while lo < n && is_space_exec(s.get_char(lo))
        invariant
            lo <= n,
            n == s@.len(),
            forall|j: int| 0 <= j < lo ==> is_space(s@[j]),
        decreases n - lo,
    {
        lo += 1;
    }
    let mut hi: usize = n;
    while hi > lo && is_space_exec(s.get_char(hi - 1))
        invariant
            lo <= hi <= n,
            n == s@.len(),
            forall|j: int| hi <= j < n ==> is_space(s@[j]),
        decreases hi,
    {
        hi -= 1;
    }
    proof {
        lemma_trim_start_at(s@, lo as int);
        let t = s@.subrange(lo as int, n as int);
        lemma_trim_end_at(t, hi - lo);
        assert(t.subrange(0, (hi - lo) as int) =~= s@.subrange(lo as int, hi as int));
    }
    s.substring_char(lo, hi)
}

/// The leading whitespace of `s`: what trimming its start removes.
pub open spec fn spec_indent(s: Seq<char>) -> Seq<char> {
    s.take(s.len() - spec_trim_start(s).len())
}

/// Returns the leading whitespace of `s`.
pub fn leading_space(s: &str) -> (r: &str)
    ensures
        r@ == spec_indent(s@),
        r@.len() <= s@.len(),
{
    let n = s.unicode_len();
    let mut lo: usize = 0;
    while lo < n && is_space_exec(s.get_char(lo))
        invariant
            lo <= n,
            n == s@.len(),
            forall|j: int| 0 <= j < lo ==> is_space(s@[j]),
        decreases n - lo,
    {
        lo += 1;
    }
    proof {
        lemma_trim_start_at(s@, lo as int);
        assert(s@.take(lo as int) =~= s@.subrange(0, lo as int));
    }
    s.substring_char(0, lo)
}

/// Whether `p` is a prefix of `s`.
pub open spec fn spec_starts_with(s: Seq<char>, p: Seq<char>) -> bool {
    s.len() >= p.len() && s.subrange(0, p.len() as int) == p
}

/// Executable counterpart of [`spec_starts_with`].
pub fn starts_with(s: &str, p: &str) -> (r: bool)
    ensures
        r == spec_starts_with(s@, p@),
{
    let sn = s.unicode_len();
    let pn = p.unicode_len();
    if sn < pn {
        return false;
    }
    let mut i: usize = 0;
    while i < pn
        invariant
            i <= pn <= sn,
            sn == s@.len(),
            pn == p@.len(),
            forall|j: int| 0 <= j < i ==> s@[j] == p@[j],
        decreases pn - i,
    {
        if s.get_char(i) != p.get_char(i) {
            proof {
                assert(s@.subrange(0, pn as int)[i as int] == s@[i as int]);
            }
            return false;
        }
        i += 1;
    }
    proof {
        assert(s@.subrange(0, pn as int) =~= p@);
    }
    true
}

/// The code point of `c` with an ASCII upper-case letter lowered.
pub open spec fn lower_code(c: char) -> u32 {
    if 65 <= c as u32 && c as u32 <= 90 {
        (c as u32 + 32) as u32
    } else {
        c as u32
    }
}

/// Executable counterpart of [`lower_code`].
pub fn lower_code_exec(c: char) -> (r: u32)
    ensures
        r == lower_code(c),
{
    let u = c as u32;
    if 65 <= u && u <= 90 {
        u + 32
    } else {
        u
    }
}

/// Whether `p` is a prefix of `s`, comparing ASCII letters case-insensitively.
pub open spec fn spec_ci_starts_with(s: Seq<char>, p: Seq<char>) -> bool {
    s.len() >= p.len() && forall|j: int| 0 <= j < p.len() ==> lower_code(s[j]) == lower_code(p[j])
}

/// Executable counterpart of [`spec_ci_starts_with`].
pub fn ci_starts_with(s: &str, p: &str) -> (r: bool)
    ensures
        r == spec_ci_starts_with(s@, p@),
{
    let sn = s.unicode_len();
    let pn = p.unicode_len();
    if sn < pn {
        return false;
    }
    let mut i: usize = 0;
    while i < pn
        invariant
            i <= pn <= sn,
            sn == s@.len(),
            pn == p@.len(),
            forall|j: int| 0 <= j < i ==> lower_code(s@[j]) == lower_code(p@[j]),
        decreases pn - i,
    {
        if lower_code_exec(s.get_char(i)) != lower_code_exec(p.get_char(i)) {
            return false;
        }
        i += 1;
    }
    true
}

/// Whether the character sequences of `a` and `b` are equal.
pub fn str_eq(a: &str, b: &str) -> (r: bool)
    ensures
        r == (a@ == b@),
{
    let an = a.unicode_len();
    let bn = b.unicode_len();
    if an != bn {
        return false;
    }
    let mut i: usize = 0;
    while i < an
        invariant
            i <= an,
            an == a@.len(),
            an == b@.len(),
            forall|j: int| 0 <= j < i ==> a@[j] == b@[j],
        decreases an - i,
    {
        if a.get_char(i) != b.get_char(i) {
            return false;
        }
        i += 1;
    }
    proof {
        assert(a@ =~= b@);
    }
    true
}

/// Index of the first occurrence of `c` in `s`, or `s.len()` if absent.
pub open spec fn spec_find(s: Seq<char>, c: char) -> int
    decreases s.len(),
{
    if s.len() == 0 {
        0
    } else if s[0] == c {
        0
    } else {
        1 + spec_find(s.drop_first(), c)
    }
}

pub proof fn lemma_find_bounds(s: Seq<char>, c: char)
    ensures
        0 <= spec_find(s, c) <= s.len(),
        spec_find(s, c) < s.len() ==> s[spec_find(s, c)] == c,
        forall|j: int| 0 <= j < spec_find(s, c) ==> s[j] != c,
    decreases s.len(),
{
    if s.len() == 0 {
    } else if s[0] == c {
    } else {
        lemma_find_bounds(s.drop_first(), c);
        assert forall|j: int| 0 <= j < spec_find(s, c) implies s[j] != c by {
            if j > 0 {
                assert(s[j] == s.drop_first()[j - 1]);
            }
        }
    }
}

pub proof fn lemma_find_at(s: Seq<char>, c: char, k: int)
    requires
        0 <= k <= s.len(),
        forall|j: int| 0 <= j < k ==> s[j] != c,
        k < s.len() ==> s[k] == c,
    ensures
        spec_find(s, c) == k,
    decreases k,
{
    if s.len() == 0 {
    } else if k == 0 {
    } else {
        lemma_find_at(s.drop_first(), c, k - 1);
    }
}

/// First index at or after `from` holding `sep`, or the length of `s`.
pub fn find_from(s: &str, sep: char, from: usize) -> (k: usize)
    requires
        from <= s@.len(),
    ensures
        from <= k <= s@.len(),
        forall|j: int| from <= j < k ==> s@[j] != sep,
        k < s@.len() ==> s@[k as int] == sep,
{
    let n = s.unicode_len();
    let mut k: usize = from;
    while k < n && s.get_char(k) != sep
        invariant
            from <= k <= n,
            n == s@.len(),
            forall|j: int| from <= j < k ==> s@[j] != sep,
        decreases n - k,
    {
        k += 1;
    }
    k
}

/// The segments of `s` between occurrences of `sep`; always at least one.
pub open spec fn spec_split(s: Seq<char>, sep: char) -> Seq<Seq<char>>
    decreases s.len(),
    via spec_split_dec
{
    let k = spec_find(s, sep);
    if k == s.len() {
        seq![s]
    } else {
        seq![s.subrange(0, k)] + spec_split(s.skip(k + 1), sep)
    }
}

#[via_fn]
proof fn spec_split_dec(s: Seq<char>, sep: char) {
    lemma_find_bounds(s, sep);
}

pub proof fn lemma_split_nonempty(s: Seq<char>, sep: char)
    ensures
        spec_split(s, sep).len() >= 1,
{
    lemma_find_bounds(s, sep);
}

/// Executable counterpart of [`spec_split`].
pub fn split_char<'a>(s: &'a str, sep: char) -> (r: Vec<&'a str>)
    ensures
        r.deep_view() == spec_split(s@, sep),
{
    let n = s.unicode_len();
    let mut out: Vec<&'a str> = Vec::new();
    let mut pos: usize = 0;
    proof {
        assert(out.deep_view() =~= Seq::<Seq<char>>::empty());
        assert(s@.skip(0) =~= s@);
        assert(Seq::<Seq<char>>::empty() + spec_split(s@, sep) =~= spec_split(s@, sep));
    }
    loop
        invariant_except_break
            pos <= n,
            n == s@.len(),
            spec_split(s@, sep) == out.deep_view() + spec_split(s@.skip(pos as int), sep),
        ensures
            out.deep_view() == spec_split(s@, sep),
        decreases n - pos,
    {
        let k = find_from(s, sep, pos);
        let piece = s.substring_char(pos, k);
        let ghost pre = out.deep_view();
        out.push(piece);
        proof {
            assert(out.deep_view() =~= pre.push(piece@));
            let rest = s@.skip(pos as int);
            lemma_find_at(rest, sep, k - pos);
            assert(rest.subrange(0, (k - pos) as int) =~= piece@);
            if k < n {
                assert(rest.skip(k - pos + 1) =~= s@.skip(k + 1));
                assert(spec_split(rest, sep) == seq![piece@] + spec_split(
                    s@.skip(k as int + 1),
                    sep,
                ));
                assert(out.deep_view() + spec_split(s@.skip(k as int + 1), sep) =~= pre + spec_split(
                    rest,
                    sep,
                ));
            } else {
                assert(rest =~= piece@);
                assert(spec_split(rest, sep) == seq![piece@]);
                assert(out.deep_view() =~= pre + spec_split(rest, sep));
            }
        }
        if k == n {
            break ;
        }
        pos = k + 1;
    }
    out
}

/// `s` without one trailing carriage return, if any.
pub open spec fn strip_cr(s: Seq<char>) -> Seq<char> {
    if s.len() > 0 && s.last() == '\r' {
        s.drop_last()
    } else {
        s
    }
}

/// The lines of `text`: the segments between newline characters, each without
/// a trailing carriage return. A final newline closes the last line rather
/// than opening an empty one, so empty input has no lines.
pub open spec fn spec_lines(text: Seq<char>) -> Seq<Seq<char>> {
    let segs = spec_split(text, '\n');
    let kept = if segs.last().len() == 0 {
        segs.drop_last()
    } else {
        segs
    };
    kept.map_values(|s: Seq<char>| strip_cr(s))
}

/// Executable counterpart of [`spec_lines`].
pub fn split_lines<'a>(s: &'a str) -> (r: Vec<&'a str>)
    ensures
        r.deep_view() == spec_lines(s@),
{
    let mut segs = split_char(s, '\n');
    proof {
        lemma_split_nonempty(s@, '\n');
    }
    let last = segs[segs.len() - 1];
    if last.unicode_len() == 0 {
        segs.pop();
    }
    let ghost kept = if spec_split(s@, '\n').last().len() == 0 {
        spec_split(s@, '\n').drop_last()
    } else {
        spec_split(s@, '\n')
    };
    proof {
        assert(segs.deep_view() =~= kept);
    }
    let mut out: Vec<&'a str> = Vec::new();
    let mut i: usize = 0;
    while i < segs.len()
        invariant
            i <= segs@.len(),
            segs.deep_view() == kept,
            out.deep_view() =~= kept.subrange(0, i as int).map_values(
                |t: Seq<char>| strip_cr(t),
            ),
        decreases segs@.len() - i,
    {
        let line = segs[i];
        let ln = line.unicode_len();
        let ghost pre = out.deep_view();
        if ln > 0 && line.get_char(ln - 1) == '\r' {
            let stripped = line.substring_char(0, ln - 1);
            proof {
                assert(stripped@ =~= strip_cr(line@));
            }
            out.push(stripped);
        } else {
            out.push(line);
        }
        proof {
            assert(line@ == kept[i as int]);
            assert(out.deep_view() =~= pre.push(strip_cr(kept[i as int])));
            assert(out.deep_view() =~= kept.subrange(0, i + 1).map_values(
                |t: Seq<char>| strip_cr(t),
            ));
        }
        i += 1;
    }
    proof {
        assert(kept.subrange(0, kept.len() as int) =~= kept);
        assert(out.deep_view() =~= spec_lines(s@));
    }
    out
}

/// Whether `p` occurs in `s` at position `at`.
pub fn matches_at(s: &str, p: &str, at: usize) -> (r: bool)
    requires
        at + p@.len() <= s@.len(),
    ensures
        r == (s@.subrange(at as int, at as int + p@.len()) == p@),
{
    let sn = s.unicode_len();
    let pn = p.unicode_len();
    let mut j: usize = 0;
    while j < pn
        invariant
            j <= pn,
            pn == p@.len(),
            sn == s@.len(),
            at + pn <= sn,
            forall|k: int| 0 <= k < j ==> s@[at + k] == p@[k],
        decreases pn - j,
    {
        if s.get_char(at + j) != p.get_char(j) {
            proof {
                assert(s@.subrange(at as int, at as int + p@.len())[j as int] == s@[at + j]);
            }
            return false;
        }
        j += 1;
    }
    proof {
        assert(s@.subrange(at as int, at as int + p@.len()) =~= p@);
    }
    true
}

/// `s` with every non-overlapping occurrence of `from` replaced by `to`,
/// scanning left to right. An empty pattern leaves `s` unchanged.
pub open spec fn spec_replace(s: Seq<char>, from: Seq<char>, to: Seq<char>) -> Seq<char>
    decreases s.len(),
{
    if from.len() == 0 || s.len() < from.len() {
        s
    } else if s.subrange(0, from.len() as int) == from {
        to + spec_replace(s.skip(from.len() as int), from, to)
    } else {
        seq![s[0]] + spec_replace(s.drop_first(), from, to)
    }
}

/// Executable counterpart of [`spec_replace`].
pub fn replace(s: &str, from: &str, to: &str) -> (r: String)
    ensures
        r@ == spec_replace(s@, from@, to@),
{
    let n = s.unicode_len();
    let fl = from.unicode_len();
    let mut out = String::new();
    let mut pos: usize = 0;
    proof {
        assert(s@.skip(0) =~= s@);
        assert(out@ + spec_replace(s@, from@, to@) =~= spec_replace(s@, from@, to@));
    }
    while pos < n
        invariant
            pos <= n,
            n == s@.len(),
            fl == from@.len(),
            spec_replace(s@, from@, to@) == out@ + spec_replace(s@.skip(pos as int), from@, to@),
        decreases n - pos,
    {
        let ghost rest = s@.skip(pos as int);
        let ghost pre = out@;
        if fl > 0 && n - pos >= fl && matches_at(s, from, pos) {
            out.append(to);
            proof {
                assert(rest.subrange(0, fl as int) =~= s@.subrange(
                    pos as int,
                    pos as int + from@.len(),
                ));
                assert(rest.skip(fl as int) =~= s@.skip(pos as int + fl as int));
                assert(spec_replace(rest, from@, to@) == to@ + spec_replace(
                    s@.skip(pos as int + fl as int),
                    from@,
                    to@,
                ));
                assert(pre + spec_replace(rest, from@, to@) =~= out@ + spec_replace(
                    s@.skip(pos as int + fl as int),
                    from@,
                    to@,
                ));
            }
            pos = pos + fl;
        } else {
            let piece = s.substring_char(pos, pos + 1);
            out.append(piece);
            proof {
                assert(piece@ =~= seq![s@[pos as int]]);
                assert(rest[0] == s@[pos as int]);
                assert(rest.drop_first() =~= s@.skip(pos as int + 1));
                if fl == 0 {
                    assert(spec_replace(rest, from@, to@) == rest);
                    assert(spec_replace(rest.drop_first(), from@, to@) == rest.drop_first());
                    assert(rest =~= seq![s@[pos as int]] + rest.drop_first());
                } else if rest.len() < fl {
                    assert(spec_replace(rest, from@, to@) == rest);
                    assert(rest.drop_first().len() < fl);
                    assert(spec_replace(rest.drop_first(), from@, to@) == rest.drop_first());
                    assert(rest =~= seq![s@[pos as int]] + rest.drop_first());
                } else {
                    assert(rest.subrange(0, fl as int) =~= s@.subrange(
                        pos as int,
                        pos as int + from@.len(),
                    ));
                    assert(rest.subrange(0, fl as int) != from@);
                    assert(spec_replace(rest, from@, to@) == seq![rest[0]] + spec_replace(
                        rest.drop_first(),
                        from@,
                        to@,
                    ));
                }
                assert(pre + spec_replace(rest, from@, to@) =~= out@ + spec_replace(
                    s@.skip(pos as int + 1),
                    from@,
                    to@,
                ));
            }
            pos = pos + 1;
        }
    }
    proof {
        assert(s@.skip(n as int) =~= Seq::<char>::empty());
        assert(spec_replace(s@.skip(n as int), from@, to@) == s@.skip(n as int));
        assert(out@ + s@.skip(n as int) =~= out@);
    }
    out
}

/// The literal text of a placeholder marker: the name in angle brackets.
pub open spec fn spec_marker(ph: Seq<char>) -> Seq<char> {
    "<"@ + ph + ">"@
}

/// Executable counterpart of [`spec_marker`].
pub fn marker(ph: &str) -> (r: String)
    ensures
        r@ == spec_marker(ph@),
{
    let mut m = String::new();
    m.append("<");
    m.append(ph);
    m.append(">");
    m
}

} // verus!
