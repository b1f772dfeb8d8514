//! Directive extraction: the leading comment lines of a query may declare
//! `# endpoint: <url>` and `# paginate: <n>`. Keys are matched without
//! regard to letter case, later declarations win, unrecognized keys are
//! ignored, and a `paginate` value that is not a positive integer fails the
//! query.
use vstd::prelude::*;
use crate::errors::BuildError;
use crate::text::{str_chars, string_of_chars, subvec};

verus! {

/// The whitespace characters skipped around a directive's key and value.
pub open spec fn is_space(c: char) -> bool {
    c == ' ' || c == '\t' || c == '\r' || c == '\u{0B}' || c == '\u{0C}'
}

/// An upper-case ASCII letter folded to lower case; anything else kept.
pub open spec fn lower_char(c: char) -> char {
    match c {
        'A' => 'a',
        'B' => 'b',
        'C' => 'c',
        'D' => 'd',
        'E' => 'e',
        'F' => 'f',
        'G' => 'g',
        'H' => 'h',
        'I' => 'i',
        'J' => 'j',
        'K' => 'k',
        'L' => 'l',
        'M' => 'm',
        'N' => 'n',
        'O' => 'o',
        'P' => 'p',
        'Q' => 'q',
        'R' => 'r',
        'S' => 's',
        'T' => 't',
        'U' => 'u',
        'V' => 'v',
        'W' => 'w',
        'X' => 'x',
        'Y' => 'y',
        'Z' => 'z',
        _ => c,
    }
}

/// The text with each ASCII letter folded to lower case.
pub open spec fn lower(s: Seq<char>) -> Seq<char> {
    s.map_values(|c: char| lower_char(c))
}

/// The first position of `c` in `s`, or a negative value if absent.
pub open spec fn first_ix(s: Seq<char>, c: char) -> int
    decreases s.len(),
{
    if s.len() == 0 {
        -1
    } else if s[0] == c {
        0
    } else {
        let r = first_ix(s.drop_first(), c);
        if r < 0 {
            -1
        } else {
            r + 1
        }
    }
}

/// The first position of a non-whitespace character in `s`, or a negative
/// value if there is none.
pub open spec fn first_non_space(s: Seq<char>) -> int
    decreases s.len(),
{
    if s.len() == 0 {
        -1
    } else if !is_space(s[0]) {
        0
    } else {
        let r = first_non_space(s.drop_first());
        if r < 0 {
            -1
        } else {
            r + 1
        }
    }
}

/// A line's trailing carriage return removed, as a line separator of the
/// form `\r\n` leaves one behind.
pub open spec fn strip_cr(s: Seq<char>) -> Seq<char> {
    if s.len() > 0 && s.last() == '\r' {
        s.drop_last()
    } else {
        s
    }
}

/// The text split at newline characters; a separator of the form `\r\n`
/// is consumed whole, and no empty final line follows a trailing newline.
pub open spec fn split_lines(s: Seq<char>) -> Seq<Seq<char>>
    decreases s.len(),
{
    if s.len() == 0 {
        Seq::empty()
    } else {
        let i = first_ix(s, '\n');
        if 0 <= i < s.len() {
            seq![strip_cr(s.take(i))] + split_lines(s.skip(i + 1))
        } else {
            seq![s]
        }
    }
}

/// The directive a line declares, if any: a leading `#`, then a key up to
/// the first colon (leading whitespace skipped, folded to lower case), then
/// the value from the first non-whitespace character after the colon to the
/// end of the line.
pub open spec fn line_directive(line: Seq<char>) -> Option<(Seq<char>, Seq<char>)> {
    if line.len() == 0 || line[0] != '#' {
        None
    } else {
        let rest = line.drop_first();
        let j = first_ix(rest, ':');
        let i = first_non_space(rest);
        if j < 0 || i < 0 || i >= j {
            None
        } else {
            let after = rest.skip(j + 1);
            let v = first_non_space(after);
            if v < 0 {
                None
            } else {
                Some((lower(rest.subrange(i, j)), after.skip(v)))
            }
        }
    }
}

pub open spec fn is_digit(c: char) -> bool {
    48 <= c as u32 <= 57
}

pub open spec fn digit_val(c: char) -> int {
    c as u32 - 48
}

/// The integer a string of decimal digits denotes.
pub open spec fn digits_val(s: Seq<char>) -> int
    decreases s.len(),
{
    if s.len() == 0 {
        0
    } else {
        digits_val(s.drop_last()) * 10 + digit_val(s.last())
    }
}

pub open spec fn all_digits(s: Seq<char>) -> bool {
    forall|k: int| 0 <= k < s.len() ==> is_digit(#[trigger] s[k])
}

/// A `paginate` value with its optional leading plus sign removed.
pub open spec fn spec_digits_part(v: Seq<char>) -> Seq<char> {
    if v.len() > 0 && v[0] == '+' {
        v.drop_first()
    } else {
        v
    }
}

/// The page size a `paginate` value denotes: an optional plus sign, then
/// decimal digits, denoting a positive integer that fits the machine;
/// anything else is invalid.
pub open spec fn page_size_of(v: Seq<char>) -> Option<usize> {
    let d = spec_digits_part(v);
    if d.len() > 0 && all_digits(d) && 1 <= digits_val(d) && digits_val(d) <= usize::MAX {
        Some(digits_val(d) as usize)
    } else {
        None
    }
}

/// A `paginate` directive whose value is invalid.
pub open spec fn is_bad_paginate(line: Seq<char>) -> bool {
    match line_directive(line) {
        Some(kv) => kv.0 == "paginate"@ && page_size_of(kv.1) is None,
        None => false,
    }
}

pub open spec fn any_bad_paginate(lines: Seq<Seq<char>>) -> bool
    decreases lines.len(),
{
    if lines.len() == 0 {
        false
    } else {
        any_bad_paginate(lines.drop_last()) || is_bad_paginate(lines.last())
    }
}

/// The value of the last directive with the given key, if any.
pub open spec fn last_directive_value(lines: Seq<Seq<char>>, key: Seq<char>) -> Option<Seq<char>>
    decreases lines.len(),
{
    if lines.len() == 0 {
        None
    } else {
        match line_directive(lines.last()) {
            Some(kv) => if kv.0 == key {
                Some(kv.1)
            } else {
                last_directive_value(lines.drop_last(), key)
            },
            None => last_directive_value(lines.drop_last(), key),
        }
    }
}

/// The directives of one query: the endpoint to ask, and the page size
/// when pagination was requested.
#[derive(Debug)]
pub struct QueryMetadata {
    pub endpoint: String,
    pub paginate: Option<usize>,
}

proof fn lemma_first_ix_at(s: Seq<char>, c: char, m: int)
    requires
        0 <= m < s.len(),
        s[m] == c,
        forall|k: int| 0 <= k < m ==> s[k] != c,
    ensures
        first_ix(s, c) == m,
    decreases m,
{
    if m > 0 {
        assert forall|k: int| 0 <= k < m - 1 implies s.drop_first()[k] != c by {
            assert(s.drop_first()[k] == s[k + 1]);
        }
        assert(s.drop_first()[m - 1] == s[m]);
        lemma_first_ix_at(s.drop_first(), c, m - 1);
    }
}

proof fn lemma_first_ix_none(s: Seq<char>, c: char)
    requires
        forall|k: int| 0 <= k < s.len() ==> s[k] != c,
    ensures
        first_ix(s, c) < 0,
    decreases s.len(),
{
    if s.len() > 0 {
        assert forall|k: int| 0 <= k < s.drop_first().len() implies s.drop_first()[k] != c by {
            assert(s.drop_first()[k] == s[k + 1]);
        }
        lemma_first_ix_none(s.drop_first(), c);
    }
}

proof fn lemma_first_non_space_at(s: Seq<char>, m: int)
    requires
        0 <= m < s.len(),
        !is_space(s[m]),
        forall|k: int| 0 <= k < m ==> is_space(s[k]),
    ensures
        first_non_space(s) == m,
    decreases m,
{
    if m > 0 {
        assert forall|k: int| 0 <= k < m - 1 implies is_space(s.drop_first()[k]) by {
            assert(s.drop_first()[k] == s[k + 1]);
        }
        assert(s.drop_first()[m - 1] == s[m]);
        lemma_first_non_space_at(s.drop_first(), m - 1);
    }
}

proof fn lemma_first_non_space_none(s: Seq<char>)
    requires
        forall|k: int| 0 <= k < s.len() ==> is_space(s[k]),
    ensures
        first_non_space(s) < 0,
    decreases s.len(),
{
    if s.len() > 0 {
        assert forall|k: int| 0 <= k < s.drop_first().len() implies is_space(
            s.drop_first()[k],
        ) by {
            assert(s.drop_first()[k] == s[k + 1]);
        }
        lemma_first_non_space_none(s.drop_first());
    }
}

proof fn lemma_digits_val_nonneg(s: Seq<char>)
    requires
        all_digits(s),
    ensures
        digits_val(s) >= 0,
    decreases s.len(),
{
    if s.len() > 0 {
        assert forall|k: int| 0 <= k < s.drop_last().len() implies is_digit(
            #[trigger] s.drop_last()[k],
        ) by {
            assert(s.drop_last()[k] == s[k]);
        }
        lemma_digits_val_nonneg(s.drop_last());
    }
}

/// Appending digits never shrinks the denoted value.
proof fn lemma_digits_val_mono(s: Seq<char>, k: int)
    requires
        all_digits(s),
        0 <= k <= s.len(),
    ensures
        digits_val(s) >= digits_val(s.take(k)),
    decreases s.len() - k,
{
    if k == s.len() {
        assert(s.take(k) =~= s);
    } else {
        assert(s.take(k + 1).drop_last() =~= s.take(k));
        assert(s.take(k + 1).last() == s[k]);
        assert forall|p: int| 0 <= p < s.take(k).len() implies is_digit(
            #[trigger] s.take(k)[p],
        ) by {
            assert(s.take(k)[p] == s[p]);
        }
        lemma_digits_val_nonneg(s.take(k));
        assert(digits_val(s.take(k + 1)) >= digits_val(s.take(k)));
        lemma_digits_val_mono(s, k + 1);
    }
}

/// Whether `c` is one of the whitespace characters skipped in directives.
fn space(c: char) -> (r: bool)
    ensures
        r == is_space(c),
{
    c == ' ' || c == '\t' || c == '\r' || c == '\u{0B}' || c == '\u{0C}'
}

/// The first position of `c` in `v` at or after `from`.
fn find_char(v: &Vec<char>, from: usize, c: char) -> (r: Option<usize>)
    requires
        from <= v@.len(),
    ensures
        match r {
            Some(j) => from <= j < v@.len() && v@[j as int] == c && (forall|k: int|
                from <= k < j ==> v@[k] != c),
            None => forall|k: int| from <= k < v@.len() ==> v@[k] != c,
        },
{
    let n = v.len();
    for j in from..n
        invariant
            n == v@.len(),
            from <= j <= n,
            forall|k: int| from <= k < j ==> v@[k] != c,
    {
        if v[j] == c {
            return Some(j);
        }
    }
    None
}

/// The first position of a non-whitespace character in `v` at or after
/// `from`.
fn find_non_space(v: &Vec<char>, from: usize) -> (r: Option<usize>)
    requires
        from <= v@.len(),
    ensures
        match r {
            Some(j) => from <= j < v@.len() && !is_space(v@[j as int]) && (forall|k: int|
                from <= k < j ==> is_space(v@[k])),
            None => forall|k: int| from <= k < v@.len() ==> is_space(v@[k]),
        },
{
    let n = v.len();
    for j in from..n
        invariant
            n == v@.len(),
            from <= j <= n,
            forall|k: int| from <= k < j ==> is_space(v@[k]),
    {
        if !space(v[j]) {
            return Some(j);
        }
    }
    None
}

/// `lower_char`, executably.
fn fold_char(c: char) -> (r: char)
    ensures
        r == lower_char(c),
{
    match c {
        'A' => 'a',
        'B' => 'b',
        'C' => 'c',
        'D' => 'd',
        'E' => 'e',
        'F' => 'f',
        'G' => 'g',
        'H' => 'h',
        'I' => 'i',
        'J' => 'j',
        'K' => 'k',
        'L' => 'l',
        'M' => 'm',
        'N' => 'n',
        'O' => 'o',
        'P' => 'p',
        'Q' => 'q',
        'R' => 'r',
        'S' => 's',
        'T' => 't',
        'U' => 'u',
        'V' => 'v',
        'W' => 'w',
        'X' => 'x',
        'Y' => 'y',
        'Z' => 'z',
        _ => c,
    }
}

/// Whether the characters of `v` between `a` and `b`, folded to lower
/// case, read as `target`.
fn region_lower_is(v: &Vec<char>, a: usize, b: usize, target: &str) -> (r: bool)
    requires
        a <= b <= v@.len(),
    ensures
        r == (lower(v@.subrange(a as int, b as int)) == target@),
{
    let t = str_chars(target);
    let ghost sub = v@.subrange(a as int, b as int);
    if b - a != t.len() {
        proof {
            assert(lower(sub).len() == sub.len());
        }
        return false;
    }
    for i in 0..t.len()
        invariant
            a <= b <= v@.len(),
            t@ == target@,
            b - a == t@.len(),
            sub == v@.subrange(a as int, b as int),
            forall|k: int| 0 <= k < i ==> lower_char(v@.subrange(a as int, b as int)[k]) == t@[k],
    {
        if fold_char(v[a + i]) != t[i] {
            proof {
                assert(lower(sub)[i as int] == lower_char(sub[i as int]));
                assert(sub[i as int] == v@[a + i]);
            }
            return false;
        }
        proof {
            assert(sub[i as int] == v@[a + i]);
        }
    }
    proof {
        assert(lower(sub) =~= target@);
    }
    true
}

/// The page size a `paginate` value denotes, if it is valid.
pub fn parse_page_size(v: &Vec<char>) -> (r: Option<usize>)
    ensures
        r == page_size_of(v@),
{
    let mut idx: usize = 0;
    if v.len() > 0 && v[0] == '+' {
        idx = 1;
    }
    let ghost d = v@.skip(idx as int);
    proof {
        if v@.len() > 0 && v@[0] == '+' {
            assert(d =~= v@.drop_first());
        } else {
            assert(d =~= v@);
        }
        assert(d == spec_digits_part(v@));
    }
    if idx >= v.len() {
        proof {
            let ds = spec_digits_part(v@);
            assert(ds.len() == 0);
            assert(page_size_of(v@) is None);
        }
        return None;
    }
    let n = v.len();
    let mut acc: usize = 0;
    for i in idx..n
        invariant
            idx <= i <= n,
            n == v@.len(),
            idx < n,
            d == v@.skip(idx as int),
            d == spec_digits_part(v@),
            all_digits(d.take(i - idx)),
            acc == digits_val(d.take(i - idx)),
    {
        let c = v[i];
        let cu = c as u32;
        proof {
            assert(d[i - idx] == v@[i as int]);
            assert(d.take(i - idx + 1).drop_last() =~= d.take(i - idx));
            assert(d.take(i - idx + 1).last() == d[i - idx]);
        }
        if !(48 <= cu && cu <= 57) {
            proof {
                assert(!is_digit(d[i - idx]));
                assert(!all_digits(d));
            }
            return None;
        }
        let dv = (cu - 48) as usize;
        let next = match acc.checked_mul(10) {
            Some(m) => m.checked_add(dv),
            None => None,
        };
        match next {
            Some(x) => {
                acc = x;
                proof {
                    assert forall|k: int| 0 <= k < d.take(i - idx + 1).len() implies is_digit(
                        #[trigger] d.take(i - idx + 1)[k],
                    ) by {
                        assert(d.take(i - idx + 1)[k] == d[k]);
                    }
                }
            },
            None => {
                // the value no longer fits the machine, so the directive is
                // invalid whatever follows
                proof {
                    assert(digits_val(d.take(i - idx + 1)) > usize::MAX);
                    if all_digits(d) {
                        lemma_digits_val_mono(d, i - idx + 1);
                    }
                }
                return None;
            },
        }
    }
    proof {
        assert(d.take(n - idx) =~= d);
    }
    if acc == 0 {
        return None;
    }
    Some(acc)
}

/// The views of a vector of lines.
pub open spec fn line_views(r: Seq<Vec<char>>) -> Seq<Seq<char>> {
    r.map_values(|x: Vec<char>| x@)
}

/// What one line contributes to the directive scan.
pub enum LineClass {
    /// No directive pattern on this line.
    NotDirective,
    /// `endpoint: <value>`.
    Endpoint(Vec<char>),
    /// `paginate: <value>`.
    Paginate(Vec<char>),
    /// A well-formed directive with an unrecognized key, ignored.
    OtherKey,
}

/// Classifies one line against the directive pattern.
fn classify_line(line: &Vec<char>) -> (r: LineClass)
    ensures
        match r {
            LineClass::NotDirective => line_directive(line@) is None,
            LineClass::Endpoint(v) => line_directive(line@) == Some(("endpoint"@, v@)),
            LineClass::Paginate(v) => line_directive(line@) == Some(("paginate"@, v@)),
            LineClass::OtherKey => line_directive(line@) matches Some(kv) && kv.0 != "endpoint"@
                && kv.0 != "paginate"@,
        },
{
    if line.len() == 0 {
        return LineClass::NotDirective;
    }
    if line[0] != '#' {
        return LineClass::NotDirective;
    }
    let ghost rest = line@.drop_first();
    let jj = match find_char(line, 1, ':') {
        Some(j) => j,
        None => {
            proof {
                assert forall|k: int| 0 <= k < rest.len() implies rest[k] != ':' by {
                    assert(rest[k] == line@[k + 1]);
                }
                lemma_first_ix_none(rest, ':');
            }
            return LineClass::NotDirective;
        },
    };
    proof {
        assert forall|k: int| 0 <= k < jj - 1 implies rest[k] != ':' by {
            assert(rest[k] == line@[k + 1]);
        }
        assert(rest[jj - 1] == line@[jj as int]);
        lemma_first_ix_at(rest, ':', jj - 1);
    }
    let ii = match find_non_space(line, 1) {
        Some(i) => i,
        None => {
            proof {
                assert(rest[jj - 1] == line@[jj as int]);
                assert(!is_space(rest[jj - 1]));
            }
            // unreachable: the colon itself is not whitespace
            return LineClass::NotDirective;
        },
    };
    proof {
        assert forall|k: int| 0 <= k < ii - 1 implies is_space(rest[k]) by {
            assert(rest[k] == line@[k + 1]);
        }
        assert(rest[ii - 1] == line@[ii as int]);
        lemma_first_non_space_at(rest, ii - 1);
    }
    if ii >= jj {
        return LineClass::NotDirective;
    }
    let ghost after = rest.skip(jj as int);
    let vv = match find_non_space(line, jj + 1) {
        Some(k) => k,
        None => {
            proof {
                assert forall|k: int| 0 <= k < after.len() implies is_space(after[k]) by {
                    assert(after[k] == line@[k + jj + 1]);
                }
                lemma_first_non_space_none(after);
            }
            return LineClass::NotDirective;
        },
    };
    proof {
        assert forall|k: int| 0 <= k < vv - jj - 1 implies is_space(after[k]) by {
            assert(after[k] == line@[k + jj + 1]);
        }
        assert(after[vv - jj - 1] == line@[vv as int]);
        lemma_first_non_space_at(after, vv - jj - 1);
        assert(after.skip(vv - jj - 1) =~= line@.subrange(vv as int, line@.len() as int));
        assert(rest.subrange(ii - 1, jj - 1) =~= line@.subrange(ii as int, jj as int));
    }
    let value = subvec(line, vv, line.len());
    if region_lower_is(line, ii, jj, "endpoint") {
        LineClass::Endpoint(value)
    } else if region_lower_is(line, ii, jj, "paginate") {
        LineClass::Paginate(value)
    } else {
        LineClass::OtherKey
    }
}

/// Splits the text into lines, as the directive scan reads them.
fn split_lines_exec(v: &Vec<char>) -> (r: Vec<Vec<char>>)
    ensures
        line_views(r@) == split_lines(v@),
{
    let mut out: Vec<Vec<char>> = Vec::new();
    let mut p: usize = 0;
    let n = v.len();
    proof {
        assert(v@.skip(0) =~= v@);
        assert(line_views(out@) =~= Seq::<Seq<char>>::empty());
        assert(line_views(out@) + split_lines(v@.skip(0)) =~= split_lines(v@));
    }
    while p < n
        invariant
            p <= n,
            n == v@.len(),
            line_views(out@) + split_lines(v@.skip(p as int)) == split_lines(v@),
        decreases n - p,
    {
        let ghost tail = v@.skip(p as int);
        match find_char(v, p, '\n') {
            Some(j) => {
                proof {
                    assert forall|k: int| 0 <= k < j - p implies tail[k] != '\n' by {
                        assert(tail[k] == v@[k + p]);
                    }
                    assert(tail[j - p] == v@[j as int]);
                    lemma_first_ix_at(tail, '\n', j - p);
                    assert(tail.take(j - p) =~= v@.subrange(p as int, j as int));
                    assert(tail.skip(j - p + 1) =~= v@.skip(j + 1));
                }
                let mut chunk = subvec(v, p, j);
                if chunk.len() > 0 && chunk[chunk.len() - 1] == '\r' {
                    let _ = chunk.pop();
                }
                proof {
                    assert(chunk@ =~= strip_cr(v@.subrange(p as int, j as int)));
                }
                out.push(chunk);
                proof {
                    assert(line_views(out@) + split_lines(v@.skip(j + 1)) =~= split_lines(v@));
                }
                p = j + 1;
            },
            None => {
                proof {
                    assert forall|k: int| 0 <= k < tail.len() implies tail[k] != '\n' by {
                        assert(tail[k] == v@[k + p]);
                    }
                    lemma_first_ix_none(tail, '\n');
                    assert(tail =~= v@.subrange(p as int, n as int));
                }
                let chunk = subvec(v, p, n);
                out.push(chunk);
                proof {
                    assert(v@.skip(n as int) =~= Seq::<char>::empty());
                    assert(line_views(out@) + split_lines(v@.skip(n as int)) =~= split_lines(v@));
                }
                p = n;
            },
        }
    }
    proof {
        assert(v@.skip(p as int) =~= Seq::<char>::empty());
        assert(line_views(out@) =~= split_lines(v@));
    }
    out
}

/// Extracts the directives from a query's text. Fails with
/// `InvalidPageSize` when any `paginate` directive's value is not a
/// positive integer, and with `MissingEndpoint` when no line declares an
/// endpoint; otherwise the last declaration of each key wins.
pub fn extract_query_metadata(query: &str) -> (r: Result<QueryMetadata, BuildError>)
    ensures
        (r matches Err(e) ==> (e matches BuildError::InvalidPageSize || e
            matches BuildError::MissingEndpoint)),
        (r matches Err(e) && e matches BuildError::InvalidPageSize) <==> any_bad_paginate(
            split_lines(query@),
        ),
        (r matches Err(e) && e matches BuildError::MissingEndpoint) <==> (!any_bad_paginate(
            split_lines(query@),
        ) && last_directive_value(split_lines(query@), "endpoint"@) is None),
        r matches Ok(m) ==> {
            &&& !any_bad_paginate(split_lines(query@))
            &&& last_directive_value(split_lines(query@), "endpoint"@) == Some(m.endpoint@)
            &&& m.paginate == (match last_directive_value(split_lines(query@), "paginate"@) {
                Some(pv) => page_size_of(pv),
                None => None::<usize>,
            })
        },
{
    let chars = str_chars(query);
    let lines = split_lines_exec(&chars);
    let ghost lseq = split_lines(query@);
    let mut endpoint: Option<Vec<char>> = None;
    let mut paginate: Option<usize> = None;
    let n = lines.len();
    proof {
        assert(lseq.take(0) =~= Seq::<Seq<char>>::empty());
    }
    for i in 0..n
        invariant
            n == lines.len(),
            lseq == split_lines(query@),
            line_views(lines@) == lseq,
            !any_bad_paginate(lseq.take(i as int)),
            (match endpoint {
                Some(v) => last_directive_value(lseq.take(i as int), "endpoint"@) == Some(v@),
                None => last_directive_value(lseq.take(i as int), "endpoint"@) is None,
            }),
            paginate == (match last_directive_value(lseq.take(i as int), "paginate"@) {
                Some(pv) => page_size_of(pv),
                None => None::<usize>,
            }),
    {
        let ghost t1 = lseq.take(i + 1);
        proof {
            reveal_strlit("endpoint");
            reveal_strlit("paginate");
            assert("endpoint"@[0] == 'e');
            assert("paginate"@[0] == 'p');
            assert("endpoint"@ != "paginate"@);
            assert(t1.drop_last() =~= lseq.take(i as int));
            assert(t1.last() == lseq[i as int]);
            assert(line_views(lines@)[i as int] == lines@[i as int]@);
            assert(lines@[i as int]@ == lseq[i as int]);
        }
        match classify_line(&lines[i]) {
            LineClass::NotDirective => {},
            LineClass::OtherKey => {},
            LineClass::Endpoint(v) => {
                endpoint = Some(v);
            },
            LineClass::Paginate(v) => {
                match parse_page_size(&v) {
                    Some(ps) => {
                        paginate = Some(ps);
                    },
                    None => {
                        proof {
                            assert(is_bad_paginate(lseq[i as int]));
                            lemma_any_bad_extends(lseq, i as int);
                        }
                        return Err(BuildError::InvalidPageSize);
                    },
                }
            },
        }
    }
    proof {
        assert(lseq.take(n as int) =~= lseq);
    }
    match endpoint {
        Some(v) => Ok(QueryMetadata { endpoint: string_of_chars(&v), paginate }),
        None => Err(BuildError::MissingEndpoint),
    }
}

/// A prefix scan that met a bad `paginate` line makes the whole scan bad.
proof fn lemma_any_bad_extends(lines: Seq<Seq<char>>, i: int)
    requires
        0 <= i < lines.len(),
        is_bad_paginate(lines[i]),
    ensures
        any_bad_paginate(lines),
    decreases lines.len(),
{
    if i == lines.len() - 1 {
    } else {
        assert(lines.drop_last()[i] == lines[i]);
        lemma_any_bad_extends(lines.drop_last(), i);
    }
}

} // verus!
