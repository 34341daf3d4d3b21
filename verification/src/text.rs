//! Reading text: lines, fields and surrounding white space.
use vstd::prelude::*;
use vstd::slice::slice_subrange;

verus! {

/// `String::push` appends one character.
pub assume_specification[ String::push ](s: &mut String, c: char)
    ensures
        final(s)@ == old(s)@.push(c),
;

/// Unicode white space.
pub open spec fn is_white_space(c: char) -> bool {
    ||| '\u{9}' <= c <= '\u{d}'
    ||| c == ' '
    ||| c == '\u{85}'
    ||| c == '\u{a0}'
    ||| c == '\u{1680}'
    ||| '\u{2000}' <= c <= '\u{200a}'
    ||| c == '\u{2028}'
    ||| c == '\u{2029}'
    ||| c == '\u{202f}'
    ||| c == '\u{205f}'
    ||| c == '\u{3000}'
}

/// `s` without leading white space.
pub open spec fn trim_start(s: Seq<char>) -> Seq<char>
    decreases s.len(),
{
    if s.len() > 0 && is_white_space(s.first()) {
        trim_start(s.drop_first())
    } else {
        s
    }
}

/// `s` without trailing white space.
pub open spec fn trim_end(s: Seq<char>) -> Seq<char>
    decreases s.len(),
{
    if s.len() > 0 && is_white_space(s.last()) {
        trim_end(s.drop_last())
    } else {
        s
    }
}

/// `s` without surrounding white space.
pub open spec fn trimmed(s: Seq<char>) -> Seq<char> {
    trim_end(trim_start(s))
}

/// Whether `pattern` stands in `s` at position `i`.
pub open spec fn occurs_at(s: Seq<char>, pattern: Seq<char>, i: int) -> bool {
    &&& 0 <= i <= s.len() - pattern.len()
    &&& s.subrange(i, i + pattern.len()) == pattern
}

/// Whether `i` is the first position at which `pattern` stands in `s`.
pub open spec fn occurs_first_at(s: Seq<char>, pattern: Seq<char>, i: int) -> bool {
    &&& occurs_at(s, pattern, i)
    &&& forall|j: int| 0 <= j < i ==> !#[trigger] occurs_at(s, pattern, j)
}

/// The first position at which `pattern` stands in `s`.
pub open spec fn first_occurrence(s: Seq<char>, pattern: Seq<char>) -> Option<int> {
    if exists|i: int| occurs_first_at(s, pattern, i) {
        Some(choose|i: int| occurs_first_at(s, pattern, i))
    } else {
        None
    }
}

/// What stands between the first `mark` in `s` and the next one, or the end of `s`.
pub open spec fn after_mark(s: Seq<char>, mark: Seq<char>) -> Option<Seq<char>> {
    match first_occurrence(s, mark) {
        Some(i) => {
            let rest = s.skip(i + mark.len());
            match first_occurrence(rest, mark) {
                Some(j) => Some(rest.take(j)),
                None => Some(rest),
            }
        },
        None => None,
    }
}

/// `s` without a carriage return at its end.
pub open spec fn without_return(s: Seq<char>) -> Seq<char> {
    if s.len() > 0 && s.last() == '\r' {
        s.drop_last()
    } else {
        s
    }
}

/// The lines of `s`. A line ends at a line feed, or at a carriage return and a line feed; text
/// after the last of these is a line too.
pub open spec fn lines(s: Seq<char>) -> Seq<Seq<char>>
    decreases s.len(),
{
    if s.len() == 0 {
        seq![]
    } else if s.contains('\n') {
        let k = s.index_of_first('\n')->0;
        proof {
            s.index_of_first_ensures('\n');
        }
        seq![without_return(s.take(k))] + lines(s.skip(k + 1))
    } else {
        seq![s]
    }
}

/// The characters of a string.
pub fn to_chars(s: &str) -> (r: Vec<char>)
    ensures
        r@ == s@,
{
    let mut r: Vec<char> = Vec::new();
    for c in it: s.chars()
        invariant
            r@ == s@.take(it.index() as int),
            it.seq() == s@,
    {
        r.push(c);
        assert(r@ =~= s@.take(it.index() + 1));
    }
    assert(s@.take(s@.len() as int) =~= s@);
    r
}

/// The string of some characters.
pub fn to_text(chars: &[char]) -> (r: String)
    ensures
        r@ == chars@,
{
    let mut r: String = String::new();
    let mut i: usize = 0;
    while i < chars.len()
        invariant
            i <= chars@.len(),
            r@ == chars@.take(i as int),
        decreases chars@.len() - i,
    {
        r.push(chars[i]);
        i = i + 1;
        assert(r@ =~= chars@.take(i as int));
    }
    assert(chars@.take(i as int) =~= chars@);
    r
}

/// Whether `c` is white space.
pub fn white_space(c: char) -> (r: bool)
    ensures
        r == is_white_space(c),
{
    ('\u{9}' <= c && c <= '\u{d}') || c == ' ' || c == '\u{85}' || c == '\u{a0}' || c == '\u{1680}'
        || ('\u{2000}' <= c && c <= '\u{200a}') || c == '\u{2028}' || c == '\u{2029}' || c
        == '\u{202f}' || c == '\u{205f}' || c == '\u{3000}'
}

/// The characters between the surrounding white space.
pub fn trim(s: &[char]) -> (r: &[char])
    ensures
        r@ == trimmed(s@),
{
    let n: usize = s.len();
    let mut from: usize = 0;
    assert(s@.skip(0) =~= s@);
    while from < n && white_space(s[from])
        invariant
            n == s@.len(),
            from <= n,
            trim_start(s@) == trim_start(s@.skip(from as int)),
        decreases n - from,
    {
        assert(s@.skip(from as int).drop_first() =~= s@.skip(from + 1));
        from = from + 1;
    }
    let mut to: usize = n;
    assert(s@.subrange(from as int, n as int) =~= s@.skip(from as int));
    while to > from && white_space(s[to - 1])
        invariant
            n == s@.len(),
            from <= to <= n,
            trimmed(s@) == trim_end(s@.subrange(from as int, to as int)),
        decreases to - from,
    {
        assert(s@.subrange(from as int, to as int).drop_last() =~= s@.subrange(
            from as int,
            to - 1,
        ));
        to = to - 1;
    }
    slice_subrange(s, from, to)
}

/// Whether two runs of characters are the same.
pub fn same(a: &[char], b: &[char]) -> (r: bool)
    ensures
        r == (a@ == b@),
{
    if a.len() != b.len() {
        return false;
    }
    let mut i: usize = 0;
    while i < a.len()
        invariant
            i <= a@.len(),
            a@.len() == b@.len(),
            forall|j: int| 0 <= j < i ==> a@[j] == b@[j],
        decreases a@.len() - i,
    {
        if a[i] != b[i] {
            return false;
        }
        i = i + 1;
    }
    assert(a@ =~= b@);
    true
}

/// Whether `pattern` stands in `s` at position `at`.
fn stands_at(s: &[char], pattern: &[char], at: usize) -> (r: bool)
    requires
        at + pattern@.len() <= s@.len(),
    ensures
        r == occurs_at(s@, pattern@, at as int),
{
    let rest: &[char] = slice_subrange(s, at, s.len());
    let here: &[char] = slice_subrange(rest, 0, pattern.len());
    assert(here@ =~= s@.subrange(at as int, at + pattern@.len()));
    same(here, pattern)
}

/// The first position at which `pattern` stands in `s`.
pub fn find(s: &[char], pattern: &[char]) -> (r: Option<usize>)
    ensures
        r matches Some(i) ==> first_occurrence(s@, pattern@) == Some(i as int) && i
            + pattern@.len() <= s@.len(),
        r is None ==> first_occurrence(s@, pattern@) is None,
{
    let n: usize = s.len();
    if pattern.len() > n {
        return None;
    }
    let last: usize = n - pattern.len();
    let mut i: usize = 0;
    while i <= last
        invariant
            n == s@.len(),
            last == n - pattern@.len(),
            i <= last + 1,
            forall|j: int| 0 <= j < i ==> !#[trigger] occurs_at(s@, pattern@, j),
        decreases last + 1 - i,
    {
        if stands_at(s, pattern, i) {
            proof {
                occurs_first_once(s@, pattern@, i as int);
            }
            return Some(i);
        }
        if i == last {
            return None;
        }
        i = i + 1;
    }
    None
}

/// What stands between the first `mark` in `s` and the next one, or the end of `s`.
pub fn after<'a>(s: &'a [char], mark: &[char]) -> (r: Option<&'a [char]>)
    ensures
        r matches Some(t) ==> after_mark(s@, mark@) == Some(t@),
        r is None ==> after_mark(s@, mark@) is None,
{
    let n: usize = s.len();
    match find(s, mark) {
        Some(i) => {
            let rest: &[char] = slice_subrange(s, i + mark.len(), n);
            assert(rest@ =~= s@.skip(i + mark@.len()));
            match find(rest, mark) {
                Some(j) => {
                    assert(rest@.subrange(0, j as int) =~= rest@.take(j as int));
                    Some(slice_subrange(rest, 0, j))
                },
                None => Some(rest),
            }
        },
        None => None,
    }
}

/// Where the line that begins at `from` ends: the position of its line feed, or the end.
fn line_end(s: &[char], from: usize) -> (to: usize)
    requires
        from <= s@.len(),
    ensures
        from <= to <= s@.len(),
        forall|j: int| from <= j < to ==> s@[j] != '\n',
        to < s@.len() ==> s@[to as int] == '\n',
{
    let n: usize = s.len();
    let mut to: usize = from;
    while to < n && s[to] != '\n'
        invariant
            n == s@.len(),
            from <= to <= n,
            forall|j: int| from <= j < to ==> s@[j] != '\n',
        decreases n - to,
    {
        to = to + 1;
    }
    to
}

/// The characters of each of some runs.
pub open spec fn contents(runs: Seq<&[char]>) -> Seq<Seq<char>> {
    runs.map_values(|r: &[char]| r@)
}

/// The lines of `s`.
pub fn split_lines(s: &[char]) -> (r: Vec<&[char]>)
    ensures
        contents(r@) == lines(s@),
{
    let n: usize = s.len();
    let mut r: Vec<&[char]> = Vec::new();
    let mut from: usize = 0;
    assert(s@.skip(0) =~= s@);
    assert(contents(r@) =~= seq![]);
    while from < n
        invariant
            n == s@.len(),
            from <= n,
            contents(r@) + lines(s@.skip(from as int)) == lines(s@),
        decreases n - from,
    {
        let to: usize = line_end(s, from);
        let ghost rest = s@.skip(from as int);
        let ghost before = contents(r@);
        if to == n {
            let line: &[char] = slice_subrange(s, from, n);
            r.push(line);
            proof {
                assert(line@ =~= rest);
                assert(!rest.contains('\n'));
                assert(contents(r@) =~= before.push(rest));
                assert(s@.skip(n as int) =~= seq![]);
                assert(before.push(rest) + Seq::<Seq<char>>::empty() =~= before + seq![rest]);
            }
            from = n;
        } else {
            let end: usize = if to > from && s[to - 1] == '\r' {
                to - 1
            } else {
                to
            };
            let line: &[char] = slice_subrange(s, from, end);
            r.push(line);
            proof {
                let k = to - from;
                rest.index_of_first_ensures('\n');
                assert(rest[k] == '\n');
                assert(rest.contains('\n'));
                assert(rest.index_of_first('\n') == Some(k));
                assert(line@ =~= without_return(rest.take(k)));
                assert(contents(r@) =~= before.push(line@));
                assert(rest.skip(k + 1) =~= s@.skip(to + 1));
                assert(before.push(line@) + lines(rest.skip(k + 1)) =~= before + (seq![line@]
                    + lines(rest.skip(k + 1))));
            }
            from = to + 1;
        }
    }
    assert(s@.skip(n as int) =~= seq![]);
    assert(contents(r@) + Seq::<Seq<char>>::empty() =~= contents(r@));
    r
}

/// Trimmed text has no white space around it, and is a part of the text that only white space
/// was cut off from.
pub proof fn trimming_cuts_white_space_only(s: Seq<char>) -> (r: (int, int))
    ensures
        0 <= r.0 <= r.1 <= s.len(),
        trimmed(s) == s.subrange(r.0, r.1),
        forall|i: int| 0 <= i < r.0 || r.1 <= i < s.len() ==> is_white_space(#[trigger] s[i]),
        trimmed(s).len() > 0 ==> !is_white_space(trimmed(s).first()) && !is_white_space(
            trimmed(s).last(),
        ),
{
    let from = lemma_trim_start(s);
    let t = s.skip(from);
    let to = lemma_trim_end(t);
    assert(t.take(to) =~= s.subrange(from, from + to));
    assert forall|i: int| from + to <= i < s.len() implies is_white_space(#[trigger] s[i]) by {
        assert(t[i - from] == s[i]);
    }
    (from, from + to)
}

proof fn lemma_trim_start(s: Seq<char>) -> (from: int)
    ensures
        0 <= from <= s.len(),
        trim_start(s) == s.skip(from),
        forall|i: int| 0 <= i < from ==> is_white_space(#[trigger] s[i]),
        from < s.len() ==> !is_white_space(s[from]),
    decreases s.len(),
{
    if s.len() > 0 && is_white_space(s.first()) {
        let rest = s.drop_first();
        let from = lemma_trim_start(rest);
        assert(rest.skip(from) =~= s.skip(from + 1));
        assert forall|i: int| 0 <= i < from + 1 implies is_white_space(#[trigger] s[i]) by {
            if i > 0 {
                assert(rest[i - 1] == s[i]);
            }
        }
        from + 1
    } else {
        assert(s.skip(0) =~= s);
        0
    }
}

proof fn lemma_trim_end(s: Seq<char>) -> (to: int)
    ensures
        0 <= to <= s.len(),
        trim_end(s) == s.take(to),
        forall|i: int| to <= i < s.len() ==> is_white_space(#[trigger] s[i]),
        to > 0 ==> !is_white_space(s[to - 1]),
    decreases s.len(),
{
    if s.len() > 0 && is_white_space(s.last()) {
        let rest = s.drop_last();
        let to = lemma_trim_end(rest);
        assert(rest.take(to) =~= s.take(to));
        assert forall|i: int| to <= i < s.len() implies is_white_space(#[trigger] s[i]) by {
            if i < s.len() - 1 {
                assert(rest[i] == s[i]);
            }
        }
        to
    } else {
        assert(s.take(s.len() as int) =~= s);
        s.len() as int
    }
}

/// White space around a text does not change what is left when it is trimmed.
pub proof fn white_space_around_does_not_matter(before: Seq<char>, s: Seq<char>, after: Seq<char>)
    requires
        forall|i: int| 0 <= i < before.len() ==> is_white_space(#[trigger] before[i]),
        forall|i: int| 0 <= i < after.len() ==> is_white_space(#[trigger] after[i]),
    ensures
        trimmed(before + s + after) == trimmed(s),
{
    let t = before + s + after;
    let (a, b) = trimming_cuts_white_space_only(s);
    let (c, d) = trimming_cuts_white_space_only(t);
    let n = before.len() as int;
    assert forall|i: int| 0 <= i < s.len() implies t[n + i] == #[trigger] s[i] by {}
    assert forall|i: int| 0 <= i < n implies t[i] == #[trigger] before[i] by {}
    assert forall|i: int| 0 <= i < after.len() implies t[n + s.len() + i] == #[trigger] after[i] by {}
    assert forall|i: int| 0 <= i < t.len() && !is_white_space(#[trigger] t[i]) implies n <= i < n
        + s.len() && !is_white_space(s[i - n]) by {
        if i < n {
            assert(is_white_space(before[i]));
        } else if i >= n + s.len() {
            assert(is_white_space(after[i - n - s.len()]));
        } else {
            assert(t[n + (i - n)] == s[i - n]);
        }
    }
    if a < b {
        assert(trimmed(s).first() == s[a] && trimmed(s).last() == s[b - 1]);
        assert(!is_white_space(t[n + a]) && !is_white_space(t[n + b - 1]));
        assert(c <= n + a && n + b <= d);
        assert(trimmed(t).first() == t[c] && trimmed(t).last() == t[d - 1]);
        assert(!is_white_space(s[c - n]) && !is_white_space(s[d - 1 - n]));
        assert(c == n + a && d == n + b);
        assert(trimmed(t) =~= trimmed(s));
    } else {
        if c < d {
            assert(trimmed(t).first() == t[c]);
            assert(is_white_space(s[c - n]));
        }
        assert(trimmed(t) =~= trimmed(s));
    }
}

/// No line holds a line feed.
pub proof fn lines_hold_no_line_feed(s: Seq<char>, i: int)
    requires
        0 <= i < lines(s).len(),
    ensures
        !lines(s)[i].contains('\n'),
    decreases s.len(),
{
    if s.contains('\n') {
        let k = s.index_of_first('\n')->0;
        s.index_of_first_ensures('\n');
        if i == 0 {
            let line = without_return(s.take(k));
            assert(lines(s)[0] == line);
            if line.contains('\n') {
                let j = choose|j: int| 0 <= j < line.len() && line[j] == '\n';
                assert(s[j] == '\n');
            }
        } else {
            lines_hold_no_line_feed(s.skip(k + 1), i - 1);
            assert(lines(s)[i] == lines(s.skip(k + 1))[i - 1]);
        }
    }
}

/// There is one first position at most.
pub proof fn occurs_first_once(s: Seq<char>, pattern: Seq<char>, i: int)
    requires
        occurs_first_at(s, pattern, i),
    ensures
        first_occurrence(s, pattern) == Some(i),
{
    let c = choose|c: int| occurs_first_at(s, pattern, c);
    assert(occurs_first_at(s, pattern, c));
    if c < i {
        assert(!occurs_at(s, pattern, c));
    } else if i < c {
        assert(!occurs_at(s, pattern, i));
    }
}

/// A pattern that stands somewhere stands somewhere first.
pub proof fn what_occurs_occurs_first(s: Seq<char>, pattern: Seq<char>, at: int)
    requires
        occurs_at(s, pattern, at),
    ensures
        first_occurrence(s, pattern) is Some,
    decreases at,
{
    if forall|j: int| 0 <= j < at ==> !#[trigger] occurs_at(s, pattern, j) {
        assert(occurs_first_at(s, pattern, at));
    } else {
        let j = choose|j: int| 0 <= j < at && #[trigger] occurs_at(s, pattern, j);
        what_occurs_occurs_first(s, pattern, j);
    }
}

/// A pattern is not found any differently in front of a character that it does not hold.
proof fn lemma_first_occurrence_before(s: Seq<char>, pattern: Seq<char>, c: char)
    requires
        pattern.len() > 0,
        !pattern.contains(c),
    ensures
        first_occurrence(s.push(c), pattern) == first_occurrence(s, pattern),
{
    let t = s.push(c);
    assert forall|i: int| #[trigger] occurs_at(t, pattern, i) == occurs_at(s, pattern, i) by {
        if 0 <= i <= s.len() - pattern.len() {
            assert(t.subrange(i, i + pattern.len()) =~= s.subrange(i, i + pattern.len()));
        } else if occurs_at(t, pattern, i) {
            assert(t.subrange(i, i + pattern.len()).last() == c);
            assert(pattern.last() == c);
        }
    }
    if first_occurrence(s, pattern) is Some {
        let i = choose|i: int| occurs_first_at(s, pattern, i);
        assert(occurs_first_at(s, pattern, i));
        assert(occurs_at(t, pattern, i));
        assert forall|j: int| 0 <= j < i implies !#[trigger] occurs_at(t, pattern, j) by {
            assert(!occurs_at(s, pattern, j));
        }
        occurs_first_once(t, pattern, i);
    } else if first_occurrence(t, pattern) is Some {
        let i = choose|i: int| occurs_first_at(t, pattern, i);
        assert(occurs_at(t, pattern, i));
        what_occurs_occurs_first(s, pattern, i);
    }
}

/// White space at the end of a line does not change what follows a mark on it, once that is
/// trimmed.
pub proof fn a_line_may_end_in_white_space(line: Seq<char>, mark: Seq<char>, c: char)
    requires
        mark.len() > 0,
        !mark.contains(c),
        is_white_space(c),
    ensures
        match (after_mark(line, mark), after_mark(line.push(c), mark)) {
            (Some(a), Some(b)) => trimmed(a) == trimmed(b),
            (None, None) => true,
            _ => false,
        },
{
    lemma_first_occurrence_before(line, mark, c);
    if first_occurrence(line, mark) is Some {
        let i = choose|i: int| occurs_first_at(line, mark, i);
        assert(occurs_first_at(line, mark, i));
        let rest = line.skip(i + mark.len());
        assert(line.push(c).skip(i + mark.len()) =~= rest.push(c));
        lemma_first_occurrence_before(rest, mark, c);
        if first_occurrence(rest, mark) is Some {
            let j = choose|j: int| occurs_first_at(rest, mark, j);
            assert(occurs_first_at(rest, mark, j));
            assert(rest.push(c).take(j) =~= rest.take(j));
        } else {
            assert(seq![] + rest + seq![c] =~= rest.push(c));
            white_space_around_does_not_matter(seq![], rest, seq![c]);
        }
    }
}

/// A text stands where it was put.
pub proof fn a_text_stands_where_it_was_put(
    before: Seq<char>,
    pattern: Seq<char>,
    after: Seq<char>,
)
    ensures
        occurs_at(before + pattern + after, pattern, before.len() as int),
{
    let s = before + pattern + after;
    let n = before.len() as int;
    assert(s.subrange(n, n + pattern.len()) =~= pattern);
}

/// Around the place where a text stands is the rest.
pub proof fn around_a_text_is_the_rest(s: Seq<char>, pattern: Seq<char>, at: int)
    requires
        occurs_at(s, pattern, at),
    ensures
        0 <= at <= s.len() - pattern.len(),
        s == s.take(at) + pattern + s.skip(at + pattern.len()),
{
    let p = s.subrange(at, at + pattern.len());
    assert(s =~= s.take(at) + p + s.skip(at + pattern.len()));
}

/// The first position is one where the text stands, and it stands nowhere before.
pub proof fn the_first_position_has_none_before(s: Seq<char>, pattern: Seq<char>, i: int)
    ensures
        first_occurrence(s, pattern) == Some(i) ==> occurs_at(s, pattern, i) && forall|j: int|
            0 <= j < i ==> !#[trigger] occurs_at(s, pattern, j),
        occurs_at(s, pattern, i) ==> first_occurrence(s, pattern) is Some,
{
    if first_occurrence(s, pattern) is Some {
        let c = choose|c: int| occurs_first_at(s, pattern, c);
        assert(occurs_first_at(s, pattern, c));
    }
    if occurs_at(s, pattern, i) {
        what_occurs_occurs_first(s, pattern, i);
    }
}

/// Where a text stands first, given that it stands nowhere before.
proof fn lemma_stands_first(s: Seq<char>, pattern: Seq<char>, at: int)
    requires
        occurs_at(s, pattern, at),
        forall|j: int| 0 <= j < at ==> !#[trigger] occurs_at(s, pattern, j),
    ensures
        first_occurrence(s, pattern) == Some(at),
{
    occurs_first_once(s, pattern, at);
}

/// After a mark that stands once comes everything up to the end.
pub proof fn after_the_only_mark_comes_the_rest(
    before: Seq<char>,
    mark: Seq<char>,
    rest: Seq<char>,
)
    requires
        forall|at: int| #[trigger] occurs_at(before + mark + rest, mark, at) ==> at == before.len(),
    ensures
        after_mark(before + mark + rest, mark) == Some(rest),
{
    let s = before + mark + rest;
    let n = before.len() as int;
    a_text_stands_where_it_was_put(before, mark, rest);
    lemma_stands_first(s, mark, n);
    assert(s.skip(n + mark.len()) =~= rest);
    if first_occurrence(rest, mark) is Some {
        let j = choose|j: int| occurs_first_at(rest, mark, j);
        assert(occurs_at(rest, mark, j));
        let far = n + mark.len() + j;
        assert(s.subrange(far, far + mark.len()) =~= rest.subrange(j, j + mark.len()));
        assert(occurs_at(s, mark, far));
        assert(mark.len() == 0 && j == 0);
        assert(occurs_at(s, mark, n + 1) || rest.len() == 0) by {
            if rest.len() > 0 {
                assert(s.subrange(n + 1, n + 1) =~= mark);
            }
        }
        assert(rest.take(j) =~= rest);
    }
}

/// After a first mark comes everything up to the next one.
pub proof fn after_the_first_mark_comes_all_up_to_the_next(
    before: Seq<char>,
    mark: Seq<char>,
    between: Seq<char>,
    rest: Seq<char>,
)
    requires
        forall|at: int|
            0 <= at < before.len() ==> !#[trigger] occurs_at(
                before + mark + (between + mark + rest),
                mark,
                at,
            ),
        forall|at: int|
            0 <= at < between.len() ==> !#[trigger] occurs_at(between + mark + rest, mark, at),
    ensures
        after_mark(before + mark + (between + mark + rest), mark) == Some(between),
{
    let tail = between + mark + rest;
    let s = before + mark + tail;
    a_text_stands_where_it_was_put(before, mark, tail);
    a_text_stands_where_it_was_put(between, mark, rest);
    lemma_stands_first(s, mark, before.len() as int);
    lemma_stands_first(tail, mark, between.len() as int);
    assert(s.skip((before.len() + mark.len()) as int) =~= tail);
    assert(tail.take(between.len() as int) =~= between);
}

/// Without a mark nothing comes after it.
pub proof fn without_a_mark_nothing_comes_after_it(s: Seq<char>, mark: Seq<char>)
    requires
        forall|at: int| !#[trigger] occurs_at(s, mark, at),
    ensures
        after_mark(s, mark) is None,
{
    assert forall|at: int| !occurs_first_at(s, mark, at) by {
        assert(!occurs_at(s, mark, at));
    }
}

/// A line goes up to its line feed, without a carriage return before that; what comes after is the
/// next line.
pub proof fn a_line_ends_at_its_line_feed(line: Seq<char>, rest: Seq<char>)
    requires
        !line.contains('\n'),
    ensures
        lines(line + seq!['\r', '\n'] + rest) == seq![line] + lines(rest),
        line.len() == 0 || line.last() != '\r' ==> lines(line + seq!['\n'] + rest) == seq![line]
            + lines(rest),
{
    lemma_line_then_rest(line.push('\r'), rest);
    assert(line.push('\r').drop_last() =~= line);
    assert(line.push('\r') + seq!['\n'] + rest =~= line + seq!['\r', '\n'] + rest);
    lemma_line_then_rest(line, rest);
}

proof fn lemma_line_then_rest(line: Seq<char>, rest: Seq<char>)
    requires
        !line.contains('\n'),
    ensures
        lines(line + seq!['\n'] + rest) == seq![without_return(line)] + lines(rest),
{
    let s = line + seq!['\n'] + rest;
    let n = line.len() as int;
    assert(s[n] == '\n');
    s.index_of_first_ensures('\n');
    let k = s.index_of_first('\n')->0;
    if k < n {
        assert(line[k] == s[k]);
    }
    assert(s.take(n) =~= line);
    assert(s.skip(n + 1) =~= rest);
}

/// A text without a line feed is one line, and an empty text is none.
pub proof fn a_text_without_a_line_feed_is_one_line(s: Seq<char>)
    requires
        !s.contains('\n'),
    ensures
        lines(s) == if s.len() == 0 {
            Seq::<Seq<char>>::empty()
        } else {
            seq![s]
        },
{
}

/// The contents of runs of characters are those of each run, in order.
pub proof fn contents_are_those_of_each_run(runs: Seq<&[char]>)
    ensures
        contents(runs).len() == runs.len(),
        forall|i: int| 0 <= i < runs.len() ==> #[trigger] contents(runs)[i] == runs[i]@,
{
}

} // verus!
