//! Reading what the audio tools print about a recording.
//!
//! The decimal notation of a level is read by the caller's `parse`; everything around it, which
//! lines and which part of them hold a level, is decided here.
use crate::binary::{abs, signed_value, LEAD_32};
use crate::envelope::values;
use crate::level::{
    is_nan_pattern, rank_of_pattern, the_value_of_a_pattern, Level, INFINITE_LEVEL,
};
use crate::text::{
    a_line_may_end_in_white_space, after, after_mark,
    after_the_first_mark_comes_all_up_to_the_next, after_the_only_mark_comes_the_rest, contents,
    first_occurrence, is_white_space, lines, occurs_at, occurs_first_at, same, split_lines,
    to_chars, to_text, trim, trimmed, trimming_cuts_white_space_only, what_occurs_occurs_first,
    white_space_around_does_not_matter, without_a_mark_nothing_comes_after_it, without_return,
};
use vstd::arithmetic::power2::pow2;
use vstd::prelude::*;
use vstd::slice::slice_subrange;

verus! {

/// The level that stands for a window without a finite level: digital silence.
pub const QUIET_DB: i32 = -120;

/// The text of the level on a line of the volume report, as in `max_volume: -41.6 dB`.
pub open spec fn volume_field(line: Seq<char>) -> Option<Seq<char>> {
    match after_mark(line, "max_volume:"@) {
        Some(rest) => {
            let t = trimmed(rest);
            if " dB"@.is_suffix_of(t) {
                Some(trimmed(t.take(t.len() - " dB"@.len())))
            } else {
                None
            }
        },
        None => None,
    }
}

/// The text of the level on a line of the envelope report, as in `RMS_level=-28.8`.
pub open spec fn rms_field(line: Seq<char>) -> Option<Seq<char>> {
    match after_mark(line, "RMS_level="@) {
        Some(rest) => Some(trimmed(rest)),
        None => None,
    }
}

/// The fields of those lines that have one, in order.
pub open spec fn fields_of(
    lines: Seq<Seq<char>>,
    field: spec_fn(Seq<char>) -> Option<Seq<char>>,
) -> Seq<Seq<char>>
    decreases lines.len(),
{
    if lines.len() == 0 {
        seq![]
    } else {
        let earlier = fields_of(lines.drop_last(), field);
        match field(lines.last()) {
            Some(f) => earlier.push(f),
            None => earlier,
        }
    }
}

/// The level texts of a volume report.
pub open spec fn volume_texts(report: Seq<char>) -> Seq<Seq<char>> {
    fields_of(lines(report), |line: Seq<char>| volume_field(line))
}

/// The level texts of an envelope report.
pub open spec fn rms_texts(report: Seq<char>) -> Seq<Seq<char>> {
    fields_of(lines(report), |line: Seq<char>| rms_field(line))
}

/// The characters of each string.
pub open spec fn views(texts: Seq<String>) -> Seq<Seq<char>> {
    texts.map_values(|t: String| t@)
}

/// Whether `parse` may answer `out` for this text.
pub open spec fn parses_to<T, F: Fn(&str) -> Option<T>>(
    parse: F,
    text: Seq<char>,
    out: Option<T>,
) -> bool {
    exists|t: &str| t@ == text && #[trigger] call_ensures(parse, (t,), out)
}

/// Whether `level` stands for a level that was read as `parsed`.
pub open spec fn stands_for(parsed: Option<u32>, level: Level) -> bool {
    match parsed {
        Some(bits) if !is_nan_pattern(bits) && abs(rank_of_pattern(bits)) < INFINITE_LEVEL => {
            level.rank() == rank_of_pattern(bits)
        },
        _ => level.value() == QUIET_DB * crate::level::decibel(),
    }
}

/// Whether `parse` reads every text as `read` says.
pub open spec fn reads_by<T, F: Fn(&str) -> Option<T>>(
    parse: F,
    read: spec_fn(Seq<char>) -> Option<T>,
) -> bool {
    forall|t: &str, out: Option<T>| #[trigger] call_ensures(parse, (t,), out) ==> out == read(t@)
}

/// What the first text that can be read says.
pub open spec fn first_of<T>(
    texts: Seq<Seq<char>>,
    read: spec_fn(Seq<char>) -> Option<T>,
) -> Option<T>
    decreases texts.len(),
{
    if texts.len() == 0 {
        None
    } else {
        match read(texts.first()) {
            Some(x) => Some(x),
            None => first_of(texts.drop_first(), read),
        }
    }
}

/// The value of the level that a window stands for: what was read, where that is a finite level,
/// and digital silence otherwise.
pub open spec fn window_value(parsed: Option<u32>) -> int {
    match parsed {
        Some(bits) if !is_nan_pattern(bits) && abs(rank_of_pattern(bits)) < INFINITE_LEVEL => {
            signed_value(LEAD_32 as nat, rank_of_pattern(bits))
        },
        _ => QUIET_DB * crate::level::decibel(),
    }
}

/// The values of the windows that these texts give.
pub open spec fn window_values(
    texts: Seq<Seq<char>>,
    read: spec_fn(Seq<char>) -> Option<u32>,
) -> Seq<int> {
    texts.map_values(|t: Seq<char>| window_value(read(t)))
}

/// Whether the `i`-th text is the first that `parse` reads, and `x` what it reads there.
pub open spec fn first_read<T, F: Fn(&str) -> Option<T>>(
    parse: F,
    texts: Seq<Seq<char>>,
    i: int,
    x: T,
) -> bool {
    &&& 0 <= i < texts.len()
    &&& parses_to(parse, texts[i], Some(x))
    &&& forall|j: int| 0 <= j < i ==> parses_to(parse, #[trigger] texts[j], None)
}

/// Whether `level` stands for something that `parse` may read in this text.
pub open spec fn reads_as<F: Fn(&str) -> Option<u32>>(
    parse: F,
    text: Seq<char>,
    level: Level,
) -> bool {
    exists|out: Option<u32>| #[trigger] parses_to(parse, text, out) && stands_for(out, level)
}

/// The text of the level on a line of the volume report.
fn volume_text<'a>(line: &'a [char], mark: &[char], unit: &[char]) -> (r: Option<&'a [char]>)
    requires
        mark@ == "max_volume:"@,
        unit@ == " dB"@,
    ensures
        r matches Some(t) ==> volume_field(line@) == Some(t@),
        r is None ==> volume_field(line@) is None,
{
    match after(line, mark) {
        Some(rest) => {
            let t: &[char] = trim(rest);
            if t.len() < unit.len() {
                return None;
            }
            let cut: usize = t.len() - unit.len();
            assert(t@.subrange(0, cut as int) =~= t@.take(cut as int));
            if same(slice_subrange(t, cut, t.len()), unit) {
                Some(trim(slice_subrange(t, 0, cut)))
            } else {
                None
            }
        },
        None => None,
    }
}

/// The level texts of a volume report, one for each line that holds one.
pub fn volume_fields(report: &str) -> (r: Vec<String>)
    ensures
        views(r@) == volume_texts(report@),
{
    let chars: Vec<char> = to_chars(report);
    let all: Vec<&[char]> = split_lines(chars.as_slice());
    let mark: Vec<char> = to_chars("max_volume:");
    let unit: Vec<char> = to_chars(" dB");
    let ghost ls = contents(all@);
    let ghost field = |line: Seq<char>| volume_field(line);
    let mut r: Vec<String> = Vec::new();
    let mut i: usize = 0;
    assert(views(r@) =~= fields_of(ls.take(0), field));
    while i < all.len()
        invariant
            i <= all@.len(),
            ls == contents(all@),
            field == (|line: Seq<char>| volume_field(line)),
            mark@ == "max_volume:"@,
            unit@ == " dB"@,
            views(r@) == fields_of(ls.take(i as int), field),
        decreases all@.len() - i,
    {
        let ghost before = views(r@);
        assert(ls[i as int] == all@[i as int]@);
        assert(ls.take(i + 1).drop_last() =~= ls.take(i as int));
        match volume_text(all[i], mark.as_slice(), unit.as_slice()) {
            Some(t) => {
                r.push(to_text(t));
                assert(views(r@) =~= before.push(t@));
            },
            None => {},
        }
        i = i + 1;
    }
    assert(ls.take(i as int) =~= ls);
    r
}

/// The level texts of an envelope report, one for each line that holds one.
pub fn rms_fields(report: &str) -> (r: Vec<String>)
    ensures
        views(r@) == rms_texts(report@),
{
    let chars: Vec<char> = to_chars(report);
    let all: Vec<&[char]> = split_lines(chars.as_slice());
    let mark: Vec<char> = to_chars("RMS_level=");
    let ghost ls = contents(all@);
    let ghost field = |line: Seq<char>| rms_field(line);
    let mut r: Vec<String> = Vec::new();
    let mut i: usize = 0;
    assert(views(r@) =~= fields_of(ls.take(0), field));
    while i < all.len()
        invariant
            i <= all@.len(),
            ls == contents(all@),
            field == (|line: Seq<char>| rms_field(line)),
            mark@ == "RMS_level="@,
            views(r@) == fields_of(ls.take(i as int), field),
        decreases all@.len() - i,
    {
        let ghost before = views(r@);
        assert(ls[i as int] == all@[i as int]@);
        assert(ls.take(i + 1).drop_last() =~= ls.take(i as int));
        match after(all[i], mark.as_slice()) {
            Some(rest) => {
                let t: &[char] = trim(rest);
                r.push(to_text(t));
                assert(views(r@) =~= before.push(t@));
            },
            None => {},
        }
        i = i + 1;
    }
    assert(ls.take(i as int) =~= ls);
    r
}

/// The peak in a volume report: the first level text that `parse` can read.
///
/// `None` when nothing can be read. The caller must treat that as "unknown", never as "silent".
pub fn parse_max_volume<T, F: Fn(&str) -> Option<T>>(report: &str, parse: F) -> (r: Option<T>)
    requires
        forall|t: &str| #[trigger] call_requires(parse, (t,)),
    ensures
        r matches Some(x) ==> exists|i: int| first_read(parse, volume_texts(report@), i, x),
        r is None ==> forall|j: int|
            0 <= j < volume_texts(report@).len() ==> parses_to(
                parse,
                #[trigger] volume_texts(report@)[j],
                None,
            ),
        forall|read: spec_fn(Seq<char>) -> Option<T>| #[trigger]
            reads_by(parse, read) ==> r == first_of(volume_texts(report@), read),
{
    let texts: Vec<String> = volume_fields(report);
    let ghost vs = volume_texts(report@);
    let mut i: usize = 0;
    assert(vs.skip(0) =~= vs);
    while i < texts.len()
        invariant
            i <= texts@.len(),
            vs == volume_texts(report@),
            views(texts@) == vs,
            forall|t: &str| #[trigger] call_requires(parse, (t,)),
            forall|j: int| 0 <= j < i ==> parses_to(parse, #[trigger] vs[j], None),
            forall|read: spec_fn(Seq<char>) -> Option<T>| #[trigger]
                reads_by(parse, read) ==> first_of(vs, read) == first_of(vs.skip(i as int), read),
        decreases texts@.len() - i,
    {
        assert(vs.skip(i as int).drop_first() =~= vs.skip(i + 1));
        let text: &str = texts[i].as_str();
        let out: Option<T> = parse(text);
        assert(text@ == vs[i as int]);
        assert(parses_to(parse, vs[i as int], out));
        match out {
            Some(x) => {
                assert(first_read(parse, vs, i as int, x));
                return Some(x);
            },
            None => {},
        }
        i = i + 1;
    }
    None
}

/// The level a parsed envelope field stands for. A window without a finite level is digital
/// silence, and is kept as a very low level so that it reads as quiet.
pub fn envelope_level(parsed: Option<u32>) -> (r: Level)
    ensures
        stands_for(parsed, r),
        r.value() == window_value(parsed),
        abs(r.rank()) < INFINITE_LEVEL,
{
    match parsed {
        Some(bits) => match Level::from_bits(bits) {
            Some(level) => if level.is_finite() {
                level
            } else {
                Level::of_db(QUIET_DB)
            },
            None => Level::of_db(QUIET_DB),
        },
        None => Level::of_db(QUIET_DB),
    }
}

/// The levels in an envelope report, one for each line that holds one.
///
/// `parse` gives the bit pattern of the level that a text spells.
pub fn parse_rms_levels<F: Fn(&str) -> Option<u32>>(report: &str, parse: F) -> (r: Vec<Level>)
    requires
        forall|t: &str| #[trigger] call_requires(parse, (t,)),
    ensures
        r@.len() == rms_texts(report@).len(),
        forall|i: int|
            0 <= i < r@.len() ==> reads_as(parse, rms_texts(report@)[i], #[trigger] r@[i]),
        forall|i: int| 0 <= i < r@.len() ==> abs((#[trigger] r@[i]).rank()) < INFINITE_LEVEL,
        forall|read: spec_fn(Seq<char>) -> Option<u32>| #[trigger]
            reads_by(parse, read) ==> values(r@) == window_values(rms_texts(report@), read),
{
    let texts: Vec<String> = rms_fields(report);
    let ghost vs = rms_texts(report@);
    let mut r: Vec<Level> = Vec::new();
    let mut i: usize = 0;
    while i < texts.len()
        invariant
            i <= texts@.len(),
            r@.len() == i,
            vs == rms_texts(report@),
            views(texts@) == vs,
            forall|t: &str| #[trigger] call_requires(parse, (t,)),
            forall|j: int| 0 <= j < i ==> reads_as(parse, vs[j], #[trigger] r@[j]),
            forall|j: int| 0 <= j < i ==> abs((#[trigger] r@[j]).rank()) < INFINITE_LEVEL,
            forall|read: spec_fn(Seq<char>) -> Option<u32>, j: int|
                reads_by(parse, read) && 0 <= j < i ==> #[trigger] r@[j].value() == window_value(
                    #[trigger] read(vs[j]),
                ),
        decreases texts@.len() - i,
    {
        let text: &str = texts[i].as_str();
        let out: Option<u32> = parse(text);
        assert(text@ == vs[i as int]);
        assert(parses_to(parse, vs[i as int], out));
        let level: Level = envelope_level(out);
        assert(reads_as(parse, vs[i as int], level));
        r.push(level);
        i = i + 1;
    }
    proof {
        assert forall|read: spec_fn(Seq<char>) -> Option<u32>| #[trigger]
            reads_by(parse, read) implies values(r@) == window_values(vs, read) by {
            assert forall|j: int| 0 <= j < vs.len() implies values(r@)[j] == #[trigger]
            window_values(vs, read)[j] by {
                assert(r@[j].value() == window_value(read(vs[j])));
            }
            assert(values(r@) =~= window_values(vs, read));
        }
    }
    r
}

/// A report in which no line has the peak's mark says nothing of the peak, whatever else it says.
pub proof fn without_its_mark_there_is_no_peak(report: Seq<char>)
    requires
        forall|i: int, at: int|
            0 <= i < lines(report).len() ==> !#[trigger] occurs_at(
                lines(report)[i],
                "max_volume:"@,
                at,
            ),
    ensures
        volume_texts(report).len() == 0,
{
    let ls = lines(report);
    let field = |line: Seq<char>| volume_field(line);
    assert forall|i: int| 0 <= i < ls.len() implies field(#[trigger] ls[i]) is None by {
        assert(first_occurrence(ls[i], "max_volume:"@) is None) by {
            assert forall|at: int| !occurs_first_at(ls[i], "max_volume:"@, at) by {
                assert(!occurs_at(ls[i], "max_volume:"@, at));
            }
        }
    }
    lemma_no_fields(ls, field);
}

proof fn lemma_no_fields(ls: Seq<Seq<char>>, field: spec_fn(Seq<char>) -> Option<Seq<char>>)
    requires
        forall|i: int| 0 <= i < ls.len() ==> field(#[trigger] ls[i]) is None,
    ensures
        fields_of(ls, field).len() == 0,
    decreases ls.len(),
{
    if ls.len() > 0 {
        assert(field(ls[ls.len() - 1]) is None);
        let shorter = ls.drop_last();
        assert forall|i: int| 0 <= i < shorter.len() implies field(#[trigger] shorter[i]) is None by {
            assert(shorter[i] == ls[i]);
        }
        lemma_no_fields(shorter, field);
    }
}

/// A field that an empty line does not have, and that a carriage return at the end of a line does
/// not change.
spec fn is_field(field: spec_fn(Seq<char>) -> Option<Seq<char>>) -> bool {
    &&& field(seq![]) is None
    &&& forall|line: Seq<char>| field(#[trigger] line.push('\r')) == field(line)
}

/// The fields of the lines of a text.
spec fn texts_of(s: Seq<char>, field: spec_fn(Seq<char>) -> Option<Seq<char>>) -> Seq<Seq<char>> {
    fields_of(lines(s), field)
}

/// The fields of two runs of lines are those of the first, then those of the second.
pub proof fn fields_of_joined_lines(
    a: Seq<Seq<char>>,
    b: Seq<Seq<char>>,
    field: spec_fn(Seq<char>) -> Option<Seq<char>>,
)
    ensures
        fields_of(a + b, field) == fields_of(a, field) + fields_of(b, field),
    decreases b.len(),
{
    if b.len() == 0 {
        assert(a + b =~= a);
        assert(fields_of(a, field) + fields_of(b, field) =~= fields_of(a, field));
    } else {
        assert((a + b).drop_last() =~= a + b.drop_last());
        fields_of_joined_lines(a, b.drop_last(), field);
        assert(fields_of(a + b, field) =~= fields_of(a, field) + fields_of(b, field));
    }
}

/// The fields of one line.
proof fn lemma_one_line(line: Seq<char>, field: spec_fn(Seq<char>) -> Option<Seq<char>>)
    ensures
        fields_of(seq![line], field) == match field(line) {
            Some(f) => seq![f],
            None => seq![],
        },
{
    let all = seq![line];
    assert(all.drop_last() =~= seq![]);
    assert(fields_of(all.drop_last(), field) =~= seq![]);
    assert(all.last() == line);
    assert(fields_of(all, field) =~= match field(line) {
        Some(f) => seq![f],
        None => seq![],
    });
}

/// A text that ends inside a line goes on in the next line after a line feed: the fields of the
/// two texts are those of the first, then those of the second.
proof fn lemma_joined_texts(
    a: Seq<char>,
    b: Seq<char>,
    field: spec_fn(Seq<char>) -> Option<Seq<char>>,
)
    requires
        is_field(field),
    ensures
        texts_of(a + seq!['\n'] + b, field) == texts_of(a, field) + texts_of(b, field),
    decreases a.len(),
{
    let s = a + seq!['\n'] + b;
    assert(s[a.len() as int] == '\n');
    s.index_of_first_ensures('\n');
    a.index_of_first_ensures('\n');
    let k = s.index_of_first('\n')->0;
    if a.contains('\n') {
        let i = a.index_of_first('\n')->0;
        assert(s[i] == a[i]);
        if k < i {
            assert(s[k] == a[k]);
        }
        assert(k == i);
        let line = without_return(a.take(k));
        let rest = a.skip(k + 1);
        assert(s.take(k) =~= a.take(k));
        assert(s.skip(k + 1) =~= rest + seq!['\n'] + b);
        lemma_joined_texts(rest, b, field);
        fields_of_joined_lines(seq![line], lines(s.skip(k + 1)), field);
        fields_of_joined_lines(seq![line], lines(rest), field);
        assert(texts_of(s, field) =~= texts_of(a, field) + texts_of(b, field));
    } else {
        if k < a.len() {
            assert(s[k] == a[k]);
        }
        assert(k == a.len());
        assert(s.take(k) =~= a);
        assert(s.skip(k + 1) =~= b);
        let line = without_return(a);
        fields_of_joined_lines(seq![line], lines(b), field);
        lemma_one_line(line, field);
        lemma_one_line(a, field);
        if a.len() == 0 {
            assert(a =~= seq![]);
        } else if a.last() == '\r' {
            assert(line.push('\r') =~= a);
        }
        assert(texts_of(s, field) =~= texts_of(a, field) + texts_of(b, field));
    }
}

proof fn lemma_marks()
    ensures
        "max_volume:"@.len() == 11,
        "RMS_level="@.len() == 10,
        !"max_volume:"@.contains('\r'),
        !"RMS_level="@.contains('\r'),
{
    reveal_strlit("max_volume:");
    reveal_strlit("RMS_level=");
}

proof fn lemma_no_mark_in_nothing(mark: Seq<char>)
    requires
        mark.len() > 0,
    ensures
        after_mark(seq![], mark) is None,
{
    assert forall|at: int| !occurs_first_at(seq![], mark, at) by {}
}

proof fn lemma_volume_field_is_field()
    ensures
        is_field(|line: Seq<char>| volume_field(line)),
{
    lemma_marks();
    lemma_no_mark_in_nothing("max_volume:"@);
    assert forall|line: Seq<char>| volume_field(#[trigger] line.push('\r')) == volume_field(
        line,
    ) by {
        a_line_may_end_in_white_space(line, "max_volume:"@, '\r');
    }
}

proof fn lemma_rms_field_is_field()
    ensures
        is_field(|line: Seq<char>| rms_field(line)),
{
    lemma_marks();
    lemma_no_mark_in_nothing("RMS_level="@);
    assert forall|line: Seq<char>| rms_field(#[trigger] line.push('\r')) == rms_field(line) by {
        a_line_may_end_in_white_space(line, "RMS_level="@, '\r');
    }
}

proof fn lemma_line_feed()
    ensures
        "\n"@ == seq!['\n'],
{
    reveal_strlit("\n");
    assert("\n"@ =~= seq!['\n']);
}

/// The level texts of two volume reports, one after the other, are those of the first, then those
/// of the second.
pub proof fn joined_volume_reports(a: Seq<char>, b: Seq<char>)
    ensures
        volume_texts(a + "\n"@ + b) == volume_texts(a) + volume_texts(b),
{
    lemma_line_feed();
    lemma_volume_field_is_field();
    lemma_joined_texts(a, b, |line: Seq<char>| volume_field(line));
}

/// The level texts of two envelope reports, one after the other, are those of the first, then
/// those of the second.
pub proof fn joined_envelope_reports(a: Seq<char>, b: Seq<char>)
    ensures
        rms_texts(a + "\n"@ + b) == rms_texts(a) + rms_texts(b),
{
    lemma_line_feed();
    lemma_rms_field_is_field();
    lemma_joined_texts(a, b, |line: Seq<char>| rms_field(line));
}

/// The windows of two envelope reports, one after the other, are those of the first, then those of
/// the second, whatever the texts are read as.
pub proof fn windows_of_joined_reports(
    a: Seq<char>,
    b: Seq<char>,
    read: spec_fn(Seq<char>) -> Option<u32>,
)
    ensures
        window_values(rms_texts(a + "\n"@ + b), read) == window_values(rms_texts(a), read)
            + window_values(rms_texts(b), read),
{
    joined_envelope_reports(a, b);
    assert(window_values(rms_texts(a) + rms_texts(b), read) =~= window_values(rms_texts(a), read)
        + window_values(rms_texts(b), read));
}

/// What the first readable text of two runs says is what the first run says, or else the second.
proof fn lemma_first_of_joined<T>(
    a: Seq<Seq<char>>,
    b: Seq<Seq<char>>,
    read: spec_fn(Seq<char>) -> Option<T>,
)
    ensures
        first_of(a + b, read) == match first_of(a, read) {
            Some(x) => Some(x),
            None => first_of(b, read),
        },
    decreases a.len(),
{
    if a.len() == 0 {
        assert(a + b =~= b);
    } else {
        assert((a + b).drop_first() =~= a.drop_first() + b);
        assert((a + b).first() == a.first());
        lemma_first_of_joined(a.drop_first(), b, read);
    }
}

/// The first readable peak wins: the peak of two volume reports, one after the other, is that of
/// the first, or else that of the second.
pub proof fn the_first_readable_peak_wins<T>(
    a: Seq<char>,
    b: Seq<char>,
    read: spec_fn(Seq<char>) -> Option<T>,
)
    ensures
        first_of(volume_texts(a + "\n"@ + b), read) == match first_of(volume_texts(a), read) {
            Some(x) => Some(x),
            None => first_of(volume_texts(b), read),
        },
{
    joined_volume_reports(a, b);
    lemma_first_of_joined(volume_texts(a), volume_texts(b), read);
}

/// A line without a readable peak is skipped, and the search goes on: one without the mark,
/// without the unit at its end, or with something else than a level between them.
pub proof fn a_line_without_a_readable_peak_is_skipped<T>(
    a: Seq<char>,
    line: Seq<char>,
    b: Seq<char>,
    read: spec_fn(Seq<char>) -> Option<T>,
)
    requires
        !line.contains('\n'),
        volume_field(line) matches Some(text) ==> read(text) is None,
    ensures
        first_of(volume_texts(a + "\n"@ + line + "\n"@ + b), read) == first_of(
            volume_texts(a + "\n"@ + b),
            read,
        ),
{
    let field = |l: Seq<char>| volume_field(l);
    if line.len() > 0 {
        assert(lines(line) =~= seq![line]);
        lemma_one_line(line, field);
        if volume_field(line) is Some {
            let texts = volume_texts(line);
            assert(texts.drop_first() =~= seq![]);
            assert(first_of(texts.drop_first(), read) is None);
        }
    }
    assert(first_of(volume_texts(line), read) is None);
    the_first_readable_peak_wins(a + "\n"@ + line, b, read);
    the_first_readable_peak_wins(a, line, read);
    the_first_readable_peak_wins(a, b, read);
}

/// Whether a line of the envelope report has the mark of a level.
pub open spec fn is_marked(line: Seq<char>) -> bool {
    exists|at: int| #[trigger] occurs_at(line, "RMS_level="@, at)
}

/// No window is dropped: an envelope report gives as many levels as it has marked lines.
pub proof fn no_window_is_dropped(report: Seq<char>)
    ensures
        rms_texts(report).len() == lines(report).filter(|line: Seq<char>| is_marked(line)).len(),
{
    lemma_marked_lines(lines(report));
}

proof fn lemma_marked_lines(ls: Seq<Seq<char>>)
    ensures
        fields_of(ls, |line: Seq<char>| rms_field(line)).len() == ls.filter(
            |line: Seq<char>| is_marked(line),
        ).len(),
    decreases ls.len(),
{
    reveal(Seq::filter);
    if ls.len() > 0 {
        lemma_marked_lines(ls.drop_last());
        let line = ls.last();
        if is_marked(line) {
            let at = choose|at: int| #[trigger] occurs_at(line, "RMS_level="@, at);
            what_occurs_occurs_first(line, "RMS_level="@, at);
        } else if first_occurrence(line, "RMS_level="@) is Some {
            let at = choose|at: int| occurs_first_at(line, "RMS_level="@, at);
            assert(occurs_at(line, "RMS_level="@, at));
        }
        assert(rms_field(line) is Some <==> is_marked(line));
    }
}

/// The characters of strings are those of each string, in order.
pub proof fn views_are_those_of_each_string(texts: Seq<String>)
    ensures
        views(texts).len() == texts.len(),
        forall|i: int| 0 <= i < texts.len() ==> #[trigger] views(texts)[i] == texts[i]@,
{
}

/// What an envelope line gives, for what follows its mark.
proof fn lemma_envelope_line(line: Seq<char>, rest: Option<Seq<char>>)
    requires
        !line.contains('\n'),
        line.len() > 0,
        after_mark(line, "RMS_level="@) == rest,
    ensures
        rms_texts(line) == match rest {
            Some(t) => seq![trimmed(t)],
            None => seq![],
        },
{
    assert(lines(line) =~= seq![line]);
    lemma_one_line(line, |l: Seq<char>| rms_field(l));
}

/// A line of an envelope report whose mark stands once gives everything that follows the mark, but
/// for white space before and after it: `r` tells which part.
pub proof fn an_envelope_line_gives_all_that_follows_its_mark(
    prefix: Seq<char>,
    text: Seq<char>,
) -> (r: (int, int))
    requires
        !(prefix + "RMS_level="@ + text).contains('\n'),
        forall|at: int| #[trigger]
            occurs_at(prefix + "RMS_level="@ + text, "RMS_level="@, at) ==> at == prefix.len(),
    ensures
        0 <= r.0 <= r.1 <= text.len(),
        rms_texts(prefix + "RMS_level="@ + text) == seq![text.subrange(r.0, r.1)],
        forall|i: int|
            0 <= i < r.0 || r.1 <= i < text.len() ==> is_white_space(#[trigger] text[i]),
        r.0 < r.1 ==> !is_white_space(text[r.0]) && !is_white_space(text[r.1 - 1]),
{
    lemma_marks();
    after_the_only_mark_comes_the_rest(prefix, "RMS_level="@, text);
    lemma_envelope_line(prefix + "RMS_level="@ + text, Some(text));
    let r = trimming_cuts_white_space_only(text);
    if r.0 < r.1 {
        assert(trimmed(text).first() == text[r.0]);
        assert(trimmed(text).last() == text[r.1 - 1]);
    }
    r
}

/// A level text of an envelope report that has nothing around it but white space is given as it
/// is.
pub proof fn an_envelope_level_is_given_as_it_is(
    prefix: Seq<char>,
    before: Seq<char>,
    text: Seq<char>,
    after: Seq<char>,
)
    requires
        ({
            let line = prefix + "RMS_level="@ + (before + text + after);
            &&& !line.contains('\n')
            &&& forall|at: int| #[trigger]
                occurs_at(line, "RMS_level="@, at) ==> at == prefix.len()
        }),
        forall|i: int| 0 <= i < before.len() ==> is_white_space(#[trigger] before[i]),
        forall|i: int| 0 <= i < after.len() ==> is_white_space(#[trigger] after[i]),
        text.len() > 0 ==> !is_white_space(text.first()) && !is_white_space(text.last()),
    ensures
        rms_texts(prefix + "RMS_level="@ + (before + text + after)) == seq![text],
{
    let rest = before + text + after;
    lemma_marks();
    after_the_only_mark_comes_the_rest(prefix, "RMS_level="@, rest);
    lemma_envelope_line(prefix + "RMS_level="@ + rest, Some(rest));
    white_space_around_does_not_matter(before, text, after);
    lemma_nothing_to_trim(text);
}

proof fn lemma_nothing_to_trim(text: Seq<char>)
    requires
        text.len() > 0 ==> !is_white_space(text.first()) && !is_white_space(text.last()),
    ensures
        trimmed(text) == text,
{
}

/// On a line with several marks, only what stands between the first two counts.
pub proof fn only_the_first_envelope_level_of_a_line_counts(
    prefix: Seq<char>,
    text: Seq<char>,
    rest: Seq<char>,
)
    requires
        ({
            let tail = text + "RMS_level="@ + rest;
            let line = prefix + "RMS_level="@ + tail;
            &&& !line.contains('\n')
            &&& forall|at: int|
                0 <= at < prefix.len() ==> !#[trigger] occurs_at(line, "RMS_level="@, at)
            &&& forall|at: int|
                0 <= at < text.len() ==> !#[trigger] occurs_at(tail, "RMS_level="@, at)
        }),
    ensures
        rms_texts(prefix + "RMS_level="@ + (text + "RMS_level="@ + rest)) == seq![trimmed(text)],
{
    lemma_marks();
    after_the_first_mark_comes_all_up_to_the_next(prefix, "RMS_level="@, text, rest);
    lemma_envelope_line(prefix + "RMS_level="@ + (text + "RMS_level="@ + rest), Some(text));
}

/// A line without the mark gives no level.
pub proof fn a_line_without_the_mark_gives_no_level(line: Seq<char>)
    requires
        !line.contains('\n'),
        forall|at: int| !#[trigger] occurs_at(line, "RMS_level="@, at),
    ensures
        rms_texts(line).len() == 0,
{
    without_a_mark_nothing_comes_after_it(line, "RMS_level="@);
    if line.len() > 0 {
        lemma_envelope_line(line, None);
    }
}

/// What a volume line gives, for what follows its mark.
proof fn lemma_volume_line(line: Seq<char>, rest: Seq<char>)
    requires
        !line.contains('\n'),
        line.len() > 0,
        after_mark(line, "max_volume:"@) == Some(rest),
    ensures
        forall|body: Seq<char>|
            trimmed(rest) == #[trigger] (body + " dB"@) ==> volume_texts(line) == seq![trimmed(
                body,
            )],
        (forall|body: Seq<char>| trimmed(rest) != #[trigger] (body + " dB"@)) ==> volume_texts(
            line,
        ).len() == 0,
{
    assert(lines(line) =~= seq![line]);
    lemma_one_line(line, |l: Seq<char>| volume_field(l));
    let t = trimmed(rest);
    let n = " dB"@.len();
    assert forall|body: Seq<char>| t == #[trigger] (body + " dB"@) implies volume_texts(line)
        == seq![trimmed(body)] by {
        assert(t.skip(t.len() - n) =~= " dB"@);
        assert(t.take(t.len() - n) =~= body);
    }
    if " dB"@.is_suffix_of(t) {
        assert(t =~= t.take(t.len() - n) + " dB"@);
    }
}

/// A line of a volume report whose mark stands once gives everything between the mark and the unit
/// at its end, but for white space before and after it.
pub proof fn a_volume_line_gives_all_up_to_its_unit(
    prefix: Seq<char>,
    before: Seq<char>,
    text: Seq<char>,
    gap: Seq<char>,
    after: Seq<char>,
)
    requires
        ({
            let line = prefix + "max_volume:"@ + (before + (text + gap + " dB"@) + after);
            &&& !line.contains('\n')
            &&& forall|at: int| #[trigger]
                occurs_at(line, "max_volume:"@, at) ==> at == prefix.len()
        }),
        forall|i: int| 0 <= i < before.len() ==> is_white_space(#[trigger] before[i]),
        forall|i: int| 0 <= i < gap.len() ==> is_white_space(#[trigger] gap[i]),
        forall|i: int| 0 <= i < after.len() ==> is_white_space(#[trigger] after[i]),
        text.len() > 0,
        !is_white_space(text.first()),
        !is_white_space(text.last()),
    ensures
        volume_texts(prefix + "max_volume:"@ + (before + (text + gap + " dB"@) + after))
            == seq![text],
{
    let core = text + gap + " dB"@;
    let rest = before + core + after;
    lemma_marks();
    reveal_strlit(" dB");
    after_the_only_mark_comes_the_rest(prefix, "max_volume:"@, rest);
    white_space_around_does_not_matter(before, core, after);
    assert(core.first() == text.first());
    assert(core.last() == 'B');
    lemma_nothing_to_trim(core);
    lemma_volume_line(prefix + "max_volume:"@ + rest, rest);
    let body = text + gap;
    assert(core == body + " dB"@);
    assert(seq![] + text + gap =~= body);
    white_space_around_does_not_matter(seq![], text, gap);
    lemma_nothing_to_trim(text);
}

/// A line of a volume report that does not end in the unit gives nothing.
pub proof fn a_volume_line_without_its_unit_gives_nothing(prefix: Seq<char>, text: Seq<char>)
    requires
        !(prefix + "max_volume:"@ + text).contains('\n'),
        forall|at: int| #[trigger]
            occurs_at(prefix + "max_volume:"@ + text, "max_volume:"@, at) ==> at == prefix.len(),
        forall|body: Seq<char>| trimmed(text) != #[trigger] (body + " dB"@),
    ensures
        volume_texts(prefix + "max_volume:"@ + text).len() == 0,
{
    lemma_marks();
    after_the_only_mark_comes_the_rest(prefix, "max_volume:"@, text);
    lemma_volume_line(prefix + "max_volume:"@ + text, text);
}

/// On a line with several marks, only what stands between the first two counts.
pub proof fn only_the_first_peak_of_a_line_counts(
    prefix: Seq<char>,
    text: Seq<char>,
    body: Seq<char>,
    rest: Seq<char>,
)
    requires
        ({
            let tail = text + "max_volume:"@ + rest;
            let line = prefix + "max_volume:"@ + tail;
            &&& !line.contains('\n')
            &&& forall|at: int|
                0 <= at < prefix.len() ==> !#[trigger] occurs_at(line, "max_volume:"@, at)
            &&& forall|at: int|
                0 <= at < text.len() ==> !#[trigger] occurs_at(tail, "max_volume:"@, at)
        }),
        trimmed(text) == body + " dB"@,
    ensures
        volume_texts(prefix + "max_volume:"@ + (text + "max_volume:"@ + rest)) == seq![
            trimmed(body),
        ],
{
    lemma_marks();
    after_the_first_mark_comes_all_up_to_the_next(prefix, "max_volume:"@, text, rest);
    lemma_volume_line(prefix + "max_volume:"@ + (text + "max_volume:"@ + rest), text);
}

/// The first text that can be read is the one that counts.
pub proof fn the_first_text_that_can_be_read_counts<T>(
    texts: Seq<Seq<char>>,
    read: spec_fn(Seq<char>) -> Option<T>,
    i: int,
)
    requires
        0 <= i <= texts.len(),
        forall|j: int| 0 <= j < i ==> read(#[trigger] texts[j]) is None,
    ensures
        i == texts.len() ==> first_of(texts, read) is None,
        i < texts.len() && read(texts[i]) is Some ==> first_of(texts, read) == read(texts[i]),
    decreases texts.len(),
{
    if i > 0 {
        assert(read(texts[0]) is None);
        let later = texts.drop_first();
        assert forall|j: int| 0 <= j < i - 1 implies read(#[trigger] later[j]) is None by {
            assert(later[j] == texts[j + 1]);
        }
        the_first_text_that_can_be_read_counts(later, read, i - 1);
    }
}

/// A reader is known by its answers.
pub proof fn a_reader_is_known_by_its_answers<T, F: Fn(&str) -> Option<T>>(
    parse: F,
    read: spec_fn(Seq<char>) -> Option<T>,
)
    requires
        forall|t: &str, out: Option<T>| #[trigger]
            call_ensures(parse, (t,), out) ==> out == read(t@),
    ensures
        reads_by(parse, read),
{
}

/// A window has the level that was read, and is as quiet as -120 decibels where no finite level was
/// read.
pub proof fn a_window_has_the_level_that_was_read(bits: u32)
    ensures
        (bits / 0x80_0000) % 0x100 != 0xff ==> window_value(Some(bits)) == signed_value(
            0x80_0000,
            rank_of_pattern(bits),
        ),
        (bits / 0x80_0000) % 0x100 == 0xff ==> window_value(Some(bits)) == -120 * pow2(149),
        window_value(None) == -120 * pow2(149),
{
    let exponent = ((bits / 0x80_0000) % 0x100) as nat;
    the_value_of_a_pattern(bits, exponent, (bits % 0x80_0000) as nat);
}

/// A level that stands for what was read has its value.
pub proof fn a_level_that_stands_for_a_window_has_its_value(parsed: Option<u32>, level: Level)
    requires
        stands_for(parsed, level),
    ensures
        level.value() == window_value(parsed),
{
}

/// The values of windows are those of each text, in order.
pub proof fn window_values_are_those_of_each_text(
    texts: Seq<Seq<char>>,
    read: spec_fn(Seq<char>) -> Option<u32>,
)
    ensures
        window_values(texts, read).len() == texts.len(),
        forall|i: int|
            0 <= i < texts.len() ==> #[trigger] window_values(texts, read)[i] == window_value(
                read(texts[i]),
            ),
{
}

} // verus!
