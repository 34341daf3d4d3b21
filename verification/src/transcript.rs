//! Transcripts, and telling a looped one from speech.
use crate::text::{same, to_chars, to_text, trim, trimmed};
use vstd::prelude::*;

verus! {

/// What a transcription produced.
#[derive(Debug, Clone)]
pub struct Transcript {
    pub processing_time_sec: u64,
    pub segments: Vec<Segment>,
}

/// One line of a transcript, with its place in the recording in centiseconds.
#[derive(Debug, Clone)]
pub struct Segment {
    pub start: i64,
    pub stop: i64,
    pub text: String,
    pub speaker: Option<i32>,
}

/// Shortest transcript worth judging. Below this a run of identical lines can be real.
pub const MIN_SEGMENTS_TO_JUDGE: usize = 10;

/// A transcript is called looped when more than one in this many of its lines is repeated by the
/// next one. The worst genuine transcript measured had 15.4 percent, the best looped one 32.5.
pub const DEGENERATE_ONE_IN: usize = 4;

/// A share of the pairs of neighbouring lines.
#[derive(Debug, Clone, Copy, PartialEq, Eq, Structural)]
pub struct RepeatShare {
    pub repeats: usize,
    pub pairs: usize,
}

impl RepeatShare {
    /// A share is of at least one pair, and of no more than all of them.
    pub open spec fn wf(self) -> bool {
        self.repeats <= self.pairs && self.pairs > 0
    }

    /// Whether the share is more than one in [`DEGENERATE_ONE_IN`].
    pub open spec fn degenerate(self) -> bool {
        self.repeats * DEGENERATE_ONE_IN > self.pairs
    }
}

/// The lines of some segments, without surrounding white space.
pub open spec fn spoken(segments: Seq<Segment>) -> Seq<Seq<char>> {
    segments.map_values(|s: Segment| trimmed(s.text@))
}

/// Whether the `i`-th line is not blank and comes back as the next one.
pub open spec fn repeats_at(lines: Seq<Seq<char>>, i: int) -> bool {
    &&& 0 <= i < lines.len() - 1
    &&& lines[i].len() > 0
    &&& lines[i] == lines[i + 1]
}

/// How many lines come back as the next one.
pub open spec fn repeat_count(lines: Seq<Seq<char>>) -> nat
    decreases lines.len(),
{
    if lines.len() < 2 {
        0
    } else {
        repeat_count(lines.drop_last()) + if repeats_at(lines, lines.len() - 2) {
            1nat
        } else {
            0nat
        }
    }
}

/// The share of neighbouring lines that repeat; none of a transcript without neighbours.
pub open spec fn share_of(lines: Seq<Seq<char>>) -> RepeatShare {
    if lines.len() < 2 {
        RepeatShare { repeats: 0, pairs: 1 }
    } else {
        RepeatShare { repeats: repeat_count(lines) as usize, pairs: (lines.len() - 1) as usize }
    }
}

/// Whether a transcript with these lines is called looped.
pub open spec fn looks_looped(lines: Seq<Seq<char>>) -> bool {
    lines.len() >= MIN_SEGMENTS_TO_JUDGE && share_of(lines).degenerate()
}

/// Whether `i` is the first line that comes back as the next one.
pub open spec fn first_repeat(lines: Seq<Seq<char>>, i: int) -> bool {
    repeats_at(lines, i) && forall|j: int| 0 <= j < i ==> !#[trigger] repeats_at(lines, j)
}

/// There are no more repeats than pairs of neighbours.
pub proof fn repeats_are_among_the_pairs(lines: Seq<Seq<char>>)
    ensures
        lines.len() > 0 ==> repeat_count(lines) <= lines.len() - 1,
        lines.len() == 0 ==> repeat_count(lines) == 0,
    decreases lines.len(),
{
    if lines.len() >= 2 {
        repeats_are_among_the_pairs(lines.drop_last());
    }
}

/// Without a repeated line there is nothing to count.
proof fn lemma_some_repeat(lines: Seq<Seq<char>>)
    requires
        forall|j: int| 0 <= j < lines.len() - 1 ==> !#[trigger] repeats_at(lines, j),
    ensures
        repeat_count(lines) == 0,
    decreases lines.len(),
{
    if lines.len() >= 2 {
        let shorter = lines.drop_last();
        assert forall|j: int| 0 <= j < shorter.len() - 1 implies !#[trigger] repeats_at(
            shorter,
            j,
        ) by {
            assert(!repeats_at(lines, j));
        }
        lemma_some_repeat(shorter);
    }
}

/// Whether the line of `a` is not blank and comes back in `b`.
fn comes_back(a: &Segment, b: &Segment) -> (r: bool)
    ensures
        r == (trimmed(a.text@).len() > 0 && trimmed(a.text@) == trimmed(b.text@)),
{
    let x: Vec<char> = to_chars(a.text.as_str());
    let y: Vec<char> = to_chars(b.text.as_str());
    let line: &[char] = trim(x.as_slice());
    line.len() > 0 && same(line, trim(y.as_slice()))
}

/// How much of the transcript is a line that comes back consecutively.
///
/// Speech does not repeat itself back to back; a stuck decoder does nothing else.
pub fn consecutive_repeat_share(segments: &[Segment]) -> (r: RepeatShare)
    ensures
        r == share_of(spoken(segments@)),
        r.wf(),
{
    let n: usize = segments.len();
    if n < 2 {
        return RepeatShare { repeats: 0, pairs: 1 };
    }
    let ghost lines = spoken(segments@);
    let mut repeats: usize = 0;
    let mut i: usize = 1;
    while i < n
        invariant
            n == segments@.len(),
            lines == spoken(segments@),
            1 <= i <= n,
            repeats == repeat_count(lines.take(i as int)),
            repeats < i,
        decreases n - i,
    {
        proof {
            let longer = lines.take(i + 1);
            assert(longer.drop_last() =~= lines.take(i as int));
            assert(repeats_at(longer, i - 1) == repeats_at(lines, i - 1));
        }
        if comes_back(&segments[i - 1], &segments[i]) {
            repeats = repeats + 1;
        }
        i = i + 1;
    }
    assert(lines.take(n as int) =~= lines);
    RepeatShare { repeats, pairs: n - 1 }
}

/// The looped line and how much of the transcript it took, or `None` if the output looks real.
pub fn degenerate_loop(segments: &[Segment]) -> (r: Option<(String, RepeatShare)>)
    ensures
        r is Some <==> looks_looped(spoken(segments@)),
        r is Some <==> segments@.len() >= 10 && 4 * repeat_count(spoken(segments@))
            > segments@.len() - 1,
        r matches Some((line, share)) ==> share == share_of(spoken(segments@)) && share.wf()
            && exists|i: int|
            #[trigger] first_repeat(spoken(segments@), i) && line@ == spoken(segments@)[i],
{
    let n: usize = segments.len();
    if n < MIN_SEGMENTS_TO_JUDGE {
        return None;
    }
    let share: RepeatShare = consecutive_repeat_share(segments);
    proof {
        repeats_are_among_the_pairs(spoken(segments@));
    }
    if share.repeats as u128 * DEGENERATE_ONE_IN as u128 <= share.pairs as u128 {
        return None;
    }
    let ghost lines = spoken(segments@);
    let mut i: usize = 1;
    while i < n
        invariant
            n == segments@.len(),
            lines == spoken(segments@),
            1 <= i <= n,
            share == share_of(lines),
            share.wf(),
            looks_looped(lines),
            n >= 10,
            4 * repeat_count(lines) > n - 1,
            forall|j: int| 0 <= j < i - 1 ==> !#[trigger] repeats_at(lines, j),
        decreases n - i,
    {
        let a: &Segment = &segments[i - 1];
        if comes_back(a, &segments[i]) {
            assert(first_repeat(lines, i - 1));
            let chars: Vec<char> = to_chars(a.text.as_str());
            let line: String = to_text(trim(chars.as_slice()));
            assert(line@ == lines[i - 1]);
            return Some((line, share));
        }
        assert(!repeats_at(lines, i - 1));
        i = i + 1;
    }
    proof {
        lemma_some_repeat(lines);
    }
    None
}

/// A run of identical lines repeats at every one but the last.
proof fn lemma_identical_lines(lines: Seq<Seq<char>>, line: Seq<char>)
    requires
        line.len() > 0,
        lines.len() > 0,
        forall|i: int| 0 <= i < lines.len() ==> #[trigger] lines[i] == line,
    ensures
        repeat_count(lines) == lines.len() - 1,
    decreases lines.len(),
{
    if lines.len() >= 2 {
        lemma_identical_lines(lines.drop_last(), line);
        assert(lines[lines.len() - 2] == lines[lines.len() - 1]);
    }
}

/// A transcript long enough to judge that says one thing only is called looped, with every pair
/// of neighbours a repeat.
pub proof fn a_stuck_decoder_is_caught(lines: Seq<Seq<char>>, line: Seq<char>)
    requires
        MIN_SEGMENTS_TO_JUDGE <= lines.len() <= usize::MAX,
        line.len() > 0,
        forall|i: int| 0 <= i < lines.len() ==> #[trigger] lines[i] == line,
    ensures
        looks_looped(lines),
        share_of(lines).repeats == share_of(lines).pairs,
{
    lemma_identical_lines(lines, line);
}

/// A transcript in which no line comes back right away is never called looped, however often a
/// line comes back later.
pub proof fn speech_without_echoes_is_left_alone(lines: Seq<Seq<char>>)
    requires
        forall|i: int| 0 <= i < lines.len() - 1 ==> !#[trigger] repeats_at(lines, i),
    ensures
        !looks_looped(lines),
        share_of(lines).repeats == 0,
{
    lemma_some_repeat(lines);
}

/// A short transcript is never judged, whatever it says.
pub proof fn a_short_transcript_is_not_judged(lines: Seq<Seq<char>>)
    requires
        lines.len() < MIN_SEGMENTS_TO_JUDGE,
    ensures
        !looks_looped(lines),
{
}

/// A blank line is no repeat, and neither is one that a blank line follows.
pub proof fn blank_lines_do_not_repeat(lines: Seq<Seq<char>>, i: int)
    requires
        0 <= i < lines.len() - 1,
        lines[i].len() == 0 || lines[i + 1].len() == 0,
    ensures
        !repeats_at(lines, i),
{
}

/// Appending a segment adds at most one repeat.
pub proof fn one_more_line_is_at_most_one_more_repeat(lines: Seq<Seq<char>>, line: Seq<char>)
    ensures
        repeat_count(lines) <= repeat_count(lines.push(line)) <= repeat_count(lines) + 1,
{
    if lines.len() > 0 {
        assert(lines.push(line).drop_last() =~= lines);
    }
}

/// The lines of segments are those of each segment, in order, without surrounding white space.
pub proof fn spoken_lines_are_those_of_each_segment(segments: Seq<Segment>)
    ensures
        spoken(segments).len() == segments.len(),
        forall|i: int|
            0 <= i < segments.len() ==> #[trigger] spoken(segments)[i] == trimmed(segments[i].text@),
{
}

/// What is counted is every line that is not blank and that the next line says again.
pub proof fn every_repeat_is_counted(lines: Seq<Seq<char>>)
    requires
        lines.len() > 0,
    ensures
        repeat_count(lines) == Seq::new(
            (lines.len() - 1) as nat,
            |i: int| lines[i].len() > 0 && lines[i] == lines[i + 1],
        ).filter(|again: bool| again).len(),
    decreases lines.len(),
{
    let again = |b: bool| b;
    let marks = Seq::new(
        (lines.len() - 1) as nat,
        |i: int| lines[i].len() > 0 && lines[i] == lines[i + 1],
    );
    reveal(Seq::filter);
    if lines.len() >= 2 {
        let shorter = lines.drop_last();
        every_repeat_is_counted(shorter);
        let fewer = Seq::new(
            (shorter.len() - 1) as nat,
            |i: int| shorter[i].len() > 0 && shorter[i] == shorter[i + 1],
        );
        assert(marks.drop_last() =~= fewer);
        assert(marks.last() == repeats_at(lines, lines.len() - 2));
    }
}

/// A transcript is called looped exactly when it has ten lines or more, and four times as many
/// repeats as pairs of neighbours would be too many: the verdict does not depend on its length
/// otherwise.
pub proof fn a_loop_is_more_than_one_pair_in_four(lines: Seq<Seq<char>>, repeats: nat)
    requires
        0 < lines.len() <= usize::MAX,
        repeats == Seq::new(
            (lines.len() - 1) as nat,
            |i: int| lines[i].len() > 0 && lines[i] == lines[i + 1],
        ).filter(|again: bool| again).len(),
    ensures
        looks_looped(lines) <==> lines.len() >= 10 && 4 * repeats > lines.len() - 1,
        lines.len() >= 2 ==> share_of(lines).repeats == repeats && share_of(lines).pairs
            == lines.len() - 1,
        lines.len() < 2 ==> share_of(lines).repeats == 0,
{
    every_repeat_is_counted(lines);
    repeats_are_among_the_pairs(lines);
}

/// The verdict depends on the ratio alone.
pub proof fn the_verdict_depends_on_the_ratio(a: RepeatShare, b: RepeatShare)
    requires
        a.pairs > 0,
        b.pairs > 0,
        a.repeats * b.pairs == b.repeats * a.pairs,
    ensures
        a.degenerate() == b.degenerate(),
{
    lemma_a_larger_share(a, b);
    lemma_a_larger_share(b, a);
}

/// A larger share than one that is a loop is a loop too.
pub proof fn a_larger_share_of_a_loop_is_a_loop(less: RepeatShare, more: RepeatShare)
    requires
        less.pairs > 0,
        more.pairs > 0,
        less.repeats * more.pairs <= more.repeats * less.pairs,
        less.degenerate(),
    ensures
        more.degenerate(),
{
    lemma_a_larger_share(less, more);
}

proof fn lemma_a_larger_share(less: RepeatShare, more: RepeatShare)
    requires
        less.pairs > 0,
        more.pairs > 0,
        less.repeats * more.pairs <= more.repeats * less.pairs,
    ensures
        less.degenerate() ==> more.degenerate(),
{
    if less.degenerate() {
        let (r, p, s, q) = (
            less.repeats as int,
            less.pairs as int,
            more.repeats as int,
            more.pairs as int,
        );
        assert(4 * s > q) by (nonlinear_arith)
            requires
                4 * r > p,
                p > 0,
                q > 0,
                r * q <= s * p,
        ;
    }
}

/// The threshold is one in four: exactly that is no loop, and the least bit more is one.
pub proof fn the_threshold_is_one_in_four(share: RepeatShare)
    ensures
        4 * share.repeats <= share.pairs ==> !share.degenerate(),
        4 * share.repeats >= share.pairs + 1 ==> share.degenerate(),
{
}

/// The line that is quoted is the first that is not blank and that the next one says again.
pub proof fn the_quoted_line_is_the_first_that_comes_back(lines: Seq<Seq<char>>, i: int, j: int)
    requires
        first_repeat(lines, i),
    ensures
        0 <= i < lines.len() - 1,
        lines[i].len() > 0,
        lines[i] == lines[i + 1],
        0 <= j < i ==> lines[j].len() == 0 || lines[j] != lines[j + 1],
        first_repeat(lines, j) ==> j == i,
{
    if 0 <= j < i {
        assert(!repeats_at(lines, j));
    }
    if first_repeat(lines, j) && i < j {
        assert(!repeats_at(lines, i));
    }
}

} // verus!
