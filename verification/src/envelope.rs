//! Finding where speech begins in a recording's loudness envelope.
//!
//! A decoding pass that begins on non-speech latches onto boilerplate and keeps emitting it for
//! the rest of the file, so a quiet lead-in has to be found and skipped. Skipping real speech is
//! far worse than transcribing a quiet opening, so three conditions must all hold: the loud run
//! lasts a full minute, the head is at least a minute long, and the head is clearly quieter than
//! the speech.
use crate::binary::{round, LEAD_32};
use crate::level::{decibel, Level, INFINITE_LEVEL};
use vstd::arithmetic::power2::pow2;
use vstd::prelude::*;
use vstd::relations::*;
use vstd::seq_lib::*;

verus! {

/// Seconds in one envelope window.
pub const ENVELOPE_WINDOW_SECS: u32 = 10;

/// Windows that must stay loud before the run counts as speech.
pub const SUSTAINED_WINDOWS: usize = 6;

/// Shorter heads than this, in seconds, are not worth trimming.
pub const MIN_SKIP_SECS: u32 = 60;

/// How far below the threshold the head must sit before it is called non-speech.
pub const MIN_HEAD_GAP_DB: i32 = 5;

/// How far under the file's own loud end a window may sit and still count as speech.
pub const SPEECH_MARGIN_DB: i32 = 10;

/// Windows in the shortest head worth trimming.
pub const MIN_SKIP_WINDOWS: usize = 6;

/// The values of a run of levels.
pub open spec fn values(levels: Seq<Level>) -> Seq<int> {
    levels.map_values(|l: Level| l.value())
}

/// The level three quarters of the way up the sorted envelope.
pub open spec fn loud_end(v: Seq<int>) -> int {
    v.sort()[(v.len() * 3 / 4) as int]
}

/// The quietest level that counts as speech.
pub open spec fn speech_threshold(v: Seq<int>) -> int {
    round(LEAD_32 as nat, loud_end(v) - SPEECH_MARGIN_DB * decibel())
}

/// The loudest median of a head that counts as non-speech.
pub open spec fn head_ceiling(v: Seq<int>) -> int {
    round(LEAD_32 as nat, speech_threshold(v) - MIN_HEAD_GAP_DB * decibel())
}

/// Whether a sustained run of windows at or above `threshold` begins at `start`.
pub open spec fn loud_run(v: Seq<int>, threshold: int, start: int) -> bool {
    &&& 0 <= start <= v.len() - SUSTAINED_WINDOWS
    &&& forall|i: int| start <= i < start + SUSTAINED_WINDOWS ==> threshold <= #[trigger] v[i]
}

/// The middle of the sorted levels, the upper one of two.
pub open spec fn middle(v: Seq<int>) -> int {
    v.sort()[(v.len() / 2) as int]
}

/// Whether `start` is where speech begins after a lead-in worth skipping.
pub open spec fn speech_begins(v: Seq<int>, start: int) -> bool {
    &&& v.len() >= MIN_SKIP_WINDOWS + SUSTAINED_WINDOWS
    &&& loud_run(v, speech_threshold(v), start)
    &&& forall|s: int| 0 <= s < start ==> !#[trigger] loud_run(v, speech_threshold(v), s)
    &&& start * ENVELOPE_WINDOW_SECS >= MIN_SKIP_SECS
    &&& middle(v.take(start)) <= head_ceiling(v)
}

proof fn lemma_at_most_is_total()
    ensures
        total_ordering(|x: int, y: int| x <= y),
{
}

/// Inserting an element adds it to the multiset of elements.
proof fn lemma_insert_multiset(s: Seq<int>, at: int, x: int)
    requires
        0 <= at <= s.len(),
    ensures
        s.insert(at, x).to_multiset() == s.to_multiset().insert(x),
{
    broadcast use vstd::multiset::group_multiset_axioms;

    let t = s.insert(at, x);
    t.to_multiset_ensures();
    assert(t.remove(at) =~= s);
    assert(t[at] == x);
    assert(t.contains(x));
    assert(t.to_multiset() =~= s.to_multiset().insert(x));
}

/// The levels in ascending order.
fn ascending(levels: &[Level]) -> (r: Vec<Level>)
    ensures
        values(r@) == values(levels@).sort(),
        r@.len() == levels@.len(),
{
    let mut r: Vec<Level> = Vec::new();
    let ghost v = values(levels@);
    let ghost leq = |x: int, y: int| x <= y;
    let mut i: usize = 0;
    assert(values(r@) =~= v.take(0));
    while i < levels.len()
        invariant
            i <= levels@.len(),
            v == values(levels@),
            leq == (|x: int, y: int| x <= y),
            r@.len() == i,
            sorted_by(values(r@), leq),
            values(r@).to_multiset() == v.take(i as int).to_multiset(),
        decreases levels@.len() - i,
    {
        let x: Level = levels[i];
        let ghost before = values(r@);
        let mut at: usize = 0;
        while at < r.len() && x.at_least(r[at])
            invariant
                at <= r@.len(),
                before == values(r@),
                forall|j: int| 0 <= j < at ==> #[trigger] before[j] <= x.value(),
            decreases r@.len() - at,
        {
            at = at + 1;
        }
        r.insert(at, x);
        proof {
            assert(values(r@) =~= before.insert(at as int, x.value()));
            lemma_insert_multiset(before, at as int, x.value());
            v.take(i as int).to_multiset_ensures();
            assert(v.take(i + 1) =~= v.take(i as int).push(x.value()));
            assert(sorted_by(values(r@), leq)) by {
                let after = values(r@);
                assert forall|a: int, b: int| 0 <= a < b < after.len() implies #[trigger] leq(
                    after[a],
                    after[b],
                ) by {
                    let a0 = if a < at { a } else { a - 1 };
                    let b0 = if b < at { b } else { b - 1 };
                    if a != at && b != at {
                        assert(leq(before[a0], before[b0]));
                    } else if a == at && at < before.len() && b0 > at {
                        assert(leq(before[at as int], before[b0]));
                    }
                }
            }
        }
        i = i + 1;
    }
    proof {
        assert(v.take(v.len() as int) =~= v);
        lemma_at_most_is_total();
        v.lemma_sort_ensures();
        lemma_sorted_unique(values(r@), v.sort(), leq);
    }
    r
}

/// The median level; of no levels at all, the infinitely quiet one.
pub fn median(levels: &[Level]) -> (r: Level)
    ensures
        levels@.len() > 0 ==> r.value() == middle(values(levels@)),
        levels@.len() == 0 ==> r.rank() == -INFINITE_LEVEL,
{
    let sorted: Vec<Level> = ascending(levels);
    if sorted.len() == 0 {
        Level::silent()
    } else {
        let at: usize = sorted.len() / 2;
        assert(values(sorted@)[at as int] == sorted@[at as int].value());
        sorted[at]
    }
}

/// Three quarters of the way through `len` sorted levels.
fn loud_index(len: usize) -> (r: usize)
    requires
        len > 0,
    ensures
        r == len as int * 3 / 4,
        r < len,
{
    let part: usize = len / 4;
    part * 3 + (len % 4) * 3 / 4
}

/// Whether a sustained run of loud windows begins at `start`.
fn is_loud_run(levels: &[Level], threshold: Level, start: usize) -> (r: bool)
    requires
        start + SUSTAINED_WINDOWS <= levels@.len(),
    ensures
        r == loud_run(values(levels@), threshold.value(), start as int),
{
    let ghost v = values(levels@);
    let n: usize = levels.len();
    let mut i: usize = 0;
    while i < SUSTAINED_WINDOWS
        invariant
            v == values(levels@),
            n == levels@.len(),
            i <= SUSTAINED_WINDOWS,
            start + SUSTAINED_WINDOWS <= n,
            forall|j: int| start <= j < start + i ==> threshold.value() <= #[trigger] v[j],
        decreases SUSTAINED_WINDOWS - i,
    {
        if !levels[start + i].at_least(threshold) {
            assert(v[start + i] < threshold.value());
            return false;
        }
        i = i + 1;
    }
    true
}

/// Index of the first window where speech begins, or `None` to transcribe from the top.
pub fn speech_start_window(levels: &[Level]) -> (r: Option<usize>)
    ensures
        r matches Some(s) ==> speech_begins(values(levels@), s as int),
        r is None ==> forall|s: int| !#[trigger] speech_begins(values(levels@), s),
{
    let ghost v = values(levels@);
    let n: usize = levels.len();
    if n < MIN_SKIP_WINDOWS + SUSTAINED_WINDOWS {
        return None;
    }
    let sorted: Vec<Level> = ascending(levels);
    let at: usize = loud_index(sorted.len());
    assert(values(sorted@)[at as int] == sorted@[at as int].value());
    let threshold: Level = sorted[at].lowered_by(SPEECH_MARGIN_DB);
    let mut start: usize = 0;
    while start <= n - SUSTAINED_WINDOWS
        invariant
            v == values(levels@),
            n == levels@.len(),
            threshold.value() == speech_threshold(v),
            v.len() >= MIN_SKIP_WINDOWS + SUSTAINED_WINDOWS,
            start <= v.len() - SUSTAINED_WINDOWS + 1,
            forall|s: int| 0 <= s < start ==> !#[trigger] loud_run(v, speech_threshold(v), s),
        decreases v.len() - start,
    {
        if is_loud_run(levels, threshold, start) {
            proof {
                assert forall|s: int| s != start implies !#[trigger] speech_begins(v, s) by {
                    if s > start {
                        assert(loud_run(v, speech_threshold(v), start as int));
                    }
                }
            }
            if start < MIN_SKIP_WINDOWS {
                return None;
            }
            let (head, rest) = levels.split_at(start);
            let ceiling: Level = threshold.lowered_by(MIN_HEAD_GAP_DB);
            assert(values(head@) =~= v.take(start as int));
            if ceiling.at_least(median(head)) {
                return Some(start);
            }
            return None;
        }
        start = start + 1;
    }
    None
}

/// Speech begins at one window at most.
pub proof fn speech_begins_once(v: Seq<int>, a: int, b: int)
    requires
        speech_begins(v, a),
        speech_begins(v, b),
    ensures
        a == b,
{
    if a < b {
        assert(!loud_run(v, speech_threshold(v), a));
    } else if b < a {
        assert(!loud_run(v, speech_threshold(v), b));
    }
}

/// Loud windows that do not last are not speech: every window of the minute from where speech
/// begins is at or above the threshold.
pub proof fn a_spike_is_not_speech(v: Seq<int>, start: int, i: int)
    requires
        start <= i < start + SUSTAINED_WINDOWS,
        i < v.len(),
        v[i] < speech_threshold(v),
    ensures
        !speech_begins(v, start),
{
}

/// What is cut off lasts at least a minute, and holds no minute of sustained sound.
pub proof fn no_sustained_sound_is_cut_off(v: Seq<int>, start: int, earlier: int)
    requires
        speech_begins(v, start),
        0 <= earlier < start,
    ensures
        start >= MIN_SKIP_WINDOWS,
        exists|i: int|
            earlier <= i < earlier + SUSTAINED_WINDOWS && #[trigger] v[i] < speech_threshold(v),
{
    assert(!loud_run(v, speech_threshold(v), earlier));
}

/// A recording with sustained sound within its first minute is left alone.
pub proof fn a_recording_that_starts_talking_is_left_alone(v: Seq<int>, early: int, start: int)
    requires
        loud_run(v, speech_threshold(v), early),
        early * ENVELOPE_WINDOW_SECS < MIN_SKIP_SECS,
    ensures
        !speech_begins(v, start),
{
}

/// A recording too short for a head and a sustained run is left alone.
pub proof fn a_short_recording_is_left_alone(v: Seq<int>, start: int)
    requires
        v.len() < MIN_SKIP_WINDOWS + SUSTAINED_WINDOWS,
    ensures
        !speech_begins(v, start),
{
}

/// The median of a sequence has a given bound from below when every element has.
proof fn lemma_middle_at_least(v: Seq<int>, low: int)
    requires
        v.len() > 0,
        forall|i: int| 0 <= i < v.len() ==> low <= #[trigger] v[i],
    ensures
        low <= middle(v),
{
    v.lemma_sort_ensures();
    let sorted = v.sort();
    v.to_multiset_ensures();
    sorted.to_multiset_ensures();
    let m = sorted[(v.len() / 2) as int];
    assert(sorted.contains(m));
    assert(v.to_multiset().count(m) > 0);
    assert(v.contains(m));
}

/// A head that is nowhere clearly quieter than the speech is speech too, and is not cut.
pub proof fn a_softer_opening_is_not_cut(v: Seq<int>, start: int)
    requires
        forall|i: int| 0 <= i < start ==> head_ceiling(v) < #[trigger] v[i],
    ensures
        !speech_begins(v, start),
{
    if speech_begins(v, start) {
        let head = v.take(start);
        assert forall|i: int| 0 <= i < head.len() implies head_ceiling(v) + 1
            <= #[trigger] head[i] by {
            assert(head[i] == v[i]);
        }
        lemma_middle_at_least(head, head_ceiling(v) + 1);
    }
}

/// Adding one element to the multiset of elements adds it to what is kept, or not.
proof fn lemma_filter_same_elements(a: Seq<int>, b: Seq<int>, p: spec_fn(int) -> bool)
    requires
        a.to_multiset() == b.to_multiset(),
    ensures
        a.filter(p).len() == b.filter(p).len(),
    decreases a.len(),
{
    broadcast use vstd::multiset::group_multiset_axioms;

    reveal(Seq::filter);
    a.to_multiset_ensures();
    b.to_multiset_ensures();
    if a.len() > 0 {
        let x = a.last();
        assert(a.contains(x));
        assert(b.to_multiset().count(x) > 0);
        assert(b.contains(x));
        let i = choose|i: int| 0 <= i < b.len() && b[i] == x;
        let shorter = b.remove(i);
        assert(a.remove(a.len() - 1) =~= a.drop_last());
        assert(a.drop_last().to_multiset() =~= shorter.to_multiset());
        lemma_filter_same_elements(a.drop_last(), shorter, p);
        let left = b.take(i);
        let right = b.skip(i + 1);
        assert(b =~= left + seq![x] + right);
        assert(shorter =~= left + right);
        Seq::filter_distributes_over_add(left + seq![x], right, p);
        Seq::filter_distributes_over_add(left, seq![x], p);
        Seq::filter_distributes_over_add(left, right, p);
        let one = seq![x];
        one.drop_last().lemma_filter_len(p);
        assert(one.last() == x);
        assert(one.filter(p).len() == if p(x) { 1int } else { 0int });
    }
}

/// What is kept of a sequence all of whose elements are kept.
proof fn lemma_filter_all(s: Seq<int>, p: spec_fn(int) -> bool)
    requires
        forall|i: int| 0 <= i < s.len() ==> p(#[trigger] s[i]),
    ensures
        s.filter(p) == s,
    decreases s.len(),
{
    reveal(Seq::filter);
    if s.len() > 0 {
        lemma_filter_all(s.drop_last(), p);
        assert(p(s[s.len() - 1]));
        assert(s.drop_last().push(s.last()) =~= s);
    }
}

/// How many elements lie on either side of the `k`-th smallest.
proof fn lemma_kth_smallest(v: Seq<int>, k: int)
    requires
        0 <= k < v.len(),
    ensures
        v.sort().len() == v.len(),
        v.contains(v.sort()[k]),
        v.filter(|y: int| y >= v.sort()[k]).len() >= v.len() - k,
        v.filter(|y: int| y <= v.sort()[k]).len() >= k + 1,
{
    v.lemma_sort_ensures();
    let s = v.sort();
    v.to_multiset_ensures();
    s.to_multiset_ensures();
    let x = s[k];
    let above = |y: int| y >= x;
    let below = |y: int| y <= x;
    let leq = |a: int, b: int| a <= b;
    assert(s.contains(x));
    assert(v.to_multiset().count(x) > 0);
    assert(v.contains(x));
    lemma_filter_same_elements(v, s, above);
    lemma_filter_same_elements(v, s, below);
    assert(s =~= s.take(k) + s.skip(k));
    assert(s =~= s.take(k + 1) + s.skip(k + 1));
    Seq::filter_distributes_over_add(s.take(k), s.skip(k), above);
    Seq::filter_distributes_over_add(s.take(k + 1), s.skip(k + 1), below);
    assert forall|i: int| 0 <= i < s.skip(k).len() implies above(#[trigger] s.skip(k)[i]) by {
        if i > 0 {
            assert(leq(s[k], s[k + i]));
        }
    }
    assert forall|i: int| 0 <= i < s.take(k + 1).len() implies below(
        #[trigger] s.take(k + 1)[i],
    ) by {
        if i < k {
            assert(leq(s[i], s[k]));
        }
    }
    lemma_filter_all(s.skip(k), above);
    lemma_filter_all(s.take(k + 1), below);
}

/// No element is both at most `low` and at least something larger.
proof fn lemma_filters_apart(v: Seq<int>, low: int, high: int)
    requires
        low < high,
    ensures
        v.filter(|y: int| y <= low).len() + v.filter(|y: int| y >= high).len() <= v.len(),
    decreases v.len(),
{
    reveal(Seq::filter);
    if v.len() > 0 {
        lemma_filters_apart(v.drop_last(), low, high);
    }
}

/// Only one value has this many elements on either side.
proof fn lemma_kth_smallest_is_unique(v: Seq<int>, k: int, x: int)
    requires
        0 <= k < v.len(),
        v.filter(|y: int| y >= x).len() >= v.len() - k,
        v.filter(|y: int| y <= x).len() >= k + 1,
    ensures
        x == v.sort()[k],
{
    lemma_kth_smallest(v, k);
    if x < v.sort()[k] {
        lemma_filters_apart(v, x, v.sort()[k]);
    } else if v.sort()[k] < x {
        lemma_filters_apart(v, v.sort()[k], x);
    }
}

/// The loud end is a level of the recording that a quarter of its windows reach, and no more than
/// a quarter exceed; the threshold lies ten decibels under it, however loud the loudest windows
/// are.
pub proof fn the_loud_end_is_the_upper_quartile(v: Seq<int>)
    requires
        v.len() > 0,
    ensures
        v.contains(loud_end(v)),
        v.filter(|y: int| y >= loud_end(v)).len() >= v.len() - v.len() * 3 / 4,
        v.filter(|y: int| y <= loud_end(v)).len() >= v.len() * 3 / 4 + 1,
        speech_threshold(v) == round(0x80_0000, loud_end(v) - 10 * pow2(149)),
{
    lemma_kth_smallest(v, (v.len() * 3 / 4) as int);
}

/// The middle is a level that half of the windows reach and half do not exceed, the upper one of
/// two.
pub proof fn the_middle_has_half_on_either_side(v: Seq<int>)
    requires
        v.len() > 0,
    ensures
        v.contains(middle(v)),
        v.filter(|y: int| y >= middle(v)).len() >= v.len() - v.len() / 2,
        v.filter(|y: int| y <= middle(v)).len() >= v.len() / 2 + 1,
{
    lemma_kth_smallest(v, (v.len() / 2) as int);
}

/// Speech begins at the first of six windows in a row that all lie within ten decibels of the
/// upper quartile, if at least six windows come before it and their median lies five decibels
/// further down. `quartile` and `median` are told by how many windows lie on either side.
pub proof fn a_quiet_lead_in_is_found(
    v: Seq<int>,
    quartile: int,
    median: int,
    threshold: int,
    start: int,
)
    requires
        v.len() > 0,
        v.filter(|y: int| y >= quartile).len() >= v.len() - v.len() * 3 / 4,
        v.filter(|y: int| y <= quartile).len() >= v.len() * 3 / 4 + 1,
        0 < start <= v.len(),
        v.take(start).filter(|y: int| y >= median).len() >= start - start / 2,
        v.take(start).filter(|y: int| y <= median).len() >= start / 2 + 1,
        threshold == round(0x80_0000, quartile - 10 * pow2(149)),
        6 <= start <= v.len() - 6,
        forall|i: int| start <= i < start + 6 ==> threshold <= #[trigger] v[i],
        forall|e: int|
            #![trigger v.skip(e)]
            0 <= e < start ==> exists|i: int| 0 <= i < 6 && #[trigger] v.skip(e)[i] < threshold,
        median <= round(0x80_0000, threshold - 5 * pow2(149)),
    ensures
        speech_begins(v, start),
{
    lemma_kth_smallest_is_unique(v, (v.len() * 3 / 4) as int, quartile);
    lemma_kth_smallest_is_unique(v.take(start), start / 2, median);
    assert forall|e: int| 0 <= e < start implies !#[trigger] loud_run(v, threshold, e) by {
        let i = choose|i: int| 0 <= i < 6 && #[trigger] v.skip(e)[i] < threshold;
        assert(v.skip(e)[i] == v[e + i]);
    }
    assert(loud_run(v, threshold, start));
}

/// Nothing else is a lead-in: where speech begins, six windows in a row lie within ten decibels of
/// the upper quartile, no earlier six do, at least six windows come before, and their median lies
/// five decibels further down.
pub proof fn only_a_quiet_lead_in_is_cut(
    v: Seq<int>,
    quartile: int,
    median: int,
    threshold: int,
    start: int,
    earlier: int,
)
    requires
        v.len() > 0,
        v.filter(|y: int| y >= quartile).len() >= v.len() - v.len() * 3 / 4,
        v.filter(|y: int| y <= quartile).len() >= v.len() * 3 / 4 + 1,
        0 < start <= v.len(),
        v.take(start).filter(|y: int| y >= median).len() >= start - start / 2,
        v.take(start).filter(|y: int| y <= median).len() >= start / 2 + 1,
        threshold == round(0x80_0000, quartile - 10 * pow2(149)),
        speech_begins(v, start),
    ensures
        6 <= start <= v.len() - 6,
        forall|i: int| start <= i < start + 6 ==> threshold <= #[trigger] v[i],
        0 <= earlier < start ==> exists|i: int|
            earlier <= i < earlier + 6 && #[trigger] v[i] < threshold,
        median <= round(0x80_0000, threshold - 5 * pow2(149)),
{
    lemma_kth_smallest_is_unique(v, (v.len() * 3 / 4) as int, quartile);
    lemma_kth_smallest_is_unique(v.take(start), start / 2, median);
    assert(loud_run(v, threshold, start));
    if 0 <= earlier < start {
        assert(!loud_run(v, threshold, earlier));
    }
}

/// At least a minute comes before speech begins, and at least a minute after.
pub proof fn speech_begins_inside(v: Seq<int>, start: int)
    requires
        speech_begins(v, start),
    ensures
        6 <= start <= v.len() - 6,
{
}

/// A recording of which every window lies within ten decibels of the upper quartile is never
/// trimmed, however loud its loudest windows are.
pub proof fn an_even_recording_is_never_trimmed(v: Seq<int>, quartile: int, start: int)
    requires
        v.len() > 0,
        v.filter(|y: int| y >= quartile).len() >= v.len() - v.len() * 3 / 4,
        v.filter(|y: int| y <= quartile).len() >= v.len() * 3 / 4 + 1,
        forall|i: int|
            0 <= i < v.len() ==> round(0x80_0000, quartile - 10 * pow2(149)) <= #[trigger] v[i],
    ensures
        !speech_begins(v, start),
{
    lemma_kth_smallest_is_unique(v, (v.len() * 3 / 4) as int, quartile);
    if speech_begins(v, start) {
        assert(loud_run(v, speech_threshold(v), 0));
    }
}

/// The values of levels are those of each level, in order.
pub proof fn values_are_those_of_each_level(levels: Seq<Level>)
    ensures
        values(levels).len() == levels.len(),
        forall|i: int| 0 <= i < levels.len() ==> #[trigger] values(levels)[i] == levels[i].value(),
{
}

} // verus!
