use vibe_core::transcript::{
    consecutive_repeat_share, degenerate_loop, RepeatShare, Segment, DEGENERATE_ONE_IN, MIN_SEGMENTS_TO_JUDGE,
};

fn seg(text: &str) -> Segment {
    Segment {
        start: 0,
        stop: 1,
        text: text.to_string(),
        speaker: None,
    }
}

fn segs(texts: &[&str]) -> Vec<Segment> {
    texts.iter().map(|t| seg(t)).collect()
}

fn ratio(share: RepeatShare) -> f64 {
    (share.repeats as f64) / (share.pairs as f64)
}

fn threshold() -> f64 {
    1.0 / (DEGENERATE_ONE_IN as f64)
}

#[test]
fn the_sample_that_prompted_this_is_caught() {
    let mut texts: Vec<&str> = vec!["请不吝点赞 订阅 转发 打赏支持明镜与点点栏目"; 3];
    texts.extend(["打赏支持明镜与点点栏目"; 5]);
    texts.extend(["打赏支持明镜与点栏目"; 14]);

    let (line, share) = degenerate_loop(&segs(&texts)).expect("90% consecutive repeats must be caught");
    assert!(ratio(share) > 0.9, "share was {}", ratio(share));
    assert!(line.contains("明镜"));
    assert_eq!(line, "请不吝点赞 订阅 转发 打赏支持明镜与点点栏目");
    assert_eq!(share, RepeatShare { repeats: 19, pairs: 21 });
}

#[test]
fn a_drifting_loop_is_caught_even_though_no_single_line_dominates() {
    let mut texts: Vec<&str> = Vec::new();
    for variant in ["我们的朋友们", "我们的朋友", "谢谢大家的朋友们"] {
        texts.extend(std::iter::repeat_n(variant, 6));
    }
    texts.extend(["一", "二", "三", "四"]);

    assert!(degenerate_loop(&segs(&texts)).is_some());
}

#[test]
fn genuine_speech_is_left_alone() {
    // 15.4% consecutive repeats -- the worst of six real transcripts -- must pass.
    let mut texts: Vec<String> = (0..100).map(|i| format!("sentence {i}")).collect();
    for i in (0..15).map(|i| i * 6) {
        texts[i + 1] = texts[i].clone();
    }
    let owned: Vec<&str> = texts.iter().map(String::as_str).collect();

    assert!(
        degenerate_loop(&segs(&owned)).is_none(),
        "a real transcript must not be rejected"
    );
}

#[test]
fn a_genuine_interview_can_look_like_a_loop() {
    // Content sentences interleaved with the fillers speakers actually repeat. It scores 34.1%,
    // over the threshold, while the recording it came from is perfectly good.
    let texts = [
        "另外還要請教",
        "有沒有",
        "有沒有",
        "就是說",
        "有一點",
        "有一點",
        "我們國關",
        "對",
        "對",
        "這邊會",
        "嗯",
        "嗯",
        "會不會因為",
        "有沒有",
        "有沒有",
        "觸發金融危機的事情",
        "有一點",
        "有一點",
        "而有差異這樣子",
        "對",
        "對",
        "比如說",
        "嗯",
        "嗯",
        "假設發生了擠兌",
        "有沒有",
        "有沒有",
        "然後這個部分",
        "有一點",
        "有一點",
        "對我們國關的作業有沒有什麼樣的影響",
        "對",
        "對",
        "可以嗎",
        "嗯",
        "嗯",
        "應該是說不定是訊息溝通的量會多",
        "有沒有",
        "有沒有",
        "但是還不至於說會觸發到什麼樣的影響這樣子",
        "有一點",
        "有一點",
        "因為本身應該不會有太大的差別",
        "對",
        "對",
    ];
    let (_, share) = degenerate_loop(&segs(&texts)).expect("the measure does fire on genuine speech");
    let share = ratio(share);
    assert!(
        share > threshold(),
        "the false positive is the point of this test; got {share}"
    );
    assert!(share < 0.6, "and it is far from the 99% a real loop reaches: {share}");
}

#[test]
fn a_short_transcript_is_never_judged() {
    assert!(
        degenerate_loop(&segs(&["yes"; 9])).is_none(),
        "9 identical lines can be a real answer"
    );
}

#[test]
fn ten_identical_lines_are_a_loop() {
    assert_eq!(MIN_SEGMENTS_TO_JUDGE, 10);
    let (line, share) = degenerate_loop(&segs(&["yes"; 10])).unwrap();
    assert_eq!(line, "yes");
    assert_eq!(share, RepeatShare { repeats: 9, pairs: 9 });
}

#[test]
fn exactly_a_quarter_is_not_a_loop() {
    // 13 lines make 12 pairs; three of them repeat.
    let mut texts = vec!["a", "a", "b", "b", "c", "c", "1", "2", "3", "4", "5", "6", "7"];
    assert_eq!(consecutive_repeat_share(&segs(&texts)), RepeatShare { repeats: 3, pairs: 12 });
    assert!(degenerate_loop(&segs(&texts)).is_none());
    texts[12] = "6";
    assert_eq!(consecutive_repeat_share(&segs(&texts)), RepeatShare { repeats: 4, pairs: 12 });
    assert_eq!(degenerate_loop(&segs(&texts)).unwrap().0, "a");
}

#[test]
fn without_neighbours_there_is_no_share() {
    assert_eq!(ratio(consecutive_repeat_share(&[])), 0.0);
    assert_eq!(ratio(consecutive_repeat_share(&segs(&["alone"]))), 0.0);
}

#[test]
fn blank_lines_are_no_repeats() {
    assert_eq!(consecutive_repeat_share(&segs(&["", "", "  ", "\u{3000}"])).repeats, 0);
    assert!(degenerate_loop(&segs(&[" "; 40])).is_none());
}

#[test]
fn white_space_around_a_line_does_not_hide_a_repeat() {
    let share = consecutive_repeat_share(&segs(&["yes", "  yes\n", "\u{a0}yes\t", "no"]));
    assert_eq!(share, RepeatShare { repeats: 2, pairs: 3 });
    let mut texts = vec!["  first  "; 2];
    texts.extend(["x"; 10]);
    assert_eq!(degenerate_loop(&segs(&texts)).unwrap().0, "first");
}

#[test]
fn a_line_that_comes_back_later_is_no_repeat() {
    let texts: Vec<&str> = (0..40).map(|i| if i % 2 == 0 { "yes" } else { "no" }).collect();
    assert_eq!(consecutive_repeat_share(&segs(&texts)).repeats, 0);
    assert!(degenerate_loop(&segs(&texts)).is_none());
}
