use vibe_core::envelope::ENVELOPE_WINDOW_SECS;
use vibe_core::level::Level;
use vibe_core::seconds::{speech_start_secs, whole, window_start, Seconds};

fn secs(t: f64) -> Seconds {
    Seconds { bits: t.to_bits() }
}

fn centiseconds(t: f64, offset: f64) -> i64 {
    vibe_core::seconds::centiseconds(secs(t), secs(offset))
}

#[test]
fn an_untrimmed_file_is_left_exactly_where_it_was() {
    assert_eq!(centiseconds(0.0, 0.0), 0);
    assert_eq!(centiseconds(4.68, 0.0), 468);
}

#[test]
fn a_trimmed_file_is_shifted_by_what_was_skipped() {
    assert_eq!(centiseconds(0.0, 700.0), 70_000);
    assert_eq!(centiseconds(4.68, 700.0), 70_468);
}

#[test]
fn the_offset_is_added_not_subtracted() {
    assert!(centiseconds(10.0, 700.0) > centiseconds(10.0, 0.0));
}

#[test]
fn the_far_end_of_a_two_hour_file_still_fits() {
    assert_eq!(centiseconds(6661.0, 700.0), 736_100);
}

/// Times worth trying: ordinary ones, and every corner of the format.
fn corners() -> Vec<f64> {
    let mut all = vec![
        0.0,
        -0.0,
        0.1,
        0.29,
        1.15,
        2.675,
        4.68,
        1e-320,
        f64::MIN_POSITIVE,
        f64::EPSILON,
        0.005,
        0.009_999_999_999_999_998,
        0.01,
        9.2e16,
        92_233_720_368_547_758.07,
        92_233_720_368_547_760.0,
        9.3e16,
        1e300,
        1.79e308,
        f64::MAX,
        f64::INFINITY,
        f64::NAN,
        9_007_199_254_740_993.0,
        4_503_599_627_370_497.5,
    ];
    let mirrored: Vec<f64> = all.iter().map(|x| -x).collect();
    all.extend(mirrored);
    all
}

/// A deterministic stream of 64-bit patterns.
fn patterns(count: usize) -> Vec<u64> {
    let mut state: u64 = 0x9e37_79b9_7f4a_7c15;
    (0..count)
        .map(|_| {
            state ^= state << 13;
            state ^= state >> 7;
            state ^= state << 17;
            state
        })
        .collect()
}

#[test]
fn corner_times_agree_with_the_processor() {
    for a in corners() {
        for b in corners() {
            assert_eq!(centiseconds(a, b), ((a + b) * 100.0) as i64, "{a} {b}");
        }
    }
}

#[test]
fn arbitrary_times_agree_with_the_processor() {
    let all = patterns(60_000);
    for pair in all.chunks(2) {
        let (a, b) = (f64::from_bits(pair[0]), f64::from_bits(pair[1]));
        assert_eq!(centiseconds(a, b), ((a + b) * 100.0) as i64, "{a} {b}");
        // The same significands, with exponents that meet.
        let a = f64::from_bits(pair[0] & 0x800f_ffff_ffff_ffff | 0x40b0_0000_0000_0000);
        let b = f64::from_bits(pair[1] & 0x80ff_ffff_ffff_ffff | 0x4000_0000_0000_0000);
        assert_eq!(centiseconds(a, b), ((a + b) * 100.0) as i64, "{a} {b}");
        let (a, b) = ((pair[0] % 1_000_000) as f64 / 100.0, (pair[1] % 1000 * 10) as f64);
        assert_eq!(centiseconds(a, b), ((a + b) * 100.0) as i64, "{a} {b}");
    }
}

#[test]
fn whole_seconds_agree_with_the_processor() {
    for t in corners() {
        assert_eq!(whole(secs(t)), t as u64, "{t}");
    }
    for bits in patterns(60_000) {
        let t = f64::from_bits(bits);
        assert_eq!(whole(secs(t)), t as u64, "{t}");
        let near = f64::from_bits(bits & 0x03ff_ffff_ffff_ffff | 0x4000_0000_0000_0000);
        assert_eq!(whole(secs(near)), near as u64, "{near}");
    }
    assert_eq!(whole(secs(700.0)), 700);
    assert_eq!(whole(secs(1e20)), u64::MAX);
    assert_eq!(whole(secs(-3.5)), 0);
    assert_eq!(whole(secs(f64::NAN)), 0);
}

#[test]
fn windows_begin_every_ten_seconds() {
    assert_eq!(ENVELOPE_WINDOW_SECS, 10);
    assert_eq!(window_start(0), secs(0.0));
    assert_eq!(window_start(70), secs(700.0));
    for w in patterns(20_000) {
        for w in [w as usize, (w % 100_000) as usize, (w >> 11) as usize] {
            assert_eq!(window_start(w), secs((w as f64) * 10.0), "{w}");
        }
    }
}

#[test]
fn times_outside_the_integers_are_kept_at_the_ends() {
    assert_eq!(centiseconds(1e300, 0.0), i64::MAX);
    assert_eq!(centiseconds(-1e300, 0.0), i64::MIN);
    assert_eq!(centiseconds(f64::INFINITY, 700.0), i64::MAX);
    assert_eq!(centiseconds(f64::INFINITY, f64::NEG_INFINITY), 0);
    assert_eq!(centiseconds(f64::NAN, 700.0), 0);
}

#[test]
fn the_fraction_of_a_centisecond_is_dropped() {
    assert_eq!(centiseconds(1.239, 0.0), 123);
    assert_eq!(centiseconds(-1.239, 0.0), -123);
}

#[test]
fn later_stays_later_and_more_skipped_is_later() {
    let times = [0.0, 0.004, 0.01, 4.68, 6661.0];
    let offsets = [0.0, 60.0, 700.0];
    for pair in times.windows(2) {
        for skip in offsets {
            assert!(centiseconds(pair[0], skip) <= centiseconds(pair[1], skip));
        }
    }
    for pair in offsets.windows(2) {
        for t in times {
            assert!(centiseconds(t, pair[0]) < centiseconds(t, pair[1]));
        }
    }
}

#[test]
fn the_lead_in_is_given_in_seconds() {
    let level = |x: f32| Level::from_bits(x.to_bits()).unwrap();
    let levels: Vec<Level> = (0..40).map(|i| level(if i < 7 { -60.0 } else { -20.0 })).collect();
    let start = speech_start_secs(&levels).unwrap();
    assert_eq!(start, secs(70.0));
    assert_eq!(vibe_core::seconds::centiseconds(secs(0.0), start), 7_000);
    assert_eq!(speech_start_secs(&levels[7..]), None);
}
