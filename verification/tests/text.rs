use vibe_core::text::{after, find, same, split_lines, to_chars, to_text, trim, white_space};

#[test]
fn white_space_is_what_unicode_says() {
    for code in 0..=0x10_ffffu32 {
        if let Some(c) = char::from_u32(code) {
            assert_eq!(white_space(c), c.is_whitespace(), "{code:x}");
        }
    }
}

#[test]
fn text_survives_being_taken_apart() {
    for s in ["", "abc", "a\u{10ffff}é\n", "请不吝点赞"] {
        assert_eq!(to_text(&to_chars(s)), s);
        assert_eq!(to_chars(s), s.chars().collect::<Vec<char>>());
    }
}

#[test]
fn lines_are_those_of_the_standard_library() {
    for s in ["", "\n", "a", "a\n", "a\n\nb", "\r\n", "a\r\nb\r", "a\r", "\r", "\na", "a\r\r\nb", "x\ny\nz\n"] {
        let chars = to_chars(s);
        let lines: Vec<String> = split_lines(&chars).into_iter().map(to_text).collect();
        assert_eq!(lines, s.lines().collect::<Vec<&str>>(), "{s:?}");
    }
}

#[test]
fn trimming_is_that_of_the_standard_library() {
    for s in ["", " ", "a", " a ", "\t a b \u{3000}\n", "\u{200b}a\u{200b}", "\u{a0}\u{85}x"] {
        let chars = to_chars(s);
        assert_eq!(to_text(trim(&chars)), s.trim(), "{s:?}");
    }
}

#[test]
fn what_follows_a_mark_ends_at_the_next() {
    for (s, mark) in [("a=b", "="), ("a=b=c", "="), ("abc", "="), ("", "="), ("==", "="), ("xaaay", "aa"), ("a=", "=")] {
        let (chars, wanted) = (to_chars(s), to_chars(mark));
        assert_eq!(after(&chars, &wanted).map(to_text).as_deref(), s.split(mark).nth(1), "{s:?}");
        let found = find(&chars, &wanted);
        assert_eq!(found, s.find(mark), "{s:?}");
    }
}

#[test]
fn texts_are_the_same_when_every_character_is() {
    assert!(same(&['a', 'b'], &['a', 'b']));
    assert!(!same(&['a', 'b'], &['a', 'c']));
    assert!(!same(&['a', 'b'], &['a']));
    assert!(same(&[], &[]));
}
