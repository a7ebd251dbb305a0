use voice_memos::format::{format_duration, slug_from_lowercase, slugify};

// --- slugify ---

#[test]
fn slugify_simple_title() {
    assert_eq!(slugify("My Voice Memo"), "my-voice-memo");
}

#[test]
fn slugify_with_special_chars() {
    assert_eq!(slugify("Hello, World! (2024)"), "hello-world-2024");
}

#[test]
fn slugify_preserves_hyphens_and_underscores() {
    assert_eq!(slugify("my-memo_draft"), "my-memo_draft");
}

#[test]
fn slugify_collapses_whitespace() {
    assert_eq!(slugify("  lots   of   spaces  "), "lots-of-spaces");
}

#[test]
fn slugify_truncates_at_60_chars() {
    let long_title = "a".repeat(100);
    assert_eq!(slugify(&long_title).len(), 60);
}

#[test]
fn slugify_empty_string() {
    assert_eq!(slugify(""), "");
}

#[test]
fn slugify_only_special_chars() {
    assert_eq!(slugify("!!!@@@###"), "");
}

#[test]
fn slugify_lowercases_unicode_and_keeps_letters() {
    assert_eq!(slugify("Café Ünïcode"), "café-ünïcode");
}

#[test]
fn slugify_tabs_and_newlines_separate_words() {
    assert_eq!(slugify("one\ttwo\nthree"), "one-two-three");
}

#[test]
fn slugify_truncation_counts_characters() {
    let title = "é".repeat(70);
    let slug = slugify(&title);
    assert_eq!(slug.chars().count(), 60);
    assert!(!slug.contains(' '));
}

#[test]
fn slugify_never_has_spaces_or_exceeds_limit() {
    for title in ["a b c", "  x  ", "Word, word; WORD!", &"ab ".repeat(40)] {
        let slug = slugify(title);
        assert!(slug.chars().count() <= 60);
        assert!(!slug.contains(' '));
    }
}

// --- format_duration (whole seconds; the caller truncates fractional seconds) ---

#[test]
fn format_duration_seconds_only() {
    assert_eq!(format_duration(45.0f64 as u64), "0m45s");
}

#[test]
fn format_duration_minutes_and_seconds() {
    assert_eq!(format_duration(125.0f64 as u64), "2m05s");
}

#[test]
fn format_duration_with_hours() {
    assert_eq!(format_duration(3661.0f64 as u64), "1h01m01s");
}

#[test]
fn format_duration_zero() {
    assert_eq!(format_duration(0.0f64 as u64), "0m00s");
}

#[test]
fn format_duration_fractional_seconds() {
    assert_eq!(format_duration(59.9f64 as u64), "0m59s");
}

#[test]
fn format_duration_long_recording() {
    assert_eq!(format_duration(36000 + 59 * 60 + 9), "10h59m09s");
    assert_eq!(format_duration(3599), "59m59s");
    assert_eq!(format_duration(3600), "1h00m00s");
}

#[test]
fn slug_holds_only_letters_digits_hyphens_underscores() {
    let s = slugify("Héllo, Wörld! \u{2603} 2024 / draft_1");
    assert_eq!(s, "héllo-wörld-2024-draft_1");
    assert!(s.chars().all(|c| c.is_alphanumeric() || c == '-' || c == '_'));
}

#[test]
fn slug_of_a_slug_is_itself() {
    let s = slugify("Hello, World! (2024) -- notes_v2");
    assert_eq!(slugify(&s), s);
    assert_eq!(slug_from_lowercase(&s), s);
    assert_eq!(slug_from_lowercase("hello, world"), "hello-world");
}
