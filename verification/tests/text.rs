use sandbox_engine::text::{chars_of, contains, last_segment_of, same_text, starts_with};

const SAMPLES: [&str; 16] = [
    "",
    ".",
    "a",
    "ab",
    "aab",
    "abab",
    "a.b",
    "a..b",
    "a.b.c",
    "a::b",
    "a:::b",
    "::",
    "textures/player.png",
    "bevy_transform::components::transform::Transform",
    "héllo wörld",
    "日本語.テキスト",
];

const PATTERNS: [&str; 12] = ["", ".", "a", "b", "ab", "ba", "::", ":", "Transform", "é", "語", "/"];

#[test]
fn chars_of_lists_the_characters() {
    assert_eq!(chars_of(""), Vec::<char>::new());
    assert_eq!(chars_of("a.b"), vec!['a', '.', 'b']);
    assert_eq!(chars_of("héé"), vec!['h', 'é', 'é']);
    for sample in SAMPLES {
        assert_eq!(chars_of(sample), sample.chars().collect::<Vec<char>>());
    }
}

#[test]
fn same_text_is_string_equality() {
    assert!(same_text("", ""));
    assert!(same_text("abc", "abc"));
    assert!(!same_text("abc", "abd"));
    assert!(!same_text("abc", "ab"));
    assert!(!same_text("ab", "abc"));
    for left in SAMPLES {
        for right in SAMPLES {
            assert_eq!(same_text(left, right), left == right, "{:?} {:?}", left, right);
        }
    }
}

#[test]
fn starts_with_agrees_with_std() {
    assert!(starts_with("models/ship", "models"));
    assert!(starts_with("models", "models"));
    assert!(starts_with("models", ""));
    assert!(!starts_with("model", "models"));
    assert!(!starts_with("xmodels", "models"));
    for text in SAMPLES {
        for prefix in SAMPLES.iter().chain(PATTERNS.iter()) {
            assert_eq!(starts_with(text, prefix), text.starts_with(prefix), "{:?} {:?}", text, prefix);
        }
    }
}

#[test]
fn contains_agrees_with_std() {
    assert!(contains("GlobalTransform", "Transform"));
    assert!(contains("Transform", "Transform"));
    assert!(contains("abc", ""));
    assert!(contains("", ""));
    assert!(!contains("", "a"));
    assert!(!contains("Transfor", "Transform"));
    assert!(contains("xxTransform", "Transform"));
    assert!(contains("aab", "ab"));
    for text in SAMPLES {
        for pattern in SAMPLES.iter().chain(PATTERNS.iter()) {
            assert_eq!(contains(text, pattern), text.contains(pattern), "{:?} {:?}", text, pattern);
        }
    }
}

#[test]
fn last_segment_follows_the_last_separator() {
    assert_eq!(last_segment_of("a.b.c", "."), "c");
    assert_eq!(last_segment_of("abc", "."), "abc");
    assert_eq!(last_segment_of("abc.", "."), "");
    assert_eq!(last_segment_of(".abc", "."), "abc");
    assert_eq!(last_segment_of("", "."), "");
    assert_eq!(last_segment_of("a::b::C", "::"), "C");
    assert_eq!(last_segment_of("a:::b", "::"), "b");
    assert_eq!(last_segment_of("a:b", "::"), "a:b");
    assert_eq!(last_segment_of("é.ü", "."), "ü");
}

#[test]
fn last_segment_agrees_with_rsplit() {
    for text in SAMPLES {
        for separator in [".", "::", "a", "ab", "/", "é"] {
            assert_eq!(
                last_segment_of(text, separator),
                text.rsplit(separator).next().unwrap(),
                "{:?} {:?}",
                text,
                separator
            );
        }
    }
}
