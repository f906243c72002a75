use regex::Regex;
use tex2typst_ui::scanner::{body, next_segment, scan, scan_chars, MathSegment, SegmentKind};

fn inline(start: usize, end: usize) -> MathSegment {
    MathSegment { kind: SegmentKind::Inline, start, end }
}

fn display(start: usize, end: usize) -> MathSegment {
    MathSegment { kind: SegmentKind::Display, start, end }
}

/// The regions that the pattern of regular expressions finds, with positions
/// counted in characters.
fn by_pattern(pattern: &Regex, text: &str) -> Vec<MathSegment> {
    let mut found = Vec::new();
    for caps in pattern.captures_iter(text) {
        let whole = caps.get(0).unwrap();
        let start = text[..whole.start()].chars().count();
        let end = text[..whole.end()].chars().count();
        if caps.get(1).is_some() {
            found.push(inline(start, end));
        } else {
            assert!(caps.get(2).is_some());
            found.push(display(start, end));
        }
    }
    found
}

fn pattern() -> Regex {
    Regex::new(r"\\\((.+?)\\\)|(?s)\\\[(.+?)\\\]").unwrap()
}

#[test]
fn finds_an_inline_region() {
    assert_eq!(scan("a \\(x\\) b"), vec![inline(2, 7)]);
}

#[test]
fn finds_a_display_region() {
    assert_eq!(scan("a \\[x\\] b"), vec![display(2, 7)]);
}

#[test]
fn finds_nothing_in_plain_text() {
    assert_eq!(scan("no mathematics here, only (brackets) and [more]"), vec![]);
    assert_eq!(scan(""), vec![]);
    assert_eq!(scan("\\"), vec![]);
}

#[test]
fn display_region_spans_lines() {
    assert_eq!(scan("\\[\n  x\n\\]"), vec![display(0, 9)]);
}

#[test]
fn inline_region_does_not_span_lines() {
    assert_eq!(scan("\\(x\ny\\)"), vec![]);
    assert_eq!(scan("\\(\nx\\)"), vec![]);
    assert_eq!(scan("\\(x\r\\)"), vec![inline(0, 6)]);
}

#[test]
fn open_marker_without_close_is_text() {
    assert_eq!(scan("\\(abc"), vec![]);
    assert_eq!(scan("\\[abc"), vec![]);
    assert_eq!(scan("\\(abc\\]"), vec![]);
    assert_eq!(scan("abc\\)"), vec![]);
}

#[test]
fn body_has_at_least_one_character() {
    assert_eq!(scan("\\(\\)"), vec![]);
    assert_eq!(scan("\\[\\]"), vec![]);
    // The closing marker is sought behind the first character of the body.
    assert_eq!(scan("\\(\\)x\\)"), vec![inline(0, 7)]);
    assert_eq!(scan("\\(\\\\)"), vec![inline(0, 5)]);
}

#[test]
fn body_ends_at_the_first_closing_marker() {
    assert_eq!(scan("\\(a\\) b \\)"), vec![inline(0, 5)]);
    assert_eq!(scan("\\(a\\)\\(b\\)"), vec![inline(0, 5), inline(5, 10)]);
}

#[test]
fn markers_inside_a_body_are_its_content() {
    assert_eq!(scan("\\(a \\[ b\\) c \\]"), vec![inline(0, 10)]);
    assert_eq!(scan("\\[a \\( b\\] c \\)"), vec![display(0, 10)]);
    assert_eq!(scan("\\(a \\( b\\)"), vec![inline(0, 10)]);
}

#[test]
fn search_goes_on_behind_a_failed_start() {
    // The inline start fails at the line feed; the display region behind it
    // is found.
    assert_eq!(scan("\\(a\n\\[b\\]\\)"), vec![display(4, 9)]);
    // A region may start inside what a failed start passed over.
    assert_eq!(scan("\\[ \\(x\\)"), vec![inline(3, 8)]);
}

#[test]
fn regions_come_in_document_order() {
    assert_eq!(
        scan("A \\(x\\) B \\[y\\] C \\(z\\)"),
        vec![inline(2, 7), display(10, 15), inline(18, 23)]
    );
}

#[test]
fn positions_count_characters() {
    // Two characters of three bytes each stand in front of the region.
    assert_eq!(scan("数学\\(é\\)"), vec![inline(2, 7)]);
    assert_eq!(by_pattern(&pattern(), "数学\\(é\\)"), vec![inline(2, 7)]);
}

#[test]
fn body_stands_between_the_markers() {
    let text = "数 \\( x + y\\) and \\[\nz\n\\]";
    let found = scan(text);
    assert_eq!(found.len(), 2);
    assert_eq!(body(text, &found[0]), " x + y");
    assert_eq!(body(text, &found[1]), "\nz\n");
}

#[test]
fn next_segment_starts_at_the_given_position() {
    let chars: Vec<char> = "\\(a\\) \\[b\\]".chars().collect();
    assert_eq!(next_segment(&chars, 0), Some(inline(0, 5)));
    assert_eq!(next_segment(&chars, 1), Some(display(6, 11)));
    assert_eq!(next_segment(&chars, 6), Some(display(6, 11)));
    assert_eq!(next_segment(&chars, 7), None);
    assert_eq!(next_segment(&chars, 11), None);
    assert_eq!(next_segment(&chars, 50), None);
    assert_eq!(scan_chars(&chars), vec![inline(0, 5), display(6, 11)]);
}

#[test]
fn agrees_with_the_pattern_on_samples() {
    let pattern = pattern();
    let samples = [
        "Here comes some text\n\\[\n    x = \\frac{-b \\pm \\sqrt{b^2 - 4ac}}{2a}\n\\]\n\n\\(\\R\\)\n\n\\(\\Arg \\Log\\)",
        "\\(\\)\\(\\)",
        "\\(\\(\\)\\)",
        "\\[\\(\\]\\)",
        "\\\\(x\\\\)",
        "\\\\\\(x\\\\\\)",
        "\\(x\\",
        "\\(\u{2028}\\)",
        "\\(\u{85}a\\)",
        "é\\[ü\nö\\]ß\\(数\\)",
        "\\(a\r\nb\\)",
    ];
    for text in samples {
        assert_eq!(scan(text), by_pattern(&pattern, text), "on {:?}", text);
    }
}

#[test]
fn agrees_with_the_pattern_on_every_short_text() {
    let pattern = pattern();
    let alphabet = ['\\', '(', ')', '[', ']', 'x', '\n'];
    let mut count = 0usize;
    for len in 0..=6u32 {
        let total = alphabet.len().pow(len);
        for code in 0..total {
            let mut text = String::new();
            let mut rest = code;
            for _ in 0..len {
                text.push(alphabet[rest % alphabet.len()]);
                rest /= alphabet.len();
            }
            assert_eq!(scan(&text), by_pattern(&pattern, &text), "on {:?}", text);
            count += 1;
        }
    }
    assert_eq!(count, 137257);
}
