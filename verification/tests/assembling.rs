use tex2typst_ui::document::{assemble, push_wrapped};
use tex2typst_ui::scanner::{scan, MathSegment, SegmentKind};

#[test]
fn inline_conversion_stands_between_dollar_signs() {
    let mut out = String::from("a ");
    push_wrapped(&mut out, SegmentKind::Inline, "x^2");
    assert_eq!(out, "a $x^2$");
}

#[test]
fn display_conversion_stands_on_a_line_of_its_own() {
    let mut out = String::from("a ");
    push_wrapped(&mut out, SegmentKind::Display, "x^2");
    assert_eq!(out, "a $\nx^2\n$");
}

#[test]
fn empty_conversion_is_wrapped_too() {
    let mut out = String::new();
    push_wrapped(&mut out, SegmentKind::Inline, "");
    push_wrapped(&mut out, SegmentKind::Display, "");
    assert_eq!(out, "$$$\n\n$");
}

#[test]
fn assemble_without_regions_is_the_text() {
    assert_eq!(assemble("just text\n", &vec![], &vec![]), "just text\n");
    assert_eq!(assemble("", &vec![], &vec![]), "");
}

#[test]
fn assemble_replaces_each_region() {
    let text = "A \\(x\\) B \\[y\\] C";
    let segments = vec![
        MathSegment { kind: SegmentKind::Inline, start: 2, end: 7 },
        MathSegment { kind: SegmentKind::Display, start: 10, end: 15 },
    ];
    assert_eq!(scan(text), segments);
    let converted = vec![String::from("one"), String::from("two")];
    assert_eq!(assemble(text, &segments, &converted), "A $one$ B $\ntwo\n$ C");
}

#[test]
fn assemble_keeps_white_space_and_line_breaks_outside() {
    let text = "  a\n\n\\(x\\)\t\r\n\\(y\\)  \n";
    let segments = scan(text);
    assert_eq!(segments.len(), 2);
    let converted = vec![String::from("X"), String::from("Y")];
    assert_eq!(assemble(text, &segments, &converted), "  a\n\n$X$\t\r\n$Y$  \n");
}

#[test]
fn assemble_handles_regions_that_touch() {
    let text = "\\(a\\)\\(b\\)";
    let segments = scan(text);
    let converted = vec![String::from("1"), String::from("2")];
    assert_eq!(assemble(text, &segments, &converted), "$1$$2$");
}

#[test]
fn assemble_counts_characters_not_bytes() {
    let text = "数学 \\(x\\) é";
    let segments = scan(text);
    assert_eq!(segments, vec![MathSegment { kind: SegmentKind::Inline, start: 3, end: 8 }]);
    let converted = vec![String::from("ü")];
    assert_eq!(assemble(text, &segments, &converted), "数学 $ü$ é");
}
