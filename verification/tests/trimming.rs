use tex2typst_ui::text::{chars_of, trim};

#[test]
fn chars_of_lists_the_characters() {
    assert_eq!(chars_of(""), Vec::<char>::new());
    assert_eq!(chars_of("a\\(数"), vec!['a', '\\', '(', '数']);
}

#[test]
fn trim_drops_white_space_at_both_ends() {
    assert_eq!(trim("  x + y \n"), "x + y");
    assert_eq!(trim("\t\r\n x\u{a0}"), "x");
    assert_eq!(trim("x"), "x");
}

#[test]
fn trim_keeps_white_space_inside() {
    assert_eq!(trim(" a  b\nc "), "a  b\nc");
}

#[test]
fn trim_of_white_space_is_empty() {
    assert_eq!(trim(""), "");
    assert_eq!(trim(" \n\t "), "");
    assert_eq!(trim("\u{3000}\u{2003}"), "");
}

#[test]
fn trim_takes_white_space_as_unicode_defines_it() {
    // A zero width space is no white space; an ideographic space is.
    assert_eq!(trim("\u{200b}x\u{200b}"), "\u{200b}x\u{200b}");
    assert_eq!(trim("\u{3000}数\u{3000}"), "数");
}

#[test]
fn trim_agrees_with_the_standard_library() {
    let samples = [
        "",
        " ",
        "a",
        " a",
        "a ",
        "  a b  ",
        "\n\\frac{1}{2}\n",
        "\u{85}x\u{1680}",
        "\u{2028}\u{2029}é\u{202f}\u{205f}",
        "\u{feff}x",
        "\u{1c}x\u{1f}",
    ];
    for text in samples {
        assert_eq!(trim(text), text.trim(), "on {:?}", text);
    }
}
