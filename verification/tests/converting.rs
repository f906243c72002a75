use tex2typst_ui::worker::{Worker, LINE_WIDTH};

const MACROS: &str = "\\newcommand{\\N}{\\mathbb{N}}
\\newcommand{\\R}{\\mathbb{R}}
\\newcommand{\\Arg}{\\operatorname{Arg}}
\\newcommand{\\pp}[2][]{\\frac{\\partial #1}{\\partial #2}}
";

fn ok(text: &str) -> Result<String, String> {
    Ok(text.to_string())
}

fn err(message: &str) -> Result<String, String> {
    Err(message.to_string())
}

#[test]
fn converts_a_formula() {
    let mut worker = Worker::new();
    assert_eq!(worker.convert_math("\\frac{1}{2}"), ok("1/2"));
    assert_eq!(worker.convert_math("a^2 + b^2 = c^2"), ok("a^2 + b^2 = c^2"));
    assert_eq!(worker.convert_math("\\alpha \\leq \\mathbb{R}"), ok("alpha lt.eq RR"));
    assert_eq!(worker.convert_math(""), ok(""));
}

#[test]
fn formula_fails_with_the_message_of_its_stage() {
    let mut worker = Worker::new();
    // The tokenizer fails.
    assert_eq!(worker.convert_math("x \\"), err("Expecting command name after '\\'"));
    // The parser fails.
    assert_eq!(worker.convert_math("}"), err("Unexpected '}'"));
    assert_eq!(worker.convert_math("\\frac{1}"), err("Unexpected end of input"));
    assert_eq!(worker.convert_math("a & b"), err("Unexpected & outside of an alignment"));
}

#[test]
fn expansion_fails_with_its_message() {
    let mut worker = Worker::new();
    assert_eq!(worker.register_macros("\\newcommand{\\half}[1]{\\frac{#1}{2}}"), Ok(1));
    assert_eq!(worker.convert_math("\\half{x}"), ok("x/2"));
    assert_eq!(
        worker.convert_math("\\half x"),
        err("Expecting one argument for command \\half")
    );
}

#[test]
fn identity_without_mathematics() {
    let mut worker = Worker::new();
    let texts = ["", "plain text", "  two  spaces\n\n\nthree lines  ", "a (b) [c] $d$ \\ e", "数学"];
    for text in texts {
        assert_eq!(worker.convert_document(text), ok(text), "on {:?}", text);
    }
}

#[test]
fn inline_region_is_isolated() {
    let mut worker = Worker::new();
    assert_eq!(worker.convert_document("a \\(\\frac{1}{2}\\) b"), ok("a $1/2$ b"));
    let converted = worker.convert_math("\\frac{1}{2}").unwrap();
    assert_eq!(
        worker.convert_document("before \\( \\frac{1}{2}  \\) behind"),
        Ok(format!("before ${}$ behind", converted))
    );
}

#[test]
fn display_region_is_wrapped_on_lines_of_its_own() {
    let mut worker = Worker::new();
    assert_eq!(
        worker.convert_document("x \\[\n  a^2 + b^2 = c^2\n\\] y"),
        ok("x $\na^2 + b^2 = c^2\n$ y")
    );
    let converted = worker.convert_math("\\frac{1}{2}").unwrap();
    assert_eq!(
        worker.convert_document("\\[\\frac{1}{2}\\]"),
        Ok(format!("$\n{}\n$", converted))
    );
}

#[test]
fn unmatched_delimiter_passes_through() {
    let mut worker = Worker::new();
    assert_eq!(worker.convert_document("\\(abc"), ok("\\(abc"));
    assert_eq!(worker.convert_document("\\[abc\n\\)"), ok("\\[abc\n\\)"));
    assert_eq!(worker.convert_document("\\(a\nb\\)"), ok("\\(a\nb\\)"));
}

#[test]
fn order_and_text_between_are_kept() {
    let mut worker = Worker::new();
    assert_eq!(
        worker.convert_document("A \\(x\\) B\n \\[y\\] C \\(z\\)."),
        ok("A $x$ B\n $\ny\n$ C $z$.")
    );
}

#[test]
fn first_failure_is_the_whole_outcome() {
    let mut worker = Worker::new();
    assert_eq!(worker.convert_document("A \\(x\\) B \\(}\\) C"), err("Unexpected '}'"));
    assert_eq!(
        worker.convert_document("A \\(x\\) B \\(\\frac{1}\\) C \\(}\\)"),
        err("Unexpected end of input")
    );
    assert_eq!(
        worker.convert_document("\\(}\\) \\(\\frac{1}\\)"),
        err("Unexpected '}'")
    );
}

#[test]
fn body_is_trimmed_before_it_is_converted() {
    let mut worker = Worker::new();
    assert_eq!(worker.convert_document("\\(  x  \\)"), ok("$x$"));
    assert_eq!(worker.convert_document("\\[\n\tx\n\\]"), ok("$\nx\n$"));
    assert_eq!(worker.convert_document("\\( \\)"), ok("$$"));
}

#[test]
fn conversion_leaves_the_worker_as_it_was() {
    let mut worker = Worker::new();
    assert_eq!(worker.register_macros(MACROS), Ok(4));
    let text = "\\(\\R\\) and \\(}\\)";
    let first = worker.convert_document(text);
    let second = worker.convert_document(text);
    assert_eq!(first, second);
    assert_eq!(worker.convert_document("\\(\\R\\)"), ok("$RR$"));
    assert_eq!(worker.convert_document("\\(\\R\\)"), ok("$RR$"));
}

#[test]
fn work_lays_the_conversion_out() {
    let mut worker = Worker::new();
    assert_eq!(LINE_WIDTH, 80);
    assert_eq!(worker.work("a \\(\\frac{1}{2}\\) b"), ok("a $1/2$ b\n"));
    assert_eq!(worker.work("  two  spaces \\( x \\)  "), ok("two spaces $x$\n"));
    assert_eq!(worker.work(""), ok("\n"));
    assert_eq!(worker.work("A \\(x\\) B \\(}\\) C"), err("Unexpected '}'"));
    let converted = worker.convert_document("x \\[ a + b \\] y").unwrap();
    assert_eq!(
        worker.work("x \\[ a + b \\] y"),
        Ok(typstyle_core::format_with_width(&converted, 80))
    );
}

#[test]
fn preview_shows_the_conversion_or_the_error() {
    let mut worker = Worker::new();
    assert_eq!(worker.preview("a \\(\\frac{1}{2}\\) b"), "a $1/2$ b\n");
    assert_eq!(worker.preview("A \\(x\\) B \\(}\\) C"), "Error: Unexpected '}'");
    assert_eq!(worker.preview("\\(\\frac{1}\\)"), "Error: Unexpected end of input");
}

#[test]
fn empty_block_clears_the_macros() {
    let mut worker = Worker::new();
    assert_eq!(worker.register_macros("\\newcommand{\\R}{\\mathbb{R}}"), Ok(1));
    assert_eq!(worker.convert_document("\\(\\R\\)"), ok("$RR$"));
    assert_eq!(worker.register_macros(""), Ok(0));
    // The name is no macro any more: it is written out as any unknown
    // command is.
    assert_eq!(worker.convert_document("\\(\\R\\)"), ok("$R$"));
    assert_eq!(worker.convert_document("\\(\\R\\)"), Worker::new().convert_document("\\(\\R\\)"));
}

#[test]
fn valid_block_registers_its_macros() {
    let mut worker = Worker::new();
    assert_eq!(worker.convert_document("\\(\\pp[f]{x} \\N\\)"), ok("$pp [f] x N$"));
    assert_eq!(worker.register_macros(MACROS), Ok(4));
    assert_eq!(worker.convert_document("\\(\\pp[f]{x} \\N\\)"), ok("$(diff f)/(diff x) NN$"));
    assert_eq!(worker.convert_document("\\(\\Arg z\\)"), ok("$op(\"Arg\") z$"));
}

#[test]
fn new_block_replaces_the_old_macros() {
    let mut worker = Worker::new();
    assert_eq!(worker.register_macros("\\newcommand{\\R}{\\mathbb{R}}"), Ok(1));
    assert_eq!(worker.register_macros("\\newcommand{\\N}{\\mathbb{N}}"), Ok(1));
    assert_eq!(worker.convert_document("\\(\\R \\N\\)"), ok("$R NN$"));
}

#[test]
fn block_that_cannot_be_read_changes_nothing() {
    let mut worker = Worker::new();
    assert_eq!(worker.register_macros("\\newcommand{\\N}{\\mathbb{N}}"), Ok(1));
    assert_eq!(
        worker.register_macros("\\newcommand{R}{x}"),
        Err("Expecting backslash for command name after {".to_string())
    );
    assert_eq!(worker.register_macros("hello"), Err("No custom macros found".to_string()));
    assert_eq!(
        worker.register_macros("\\newcommand{\\a}[3]{x}"),
        Err("Only unary and binary commands are supported".to_string())
    );
    assert_eq!(worker.convert_document("\\(\\N\\)"), ok("$NN$"));
}

#[test]
fn scenario_macro_registered_behind_a_first_conversion() {
    let mut worker = Worker::new();
    let input = "Text \\(\\R\\)";
    // Without the macro the command is written out by its name.
    assert_eq!(worker.convert_document(input), ok("Text $R$"));
    assert_eq!(worker.register_macros("\\newcommand{\\R}{\\mathbb{R}}"), Ok(1));
    let converted = worker.convert_math("\\mathbb{R}").unwrap();
    assert_eq!(converted, "RR");
    assert_eq!(worker.convert_document(input), Ok(format!("Text ${}$", converted)));
}

#[test]
fn agrees_with_the_converter_on_whole_documents() {
    let documents = [
        "",
        "plain",
        "Here comes some text\n\\[\n    x = \\frac{-b \\pm \\sqrt{b^2 - 4ac}}{2a}\n\\]\n\nThe following use some custom macros (see below)\n\\(\\R\\)\n\n\\(\\Arg \\N \\pp{x}\\)",
        "\\(a\\)\\(b\\) \\[c\\]\\(d",
        "\\(}\\) \\(x\\)",
        "\\(x\\) \\(\\frac{1}\\)",
        "数学 \\(\\alpha\\) é \\[ \\beta \\]",
        "\\(\\)x\\)",
    ];
    for macros in ["", MACROS] {
        let mut worker = Worker::new();
        assert!(worker.register_macros(macros).is_ok());
        for text in documents {
            assert_eq!(
                worker.convert_document(text),
                tex2typst_rs::text_and_tex2typst_with_macros(text, macros),
                "on {:?}",
                text
            );
        }
    }
}
