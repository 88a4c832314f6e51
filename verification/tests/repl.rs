use pilisp_jit::repl::{is_balanced, trim_text, Repl, ReplAction, ReplEvent, Report};

#[test]
fn closed_brackets_are_balanced() {
    assert!(is_balanced("(+ 1 2)"));
    assert!(is_balanced("[1 (2) 3]\n"));
    assert!(is_balanced("x"));
    assert!(is_balanced("\n"));
    assert!(is_balanced("(]"));
}

#[test]
fn open_brackets_are_not_balanced() {
    assert!(!is_balanced("("));
    assert!(!is_balanced("(define (f x)"));
    assert!(!is_balanced("[1 2"));
}

#[test]
fn more_closing_than_opening_counts_as_balanced() {
    assert!(is_balanced(")"));
    assert!(is_balanced("(a)) ]"));
}

#[test]
fn empty_input_is_not_balanced() {
    assert!(!is_balanced(""));
}

#[test]
fn brackets_in_strings_do_not_count() {
    assert!(is_balanced("(print \"(((\")"));
    assert!(!is_balanced("(print \")\""));
    assert!(is_balanced("\"([\""));
}

#[test]
fn escaped_quotes_do_not_end_a_string() {
    assert!(is_balanced("(print \"a\\\"(\")"));
    assert!(!is_balanced("(print \"a\\\\\" ("));
    // Outside of a string a backslash escapes nothing.
    assert!(is_balanced("\\\"(\""));
}

#[test]
fn brackets_after_other_letters_count() {
    assert!(!is_balanced("\u{3c0} (\u{3bb} x"));
    assert!(is_balanced("\u{3c0} (\u{3bb} x)"));
}

#[test]
fn trimming_agrees_with_the_standard_library() {
    for s in [
        "",
        " ",
        "\n\t (a b) \r\n",
        "plain",
        "\u{a0}\u{3000}x y\u{2028}\u{2029}",
        "\u{85}\u{1680}\u{2003}z",
        "\u{200b}kept\u{200b}",
        "\u{b}\u{c}a\u{205f}\u{202f}",
    ] {
        assert_eq!(trim_text(s), s.trim());
    }
}

#[test]
fn every_white_space_character_is_trimmed() {
    for c in 0..0x11000u32 {
        if let Some(ch) = char::from_u32(c) {
            let s = ch.to_string();
            assert_eq!(trim_text(&s).is_empty(), ch.is_whitespace());
        }
    }
}

#[test]
fn the_loop_gathers_lines_until_they_are_balanced() {
    let mut repl = Repl::new();
    assert_eq!(repl.prompt(), "\u{3c0}> ");
    assert_eq!(repl.handle(ReplEvent::Line("(define x".to_string())), ReplAction::Prompt);
    assert_eq!(repl.input, "(define x\n");
    assert_eq!(repl.prompt(), "...  ");
    assert_eq!(
        repl.handle(ReplEvent::Line("  1)".to_string())),
        ReplAction::Run("(define x\n  1)".to_string())
    );
    assert_eq!(repl.input, "");
    assert_eq!(repl.prompt(), "\u{3c0}> ");
}

#[test]
fn a_blank_line_runs_nothing() {
    let mut repl = Repl::new();
    assert_eq!(repl.handle(ReplEvent::Line("   ".to_string())), ReplAction::Prompt);
    assert_eq!(repl.input, "");
}

#[test]
fn the_loop_ends_with_the_input() {
    let mut repl = Repl::new();
    assert_eq!(repl.handle(ReplEvent::EndOfInput), ReplAction::Leave);
    assert_eq!(
        repl.handle(ReplEvent::Failed("broken pipe".to_string())),
        ReplAction::Fail("Input error: broken pipe".to_string())
    );
}

#[test]
fn results_are_reported() {
    assert_eq!(Report::Value("()".to_string()).line(), "=> ()");
    assert_eq!(
        Report::EvaluationError("unbound".to_string()).line(),
        "Evaluation Error: unbound"
    );
    assert_eq!(Report::ParseError("unexpected )".to_string()).line(), "Parse error: unexpected )");
}
