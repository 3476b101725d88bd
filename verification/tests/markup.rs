use utilprint::render::{preprocess_text, visible_length};
use utilprint::resolver::{parse_unicode_code, ColorCodes};

#[test]
fn test_utilprint() {
    let text = "@rHello, @bworld!";
    let rendered = ColorCodes::new().render(text);
    assert_eq!(rendered, "\x1b[31mHello, \x1b[34mworld!\x1b[0m");
}

#[test]
fn test_parse_unicode_code() {
    assert_eq!(parse_unicode_code("263A"), Some('\u{263A}'));
    assert_eq!(parse_unicode_code("1F602"), Some('\u{1F602}'));
}

#[test]
fn test_parse_unicode_code_rejects() {
    assert_eq!(parse_unicode_code(""), None);
    assert_eq!(parse_unicode_code("xyz"), None);
    assert_eq!(parse_unicode_code("26 A"), None);
    // a surrogate is not a scalar value
    assert_eq!(parse_unicode_code("D800"), None);
    // past the last code point
    assert_eq!(parse_unicode_code("110000"), None);
    // far past any code point, whatever the digit count
    assert_eq!(parse_unicode_code("FFFFFFFFFF"), None);
}

#[test]
fn test_render_plain_text_gets_one_reset() {
    let codes = ColorCodes::new();
    assert_eq!(codes.render("hello"), "hello\x1b[0m");
    assert_eq!(codes.render(""), "\x1b[0m");
}

#[test]
fn test_render_escaped_triggers() {
    let codes = ColorCodes::new();
    assert_eq!(codes.render("a@@b"), "a@b\x1b[0m");
    assert_eq!(codes.render("##"), "#\x1b[0m");
    assert_eq!(codes.render("@@x196"), "@x196\x1b[0m");
}

#[test]
fn test_render_named_markers() {
    let codes = ColorCodes::new();
    assert_eq!(codes.render("@gok@u"), "\x1b[32mok\x1b[0m\x1b[0m");
    assert_eq!(codes.render("@Wbright"), "\x1b[97mbright\x1b[0m");
}

#[test]
fn test_xterm_markers_resolve() {
    let codes = ColorCodes::new();
    let (n, code) = codes.get_code("@x000");
    assert_eq!((n, code.as_str()), (5, "\x1b[38;5;0m"));
    let (n, code) = codes.get_code("@x196");
    assert_eq!((n, code.as_str()), (5, "\x1b[38;5;196m"));
    let (n, code) = codes.get_code("@x255");
    assert_eq!((n, code.as_str()), (5, "\x1b[38;5;255m"));
    // out of range: five characters consumed, nothing produced
    let (n, code) = codes.get_code("@x256");
    assert_eq!((n, code.as_str()), (5, ""));
}

#[test]
fn test_lone_trailing_trigger() {
    let codes = ColorCodes::new();
    let (n, code) = codes.get_code("@");
    assert_eq!((n, code.as_str()), (2, ""));
    assert_eq!(codes.render("end@"), "end\x1b[0m");
    assert_eq!(codes.render("end#"), "end\x1b[0m");
}

#[test]
fn test_unicode_directive_is_four_digits() {
    let codes = ColorCodes::new();
    // #263A decodes to U+263A
    assert_eq!(codes.render("#263A"), "\u{263A}\x1b[0m");
    // #1F602 decodes its first four digits; the 2 stays literal text
    assert_eq!(codes.render("#1F602"), "\u{1F60}2\x1b[0m");
    // a surrogate drops silently, consuming five characters
    assert_eq!(codes.render("#D800!"), "!\x1b[0m");
}

#[test]
fn test_visible_length_counts_glyphs() {
    assert_eq!(visible_length("@rHello@u"), 5);
    assert_eq!(visible_length("@@"), 1);
    assert_eq!(visible_length("#263A"), 1);
    assert_eq!(visible_length("@x256"), 0);
    assert_eq!(visible_length("@x196red"), 3);
    assert_eq!(visible_length(""), 0);
}

#[test]
fn test_visible_length_matches_preprocessed_text() {
    for text in ["@rHello, @bworld!", "a@@b #263A", "@x001@x256#ZZZZ", "plain"] {
        assert_eq!(visible_length(text), preprocess_text(text).chars().count());
    }
}
