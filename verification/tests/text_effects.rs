use utilprint::effects::TextEffects;
use utilprint::gradient::rgb_to_xterm;

#[test]
fn test_pastelbow() {
    let text = "Hello".pastelbow();
    assert!(text.starts_with("@x226H"));
    assert!(text.contains("@x190e"));
    assert!(text.contains("@x155l"));
    assert!(text.contains("@x119o"));
}

#[test]
fn test_rainbow() {
    let text = "Hello World".rainbow();
    assert!(text.contains("@x196H"));
    assert!(text.contains("@x202e"));
    assert!(text.contains("@x208l"));
    assert!(text.contains("@x214l"));
    assert!(text.contains("@x220o"));
    assert!(text.contains("@x226 "));
    assert!(text.contains("@x154W"));
    assert!(text.contains("@x082o"));
    assert!(text.contains("@x046r"));
    assert!(text.contains("@x035l"));
    assert!(text.contains("@x025d"));
}

#[test]
fn test_lover() {
    let text = "Hello".lover();
    assert!(text.contains("@x218H"));
    assert!(text.contains("@x176e"));
    assert!(text.contains("@x229l"));
    assert!(text.contains("@x219l"));
    assert!(text.contains("@x153o"));
}

#[test]
fn test_red() {
    assert_eq!("warning".red(), "@rwarning@u");
}

#[test]
fn test_deterministic_effects_repeat_exactly() {
    let text = "Hello World";
    assert_eq!(text.rainbow(), text.rainbow());
    assert_eq!(text.pastelbow(), text.pastelbow());
    assert_eq!(text.lover(), text.lover());
    // the full expected markup, spelled out once
    assert_eq!("Hi".lover(), "@x218H@x176i@u");
}

#[test]
fn test_deterministic_effects_always_append_reset() {
    // fixed-palette effects close even empty text with a reset marker
    assert_eq!("".rainbow(), "@u");
    assert!("   ".rainbow().ends_with("@u"));
}

#[test]
fn test_random_xterm_gradient() {
    let text = "Hello World".random_xterm_gradient();
    // Should contain xterm color codes
    assert!(text.contains("@x"));
    // Should end with reset
    assert!(text.ends_with("@u"));
    // Should preserve whitespace
    assert!(text.contains(" "));
    // Should be random - different calls should produce different results
    let text2 = "Hello World".random_xterm_gradient();
    // Note: There's a tiny chance they could be the same, but very unlikely
    println!("Text 1: {}", text);
    println!("Text 2: {}", text2);
}

#[test]
fn test_random_truecolor_gradient() {
    let text = "Hello World".random_truecolor_gradient();
    // Should contain ANSI truecolor escape sequences
    assert!(text.contains("\x1b[38;2;"));
    // Should end with reset
    assert!(text.ends_with("\x1b[0m"));
    // Should preserve whitespace
    assert!(text.contains(" "));
    // Should be random - different calls should produce different results
    let text2 = "Hello World".random_truecolor_gradient();
    println!("Text 1: {}", text);
    println!("Text 2: {}", text2);
}

#[test]
fn test_empty_string_gradients() {
    assert_eq!("".random_xterm_gradient(), "");
    assert_eq!("".random_truecolor_gradient(), "");
}

#[test]
fn test_whitespace_only_gradients() {
    assert_eq!("   ".random_xterm_gradient(), "   ");
    assert_eq!("   ".random_truecolor_gradient(), "   ");
}

#[test]
fn test_gradient_with_seed_is_reproducible() {
    let a = utilprint::gradient::xterm_gradient_with_seed("Hello World", 12345);
    let b = utilprint::gradient::xterm_gradient_with_seed("Hello World", 12345);
    assert_eq!(a, b);
    let c = utilprint::gradient::truecolor_gradient_with_seed("Hello World", 12345);
    let d = utilprint::gradient::truecolor_gradient_with_seed("Hello World", 12345);
    assert_eq!(c, d);
}

#[test]
fn test_quantize_grayscale_range() {
    assert_eq!(rgb_to_xterm(10, 10, 10), 232);
    assert_eq!(rgb_to_xterm(128, 128, 128), 244);
    assert_eq!(rgb_to_xterm(250, 250, 250), 255);
    assert_eq!(rgb_to_xterm(0, 0, 0), 232);
    assert_eq!(rgb_to_xterm(255, 255, 255), 255);
}

#[test]
fn test_quantize_primaries_hit_the_cube() {
    let red = rgb_to_xterm(255, 0, 0);
    let green = rgb_to_xterm(0, 255, 0);
    let blue = rgb_to_xterm(0, 0, 255);
    assert_eq!(red, 196);
    assert_eq!(green, 46);
    assert_eq!(blue, 21);
    for x in [red, green, blue] {
        assert!((16..=231).contains(&x));
    }
}
