use cardbench_magic_policies::planner::board::{is_hostile_attachment, scalar_field};
use cardbench_magic_policies::text::{contains, decimal_string, lex_less, text_eq};

#[test]
fn containment_finds_any_occurrence() {
    assert!(contains("life = [23, 17]", "[23, 17]"));
    assert!(contains("abc", ""));
    assert!(!contains("abc", "abcd"));
    assert!(!contains("ab c", "abc"));
}

#[test]
fn text_comparison_is_exact_and_lexicographic() {
    assert!(text_eq("p0", "p0"));
    assert!(!text_eq("p0", "p1"));
    assert!(lex_less("a", "b"));
    assert!(lex_less("ab", "abc"));
    assert!(!lex_less("abc", "ab"));
    assert!(!lex_less("x", "x"));
    assert!(lex_less("Z", "a"));
}

#[test]
fn decimals_render_without_leading_zeros() {
    assert_eq!(decimal_string(0), "0");
    assert_eq!(decimal_string(120), "120");
    assert_eq!(decimal_string(u64::MAX), u64::MAX.to_string());
}

#[test]
fn hostile_attachments_are_read_from_their_rendering() {
    assert!(is_hostile_attachment("Modify { power: -2, toughness: 0 }"));
    assert!(is_hostile_attachment("Grant(CannotBlock)"));
    assert!(is_hostile_attachment("Grant(Defender)"));
    assert!(!is_hostile_attachment("Modify { power: 2, toughness: 2 }"));
}

#[test]
fn a_scalar_field_reads_the_digits_after_its_name() {
    assert_eq!(scalar_field("Modify { power: 3, toughness: 12 }", "toughness"), Some(12));
    assert_eq!(scalar_field("Modify { power: 3 }", "power"), Some(3));
    assert_eq!(scalar_field("Modify { power: -3 }", "power"), None);
    assert_eq!(scalar_field("Modify { power: 300 }", "power"), None);
    assert_eq!(scalar_field("Modify { power: 255 }", "power"), Some(255));
    assert_eq!(scalar_field("Modify { toughness: 1 }", "power"), None);
    assert_eq!(scalar_field("power: 007", "power"), Some(7));
}
