use arena_agents::geom::{dist2, isqrt, normalize_to, vec3_sub, Vec3Fx};
use arena_agents::text::{
    fmt_milli, fmt_u128, parse_component_milli, str_contains, str_eq_fold, str_replace,
    trim_ascii_ws,
};

#[test]
fn isqrt_exact_values() {
    assert_eq!(isqrt(0), 0);
    assert_eq!(isqrt(1), 1);
    assert_eq!(isqrt(3), 1);
    assert_eq!(isqrt(4), 2);
    assert_eq!(isqrt(99), 9);
    assert_eq!(isqrt(100), 10);
    assert_eq!(isqrt(u64::MAX), 4_294_967_295);
}

#[test]
fn normalize_scales_to_the_target_length() {
    let v = Vec3Fx { x: 3_000, y: 0, z: 4_000 };
    let n = normalize_to(v, 1_000);
    // |v| = 5000, so the components shrink by five.
    assert_eq!(n, Vec3Fx { x: 600, y: 0, z: 800 });
    let zero = normalize_to(Vec3Fx { x: 0, y: 0, z: 0 }, 1_000);
    assert_eq!(zero, Vec3Fx { x: 0, y: 0, z: 0 });
}

#[test]
fn vector_sub_and_dist2() {
    let a = Vec3Fx { x: 5, y: 7, z: -2 };
    let b = Vec3Fx { x: 1, y: -1, z: 2 };
    assert_eq!(vec3_sub(a, b), Vec3Fx { x: 4, y: 8, z: -4 });
    assert_eq!(dist2(a, b), 16 + 64 + 16);
}

#[test]
fn fmt_u128_renders_decimals() {
    assert_eq!(fmt_u128(0), "0");
    assert_eq!(fmt_u128(7), "7");
    assert_eq!(fmt_u128(12_345), "12345");
}

#[test]
fn fmt_milli_renders_one_decimal_place() {
    assert_eq!(fmt_milli(0), "0.0");
    assert_eq!(fmt_milli(1_000), "1.0");
    assert_eq!(fmt_milli(1_250), "1.2");
    assert_eq!(fmt_milli(-500), "-0.5");
    assert_eq!(fmt_milli(-12_999), "-12.9");
}

#[test]
fn parse_component_reads_decimals() {
    assert_eq!(parse_component_milli("1.0"), 1_000);
    assert_eq!(parse_component_milli(" 2.5 "), 2_500);
    assert_eq!(parse_component_milli("-3.25"), -3_250);
    assert_eq!(parse_component_milli("+4"), 4_000);
    assert_eq!(parse_component_milli("0.1234"), 123);
    assert_eq!(parse_component_milli(".5"), 500);
    assert_eq!(parse_component_milli("7."), 7_000);
}

#[test]
fn parse_component_rejects_non_numbers() {
    assert_eq!(parse_component_milli(""), 0);
    assert_eq!(parse_component_milli("abc"), 0);
    assert_eq!(parse_component_milli("1.2.3"), 0);
    assert_eq!(parse_component_milli("-"), 0);
    assert_eq!(parse_component_milli("1e3"), 0);
    assert_eq!(parse_component_milli("1.0 units"), 0);
}

#[test]
fn parse_component_clamps_huge_values() {
    assert_eq!(parse_component_milli("99999999999999999999"), 1_000_000_000_000_000);
    assert_eq!(parse_component_milli("-99999999999999999999"), -1_000_000_000_000_000);
}

#[test]
fn trim_strips_ascii_whitespace() {
    assert_eq!(trim_ascii_ws("  hello \t\n"), "hello");
    assert_eq!(trim_ascii_ws("\r\n"), "");
    assert_eq!(trim_ascii_ws("x"), "x");
}

#[test]
fn contains_finds_substrings() {
    assert!(str_contains("the enemy approaches", "enemy"));
    assert!(str_contains("help", "help"));
    assert!(!str_contains("friendly", "enemy"));
    assert!(str_contains("anything", ""));
    assert!(!str_contains("ab", "abc"));
}

#[test]
fn eq_fold_matches_ascii_case() {
    assert!(str_eq_fold("WAIT", "wait"));
    assert!(str_eq_fold("DeFeNd", "defend"));
    assert!(!str_eq_fold("waits", "wait"));
    assert!(!str_eq_fold("walt", "wait"));
}

#[test]
fn replace_substitutes_every_occurrence() {
    assert_eq!(str_replace("a{x}b{x}", "{x}", "1"), "a1b1");
    assert_eq!(str_replace("no marker", "{x}", "1"), "no marker");
    assert_eq!(str_replace("{x}{x}", "{x}", ""), "");
}
