use vdom_runtime::text::{contains_str, dash_underscores, i32_string, join_strings, u32_string};

#[test]
fn decimal_rendering() {
    assert_eq!(u32_string(0), "0");
    assert_eq!(u32_string(7), "7");
    assert_eq!(u32_string(1000400), "1000400");
    assert_eq!(u32_string(u32::MAX), "4294967295");
}

#[test]
fn signed_decimal_rendering() {
    assert_eq!(i32_string(0), "0");
    assert_eq!(i32_string(-120), "-120");
    assert_eq!(i32_string(i32::MIN), "-2147483648");
    assert_eq!(i32_string(i32::MAX), "2147483647");
}

#[test]
fn dashes_replace_underscores() {
    assert_eq!(dash_underscores("transition_timing_function"), "transition-timing-function");
    assert_eq!(dash_underscores("color"), "color");
    assert_eq!(dash_underscores("___"), "---");
}

#[test]
fn joining_strings() {
    assert_eq!(join_strings(&vec![], " "), "");
    assert_eq!(join_strings(&vec!["a".to_string()], " "), "a");
    assert_eq!(
        join_strings(&vec!["a".to_string(), "b".to_string(), "c".to_string()], ", "),
        "a, b, c"
    );
}

#[test]
fn substring_search() {
    assert!(contains_str("#_7:hover {}", "_7"));
    assert!(contains_str("anything", ""));
    assert!(!contains_str("#_8 {}", "_7"));
    assert!(!contains_str("ab", "abc"));
}
