use byoridb_executor::text::{parse_i64, push_decimal, push_signed_decimal, split_chars, string_of_chars};

fn chars(s: &str) -> Vec<char> {
    s.chars().collect()
}

#[test]
fn decimal_rendering() {
    let mut s = String::from("n=");
    push_decimal(&mut s, 0);
    assert_eq!(s, "n=0");
    let mut s = String::new();
    push_decimal(&mut s, u64::MAX);
    assert_eq!(s, u64::MAX.to_string());
    let mut s = String::new();
    push_signed_decimal(&mut s, i64::MIN);
    assert_eq!(s, i64::MIN.to_string());
    let mut s = String::new();
    push_signed_decimal(&mut s, -305);
    assert_eq!(s, "-305");
}

#[test]
fn parsing_matches_std() {
    for t in ["0", "-0", "+12", "12a", "", "-", "+", " 1", "9223372036854775807", "9223372036854775808", "-9223372036854775808", "-9223372036854775809", "007"] {
        assert_eq!(parse_i64(&chars(t)), t.parse::<i64>().ok(), "{t}");
    }
}

#[test]
fn splitting_keeps_empty_fields() {
    let parts = split_chars(&chars("a::b:"), ':');
    let parts: Vec<String> = parts.iter().map(string_of_chars).collect();
    assert_eq!(parts, vec!["a", "", "b", ""]);
}
