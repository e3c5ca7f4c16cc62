use rslox::text::{chars_of, push_decimal};

fn decimal(n: usize) -> String {
    let mut text = String::new();
    push_decimal(&mut text, n);
    text
}

#[test]
fn decimal_numerals() {
    assert_eq!(decimal(0), "0");
    assert_eq!(decimal(7), "7");
    assert_eq!(decimal(10), "10");
    assert_eq!(decimal(255), "255");
    assert_eq!(decimal(1000000), "1000000");
    assert_eq!(decimal(usize::MAX), usize::MAX.to_string());
}

#[test]
fn numerals_are_appended() {
    let mut text = "line ".to_string();
    push_decimal(&mut text, 42);
    assert_eq!(text, "line 42");
}

#[test]
fn characters_of_a_string() {
    assert_eq!(chars_of("aé🦀"), vec!['a', 'é', '🦀']);
    assert_eq!(chars_of(""), Vec::<char>::new());
}
