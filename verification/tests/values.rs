use rslox::literal::Literal;
use rslox::number::{number_equal, number_less, number_less_equal, number_negate};

#[test]
fn truthiness_of_each_kind() {
    assert!(Literal::Number(0.0f64.to_bits()).is_truthy());
    assert!(Literal::String(String::new()).is_truthy());
    assert!(Literal::Boolean(true).is_truthy());
    assert!(!Literal::Boolean(false).is_truthy());
    assert!(!Literal::Nil.is_truthy());
    assert!(Literal::Callable(0).is_truthy());
}

#[test]
fn number_order_agrees_with_doubles() {
    let samples = [
        0.0f64,
        -0.0,
        1.0,
        -1.0,
        0.5,
        -0.5,
        1e300,
        -1e300,
        5e-324,
        -5e-324,
        f64::INFINITY,
        f64::NEG_INFINITY,
        f64::NAN,
        -f64::NAN,
        f64::MAX,
        f64::MIN,
        f64::MIN_POSITIVE,
        10.0,
        100.0,
    ];
    for a in samples {
        for b in samples {
            assert_eq!(number_less(a.to_bits(), b.to_bits()), a < b);
            assert_eq!(number_less_equal(a.to_bits(), b.to_bits()), a <= b);
            assert_eq!(number_equal(a.to_bits(), b.to_bits()), a == b);
        }
        assert_eq!(number_negate(a.to_bits()), (-a).to_bits());
    }
}

#[test]
fn printed_forms_of_values() {
    assert_eq!(Literal::Nil.to_string(), Some("nil".to_string()));
    assert_eq!(Literal::Boolean(true).to_string(), Some("true".to_string()));
    assert_eq!(Literal::Boolean(false).to_string(), Some("false".to_string()));
    assert_eq!(Literal::String("a b".to_string()).to_string(), Some("a b".to_string()));
    assert_eq!(Literal::Callable(3).to_string(), Some("<fn>".to_string()));
    assert_eq!(Literal::Number(1.5f64.to_bits()).to_string(), None);
}

#[test]
fn only_numbers_are_numbers() {
    assert!(Literal::Number(f64::NAN.to_bits()).is_number());
    assert!(!Literal::String("1".to_string()).is_number());
    assert!(!Literal::Boolean(true).is_number());
    assert!(!Literal::Nil.is_number());
    assert!(!Literal::Callable(0).is_number());
}

#[test]
fn equality_of_values() {
    let number = |x: f64| Literal::Number(x.to_bits());
    let text = |s: &str| Literal::String(s.to_string());
    assert!(number(1.0).equals(&number(1.0)));
    assert!(!number(1.0).equals(&number(2.0)));
    assert!(number(0.0).equals(&number(-0.0)));
    assert!(!number(f64::NAN).equals(&number(f64::NAN)));
    assert!(text("a").equals(&text("a")));
    assert!(!text("a").equals(&text("b")));
    assert!(!text("1").equals(&number(1.0)));
    assert!(Literal::Nil.equals(&Literal::Nil));
    assert!(!Literal::Nil.equals(&Literal::Boolean(false)));
    assert!(Literal::Boolean(true).equals(&Literal::Boolean(true)));
    assert!(!Literal::Boolean(true).equals(&Literal::Boolean(false)));
    assert!(Literal::Callable(1).equals(&Literal::Callable(1)));
    assert!(!Literal::Callable(1).equals(&Literal::Callable(2)));
    assert!(!Literal::Callable(1).equals(&number(1.0)));
}

#[test]
fn copies_are_equal_to_what_they_copy() {
    let values = [
        Literal::Number(2.5f64.to_bits()),
        Literal::String("x".to_string()),
        Literal::Boolean(false),
        Literal::Nil,
        Literal::Callable(4),
    ];
    for value in values.iter() {
        assert!(value.clone().equals(value));
    }
}
