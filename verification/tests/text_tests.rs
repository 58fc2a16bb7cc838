use howl::slug::Slug;
use howl::number::{format_i64, parse_i64};
use howl::text::{str_equal, str_less};

#[test]
fn slug_examples() {
    assert_eq!("Test".to_slug(), "test");
    assert_eq!("Test2".to_slug(), "test2");
    assert_eq!("Hello, World!".to_slug(), "hello-world-");
    assert_eq!("  a  b ".to_slug(), "-a-b-");
    assert_eq!("ÄÖ Straße".to_slug(), "ÄÖ-straße");
    assert_eq!("".to_slug(), "");
}

#[test]
fn slug_is_idempotent() {
    for t in ["Hello, World!", "--x--", "A_B c", "été 2024"] {
        let once = t.to_slug();
        assert_eq!(once.as_str().to_slug(), once);
        assert!(!once.contains("--"));
    }
}

#[test]
fn parse_i64_accepts_what_std_accepts() {
    for t in ["0", "-0", "+5", "-5", "007", "9223372036854775807", "-9223372036854775808", "", "-", "+", "1.5", "1e3", " 1", "9223372036854775808", "-9223372036854775809", "12a", "--1"] {
        assert_eq!(parse_i64(t), t.parse::<i64>().ok(), "input {:?}", t);
    }
}

#[test]
fn format_i64_writes_decimal() {
    for v in [0i64, 7, -7, 10, 123456789, i64::MAX, i64::MIN] {
        assert_eq!(format_i64(v), format!("{}", v));
        assert_eq!(parse_i64(&format_i64(v)), Some(v));
    }
}

#[test]
fn string_order_is_code_point_order() {
    let words = ["", "a", "ab", "b", "x_points", "x_type", "é", "z"];
    for a in words {
        for b in words {
            assert_eq!(str_less(a, b), a < b, "{:?} {:?}", a, b);
            assert_eq!(str_equal(a, b), a == b);
        }
    }
}
