use rust_playground::utils::math_utils::{max, min, sum};
use rust_playground::utils::string_utils::{is_white_space, reverse, to_uppercase, word_count};
use rust_playground::utils::{add, factorial, greet, is_prime, multiply, subtract};

#[test]
fn test_add() {
    assert_eq!(add(2, 3), 5);
}

#[test]
fn test_multiply() {
    assert_eq!(multiply(4, 5), 20);
}

#[test]
fn test_is_prime() {
    assert!(is_prime(17));
    assert!(!is_prime(4));
}

#[test]
fn add_and_multiply_commute_on_samples() {
    let samples = [0, 1, -1, 7, -13, 1000, i32::MAX, i32::MIN];
    for &a in samples.iter() {
        for &b in samples.iter() {
            assert_eq!(add(a, b), add(b, a));
            assert_eq!(multiply(a, b), multiply(b, a));
        }
    }
}

#[test]
fn arithmetic_wraps_on_overflow() {
    assert_eq!(add(i32::MAX, 1), i32::MIN);
    assert_eq!(add(i32::MIN, -1), i32::MAX);
    assert_eq!(subtract(i32::MIN, 1), i32::MAX);
    assert_eq!(multiply(i32::MAX, 2), -2);
    assert_eq!(multiply(65536, 65536), 0);
}

#[test]
fn subtract_plain() {
    assert_eq!(subtract(10, 5), 5);
    assert_eq!(subtract(5, 10), -5);
}

#[test]
fn factorial_values() {
    assert_eq!(factorial(0), 1);
    assert_eq!(factorial(1), 1);
    assert_eq!(factorial(5), 120);
    assert_eq!(factorial(20), 2432902008176640000);
}

#[test]
fn factorial_recurrence_in_range() {
    for n in 1..=20u32 {
        assert_eq!(factorial(n), n as u64 * factorial(n - 1));
    }
}

#[test]
fn is_prime_small_and_boundaries() {
    assert!(!is_prime(0));
    assert!(!is_prime(1));
    assert!(is_prime(2));
    assert!(is_prime(3));
    assert!(!is_prime(4));
    assert!(is_prime(5));
    assert!(!is_prime(9));
    assert!(!is_prime(25));
    assert!(!is_prime(35));
    assert!(!is_prime(49));
    assert!(is_prime(97));
}

#[test]
fn is_prime_matches_naive_division() {
    for n in 0..2000u32 {
        let naive = n > 1 && (2..n).all(|d| n % d != 0);
        assert_eq!(is_prime(n), naive, "n = {}", n);
    }
}

#[test]
fn is_prime_near_u32_max() {
    assert!(is_prime(4294967291));
    assert!(!is_prime(4294967295));
    assert!(!is_prime(4294836225));
}

#[test]
fn greet_welcomes_name() {
    assert_eq!(greet("学习者"), "你好, 学习者! 欢迎学习 Rust!");
    assert_eq!(greet(""), "你好, ! 欢迎学习 Rust!");
}

#[test]
fn reverse_by_character() {
    assert_eq!(reverse("Hello Rust"), "tsuR olleH");
    assert_eq!(reverse(""), "");
    assert_eq!(reverse("你好, Rust"), "tsuR ,好你");
}

#[test]
fn reverse_twice_is_identity() {
    for s in ["", "a", "Hello Rust", "ümlaut 你好 🦀"].iter() {
        assert_eq!(reverse(&reverse(s)), *s);
    }
}

#[test]
fn to_uppercase_unicode() {
    assert_eq!(to_uppercase("Hello Rust"), "HELLO RUST");
    assert_eq!(to_uppercase("straße"), "STRASSE");
    assert_eq!(to_uppercase(""), "");
}

#[test]
fn word_count_ignores_extra_white_space() {
    assert_eq!(word_count(""), 0);
    assert_eq!(word_count("  a   b  "), 2);
    assert_eq!(word_count("Hello Rust"), 2);
    assert_eq!(word_count("   "), 0);
    assert_eq!(word_count("one\ttwo\nthree\u{3000}four\u{a0}five"), 5);
}

#[test]
fn white_space_characters() {
    for c in [' ', '\t', '\n', '\r', '\u{0b}', '\u{0c}', '\u{85}', '\u{a0}', '\u{2003}', '\u{3000}'].iter() {
        assert!(is_white_space(*c));
        assert!(c.is_whitespace());
    }
    for c in ['a', '0', '_', '\u{200b}', '你'].iter() {
        assert!(!is_white_space(*c));
    }
}

#[test]
fn white_space_agrees_with_char_is_whitespace() {
    for u in 0..0x3100u32 {
        if let Some(c) = char::from_u32(u) {
            assert_eq!(is_white_space(c), c.is_whitespace(), "U+{:04X}", u);
        }
    }
}

#[test]
fn max_and_min_of_samples() {
    let numbers = vec![10, 20, 30, 40, 50];
    assert_eq!(max(&numbers), Some(50));
    assert_eq!(min(&numbers), Some(10));
    assert_eq!(max(&[]), None);
    assert_eq!(min(&[]), None);
    assert_eq!(max(&[-3, -3, -7]), Some(-3));
}

#[test]
fn sum_gives_the_mean() {
    let numbers = vec![10, 20, 30, 40, 50];
    assert_eq!(sum(&numbers), 150);
    assert_eq!(sum(&numbers) as f64 / numbers.len() as f64, 30.0);
    assert_eq!(sum(&[]), 0);
    assert_eq!(sum(&[i32::MAX, i32::MAX, i32::MIN]), i32::MAX as i128 - 1);
}

#[test]
fn statistics_end_to_end() {
    let numbers = vec![1, 5, 3, 9, 2, 7];
    assert_eq!(sum(&numbers) as f64 / numbers.len() as f64, 4.5);
    assert_eq!(max(&numbers), Some(9));
    assert_eq!(min(&numbers), Some(1));
}
