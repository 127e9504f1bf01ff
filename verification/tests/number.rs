use solar_system::error::LoadError;
use solar_system::number::{digit, is_float, parse_index};

fn words(alphabet: &[char], max_len: usize) -> Vec<String> {
    let mut all: Vec<String> = vec![String::new()];
    let mut last: Vec<String> = vec![String::new()];
    for _ in 0..max_len {
        let mut next: Vec<String> = Vec::new();
        for w in &last {
            for c in alphabet {
                let mut longer = w.clone();
                longer.push(*c);
                next.push(longer);
            }
        }
        all.extend(next.iter().cloned());
        last = next;
    }
    all
}

#[test]
fn float_literals_are_those_that_parse() {
    for w in words(&['+', '-', '.', 'e', 'E', '0', '7', ' '], 5) {
        assert_eq!(is_float(&w), w.parse::<f32>().is_ok(), "{:?}", w);
    }
}

#[test]
fn special_float_literals_are_those_that_parse() {
    for w in words(&['+', 'i', 'I', 'n', 'N', 'f', 'a', 'A', '1'], 4) {
        assert_eq!(is_float(&w), w.parse::<f32>().is_ok(), "{:?}", w);
    }
    for w in [
        "infinity", "INFINITY", "Infinity", "-infinity", "+InFiNiTy", "infinit", "infinityy",
        "infinite", "inf1nity", "\u{130}nf", "\u{131}nf", "in\u{17f}", "nan", "-NaN", "nanx",
        "i\u{307}nf", "1.5e10", "1.5e+10", "1.5E-10", "1.5e1.0", "0x10", "1_000", "1f32", "١٢٣",
        "1e99999999999999999999", "0.000000000000000000000000000000000000000000000001",
        "123456789012345678901234567890", ".5e3", "5.e3", ".e3", "e3", "1e", "1e+", "--1", "1-",
    ] {
        assert_eq!(is_float(w), w.parse::<f32>().is_ok(), "{:?}", w);
    }
}

#[test]
fn float_literal_edge_cases() {
    assert!(is_float("0.0"));
    assert!(is_float("-1.25"));
    assert!(is_float("5."));
    assert!(is_float(".5"));
    assert!(!is_float("."));
    assert!(!is_float(""));
    assert!(!is_float("+"));
    assert!(!is_float("abc"));
    assert!(!is_float("1,5"));
}

#[test]
fn indices_are_read_as_usize_parses_them() {
    for w in words(&['+', '-', '0', '1', '9', '/', ' '], 5) {
        match w.parse::<usize>() {
            Ok(v) => assert_eq!(parse_index(&w), Ok(v), "{:?}", w),
            Err(_) => assert_eq!(parse_index(&w), Err(LoadError::MalformedRecord), "{:?}", w),
        }
    }
}

#[test]
fn index_values_are_exact() {
    assert_eq!(parse_index("1"), Ok(1));
    assert_eq!(parse_index("0"), Ok(0));
    assert_eq!(parse_index("+42"), Ok(42));
    assert_eq!(parse_index("007"), Ok(7));
    assert_eq!(parse_index("1234567890"), Ok(1234567890));
    assert_eq!(parse_index(&usize::MAX.to_string()), Ok(usize::MAX));
}

#[test]
fn index_beyond_the_machine_word_is_out_of_range() {
    let beyond = format!("{}", usize::MAX as u128 + 1);
    assert_eq!(parse_index(&beyond), Err(LoadError::IndexOutOfRange));
    assert_eq!(parse_index("99999999999999999999999999999999"), Err(LoadError::IndexOutOfRange));
    assert_eq!(parse_index("+340282366920938463463374607431768211456"), Err(LoadError::IndexOutOfRange));
    let padded = format!("0000{}", usize::MAX);
    assert_eq!(parse_index(&padded), Ok(usize::MAX));
}

#[test]
fn malformed_indices() {
    for w in ["", "+", "-1", "1.0", "a", "1a", " 1", "1 ", "++1", "0x1", "١"] {
        assert_eq!(parse_index(w), Err(LoadError::MalformedRecord), "{:?}", w);
    }
}

#[test]
fn digits_are_ascii_digits() {
    let mut c: u32 = 0;
    while c <= 0x10FFFF {
        if let Some(ch) = char::from_u32(c) {
            assert_eq!(digit(ch), ch.is_ascii_digit());
        }
        c += 1;
    }
}
