use pointctl::text::{append_decimal, split_fields, str_equals};

fn split(s: &str) -> Vec<String> {
    split_fields(s, ';')
}

#[test]
fn splits_like_std() {
    for s in ["x;y;z", "", ";", "a;", ";a", "a;;b", "no separator", "1.5; 2 ;3", "ü;ß"].iter() {
        let expected: Vec<String> = s.split(';').map(|f| f.to_string()).collect();
        assert_eq!(split(s), expected, "split of {:?}", s);
    }
}

#[test]
fn header_fields() {
    assert_eq!(split("x;y;z"), vec!["x", "y", "z"]);
}

#[test]
fn decimal_notation() {
    for n in [0usize, 7, 10, 99, 1000, 4294967296, usize::MAX].iter() {
        let mut s = String::from("n=");
        append_decimal(&mut s, *n);
        assert_eq!(s, format!("n={}", n));
    }
}

#[test]
fn string_equality() {
    assert!(str_equals("abc", "abc"));
    assert!(!str_equals("abc", "abd"));
    assert!(!str_equals("abc", "ab"));
    assert!(str_equals("", ""));
}
