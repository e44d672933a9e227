use hex_rs::text::{chars_of, push_decimal};

#[test]
fn decimal_notation() {
    for n in [0usize, 7, 10, 99, 100, 12345, usize::MAX] {
        let mut s = String::from("n=");
        push_decimal(&mut s, n);
        assert_eq!(s, format!("n={}", n));
    }
}

#[test]
fn characters_of_text() {
    assert_eq!(chars_of(""), Vec::<char>::new());
    assert_eq!(chars_of("a=é\n"), vec!['a', '=', 'é', '\n']);
}
