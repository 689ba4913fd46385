use assetario::text::{bytes_less, str_less};

#[test]
fn orders_like_std() {
    let words = ["", "a", "ab", "b", "B", "Zeta", "alpha", "Ö", "O", "é", "e", "ee", "a b"];
    for x in words.iter() {
        for y in words.iter() {
            assert_eq!(str_less(x, y), x < y, "{} < {}", x, y);
            assert_eq!(bytes_less(x.as_bytes(), y.as_bytes()), x.as_bytes() < y.as_bytes());
        }
    }
}

#[test]
fn uppercase_before_lowercase() {
    assert!(str_less("Zeta", "alpha"));
    assert!(!str_less("alpha", "Zeta"));
    assert!(str_less("New", "New York"));
    assert!(!str_less("New York", "New York"));
}
