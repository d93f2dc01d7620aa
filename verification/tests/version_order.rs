use matcha::version_order::version_less;

#[test]
fn law_version_order_on_examples() {
    let ordered = [
        "0.2", "0.9.0", "0.10.0", "1", "1.0", "1.0.0-beta", "1.0.0", "1.0.1", "1.2", "01.3", "2.0",
        "10",
    ];
    for (i, a) in ordered.iter().enumerate() {
        assert!(!version_less(a, a), "{}", a);
        for b in &ordered[i + 1..] {
            assert!(version_less(a, b), "{} < {}", a, b);
            assert!(!version_less(b, a), "{} < {}", b, a);
        }
    }
    assert!(!version_less("1.01", "1.1"));
    assert!(!version_less("1.1", "1.01"));
    assert!(version_less("a", "b"));
}
