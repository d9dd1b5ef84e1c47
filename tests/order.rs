use rps::order::{pair_less, party_less};

fn s(x: &str) -> String {
    x.to_string()
}

#[test]
fn identifiers_order_by_bytes() {
    assert!(party_less(&s("a"), &s("b")));
    assert!(!party_less(&s("b"), &s("a")));
    assert!(!party_less(&s("a"), &s("a")));
    assert!(party_less(&s(""), &s("a")));
    assert!(party_less(&s("ab"), &s("abc")));
    assert!(party_less(&s("Z"), &s("a")));
    assert!(party_less(&s("z"), &s("\u{e9}")));
}

#[test]
fn pairs_order_by_first_then_second() {
    assert!(pair_less(&s("a"), &s("z"), &s("b"), &s("a")));
    assert!(pair_less(&s("a"), &s("a"), &s("a"), &s("b")));
    assert!(!pair_less(&s("a"), &s("b"), &s("a"), &s("b")));
    assert!(!pair_less(&s("b"), &s("a"), &s("a"), &s("z")));
}
