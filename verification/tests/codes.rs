use crackbox::codes::{Generator, CODE_LENGTH, TOKEN_LENGTH};

#[test]
fn generator_draws_the_expected_texts() {
    let mut g = Generator::new(7);
    assert_eq!(g.draw(CODE_LENGTH), "QZ95");
    assert_eq!(g.draw(TOKEN_LENGTH), "1ZS0VYV3KKXM93OBGPYITC8H");
    assert_eq!(g.draw(CODE_LENGTH), "XSGD");

    let mut zero = Generator::new(0);
    assert_eq!(zero.draw(4), "ZCPS");
    let mut top = Generator::new(u64::MAX);
    assert_eq!(top.draw(4), "4N1Q");
}

#[test]
fn generator_is_deterministic_and_sequential() {
    let mut a = Generator::new(42);
    let mut b = Generator::new(42);
    let whole = a.draw(28);
    let mut parts = b.draw(4);
    parts.push_str(&b.draw(24));
    assert_eq!(whole, parts);
    assert_eq!(whole, "AEYF2GHIQTSE6AS1YBP4HK6ZSLYI");
}

#[test]
fn drawing_nothing_gives_nothing() {
    let mut g = Generator::new(7);
    assert_eq!(g.draw(0), "");
    assert_eq!(g.draw(4), "QZ95");
}

#[test]
fn drawn_symbols_are_typable() {
    let mut g = Generator::new(123_456_789);
    let text = g.draw(500);
    assert_eq!(text.len(), 500);
    assert!(text.chars().all(|c| c.is_ascii_digit() || c.is_ascii_uppercase()));
}
