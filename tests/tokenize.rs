use minilisp::tokenize::tokenize;

#[test]
fn test_tokenize() {
    assert_eq!(tokenize("()"), ["(", ")"]);
    assert_eq!(tokenize("(1)"), ["(", "1", ")"]);
    assert_eq!(tokenize("(+ 1 1)"), ["(", "+", "1", "1", ")"]);
}

#[test]
fn tokenize_empty_and_blank() {
    assert!(tokenize("").is_empty());
    assert!(tokenize("  \t\n ").is_empty());
}

#[test]
fn tokenize_parens_without_spaces() {
    assert_eq!(tokenize("(car(cons 1 2))"), ["(", "car", "(", "cons", "1", "2", ")", ")"]);
    assert_eq!(tokenize("a)b(c"), ["a", ")", "b", "(", "c"]);
}

#[test]
fn tokenize_runs_of_white_space() {
    assert_eq!(tokenize("  (let\tx \n 5 )  "), ["(", "let", "x", "5", ")"]);
    assert_eq!(tokenize("a\u{3000}b\u{a0}c"), ["a", "b", "c"]);
}

#[test]
fn tokenize_is_idempotent_on_spaced_tokens() {
    let once = tokenize("(if(= 1 1)3 2)");
    let again = tokenize(&once.join(" "));
    assert_eq!(once, again);
}

#[test]
fn tokenize_keeps_other_characters() {
    assert_eq!(tokenize("#t #f -12 héllo"), ["#t", "#f", "-12", "héllo"]);
}
