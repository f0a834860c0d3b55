use regex_deriv::deriv::{is_nullable, parse};
use regex_deriv::expr::{and, is_empty_lang, or, Expr};

fn sym(c: char) -> Expr {
    Expr::Symbol(c)
}

#[test]
fn eq() {
    let p = and(sym('a'), or(sym('b'), sym('c')));
    assert!(parse(p.clone(), "ab".as_bytes()));
    assert!(parse(p, "ac".as_bytes()));
}

#[test]
fn it_works() {
    assert!(is_nullable(&Expr::EmptyStr));
}

#[test]
fn literal_then_alternatives() {
    let p = and(sym('a'), or(sym('b'), sym('c')));
    assert!(parse(p.clone(), "ab".as_bytes()));
    assert!(parse(p.clone(), "ac".as_bytes()));
    assert!(!parse(p.clone(), "a".as_bytes()));
    assert!(!parse(p.clone(), "b".as_bytes()));
    assert!(!parse(p.clone(), "".as_bytes()));
    assert!(!parse(p, "abc".as_bytes()));
}

#[test]
fn empty_string_pattern() {
    assert!(parse(Expr::EmptyStr, "".as_bytes()));
    assert!(!parse(Expr::EmptyStr, "x".as_bytes()));
}

#[test]
fn single_literal() {
    assert!(parse(sym('x'), "x".as_bytes()));
    assert!(!parse(sym('x'), "".as_bytes()));
    assert!(!parse(sym('x'), "xx".as_bytes()));
}

#[test]
fn union_of_empty_languages_never_fails() {
    let u = || or(Expr::EmptyLang, Expr::EmptyLang);
    assert_eq!(regex_deriv::deriv::derive(&u(), 'q'), Expr::EmptyLang);
    assert!(!parse(u(), "".as_bytes()));
    assert!(!parse(u(), "a".as_bytes()));
    assert!(!parse(u(), "abcdef".as_bytes()));
}

#[test]
fn structural_equality() {
    let p = and(sym('a'), or(sym('b'), sym('c')));
    let q = and(sym('a'), or(sym('b'), sym('c')));
    assert_eq!(p, q);
    let different_leaf = and(sym('a'), or(sym('b'), sym('d')));
    assert_ne!(p, different_leaf);
    let swapped = and(or(sym('b'), sym('c')), sym('a'));
    assert_ne!(p, swapped);
    assert_ne!(Expr::EmptyLang, Expr::EmptyStr);
    assert_eq!(sym('z'), sym('z'));
}

#[test]
fn mismatched_union_collapses() {
    let u = or(sym('a'), sym('b'));
    let once = regex_deriv::deriv::derive(&u, 'z');
    assert_eq!(once, or(Expr::EmptyLang, Expr::EmptyLang));
    assert!(!is_nullable(&once));
    let twice = regex_deriv::deriv::derive(&once, 'q');
    assert_eq!(twice, Expr::EmptyLang);
    assert!(is_empty_lang(&twice));
    assert!(!parse(or(sym('a'), sym('b')), "z".as_bytes()));
    assert!(!parse(or(sym('a'), sym('b')), "zqqqq".as_bytes()));
}

#[test]
fn longer_input() {
    let p = || and(sym('a'), sym('b'));
    assert!(parse(p(), "ab".as_bytes()));
    assert!(!parse(p(), "a".as_bytes()));
    assert!(!parse(p(), "abb".as_bytes()));
    assert!(!parse(p(), "ab b".as_bytes()));
    assert!(!parse(p(), "ba".as_bytes()));
    assert!(!parse(p(), "".as_bytes()));
}

#[test]
fn clone_is_deep_and_originals_are_kept() {
    let p = and(or(Expr::EmptyStr, sym('a')), sym('b'));
    let copy = p.clone();
    assert_eq!(p, copy);
    assert!(parse(copy, "ab".as_bytes()));
    assert!(parse(p.clone(), "b".as_bytes()));
    assert_eq!(p, and(or(Expr::EmptyStr, sym('a')), sym('b')));
}

#[test]
fn derivative_steps_match_the_rules() {
    assert_eq!(regex_deriv::deriv::derive(&Expr::EmptyStr, 'a'), Expr::EmptyLang);
    assert_eq!(regex_deriv::deriv::derive(&sym('a'), 'a'), Expr::EmptyStr);
    assert_eq!(regex_deriv::deriv::derive(&sym('a'), 'b'), Expr::EmptyLang);
    let p = and(sym('a'), sym('b'));
    assert_eq!(regex_deriv::deriv::derive(&p, 'a'), and(Expr::EmptyStr, sym('b')));
    let nullable_left = and(or(Expr::EmptyStr, sym('a')), sym('b'));
    assert_eq!(
        regex_deriv::deriv::derive(&nullable_left, 'b'),
        or(
            and(or(Expr::EmptyLang, Expr::EmptyLang), sym('b')),
            Expr::EmptyStr,
        )
    );
}

#[test]
fn nullability_rules() {
    assert!(!is_nullable(&Expr::EmptyLang));
    assert!(!is_nullable(&sym('a')));
    assert!(is_nullable(&and(Expr::EmptyStr, Expr::EmptyStr)));
    assert!(!is_nullable(&and(Expr::EmptyStr, sym('a'))));
    assert!(is_nullable(&or(sym('a'), Expr::EmptyStr)));
    assert!(!is_nullable(&or(sym('a'), sym('b'))));
}
