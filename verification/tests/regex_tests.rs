use kyomu_regex::KyomuRegex;

fn chr(ch: char) -> KyomuRegex {
    KyomuRegex::Char(ch)
}

fn concat(left: KyomuRegex, right: KyomuRegex) -> KyomuRegex {
    KyomuRegex::Concat(Box::new(left), Box::new(right))
}

fn or(left: KyomuRegex, right: KyomuRegex) -> KyomuRegex {
    KyomuRegex::Or(Box::new(left), Box::new(right))
}

fn star(left: KyomuRegex) -> KyomuRegex {
    KyomuRegex::Star(Box::new(left))
}

#[test]
fn simple_match() {
    // (a+b)*(ab)
    let r = concat(star(or(chr('a'), chr('b'))), concat(chr('a'), chr('b')));
    assert!(r.whole_match("ab"));
    assert!(r.whole_match("aab"));
    assert!(r.whole_match("babab"));
    assert!(!r.whole_match("aba"));
    assert!(!r.whole_match("abc"));
}

#[test]
fn parse_and_match_from_string() {
    let r: KyomuRegex = "a|(bc)*".parse().unwrap();
    assert!(r.whole_match(""));
    assert!(r.whole_match("a"));
    assert!(r.whole_match("bc"));
    assert!(r.whole_match("bcbc"));
    assert!(!r.whole_match("b"));
    assert!(!r.whole_match("abc"));
}

#[test]
fn parse_wild_card() {
    let r: KyomuRegex = "a.*b".parse().unwrap();
    assert!(r.whole_match("ab"));
    assert!(r.whole_match("abcdb"));
    assert!(!r.whole_match("a123c"));
    assert!(!r.whole_match("b"));
}

#[test]
fn parse_plus() {
    let r: KyomuRegex = "(ab)+c".parse().unwrap();
    assert!(r.whole_match("abc"));
    assert!(r.whole_match("ababababababababc"));
    assert!(!r.whole_match("c"));
    assert!(!r.whole_match("ac"));
}

#[test]
fn parse_question() {
    let r: KyomuRegex = "a?b".parse().unwrap();
    assert!(r.whole_match("b"));
    assert!(r.whole_match("ab"));
    assert!(!r.whole_match("a"));
    assert!(!r.whole_match("aa"));
}

#[test]
fn parse_bracket() {
    let r: KyomuRegex = "a{2,3}b".parse().unwrap();
    assert!(r.whole_match("aab"));
    assert!(r.whole_match("aaab"));
    assert!(!r.whole_match("a"));
    assert!(!r.whole_match("aa"));
    assert!(!r.whole_match("aaa"));
    assert!(!r.whole_match("b"));
    let r: KyomuRegex = "a{0}b".parse().unwrap(); // == a?b
    assert!(r.whole_match("b"));
    assert!(!r.whole_match("ab"));
    assert!(!r.whole_match("a"));
    assert!(!r.whole_match("aa"));
    let r: KyomuRegex = "a{2,}b".parse().unwrap();
    assert!(r.whole_match("aab"));
    assert!(r.whole_match("aaab"));
    assert!(r.whole_match("aaaab"));
    assert!(!r.whole_match("a"));
    assert!(!r.whole_match("b"));
    let r: KyomuRegex = "a{2}".parse().unwrap();
    assert!(r.whole_match("aa"));
    assert!(!r.whole_match("a"));
    assert!(!r.whole_match("aaa"));
}

fn plus(r: KyomuRegex) -> KyomuRegex {
    KyomuRegex::Plus(Box::new(r))
}

fn question(r: KyomuRegex) -> KyomuRegex {
    KyomuRegex::Question(Box::new(r))
}

fn bracket(min: u32, max: Option<u32>, r: KyomuRegex) -> KyomuRegex {
    KyomuRegex::Bracket(min, max, Box::new(r))
}

fn compile(pattern: &str) -> KyomuRegex {
    KyomuRegex::compile(pattern).unwrap()
}

#[test]
fn nullability_of_each_shape() {
    assert!(KyomuRegex::Eps.match_eps());
    assert!(!KyomuRegex::Empty.match_eps());
    assert!(!chr('a').match_eps());
    assert!(!chr('.').match_eps());
    assert!(concat(KyomuRegex::Eps, star(chr('a'))).match_eps());
    assert!(!concat(KyomuRegex::Eps, chr('a')).match_eps());
    assert!(or(chr('a'), KyomuRegex::Eps).match_eps());
    assert!(!or(chr('a'), chr('b')).match_eps());
    assert!(star(chr('a')).match_eps());
    assert!(star(KyomuRegex::Empty).match_eps());
    assert!(!plus(chr('a')).match_eps());
    assert!(plus(question(chr('a'))).match_eps());
    assert!(question(chr('a')).match_eps());
    assert!(bracket(0, Some(3), chr('a')).match_eps());
    assert!(bracket(0, None, chr('a')).match_eps());
    assert!(!bracket(1, Some(3), chr('a')).match_eps());
    assert!(bracket(2, Some(3), star(chr('a'))).match_eps());
}

#[test]
fn delta_is_eps_or_empty() {
    assert_eq!(star(chr('a')).delta(), KyomuRegex::Eps);
    assert_eq!(chr('a').delta(), KyomuRegex::Empty);
    assert_eq!(KyomuRegex::Eps.delta(), KyomuRegex::Eps);
    assert_eq!(KyomuRegex::Empty.delta(), KyomuRegex::Empty);
}

#[test]
fn derivative_of_leaves() {
    assert_eq!(chr('a').derivative('a'), KyomuRegex::Eps);
    assert_eq!(chr('a').derivative('b'), KyomuRegex::Empty);
    assert_eq!(chr('.').derivative('z'), KyomuRegex::Eps);
    assert_eq!(KyomuRegex::Eps.derivative('a'), KyomuRegex::Empty);
    assert_eq!(KyomuRegex::Empty.derivative('a'), KyomuRegex::Empty);
}

#[test]
fn derivative_of_concatenation() {
    assert_eq!(concat(chr('a'), chr('b')).derivative('a'), chr('b'));
    assert_eq!(concat(chr('a'), chr('b')).derivative('b'), KyomuRegex::Empty);
    assert_eq!(
        concat(star(chr('a')), chr('b')).derivative('a'),
        concat(star(chr('a')), chr('b'))
    );
    assert_eq!(concat(star(chr('a')), chr('b')).derivative('b'), KyomuRegex::Eps);
    assert_eq!(
        concat(question(chr('a')), concat(chr('a'), chr('b'))).derivative('a'),
        or(concat(chr('a'), chr('b')), chr('b'))
    );
}

#[test]
fn derivative_of_alternation() {
    assert_eq!(or(chr('a'), chr('b')).derivative('a'), KyomuRegex::Eps);
    assert_eq!(or(chr('a'), chr('a')).derivative('a'), KyomuRegex::Eps);
    assert_eq!(or(chr('a'), chr('b')).derivative('c'), KyomuRegex::Empty);
    assert_eq!(
        or(concat(chr('a'), chr('b')), concat(chr('a'), chr('c'))).derivative('a'),
        or(chr('b'), chr('c'))
    );
}

#[test]
fn derivative_of_star_plus_question() {
    assert_eq!(star(chr('a')).derivative('a'), star(chr('a')));
    assert_eq!(star(chr('a')).derivative('b'), KyomuRegex::Empty);
    assert_eq!(
        star(concat(chr('a'), chr('b'))).derivative('a'),
        concat(chr('b'), star(concat(chr('a'), chr('b'))))
    );
    assert_eq!(plus(chr('a')).derivative('a'), star(chr('a')));
    assert_eq!(plus(chr('a')).derivative('b'), KyomuRegex::Empty);
    assert_eq!(question(chr('a')).derivative('a'), KyomuRegex::Eps);
    assert_eq!(question(chr('a')).derivative('b'), KyomuRegex::Empty);
}

#[test]
fn derivative_of_counted_repetition() {
    assert_eq!(bracket(0, Some(0), chr('a')).derivative('a'), KyomuRegex::Empty);
    assert_eq!(bracket(2, None, chr('a')).derivative('a'), chr('a'));
    assert_eq!(bracket(0, None, chr('a')).derivative('a'), KyomuRegex::Empty);
    assert_eq!(
        bracket(2, Some(0), chr('a')).derivative('a'),
        concat(chr('a'), star(chr('a')))
    );
    assert_eq!(bracket(1, Some(0), chr('a')).derivative('a'), star(chr('a')));
    assert_eq!(bracket(3, Some(2), chr('a')).derivative('a'), KyomuRegex::Empty);
    assert_eq!(
        bracket(2, Some(3), chr('a')).derivative('a'),
        bracket(1, Some(2), chr('a'))
    );
    assert_eq!(
        bracket(0, Some(2), chr('a')).derivative('a'),
        bracket(0, Some(1), chr('a'))
    );
    assert_eq!(
        bracket(1, Some(1), chr('a')).derivative('a'),
        bracket(0, Some(0), chr('a'))
    );
    assert_eq!(bracket(2, Some(3), chr('a')).derivative('b'), KyomuRegex::Empty);
}

#[test]
fn derivative_leaves_the_value_unchanged() {
    let r = compile("a(b|c)*");
    let before = r.clone();
    let _ = r.derivative('a');
    let _ = r.whole_match("abcb");
    assert_eq!(r, before);
    assert!(r.whole_match("abcb"));
    assert!(r.whole_match("a"));
}

#[test]
fn whole_match_goes_by_derivatives() {
    let r = compile("(a|b)*abb");
    for input in ["", "a", "abb", "aabb", "babb", "abab", "abba", "bbabb"] {
        assert_eq!(r.whole_match(""), r.match_eps());
        let mut rest = input.chars();
        if let Some(c) = rest.next() {
            assert_eq!(r.whole_match(input), r.derivative(c).whole_match(rest.as_str()));
        }
    }
    assert!(r.whole_match("abb"));
    assert!(r.whole_match("bbabb"));
    assert!(!r.whole_match("abba"));
}

#[test]
fn empty_language_is_a_dead_end() {
    for input in ["", "a", "ab", "..."] {
        assert!(!KyomuRegex::Empty.whole_match(input));
    }
}

#[test]
fn quantifier_question_agrees_with_zero_to_one() {
    for body in ["a", "ab", "a|b", "a+"] {
        let q = compile(&format!("({})?", body));
        let b = compile(&format!("({}){{0,1}}", body));
        for input in ["", "a", "b", "ab", "aa", "ba", "abab"] {
            assert_eq!(q.whole_match(input), b.whole_match(input));
        }
    }
}

#[test]
fn quantifier_plus_agrees_with_one_or_more() {
    for body in ["a", "ab", "a|b", "a*", "a?b"] {
        let p = compile(&format!("({})+", body));
        let b = compile(&format!("({}){{1,}}", body));
        for input in ["", "a", "b", "ab", "aa", "ba", "abab", "aab", "c"] {
            assert_eq!(p.whole_match(input), b.whole_match(input));
        }
    }
}

#[test]
fn quantifier_star_and_zero_or_more() {
    let s = compile("a*");
    let b = compile("a{0,}");
    for input in ["", "b", "ab", "ba"] {
        assert_eq!(s.whole_match(input), b.whole_match(input));
    }
    assert!(b.whole_match(""));
    assert!(!b.whole_match("a"));
    assert!(!b.whole_match("aa"));
}

#[test]
fn bracket_boundaries() {
    let r = compile("a{2,3}b");
    assert!(r.whole_match("aab"));
    assert!(r.whole_match("aaab"));
    assert!(!r.whole_match("ab"));
    assert!(!r.whole_match("a b"));
    assert!(!r.whole_match("aaaab"));
    assert!(!r.whole_match("b"));
}

#[test]
fn bracket_exact_count() {
    let r = compile("a{2}");
    assert!(r.whole_match("aa"));
    assert!(!r.whole_match("a"));
    assert!(!r.whole_match("aaa"));
    assert!(!r.whole_match(""));
    let zero = compile("a{0}");
    assert!(zero.whole_match(""));
    assert!(!zero.whole_match("a"));
}

#[test]
fn bracket_unsatisfiable_range_matches_nothing_longer_than_empty() {
    let r = compile("a{4,2}");
    for input in ["", "a", "aa", "aaa", "aaaa"] {
        assert!(!r.whole_match(input));
    }
    let n = compile("(a?){4,2}");
    assert!(n.whole_match(""));
    assert!(!n.whole_match("a"));
    assert!(!n.whole_match("aaa"));
}

#[test]
fn bracket_range_over_a_nullable_body() {
    let r = compile("(b?){1,2}");
    assert!(r.whole_match(""));
    assert!(r.whole_match("b"));
    assert!(r.whole_match("bb"));
    assert!(r.whole_match("x"));
    assert!(r.whole_match("xy"));
    assert!(!r.whole_match("bbb"));
    assert!(!r.whole_match("xyz"));
}

#[test]
fn bracket_on_a_group() {
    let r = compile("(ab){2,}c");
    assert!(r.whole_match("ababc"));
    assert!(r.whole_match("abababc"));
    assert!(!r.whole_match("abc"));
    assert!(!r.whole_match("c"));
}

#[test]
fn wildcard() {
    let r = compile("a.*b");
    assert!(r.whole_match("ab"));
    assert!(r.whole_match("axyzb"));
    assert!(!r.whole_match("a"));
    assert!(!r.whole_match("b"));
    let dot = compile(".");
    assert!(dot.whole_match("."));
    assert!(dot.whole_match("x"));
    assert!(!dot.whole_match(""));
    assert!(!dot.whole_match("xy"));
}

#[test]
fn escaped_characters_are_literals() {
    let r = compile("\\(a\\)");
    assert!(r.whole_match("(a)"));
    assert!(!r.whole_match("a"));
    let star_literal = compile("a\\*");
    assert!(star_literal.whole_match("a*"));
    assert!(!star_literal.whole_match("aa"));
}

#[test]
fn unbalanced_group_fails_to_compile() {
    let err = KyomuRegex::compile("(a").unwrap_err();
    assert_eq!(err, "Expected one of [\"')'\"], found 'ε'");
    assert!(err.contains("')'"));
    assert!(KyomuRegex::compile("a)").is_err());
    assert!("(a".parse::<KyomuRegex>().is_err());
}

#[test]
fn trailing_bar_is_an_empty_alternative() {
    let r = compile("a|");
    assert_eq!(r, or(chr('a'), KyomuRegex::Eps));
    assert!(r.whole_match("a"));
    assert!(r.whole_match(""));
    assert!(!r.whole_match("aa"));
}

#[test]
fn compile_keeps_the_tree_node_for_node() {
    assert_eq!(
        compile("a|(bc)*"),
        or(chr('a'), star(concat(chr('b'), chr('c'))))
    );
    assert_eq!(
        compile("a+b?c{2,3}d{4}"),
        concat(
            plus(chr('a')),
            concat(
                question(chr('b')),
                concat(bracket(2, Some(3), chr('c')), bracket(4, None, chr('d')))
            )
        )
    );
    assert_eq!(compile(""), KyomuRegex::Eps);
}

#[test]
fn blanks_in_patterns_are_ignored() {
    let r = compile(" a \t| b { 2 , 3 } \n");
    assert!(r.whole_match("a"));
    assert!(r.whole_match("bb"));
    assert!(r.whole_match("bbb"));
    assert!(!r.whole_match("b"));
    assert!(!r.whole_match(" a"));
}

#[test]
fn structural_equality() {
    assert_eq!(concat(chr('a'), chr('b')), concat(chr('a'), chr('b')));
    assert_ne!(concat(chr('a'), chr('b')), concat(chr('b'), chr('a')));
    assert_ne!(concat(chr('a'), chr('b')), or(chr('a'), chr('b')));
    assert_ne!(star(chr('a')), plus(chr('a')));
    assert_ne!(bracket(1, Some(0), chr('a')), bracket(1, None, chr('a')));
    assert_ne!(KyomuRegex::Eps, KyomuRegex::Empty);
}
