use kyomu_regex::parse::Node;
use kyomu_regex::regex::{repeat, s_concat, s_or};
use kyomu_regex::KyomuRegex;

fn a() -> KyomuRegex {
    KyomuRegex::Char('a')
}

fn b() -> KyomuRegex {
    KyomuRegex::Char('b')
}

#[test]
fn smart_or_rules() {
    assert_eq!(s_or(a(), a()), a());
    assert_eq!(s_or(KyomuRegex::Empty, b()), b());
    assert_eq!(s_or(a(), KyomuRegex::Empty), a());
    assert_eq!(s_or(KyomuRegex::Empty, KyomuRegex::Empty), KyomuRegex::Empty);
    assert_eq!(s_or(a(), b()), KyomuRegex::Or(Box::new(a()), Box::new(b())));
    assert_eq!(
        s_or(KyomuRegex::Eps, b()),
        KyomuRegex::Or(Box::new(KyomuRegex::Eps), Box::new(b()))
    );
}

#[test]
fn smart_concat_rules() {
    assert_eq!(s_concat(KyomuRegex::Eps, b()), b());
    assert_eq!(s_concat(a(), KyomuRegex::Eps), a());
    assert_eq!(s_concat(KyomuRegex::Empty, b()), KyomuRegex::Empty);
    assert_eq!(s_concat(a(), KyomuRegex::Empty), KyomuRegex::Empty);
    assert_eq!(s_concat(KyomuRegex::Eps, KyomuRegex::Empty), KyomuRegex::Empty);
    assert_eq!(s_concat(KyomuRegex::Empty, KyomuRegex::Eps), KyomuRegex::Empty);
    assert_eq!(s_concat(a(), b()), KyomuRegex::Concat(Box::new(a()), Box::new(b())));
}

#[test]
fn smart_constructors_keep_the_language() {
    let sides = [KyomuRegex::Eps, KyomuRegex::Empty, a(), b(), KyomuRegex::Star(Box::new(a()))];
    for l in sides.iter() {
        for r in sides.iter() {
            let plain_or = KyomuRegex::Or(Box::new(l.clone()), Box::new(r.clone()));
            let plain_concat = KyomuRegex::Concat(Box::new(l.clone()), Box::new(r.clone()));
            let smart_or = s_or(l.clone(), r.clone());
            let smart_concat = s_concat(l.clone(), r.clone());
            for input in ["", "a", "b", "ab", "ba", "aa", "aab"] {
                assert_eq!(smart_or.whole_match(input), plain_or.whole_match(input));
                assert_eq!(smart_concat.whole_match(input), plain_concat.whole_match(input));
            }
        }
    }
}

#[test]
fn smart_constructors_twice_is_once() {
    let sides = [KyomuRegex::Eps, KyomuRegex::Empty, a(), b(), KyomuRegex::Star(Box::new(a()))];
    for l in sides.iter() {
        for r in sides.iter() {
            let once = s_or(l.clone(), r.clone());
            if let KyomuRegex::Or(x, y) = once.clone() {
                assert_eq!(s_or(*x, *y), once);
            }
            let once = s_concat(l.clone(), r.clone());
            if let KyomuRegex::Concat(x, y) = once.clone() {
                assert_eq!(s_concat(*x, *y), once);
            }
        }
    }
}

#[test]
fn repeat_joins_copies() {
    assert_eq!(repeat(&a(), 0), KyomuRegex::Eps);
    assert_eq!(repeat(&a(), 1), a());
    assert_eq!(
        repeat(&a(), 3),
        KyomuRegex::Concat(
            Box::new(a()),
            Box::new(KyomuRegex::Concat(Box::new(a()), Box::new(a())))
        )
    );
    assert_eq!(repeat(&KyomuRegex::Eps, 5), KyomuRegex::Eps);
    assert_eq!(repeat(&KyomuRegex::Empty, 2), KyomuRegex::Empty);
}

#[test]
fn build_from_ast_keeps_the_shape() {
    let node = Node::NdConcat(
        Box::new(Node::NdBracket(1, Some(2), Box::new(Node::NdChar('a')))),
        Box::new(Node::NdOr(Box::new(Node::NdEps), Box::new(Node::NdPlus(Box::new(Node::NdChar('b')))))),
    );
    assert_eq!(
        KyomuRegex::build_from_ast(node),
        KyomuRegex::Concat(
            Box::new(KyomuRegex::Bracket(1, Some(2), Box::new(a()))),
            Box::new(KyomuRegex::Or(
                Box::new(KyomuRegex::Eps),
                Box::new(KyomuRegex::Plus(Box::new(b())))
            )),
        )
    );
}
