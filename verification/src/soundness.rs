//! Why the engine is right: nullability, the smart constructors and the
//! derivative, each held against the language of the value.

use crate::language::{
    any_one, between, cat, cons, lemma_at_least_empty, lemma_at_least_quotient,
    lemma_between_empty, lemma_between_quotient, lemma_cat_empty, lemma_cat_nothing,
    lemma_cat_quotient, lemma_cat_residue, lemma_cat_union_left, lemma_cat_unit_left,
    lemma_cat_unit_right, lemma_just_quotient, lemma_leaf_quotients, lemma_pow_empty, lemma_pow_then_star,
    lemma_union_laws, lemma_union_quotient, nothing, pow, quotient, residue, union, unit,
};
use crate::regex::{
    copies, lemma_copies_size, lemma_smart_concat_size, pred, smart_concat, smart_or, KyomuRegex,
};
use vstd::prelude::*;

verus! {

/// A value is nullable exactly when its language holds the empty string.
pub proof fn lemma_nullable_lang(r: KyomuRegex)
    ensures
        r.lang()(Seq::empty()) == r.nullable(),
    decreases r,
{
    let e = Seq::<char>::empty();
    match r {
        KyomuRegex::Char(_) => {},
        KyomuRegex::Eps => {},
        KyomuRegex::Empty => {},
        KyomuRegex::Concat(l, r2) => {
            lemma_nullable_lang(*l);
            lemma_nullable_lang(*r2);
            lemma_cat_empty(l.lang(), r2.lang());
        },
        KyomuRegex::Or(l, r2) => {
            lemma_nullable_lang(*l);
            lemma_nullable_lang(*r2);
        },
        KyomuRegex::Star(b) => {
            lemma_at_least_empty(b.lang(), 0);
        },
        KyomuRegex::Plus(b) => {
            lemma_nullable_lang(*b);
            lemma_at_least_empty(b.lang(), 1);
        },
        KyomuRegex::Question(_) => {},
        KyomuRegex::Bracket(min, max, b) => {
            lemma_nullable_lang(*b);
            match max {
                None => {
                    lemma_pow_empty(b.lang(), min as nat);
                },
                Some(hi) => {
                    if hi == 0 {
                        lemma_at_least_empty(b.lang(), min as nat);
                    } else if min <= hi {
                        lemma_between_empty(b.lang(), min as nat, hi as nat);
                        lemma_between_empty(union(b.lang(), any_one()), min as nat, hi as nat);
                    }
                },
            }
        },
    }
}

/// δ of a value stands for δ of its language.
pub proof fn lemma_delta_lang(r: KyomuRegex)
    ensures
        r.delta_of().lang() == residue(r.lang()),
{
    lemma_nullable_lang(r);
}

/// The smart alternation stands for the union of the two languages, as the
/// plain alternation does.
pub proof fn lemma_smart_or_lang(l: KyomuRegex, r: KyomuRegex)
    ensures
        smart_or(l, r).lang() == union(l.lang(), r.lang()),
        smart_or(l, r).lang() == KyomuRegex::Or(Box::new(l), Box::new(r)).lang(),
{
    lemma_union_laws(l.lang());
    lemma_union_laws(r.lang());
}

/// The smart concatenation stands for the concatenation of the two
/// languages, as the plain concatenation does.
pub proof fn lemma_smart_concat_lang(l: KyomuRegex, r: KyomuRegex)
    ensures
        smart_concat(l, r).lang() == cat(l.lang(), r.lang()),
        smart_concat(l, r).lang() == KyomuRegex::Concat(Box::new(l), Box::new(r)).lang(),
{
    if l is Eps {
        lemma_cat_unit_left(r.lang());
    } else if r is Eps {
        lemma_cat_unit_right(l.lang());
    } else if l is Empty {
        lemma_cat_nothing(r.lang());
    } else if r is Empty {
        lemma_cat_nothing(l.lang());
    }
}

/// `n` joined copies of a value stand for the `n`-th power of its language.
pub proof fn lemma_copies_lang(r: KyomuRegex, n: nat)
    ensures
        copies(r, n).lang() == pow(r.lang(), n),
    decreases n,
{
    if n > 0 {
        lemma_copies_lang(r, (n - 1) as nat);
        lemma_smart_concat_lang(r, copies(r, (n - 1) as nat));
    }
}

/// Derivative soundness: the derivative by `c` stands for the left quotient
/// by `c`, so `w` is in the language of the derivative exactly when `c·w` is
/// in the language of the value.
pub proof fn lemma_deriv_sound(r: KyomuRegex, c: char)
    ensures
        r.deriv(c).lang() == quotient(r.lang(), c),
        forall|w: Seq<char>| #[trigger] r.deriv(c).lang()(w) == r.lang()(cons(c, w)),
    decreases r.size(),
{
    match r {
        KyomuRegex::Char(x) => {
            lemma_leaf_quotients(c);
            lemma_just_quotient(x, c);
        },
        KyomuRegex::Eps => {
            lemma_leaf_quotients(c);
        },
        KyomuRegex::Empty => {
            lemma_leaf_quotients(c);
        },
        KyomuRegex::Concat(l, r2) => {
            lemma_deriv_sound(*l, c);
            lemma_deriv_sound(*r2, c);
            lemma_delta_lang(*l);
            lemma_smart_concat_lang(l.deriv(c), *r2);
            lemma_smart_concat_lang(l.delta_of(), r2.deriv(c));
            lemma_smart_or_lang(
                smart_concat(l.deriv(c), *r2),
                smart_concat(l.delta_of(), r2.deriv(c)),
            );
            lemma_cat_quotient(l.lang(), r2.lang(), c);
        },
        KyomuRegex::Or(l, r2) => {
            lemma_deriv_sound(*l, c);
            lemma_deriv_sound(*r2, c);
            lemma_smart_or_lang(l.deriv(c), r2.deriv(c));
            lemma_union_quotient(l.lang(), r2.lang(), c);
        },
        KyomuRegex::Star(b) => {
            lemma_deriv_sound(*b, c);
            lemma_smart_concat_lang(b.deriv(c), KyomuRegex::Star(b));
            lemma_at_least_quotient(b.lang(), 0, c);
        },
        KyomuRegex::Plus(b) => {
            let a = b.lang();
            let da = quotient(a, c);
            lemma_deriv_sound(*b, c);
            lemma_delta_lang(*b);
            lemma_smart_concat_lang(b.delta_of(), b.deriv(c));
            lemma_smart_or_lang(b.deriv(c), smart_concat(b.delta_of(), b.deriv(c)));
            lemma_smart_concat_lang(
                smart_or(b.deriv(c), smart_concat(b.delta_of(), b.deriv(c))),
                KyomuRegex::Star(b),
            );
            lemma_cat_residue(a, da);
            lemma_union_laws(da);
            lemma_at_least_quotient(a, 1, c);
        },
        KyomuRegex::Question(b) => {
            lemma_deriv_sound(*b, c);
            lemma_union_quotient(unit(), b.lang(), c);
            lemma_leaf_quotients(c);
            lemma_union_laws(quotient(b.lang(), c));
        },
        KyomuRegex::Bracket(min, max, b) => {
            let a = b.lang();
            match max {
                None => {
                    let e = copies(*b, min as nat);
                    lemma_copies_size(*b, min as nat);
                    lemma_deriv_sound(e, c);
                    lemma_copies_lang(*b, min as nat);
                },
                Some(hi) => {
                    if hi == 0 {
                        if min == 0 {
                            lemma_leaf_quotients(c);
                        } else {
                            let e = smart_concat(copies(*b, min as nat), KyomuRegex::Star(b));
                            lemma_copies_size(*b, min as nat);
                            lemma_smart_concat_size(copies(*b, min as nat), KyomuRegex::Star(b));
                            lemma_deriv_sound(e, c);
                            lemma_copies_lang(*b, min as nat);
                            lemma_smart_concat_lang(copies(*b, min as nat), KyomuRegex::Star(b));
                            lemma_pow_then_star(a, min as nat);
                        }
                    } else if min > hi {
                        lemma_leaf_quotients(c);
                        assert(between(a, min as nat, hi as nat) =~= nothing());
                    } else {
                        let rest = KyomuRegex::Bracket(pred(min), Some(pred(hi)), b);
                        let round = if b.nullable() {
                            union(a, any_one())
                        } else {
                            a
                        };
                        let x = between(round, pred(min) as nat, pred(hi) as nat);
                        assert(rest.lang() == x) by {
                            if pred(hi) == 0 {
                                assert(pow(round, 0) == unit());
                                assert(x =~= unit());
                            }
                        }
                        lemma_nullable_lang(*b);
                        lemma_deriv_sound(*b, c);
                        lemma_delta_lang(*b);
                        lemma_smart_concat_lang(b.deriv(c), rest);
                        lemma_smart_concat_lang(b.delta_of(), rest);
                        lemma_smart_or_lang(
                            smart_concat(b.deriv(c), rest),
                            smart_concat(b.delta_of(), rest),
                        );
                        lemma_between_quotient(round, min as nat, hi as nat, c);
                        lemma_cat_union_left(quotient(a, c), residue(a), x);
                        if b.nullable() {
                            lemma_union_quotient(a, any_one(), c);
                            lemma_leaf_quotients(c);
                        } else {
                            lemma_cat_nothing(x);
                            lemma_union_laws(cat(quotient(a, c), x));
                        }
                    }
                },
            }
        },
    }
    assert(r.deriv(c).lang() == quotient(r.lang(), c));
}

/// Matching by derivatives decides membership in the language.
pub proof fn lemma_accepts_lang(r: KyomuRegex, w: Seq<char>)
    ensures
        r.accepts(w) == r.lang()(w),
    decreases w.len(),
{
    if w.len() == 0 {
        assert(w =~= Seq::empty());
        lemma_nullable_lang(r);
    } else {
        lemma_deriv_sound(r, w[0]);
        lemma_accepts_lang(r.deriv(w[0]), w.skip(1));
        assert(cons(w[0], w.skip(1)) =~= w);
    }
}

} // verus!
