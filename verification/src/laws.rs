//! Laws of the engine: what holds of matching, of the derivative and of the
//! smart constructors, on every value and every input.

use crate::language::{
    any_one, at_least, between, cons, lemma_cat_unit_right, nothing, pow, quotient, union, unit,
};
use crate::regex::{smart_concat, smart_or, KyomuRegex};
use crate::soundness::{
    lemma_accepts_lang, lemma_deriv_sound, lemma_smart_concat_lang, lemma_smart_or_lang,
};
use vstd::prelude::*;

verus! {

/// The value with the smart constructor of its root applied once more to its
/// two sides; a value that is no alternation and no concatenation is left as
/// it is.
pub open spec fn resimplify(x: KyomuRegex) -> KyomuRegex {
    match x {
        KyomuRegex::Or(l, r) => smart_or(*l, *r),
        KyomuRegex::Concat(l, r) => smart_concat(*l, *r),
        _ => x,
    }
}

/// Whether the smart constructor of the root would leave the value as it is.
pub open spec fn is_reduced(x: KyomuRegex) -> bool {
    resimplify(x) == x
}

/// Matching goes one character at a time: the empty input is accepted
/// exactly by the nullable values, and `c·w` is accepted exactly when the
/// derivative by `c` accepts `w`.
pub proof fn law_match_by_steps(r: KyomuRegex, c: char, w: Seq<char>)
    ensures
        r.accepts(Seq::empty()) == r.nullable(),
        r.accepts(cons(c, w)) == r.deriv(c).accepts(w),
{
    assert(cons(c, w).skip(1) =~= w);
    assert(cons(c, w)[0] == c);
}

/// The derivative is sound: `c·w` is in the language of a value exactly
/// when `w` is in the language of its derivative by `c`.
pub proof fn law_derivative_sound(r: KyomuRegex, c: char, w: Seq<char>)
    ensures
        r.lang()(cons(c, w)) == r.deriv(c).lang()(w),
        r.deriv(c).lang() == quotient(r.lang(), c),
{
    lemma_deriv_sound(r, c);
}

/// Matching decides the language: a value accepts `w`, one derivative after
/// the other, exactly when `w` is in its language.
pub proof fn law_accepts_is_language(r: KyomuRegex, w: Seq<char>)
    ensures
        r.accepts(w) == r.lang()(w),
{
    lemma_accepts_lang(r, w);
}

/// Simplification keeps the language: what a smart constructor builds stands
/// for the same strings, and accepts the same inputs, as the plain
/// alternation or concatenation of the two sides.
pub proof fn law_simplification_keeps_language(l: KyomuRegex, r: KyomuRegex, w: Seq<char>)
    ensures
        smart_or(l, r).lang() == KyomuRegex::Or(Box::new(l), Box::new(r)).lang(),
        smart_concat(l, r).lang() == KyomuRegex::Concat(Box::new(l), Box::new(r)).lang(),
        smart_or(l, r).accepts(w) == KyomuRegex::Or(Box::new(l), Box::new(r)).accepts(w),
        smart_concat(l, r).accepts(w) == KyomuRegex::Concat(Box::new(l), Box::new(r)).accepts(w),
{
    lemma_smart_or_lang(l, r);
    lemma_smart_concat_lang(l, r);
    lemma_accepts_lang(smart_or(l, r), w);
    lemma_accepts_lang(smart_concat(l, r), w);
    lemma_accepts_lang(KyomuRegex::Or(Box::new(l), Box::new(r)), w);
    lemma_accepts_lang(KyomuRegex::Concat(Box::new(l), Box::new(r)), w);
}

/// ∅ is a dead end: it accepts nothing, whatever input follows.
pub proof fn law_empty_is_dead(w: Seq<char>)
    ensures
        !KyomuRegex::Empty.accepts(w),
        KyomuRegex::Empty.lang() == nothing(),
{
    lemma_accepts_lang(KyomuRegex::Empty, w);
}

/// A range `{min, max}` with `min > max > 0` cannot be met: its derivative
/// by any character is ∅, and it accepts no input that is not empty.
pub proof fn law_unsatisfiable_range(min: u32, max: u32, r: KyomuRegex, c: char, w: Seq<char>)
    requires
        min > max > 0,
    ensures
        KyomuRegex::Bracket(min, Some(max), Box::new(r)).deriv(c) == KyomuRegex::Empty,
        !KyomuRegex::Bracket(min, Some(max), Box::new(r)).accepts(cons(c, w)),
{
    let b = KyomuRegex::Bracket(min, Some(max), Box::new(r));
    law_match_by_steps(b, c, w);
    law_empty_is_dead(w);
}

/// The smart alternation gives back one of its sides or the plain
/// alternation, and where it gives the plain alternation, applying it again
/// changes nothing.
pub proof fn law_smart_or_shape(l: KyomuRegex, r: KyomuRegex)
    ensures
        smart_or(l, r) == l || smart_or(l, r) == r || (smart_or(l, r) == KyomuRegex::Or(
            Box::new(l),
            Box::new(r),
        ) && is_reduced(smart_or(l, r))),
{
}

/// The smart concatenation gives back one of its sides, ∅, or the plain
/// concatenation, and where it gives ∅ or the plain concatenation, applying
/// it again changes nothing.
pub proof fn law_smart_concat_shape(l: KyomuRegex, r: KyomuRegex)
    ensures
        smart_concat(l, r) == l || smart_concat(l, r) == r || is_reduced(smart_concat(l, r)),
        smart_concat(l, r) == l || smart_concat(l, r) == r || smart_concat(l, r)
            == KyomuRegex::Empty || smart_concat(l, r) == KyomuRegex::Concat(
            Box::new(l),
            Box::new(r),
        ),
{
}

/// Simplification is idempotent: applying the smart alternation twice gives
/// what applying it once gives, wherever the side that it gives back, if it
/// gives one back, is reduced itself. That holds on any two reduced sides.
pub proof fn law_smart_or_idempotent(l: KyomuRegex, r: KyomuRegex)
    requires
        smart_or(l, r) == l ==> is_reduced(l),
        smart_or(l, r) == r ==> is_reduced(r),
    ensures
        is_reduced(smart_or(l, r)),
        resimplify(resimplify(KyomuRegex::Or(Box::new(l), Box::new(r)))) == resimplify(
            KyomuRegex::Or(Box::new(l), Box::new(r)),
        ),
{
    law_smart_or_shape(l, r);
}

/// Simplification is idempotent: applying the smart concatenation twice
/// gives what applying it once gives, wherever the side that it gives back,
/// if it gives one back, is reduced itself. That holds on any two reduced
/// sides.
pub proof fn law_smart_concat_idempotent(l: KyomuRegex, r: KyomuRegex)
    requires
        smart_concat(l, r) == l ==> is_reduced(l),
        smart_concat(l, r) == r ==> is_reduced(r),
    ensures
        is_reduced(smart_concat(l, r)),
        resimplify(resimplify(KyomuRegex::Concat(Box::new(l), Box::new(r)))) == resimplify(
            KyomuRegex::Concat(Box::new(l), Box::new(r)),
        ),
{
    law_smart_concat_shape(l, r);
}

/// `r?` and `r{0,1}` accept the same inputs, but for one case: where `r`
/// is nullable, `r{0,1}` also accepts every single character, whether `r`
/// accepts it or not.
pub proof fn law_question_is_zero_or_one(r: KyomuRegex, w: Seq<char>)
    requires
        !(r.nullable() && w.len() == 1 && !r.accepts(w)),
    ensures
        KyomuRegex::Question(Box::new(r)).accepts(w) == KyomuRegex::Bracket(
            0,
            Some(1),
            Box::new(r),
        ).accepts(w),
        KyomuRegex::Question(Box::new(r)).lang()(w) == KyomuRegex::Bracket(
            0,
            Some(1),
            Box::new(r),
        ).lang()(w),
{
    let q = KyomuRegex::Question(Box::new(r));
    let b = KyomuRegex::Bracket(0, Some(1), Box::new(r));
    let a = r.lang();
    let round = if r.nullable() {
        union(a, any_one())
    } else {
        a
    };
    lemma_accepts_lang(q, w);
    lemma_accepts_lang(b, w);
    lemma_accepts_lang(r, w);
    lemma_cat_unit_right(round);
    assert(pow(round, 0) == unit());
    assert(pow(round, 1) == round) by {
        reveal_with_fuel(pow, 2);
    }
    if b.lang()(w) {
        let n = choose|n: nat| 0 <= n <= 1 && #[trigger] pow(round, n)(w);
        assert(n == 0 || n == 1);
    }
    if q.lang()(w) {
        if w.len() == 0 {
            assert(pow(round, 0)(w));
        } else {
            assert(pow(round, 1)(w));
        }
        assert(between(round, 0, 1)(w));
    }
}

/// `r+` and `r{1,}` have the same language and accept the same inputs.
pub proof fn law_plus_is_one_or_more(r: KyomuRegex, w: Seq<char>)
    ensures
        KyomuRegex::Plus(Box::new(r)).lang() == KyomuRegex::Bracket(
            1,
            Some(0),
            Box::new(r),
        ).lang(),
        KyomuRegex::Plus(Box::new(r)).accepts(w) == KyomuRegex::Bracket(
            1,
            Some(0),
            Box::new(r),
        ).accepts(w),
{
    lemma_accepts_lang(KyomuRegex::Plus(Box::new(r)), w);
    lemma_accepts_lang(KyomuRegex::Bracket(1, Some(0), Box::new(r)), w);
}

/// `r*` and `r{0,}` agree on the empty input, which both accept, and on
/// every input that `r*` rejects: `r{0,}` accepts the empty input alone.
pub proof fn law_star_is_zero_or_more(r: KyomuRegex, w: Seq<char>)
    requires
        w.len() == 0 || !KyomuRegex::Star(Box::new(r)).accepts(w),
    ensures
        KyomuRegex::Star(Box::new(r)).accepts(w) == KyomuRegex::Bracket(
            0,
            Some(0),
            Box::new(r),
        ).accepts(w),
        KyomuRegex::Star(Box::new(r)).lang()(w) == KyomuRegex::Bracket(
            0,
            Some(0),
            Box::new(r),
        ).lang()(w),
{
    let s = KyomuRegex::Star(Box::new(r));
    let b = KyomuRegex::Bracket(0, Some(0), Box::new(r));
    lemma_accepts_lang(s, w);
    lemma_accepts_lang(b, w);
    if w.len() == 0 {
        assert(pow(r.lang(), 0)(w));
        assert(at_least(r.lang(), 0)(w));
    }
}

} // verus!
