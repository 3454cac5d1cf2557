//! Formal languages over `char`, as predicates on strings, and the algebra of
//! left quotients that the matching engine is proved against.

use vstd::prelude::*;

verus! {

/// A language: the set of strings it holds, given as its membership predicate.
pub type Lang = spec_fn(Seq<char>) -> bool;

/// The string `c·w`.
pub open spec fn cons(c: char, w: Seq<char>) -> Seq<char> {
    seq![c] + w
}

/// ∅: no string at all.
pub open spec fn nothing() -> Lang {
    |w: Seq<char>| false
}

/// {ε}: the empty string alone.
pub open spec fn unit() -> Lang {
    |w: Seq<char>| w.len() == 0
}

/// Every string of exactly one character.
pub open spec fn any_one() -> Lang {
    |w: Seq<char>| w.len() == 1
}

/// The one-character string `x`.
pub open spec fn just(x: char) -> Lang {
    |w: Seq<char>| w.len() == 1 && w[0] == x
}

/// a ∪ b.
pub open spec fn union(a: Lang, b: Lang) -> Lang {
    |w: Seq<char>| a(w) || b(w)
}

/// `w` cut after `i` characters has its head in `a` and its tail in `b`.
pub open spec fn splits(a: Lang, b: Lang, w: Seq<char>, i: int) -> bool {
    &&& 0 <= i <= w.len()
    &&& a(w.take(i))
    &&& b(w.skip(i))
}

/// a·b: a string of `a` followed by a string of `b`.
pub open spec fn cat(a: Lang, b: Lang) -> Lang {
    |w: Seq<char>| exists|i: int| splits(a, b, w, i)
}

/// aⁿ: `n` strings of `a` in a row.
pub open spec fn pow(a: Lang, n: nat) -> Lang
    decreases n,
{
    if n == 0 {
        unit()
    } else {
        cat(a, pow(a, (n - 1) as nat))
    }
}

/// `n` strings of `a` in a row, for some `n` with `lo <= n <= hi`.
pub open spec fn between(a: Lang, lo: nat, hi: nat) -> Lang {
    |w: Seq<char>| exists|n: nat| lo <= n <= hi && #[trigger] pow(a, n)(w)
}

/// `n` strings of `a` in a row, for some `n >= lo`.
pub open spec fn at_least(a: Lang, lo: nat) -> Lang {
    |w: Seq<char>| exists|n: nat| lo <= n && #[trigger] pow(a, n)(w)
}

/// a*: any number of strings of `a` in a row.
pub open spec fn star(a: Lang) -> Lang {
    at_least(a, 0)
}

/// One less than `n`, and zero for zero.
pub open spec fn less_one(n: nat) -> nat {
    if n == 0 {
        0
    } else {
        (n - 1) as nat
    }
}

/// The left quotient c⁻¹a: the strings `w` with `c·w` in `a`.
pub open spec fn quotient(a: Lang, c: char) -> Lang {
    |w: Seq<char>| a(cons(c, w))
}

/// δ(a): {ε} if `a` holds the empty string, ∅ otherwise.
pub open spec fn residue(a: Lang) -> Lang {
    if a(Seq::empty()) {
        unit()
    } else {
        nothing()
    }
}

/// {ε}·b = b.
pub proof fn lemma_cat_unit_left(b: Lang)
    ensures
        cat(unit(), b) == b,
{
    assert forall|w: Seq<char>| cat(unit(), b)(w) == #[trigger] b(w) by {
        assert(w.skip(0) =~= w);
        if b(w) {
            assert(splits(unit(), b, w, 0));
        }
        if cat(unit(), b)(w) {
            let i = choose|i: int| splits(unit(), b, w, i);
            assert(w.skip(i) =~= w);
        }
    }
    assert(cat(unit(), b) =~= b);
}

/// a·{ε} = a.
pub proof fn lemma_cat_unit_right(a: Lang)
    ensures
        cat(a, unit()) == a,
{
    assert forall|w: Seq<char>| cat(a, unit())(w) == #[trigger] a(w) by {
        assert(w.take(w.len() as int) =~= w);
        if a(w) {
            assert(splits(a, unit(), w, w.len() as int));
        }
        if cat(a, unit())(w) {
            let i = choose|i: int| splits(a, unit(), w, i);
            assert(w.take(i) =~= w);
        }
    }
    assert(cat(a, unit()) =~= a);
}

/// ∅·b = ∅ and a·∅ = ∅.
pub proof fn lemma_cat_nothing(a: Lang)
    ensures
        cat(nothing(), a) == nothing(),
        cat(a, nothing()) == nothing(),
{
    assert(cat(nothing(), a) =~= nothing());
    assert(cat(a, nothing()) =~= nothing());
}

/// a·b holds ε exactly when both `a` and `b` do.
pub proof fn lemma_cat_empty(a: Lang, b: Lang)
    ensures
        cat(a, b)(Seq::empty()) == (a(Seq::empty()) && b(Seq::empty())),
{
    let e = Seq::<char>::empty();
    assert(e.take(0) =~= e);
    assert(e.skip(0) =~= e);
    if a(e) && b(e) {
        assert(splits(a, b, e, 0));
    }
    if cat(a, b)(e) {
        let i = choose|i: int| splits(a, b, e, i);
        assert(i == 0);
    }
}

/// (a ∪ b)·x = a·x ∪ b·x.
pub proof fn lemma_cat_union_left(a: Lang, b: Lang, x: Lang)
    ensures
        cat(union(a, b), x) == union(cat(a, x), cat(b, x)),
{
    let lhs = cat(union(a, b), x);
    let rhs = union(cat(a, x), cat(b, x));
    assert forall|w: Seq<char>| #[trigger] lhs(w) == rhs(w) by {
        if lhs(w) {
            let i = choose|i: int| splits(union(a, b), x, w, i);
            if a(w.take(i)) {
                assert(splits(a, x, w, i));
            } else {
                assert(splits(b, x, w, i));
            }
        }
        if cat(a, x)(w) {
            let i = choose|i: int| splits(a, x, w, i);
            assert(splits(union(a, b), x, w, i));
        }
        if cat(b, x)(w) {
            let i = choose|i: int| splits(b, x, w, i);
            assert(splits(union(a, b), x, w, i));
        }
    }
    assert(lhs =~= rhs);
}

/// δ(a)·b is `b` where `a` holds ε, and ∅ where it does not.
pub proof fn lemma_cat_residue(a: Lang, b: Lang)
    ensures
        a(Seq::empty()) ==> cat(residue(a), b) == b,
        !a(Seq::empty()) ==> cat(residue(a), b) == nothing(),
{
    lemma_cat_unit_left(b);
    lemma_cat_nothing(b);
}

/// The quotient of a concatenation:
/// c⁻¹(a·b) = (c⁻¹a)·b ∪ δ(a)·(c⁻¹b).
pub proof fn lemma_cat_quotient(a: Lang, b: Lang, c: char)
    ensures
        quotient(cat(a, b), c) == union(
            cat(quotient(a, c), b),
            cat(residue(a), quotient(b, c)),
        ),
{
    let lhs = quotient(cat(a, b), c);
    let rhs = union(cat(quotient(a, c), b), cat(residue(a), quotient(b, c)));
    lemma_cat_residue(a, quotient(b, c));
    assert forall|w: Seq<char>| #[trigger] lhs(w) == rhs(w) by {
        let cw = cons(c, w);
        assert(cw.take(0) =~= Seq::empty());
        assert(cw.skip(0) =~= cw);
        if lhs(w) {
            let i = choose|i: int| splits(a, b, cw, i);
            if i != 0 {
                assert(cw.take(i) =~= cons(c, w.take(i - 1)));
                assert(cw.skip(i) =~= w.skip(i - 1));
                assert(splits(quotient(a, c), b, w, i - 1));
            }
        }
        if cat(quotient(a, c), b)(w) {
            let j = choose|j: int| splits(quotient(a, c), b, w, j);
            assert(cw.take(j + 1) =~= cons(c, w.take(j)));
            assert(cw.skip(j + 1) =~= w.skip(j));
            assert(splits(a, b, cw, j + 1));
        }
        if a(Seq::empty()) && b(cw) {
            assert(splits(a, b, cw, 0));
        }
    }
    assert(lhs =~= rhs);
}

/// (a·b)·x = a·(b·x).
pub proof fn lemma_cat_assoc(a: Lang, b: Lang, x: Lang)
    ensures
        cat(cat(a, b), x) == cat(a, cat(b, x)),
{
    let lhs = cat(cat(a, b), x);
    let rhs = cat(a, cat(b, x));
    assert forall|w: Seq<char>| #[trigger] lhs(w) == rhs(w) by {
        if lhs(w) {
            let i = choose|i: int| splits(cat(a, b), x, w, i);
            let j = choose|j: int| splits(a, b, w.take(i), j);
            assert(w.take(i).take(j) =~= w.take(j));
            assert(w.take(i).skip(j) =~= w.skip(j).take(i - j));
            assert(w.skip(j).skip(i - j) =~= w.skip(i));
            assert(splits(b, x, w.skip(j), i - j));
            assert(splits(a, cat(b, x), w, j));
        }
        if rhs(w) {
            let j = choose|j: int| splits(a, cat(b, x), w, j);
            let k = choose|k: int| splits(b, x, w.skip(j), k);
            assert(w.take(j + k).take(j) =~= w.take(j));
            assert(w.take(j + k).skip(j) =~= w.skip(j).take(k));
            assert(w.skip(j).skip(k) =~= w.skip(j + k));
            assert(splits(a, b, w.take(j + k), j));
            assert(splits(cat(a, b), x, w, j + k));
        }
    }
    assert(lhs =~= rhs);
}

/// aᵐ·aᵏ = aᵐ⁺ᵏ.
pub proof fn lemma_pow_add(a: Lang, m: nat, k: nat)
    ensures
        cat(pow(a, m), pow(a, k)) == pow(a, m + k),
    decreases m,
{
    if m == 0 {
        lemma_cat_unit_left(pow(a, k));
    } else {
        let m1 = (m - 1) as nat;
        lemma_cat_assoc(a, pow(a, m1), pow(a, k));
        lemma_pow_add(a, m1, k);
        assert((m + k - 1) as nat == m1 + k);
    }
}

/// aⁿ holds ε exactly when `n` is 0 or `a` holds ε.
pub proof fn lemma_pow_empty(a: Lang, n: nat)
    ensures
        pow(a, n)(Seq::empty()) == (n == 0 || a(Seq::empty())),
    decreases n,
{
    if n > 0 {
        lemma_pow_empty(a, (n - 1) as nat);
        lemma_cat_empty(a, pow(a, (n - 1) as nat));
    }
}

/// Where `a` holds ε, a string of aⁿ is one of aᵏ for every `k >= n`.
pub proof fn lemma_pow_grow(a: Lang, n: nat, k: nat, w: Seq<char>)
    requires
        a(Seq::empty()),
        pow(a, n)(w),
        n <= k,
    ensures
        pow(a, k)(w),
    decreases k - n,
{
    if n < k {
        assert(w.take(0) =~= Seq::empty());
        assert(w.skip(0) =~= w);
        assert(splits(a, pow(a, n), w, 0));
        lemma_pow_grow(a, n + 1, k, w);
    }
}

/// The quotient of a power: c⁻¹(aⁿ) = (c⁻¹a)·aⁿ⁻¹ for `n >= 1`.
pub proof fn lemma_pow_quotient(a: Lang, n: nat, c: char)
    requires
        n >= 1,
    ensures
        quotient(pow(a, n), c) == cat(quotient(a, c), pow(a, (n - 1) as nat)),
    decreases n,
{
    let n1 = (n - 1) as nat;
    let lhs = quotient(pow(a, n), c);
    let rhs = cat(quotient(a, c), pow(a, n1));
    lemma_cat_quotient(a, pow(a, n1), c);
    lemma_cat_residue(a, quotient(pow(a, n1), c));
    if n1 >= 1 {
        lemma_pow_quotient(a, n1, c);
    }
    assert forall|w: Seq<char>| #[trigger] lhs(w) == rhs(w) by {
        if a(Seq::empty()) && quotient(pow(a, n1), c)(w) {
            let n2 = (n1 - 1) as nat;
            let i = choose|i: int| splits(quotient(a, c), pow(a, n2), w, i);
            lemma_pow_grow(a, n2, n1, w.skip(i));
            assert(splits(quotient(a, c), pow(a, n1), w, i));
        }
    }
    assert(lhs =~= rhs);
}

/// The quotient of "at least `lo` in a row":
/// one string fewer is owed after the first character.
pub proof fn lemma_at_least_quotient(a: Lang, lo: nat, c: char)
    ensures
        quotient(at_least(a, lo), c) == cat(
            quotient(a, c),
            at_least(a, less_one(lo)),
        ),
{
    let lo1 = less_one(lo);
    let lhs = quotient(at_least(a, lo), c);
    let rhs = cat(quotient(a, c), at_least(a, lo1));
    assert forall|w: Seq<char>| #[trigger] lhs(w) == rhs(w) by {
        if lhs(w) {
            let n = choose|n: nat| lo <= n && #[trigger] pow(a, n)(cons(c, w));
            assert(n >= 1);
            lemma_pow_quotient(a, n, c);
            assert(quotient(pow(a, n), c)(w));
            let n1 = (n - 1) as nat;
            let i = choose|i: int| splits(quotient(a, c), pow(a, n1), w, i);
            assert(splits(quotient(a, c), at_least(a, lo1), w, i));
        }
        if rhs(w) {
            let i = choose|i: int| splits(quotient(a, c), at_least(a, lo1), w, i);
            let k = choose|k: nat| lo1 <= k && #[trigger] pow(a, k)(w.skip(i));
            lemma_pow_quotient(a, k + 1, c);
            assert(splits(quotient(a, c), pow(a, k), w, i));
            assert(quotient(pow(a, k + 1), c)(w));
            assert(pow(a, k + 1)(cons(c, w)));
        }
    }
    assert(lhs =~= rhs);
}

/// The quotient of "between `lo` and `hi` in a row", for `lo <= hi` and
/// `hi >= 1`: one string fewer is owed, and one fewer allowed, after the first
/// character.
pub proof fn lemma_between_quotient(a: Lang, lo: nat, hi: nat, c: char)
    requires
        lo <= hi,
        hi >= 1,
    ensures
        quotient(between(a, lo, hi), c) == cat(
            quotient(a, c),
            between(a, less_one(lo), less_one(hi)),
        ),
{
    let lo1 = less_one(lo);
    let hi1 = less_one(hi);
    let lhs = quotient(between(a, lo, hi), c);
    let rhs = cat(quotient(a, c), between(a, lo1, hi1));
    assert forall|w: Seq<char>| #[trigger] lhs(w) == rhs(w) by {
        if lhs(w) {
            let n = choose|n: nat| lo <= n <= hi && #[trigger] pow(a, n)(cons(c, w));
            assert(n >= 1);
            lemma_pow_quotient(a, n, c);
            assert(quotient(pow(a, n), c)(w));
            let n1 = (n - 1) as nat;
            let i = choose|i: int| splits(quotient(a, c), pow(a, n1), w, i);
            assert(splits(quotient(a, c), between(a, lo1, hi1), w, i));
        }
        if rhs(w) {
            let i = choose|i: int| splits(quotient(a, c), between(a, lo1, hi1), w, i);
            let k = choose|k: nat| lo1 <= k <= hi1 && #[trigger] pow(a, k)(w.skip(i));
            lemma_pow_quotient(a, k + 1, c);
            assert(splits(quotient(a, c), pow(a, k), w, i));
            assert(quotient(pow(a, k + 1), c)(w));
            assert(pow(a, k + 1)(cons(c, w)));
        }
    }
    assert(lhs =~= rhs);
}

/// aᵐ·a* is "at least `m` in a row".
pub proof fn lemma_pow_then_star(a: Lang, m: nat)
    ensures
        cat(pow(a, m), star(a)) == at_least(a, m),
{
    let lhs = cat(pow(a, m), star(a));
    let rhs = at_least(a, m);
    assert forall|w: Seq<char>| #[trigger] lhs(w) == rhs(w) by {
        if lhs(w) {
            let i = choose|i: int| splits(pow(a, m), star(a), w, i);
            let k = choose|k: nat| 0 <= k && #[trigger] pow(a, k)(w.skip(i));
            lemma_pow_add(a, m, k);
            assert(splits(pow(a, m), pow(a, k), w, i));
            assert(pow(a, m + k)(w));
        }
        if rhs(w) {
            let n = choose|n: nat| m <= n && #[trigger] pow(a, n)(w);
            let k = (n - m) as nat;
            lemma_pow_add(a, m, k);
            assert(m + k == n);
            assert(cat(pow(a, m), pow(a, k))(w));
            let i = choose|i: int| splits(pow(a, m), pow(a, k), w, i);
            assert(splits(pow(a, m), star(a), w, i));
        }
    }
    assert(lhs =~= rhs);
}

/// "At least `lo` in a row" holds ε exactly when `lo` is 0 or `a` holds ε.
pub proof fn lemma_at_least_empty(a: Lang, lo: nat)
    ensures
        at_least(a, lo)(Seq::empty()) == (lo == 0 || a(Seq::empty())),
{
    let e = Seq::<char>::empty();
    lemma_pow_empty(a, lo);
    if at_least(a, lo)(e) {
        let n = choose|n: nat| lo <= n && #[trigger] pow(a, n)(e);
        lemma_pow_empty(a, n);
    }
}

/// "Between `lo` and `hi` in a row", for `lo <= hi`, holds ε exactly when
/// `lo` is 0 or `a` holds ε.
pub proof fn lemma_between_empty(a: Lang, lo: nat, hi: nat)
    requires
        lo <= hi,
    ensures
        between(a, lo, hi)(Seq::empty()) == (lo == 0 || a(Seq::empty())),
{
    let e = Seq::<char>::empty();
    lemma_pow_empty(a, lo);
    if between(a, lo, hi)(e) {
        let n = choose|n: nat| lo <= n <= hi && #[trigger] pow(a, n)(e);
        lemma_pow_empty(a, n);
    }
}

/// The quotients of ∅, of {ε} and of "any one character".
pub proof fn lemma_leaf_quotients(c: char)
    ensures
        quotient(nothing(), c) == nothing(),
        quotient(unit(), c) == nothing(),
        quotient(any_one(), c) == unit(),
{
    assert forall|w: Seq<char>| #[trigger] cons(c, w).len() == w.len() + 1 by {}
    assert(quotient(nothing(), c) =~= nothing());
    assert(quotient(unit(), c) =~= nothing());
    assert(quotient(any_one(), c) =~= unit());
}

/// The quotient of the one-character string `x`: {ε} by `x` itself, ∅ by any
/// other character.
pub proof fn lemma_just_quotient(x: char, c: char)
    ensures
        x == c ==> quotient(just(x), c) == unit(),
        x != c ==> quotient(just(x), c) == nothing(),
{
    assert forall|w: Seq<char>| cons(c, w).len() == w.len() + 1 && #[trigger] cons(c, w)[0] == c by {}
    if x == c {
        assert(quotient(just(x), c) =~= unit());
    } else {
        assert(quotient(just(x), c) =~= nothing());
    }
}

/// c⁻¹(a ∪ b) = c⁻¹a ∪ c⁻¹b.
pub proof fn lemma_union_quotient(a: Lang, b: Lang, c: char)
    ensures
        quotient(union(a, b), c) == union(quotient(a, c), quotient(b, c)),
{
    assert(quotient(union(a, b), c) =~= union(quotient(a, c), quotient(b, c)));
}

/// a ∪ a = a, ∅ ∪ a = a, a ∪ ∅ = a.
pub proof fn lemma_union_laws(a: Lang)
    ensures
        union(a, a) == a,
        union(nothing(), a) == a,
        union(a, nothing()) == a,
{
    assert(union(a, a) =~= a);
    assert(union(nothing(), a) =~= a);
    assert(union(a, nothing()) =~= a);
}

} // verus!
