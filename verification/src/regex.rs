//! The regex value and the derivative engine that matches with it.

use crate::language::{
    any_one, at_least, between, cat, just, nothing, pow, quotient, star, union, unit, Lang,
};
use crate::grammar::{derives, law_pattern_is_derivation, tokens_of};
use crate::lex::Lexer;
use crate::parse::{parse_pattern, Node, Parser};
use crate::soundness::{
    lemma_accepts_lang, lemma_deriv_sound, lemma_nullable_lang, lemma_smart_concat_lang,
    lemma_smart_or_lang,
};
use vstd::prelude::*;
use vstd::std_specs::iter::IteratorSpec;

verus! {

/// A compiled regular expression.
///
/// `Char('.')` stands for any single character. `Bracket(min, max, r)` is a
/// counted repetition of `r`: with `max` absent it is exactly `min` rounds;
/// with `max` zero it is `min` rounds or more (and no round at all where
/// `min` is zero too); otherwise it is `min` to `max` rounds.
#[derive(Debug, Hash)]
pub enum KyomuRegex {
    /// A single character.
    Char(char),
    /// ε: the empty string.
    Eps,
    /// ∅: nothing at all.
    Empty,
    /// One expression after the other.
    Concat(Box<KyomuRegex>, Box<KyomuRegex>),
    /// Either of two expressions.
    Or(Box<KyomuRegex>, Box<KyomuRegex>),
    /// Zero or more rounds.
    Star(Box<KyomuRegex>),
    /// One or more rounds.
    Plus(Box<KyomuRegex>),
    /// Zero or one round.
    Question(Box<KyomuRegex>),
    /// A counted repetition `{min, max}`.
    Bracket(u32, Option<u32>, Box<KyomuRegex>),
}

impl PartialEq for KyomuRegex {
    /// Structural equality: the same shape with the same leaves.
    fn eq(&self, other: &Self) -> (r: bool)
        decreases self,
    {
        match (self, other) {
            (KyomuRegex::Char(a), KyomuRegex::Char(b)) => *a == *b,
            (KyomuRegex::Eps, KyomuRegex::Eps) => true,
            (KyomuRegex::Empty, KyomuRegex::Empty) => true,
            (KyomuRegex::Concat(a, b), KyomuRegex::Concat(c, d)) => (&**a).eq(&**c) && (&**b).eq(
                &**d,
            ),
            (KyomuRegex::Or(a, b), KyomuRegex::Or(c, d)) => (&**a).eq(&**c) && (&**b).eq(&**d),
            (KyomuRegex::Star(a), KyomuRegex::Star(c)) => (&**a).eq(&**c),
            (KyomuRegex::Plus(a), KyomuRegex::Plus(c)) => (&**a).eq(&**c),
            (KyomuRegex::Question(a), KyomuRegex::Question(c)) => (&**a).eq(&**c),
            (KyomuRegex::Bracket(m, x, a), KyomuRegex::Bracket(n, y, c)) => {
                *m == *n && *x == *y && (&**a).eq(&**c)
            },
            _ => false,
        }
    }
}

impl Eq for KyomuRegex {

}

impl vstd::std_specs::cmp::PartialEqSpecImpl for KyomuRegex {
    open spec fn obeys_eq_spec() -> bool {
        true
    }

    open spec fn eq_spec(&self, other: &Self) -> bool {
        *self == *other
    }
}

impl Clone for KyomuRegex {
    fn clone(&self) -> (res: Self)
        ensures
            res == *self,
        decreases self,
    {
        match self {
            KyomuRegex::Char(c) => KyomuRegex::Char(*c),
            KyomuRegex::Eps => KyomuRegex::Eps,
            KyomuRegex::Empty => KyomuRegex::Empty,
            KyomuRegex::Concat(a, b) => KyomuRegex::Concat(
                Box::new((&**a).clone()),
                Box::new((&**b).clone()),
            ),
            KyomuRegex::Or(a, b) => KyomuRegex::Or(
                Box::new((&**a).clone()),
                Box::new((&**b).clone()),
            ),
            KyomuRegex::Star(a) => KyomuRegex::Star(Box::new((&**a).clone())),
            KyomuRegex::Plus(a) => KyomuRegex::Plus(Box::new((&**a).clone())),
            KyomuRegex::Question(a) => KyomuRegex::Question(Box::new((&**a).clone())),
            KyomuRegex::Bracket(m, x, a) => KyomuRegex::Bracket(
                *m,
                *x,
                Box::new((&**a).clone()),
            ),
        }
    }
}

/// What the smart alternation builds: `l` where both sides are the same
/// value, the other side where one side is ∅, and the plain alternation
/// otherwise.
pub open spec fn smart_or(l: KyomuRegex, r: KyomuRegex) -> KyomuRegex {
    if l == r {
        l
    } else if l is Empty {
        r
    } else if r is Empty {
        l
    } else {
        KyomuRegex::Or(Box::new(l), Box::new(r))
    }
}

/// What the smart concatenation builds: the other side where one side is ε,
/// ∅ where one side is ∅, and the plain concatenation otherwise.
pub open spec fn smart_concat(l: KyomuRegex, r: KyomuRegex) -> KyomuRegex {
    if l is Eps {
        r
    } else if r is Eps {
        l
    } else if l is Empty || r is Empty {
        KyomuRegex::Empty
    } else {
        KyomuRegex::Concat(Box::new(l), Box::new(r))
    }
}

/// `n` copies of `r` joined by the smart concatenation, ε for none.
pub open spec fn copies(r: KyomuRegex, n: nat) -> KyomuRegex
    decreases n,
{
    if n == 0 {
        KyomuRegex::Eps
    } else {
        smart_concat(r, copies(r, (n - 1) as nat))
    }
}

/// A bound on the size of `n` joined copies of a value of size `s`.
pub open spec fn rep_size(s: nat, n: nat) -> nat
    decreases n,
{
    if n == 0 {
        1
    } else {
        s + 1 + rep_size(s, (n - 1) as nat)
    }
}

/// One less, stopping at zero.
pub open spec fn pred(n: u32) -> u32 {
    if n == 0 {
        0
    } else {
        (n - 1) as u32
    }
}

impl KyomuRegex {
    /// Whether the value accepts the empty string, read off its shape.
    pub open spec fn nullable(self) -> bool
        decreases self,
    {
        match self {
            KyomuRegex::Char(_) => false,
            KyomuRegex::Eps => true,
            KyomuRegex::Empty => false,
            KyomuRegex::Concat(l, r) => l.nullable() && r.nullable(),
            KyomuRegex::Or(l, r) => l.nullable() || r.nullable(),
            KyomuRegex::Star(_) => true,
            KyomuRegex::Plus(r) => r.nullable(),
            KyomuRegex::Question(_) => true,
            KyomuRegex::Bracket(min, _, r) => min == 0 || r.nullable(),
        }
    }

    /// δ: ε for a nullable value, ∅ for any other.
    pub open spec fn delta_of(self) -> KyomuRegex {
        if self.nullable() {
            KyomuRegex::Eps
        } else {
            KyomuRegex::Empty
        }
    }

    /// A measure that the derivative's recursion descends on: a counted
    /// repetition weighs more than its expansion into copies.
    pub open spec fn size(self) -> nat
        decreases self,
    {
        match self {
            KyomuRegex::Char(_) => 1,
            KyomuRegex::Eps => 1,
            KyomuRegex::Empty => 1,
            KyomuRegex::Concat(l, r) => l.size() + r.size() + 1,
            KyomuRegex::Or(l, r) => l.size() + r.size() + 1,
            KyomuRegex::Star(r) => r.size() + 1,
            KyomuRegex::Plus(r) => r.size() + 1,
            KyomuRegex::Question(r) => r.size() + 1,
            KyomuRegex::Bracket(min, _, r) => rep_size(r.size(), min as nat) + r.size() + 4,
        }
    }

    /// The Brzozowski derivative of the value by `c`, rule by rule.
    pub open spec fn deriv(self, c: char) -> KyomuRegex
        decreases self.size(),
    {
        match self {
            KyomuRegex::Char(x) => if x == '.' || x == c {
                KyomuRegex::Eps
            } else {
                KyomuRegex::Empty
            },
            KyomuRegex::Eps => KyomuRegex::Empty,
            KyomuRegex::Empty => KyomuRegex::Empty,
            KyomuRegex::Concat(l, r) => smart_or(
                smart_concat(l.deriv(c), *r),
                smart_concat(l.delta_of(), r.deriv(c)),
            ),
            KyomuRegex::Or(l, r) => smart_or(l.deriv(c), r.deriv(c)),
            KyomuRegex::Star(r) => smart_concat(r.deriv(c), KyomuRegex::Star(r)),
            KyomuRegex::Plus(r) => smart_concat(
                smart_or(r.deriv(c), smart_concat(r.delta_of(), r.deriv(c))),
                KyomuRegex::Star(r),
            ),
            KyomuRegex::Question(r) => r.deriv(c),
            KyomuRegex::Bracket(min, max, r) => match max {
                None => {
                    proof {
                        lemma_copies_size(*r, min as nat);
                    }
                    copies(*r, min as nat).deriv(c)
                },
                Some(hi) => if hi == 0 {
                    if min == 0 {
                        KyomuRegex::Empty
                    } else {
                        proof {
                            lemma_copies_size(*r, min as nat);
                            lemma_smart_concat_size(copies(*r, min as nat), KyomuRegex::Star(r));
                        }
                        smart_concat(copies(*r, min as nat), KyomuRegex::Star(r)).deriv(c)
                    }
                } else if min > hi {
                    KyomuRegex::Empty
                } else {
                    let rest = KyomuRegex::Bracket(pred(min), Some(pred(hi)), r);
                    smart_or(smart_concat(r.deriv(c), rest), smart_concat(r.delta_of(), rest))
                },
            },
        }
    }

    /// The value after differentiating by each character of `w` in turn.
    pub open spec fn deriv_all(self, w: Seq<char>) -> KyomuRegex
        decreases w.len(),
    {
        if w.len() == 0 {
            self
        } else {
            self.deriv(w[0]).deriv_all(w.skip(1))
        }
    }

    /// Whether differentiating by all of `w` ends in a nullable value.
    pub open spec fn accepts(self, w: Seq<char>) -> bool {
        self.deriv_all(w).nullable()
    }

    /// The language of the value: the set of strings it stands for.
    ///
    /// A ranged repetition `{min, max}` with `0 < max` stands for `min` to
    /// `max` rounds of its body, and for nothing where `min > max`, as long as
    /// the body is not nullable. Over a nullable body the derivative rules
    /// make it wider: a round may then also take any one character, and with
    /// `min > max` the empty string stays in.
    pub open spec fn lang(self) -> Lang
        decreases self,
    {
        match self {
            KyomuRegex::Char(x) => if x == '.' {
                any_one()
            } else {
                just(x)
            },
            KyomuRegex::Eps => unit(),
            KyomuRegex::Empty => nothing(),
            KyomuRegex::Concat(l, r) => cat(l.lang(), r.lang()),
            KyomuRegex::Or(l, r) => union(l.lang(), r.lang()),
            KyomuRegex::Star(r) => star(r.lang()),
            KyomuRegex::Plus(r) => at_least(r.lang(), 1),
            KyomuRegex::Question(r) => union(unit(), r.lang()),
            KyomuRegex::Bracket(min, max, r) => match max {
                None => pow(r.lang(), min as nat),
                Some(hi) => if hi == 0 {
                    if min == 0 {
                        unit()
                    } else {
                        at_least(r.lang(), min as nat)
                    }
                } else if !r.nullable() {
                    between(r.lang(), min as nat, hi as nat)
                } else if min > hi {
                    unit()
                } else {
                    between(union(r.lang(), any_one()), min as nat, hi as nat)
                },
            },
        }
    }
}

impl KyomuRegex {
    /// Decides whether the value matches the whole of `input`: differentiates
    /// by each character in turn and tests the last value for nullability.
    pub fn whole_match(&self, input: &str) -> (res: bool)
        ensures
            res == self.accepts(input@),
            res == self.lang()(input@),
    {
        let mut reg = self.clone();
        let mut rest = input.chars();
        loop
            invariant
                rest.obeys_prophetic_iter_laws(),
                rest.decrease() is Some,
                reg.accepts(rest.remaining()) == self.accepts(input@),
            ensures
                reg.nullable() == self.accepts(input@),
            decreases rest.decrease()->0,
        {
            let ghost before = rest.remaining();
            match rest.next() {
                Some(ch) => {
                    assert(before.skip(1) =~= before.drop_first());
                    reg = reg.derivative(ch);
                },
                None => {
                    break ;
                },
            }
        }
        proof {
            lemma_accepts_lang(*self, input@);
        }
        reg.match_eps()
    }

    /// The derivative by `ch`: a value for the strings `w` such that the
    /// value at hand accepts `ch` followed by `w`.
    pub fn derivative(&self, ch: char) -> (res: Self)
        ensures
            res == self.deriv(ch),
            res.lang() == quotient(self.lang(), ch),
        decreases self.size(),
    {
        proof {
            lemma_deriv_sound(*self, ch);
        }
        match self {
            KyomuRegex::Char(c) => {
                if *c == '.' || *c == ch {
                    KyomuRegex::Eps
                } else {
                    KyomuRegex::Empty
                }
            },
            KyomuRegex::Eps => KyomuRegex::Empty,
            KyomuRegex::Empty => KyomuRegex::Empty,
            KyomuRegex::Concat(left, right) => {
                s_or(
                    s_concat(left.derivative(ch), (&**right).clone()),
                    s_concat(left.delta(), right.derivative(ch)),
                )
            },
            KyomuRegex::Or(left, right) => s_or(left.derivative(ch), right.derivative(ch)),
            KyomuRegex::Star(left) => {
                s_concat(left.derivative(ch), KyomuRegex::Star(Box::new((&**left).clone())))
            },
            KyomuRegex::Plus(left) => {
                s_concat(
                    s_or(left.derivative(ch), s_concat(left.delta(), left.derivative(ch))),
                    KyomuRegex::Star(Box::new((&**left).clone())),
                )
            },
            KyomuRegex::Question(left) => left.derivative(ch),
            KyomuRegex::Bracket(min, max, r) => {
                match max {
                    None => {
                        let expanded = repeat(r, *min);
                        proof {
                            lemma_copies_size(**r, *min as nat);
                        }
                        expanded.derivative(ch)
                    },
                    Some(hi) => {
                        if *hi == 0 {
                            if *min == 0 {
                                KyomuRegex::Empty
                            } else {
                                let forced = repeat(r, *min);
                                let expanded = s_concat(
                                    forced,
                                    KyomuRegex::Star(Box::new((&**r).clone())),
                                );
                                proof {
                                    lemma_copies_size(**r, *min as nat);
                                    lemma_smart_concat_size(
                                        copies(**r, *min as nat),
                                        KyomuRegex::Star(*r),
                                    );
                                }
                                expanded.derivative(ch)
                            }
                        } else if *min > *hi {
                            KyomuRegex::Empty
                        } else {
                            let lo1 = min.saturating_sub(1);
                            let hi1 = hi.saturating_sub(1);
                            s_or(
                                s_concat(
                                    r.derivative(ch),
                                    KyomuRegex::Bracket(lo1, Some(hi1), Box::new((&**r).clone())),
                                ),
                                s_concat(
                                    r.delta(),
                                    KyomuRegex::Bracket(lo1, Some(hi1), Box::new((&**r).clone())),
                                ),
                            )
                        }
                    },
                }
            },
        }
    }

    /// Nullability: whether the value accepts the empty string. ε does, ∅
    /// does not.
    pub fn match_eps(&self) -> (res: bool)
        ensures
            res == self.nullable(),
            res == self.lang()(Seq::empty()),
            *self == KyomuRegex::Eps ==> res,
            *self == KyomuRegex::Empty ==> !res,
        decreases self,
    {
        proof {
            lemma_nullable_lang(*self);
        }
        match self {
            KyomuRegex::Char(_) => false,
            KyomuRegex::Eps => true,
            KyomuRegex::Empty => false,
            KyomuRegex::Concat(left, right) => left.match_eps() && right.match_eps(),
            KyomuRegex::Or(left, right) => left.match_eps() || right.match_eps(),
            KyomuRegex::Star(_) => true,
            KyomuRegex::Plus(r) => r.match_eps(),
            KyomuRegex::Question(_) => true,
            KyomuRegex::Bracket(min, _, r) => *min == 0 || r.match_eps(),
        }
    }

    /// δ: ε where the value is nullable, ∅ where it is not.
    pub fn delta(&self) -> (res: KyomuRegex)
        ensures
            res == self.delta_of(),
            self.nullable() ==> res == KyomuRegex::Eps,
            !self.nullable() ==> res == KyomuRegex::Empty,
    {
        if self.match_eps() {
            KyomuRegex::Eps
        } else {
            KyomuRegex::Empty
        }
    }
}

/// The regex value that a syntax tree stands for: the same tree, node for
/// node.
pub open spec fn regex_of(node: Node) -> KyomuRegex
    decreases node,
{
    match node {
        Node::NdChar(c) => KyomuRegex::Char(c),
        Node::NdEps => KyomuRegex::Eps,
        Node::NdStar(r) => KyomuRegex::Star(Box::new(regex_of(*r))),
        Node::NdPlus(r) => KyomuRegex::Plus(Box::new(regex_of(*r))),
        Node::NdQuestion(r) => KyomuRegex::Question(Box::new(regex_of(*r))),
        Node::NdConcat(l, r) => KyomuRegex::Concat(
            Box::new(regex_of(*l)),
            Box::new(regex_of(*r)),
        ),
        Node::NdOr(l, r) => KyomuRegex::Or(Box::new(regex_of(*l)), Box::new(regex_of(*r))),
        Node::NdBracket(min, max, r) => KyomuRegex::Bracket(min, max, Box::new(regex_of(*r))),
    }
}

/// What compiling the pattern `s` gives: the regex value of its syntax tree,
/// or the text that reports the first mismatch.
pub open spec fn compiled(s: Seq<char>) -> Result<KyomuRegex, Seq<char>> {
    match parse_pattern(s) {
        Ok(node) => Ok(regex_of(node)),
        Err(f) => Err(f.message()),
    }
}

/// Whether `got` is what `want` asks for: the same value, or an error with
/// the same text.
pub open spec fn yields(got: Result<KyomuRegex, String>, want: Result<KyomuRegex, Seq<char>>) -> bool {
    match want {
        Ok(r) => got == Ok::<KyomuRegex, String>(r),
        Err(text) => got is Err && got->Err_0@ == text,
    }
}

impl KyomuRegex {
    /// Whether ∅ occurs anywhere in the value.
    pub open spec fn has_empty(self) -> bool
        decreases self,
    {
        match self {
            KyomuRegex::Char(_) => false,
            KyomuRegex::Eps => false,
            KyomuRegex::Empty => true,
            KyomuRegex::Concat(l, r) => l.has_empty() || r.has_empty(),
            KyomuRegex::Or(l, r) => l.has_empty() || r.has_empty(),
            KyomuRegex::Star(r) => r.has_empty(),
            KyomuRegex::Plus(r) => r.has_empty(),
            KyomuRegex::Question(r) => r.has_empty(),
            KyomuRegex::Bracket(_, _, r) => r.has_empty(),
        }
    }

    /// Builds the regex value of a syntax tree, node for node. ∅ never
    /// comes out of it.
    pub fn build_from_ast(node: Node) -> (res: Self)
        ensures
            res == regex_of(node),
            !res.has_empty(),
        decreases node,
    {
        match node {
            Node::NdChar(c) => KyomuRegex::Char(c),
            Node::NdEps => KyomuRegex::Eps,
            Node::NdStar(left) => KyomuRegex::Star(Box::new(Self::build_from_ast(*left))),
            Node::NdPlus(left) => KyomuRegex::Plus(Box::new(Self::build_from_ast(*left))),
            Node::NdQuestion(left) => KyomuRegex::Question(Box::new(Self::build_from_ast(*left))),
            Node::NdConcat(left, right) => KyomuRegex::Concat(
                Box::new(Self::build_from_ast(*left)),
                Box::new(Self::build_from_ast(*right)),
            ),
            Node::NdOr(left, right) => KyomuRegex::Or(
                Box::new(Self::build_from_ast(*left)),
                Box::new(Self::build_from_ast(*right)),
            ),
            Node::NdBracket(min, max, r) => KyomuRegex::Bracket(
                min,
                max,
                Box::new(Self::build_from_ast(*r)),
            ),
        }
    }

    /// Compiles a pattern: scans and parses it, and builds the value of the
    /// syntax tree. Fails, with the message of the first mismatch, exactly
    /// when the tokens of the pattern derive no syntax tree.
    pub fn compile(pattern: &str) -> (res: Result<Self, String>)
        ensures
            yields(res, compiled(pattern@)),
            res is Ok <==> exists|n: Node| derives(tokens_of(pattern@), n),
            res is Ok ==> !res->Ok_0.has_empty(),
    {
        proof {
            let want = parse_pattern(pattern@);
            if want is Ok {
                law_pattern_is_derivation(pattern@, want->Ok_0);
            } else {
                law_pattern_is_derivation(pattern@, Node::NdEps);
            }
        }
        let mut parser = Parser::new(Lexer::new(pattern));
        match parser.parse() {
            Ok(ast) => Ok(Self::build_from_ast(ast)),
            Err(e) => Err(e),
        }
    }
}

impl std::str::FromStr for KyomuRegex {
    type Err = String;

    /// Compiles `s`, as `compile` does.
    fn from_str(s: &str) -> (res: Result<Self, String>)
        ensures
            yields(res, compiled(s@)),
    {
        Self::compile(s)
    }
}

/// The smart alternation: builds `left | right`, keeping one side where the
/// two are the same value or the other is ∅. The language is that of the
/// plain alternation.
pub fn s_or(left: KyomuRegex, right: KyomuRegex) -> (res: KyomuRegex)
    ensures
        res == smart_or(left, right),
        res.lang() == union(left.lang(), right.lang()),
{
    proof {
        lemma_smart_or_lang(left, right);
    }
    if left == right {
        left
    } else {
        match left {
            KyomuRegex::Empty => right,
            l => match right {
                KyomuRegex::Empty => l,
                r => KyomuRegex::Or(Box::new(l), Box::new(r)),
            },
        }
    }
}

/// The smart concatenation: builds `left` followed by `right`, dropping a
/// side that is ε and collapsing to ∅ where a side is ∅. The language is that
/// of the plain concatenation.
pub fn s_concat(left: KyomuRegex, right: KyomuRegex) -> (res: KyomuRegex)
    ensures
        res == smart_concat(left, right),
        res.lang() == cat(left.lang(), right.lang()),
{
    proof {
        lemma_smart_concat_lang(left, right);
    }
    match left {
        KyomuRegex::Eps => right,
        l => match right {
            KyomuRegex::Eps => l,
            r => match (l, r) {
                (KyomuRegex::Empty, _) => KyomuRegex::Empty,
                (_, KyomuRegex::Empty) => KyomuRegex::Empty,
                (l, r) => KyomuRegex::Concat(Box::new(l), Box::new(r)),
            },
        },
    }
}

/// `n` copies of `r` in a row, joined by the smart concatenation.
pub fn repeat(r: &KyomuRegex, n: u32) -> (res: KyomuRegex)
    ensures
        res == copies(*r, n as nat),
{
    let mut acc = KyomuRegex::Eps;
    let mut i: u32 = 0;
    while i < n
        invariant
            i <= n,
            acc == copies(*r, i as nat),
        decreases n - i,
    {
        acc = s_concat(r.clone(), acc);
        i = i + 1;
    }
    acc
}

/// The smart concatenation adds at most one node.
pub proof fn lemma_smart_concat_size(l: KyomuRegex, r: KyomuRegex)
    ensures
        smart_concat(l, r).size() <= l.size() + r.size() + 1,
{
}

/// Joined copies stay within `rep_size`.
pub proof fn lemma_copies_size(r: KyomuRegex, n: nat)
    ensures
        copies(r, n).size() <= rep_size(r.size(), n),
    decreases n,
{
    if n > 0 {
        lemma_copies_size(r, (n - 1) as nat);
        lemma_smart_concat_size(r, copies(r, (n - 1) as nat));
    }
}

} // verus!
