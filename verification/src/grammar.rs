//! The grammar of patterns, as a relation between a stretch of tokens and the
//! syntax tree it derives, and the proof that the parser decides it.
//!
//! ```text
//! expr       ::= seq | seq '|' expr
//! seq        ::= ε | sub_seq
//! sub_seq    ::= quantifier | quantifier sub_seq
//! quantifier ::= factor | factor ('*' | '+' | '?' | '{..}')
//! factor     ::= literal | '(' expr ')'
//! ```

use crate::lex::Token;
use crate::parse::{
    advance, lemma_advance_shrinks, lemma_progress, parse_expr, parse_factor, parse_pattern,
    parse_quantifier, parse_seq, parse_sub_expr, parse_sub_seq, start, starts_factor, weight,
    Cursor, Failure, Node,
};
use vstd::prelude::*;

verus! {

/// The tokens from a cursor up to the end marker, the marker left out.
pub open spec fn sentence(c: Cursor) -> Seq<Token>
    decreases weight(c),
{
    if c.look is TkEps {
        Seq::empty()
    } else {
        proof {
            lemma_advance_shrinks(c);
        }
        seq![c.look] + sentence(advance(c))
    }
}

/// The tokens of the pattern `s`, up to the end marker.
pub open spec fn tokens_of(s: Seq<char>) -> Seq<Token> {
    sentence(start(s))
}

/// The cursor `k` tokens further on.
pub open spec fn after(c: Cursor, k: nat) -> Cursor
    decreases k,
{
    if k == 0 {
        c
    } else {
        advance(after(c, (k - 1) as nat))
    }
}

/// Whether `t` is one of the quantifiers `*`, `+`, `?`, `{..}`.
pub open spec fn is_quantifier(t: Token) -> bool {
    t is TkStar || t is TkPlus || t is TkQuestion || t is TkBracket
}

/// Whether `n` is `body` under the quantifier `q`.
pub open spec fn quantifies(q: Token, body: Node, n: Node) -> bool {
    match q {
        Token::TkStar => n == Node::NdStar(Box::new(body)),
        Token::TkPlus => n == Node::NdPlus(Box::new(body)),
        Token::TkQuestion => n == Node::NdQuestion(Box::new(body)),
        Token::TkBracket(min, max) => n == Node::NdBracket(min, max, Box::new(body)),
        _ => false,
    }
}

/// The node under a quantifier node; any other node itself.
pub open spec fn body_of(n: Node) -> Node {
    match n {
        Node::NdStar(b) => *b,
        Node::NdPlus(b) => *b,
        Node::NdQuestion(b) => *b,
        Node::NdBracket(_, _, b) => *b,
        _ => n,
    }
}

/// Whether `m` cuts `i..j` into two stretches that are not empty.
pub open spec fn cut(i: int, m: int, j: int) -> bool {
    i < m < j
}

/// Whether `m` is the place of a `|` in `ts[i..j]`.
pub open spec fn bar(ts: Seq<Token>, i: int, m: int, j: int) -> bool {
    0 <= i <= m < j <= ts.len() && ts[m] == Token::TkOr
}

/// factor ::= literal | '(' expr ')': the tokens `ts[i..j]` derive `n` as a
/// factor.
pub open spec fn is_factor(ts: Seq<Token>, i: int, j: int, n: Node) -> bool
    decreases j - i, 0nat,
{
    &&& 0 <= i <= j <= ts.len()
    &&& {
        ||| j == i + 1 && ts[i] is TkChar && n == Node::NdChar(ts[i]->TkChar_0)
        ||| j >= i + 2 && ts[i] == Token::TkLparen && ts[j - 1] == Token::TkRparen && is_expr(
            ts,
            i + 1,
            j - 1,
            n,
        )
    }
}

/// quantifier ::= factor | factor ('*' | '+' | '?' | '{..}'): the tokens
/// `ts[i..j]` derive `n` as a quantifier.
pub open spec fn is_quantified(ts: Seq<Token>, i: int, j: int, n: Node) -> bool
    decreases j - i, 1nat,
{
    &&& 0 <= i <= j <= ts.len()
    &&& {
        ||| is_factor(ts, i, j, n)
        ||| i < j && quantifies(ts[j - 1], body_of(n), n) && is_factor(ts, i, j - 1, body_of(n))
    }
}

/// sub_seq ::= quantifier | quantifier sub_seq: the tokens `ts[i..j]` derive
/// `n` as a sub_seq.
pub open spec fn is_sub_seq(ts: Seq<Token>, i: int, j: int, n: Node) -> bool
    decreases j - i, 2nat,
{
    &&& 0 <= i <= j <= ts.len()
    &&& {
        ||| is_quantified(ts, i, j, n)
        ||| n matches Node::NdConcat(l, r) && exists|m: int|
            #[trigger] cut(i, m, j) && is_quantified(ts, i, m, *l) && is_sub_seq(ts, m, j, *r)
    }
}

/// seq ::= ε | sub_seq: the tokens `ts[i..j]` derive `n` as a seq.
pub open spec fn is_seq(ts: Seq<Token>, i: int, j: int, n: Node) -> bool
    decreases j - i, 3nat,
{
    &&& 0 <= i <= j <= ts.len()
    &&& if i == j {
        n == Node::NdEps
    } else {
        is_sub_seq(ts, i, j, n)
    }
}

/// expr ::= seq | seq '|' expr: the tokens `ts[i..j]` derive `n` as an
/// expression.
pub open spec fn is_expr(ts: Seq<Token>, i: int, j: int, n: Node) -> bool
    decreases j - i, 4nat,
{
    &&& 0 <= i <= j <= ts.len()
    &&& {
        ||| is_seq(ts, i, j, n)
        ||| n matches Node::NdOr(l, r) && exists|m: int|
            #[trigger] bar(ts, i, m, j) && is_seq(ts, i, m, *l) && is_expr(ts, m + 1, j, *r)
    }
}

/// Whether the tokens `ts`, all of them, derive `n` as an expression.
pub open spec fn derives(ts: Seq<Token>, n: Node) -> bool {
    is_expr(ts, 0, ts.len() as int, n)
}

/// Along the sentence of `c0`, the cursor `i` tokens on looks at the `i`-th
/// token, which is never the end marker, and the cursor after the whole
/// sentence looks at the end marker.
pub proof fn lemma_at(c0: Cursor, i: int)
    requires
        0 <= i <= sentence(c0).len(),
    ensures
        sentence(after(c0, i as nat)) == sentence(c0).skip(i),
        i < sentence(c0).len() ==> after(c0, i as nat).look == sentence(c0)[i] && !(sentence(
            c0,
        )[i] is TkEps),
        i == sentence(c0).len() ==> after(c0, i as nat).look is TkEps,
        after(c0, (i + 1) as nat) == advance(after(c0, i as nat)),
    decreases i,
{
    let ts = sentence(c0);
    if i == 0 {
        assert(ts.skip(0) =~= ts);
    } else {
        lemma_at(c0, i - 1);
        let before = after(c0, (i - 1) as nat);
        assert(sentence(before).skip(1) =~= sentence(advance(before)));
        assert(ts.skip(i - 1).skip(1) =~= ts.skip(i));
    }
    let here = after(c0, i as nat);
    if i < ts.len() {
        assert(ts.skip(i)[0] == ts[i]);
        assert(sentence(here)[0] == here.look);
    } else {
        assert(sentence(here).len() == 0);
    }
}

/// What a sub_seq derives from is not empty and starts as a factor does.
pub proof fn lemma_first_token(ts: Seq<Token>, i: int, j: int, n: Node)
    requires
        is_sub_seq(ts, i, j, n),
    ensures
        i < j,
        starts_factor(ts[i]),
{
    if !is_quantified(ts, i, j, n) {
        let l = n->NdConcat_0;
        let r = n->NdConcat_1;
        let m = choose|m: int|
            #[trigger] cut(i, m, j) && is_quantified(ts, i, m, *l) && is_sub_seq(ts, m, j, *r);
        assert(is_quantified(ts, i, m, *l));
    }
}

/// What the parser takes for a factor is one: it ends `j` tokens into the
/// sentence, and the tokens from `i` to `j` derive its node.
proof fn lemma_factor_sound(c0: Cursor, i: int) -> (j: int)
    requires
        0 <= i <= sentence(c0).len(),
        parse_factor(after(c0, i as nat)).0 is Ok,
    ensures
        i < j <= sentence(c0).len(),
        parse_factor(after(c0, i as nat)).1 == after(c0, j as nat),
        is_factor(sentence(c0), i, j, parse_factor(after(c0, i as nat)).0->Ok_0),
    decreases sentence(c0).len() - i, 0nat,
{
    let c = after(c0, i as nat);
    lemma_at(c0, i);
    match c.look {
        Token::TkLparen => {
            let j1 = lemma_sub_expr_sound(c0, i + 1);
            lemma_at(c0, j1);
            j1 + 1
        },
        _ => i + 1,
    }
}

/// What the parser takes for a quantifier is one.
proof fn lemma_quantifier_sound(c0: Cursor, i: int) -> (j: int)
    requires
        0 <= i <= sentence(c0).len(),
        parse_quantifier(after(c0, i as nat)).0 is Ok,
    ensures
        i < j <= sentence(c0).len(),
        parse_quantifier(after(c0, i as nat)).1 == after(c0, j as nat),
        is_quantified(sentence(c0), i, j, parse_quantifier(after(c0, i as nat)).0->Ok_0),
    decreases sentence(c0).len() - i, 1nat,
{
    let j1 = lemma_factor_sound(c0, i);
    lemma_at(c0, j1);
    if is_quantifier(after(c0, j1 as nat).look) {
        j1 + 1
    } else {
        j1
    }
}

/// What the parser takes for a sub_seq is one.
proof fn lemma_sub_seq_sound(c0: Cursor, i: int) -> (j: int)
    requires
        0 <= i <= sentence(c0).len(),
        parse_sub_seq(after(c0, i as nat)).0 is Ok,
    ensures
        i < j <= sentence(c0).len(),
        parse_sub_seq(after(c0, i as nat)).1 == after(c0, j as nat),
        is_sub_seq(sentence(c0), i, j, parse_sub_seq(after(c0, i as nat)).0->Ok_0),
    decreases sentence(c0).len() - i, 2nat,
{
    lemma_progress(after(c0, i as nat));
    let j1 = lemma_quantifier_sound(c0, i);
    lemma_at(c0, j1);
    if starts_factor(after(c0, j1 as nat).look) {
        let j2 = lemma_sub_seq_sound(c0, j1);
        let first = parse_quantifier(after(c0, i as nat)).0->Ok_0;
        assert(cut(i, j1, j2) && is_quantified(sentence(c0), i, j1, first));
        j2
    } else {
        j1
    }
}

/// What the parser takes for a seq is one.
proof fn lemma_seq_sound(c0: Cursor, i: int) -> (j: int)
    requires
        0 <= i <= sentence(c0).len(),
        parse_seq(after(c0, i as nat)).0 is Ok,
    ensures
        i <= j <= sentence(c0).len(),
        parse_seq(after(c0, i as nat)).1 == after(c0, j as nat),
        is_seq(sentence(c0), i, j, parse_seq(after(c0, i as nat)).0->Ok_0),
    decreases sentence(c0).len() - i, 3nat,
{
    if starts_factor(after(c0, i as nat).look) {
        lemma_sub_seq_sound(c0, i)
    } else {
        i
    }
}

/// What the parser takes for an expression is one.
proof fn lemma_sub_expr_sound(c0: Cursor, i: int) -> (j: int)
    requires
        0 <= i <= sentence(c0).len(),
        parse_sub_expr(after(c0, i as nat)).0 is Ok,
    ensures
        i <= j <= sentence(c0).len(),
        parse_sub_expr(after(c0, i as nat)).1 == after(c0, j as nat),
        is_expr(sentence(c0), i, j, parse_sub_expr(after(c0, i as nat)).0->Ok_0),
    decreases sentence(c0).len() - i, 4nat,
{
    lemma_progress(after(c0, i as nat));
    let j1 = lemma_seq_sound(c0, i);
    lemma_at(c0, j1);
    let c2 = after(c0, j1 as nat);
    if c2.look is TkOr {
        lemma_advance_shrinks(c2);
        let j2 = lemma_sub_expr_sound(c0, j1 + 1);
        let first = parse_seq(after(c0, i as nat)).0->Ok_0;
        assert(bar(sentence(c0), i, j1, j2) && is_seq(sentence(c0), i, j1, first));
        j2
    } else {
        j1
    }
}

/// The parser finds every factor: where the tokens from `i` to `j` derive `n`
/// as a factor, it yields `n` from `i` and stops at `j`.
proof fn lemma_factor_complete(c0: Cursor, i: int, j: int, n: Node)
    requires
        is_factor(sentence(c0), i, j, n),
    ensures
        parse_factor(after(c0, i as nat)) == (Ok::<Node, Failure>(n), after(c0, j as nat)),
    decreases j - i, 0nat,
{
    let ts = sentence(c0);
    lemma_at(c0, i);
    if j == i + 1 && ts[i] is TkChar && n == Node::NdChar(ts[i]->TkChar_0) {
    } else {
        lemma_at(c0, j - 1);
        lemma_sub_expr_complete(c0, i + 1, j - 1, n);
    }
}

/// The parser finds every quantifier that no quantifier token follows.
proof fn lemma_quantifier_complete(c0: Cursor, i: int, j: int, n: Node)
    requires
        is_quantified(sentence(c0), i, j, n),
        !is_quantifier(after(c0, j as nat).look),
    ensures
        parse_quantifier(after(c0, i as nat)) == (Ok::<Node, Failure>(n), after(c0, j as nat)),
    decreases j - i, 1nat,
{
    let ts = sentence(c0);
    if i < j && quantifies(ts[j - 1], body_of(n), n) && is_factor(ts, i, j - 1, body_of(n)) {
        lemma_factor_complete(c0, i, j - 1, body_of(n));
        lemma_at(c0, j - 1);
    } else {
        lemma_factor_complete(c0, i, j, n);
    }
}

/// The parser finds every sub_seq that no quantifier token and no start of a
/// factor follows.
proof fn lemma_sub_seq_complete(c0: Cursor, i: int, j: int, n: Node)
    requires
        is_sub_seq(sentence(c0), i, j, n),
        !is_quantifier(after(c0, j as nat).look),
        !starts_factor(after(c0, j as nat).look),
    ensures
        parse_sub_seq(after(c0, i as nat)) == (Ok::<Node, Failure>(n), after(c0, j as nat)),
    decreases j - i, 2nat,
{
    let ts = sentence(c0);
    lemma_progress(after(c0, i as nat));
    if is_quantified(ts, i, j, n) {
        lemma_quantifier_complete(c0, i, j, n);
    } else {
        let l = n->NdConcat_0;
        let r = n->NdConcat_1;
        let m = choose|m: int|
            #[trigger] cut(i, m, j) && is_quantified(ts, i, m, *l) && is_sub_seq(ts, m, j, *r);
        lemma_first_token(ts, m, j, *r);
        lemma_at(c0, m);
        lemma_quantifier_complete(c0, i, m, *l);
        lemma_sub_seq_complete(c0, m, j, *r);
    }
}

/// The parser finds every seq that no quantifier token and no start of a
/// factor follows.
proof fn lemma_seq_complete(c0: Cursor, i: int, j: int, n: Node)
    requires
        is_seq(sentence(c0), i, j, n),
        !is_quantifier(after(c0, j as nat).look),
        !starts_factor(after(c0, j as nat).look),
    ensures
        parse_seq(after(c0, i as nat)) == (Ok::<Node, Failure>(n), after(c0, j as nat)),
    decreases j - i, 3nat,
{
    if i != j {
        lemma_first_token(sentence(c0), i, j, n);
        lemma_at(c0, i);
        lemma_sub_seq_complete(c0, i, j, n);
    }
}

/// The parser finds every expression that no quantifier token, no start of a
/// factor and no `|` follows.
proof fn lemma_sub_expr_complete(c0: Cursor, i: int, j: int, n: Node)
    requires
        is_expr(sentence(c0), i, j, n),
        !is_quantifier(after(c0, j as nat).look),
        !starts_factor(after(c0, j as nat).look),
        !(after(c0, j as nat).look is TkOr),
    ensures
        parse_sub_expr(after(c0, i as nat)) == (Ok::<Node, Failure>(n), after(c0, j as nat)),
    decreases j - i, 4nat,
{
    let ts = sentence(c0);
    lemma_progress(after(c0, i as nat));
    if is_seq(ts, i, j, n) {
        lemma_seq_complete(c0, i, j, n);
    } else {
        let l = n->NdOr_0;
        let r = n->NdOr_1;
        let m = choose|m: int|
            #[trigger] bar(ts, i, m, j) && is_seq(ts, i, m, *l) && is_expr(ts, m + 1, j, *r);
        lemma_at(c0, m);
        lemma_seq_complete(c0, i, m, *l);
        lemma_advance_shrinks(after(c0, m as nat));
        lemma_sub_expr_complete(c0, m + 1, j, *r);
    }
}

/// The parser decides the grammar: from a cursor it yields the node `n`
/// exactly when the tokens up to the end marker derive `n` as an expression,
/// and it then stands one token after the end marker.
pub proof fn law_parse_is_derivation(c: Cursor, n: Node)
    ensures
        parse_expr(c).0 == Ok::<Node, Failure>(n) <==> derives(sentence(c), n),
        parse_expr(c).0 is Ok ==> parse_expr(c).1 == advance(after(c, sentence(c).len())),
{
    let ts = sentence(c);
    let len = ts.len() as int;
    assert(after(c, 0) == c);
    if parse_expr(c).0 is Ok {
        let j = lemma_sub_expr_sound(c, 0);
        lemma_at(c, j);
    }
    if derives(ts, n) {
        lemma_at(c, len);
        lemma_sub_expr_complete(c, 0, len, n);
    }
}

/// A pattern parses to the node `n` exactly when its tokens derive `n`, and
/// fails to parse exactly when they derive no node.
pub proof fn law_pattern_is_derivation(s: Seq<char>, n: Node)
    ensures
        parse_pattern(s) == Ok::<Node, Failure>(n) <==> derives(tokens_of(s), n),
        parse_pattern(s) is Err <==> forall|m: Node| !derives(tokens_of(s), m),
{
    law_parse_is_derivation(start(s), n);
    if parse_pattern(s) is Ok {
        law_parse_is_derivation(start(s), parse_pattern(s)->Ok_0);
    }
    assert forall|m: Node| derives(tokens_of(s), m) implies parse_pattern(s) is Ok by {
        law_parse_is_derivation(start(s), m);
    }
}

/// The grammar is unambiguous: a sentence derives at most one node.
pub proof fn law_one_derivation(c: Cursor, n: Node, m: Node)
    requires
        derives(sentence(c), n),
        derives(sentence(c), m),
    ensures
        n == m,
{
    law_parse_is_derivation(c, n);
    law_parse_is_derivation(c, m);
}

} // verus!
