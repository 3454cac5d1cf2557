//! The parser: tokens to a syntax tree, by recursive descent.
//!
//! Precedence, highest first: a quantifier on a factor, concatenation,
//! alternation. Concatenation and alternation nest to the right.

use crate::grammar::{derives, law_parse_is_derivation, sentence};
use crate::lex::{lemma_scan_shrinks, scan, Lexer, Token};
use vstd::prelude::*;
use vstd::string::StringExecFns;

verus! {

/// A node of the syntax tree.
#[derive(Debug, Hash)]
pub enum Node {
    /// A literal character.
    NdChar(char),
    /// The empty sequence.
    NdEps,
    /// `r*`
    NdStar(Box<Node>),
    /// `r+`
    NdPlus(Box<Node>),
    /// `l|r`
    NdOr(Box<Node>, Box<Node>),
    /// `r?`
    NdQuestion(Box<Node>),
    /// `l` followed by `r`.
    NdConcat(Box<Node>, Box<Node>),
    /// `r{min}` or `r{min,max}`, with the counts as the token has them.
    NdBracket(u32, Option<u32>, Box<Node>),
}

impl PartialEq for Node {
    /// Structural equality: the same shape with the same leaves.
    fn eq(&self, other: &Self) -> (r: bool)
        decreases self,
    {
        match (self, other) {
            (Node::NdChar(a), Node::NdChar(b)) => *a == *b,
            (Node::NdEps, Node::NdEps) => true,
            (Node::NdStar(a), Node::NdStar(c)) => (&**a).eq(&**c),
            (Node::NdPlus(a), Node::NdPlus(c)) => (&**a).eq(&**c),
            (Node::NdOr(a, b), Node::NdOr(c, d)) => (&**a).eq(&**c) && (&**b).eq(&**d),
            (Node::NdQuestion(a), Node::NdQuestion(c)) => (&**a).eq(&**c),
            (Node::NdConcat(a, b), Node::NdConcat(c, d)) => (&**a).eq(&**c) && (&**b).eq(&**d),
            (Node::NdBracket(m, x, a), Node::NdBracket(n, y, c)) => {
                *m == *n && *x == *y && (&**a).eq(&**c)
            },
            _ => false,
        }
    }
}

impl Eq for Node {

}

impl vstd::std_specs::cmp::PartialEqSpecImpl for Node {
    open spec fn obeys_eq_spec() -> bool {
        true
    }

    open spec fn eq_spec(&self, other: &Self) -> bool {
        *self == *other
    }
}

impl Clone for Node {
    fn clone(&self) -> (res: Self)
        ensures
            res == *self,
        decreases self,
    {
        match self {
            Node::NdChar(c) => Node::NdChar(*c),
            Node::NdEps => Node::NdEps,
            Node::NdStar(a) => Node::NdStar(Box::new((&**a).clone())),
            Node::NdPlus(a) => Node::NdPlus(Box::new((&**a).clone())),
            Node::NdOr(a, b) => Node::NdOr(Box::new((&**a).clone()), Box::new((&**b).clone())),
            Node::NdQuestion(a) => Node::NdQuestion(Box::new((&**a).clone())),
            Node::NdConcat(a, b) => Node::NdConcat(
                Box::new((&**a).clone()),
                Box::new((&**b).clone()),
            ),
            Node::NdBracket(m, x, a) => Node::NdBracket(*m, *x, Box::new((&**a).clone())),
        }
    }
}

/// Where a parser stands: the token it looks at, and the input not yet
/// scanned.
pub struct Cursor {
    pub look: Token,
    pub rest: Seq<char>,
}

/// A mismatch: the tokens that would have been accepted, and the token that
/// was there.
pub struct Failure {
    pub expected: Seq<Token>,
    pub found: Token,
}

/// What a production yields: the node or the mismatch, and where the parser
/// stands afterwards.
pub type Outcome = (Result<Node, Failure>, Cursor);

/// The cursor of a parser that has just been set on the input `s`.
pub open spec fn start(s: Seq<char>) -> Cursor {
    Cursor { look: scan(s).0, rest: scan(s).1 }
}

/// The cursor one token further on.
pub open spec fn advance(c: Cursor) -> Cursor {
    start(c.rest)
}

/// How much is left at a cursor: the unscanned characters, and one for a
/// token that is not the end marker.
pub open spec fn weight(c: Cursor) -> nat {
    c.rest.len() + if c.look is TkEps {
        0nat
    } else {
        1nat
    }
}

/// Whether a factor can start with `t`: `(` or a literal.
pub open spec fn starts_factor(t: Token) -> bool {
    t is TkLparen || t is TkChar
}

/// Moving past a token that is not the end marker leaves less.
pub proof fn lemma_advance_shrinks(c: Cursor)
    requires
        !(c.look is TkEps),
    ensures
        weight(advance(c)) < weight(c),
{
    lemma_scan_shrinks(c.rest);
}

/// The mismatch of finding `found` where only `want` is accepted.
pub open spec fn mismatch(want: Token, found: Token) -> Failure {
    Failure { expected: seq![want], found }
}

/// The names of the tokens of `ts`, each in single quotes, with a comma and a
/// space between them.
pub open spec fn expected_list(ts: Seq<Token>) -> Seq<char>
    decreases ts.len(),
{
    if ts.len() == 0 {
        Seq::empty()
    } else {
        expected_list(ts.drop_last()) + (if ts.len() > 1 {
            ", "@
        } else {
            Seq::empty()
        }) + "'"@ + ts.last().name_of() + "'"@
    }
}

/// How the token that was found reads in a message: a literal as the
/// character itself, any other token as its name, in single quotes.
pub open spec fn found_text(t: Token) -> Seq<char> {
    match t {
        Token::TkChar(c) => "'"@ + seq![c] + "'"@,
        _ => "'"@ + t.name_of() + "'"@,
    }
}

/// The text of the message for finding `found` where one of `expected` is
/// accepted.
pub open spec fn message_text(expected: Seq<Token>, found: Token) -> Seq<char> {
    "Expected one of [\""@ + expected_list(expected) + "\"], found "@ + found_text(found)
}

impl Failure {
    /// The text that reports the mismatch.
    pub open spec fn message(self) -> Seq<char> {
        message_text(self.expected, self.found)
    }
}

/// Whether `got` is what `want` asks for: the same node, or an error whose
/// text is the message of the mismatch.
pub open spec fn reports(got: Result<Node, String>, want: Result<Node, Failure>) -> bool {
    match want {
        Ok(n) => got == Ok::<Node, String>(n),
        Err(f) => got is Err && got->Err_0@ == f.message(),
    }
}

/// factor: `( expr )` or a literal.
pub open spec fn parse_factor(c: Cursor) -> Outcome
    decreases weight(c), 0nat,
{
    match c.look {
        Token::TkLparen => {
            proof {
                lemma_advance_shrinks(c);
            }
            let (inner, c2) = parse_sub_expr(advance(c));
            match inner {
                Ok(n) => if c2.look == Token::TkRparen {
                    (Ok(n), advance(c2))
                } else {
                    (Err(mismatch(Token::TkRparen, c2.look)), c2)
                },
                Err(e) => (Err(e), c2),
            }
        },
        Token::TkChar(x) => (Ok(Node::NdChar(x)), advance(c)),
        _ => (
            Err(Failure { expected: seq![Token::TkLparen, Token::TkChar('_')], found: c.look }),
            c,
        ),
    }
}

/// quantifier: a factor, and one of `*`, `+`, `?`, `{..}` after it if there
/// is one.
pub open spec fn parse_quantifier(c: Cursor) -> Outcome
    decreases weight(c), 1nat,
{
    let (inner, c2) = parse_factor(c);
    match inner {
        Ok(n) => match c2.look {
            Token::TkStar => (Ok(Node::NdStar(Box::new(n))), advance(c2)),
            Token::TkPlus => (Ok(Node::NdPlus(Box::new(n))), advance(c2)),
            Token::TkQuestion => (Ok(Node::NdQuestion(Box::new(n))), advance(c2)),
            Token::TkBracket(min, max) => (
                Ok(Node::NdBracket(min, max, Box::new(n))),
                advance(c2),
            ),
            _ => (Ok(n), c2),
        },
        Err(e) => (Err(e), c2),
    }
}

/// sub_seq: one quantifier, or more in a row, nested to the right. It goes on
/// while a factor can start at the cursor. (A quantifier that succeeds has
/// moved the cursor on, see `lemma_progress`: the test on the weights is
/// there for the recursion to be well founded, and never fails.)
pub open spec fn parse_sub_seq(c: Cursor) -> Outcome
    decreases weight(c), 2nat,
{
    let (first, c2) = parse_quantifier(c);
    match first {
        Ok(n) => if starts_factor(c2.look) && weight(c2) < weight(c) {
            let (others, c3) = parse_sub_seq(c2);
            match others {
                Ok(m) => (Ok(Node::NdConcat(Box::new(n), Box::new(m))), c3),
                Err(e) => (Err(e), c3),
            }
        } else {
            (Ok(n), c2)
        },
        Err(e) => (Err(e), c2),
    }
}

/// seq: a sub_seq where a factor can start, the empty sequence otherwise.
pub open spec fn parse_seq(c: Cursor) -> Outcome
    decreases weight(c), 3nat,
{
    if starts_factor(c.look) {
        parse_sub_seq(c)
    } else {
        (Ok(Node::NdEps), c)
    }
}

/// sub_expr: one seq, or more with `|` between them, nested to the right.
/// (A seq never moves the cursor back, see `lemma_progress`: the test on the
/// weights is there for the recursion to be well founded, and never fails.)
pub open spec fn parse_sub_expr(c: Cursor) -> Outcome
    decreases weight(c), 4nat,
{
    let (first, c2) = parse_seq(c);
    match first {
        Ok(n) => if c2.look is TkOr && weight(advance(c2)) < weight(c) {
            let (others, c3) = parse_sub_expr(advance(c2));
            match others {
                Ok(m) => (Ok(Node::NdOr(Box::new(n), Box::new(m))), c3),
                Err(e) => (Err(e), c3),
            }
        } else {
            (Ok(n), c2)
        },
        Err(e) => (Err(e), c2),
    }
}

/// expr: a sub_expr, and then the end marker.
pub open spec fn parse_expr(c: Cursor) -> Outcome {
    let (inner, c2) = parse_sub_expr(c);
    match inner {
        Ok(n) => if c2.look == Token::TkEps {
            (Ok(n), advance(c2))
        } else {
            (Err(mismatch(Token::TkEps, c2.look)), c2)
        },
        Err(e) => (Err(e), c2),
    }
}

/// What the pattern `s` parses to: its syntax tree, or the first mismatch.
pub open spec fn parse_pattern(s: Seq<char>) -> Result<Node, Failure> {
    parse_expr(start(s)).0
}

/// No production moves the cursor back, and a factor, a quantifier or a
/// sub_seq that succeeds moves it on.
pub proof fn lemma_progress(c: Cursor)
    ensures
        weight(parse_factor(c).1) <= weight(c),
        parse_factor(c).0 is Ok ==> weight(parse_factor(c).1) < weight(c),
        weight(parse_quantifier(c).1) <= weight(c),
        parse_quantifier(c).0 is Ok ==> weight(parse_quantifier(c).1) < weight(c),
        weight(parse_sub_seq(c).1) <= weight(c),
        parse_sub_seq(c).0 is Ok ==> weight(parse_sub_seq(c).1) < weight(c),
        weight(parse_seq(c).1) <= weight(c),
        weight(parse_sub_expr(c).1) <= weight(c),
        weight(parse_expr(c).1) <= weight(c),
    decreases weight(c),
{
    lemma_factor_progress(c);
    lemma_quantifier_progress(c);
    lemma_sub_seq_progress(c);
    lemma_seq_progress(c);
    lemma_sub_expr_progress(c);
    let c2 = parse_sub_expr(c).1;
    if c2.look == Token::TkEps {
        lemma_scan_shrinks(c2.rest);
    }
}

/// A factor never moves the cursor back, and moves it on where it succeeds.
proof fn lemma_factor_progress(c: Cursor)
    ensures
        weight(parse_factor(c).1) <= weight(c),
        parse_factor(c).0 is Ok ==> weight(parse_factor(c).1) < weight(c),
    decreases weight(c), 0nat,
{
    match c.look {
        Token::TkLparen => {
            lemma_advance_shrinks(c);
            lemma_sub_expr_progress(advance(c));
            let c2 = parse_sub_expr(advance(c)).1;
            if c2.look == Token::TkRparen {
                lemma_advance_shrinks(c2);
            }
        },
        Token::TkChar(_) => {
            lemma_advance_shrinks(c);
        },
        _ => {},
    }
}

/// A quantifier never moves the cursor back, and moves it on where it
/// succeeds.
proof fn lemma_quantifier_progress(c: Cursor)
    ensures
        weight(parse_quantifier(c).1) <= weight(c),
        parse_quantifier(c).0 is Ok ==> weight(parse_quantifier(c).1) < weight(c),
    decreases weight(c), 1nat,
{
    lemma_factor_progress(c);
    let (inner, c2) = parse_factor(c);
    if inner is Ok && !(c2.look is TkEps) {
        lemma_advance_shrinks(c2);
    }
}

/// A sub_seq never moves the cursor back, and moves it on where it succeeds.
proof fn lemma_sub_seq_progress(c: Cursor)
    ensures
        weight(parse_sub_seq(c).1) <= weight(c),
        parse_sub_seq(c).0 is Ok ==> weight(parse_sub_seq(c).1) < weight(c),
    decreases weight(c), 2nat,
{
    lemma_quantifier_progress(c);
    let (first, c2) = parse_quantifier(c);
    if first is Ok && starts_factor(c2.look) {
        lemma_sub_seq_progress(c2);
    }
}

/// A seq never moves the cursor back.
proof fn lemma_seq_progress(c: Cursor)
    ensures
        weight(parse_seq(c).1) <= weight(c),
    decreases weight(c), 3nat,
{
    if starts_factor(c.look) {
        lemma_sub_seq_progress(c);
    }
}

/// A sub_expr never moves the cursor back.
proof fn lemma_sub_expr_progress(c: Cursor)
    ensures
        weight(parse_sub_expr(c).1) <= weight(c),
    decreases weight(c), 4nat,
{
    lemma_seq_progress(c);
    let (first, c2) = parse_seq(c);
    if first is Ok && c2.look is TkOr {
        lemma_advance_shrinks(c2);
        lemma_sub_expr_progress(advance(c2));
    }
}

/// `String::push` of std: appends the character `c` to the end of `s`.
#[verifier::external_body]
fn push_char(s: &mut String, c: char)
    ensures
        final(s)@ == old(s)@.push(c),
{
    s.push(c);
}

/// Writes the message for finding `actual` where one of `expected` is
/// accepted.
pub fn error_msg(expected: &[Token], actual: &Token) -> (msg: String)
    ensures
        msg@ == message_text(expected@, *actual),
{
    let mut msg = String::from_str("Expected one of [\"");
    let mut i: usize = 0;
    while i < expected.len()
        invariant
            i <= expected.len(),
            msg@ == "Expected one of [\""@ + expected_list(expected@.take(i as int)),
        decreases expected.len() - i,
    {
        if i > 0 {
            msg.append(", ");
        }
        msg.append("'");
        msg.append(expected[i].name());
        msg.append("'");
        assert(expected@.take(i + 1).drop_last() =~= expected@.take(i as int));
        i = i + 1;
    }
    assert(expected@.take(i as int) =~= expected@);
    msg.append("\"], found ");
    match actual {
        Token::TkChar(c) => {
            msg.append("'");
            push_char(&mut msg, *c);
            msg.append("'");
            assert(msg@ =~= message_text(expected@, *actual));
        },
        _ => {
            msg.append("'");
            msg.append(actual.name());
            msg.append("'");
            assert(msg@ =~= message_text(expected@, *actual));
        },
    }
    msg
}

/// A recursive-descent parser: a scanner and the one token it looks ahead.
pub struct Parser {
    lexer: Lexer,
    look: Token,
}

impl View for Parser {
    type V = Cursor;

    closed spec fn view(&self) -> Cursor {
        Cursor { look: self.look, rest: self.lexer@ }
    }
}

impl Parser {
    /// A parser on the input of `lexer`, looking at its first token.
    pub fn new(lexer: Lexer) -> (parser: Parser)
        ensures
            parser@ == start(lexer@),
    {
        let mut lexer = lexer;
        let look = lexer.next_token();
        Parser { lexer, look }
    }

    /// Moves past the token at the cursor if it is `token`, and reports the
    /// mismatch, without moving, if it is not.
    fn match_next(&mut self, token: Token) -> (res: Result<(), String>)
        ensures
            old(self)@.look == token ==> res is Ok && final(self)@ == advance(old(self)@),
            old(self)@.look != token ==> res is Err && final(self)@ == old(self)@
                && res->Err_0@ == mismatch(token, old(self)@.look).message(),
    {
        if self.look == token {
            self.look = self.lexer.next_token();
            Ok(())
        } else {
            let expected = vec![token];
            assert(expected@ =~= seq![token]);
            Err(error_msg(expected.as_slice(), &self.look))
        }
    }

    /// factor: `( expr )` or a literal.
    fn factor(&mut self) -> (res: Result<Node, String>)
        ensures
            reports(res, parse_factor(old(self)@).0),
            final(self)@ == parse_factor(old(self)@).1,
        decreases weight(old(self)@), 0nat,
    {
        let look = self.look;
        match look {
            Token::TkLparen => {
                proof {
                    lemma_advance_shrinks(self@);
                }
                match self.match_next(Token::TkLparen) {
                    Ok(()) => {},
                    Err(e) => {
                        return Err(e);
                    },
                }
                let node = match self.sub_expr() {
                    Ok(node) => node,
                    Err(e) => {
                        return Err(e);
                    },
                };
                match self.match_next(Token::TkRparen) {
                    Ok(()) => Ok(node),
                    Err(e) => Err(e),
                }
            },
            Token::TkChar(c) => {
                match self.match_next(Token::TkChar(c)) {
                    Ok(()) => Ok(Node::NdChar(c)),
                    Err(e) => Err(e),
                }
            },
            _ => {
                let expected = vec![Token::TkLparen, Token::TkChar('_')];
                assert(expected@ =~= seq![Token::TkLparen, Token::TkChar('_')]);
                Err(error_msg(expected.as_slice(), &look))
            },
        }
    }

    /// quantifier: a factor, and one of `*`, `+`, `?`, `{..}` after it if
    /// there is one.
    fn quantifier(&mut self) -> (res: Result<Node, String>)
        ensures
            reports(res, parse_quantifier(old(self)@).0),
            final(self)@ == parse_quantifier(old(self)@).1,
        decreases weight(old(self)@), 1nat,
    {
        let factor = match self.factor() {
            Ok(node) => node,
            Err(e) => {
                return Err(e);
            },
        };
        let look = self.look;
        match look {
            Token::TkStar => {
                match self.match_next(Token::TkStar) {
                    Ok(()) => Ok(Node::NdStar(Box::new(factor))),
                    Err(e) => Err(e),
                }
            },
            Token::TkPlus => {
                match self.match_next(Token::TkPlus) {
                    Ok(()) => Ok(Node::NdPlus(Box::new(factor))),
                    Err(e) => Err(e),
                }
            },
            Token::TkQuestion => {
                match self.match_next(Token::TkQuestion) {
                    Ok(()) => Ok(Node::NdQuestion(Box::new(factor))),
                    Err(e) => Err(e),
                }
            },
            Token::TkBracket(min, max) => {
                match self.match_next(Token::TkBracket(min, max)) {
                    Ok(()) => Ok(Node::NdBracket(min, max, Box::new(factor))),
                    Err(e) => Err(e),
                }
            },
            _ => Ok(factor),
        }
    }

    /// sub_seq: one quantifier, or more in a row, nested to the right.
    fn sub_seq(&mut self) -> (res: Result<Node, String>)
        ensures
            reports(res, parse_sub_seq(old(self)@).0),
            final(self)@ == parse_sub_seq(old(self)@).1,
        decreases weight(old(self)@), 2nat,
    {
        proof {
            lemma_progress(self@);
        }
        let quantifier = match self.quantifier() {
            Ok(node) => node,
            Err(e) => {
                return Err(e);
            },
        };
        let look = self.look;
        match look {
            Token::TkLparen | Token::TkChar(_) => {
                match self.sub_seq() {
                    Ok(others) => Ok(Node::NdConcat(Box::new(quantifier), Box::new(others))),
                    Err(e) => Err(e),
                }
            },
            _ => Ok(quantifier),
        }
    }

    /// seq: a sub_seq where a factor can start, the empty sequence
    /// otherwise.
    fn seq(&mut self) -> (res: Result<Node, String>)
        ensures
            reports(res, parse_seq(old(self)@).0),
            final(self)@ == parse_seq(old(self)@).1,
        decreases weight(old(self)@), 3nat,
    {
        let look = self.look;
        match look {
            Token::TkLparen | Token::TkChar(_) => self.sub_seq(),
            _ => Ok(Node::NdEps),
        }
    }

    /// sub_expr: one seq, or more with `|` between them, nested to the
    /// right.
    fn sub_expr(&mut self) -> (res: Result<Node, String>)
        ensures
            reports(res, parse_sub_expr(old(self)@).0),
            final(self)@ == parse_sub_expr(old(self)@).1,
        decreases weight(old(self)@), 4nat,
    {
        proof {
            lemma_progress(self@);
        }
        let seq = match self.seq() {
            Ok(node) => node,
            Err(e) => {
                return Err(e);
            },
        };
        let look = self.look;
        match look {
            Token::TkOr => {
                proof {
                    lemma_advance_shrinks(self@);
                }
                match self.match_next(Token::TkOr) {
                    Ok(()) => {},
                    Err(e) => {
                        return Err(e);
                    },
                }
                match self.sub_expr() {
                    Ok(others) => Ok(Node::NdOr(Box::new(seq), Box::new(others))),
                    Err(e) => Err(e),
                }
            },
            _ => Ok(seq),
        }
    }

    /// expr: a whole expression, and then the end of the input. Returns the
    /// syntax tree that the tokens up to the end marker derive, or, where they
    /// derive none, the message of the first mismatch.
    pub fn expr(&mut self) -> (res: Result<Node, String>)
        ensures
            reports(res, parse_expr(old(self)@).0),
            final(self)@ == parse_expr(old(self)@).1,
            res is Ok ==> derives(sentence(old(self)@), res->Ok_0),
            res is Err ==> forall|n: Node| !derives(sentence(old(self)@), n),
    {
        proof {
            assert forall|n: Node|
                parse_expr(self@).0 == Ok::<Node, Failure>(n) <==> #[trigger] derives(
                    sentence(self@),
                    n,
                ) by {
                law_parse_is_derivation(self@, n);
            }
        }
        let expr = match self.sub_expr() {
            Ok(node) => node,
            Err(e) => {
                return Err(e);
            },
        };
        match self.match_next(Token::TkEps) {
            Ok(()) => Ok(expr),
            Err(e) => Err(e),
        }
    }

    /// Parses the whole input: the syntax tree that the tokens up to the end
    /// marker derive, or, where they derive none, the message of the first
    /// mismatch. Input left over after the expression is a mismatch too.
    pub fn parse(&mut self) -> (res: Result<Node, String>)
        ensures
            reports(res, parse_expr(old(self)@).0),
            final(self)@ == parse_expr(old(self)@).1,
            res is Ok ==> derives(sentence(old(self)@), res->Ok_0),
            res is Err ==> forall|n: Node| !derives(sentence(old(self)@), n),
    {
        self.expr()
    }
}

} // verus!
