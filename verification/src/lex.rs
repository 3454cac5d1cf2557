//! The scanner: pattern text to tokens, one token per request.

use vstd::prelude::*;
use vstd::std_specs::iter::IteratorSpec;

verus! {

/// A lexical token of the pattern syntax.
#[derive(Clone, Copy, Debug, PartialEq, Eq, Structural)]
pub enum Token {
    /// A literal character.
    TkChar(char),
    /// `|`
    TkOr,
    /// `*`
    TkStar,
    /// `+`
    TkPlus,
    /// `?`
    TkQuestion,
    /// `(`
    TkLparen,
    /// `)`
    TkRparen,
    /// `{min}`, with no second count, or `{min,max}`, where a missing `max`
    /// reads as zero.
    TkBracket(u32, Option<u32>),
    /// The end of the input; also what a malformed `{...}` scans to.
    TkEps,
}

impl Token {
    /// The name a token goes by in messages: its symbol, or its kind where
    /// it carries a value.
    pub open spec fn name_of(self) -> Seq<char> {
        match self {
            Token::TkChar(_) => "Char"@,
            Token::TkOr => "|"@,
            Token::TkStar => "*"@,
            Token::TkPlus => "+"@,
            Token::TkQuestion => "?"@,
            Token::TkLparen => "("@,
            Token::TkRparen => ")"@,
            Token::TkBracket(_, _) => "Bracket"@,
            Token::TkEps => "ε"@,
        }
    }

    /// The name the token goes by in messages.
    pub fn name(&self) -> (s: &'static str)
        ensures
            s@ == self.name_of(),
    {
        match self {
            Token::TkChar(_) => "Char",
            Token::TkOr => "|",
            Token::TkStar => "*",
            Token::TkPlus => "+",
            Token::TkQuestion => "?",
            Token::TkLparen => "(",
            Token::TkRparen => ")",
            Token::TkBracket(_, _) => "Bracket",
            Token::TkEps => "ε",
        }
    }
}

/// Space, tab and newline: skipped between tokens and inside `{...}`.
pub open spec fn is_blank(c: char) -> bool {
    c == ' ' || c == '\n' || c == '\t'
}

/// The decimal digits.
pub open spec fn is_digit(c: char) -> bool {
    '0' <= c <= '9'
}

/// The value of a decimal digit.
pub open spec fn digit_value(c: char) -> int {
    c as int - '0' as int
}

/// `count` with the decimal digit of value `d` appended, or `None` where
/// that leaves `u32`.
pub open spec fn append_value(count: u32, d: int) -> Option<u32> {
    if count * 10 + d <= u32::MAX {
        Some((count * 10 + d) as u32)
    } else {
        None
    }
}

/// `count` with the digit `c` appended, or `None` where that leaves `u32`.
pub open spec fn push_digit(count: u32, c: char) -> Option<u32> {
    append_value(count, digit_value(c))
}

/// The token that the inside of a `{...}` scans to, and the input left after
/// it. `s` is the input after what was read so far, `min` the first count so
/// far, and `max` the second, absent until the comma.
///
/// Digits extend the count being read; a comma moves from the first count to
/// the second, which starts at zero; `}` ends the token; blanks are skipped.
/// A second comma, any other character, a count that leaves `u32`, or the end
/// of the input before `}` gives `TkEps`.
pub open spec fn scan_bracket(s: Seq<char>, min: u32, max: Option<u32>) -> (Token, Seq<char>)
    decreases s.len(),
{
    if s.len() == 0 {
        (Token::TkEps, s)
    } else {
        let c = s[0];
        let rest = s.skip(1);
        if is_digit(c) {
            match max {
                None => match push_digit(min, c) {
                    Some(m) => scan_bracket(rest, m, None),
                    None => (Token::TkEps, rest),
                },
                Some(hi) => match push_digit(hi, c) {
                    Some(m) => scan_bracket(rest, min, Some(m)),
                    None => (Token::TkEps, rest),
                },
            }
        } else if c == ',' {
            if max is None {
                scan_bracket(rest, min, Some(0u32))
            } else {
                (Token::TkEps, rest)
            }
        } else if c == '}' {
            (Token::TkBracket(min, max), rest)
        } else if is_blank(c) {
            scan_bracket(rest, min, max)
        } else {
            (Token::TkEps, rest)
        }
    }
}

/// The first token of `s`, and the input left after it.
///
/// A backslash makes a literal of the character after it, and of itself at
/// the end of the input. Blanks are skipped. At the end of the input the
/// token is `TkEps`, and nothing is consumed.
pub open spec fn scan(s: Seq<char>) -> (Token, Seq<char>)
    decreases s.len(),
{
    if s.len() == 0 {
        (Token::TkEps, s)
    } else {
        let c = s[0];
        let rest = s.skip(1);
        if c == '\\' {
            if rest.len() == 0 {
                (Token::TkChar('\\'), rest)
            } else {
                (Token::TkChar(rest[0]), rest.skip(1))
            }
        } else if c == '|' {
            (Token::TkOr, rest)
        } else if c == '(' {
            (Token::TkLparen, rest)
        } else if c == ')' {
            (Token::TkRparen, rest)
        } else if c == '*' {
            (Token::TkStar, rest)
        } else if c == '+' {
            (Token::TkPlus, rest)
        } else if c == '?' {
            (Token::TkQuestion, rest)
        } else if c == '{' {
            scan_bracket(rest, 0, None)
        } else if is_blank(c) {
            scan(rest)
        } else {
            (Token::TkChar(c), rest)
        }
    }
}

/// Scanning inside `{...}` never lengthens the input, and consumes some of
/// it unless it is at its end.
pub proof fn lemma_scan_bracket_shrinks(s: Seq<char>, min: u32, max: Option<u32>)
    ensures
        scan_bracket(s, min, max).1.len() <= s.len(),
        s.len() > 0 ==> scan_bracket(s, min, max).1.len() < s.len(),
    decreases s.len(),
{
    if s.len() > 0 {
        let c = s[0];
        let rest = s.skip(1);
        if is_digit(c) {
            match max {
                None => match push_digit(min, c) {
                    Some(m) => lemma_scan_bracket_shrinks(rest, m, None),
                    None => {},
                },
                Some(hi) => match push_digit(hi, c) {
                    Some(m) => lemma_scan_bracket_shrinks(rest, min, Some(m)),
                    None => {},
                },
            }
        } else if c == ',' {
            if max is None {
                lemma_scan_bracket_shrinks(rest, min, Some(0u32));
            }
        } else if c != '}' && is_blank(c) {
            lemma_scan_bracket_shrinks(rest, min, max);
        }
    }
}

/// Scanning never lengthens the input, and consumes some of it unless it is
/// at its end.
pub proof fn lemma_scan_shrinks(s: Seq<char>)
    ensures
        scan(s).1.len() <= s.len(),
        s.len() > 0 ==> scan(s).1.len() < s.len(),
    decreases s.len(),
{
    if s.len() > 0 {
        let c = s[0];
        let rest = s.skip(1);
        if c == '{' {
            lemma_scan_bracket_shrinks(rest, 0, None);
        } else if is_blank(c) {
            lemma_scan_shrinks(rest);
        }
    }
}

/// Whether `ds` is made of decimal digits alone.
pub open spec fn all_digits(ds: Seq<char>) -> bool {
    forall|i: int| 0 <= i < ds.len() ==> is_digit(#[trigger] ds[i])
}

/// The number that the digits `ds` write after the digits of `acc`.
pub open spec fn decimal_from(acc: int, ds: Seq<char>) -> int
    decreases ds.len(),
{
    if ds.len() == 0 {
        acc
    } else {
        decimal_from(acc * 10 + digit_value(ds[0]), ds.skip(1))
    }
}

/// The number that the digits `ds` write in decimal; zero for no digit.
pub open spec fn decimal(ds: Seq<char>) -> int {
    decimal_from(0, ds)
}

/// More digits never write a smaller number.
pub proof fn lemma_decimal_grows(acc: int, ds: Seq<char>)
    requires
        0 <= acc,
        all_digits(ds),
    ensures
        acc <= decimal_from(acc, ds),
    decreases ds.len(),
{
    if ds.len() > 0 {
        assert(is_digit(ds[0]));
        assert(all_digits(ds.skip(1))) by {
            assert forall|i: int| 0 <= i < ds.skip(1).len() implies is_digit(
                #[trigger] ds.skip(1)[i],
            ) by {
                assert(ds.skip(1)[i] == ds[i + 1]);
            }
        }
        lemma_decimal_grows(acc * 10 + digit_value(ds[0]), ds.skip(1));
    }
}

/// Inside `{...}`, a run of digits extends the count being read to the number
/// it writes, as long as that number fits in `u32`.
pub proof fn lemma_scan_digits(ds: Seq<char>, tail: Seq<char>, min: u32, max: Option<u32>)
    requires
        all_digits(ds),
        max is None ==> decimal_from(min as int, ds) <= u32::MAX,
        max is Some ==> decimal_from(max->Some_0 as int, ds) <= u32::MAX,
    ensures
        max is None ==> scan_bracket(ds + tail, min, max) == scan_bracket(
            tail,
            decimal_from(min as int, ds) as u32,
            None,
        ),
        max is Some ==> scan_bracket(ds + tail, min, max) == scan_bracket(
            tail,
            min,
            Some(decimal_from(max->Some_0 as int, ds) as u32),
        ),
    decreases ds.len(),
{
    if ds.len() == 0 {
        assert(ds + tail =~= tail);
    } else {
        let c = ds[0];
        let count: u32 = if max is None {
            min
        } else {
            max->Some_0
        };
        let next = count * 10 + digit_value(c);
        assert(is_digit(c));
        assert(all_digits(ds.skip(1))) by {
            assert forall|i: int| 0 <= i < ds.skip(1).len() implies is_digit(
                #[trigger] ds.skip(1)[i],
            ) by {
                assert(ds.skip(1)[i] == ds[i + 1]);
            }
        }
        lemma_decimal_grows(next, ds.skip(1));
        assert((ds + tail)[0] == c);
        assert((ds + tail).skip(1) =~= ds.skip(1) + tail);
        if max is None {
            lemma_scan_digits(ds.skip(1), tail, next as u32, None);
        } else {
            lemma_scan_digits(ds.skip(1), tail, min, Some(next as u32));
        }
    }
}

/// The syntax of counts: `{m}` scans to the count `m` with no second count,
/// and `{m,n}` to the counts `m` and `n`, where `m` and `n` are runs of
/// digits, empty runs too, that write numbers within `u32`. So `{m,}` scans
/// to `m` and a second count of zero.
pub proof fn law_scan_counts(m: Seq<char>, n: Seq<char>, rest: Seq<char>)
    requires
        all_digits(m),
        all_digits(n),
        decimal(m) <= u32::MAX,
        decimal(n) <= u32::MAX,
    ensures
        scan(seq!['{'] + m + seq!['}'] + rest) == (
            Token::TkBracket(decimal(m) as u32, None),
            rest,
        ),
        scan(seq!['{'] + m + seq![','] + n + seq!['}'] + rest) == (
            Token::TkBracket(decimal(m) as u32, Some(decimal(n) as u32)),
            rest,
        ),
{
    let close = seq!['}'] + rest;
    let one = seq!['{'] + m + seq!['}'] + rest;
    assert(one.skip(1) =~= m + close);
    lemma_scan_digits(m, close, 0, None);
    assert(close.skip(1) =~= rest);
    lemma_decimal_grows(0, m);

    let second = seq![','] + (n + close);
    let two = seq!['{'] + m + seq![','] + n + seq!['}'] + rest;
    assert(two.skip(1) =~= m + second);
    lemma_scan_digits(m, second, 0, None);
    assert(second.skip(1) =~= n + close);
    lemma_scan_digits(n, close, decimal(m) as u32, Some(0u32));
    lemma_decimal_grows(0, n);
}

/// The characters of `s`, in order.
pub fn collect_chars(s: &str) -> (v: Vec<char>)
    ensures
        v@ == s@,
{
    let mut rest = s.chars();
    let mut v: Vec<char> = Vec::new();
    loop
        invariant
            rest.obeys_prophetic_iter_laws(),
            rest.decrease() is Some,
            v@ + rest.remaining() == s@,
        ensures
            v@ == s@,
        decreases rest.decrease()->0,
    {
        match rest.next() {
            Some(c) => {
                v.push(c);
            },
            None => {
                break ;
            },
        }
    }
    v
}

/// A scanner over the characters of a pattern. It holds the pattern and how
/// far it has read; its view is the input that is still unread.
pub struct Lexer {
    chars: Vec<char>,
    pos: usize,
}

impl View for Lexer {
    type V = Seq<char>;

    closed spec fn view(&self) -> Seq<char> {
        self.chars@.skip(self.pos as int)
    }
}

impl Lexer {
    /// The reading position never passes the end of the pattern.
    #[verifier::type_invariant]
    spec fn in_bounds(self) -> bool {
        self.pos <= self.chars.len()
    }

    /// A scanner at the start of `string`.
    pub fn new(string: &str) -> (lexer: Lexer)
        ensures
            lexer@ == string@,
    {
        let chars = collect_chars(string);
        assert(chars@.skip(0) =~= chars@);
        Lexer { chars, pos: 0 }
    }

    /// Takes the next character off the input, if there is one.
    fn bump(&mut self) -> (c: Option<char>)
        ensures
            old(self)@.len() == 0 ==> c is None && final(self)@ == old(self)@,
            old(self)@.len() > 0 ==> c == Some(old(self)@[0]) && final(self)@ == old(self)@.skip(1),
    {
        proof {
            use_type_invariant(&*self);
        }
        if self.pos < self.chars.len() {
            let c = self.chars[self.pos];
            assert(self.chars@.skip(self.pos as int).skip(1) =~= self.chars@.skip(self.pos + 1));
            self.pos = self.pos + 1;
            Some(c)
        } else {
            None
        }
    }

    /// Scans one token and moves past the characters it is made of.
    pub fn next_token(&mut self) -> (token: Token)
        ensures
            token == scan(old(self)@).0,
            final(self)@ == scan(old(self)@).1,
        decreases old(self)@.len(),
    {
        let ch = match self.bump() {
            Some(ch) => ch,
            None => {
                return Token::TkEps;
            },
        };
        match ch {
            '\\' => {
                match self.bump() {
                    Some(c) => Token::TkChar(c),
                    None => Token::TkChar('\\'),
                }
            },
            '|' => Token::TkOr,
            '(' => Token::TkLparen,
            ')' => Token::TkRparen,
            '*' => Token::TkStar,
            '+' => Token::TkPlus,
            '?' => Token::TkQuestion,
            '{' => self.next_token_with_bracket(),
            ' ' | '\n' | '\t' => self.next_token(),
            _ => Token::TkChar(ch),
        }
    }

    /// Scans the inside of a `{...}`, after the opening brace.
    fn next_token_with_bracket(&mut self) -> (token: Token)
        ensures
            token == scan_bracket(old(self)@, 0, None).0,
            final(self)@ == scan_bracket(old(self)@, 0, None).1,
    {
        let mut min: u32 = 0;
        let mut max: Option<u32> = None;
        loop
            invariant
                scan_bracket(self@, min, max) == scan_bracket(old(self)@, 0, None),
            decreases self@.len(),
        {
            let ch = match self.bump() {
                Some(ch) => ch,
                None => {
                    return Token::TkEps;
                },
            };
            match ch {
                '0'..='9' => {
                    let d = digit_of(ch);
                    match max {
                        None => {
                            match append_digit(min, d) {
                                Some(m) => {
                                    min = m;
                                },
                                None => {
                                    return Token::TkEps;
                                },
                            }
                        },
                        Some(hi) => {
                            match append_digit(hi, d) {
                                Some(m) => {
                                    max = Some(m);
                                },
                                None => {
                                    return Token::TkEps;
                                },
                            }
                        },
                    }
                },
                ',' => {
                    if max.is_none() {
                        max = Some(0);
                    } else {
                        return Token::TkEps;
                    }
                },
                '}' => {
                    return Token::TkBracket(min, max);
                },
                ' ' | '\n' | '\t' => {},
                _ => {
                    return Token::TkEps;
                },
            }
        }
    }
}

/// The value of the decimal digit `c`.
fn digit_of(c: char) -> (d: u32)
    requires
        is_digit(c),
    ensures
        d == digit_value(c),
        d <= 9,
{
    c as u32 - '0' as u32
}

/// `count * 10 + d`, or `None` where that leaves `u32`.
fn append_digit(count: u32, d: u32) -> (res: Option<u32>)
    requires
        d <= 9,
    ensures
        res == append_value(count, d as int),
{
    match count.checked_mul(10) {
        Some(tens) => tens.checked_add(d),
        None => None,
    }
}

} // verus!
