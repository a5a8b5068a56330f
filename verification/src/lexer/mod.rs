//! Tokens: their kinds, literal payloads and source positions.
pub mod expr;
pub mod parser;
pub mod precedence;
pub mod scanner;

use vstd::prelude::*;

use crate::error::Span;
use crate::text::{byte_len, chars_of, lemma_byte_len_encode, push_char};

verus! {

/// The kind of a token. Keywords and names of kinds are spelled in lower case
/// in source text (see [`keyword`]); `KwSelf` is spelled `self`.
#[derive(Debug, Copy, Clone, PartialEq, Eq, Hash, Structural)]
pub enum TokenType {
    LeftParen,
    RightParen,
    LeftBrace,
    RightBrace,
    LeftBracket,
    RightBracket,
    Comma,
    Semicolon,
    At,
    Equal,
    EqualEqual,
    Bang,
    BangEqual,
    Greater,
    GreaterEqual,
    Less,
    LessEqual,
    Plus,
    PlusEqual,
    Minus,
    MinusEqual,
    Star,
    StarEqual,
    Slash,
    SlashEqual,
    Percent,
    PercentEqual,
    Pipe,
    Or,
    And,
    Colon,
    ColonColon,
    Arrow,
    FatArrow,
    Dot,
    DotDot,
    DotDotEqual,
    Question,
    QuestionDot,
    QuestionQuestion,
    Identifier,
    Decorator,
    Str,
    Number,
    True,
    False,
    Nil,
    If,
    Else,
    For,
    In,
    While,
    Loop,
    Class,
    Trait,
    Super,
    Return,
    Break,
    Continue,
    Let,
    Const,
    Fn,
    As,
    Do,
    Match,
    Async,
    Await,
    Throw,
    Try,
    Catch,
    Type,
    Enum,
    Pub,
    KwSelf,
    Eof,
}

/// The name of a kind as it is printed in messages (`RightParen`, `Eof`, ...).
pub open spec fn token_name(t: TokenType) -> Seq<char> {
    match t {
        TokenType::LeftParen => "LeftParen"@,
        TokenType::RightParen => "RightParen"@,
        TokenType::LeftBrace => "LeftBrace"@,
        TokenType::RightBrace => "RightBrace"@,
        TokenType::LeftBracket => "LeftBracket"@,
        TokenType::RightBracket => "RightBracket"@,
        TokenType::Comma => "Comma"@,
        TokenType::Semicolon => "Semicolon"@,
        TokenType::At => "At"@,
        TokenType::Equal => "Equal"@,
        TokenType::EqualEqual => "EqualEqual"@,
        TokenType::Bang => "Bang"@,
        TokenType::BangEqual => "BangEqual"@,
        TokenType::Greater => "Greater"@,
        TokenType::GreaterEqual => "GreaterEqual"@,
        TokenType::Less => "Less"@,
        TokenType::LessEqual => "LessEqual"@,
        TokenType::Plus => "Plus"@,
        TokenType::PlusEqual => "PlusEqual"@,
        TokenType::Minus => "Minus"@,
        TokenType::MinusEqual => "MinusEqual"@,
        TokenType::Star => "Star"@,
        TokenType::StarEqual => "StarEqual"@,
        TokenType::Slash => "Slash"@,
        TokenType::SlashEqual => "SlashEqual"@,
        TokenType::Percent => "Percent"@,
        TokenType::PercentEqual => "PercentEqual"@,
        TokenType::Pipe => "Pipe"@,
        TokenType::Or => "Or"@,
        TokenType::And => "And"@,
        TokenType::Colon => "Colon"@,
        TokenType::ColonColon => "ColonColon"@,
        TokenType::Arrow => "Arrow"@,
        TokenType::FatArrow => "FatArrow"@,
        TokenType::Dot => "Dot"@,
        TokenType::DotDot => "DotDot"@,
        TokenType::DotDotEqual => "DotDotEqual"@,
        TokenType::Question => "Question"@,
        TokenType::QuestionDot => "QuestionDot"@,
        TokenType::QuestionQuestion => "QuestionQuestion"@,
        TokenType::Identifier => "Identifier"@,
        TokenType::Decorator => "Decorator"@,
        TokenType::Str => "Str"@,
        TokenType::Number => "Number"@,
        TokenType::True => "True"@,
        TokenType::False => "False"@,
        TokenType::Nil => "Nil"@,
        TokenType::If => "If"@,
        TokenType::Else => "Else"@,
        TokenType::For => "For"@,
        TokenType::In => "In"@,
        TokenType::While => "While"@,
        TokenType::Loop => "Loop"@,
        TokenType::Class => "Class"@,
        TokenType::Trait => "Trait"@,
        TokenType::Super => "Super"@,
        TokenType::Return => "Return"@,
        TokenType::Break => "Break"@,
        TokenType::Continue => "Continue"@,
        TokenType::Let => "Let"@,
        TokenType::Const => "Const"@,
        TokenType::Fn => "Fn"@,
        TokenType::As => "As"@,
        TokenType::Do => "Do"@,
        TokenType::Match => "Match"@,
        TokenType::Async => "Async"@,
        TokenType::Await => "Await"@,
        TokenType::Throw => "Throw"@,
        TokenType::Try => "Try"@,
        TokenType::Catch => "Catch"@,
        TokenType::Type => "Type"@,
        TokenType::Enum => "Enum"@,
        TokenType::Pub => "Pub"@,
        TokenType::KwSelf => "KwSelf"@,
        TokenType::Eof => "Eof"@,
    }
}

/// Every kind, in declaration order.
pub open spec fn all_token_types() -> Seq<TokenType> {
    seq![
        TokenType::LeftParen,
        TokenType::RightParen,
        TokenType::LeftBrace,
        TokenType::RightBrace,
        TokenType::LeftBracket,
        TokenType::RightBracket,
        TokenType::Comma,
        TokenType::Semicolon,
        TokenType::At,
        TokenType::Equal,
        TokenType::EqualEqual,
        TokenType::Bang,
        TokenType::BangEqual,
        TokenType::Greater,
        TokenType::GreaterEqual,
        TokenType::Less,
        TokenType::LessEqual,
        TokenType::Plus,
        TokenType::PlusEqual,
        TokenType::Minus,
        TokenType::MinusEqual,
        TokenType::Star,
        TokenType::StarEqual,
        TokenType::Slash,
        TokenType::SlashEqual,
        TokenType::Percent,
        TokenType::PercentEqual,
        TokenType::Pipe,
        TokenType::Or,
        TokenType::And,
        TokenType::Colon,
        TokenType::ColonColon,
        TokenType::Arrow,
        TokenType::FatArrow,
        TokenType::Dot,
        TokenType::DotDot,
        TokenType::DotDotEqual,
        TokenType::Question,
        TokenType::QuestionDot,
        TokenType::QuestionQuestion,
        TokenType::Identifier,
        TokenType::Decorator,
        TokenType::Str,
        TokenType::Number,
        TokenType::True,
        TokenType::False,
        TokenType::Nil,
        TokenType::If,
        TokenType::Else,
        TokenType::For,
        TokenType::In,
        TokenType::While,
        TokenType::Loop,
        TokenType::Class,
        TokenType::Trait,
        TokenType::Super,
        TokenType::Return,
        TokenType::Break,
        TokenType::Continue,
        TokenType::Let,
        TokenType::Const,
        TokenType::Fn,
        TokenType::As,
        TokenType::Do,
        TokenType::Match,
        TokenType::Async,
        TokenType::Await,
        TokenType::Throw,
        TokenType::Try,
        TokenType::Catch,
        TokenType::Type,
        TokenType::Enum,
        TokenType::Pub,
        TokenType::KwSelf,
        TokenType::Eof
    ]
}

/// Code point of the ASCII lower-case form of the character with code `u`.
pub open spec fn lower_code(u: u32) -> u32 {
    if 65 <= u && u <= 90 {
        (u + 32) as u32
    } else {
        u
    }
}

/// `s` spells `name` with every ASCII upper-case letter turned to lower case.
pub open spec fn spells_lowercase(s: Seq<char>, name: Seq<char>) -> bool {
    &&& s.len() == name.len()
    &&& forall|i: int| 0 <= i < s.len() ==> (#[trigger] s[i]) as u32 == lower_code(name[i] as u32)
}

/// The source spelling of a kind: `self` for `KwSelf`, otherwise its name in lower case.
pub open spec fn spelled_as(s: Seq<char>, t: TokenType) -> bool {
    if t == TokenType::KwSelf {
        s == "self"@
    } else {
        spells_lowercase(s, token_name(t))
    }
}

/// The first kind, in declaration order from index `k`, spelled `s`.
pub open spec fn keyword_from(s: Seq<char>, k: int) -> Option<TokenType>
    decreases all_token_types().len() - k,
{
    if k < 0 || k >= all_token_types().len() {
        None
    } else if spelled_as(s, all_token_types()[k]) {
        Some(all_token_types()[k])
    } else {
        keyword_from(s, k + 1)
    }
}

/// The kind that the word `s` names, if any: `if` is `If`, `leftparen` is
/// `LeftParen`, `self` is `KwSelf`; case matters.
pub open spec fn keyword(s: Seq<char>) -> Option<TokenType> {
    keyword_from(s, 0)
}

/// The place of a kind in [`all_token_types`].
pub open spec fn kind_index(t: TokenType) -> int {
    match t {
        TokenType::LeftParen => 0,
        TokenType::RightParen => 1,
        TokenType::LeftBrace => 2,
        TokenType::RightBrace => 3,
        TokenType::LeftBracket => 4,
        TokenType::RightBracket => 5,
        TokenType::Comma => 6,
        TokenType::Semicolon => 7,
        TokenType::At => 8,
        TokenType::Equal => 9,
        TokenType::EqualEqual => 10,
        TokenType::Bang => 11,
        TokenType::BangEqual => 12,
        TokenType::Greater => 13,
        TokenType::GreaterEqual => 14,
        TokenType::Less => 15,
        TokenType::LessEqual => 16,
        TokenType::Plus => 17,
        TokenType::PlusEqual => 18,
        TokenType::Minus => 19,
        TokenType::MinusEqual => 20,
        TokenType::Star => 21,
        TokenType::StarEqual => 22,
        TokenType::Slash => 23,
        TokenType::SlashEqual => 24,
        TokenType::Percent => 25,
        TokenType::PercentEqual => 26,
        TokenType::Pipe => 27,
        TokenType::Or => 28,
        TokenType::And => 29,
        TokenType::Colon => 30,
        TokenType::ColonColon => 31,
        TokenType::Arrow => 32,
        TokenType::FatArrow => 33,
        TokenType::Dot => 34,
        TokenType::DotDot => 35,
        TokenType::DotDotEqual => 36,
        TokenType::Question => 37,
        TokenType::QuestionDot => 38,
        TokenType::QuestionQuestion => 39,
        TokenType::Identifier => 40,
        TokenType::Decorator => 41,
        TokenType::Str => 42,
        TokenType::Number => 43,
        TokenType::True => 44,
        TokenType::False => 45,
        TokenType::Nil => 46,
        TokenType::If => 47,
        TokenType::Else => 48,
        TokenType::For => 49,
        TokenType::In => 50,
        TokenType::While => 51,
        TokenType::Loop => 52,
        TokenType::Class => 53,
        TokenType::Trait => 54,
        TokenType::Super => 55,
        TokenType::Return => 56,
        TokenType::Break => 57,
        TokenType::Continue => 58,
        TokenType::Let => 59,
        TokenType::Const => 60,
        TokenType::Fn => 61,
        TokenType::As => 62,
        TokenType::Do => 63,
        TokenType::Match => 64,
        TokenType::Async => 65,
        TokenType::Await => 66,
        TokenType::Throw => 67,
        TokenType::Try => 68,
        TokenType::Catch => 69,
        TokenType::Type => 70,
        TokenType::Enum => 71,
        TokenType::Pub => 72,
        TokenType::KwSelf => 73,
        TokenType::Eof => 74,
    }
}

/// Every kind has its place in [`all_token_types`].
pub proof fn lemma_kind_index(t: TokenType)
    ensures
        0 <= kind_index(t) < all_token_types().len(),
        all_token_types()[kind_index(t)] == t,
{
}

/// The search from `k` finds a kind spelled `s` wherever one stands at
/// `k` or later, and what it finds is spelled `s`.
proof fn lemma_keyword_from(s: Seq<char>, k: int, j: int)
    requires
        0 <= k,
    ensures
        keyword_from(s, k) matches Some(t) ==> spelled_as(s, t),
        k <= j < all_token_types().len() && spelled_as(s, all_token_types()[j]) ==> keyword_from(
            s,
            k,
        ) is Some,
    decreases all_token_types().len() - k,
{
    if k < all_token_types().len() && !spelled_as(s, all_token_types()[k]) {
        lemma_keyword_from(s, k + 1, j);
    }
}

/// A word is read as a kind only if it is that kind's spelling, and a word
/// that spells some kind is read as a kind.
pub proof fn law_keyword_spelling(s: Seq<char>, t: TokenType)
    ensures
        keyword(s) == Some(t) ==> spelled_as(s, t),
        spelled_as(s, t) ==> keyword(s) is Some,
{
    lemma_kind_index(t);
    lemma_keyword_from(s, 0, kind_index(t));
}

impl TokenType {
    /// The name of the kind, as messages print it.
    pub fn name(self) -> (r: &'static str)
        ensures
            r@ == token_name(self),
    {
        match self {
            TokenType::LeftParen => "LeftParen",
            TokenType::RightParen => "RightParen",
            TokenType::LeftBrace => "LeftBrace",
            TokenType::RightBrace => "RightBrace",
            TokenType::LeftBracket => "LeftBracket",
            TokenType::RightBracket => "RightBracket",
            TokenType::Comma => "Comma",
            TokenType::Semicolon => "Semicolon",
            TokenType::At => "At",
            TokenType::Equal => "Equal",
            TokenType::EqualEqual => "EqualEqual",
            TokenType::Bang => "Bang",
            TokenType::BangEqual => "BangEqual",
            TokenType::Greater => "Greater",
            TokenType::GreaterEqual => "GreaterEqual",
            TokenType::Less => "Less",
            TokenType::LessEqual => "LessEqual",
            TokenType::Plus => "Plus",
            TokenType::PlusEqual => "PlusEqual",
            TokenType::Minus => "Minus",
            TokenType::MinusEqual => "MinusEqual",
            TokenType::Star => "Star",
            TokenType::StarEqual => "StarEqual",
            TokenType::Slash => "Slash",
            TokenType::SlashEqual => "SlashEqual",
            TokenType::Percent => "Percent",
            TokenType::PercentEqual => "PercentEqual",
            TokenType::Pipe => "Pipe",
            TokenType::Or => "Or",
            TokenType::And => "And",
            TokenType::Colon => "Colon",
            TokenType::ColonColon => "ColonColon",
            TokenType::Arrow => "Arrow",
            TokenType::FatArrow => "FatArrow",
            TokenType::Dot => "Dot",
            TokenType::DotDot => "DotDot",
            TokenType::DotDotEqual => "DotDotEqual",
            TokenType::Question => "Question",
            TokenType::QuestionDot => "QuestionDot",
            TokenType::QuestionQuestion => "QuestionQuestion",
            TokenType::Identifier => "Identifier",
            TokenType::Decorator => "Decorator",
            TokenType::Str => "Str",
            TokenType::Number => "Number",
            TokenType::True => "True",
            TokenType::False => "False",
            TokenType::Nil => "Nil",
            TokenType::If => "If",
            TokenType::Else => "Else",
            TokenType::For => "For",
            TokenType::In => "In",
            TokenType::While => "While",
            TokenType::Loop => "Loop",
            TokenType::Class => "Class",
            TokenType::Trait => "Trait",
            TokenType::Super => "Super",
            TokenType::Return => "Return",
            TokenType::Break => "Break",
            TokenType::Continue => "Continue",
            TokenType::Let => "Let",
            TokenType::Const => "Const",
            TokenType::Fn => "Fn",
            TokenType::As => "As",
            TokenType::Do => "Do",
            TokenType::Match => "Match",
            TokenType::Async => "Async",
            TokenType::Await => "Await",
            TokenType::Throw => "Throw",
            TokenType::Try => "Try",
            TokenType::Catch => "Catch",
            TokenType::Type => "Type",
            TokenType::Enum => "Enum",
            TokenType::Pub => "Pub",
            TokenType::KwSelf => "KwSelf",
            TokenType::Eof => "Eof",
        }
    }

    /// The name of the kind as an owned string.
    pub fn to_string(self) -> (r: String)
        ensures
            r@ == token_name(self),
    {
        String::from_str(self.name())
    }

    /// The kind that the word `s` spells, if any (see [`keyword`]).
    pub fn from_str(s: &str) -> (r: Option<TokenType>)
        ensures
            r == keyword(s@),
    {
        let cs = chars_of(s);
        assert(cs@.subrange(0, cs@.len() as int) =~= s@);
        keyword_in(&cs, 0, cs.len())
    }
}

/// Every kind, in declaration order.
fn token_types() -> (v: Vec<TokenType>)
    ensures
        v@ == all_token_types(),
{
    let v = vec![
        TokenType::LeftParen,
        TokenType::RightParen,
        TokenType::LeftBrace,
        TokenType::RightBrace,
        TokenType::LeftBracket,
        TokenType::RightBracket,
        TokenType::Comma,
        TokenType::Semicolon,
        TokenType::At,
        TokenType::Equal,
        TokenType::EqualEqual,
        TokenType::Bang,
        TokenType::BangEqual,
        TokenType::Greater,
        TokenType::GreaterEqual,
        TokenType::Less,
        TokenType::LessEqual,
        TokenType::Plus,
        TokenType::PlusEqual,
        TokenType::Minus,
        TokenType::MinusEqual,
        TokenType::Star,
        TokenType::StarEqual,
        TokenType::Slash,
        TokenType::SlashEqual,
        TokenType::Percent,
        TokenType::PercentEqual,
        TokenType::Pipe,
        TokenType::Or,
        TokenType::And,
        TokenType::Colon,
        TokenType::ColonColon,
        TokenType::Arrow,
        TokenType::FatArrow,
        TokenType::Dot,
        TokenType::DotDot,
        TokenType::DotDotEqual,
        TokenType::Question,
        TokenType::QuestionDot,
        TokenType::QuestionQuestion,
        TokenType::Identifier,
        TokenType::Decorator,
        TokenType::Str,
        TokenType::Number,
        TokenType::True,
        TokenType::False,
        TokenType::Nil,
        TokenType::If,
        TokenType::Else,
        TokenType::For,
        TokenType::In,
        TokenType::While,
        TokenType::Loop,
        TokenType::Class,
        TokenType::Trait,
        TokenType::Super,
        TokenType::Return,
        TokenType::Break,
        TokenType::Continue,
        TokenType::Let,
        TokenType::Const,
        TokenType::Fn,
        TokenType::As,
        TokenType::Do,
        TokenType::Match,
        TokenType::Async,
        TokenType::Await,
        TokenType::Throw,
        TokenType::Try,
        TokenType::Catch,
        TokenType::Type,
        TokenType::Enum,
        TokenType::Pub,
        TokenType::KwSelf,
        TokenType::Eof
    ];
    assert(v@ =~= all_token_types());
    v
}

/// Whether `cs[from..to]` is the source spelling of `t`.
fn spells(cs: &Vec<char>, from: usize, to: usize, t: TokenType) -> (r: bool)
    requires
        from <= to <= cs.len(),
    ensures
        r == spelled_as(cs@.subrange(from as int, to as int), t),
{
    let ghost word = cs@.subrange(from as int, to as int);
    let target = if t == TokenType::KwSelf {
        chars_of("self")
    } else {
        chars_of(t.name())
    };
    if to - from != target.len() {
        return false;
    }
    let mut i: usize = 0;
    while i < target.len()
        invariant
            from <= to <= cs.len(),
            to - from == target.len(),
            i <= target.len(),
            t == TokenType::KwSelf ==> target@ == "self"@,
            t != TokenType::KwSelf ==> target@ == token_name(t),
            word == cs@.subrange(from as int, to as int),
            forall|k: int|
                0 <= k < i ==> if t == TokenType::KwSelf {
                    word[k] == target@[k]
                } else {
                    (word[k] as u32) == lower_code(target@[k] as u32)
                },
        decreases target.len() - i,
    {
        let c = cs[from + i];
        let n = target[i];
        let nu = n as u32;
        let lu = if 65 <= nu && nu <= 90 {
            nu + 32
        } else {
            nu
        };
        let ok = if t == TokenType::KwSelf {
            c == n
        } else {
            (c as u32) == lu
        };
        if !ok {
            assert(word[i as int] == c);
            proof {
                if t == TokenType::KwSelf {
                    assert(word[i as int] != target@[i as int]);
                } else {
                    assert((word[i as int] as u32) != lower_code(target@[i as int] as u32));
                }
            }
            return false;
        }
        i = i + 1;
    }
    proof {
        if t == TokenType::KwSelf {
            assert(word =~= target@);
        }
    }
    true
}

/// The kind that the word `cs[from..to]` spells, if any.
pub fn keyword_in(cs: &Vec<char>, from: usize, to: usize) -> (r: Option<TokenType>)
    requires
        from <= to <= cs.len(),
    ensures
        r == keyword(cs@.subrange(from as int, to as int)),
{
    let types = token_types();
    let ghost word = cs@.subrange(from as int, to as int);
    let mut k: usize = 0;
    while k < types.len()
        invariant
            types@ == all_token_types(),
            from <= to <= cs.len(),
            word == cs@.subrange(from as int, to as int),
            k <= types.len(),
            keyword(word) == keyword_from(word, k as int),
        decreases types.len() - k,
    {
        if spells(cs, from, to, types[k]) {
            return Some(types[k]);
        }
        k = k + 1;
    }
    None
}

/// The value a literal token carries. A number keeps the text that stands
/// for its value in generated code.
#[derive(Debug)]
pub enum LiteralValue {
    NumberValue(String),
    StringValue(String),
    DecoratorValue(String),
    True,
    False,
    Nil,
}

/// A literal value with its text taken as a character sequence.
pub enum LitView {
    Number(Seq<char>),
    Str(Seq<char>),
    Decorator(Seq<char>),
    True,
    False,
    Nil,
}

impl View for LiteralValue {
    type V = LitView;

    open spec fn view(&self) -> LitView {
        match self {
            LiteralValue::NumberValue(s) => LitView::Number(s@),
            LiteralValue::StringValue(s) => LitView::Str(s@),
            LiteralValue::DecoratorValue(s) => LitView::Decorator(s@),
            LiteralValue::True => LitView::True,
            LiteralValue::False => LitView::False,
            LiteralValue::Nil => LitView::Nil,
        }
    }
}

impl Clone for LiteralValue {
    fn clone(&self) -> (r: Self)
        ensures
            r == *self,
    {
        match self {
            LiteralValue::NumberValue(s) => LiteralValue::NumberValue(s.clone()),
            LiteralValue::StringValue(s) => LiteralValue::StringValue(s.clone()),
            LiteralValue::DecoratorValue(s) => LiteralValue::DecoratorValue(s.clone()),
            LiteralValue::True => LiteralValue::True,
            LiteralValue::False => LiteralValue::False,
            LiteralValue::Nil => LiteralValue::Nil,
        }
    }
}

/// How a literal value is printed: a number or a string as its text, a
/// decorator with a leading `@`.
pub open spec fn literal_text(v: LiteralValue) -> Seq<char> {
    match v {
        LiteralValue::NumberValue(s) => s@,
        LiteralValue::StringValue(s) => s@,
        LiteralValue::DecoratorValue(s) => seq!['@'] + s@,
        LiteralValue::True => "true"@,
        LiteralValue::False => "false"@,
        LiteralValue::Nil => "nil"@,
    }
}

/// The literal value that a token of a literal kind stands for; `None` where
/// the token's kind is not a literal kind or it lacks the payload its kind needs.
pub open spec fn literal_of(t: Token) -> Option<LiteralValue> {
    match t.token_type {
        TokenType::Number => match t.literal {
            Some(LiteralValue::NumberValue(n)) => Some(LiteralValue::NumberValue(n)),
            _ => None,
        },
        TokenType::Str => match t.literal {
            Some(LiteralValue::StringValue(n)) => Some(LiteralValue::StringValue(n)),
            _ => None,
        },
        TokenType::Decorator => match t.literal {
            Some(LiteralValue::DecoratorValue(n)) => Some(LiteralValue::DecoratorValue(n)),
            _ => None,
        },
        TokenType::True => Some(LiteralValue::True),
        TokenType::False => Some(LiteralValue::False),
        TokenType::Nil => Some(LiteralValue::Nil),
        _ => None,
    }
}

impl LiteralValue {
    /// The literal value of a literal token.
    pub fn from_token(token: Token) -> (r: Self)
        requires
            literal_of(token) is Some,
        ensures
            r == literal_of(token)->0,
    {
        match token.token_type {
            TokenType::Number => match token.literal {
                Some(LiteralValue::NumberValue(n)) => LiteralValue::NumberValue(n),
                _ => {
                    assert(false);
                    LiteralValue::Nil
                },
            },
            TokenType::Str => match token.literal {
                Some(LiteralValue::StringValue(n)) => LiteralValue::StringValue(n),
                _ => {
                    assert(false);
                    LiteralValue::Nil
                },
            },
            TokenType::Decorator => match token.literal {
                Some(LiteralValue::DecoratorValue(n)) => LiteralValue::DecoratorValue(n),
                _ => {
                    assert(false);
                    LiteralValue::Nil
                },
            },
            TokenType::True => LiteralValue::True,
            TokenType::False => LiteralValue::False,
            TokenType::Nil => LiteralValue::Nil,
            _ => {
                assert(false);
                LiteralValue::Nil
            },
        }
    }

    /// The printed form of the value (see [`literal_text`]).
    pub fn to_string(&self) -> (r: String)
        ensures
            r@ == literal_text(*self),
    {
        match self {
            LiteralValue::NumberValue(s) => s.clone(),
            LiteralValue::StringValue(s) => s.clone(),
            LiteralValue::DecoratorValue(s) => {
                let mut r = String::from_str("@");
                r.append(s.as_str());
                proof {
                    reveal_strlit("@");
                }
                r
            },
            LiteralValue::True => String::from_str("true"),
            LiteralValue::False => String::from_str("false"),
            LiteralValue::Nil => String::from_str("nil"),
        }
    }
}

/// A token: its kind, its text, the literal value it carries, the byte offset
/// where it starts and the line it ends on.
#[derive(Debug)]
pub struct Token {
    pub lexeme: String,
    pub literal: Option<LiteralValue>,
    pub token_type: TokenType,
    pub offset: u32,
    pub line: u32,
}

/// A token with its text taken as a character sequence.
pub struct TokenView {
    pub lexeme: Seq<char>,
    pub literal: Option<LitView>,
    pub token_type: TokenType,
    pub offset: u32,
    pub line: u32,
}

impl View for Token {
    type V = TokenView;

    open spec fn view(&self) -> TokenView {
        TokenView {
            lexeme: self.lexeme@,
            literal: match self.literal {
                Some(l) => Some(l@),
                None => None,
            },
            token_type: self.token_type,
            offset: self.offset,
            line: self.line,
        }
    }
}

impl Clone for Token {
    fn clone(&self) -> (r: Self)
        ensures
            r == *self,
    {
        Token {
            lexeme: self.lexeme.clone(),
            literal: match &self.literal {
                Some(l) => Some(l.clone()),
                None => None,
            },
            token_type: self.token_type,
            offset: self.offset,
            line: self.line,
        }
    }
}

/// The source range of a token: from its offset, as many bytes as its text has.
pub open spec fn token_span(t: Token) -> Span {
    Span { offset: t.offset as usize, len: byte_len(t.lexeme@) as usize }
}

/// The printed form of a token: its kind's name, a space, its text.
pub open spec fn token_text(t: Token) -> Seq<char> {
    token_name(t.token_type) + seq![' '] + t.lexeme@
}

impl Token {
    /// The source range the token covers.
    pub fn span(&self) -> (r: Span)
        ensures
            r == token_span(*self),
    {
        proof {
            lemma_byte_len_encode(self.lexeme@);
        }
        Span { offset: self.offset as usize, len: self.lexeme.as_str().len() }
    }

    /// The literal value the token stands for, where it is a literal token
    /// that carries the value its kind needs (see [`literal_of`]).
    pub fn literal_value(&self) -> (r: Option<LiteralValue>)
        ensures
            r == literal_of(*self),
    {
        match self.token_type {
            TokenType::Number => match &self.literal {
                Some(LiteralValue::NumberValue(n)) => Some(LiteralValue::NumberValue(n.clone())),
                _ => None,
            },
            TokenType::Str => match &self.literal {
                Some(LiteralValue::StringValue(n)) => Some(LiteralValue::StringValue(n.clone())),
                _ => None,
            },
            TokenType::Decorator => match &self.literal {
                Some(LiteralValue::DecoratorValue(n)) => Some(
                    LiteralValue::DecoratorValue(n.clone()),
                ),
                _ => None,
            },
            TokenType::True => Some(LiteralValue::True),
            TokenType::False => Some(LiteralValue::False),
            TokenType::Nil => Some(LiteralValue::Nil),
            _ => None,
        }
    }

    /// The printed form of the token (see [`token_text`]).
    pub fn to_string(&self) -> (r: String)
        ensures
            r@ == token_text(*self),
    {
        let mut r = self.token_type.to_string();
        push_char(&mut r, ' ');
        r.append(self.lexeme.as_str());
        r
    }
}

} // verus!
