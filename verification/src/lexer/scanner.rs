//! The scanner: from source text to tokens.
//!
//! Whitespace and `//` comments are skipped, a newline counts a line, and
//! every other character starts a token or a diagnostic. The scanner goes on
//! after each diagnostic and reports them all at the end.
use vstd::prelude::*;

use crate::error::{CompileErrors, LexError, Span};
use crate::lexer::{keyword, keyword_in, LitView, LiteralValue, Token, TokenType, TokenView};
use crate::text::{
    ascii_digit, byte_len, char_width, chars_of, is_alphabetic, is_alphanumeric, is_ascii_digit,
    lemma_byte_len_push, lemma_byte_len_take_mono, string_from_chars, unicode_alphabetic,
    unicode_alphanumeric, };

verus! {

/// The character at `i`; past the end, `'\0'`.
pub open spec fn char_at(cs: Seq<char>, i: int) -> char {
    if 0 <= i < cs.len() {
        cs[i]
    } else {
        '\0'
    }
}

/// The byte offset of the character at `i`.
pub open spec fn offset_of(cs: Seq<char>, i: int) -> nat {
    byte_len(cs.take(i))
}

/// The bytes of the characters `from..to`.
pub open spec fn span_of(cs: Seq<char>, from: int, to: int) -> Span {
    Span {
        offset: offset_of(cs, from) as usize,
        len: (offset_of(cs, to) - offset_of(cs, from)) as usize,
    }
}

/// The token made of the characters `from..to`, ending on line `line`.
pub open spec fn token_at(
    cs: Seq<char>,
    from: int,
    to: int,
    kind: TokenType,
    literal: Option<LitView>,
    line: nat,
) -> TokenView {
    TokenView {
        lexeme: cs.subrange(from, to),
        literal,
        token_type: kind,
        offset: offset_of(cs, from) as u32,
        line: line as u32,
    }
}

/// The `Eof` token that ends every token list.
pub open spec fn eof_token(cs: Seq<char>, line: nat) -> TokenView {
    token_at(cs, cs.len() as int, cs.len() as int, TokenType::Eof, None, line)
}

/// What one scanning step gives: a token, nothing (blanks, comments), or a
/// diagnostic.
pub enum Scanned {
    Token(TokenView),
    Skipped,
    Error(LexError),
}

/// A scanning step: what it gives, where the next one starts and the line
/// it ends on.
pub type ScanStep = (Scanned, int, nat);

/// Where the line comment that goes on at `i` ends: at the next newline, or
/// at the end.
pub open spec fn comment_end(cs: Seq<char>, i: int) -> int
    decreases cs.len() - i,
{
    if i < 0 || i >= cs.len() || cs[i] == '\n' {
        i
    } else {
        comment_end(cs, i + 1)
    }
}

/// Where the digits from `i` on end.
pub open spec fn digits_end(cs: Seq<char>, i: int) -> int
    decreases cs.len() - i,
{
    if 0 <= i < cs.len() && ascii_digit(cs[i]) {
        digits_end(cs, i + 1)
    } else {
        i
    }
}

/// Where the letters, digits and underscores from `i` on end.
pub open spec fn word_end(cs: Seq<char>, i: int) -> int
    decreases cs.len() - i,
{
    if 0 <= i < cs.len() && (unicode_alphanumeric(cs[i]) || cs[i] == '_') {
        word_end(cs, i + 1)
    } else {
        i
    }
}

/// Where the text of a string from `i` on ends (at its closing quote, or at
/// the end), and the line reached there from `line`.
pub open spec fn string_end(cs: Seq<char>, i: int, line: nat) -> (int, nat)
    decreases cs.len() - i,
{
    if i < 0 || i >= cs.len() || cs[i] == '"' {
        (i, line)
    } else {
        string_end(cs, i + 1, if cs[i] == '\n' { line + 1 } else { line })
    }
}

/// A token of one character.
pub open spec fn single(cs: Seq<char>, s: int, line: nat, kind: TokenType) -> ScanStep {
    (Scanned::Token(token_at(cs, s, s + 1, kind, None, line)), s + 1, line)
}

/// `yes` where `next` follows the character at `s`, else `no`.
pub open spec fn pair(
    cs: Seq<char>,
    s: int,
    line: nat,
    next: char,
    yes: TokenType,
    no: TokenType,
) -> ScanStep {
    if char_at(cs, s + 1) == next {
        (Scanned::Token(token_at(cs, s, s + 2, yes, None, line)), s + 2, line)
    } else {
        single(cs, s, line, no)
    }
}

/// `ya` where `a` follows the character at `s`, `yb` where `b` does, else `no`.
pub open spec fn triple(
    cs: Seq<char>,
    s: int,
    line: nat,
    a: char,
    ya: TokenType,
    b: char,
    yb: TokenType,
    no: TokenType,
) -> ScanStep {
    if char_at(cs, s + 1) == a {
        (Scanned::Token(token_at(cs, s, s + 2, ya, None, line)), s + 2, line)
    } else {
        pair(cs, s, line, b, yb, no)
    }
}

/// A diagnostic about the character at `s`.
pub open spec fn refused(s: int, line: nat, e: LexError) -> ScanStep {
    (Scanned::Error(e), s + 1, line)
}

/// A string literal opened at `s`.
pub open spec fn scan_string(cs: Seq<char>, s: int, line: nat) -> ScanStep {
    let (j, l) = string_end(cs, s + 1, line);
    if j >= cs.len() {
        (Scanned::Error(LexError::UnterminatedString { span: span_at_end(cs, s) }), j, l)
    } else {
        (
            Scanned::Token(
                token_at(cs, s, j + 1, TokenType::Str, Some(LitView::Str(cs.subrange(s + 1, j))), l),
            ),
            j + 1,
            l,
        )
    }
}

/// The bytes from `s` to the end.
pub open spec fn span_at_end(cs: Seq<char>, s: int) -> Span {
    span_of(cs, s, cs.len() as int)
}

/// A number starting at `s`: digits, then a `.` and digits if a digit
/// follows the `.`. Its value is kept as its text.
pub open spec fn scan_number(cs: Seq<char>, s: int, line: nat) -> ScanStep {
    let j = digits_end(cs, s + 1);
    let k = if char_at(cs, j) == '.' && ascii_digit(char_at(cs, j + 1)) {
        digits_end(cs, j + 1)
    } else {
        j
    };
    (
        Scanned::Token(
            token_at(cs, s, k, TokenType::Number, Some(LitView::Number(cs.subrange(s, k))), line),
        ),
        k,
        line,
    )
}

/// The kind of a word: the token kind it spells, or `Identifier`.
pub open spec fn word_kind(w: Seq<char>) -> TokenType {
    match keyword(w) {
        Some(t) => t,
        None => TokenType::Identifier,
    }
}

/// A name or keyword starting at `s`.
pub open spec fn scan_word(cs: Seq<char>, s: int, line: nat) -> ScanStep {
    let j = word_end(cs, s + 1);
    (Scanned::Token(token_at(cs, s, j, word_kind(cs.subrange(s, j)), None, line)), j, line)
}

/// A decorator `@name` starting at `s`.
pub open spec fn scan_decorator(cs: Seq<char>, s: int, line: nat) -> ScanStep {
    if s + 1 < cs.len() && (unicode_alphabetic(cs[s + 1]) || cs[s + 1] == '_') {
        let j = word_end(cs, s + 1);
        (
            Scanned::Token(
                token_at(
                    cs,
                    s,
                    j,
                    TokenType::Decorator,
                    Some(LitView::Decorator(cs.subrange(s + 1, j))),
                    line,
                ),
            ),
            j,
            line,
        )
    } else {
        refused(s, line, LexError::ExpectedIdentAfterAt { span: span_of(cs, s, s + 1) })
    }
}

/// One scanning step from the character at `s`, on line `line`.
pub open spec fn scan_step(cs: Seq<char>, s: int, line: nat) -> ScanStep {
    let c = cs[s];
    if c == '(' {
        single(cs, s, line, TokenType::LeftParen)
    } else if c == ')' {
        single(cs, s, line, TokenType::RightParen)
    } else if c == '{' {
        single(cs, s, line, TokenType::LeftBrace)
    } else if c == '}' {
        single(cs, s, line, TokenType::RightBrace)
    } else if c == '[' {
        single(cs, s, line, TokenType::LeftBracket)
    } else if c == ']' {
        single(cs, s, line, TokenType::RightBracket)
    } else if c == ',' {
        single(cs, s, line, TokenType::Comma)
    } else if c == ';' {
        single(cs, s, line, TokenType::Semicolon)
    } else {
        scan_operator(cs, s, line)
    }
}

/// A step from an operator character, or from what is left.
pub open spec fn scan_operator(cs: Seq<char>, s: int, line: nat) -> ScanStep {
    let c = cs[s];
    if c == '+' {
        pair(cs, s, line, '=', TokenType::PlusEqual, TokenType::Plus)
    } else if c == '*' {
        pair(cs, s, line, '=', TokenType::StarEqual, TokenType::Star)
    } else if c == '%' {
        pair(cs, s, line, '=', TokenType::PercentEqual, TokenType::Percent)
    } else if c == '!' {
        pair(cs, s, line, '=', TokenType::BangEqual, TokenType::Bang)
    } else if c == '<' {
        pair(cs, s, line, '=', TokenType::LessEqual, TokenType::Less)
    } else if c == '>' {
        pair(cs, s, line, '=', TokenType::GreaterEqual, TokenType::Greater)
    } else if c == '.' {
        if char_at(cs, s + 1) == '.' && char_at(cs, s + 2) == '=' {
            (Scanned::Token(token_at(cs, s, s + 3, TokenType::DotDotEqual, None, line)), s + 3, line)
        } else {
            pair(cs, s, line, '.', TokenType::DotDot, TokenType::Dot)
        }
    } else if c == ':' {
        pair(cs, s, line, ':', TokenType::ColonColon, TokenType::Colon)
    } else if c == '|' {
        pair(cs, s, line, '|', TokenType::Or, TokenType::Pipe)
    } else if c == '-' {
        triple(cs, s, line, '=', TokenType::MinusEqual, '>', TokenType::Arrow, TokenType::Minus)
    } else if c == '=' {
        triple(cs, s, line, '=', TokenType::EqualEqual, '>', TokenType::FatArrow, TokenType::Equal)
    } else if c == '?' {
        triple(
            cs,
            s,
            line,
            '?',
            TokenType::QuestionQuestion,
            '.',
            TokenType::QuestionDot,
            TokenType::Question,
        )
    } else {
        scan_other(cs, s, line)
    }
}

/// A step from a character that is no one-character operator.
pub open spec fn scan_other(cs: Seq<char>, s: int, line: nat) -> ScanStep {
    let c = cs[s];
    if c == '&' {
        if char_at(cs, s + 1) == '&' {
            (Scanned::Token(token_at(cs, s, s + 2, TokenType::And, None, line)), s + 2, line)
        } else {
            refused(s, line, LexError::SingleAmpersand { span: span_of(cs, s, s + 1) })
        }
    } else if c == '/' {
        if char_at(cs, s + 1) == '/' {
            (Scanned::Skipped, comment_end(cs, s + 2), line)
        } else {
            pair(cs, s, line, '=', TokenType::SlashEqual, TokenType::Slash)
        }
    } else if c == ' ' || c == '\r' || c == '\t' {
        (Scanned::Skipped, s + 1, line)
    } else if c == '\n' {
        (Scanned::Skipped, s + 1, line + 1)
    } else if c == '"' {
        scan_string(cs, s, line)
    } else if ascii_digit(c) {
        scan_number(cs, s, line)
    } else if unicode_alphabetic(c) || c == '_' {
        scan_word(cs, s, line)
    } else if c == '@' {
        scan_decorator(cs, s, line)
    } else {
        refused(s, line, LexError::UnexpectedChar { ch: c, span: span_of(cs, s, s + 1) })
    }
}

/// The tokens and diagnostics of `cs` from `s` on, on line `line`, after
/// `tokens` and `errors`; the tokens end with `Eof`.
pub open spec fn scan_from(
    cs: Seq<char>,
    s: int,
    line: nat,
    tokens: Seq<TokenView>,
    errors: Seq<LexError>,
) -> (Seq<TokenView>, Seq<LexError>)
    decreases cs.len() - s,
{
    if s < 0 || s >= cs.len() {
        (tokens.push(eof_token(cs, line)), errors)
    } else {
        proof {
            lemma_scan_step(cs, s, line);
        }
        let (item, next, l) = scan_step(cs, s, line);
        match item {
            Scanned::Token(t) => scan_from(cs, next, l, tokens.push(t), errors),
            Scanned::Skipped => scan_from(cs, next, l, tokens, errors),
            Scanned::Error(e) => scan_from(cs, next, l, tokens, errors.push(e)),
        }
    }
}

/// What scanning `cs` gives: its tokens, or every diagnostic where there is one.
pub open spec fn scan_outcome(cs: Seq<char>) -> Result<Seq<TokenView>, Seq<LexError>> {
    let (tokens, errors) = scan_from(cs, 0, 1, Seq::empty(), Seq::empty());
    if errors.len() == 0 {
        Ok(tokens)
    } else {
        Err(errors)
    }
}

pub proof fn lemma_comment_end(cs: Seq<char>, i: int)
    requires
        0 <= i,
    ensures
        i <= comment_end(cs, i),
        i <= cs.len() ==> comment_end(cs, i) <= cs.len(),
    decreases cs.len() - i,
{
    if i < cs.len() && cs[i] != '\n' {
        lemma_comment_end(cs, i + 1);
    }
}

pub proof fn lemma_digits_end(cs: Seq<char>, i: int)
    requires
        0 <= i,
    ensures
        i <= digits_end(cs, i),
        i <= cs.len() ==> digits_end(cs, i) <= cs.len(),
    decreases cs.len() - i,
{
    if i < cs.len() && ascii_digit(cs[i]) {
        lemma_digits_end(cs, i + 1);
    }
}

pub proof fn lemma_word_end(cs: Seq<char>, i: int)
    requires
        0 <= i,
    ensures
        i <= word_end(cs, i),
        i <= cs.len() ==> word_end(cs, i) <= cs.len(),
    decreases cs.len() - i,
{
    if i < cs.len() && (unicode_alphanumeric(cs[i]) || cs[i] == '_') {
        lemma_word_end(cs, i + 1);
    }
}

pub proof fn lemma_string_end(cs: Seq<char>, i: int, line: nat)
    requires
        0 <= i <= cs.len(),
    ensures
        i <= string_end(cs, i, line).0 <= cs.len(),
        line <= string_end(cs, i, line).1 <= line + (string_end(cs, i, line).0 - i),
    decreases cs.len() - i,
{
    if i < cs.len() && cs[i] != '"' {
        lemma_string_end(cs, i + 1, if cs[i] == '\n' { line + 1 } else { line });
    }
}

/// A step moves forward, stays within the text, and counts at most one line
/// per character it passes.
pub proof fn lemma_scan_step(cs: Seq<char>, s: int, line: nat)
    requires
        0 <= s < cs.len(),
    ensures
        s < scan_step(cs, s, line).1 <= cs.len(),
        line <= scan_step(cs, s, line).2 <= line + (scan_step(cs, s, line).1 - s),
{
    lemma_comment_end(cs, s + 2);
    lemma_digits_end(cs, s + 1);
    lemma_word_end(cs, s + 1);
    if s + 1 <= cs.len() {
        lemma_string_end(cs, s + 1, line);
    }
    let j = digits_end(cs, s + 1);
    if char_at(cs, j) == '.' && ascii_digit(char_at(cs, j + 1)) {
        lemma_digits_end(cs, j + 1);
    }
}

/// The tokens that scanning from `s` gives, on line `line`.
pub open spec fn tokens_from(cs: Seq<char>, s: int, line: nat) -> Seq<TokenView>
    decreases cs.len() - s,
{
    if s < 0 || s >= cs.len() {
        seq![eof_token(cs, line)]
    } else {
        proof {
            lemma_scan_step(cs, s, line);
        }
        let (item, next, l) = scan_step(cs, s, line);
        match item {
            Scanned::Token(t) => seq![t] + tokens_from(cs, next, l),
            _ => tokens_from(cs, next, l),
        }
    }
}

/// The character range of each token that scanning from `s` gives.
pub open spec fn token_ranges(cs: Seq<char>, s: int, line: nat) -> Seq<(int, int)>
    decreases cs.len() - s,
{
    if s < 0 || s >= cs.len() {
        seq![(cs.len() as int, cs.len() as int)]
    } else {
        proof {
            lemma_scan_step(cs, s, line);
        }
        let (item, next, l) = scan_step(cs, s, line);
        match item {
            Scanned::Token(_) => seq![(s, next)] + token_ranges(cs, next, l),
            _ => token_ranges(cs, next, l),
        }
    }
}

/// `ts` lies in `cs` along the ranges `rs`, from `s` on: each token is the
/// text of its range, at the byte offset where the range starts, and the
/// ranges follow one another without overlapping.
pub open spec fn follows_source(cs: Seq<char>, s: int, ts: Seq<TokenView>, rs: Seq<(int, int)>) -> bool {
    &&& ts.len() == rs.len()
    &&& forall|i: int|
        0 <= i < ts.len() ==> {
            &&& s <= (#[trigger] rs[i]).0 <= rs[i].1 <= cs.len()
            &&& ts[i].lexeme == cs.subrange(rs[i].0, rs[i].1)
            &&& ts[i].offset == offset_of(cs, rs[i].0) as u32
        }
    &&& forall|i: int, j: int| 0 <= i < j < rs.len() ==> (#[trigger] rs[i]).1 <= (#[trigger] rs[j]).0
}

/// A token that a step gives is the text from where the step starts to
/// where the next one does.
pub proof fn lemma_step_token(cs: Seq<char>, s: int, line: nat)
    requires
        0 <= s < cs.len(),
    ensures
        scan_step(cs, s, line).0 matches Scanned::Token(t) ==> t.lexeme == cs.subrange(
            s,
            scan_step(cs, s, line).1,
        ) && t.offset == offset_of(cs, s) as u32,
{
}

/// Scanning with tokens already made puts the new ones after them.
pub proof fn lemma_scan_from_tokens(
    cs: Seq<char>,
    s: int,
    line: nat,
    tokens: Seq<TokenView>,
    errors: Seq<LexError>,
)
    requires
        0 <= s,
    ensures
        scan_from(cs, s, line, tokens, errors).0 == tokens + tokens_from(cs, s, line),
    decreases cs.len() - s,
{
    if s < cs.len() {
        lemma_scan_step(cs, s, line);
        let (item, next, l) = scan_step(cs, s, line);
        match item {
            Scanned::Token(t) => {
                lemma_scan_from_tokens(cs, next, l, tokens.push(t), errors);
                assert(tokens.push(t) + tokens_from(cs, next, l) =~= tokens + (seq![t] + tokens_from(
                    cs,
                    next,
                    l,
                )));
            },
            Scanned::Skipped => {
                lemma_scan_from_tokens(cs, next, l, tokens, errors);
            },
            Scanned::Error(e) => {
                lemma_scan_from_tokens(cs, next, l, tokens, errors.push(e));
            },
        }
    } else {
        assert(tokens.push(eof_token(cs, line)) =~= tokens + seq![eof_token(cs, line)]);
    }
}

/// The tokens from `s` on lie along their ranges, the last one being the
/// `Eof` token at the end.
pub proof fn lemma_tokens_from(cs: Seq<char>, s: int, line: nat)
    requires
        0 <= s <= cs.len(),
    ensures
        follows_source(cs, s, tokens_from(cs, s, line), token_ranges(cs, s, line)),
        tokens_from(cs, s, line).len() > 0,
        tokens_from(cs, s, line).last().token_type == TokenType::Eof,
        token_ranges(cs, s, line).last() == (cs.len() as int, cs.len() as int),
    decreases cs.len() - s,
{
    if s < cs.len() {
        lemma_scan_step(cs, s, line);
        lemma_step_token(cs, s, line);
        let (item, next, l) = scan_step(cs, s, line);
        lemma_tokens_from(cs, next, l);
        let ts = tokens_from(cs, next, l);
        let rs = token_ranges(cs, next, l);
        match item {
            Scanned::Token(t) => {
                let ts2 = seq![t] + ts;
                let rs2 = seq![(s, next)] + rs;
                assert(ts2.len() == rs2.len());
                assert forall|i: int| 0 <= i < ts2.len() implies {
                    &&& s <= (#[trigger] rs2[i]).0 <= rs2[i].1 <= cs.len()
                    &&& ts2[i].lexeme == cs.subrange(rs2[i].0, rs2[i].1)
                    &&& ts2[i].offset == offset_of(cs, rs2[i].0) as u32
                } by {
                    if i > 0 {
                        assert(rs2[i] == rs[i - 1]);
                        assert(ts2[i] == ts[i - 1]);
                    }
                }
                assert forall|i: int, j: int| 0 <= i < j < rs2.len() implies (#[trigger] rs2[i]).1
                    <= (#[trigger] rs2[j]).0 by {
                    assert(rs2[j] == rs[j - 1]);
                    if i > 0 {
                        assert(rs2[i] == rs[i - 1]);
                    }
                }
                assert(ts2.last() == ts.last());
                assert(rs2.last() == rs.last());
            },
            _ => {},
        }
    } else {
        let ts = tokens_from(cs, s, line);
        let rs = token_ranges(cs, s, line);
        assert(cs.subrange(cs.len() as int, cs.len() as int) =~= Seq::<char>::empty());
        assert(ts.len() == 1 && rs.len() == 1);
    }
}

/// Scanning reads the text from left to right: each token is the text of
/// its own range of characters, at the byte offset where that range starts;
/// the ranges follow one another without overlapping; and the last token is
/// the `Eof` token, at the end of the text.
pub proof fn law_tokens_follow_source(cs: Seq<char>)
    ensures
        scan_outcome(cs) matches Ok(ts) ==> {
            &&& follows_source(cs, 0, ts, token_ranges(cs, 0, 1))
            &&& ts.len() > 0
            &&& ts.last().token_type == TokenType::Eof
            &&& ts.last().offset == byte_len(cs) as u32
        },
{
    lemma_scan_from_tokens(cs, 0, 1, Seq::empty(), Seq::empty());
    lemma_tokens_from(cs, 0, 1);
    assert(Seq::<TokenView>::empty() + tokens_from(cs, 0, 1) =~= tokens_from(cs, 0, 1));
    let ts = tokens_from(cs, 0, 1);
    let rs = token_ranges(cs, 0, 1);
    assert(ts.last().offset == offset_of(cs, rs.last().0) as u32);
    assert(cs.take(cs.len() as int) =~= cs);
}

/// The kind of the operator spelled by the characters `a` then `b`, if any.
pub open spec fn two_char_kind(a: char, b: char) -> Option<TokenType> {
    if b == '=' && a == '+' {
        Some(TokenType::PlusEqual)
    } else if b == '=' && a == '-' {
        Some(TokenType::MinusEqual)
    } else if b == '=' && a == '*' {
        Some(TokenType::StarEqual)
    } else if b == '=' && a == '/' {
        Some(TokenType::SlashEqual)
    } else if b == '=' && a == '%' {
        Some(TokenType::PercentEqual)
    } else if b == '=' && a == '!' {
        Some(TokenType::BangEqual)
    } else if b == '=' && a == '<' {
        Some(TokenType::LessEqual)
    } else if b == '=' && a == '>' {
        Some(TokenType::GreaterEqual)
    } else if b == '=' && a == '=' {
        Some(TokenType::EqualEqual)
    } else if a == '=' && b == '>' {
        Some(TokenType::FatArrow)
    } else if a == '-' && b == '>' {
        Some(TokenType::Arrow)
    } else if a == ':' && b == ':' {
        Some(TokenType::ColonColon)
    } else if a == '|' && b == '|' {
        Some(TokenType::Or)
    } else if a == '&' && b == '&' {
        Some(TokenType::And)
    } else if a == '.' && b == '.' {
        Some(TokenType::DotDot)
    } else if a == '?' && b == '?' {
        Some(TokenType::QuestionQuestion)
    } else if a == '?' && b == '.' {
        Some(TokenType::QuestionDot)
    } else {
        None
    }
}

/// The kind of the one-character token `c`, if it is one.
pub open spec fn one_char_kind(c: char) -> Option<TokenType> {
    if c == '(' {
        Some(TokenType::LeftParen)
    } else if c == ')' {
        Some(TokenType::RightParen)
    } else if c == '{' {
        Some(TokenType::LeftBrace)
    } else if c == '}' {
        Some(TokenType::RightBrace)
    } else if c == '[' {
        Some(TokenType::LeftBracket)
    } else if c == ']' {
        Some(TokenType::RightBracket)
    } else if c == ',' {
        Some(TokenType::Comma)
    } else if c == ';' {
        Some(TokenType::Semicolon)
    } else if c == '+' {
        Some(TokenType::Plus)
    } else if c == '-' {
        Some(TokenType::Minus)
    } else if c == '*' {
        Some(TokenType::Star)
    } else if c == '/' {
        Some(TokenType::Slash)
    } else if c == '%' {
        Some(TokenType::Percent)
    } else if c == '!' {
        Some(TokenType::Bang)
    } else if c == '<' {
        Some(TokenType::Less)
    } else if c == '>' {
        Some(TokenType::Greater)
    } else if c == '=' {
        Some(TokenType::Equal)
    } else if c == ':' {
        Some(TokenType::Colon)
    } else if c == '|' {
        Some(TokenType::Pipe)
    } else if c == '.' {
        Some(TokenType::Dot)
    } else if c == '?' {
        Some(TokenType::Question)
    } else {
        None
    }
}

/// Operators are read longest first: where two characters spell an
/// operator (`+=`, `*=`, `<=`, `==`, `->`, `::`, `||`, `&&`, `..`, `??`, ...),
/// one token of that kind is made of both, but for `..=`, which is one token
/// of three characters.
pub proof fn law_two_char_operators(cs: Seq<char>, s: int, line: nat)
    requires
        0 <= s,
        s + 1 < cs.len(),
        two_char_kind(cs[s], cs[s + 1]) is Some,
    ensures
        (cs[s] == '.' && cs[s + 1] == '.' && char_at(cs, s + 2) == '=') ==> scan_step(cs, s, line)
            == (Scanned::Token(token_at(cs, s, s + 3, TokenType::DotDotEqual, None, line)), s + 3, line),
        !(cs[s] == '.' && cs[s + 1] == '.' && char_at(cs, s + 2) == '=') ==> scan_step(cs, s, line)
            == (
            Scanned::Token(
                token_at(cs, s, s + 2, two_char_kind(cs[s], cs[s + 1])->0, None, line),
            ),
            s + 2,
            line,
        ),
{
}

/// A one-character operator or bracket that no second character extends
/// (and that does not open a `//` comment) is one token of that character.
pub proof fn law_one_char_tokens(cs: Seq<char>, s: int, line: nat)
    requires
        0 <= s < cs.len(),
        one_char_kind(cs[s]) is Some,
        two_char_kind(cs[s], char_at(cs, s + 1)) is None,
        !(cs[s] == '/' && char_at(cs, s + 1) == '/'),
    ensures
        scan_step(cs, s, line) == (
            Scanned::Token(token_at(cs, s, s + 1, one_char_kind(cs[s])->0, None, line)),
            s + 1,
            line,
        ),
{
}

/// A `//` comment is skipped up to the end of its line.
pub proof fn law_comments_skipped(cs: Seq<char>, s: int, line: nat, e: int)
    requires
        0 <= s,
        s + 1 < cs.len(),
        cs[s] == '/' && cs[s + 1] == '/',
        s + 2 <= e <= cs.len(),
        e == cs.len() || cs[e] == '\n',
        forall|i: int| s + 2 <= i < e ==> cs[i] != '\n',
    ensures
        scan_step(cs, s, line) == (Scanned::Skipped, e, line),
{
    lemma_comment_upto(cs, s + 2, e);
}

proof fn lemma_comment_upto(cs: Seq<char>, i: int, e: int)
    requires
        0 <= i <= e <= cs.len(),
        e == cs.len() || cs[e] == '\n',
        forall|j: int| i <= j < e ==> cs[j] != '\n',
    ensures
        comment_end(cs, i) == e,
    decreases e - i,
{
    if i < e {
        lemma_comment_upto(cs, i + 1, e);
    }
}

/// Blanks are skipped: a space, a carriage return or a tab gives nothing and
/// moves one character on; a newline gives nothing and counts a line.
pub proof fn law_blanks_skipped(cs: Seq<char>, s: int, line: nat)
    requires
        0 <= s < cs.len(),
    ensures
        cs[s] == ' ' || cs[s] == '\r' || cs[s] == '\t' ==> scan_step(cs, s, line) == (
            Scanned::Skipped,
            s + 1,
            line,
        ),
        cs[s] == '\n' ==> scan_step(cs, s, line) == (Scanned::Skipped, s + 1, line + 1),
{
}

/// Blanks between tokens change nothing: scanning from a blank gives what
/// scanning from the next character gives, on the same line.
pub proof fn law_blanks_between(
    cs: Seq<char>,
    s: int,
    line: nat,
    tokens: Seq<TokenView>,
    errors: Seq<LexError>,
)
    requires
        0 <= s < cs.len(),
        cs[s] == ' ' || cs[s] == '\r' || cs[s] == '\t',
    ensures
        scan_from(cs, s, line, tokens, errors) == scan_from(cs, s + 1, line, tokens, errors),
{
    law_blanks_skipped(cs, s, line);
}

/// The characters that the scanner reads as something of their own before
/// it looks for a word: brackets, operators, blanks, quotes and `@`.
pub open spec fn special_char(c: char) -> bool {
    one_char_kind(c) is Some || c == '&' || c == ' ' || c == '\r' || c == '\t' || c == '\n'
        || c == '"' || c == '@'
}

/// The characters that may continue a word.
pub open spec fn word_char(c: char) -> bool {
    unicode_alphanumeric(c) || c == '_'
}

proof fn lemma_digits_upto(cs: Seq<char>, i: int, e: int)
    requires
        0 <= i <= e <= cs.len(),
        e == cs.len() || !ascii_digit(cs[e]),
        forall|j: int| i <= j < e ==> ascii_digit(cs[j]),
    ensures
        digits_end(cs, i) == e,
    decreases e - i,
{
    if i < e {
        lemma_digits_upto(cs, i + 1, e);
    }
}

proof fn lemma_word_upto(cs: Seq<char>, i: int, e: int)
    requires
        0 <= i <= e <= cs.len(),
        e == cs.len() || !word_char(cs[e]),
        forall|j: int| i <= j < e ==> word_char(cs[j]),
    ensures
        word_end(cs, i) == e,
    decreases e - i,
{
    if i < e {
        lemma_word_upto(cs, i + 1, e);
    }
}

proof fn lemma_string_upto(cs: Seq<char>, i: int, e: int, line: nat)
    requires
        0 <= i <= e <= cs.len(),
        e == cs.len() || cs[e] == '"',
        forall|j: int| i <= j < e ==> cs[j] != '"',
    ensures
        string_end(cs, i, line).0 == e,
    decreases e - i,
{
    if i < e {
        lemma_string_upto(cs, i + 1, e, if cs[i] == '\n' { line + 1 } else { line });
    }
}

/// A string literal runs from its opening quote to the next quote: one `Str`
/// token of all of it, whose value is the text between the quotes.
pub proof fn law_string_literal(cs: Seq<char>, s: int, e: int, line: nat)
    requires
        0 <= s < e < cs.len(),
        cs[s] == '"',
        cs[e] == '"',
        forall|j: int| s < j < e ==> cs[j] != '"',
    ensures
        scan_step(cs, s, line).1 == e + 1,
        scan_step(cs, s, line).0 matches Scanned::Token(t) && t.token_type == TokenType::Str
            && t.lexeme == cs.subrange(s, e + 1) && t.literal == Some(
            LitView::Str(cs.subrange(s + 1, e)),
        ) && t.offset == offset_of(cs, s) as u32,
{
    lemma_string_upto(cs, s + 1, e, line);
}

/// A quote with no closing quote after it is refused, with the rest of the
/// text as the diagnostic's span, and scanning goes on at the end.
pub proof fn law_unterminated_string(cs: Seq<char>, s: int, line: nat)
    requires
        0 <= s < cs.len(),
        cs[s] == '"',
        forall|j: int| s < j < cs.len() ==> cs[j] != '"',
    ensures
        scan_step(cs, s, line).0 == Scanned::Error(
            LexError::UnterminatedString { span: span_of(cs, s, cs.len() as int) },
        ),
        scan_step(cs, s, line).1 == cs.len(),
{
    lemma_string_upto(cs, s + 1, cs.len() as int, line);
}

/// A number is its digits, then a `.` and more digits where a digit follows
/// the `.`: one `Number` token whose value is its text.
pub proof fn law_number_literal(cs: Seq<char>, s: int, j: int, k: int, line: nat)
    requires
        0 <= s < j <= k <= cs.len(),
        forall|i: int| s <= i < j ==> ascii_digit(cs[i]),
        j == cs.len() || !ascii_digit(cs[j]),
        k == j || (cs[j] == '.' && j + 1 < k && forall|i: int| j < i < k ==> ascii_digit(cs[i])),
        k == j ==> !(char_at(cs, j) == '.' && ascii_digit(char_at(cs, j + 1))),
        k > j ==> (k == cs.len() || !ascii_digit(cs[k])),
    ensures
        scan_step(cs, s, line) == (
            Scanned::Token(
                token_at(
                    cs,
                    s,
                    k,
                    TokenType::Number,
                    Some(LitView::Number(cs.subrange(s, k))),
                    line,
                ),
            ),
            k,
            line,
        ),
{
    lemma_digits_upto(cs, s + 1, j);
    if k > j {
        lemma_digits_upto(cs, j + 1, k);
    }
}

/// A word (a letter or `_`, then letters, digits and underscores) is one
/// token: the kind it spells, or a name.
pub proof fn law_word(cs: Seq<char>, s: int, e: int, line: nat)
    requires
        0 <= s < e <= cs.len(),
        unicode_alphabetic(cs[s]) || cs[s] == '_',
        !ascii_digit(cs[s]),
        !special_char(cs[s]),
        forall|i: int| s < i < e ==> word_char(cs[i]),
        e == cs.len() || !word_char(cs[e]),
    ensures
        scan_step(cs, s, line) == (
            Scanned::Token(
                token_at(
                    cs,
                    s,
                    e,
                    match keyword(cs.subrange(s, e)) {
                        Some(t) => t,
                        None => TokenType::Identifier,
                    },
                    None,
                    line,
                ),
            ),
            e,
            line,
        ),
{
    lemma_word_upto(cs, s + 1, e);
}

/// `@` and a word is one `Decorator` token whose value is the word; `@`
/// followed by anything else is refused, on the `@` alone. (`@` itself has no
/// Unicode `Alphabetic` property, so it never starts a word.)
pub proof fn law_decorator(cs: Seq<char>, s: int, e: int, line: nat)
    requires
        0 <= s < cs.len(),
        cs[s] == '@',
        !unicode_alphabetic('@'),
        s + 1 < e <= cs.len(),
        forall|i: int| s + 1 < i < e ==> word_char(cs[i]),
        e == cs.len() || !word_char(cs[e]),
    ensures
        (unicode_alphabetic(cs[s + 1]) || cs[s + 1] == '_') && word_char(cs[s + 1])
            ==> scan_step(cs, s, line) == (
            Scanned::Token(
                token_at(
                    cs,
                    s,
                    e,
                    TokenType::Decorator,
                    Some(LitView::Decorator(cs.subrange(s + 1, e))),
                    line,
                ),
            ),
            e,
            line,
        ),
        !(unicode_alphabetic(cs[s + 1]) || cs[s + 1] == '_') ==> scan_step(cs, s, line) == (
            Scanned::Error(LexError::ExpectedIdentAfterAt { span: span_of(cs, s, s + 1) }),
            s + 1,
            line,
        ),
{
    if word_char(cs[s + 1]) {
        lemma_word_upto(cs, s + 1, e);
    }
}

/// A single `&` is refused: there is no such operator.
pub proof fn law_single_ampersand(cs: Seq<char>, s: int, line: nat)
    requires
        0 <= s < cs.len(),
        cs[s] == '&',
        char_at(cs, s + 1) != '&',
    ensures
        scan_step(cs, s, line) == (
            Scanned::Error(LexError::SingleAmpersand { span: span_of(cs, s, s + 1) }),
            s + 1,
            line,
        ),
{
}

/// A character that starts nothing is refused on its own.
pub proof fn law_unexpected_char(cs: Seq<char>, s: int, line: nat)
    requires
        0 <= s < cs.len(),
        !special_char(cs[s]),
        !ascii_digit(cs[s]),
        !unicode_alphabetic(cs[s]),
        cs[s] != '_',
    ensures
        scan_step(cs, s, line) == (
            Scanned::Error(LexError::UnexpectedChar { ch: cs[s], span: span_of(cs, s, s + 1) }),
            s + 1,
            line,
        ),
{
}

/// Tokens taken as mathematical values.
pub open spec fn tokens_view(ts: Seq<Token>) -> Seq<TokenView> {
    ts.map_values(|t: Token| t@)
}

/// What a call of [`Scanner::scan_tokens`] gave, as mathematical values.
pub open spec fn scan_result_view(r: Result<Vec<Token>, CompileErrors<LexError>>) -> Result<
    Seq<TokenView>,
    Seq<LexError>,
> {
    match r {
        Ok(ts) => Ok(tokens_view(ts@)),
        Err(e) => Err(e.errors@),
    }
}

/// An optional literal value taken as a mathematical value.
pub open spec fn literal_view(l: Option<LiteralValue>) -> Option<LitView> {
    match l {
        Some(v) => Some(v@),
        None => None,
    }
}

/// A text has at least as many bytes as characters.
pub proof fn lemma_len_le_byte_len(cs: Seq<char>)
    ensures
        cs.len() <= byte_len(cs),
    decreases cs.len(),
{
    if cs.len() > 0 {
        lemma_len_le_byte_len(cs.drop_last());
    }
}

/// Reads source text into tokens.
pub struct Scanner {
    chars: Vec<char>,
    tokens: Vec<Token>,
    start: usize,
    current: usize,
    line: usize,
}

/// A scanning step took `before` to `after`, gave `r`, and did what `step` says.
pub open spec fn stepped(before: Scanner, after: Scanner, r: Result<(), LexError>, step: ScanStep) -> bool {
    &&& after.wf()
    &&& after.source() == before.source()
    &&& after.pos() == step.1
    &&& after.line_no() == step.2
    &&& match step.0 {
        Scanned::Token(t) => r is Ok && after.scanned() == before.scanned().push(t),
        Scanned::Skipped => r is Ok && after.scanned() == before.scanned(),
        Scanned::Error(e) => r == Err::<(), LexError>(e) && after.scanned() == before.scanned(),
    }
}

impl Scanner {
    /// The characters being scanned.
    pub closed spec fn source(&self) -> Seq<char> {
        self.chars@
    }

    /// The tokens made so far.
    pub closed spec fn scanned(&self) -> Seq<TokenView> {
        tokens_view(self.tokens@)
    }

    /// Where the token being read starts.
    pub closed spec fn token_start(&self) -> int {
        self.start as int
    }

    /// The index of the next character to read.
    pub closed spec fn pos(&self) -> int {
        self.current as int
    }

    /// The line being read.
    pub closed spec fn line_no(&self) -> nat {
        self.line as nat
    }

    /// Offsets fit in a `usize`, the token being read lies within the text,
    /// and no more lines were counted than characters were read.
    pub closed spec fn wf(&self) -> bool {
        &&& byte_len(self.chars@) < usize::MAX
        &&& self.start <= self.current <= self.chars.len()
        &&& 1 <= self.line <= self.current + 1
    }

    /// Nothing read yet.
    pub open spec fn fresh(&self) -> bool {
        &&& self.wf()
        &&& self.scanned() == Seq::<TokenView>::empty()
        &&& self.pos() == 0
        &&& self.line_no() == 1
    }

    pub fn new(src: &str) -> (r: Self)
        requires
            byte_len(src@) < usize::MAX,
        ensures
            r.source() == src@,
            r.fresh(),
    {
        let r = Scanner { chars: chars_of(src), tokens: Vec::new(), start: 0, current: 0, line: 1 };
        assert(r.scanned() =~= Seq::<TokenView>::empty());
        r
    }

    /// Scans the whole text. Every diagnostic is kept and scanning goes on
    /// after it; the tokens end with an `Eof` token.
    pub fn scan_tokens(self) -> (r: Result<Vec<Token>, CompileErrors<LexError>>)
        requires
            self.fresh(),
        ensures
            scan_result_view(r) == scan_outcome(self.source()),
            r matches Err(e) ==> e.errors.len() > 0,
    {
        let mut this = self;
        let ghost cs = this.chars@;
        let mut errors: Vec<LexError> = Vec::new();
        assert(errors@ =~= Seq::<LexError>::empty());
        while !this.is_at_end()
            invariant
                this.wf(),
                this.source() == cs,
                scan_from(cs, 0, 1, Seq::empty(), Seq::empty()) == scan_from(
                    cs,
                    this.pos(),
                    this.line_no(),
                    this.scanned(),
                    errors@,
                ),
            decreases cs.len() - this.pos(),
        {
            this.start = this.current;
            let ghost before = this;
            proof {
                lemma_scan_step(cs, before.pos(), before.line_no());
            }
            match this.scan_token() {
                Ok(()) => {},
                Err(e) => {
                    errors.push(e);
                },
            }
        }
        let offset = #[verifier::truncate] (this.byte_offset(this.current) as u32);
        let line = #[verifier::truncate] (this.line as u32);
        let ghost before = this.tokens@;
        this.tokens.push(
            Token { lexeme: String::new(), literal: None, token_type: TokenType::Eof, offset, line },
        );
        proof {
            assert(cs.subrange(cs.len() as int, cs.len() as int) =~= Seq::<char>::empty());
            assert(tokens_view(this.tokens@) =~= tokens_view(before).push(eof_token(cs, this.line as nat)));
        }
        if errors.len() > 0 {
            return Err(CompileErrors::new(errors));
        }
        Ok(this.tokens)
    }

    /// One token, blank or comment from the next character.
    fn scan_token(&mut self) -> (r: Result<(), LexError>)
        requires
            old(self).wf(),
            old(self).start == old(self).current,
            old(self).current < old(self).chars.len(),
        ensures
            stepped(*old(self), *final(self), r, scan_step(old(self).source(), old(self).pos(), old(self).line_no())),
    {
        let c = self.advance();
        match c {
            '(' => self.add_token(TokenType::LeftParen),
            ')' => self.add_token(TokenType::RightParen),
            '{' => self.add_token(TokenType::LeftBrace),
            '}' => self.add_token(TokenType::RightBrace),
            '[' => self.add_token(TokenType::LeftBracket),
            ']' => self.add_token(TokenType::RightBracket),
            ',' => self.add_token(TokenType::Comma),
            ';' => self.add_token(TokenType::Semicolon),
            _ => return self.scan_operator(c),
        }
        Ok(())
    }

    /// An operator, or what is left, from the character `c` just read.
    fn scan_operator(&mut self, c: char) -> (r: Result<(), LexError>)
        requires
            old(self).wf(),
            old(self).current == old(self).start + 1,
            old(self).line <= old(self).current,
            c == old(self).chars@[old(self).start as int],
        ensures
            stepped(*old(self), *final(self), r, scan_operator(old(self).source(), old(self).token_start(), old(self).line_no())),
    {
        match c {
            '+' => self.match_token('=', TokenType::PlusEqual, TokenType::Plus),
            '*' => self.match_token('=', TokenType::StarEqual, TokenType::Star),
            '%' => self.match_token('=', TokenType::PercentEqual, TokenType::Percent),
            '!' => self.match_token('=', TokenType::BangEqual, TokenType::Bang),
            '<' => self.match_token('=', TokenType::LessEqual, TokenType::Less),
            '>' => self.match_token('=', TokenType::GreaterEqual, TokenType::Greater),
            '.' => {
                if self.peek() == '.' && self.peek_next() == '=' {
                    self.advance();
                    self.advance();
                    self.add_token(TokenType::DotDotEqual);
                } else {
                    self.match_token('.', TokenType::DotDot, TokenType::Dot);
                }
            },
            ':' => self.match_token(':', TokenType::ColonColon, TokenType::Colon),
            '|' => self.match_token('|', TokenType::Or, TokenType::Pipe),
            '-' => self.match_token_t('=', TokenType::MinusEqual, '>', TokenType::Arrow, TokenType::Minus),
            '=' => self.match_token_t('=', TokenType::EqualEqual, '>', TokenType::FatArrow, TokenType::Equal),
            '?' => self.match_token_t(
                '?',
                TokenType::QuestionQuestion,
                '.',
                TokenType::QuestionDot,
                TokenType::Question,
            ),
            _ => return self.scan_other(c),
        }
        Ok(())
    }

    /// `&&`, a slash or a comment, blanks, strings, numbers, words and
    /// decorators, from the character `c` just read.
    fn scan_other(&mut self, c: char) -> (r: Result<(), LexError>)
        requires
            old(self).wf(),
            old(self).current == old(self).start + 1,
            old(self).line <= old(self).current,
            c == old(self).chars@[old(self).start as int],
        ensures
            stepped(*old(self), *final(self), r, scan_other(old(self).source(), old(self).token_start(), old(self).line_no())),
    {
        if c == '&' {
            if self.char_match('&') {
                self.add_token(TokenType::And);
                Ok(())
            } else {
                Err(LexError::SingleAmpersand { span: self.current_span() })
            }
        } else if c == '/' {
            if self.char_match('/') {
                self.skip_comment();
            } else {
                self.match_token('=', TokenType::SlashEqual, TokenType::Slash);
            }
            Ok(())
        } else if c == ' ' || c == '\r' || c == '\t' {
            Ok(())
        } else if c == '\n' {
            proof {
                lemma_len_le_byte_len(self.chars@);
            }
            self.line = self.line + 1;
            Ok(())
        } else if c == '"' {
            self.string()
        } else if is_ascii_digit(c) {
            self.number();
            Ok(())
        } else if is_alphabetic(c) || c == '_' {
            self.identifier();
            Ok(())
        } else if c == '@' {
            self.decorator()
        } else {
            Err(LexError::UnexpectedChar { ch: c, span: self.current_span() })
        }
    }

    /// Skips the rest of a line comment, up to the newline.
    fn skip_comment(&mut self)
        requires
            old(self).wf(),
        ensures
            final(self).wf(),
            final(self).chars == old(self).chars,
            final(self).tokens == old(self).tokens,
            final(self).start == old(self).start,
            final(self).line == old(self).line,
            final(self).current == comment_end(old(self).chars@, old(self).current as int),
    {
        let ghost target = comment_end(self.chars@, self.current as int);
        while self.peek() != '\n' && !self.is_at_end()
            invariant
                self.wf(),
                self.chars == old(self).chars,
                self.tokens == old(self).tokens,
                self.start == old(self).start,
                self.line == old(self).line,
                target == comment_end(self.chars@, self.current as int),
            decreases self.chars.len() - self.current,
        {
            self.advance();
        }
    }

    /// The rest of a string literal, after its opening quote.
    fn string(&mut self) -> (r: Result<(), LexError>)
        requires
            old(self).wf(),
            old(self).current == old(self).start + 1,
            old(self).chars@[old(self).start as int] == '"',
        ensures
            stepped(*old(self), *final(self), r, scan_string(old(self).source(), old(self).token_start(), old(self).line_no())),
    {
        let ghost cs = self.chars@;
        let ghost s = self.start as int;
        let ghost target = string_end(cs, s + 1, self.line as nat);
        proof {
            lemma_len_le_byte_len(cs);
        }
        while self.peek() != '"' && !self.is_at_end()
            invariant
                self.wf(),
                self.chars@ == cs,
                cs.len() <= byte_len(cs),
                self.tokens == old(self).tokens,
                self.start == old(self).start,
                s == self.start,
                s + 1 <= self.current,
                target == string_end(cs, self.current as int, self.line as nat),
            decreases self.chars.len() - self.current,
        {
            if self.peek() == '\n' {
                self.line = self.line + 1;
            }
            self.advance();
        }
        if self.is_at_end() {
            return Err(LexError::UnterminatedString { span: self.current_span() });
        }
        self.advance();
        let value = string_from_chars(&self.chars, self.start + 1, self.current - 1);
        self.add_token_lit(TokenType::Str, Some(LiteralValue::StringValue(value)));
        Ok(())
    }

    /// The rest of a number, after its first digit.
    fn number(&mut self)
        requires
            old(self).wf(),
            old(self).current == old(self).start + 1,
            ascii_digit(old(self).chars@[old(self).start as int]),
        ensures
            stepped(*old(self), *final(self), Ok(()), scan_number(old(self).source(), old(self).token_start(), old(self).line_no())),
    {
        let ghost cs = self.chars@;
        let ghost first = digits_end(cs, self.current as int);
        while self.is_digit()
            invariant
                self.wf(),
                self.chars == old(self).chars,
                self.tokens == old(self).tokens,
                self.start == old(self).start,
                self.line == old(self).line,
                first == digits_end(cs, self.current as int),
                cs == self.chars@,
            decreases self.chars.len() - self.current,
        {
            self.advance();
        }
        if self.peek() == '.' && is_ascii_digit(self.peek_next()) {
            self.advance();
            let ghost second = digits_end(cs, self.current as int);
            while self.is_digit()
                invariant
                    self.wf(),
                    self.chars == old(self).chars,
                    self.tokens == old(self).tokens,
                    self.start == old(self).start,
                    self.line == old(self).line,
                    second == digits_end(cs, self.current as int),
                    cs == self.chars@,
                decreases self.chars.len() - self.current,
            {
                self.advance();
            }
        }
        let text = self.current_lexeme();
        self.add_token_lit(TokenType::Number, Some(LiteralValue::NumberValue(text)));
    }

    /// Reads letters, digits and underscores.
    fn skip_word(&mut self)
        requires
            old(self).wf(),
        ensures
            final(self).wf(),
            final(self).chars == old(self).chars,
            final(self).tokens == old(self).tokens,
            final(self).start == old(self).start,
            final(self).line == old(self).line,
            final(self).current == word_end(old(self).chars@, old(self).current as int),
    {
        let ghost target = word_end(self.chars@, self.current as int);
        while !self.is_at_end() && (is_alphanumeric(self.peek()) || self.peek() == '_')
            invariant
                self.wf(),
                self.chars == old(self).chars,
                self.tokens == old(self).tokens,
                self.start == old(self).start,
                self.line == old(self).line,
                target == word_end(self.chars@, self.current as int),
            decreases self.chars.len() - self.current,
        {
            self.advance();
        }
    }

    /// The rest of a name or keyword, after its first character.
    fn identifier(&mut self)
        requires
            old(self).wf(),
            old(self).current == old(self).start + 1,
        ensures
            stepped(*old(self), *final(self), Ok(()), scan_word(old(self).source(), old(self).token_start(), old(self).line_no())),
    {
        self.skip_word();
        let kind = match keyword_in(&self.chars, self.start, self.current) {
            Some(t) => t,
            None => TokenType::Identifier,
        };
        self.add_token(kind);
    }

    /// The rest of a decorator, after its `@`.
    fn decorator(&mut self) -> (r: Result<(), LexError>)
        requires
            old(self).wf(),
            old(self).current == old(self).start + 1,
        ensures
            stepped(*old(self), *final(self), r, scan_decorator(old(self).source(), old(self).token_start(), old(self).line_no())),
    {
        if self.is_at_end() || !(is_alphabetic(self.peek()) || self.peek() == '_') {
            return Err(LexError::ExpectedIdentAfterAt { span: self.current_span() });
        }
        proof {
            lemma_word_end(self.chars@, self.current as int);
        }
        self.skip_word();
        let value = string_from_chars(&self.chars, self.start + 1, self.current);
        self.add_token_lit(TokenType::Decorator, Some(LiteralValue::DecoratorValue(value)));
        Ok(())
    }

    fn add_token(&mut self, kind: TokenType)
        requires
            old(self).wf(),
        ensures
            final(self).wf(),
            final(self).chars == old(self).chars,
            final(self).start == old(self).start,
            final(self).current == old(self).current,
            final(self).line == old(self).line,
            final(self).scanned() == old(self).scanned().push(
                token_at(old(self).source(), old(self).token_start(), old(self).pos(), kind, None, old(self).line_no()),
            ),
    {
        self.add_token_lit(kind, None)
    }

    fn add_token_lit(&mut self, kind: TokenType, literal: Option<LiteralValue>)
        requires
            old(self).wf(),
        ensures
            final(self).wf(),
            final(self).chars == old(self).chars,
            final(self).start == old(self).start,
            final(self).current == old(self).current,
            final(self).line == old(self).line,
            final(self).scanned() == old(self).scanned().push(
                token_at(
                    old(self).source(),
                    old(self).token_start(),
                    old(self).pos(),
                    kind,
                    literal_view(literal),
                    old(self).line_no(),
                ),
            ),
    {
        let lexeme = self.current_lexeme();
        let offset = #[verifier::truncate] (self.byte_offset(self.start) as u32);
        let line = #[verifier::truncate] (self.line as u32);
        let ghost before = self.tokens@;
        let token = Token { lexeme, literal, token_type: kind, offset, line };
        self.tokens.push(token);
        proof {
            assert(tokens_view(self.tokens@) =~= tokens_view(before).push(token@));
        }
    }

    /// `yes` where the next character is `ch` (which is then read), else `no`.
    fn match_token(&mut self, ch: char, yes: TokenType, no: TokenType)
        requires
            old(self).wf(),
            ch != '\0',
            old(self).current == old(self).start + 1,
        ensures
            stepped(*old(self), *final(self), Ok(()), pair(old(self).source(), old(self).token_start(), old(self).line_no(), ch, yes, no)),
    {
        let t = if self.char_match(ch) {
            yes
        } else {
            no
        };
        self.add_token(t)
    }

    /// `ya` where the next character is `a`, `yb` where it is `b`, else `no`.
    fn match_token_t(&mut self, a: char, ya: TokenType, b: char, yb: TokenType, no: TokenType)
        requires
            old(self).wf(),
            a != '\0',
            b != '\0',
            old(self).current == old(self).start + 1,
        ensures
            stepped(*old(self), *final(self), Ok(()), triple(old(self).source(), old(self).token_start(), old(self).line_no(), a, ya, b, yb, no)),
    {
        let t = if self.char_match(a) {
            ya
        } else if self.char_match(b) {
            yb
        } else {
            no
        };
        self.add_token(t)
    }

    /// The byte offset of the character at `idx`.
    fn byte_offset(&self, idx: usize) -> (r: usize)
        requires
            self.wf(),
            idx <= self.chars.len(),
        ensures
            r == offset_of(self.chars@, idx as int),
    {
        let ghost cs = self.chars@;
        let mut total: usize = 0;
        let mut i: usize = 0;
        while i < idx
            invariant
                i <= idx <= cs.len(),
                cs == self.chars@,
                byte_len(cs) < usize::MAX,
                total == byte_len(cs.take(i as int)),
            decreases idx - i,
        {
            proof {
                lemma_byte_len_push(cs.take(i as int), cs[i as int]);
                assert(cs.take(i + 1) =~= cs.take(i as int).push(cs[i as int]));
                lemma_byte_len_take_mono(cs, i + 1, cs.len() as int);
                assert(cs.take(cs.len() as int) =~= cs);
            }
            total = total + char_width(self.chars[i]);
            i = i + 1;
        }
        total
    }

    /// The bytes of the token being read.
    fn current_span(&self) -> (r: Span)
        requires
            self.wf(),
        ensures
            r == span_of(self.chars@, self.start as int, self.current as int),
    {
        proof {
            lemma_byte_len_take_mono(self.chars@, self.start as int, self.current as int);
        }
        let start = self.byte_offset(self.start);
        let len = self.byte_offset(self.current) - start;
        Span { offset: start, len }
    }

    /// Whether the next character is an ASCII digit.
    fn is_digit(&self) -> (r: bool)
        ensures
            r == ascii_digit(char_at(self.chars@, self.current as int)),
    {
        is_ascii_digit(self.peek())
    }

    /// The text of the token being read.
    fn current_lexeme(&self) -> (r: String)
        requires
            self.wf(),
        ensures
            r@ == self.chars@.subrange(self.start as int, self.current as int),
    {
        string_from_chars(&self.chars, self.start, self.current)
    }

    fn is_at_end(&self) -> (r: bool)
        ensures
            r == (self.current >= self.chars.len()),
    {
        self.current >= self.chars.len()
    }

    /// The next character; `'\0'` at the end.
    fn peek(&self) -> (r: char)
        ensures
            r == char_at(self.chars@, self.current as int),
    {
        if self.is_at_end() {
            '\0'
        } else {
            self.chars[self.current]
        }
    }

    /// The character after the next one; `'\0'` past the end.
    fn peek_next(&self) -> (r: char)
        requires
            self.wf(),
        ensures
            r == char_at(self.chars@, self.current + 1),
    {
        proof {
            lemma_len_le_byte_len(self.chars@);
        }
        if self.current + 1 >= self.chars.len() {
            '\0'
        } else {
            self.chars[self.current + 1]
        }
    }

    /// Reads the next character.
    fn advance(&mut self) -> (c: char)
        requires
            old(self).current < old(self).chars.len(),
        ensures
            c == old(self).chars@[old(self).current as int],
            final(self).current == old(self).current + 1,
            final(self).chars == old(self).chars,
            final(self).tokens == old(self).tokens,
            final(self).start == old(self).start,
            final(self).line == old(self).line,
    {
        let c = self.chars[self.current];
        self.current = self.current + 1;
        c
    }

    /// Reads the next character if it is `expected`.
    fn char_match(&mut self, expected: char) -> (r: bool)
        requires
            old(self).wf(),
        ensures
            final(self).wf(),
            r == (char_at(old(self).chars@, old(self).current as int) == expected && old(self).current < old(self).chars.len()),
            final(self).current == if r {
                old(self).current + 1
            } else {
                old(self).current as int
            },
            final(self).chars == old(self).chars,
            final(self).tokens == old(self).tokens,
            final(self).start == old(self).start,
            final(self).line == old(self).line,
    {
        if self.is_at_end() || self.chars[self.current] != expected {
            return false;
        }
        self.current = self.current + 1;
        true
    }
}

} // verus!
