//! The mathematical model of lexing: positions and the token sequence of a
//! character sequence, stated over character indices.
use vstd::prelude::*;
use crate::lexer::{LexErrorKind, Position, TokenKind};

verus! {

/// Number of UTF-8 bytes used to encode `c`.
pub open spec fn utf8_width(c: char) -> nat {
    let v = c as u32;
    if v <= 0x7F {
        1
    } else if v <= 0x7FF {
        2
    } else if v <= 0xFFFF {
        3
    } else {
        4
    }
}

/// Byte offset of character index `i` in the UTF-8 encoding of `chars`.
pub open spec fn byte_offset(chars: Seq<char>, i: int) -> nat
    decreases i,
{
    if i <= 0 {
        0
    } else {
        byte_offset(chars, i - 1) + utf8_width(chars[i - 1])
    }
}

/// One-based line of character index `i`.
pub open spec fn line_at(chars: Seq<char>, i: int) -> nat
    decreases i,
{
    if i <= 0 {
        1
    } else if chars[i - 1] == '\n' {
        line_at(chars, i - 1) + 1
    } else {
        line_at(chars, i - 1)
    }
}

/// One-based column of character index `i`: one more than the number of
/// characters since the last line feed before `i`.
pub open spec fn column_at(chars: Seq<char>, i: int) -> nat
    decreases i,
{
    if i <= 0 {
        1
    } else if chars[i - 1] == '\n' {
        1
    } else {
        column_at(chars, i - 1) + 1
    }
}

/// `p` is the position of character index `i` of `chars`.
pub open spec fn is_position_of(p: Position, chars: Seq<char>, i: int) -> bool {
    &&& p.byte == byte_offset(chars, i)
    &&& p.line == line_at(chars, i)
    &&& p.column == column_at(chars, i)
}

/// The Unicode `White_Space` property.
pub open spec fn is_whitespace(c: char) -> bool {
    let v = c as u32;
    ||| 0x09 <= v <= 0x0D
    ||| v == 0x20
    ||| v == 0x85
    ||| v == 0xA0
    ||| v == 0x1680
    ||| 0x2000 <= v <= 0x200A
    ||| v == 0x2028
    ||| v == 0x2029
    ||| v == 0x202F
    ||| v == 0x205F
    ||| v == 0x3000
}

pub open spec fn is_ascii_digit(c: char) -> bool {
    '0' <= c <= '9'
}

pub open spec fn is_ident_start(c: char) -> bool {
    ('a' <= c <= 'z') || ('A' <= c <= 'Z') || c == '_' || c == '$'
}

pub open spec fn is_ident_continue(c: char) -> bool {
    is_ident_start(c) || is_ascii_digit(c)
}

/// The classes of characters that the lexer consumes in runs.
#[derive(Copy, Clone)]
pub enum CharClass {
    IdentContinue,
    Digit,
    NotLineFeed,
}

pub open spec fn in_class(class: CharClass, c: char) -> bool {
    match class {
        CharClass::IdentContinue => is_ident_continue(c),
        CharClass::Digit => is_ascii_digit(c),
        CharClass::NotLineFeed => c != '\n',
    }
}

/// First index at or after `i` whose character is outside `class`.
pub open spec fn scan_while(chars: Seq<char>, i: int, class: CharClass) -> int
    decreases chars.len() - i,
{
    if i >= chars.len() {
        i
    } else if in_class(class, chars[i]) {
        scan_while(chars, i + 1, class)
    } else {
        i
    }
}

/// Index just after the `*/` that closes a block comment whose body starts at `j`.
pub open spec fn block_comment_close(chars: Seq<char>, j: int) -> Option<int>
    decreases chars.len() - j,
{
    if j >= chars.len() {
        None
    } else if chars[j] == '*' && j + 1 < chars.len() && chars[j + 1] == '/' {
        Some(j + 2)
    } else {
        block_comment_close(chars, j + 1)
    }
}

/// A lexing failure: its kind and the character range it covers.
pub struct SpecLexError {
    pub kind: LexErrorKind,
    pub start: int,
    pub end: int,
}

/// What a token denotes, with the text of identifiers and literals as characters.
pub enum Lexeme {
    Fixed(TokenKind),
    Identifier(Seq<char>),
    Number(Seq<char>),
    Str(Seq<char>),
}

pub open spec fn lexeme_of(kind: TokenKind) -> Lexeme {
    match kind {
        TokenKind::Identifier(s) => Lexeme::Identifier(s@),
        TokenKind::NumberLiteral(s) => Lexeme::Number(s@),
        TokenKind::StringLiteral(s) => Lexeme::Str(s@),
        _ => Lexeme::Fixed(kind),
    }
}

/// Index of the first character that is not whitespace or a comment, from `i` on.
pub open spec fn trivia_end(chars: Seq<char>, i: int) -> Result<int, SpecLexError>
    decreases chars.len() - i,
{
    if i < 0 || i >= chars.len() {
        Ok(i)
    } else if is_whitespace(chars[i]) {
        trivia_end(chars, i + 1)
    } else if chars[i] == '/' && i + 1 < chars.len() && chars[i + 1] == '/' {
        let e = scan_while(chars, i + 2, CharClass::NotLineFeed);
        proof {
            lemma_scan_while_bounds(chars, i + 2, CharClass::NotLineFeed);
        }
        trivia_end(chars, e)
    } else if chars[i] == '/' && i + 1 < chars.len() && chars[i + 1] == '*' {
        match block_comment_close(chars, i + 2) {
            Some(e) => {
                proof {
                    lemma_block_comment_close_bounds(chars, i + 2);
                }
                trivia_end(chars, e)
            },
            None => Err(
                SpecLexError {
                    kind: LexErrorKind::UnterminatedBlockComment,
                    start: i,
                    end: chars.len() as int,
                },
            ),
        }
    } else {
        Ok(i)
    }
}

/// The keyword spelled by `text`, if any.
pub open spec fn keyword_kind(text: Seq<char>) -> Option<TokenKind> {
    if text == "let"@ {
        Some(TokenKind::Let)
    } else if text == "const"@ {
        Some(TokenKind::Const)
    } else if text == "var"@ {
        Some(TokenKind::Var)
    } else if text == "function"@ {
        Some(TokenKind::Function)
    } else if text == "interface"@ {
        Some(TokenKind::Interface)
    } else if text == "type"@ {
        Some(TokenKind::Type)
    } else if text == "class"@ {
        Some(TokenKind::Class)
    } else if text == "import"@ {
        Some(TokenKind::Import)
    } else if text == "export"@ {
        Some(TokenKind::Export)
    } else if text == "from"@ {
        Some(TokenKind::From)
    } else if text == "if"@ {
        Some(TokenKind::If)
    } else if text == "else"@ {
        Some(TokenKind::Else)
    } else if text == "switch"@ {
        Some(TokenKind::Switch)
    } else if text == "case"@ {
        Some(TokenKind::Case)
    } else if text == "default"@ {
        Some(TokenKind::Default)
    } else if text == "for"@ {
        Some(TokenKind::For)
    } else if text == "while"@ {
        Some(TokenKind::While)
    } else if text == "do"@ {
        Some(TokenKind::Do)
    } else if text == "try"@ {
        Some(TokenKind::Try)
    } else if text == "catch"@ {
        Some(TokenKind::Catch)
    } else if text == "finally"@ {
        Some(TokenKind::Finally)
    } else if text == "throw"@ {
        Some(TokenKind::Throw)
    } else if text == "return"@ {
        Some(TokenKind::Return)
    } else if text == "new"@ {
        Some(TokenKind::New)
    } else if text == "as"@ {
        Some(TokenKind::As)
    } else if text == "extends"@ {
        Some(TokenKind::Extends)
    } else if text == "implements"@ {
        Some(TokenKind::Implements)
    } else if text == "number"@ {
        Some(TokenKind::NumberType)
    } else if text == "string"@ {
        Some(TokenKind::StringType)
    } else if text == "boolean"@ {
        Some(TokenKind::BooleanType)
    } else if text == "true"@ {
        Some(TokenKind::BooleanLiteral(true))
    } else if text == "false"@ {
        Some(TokenKind::BooleanLiteral(false))
    } else if text == "null"@ {
        Some(TokenKind::Null)
    } else if text == "undefined"@ {
        Some(TokenKind::Undefined)
    } else {
        None
    }
}

pub open spec fn word_lexeme(text: Seq<char>) -> Lexeme {
    match keyword_kind(text) {
        Some(kind) => Lexeme::Fixed(kind),
        None => Lexeme::Identifier(text),
    }
}

/// End of a number literal starting with the digit at `i`.
pub open spec fn number_end(chars: Seq<char>, i: int) -> int {
    let d1 = scan_while(chars, i + 1, CharClass::Digit);
    let d2 = if d1 + 1 < chars.len() && chars[d1] == '.' && is_ascii_digit(chars[d1 + 1]) {
        scan_while(chars, d1 + 1, CharClass::Digit)
    } else {
        d1
    };
    if d2 < chars.len() && (chars[d2] == 'e' || chars[d2] == 'E') {
        let k = if d2 + 1 < chars.len() && (chars[d2 + 1] == '+' || chars[d2 + 1] == '-') {
            d2 + 2
        } else {
            d2 + 1
        };
        if k < chars.len() && is_ascii_digit(chars[k]) {
            scan_while(chars, k, CharClass::Digit)
        } else {
            d2
        }
    } else {
        d2
    }
}

/// The character denoted by the escape `\c`.
pub open spec fn unescape(c: char) -> char {
    if c == 'n' {
        '\n'
    } else if c == 'r' {
        '\r'
    } else if c == 't' {
        '\t'
    } else {
        c
    }
}

/// Scans a string body from `j` with the value read so far in `acc`: either the
/// value and the index after the closing quote, or the index where scanning stopped.
pub open spec fn string_body(chars: Seq<char>, j: int, quote: char, acc: Seq<char>) -> Result<
    (Seq<char>, int),
    int,
>
    decreases chars.len() - j,
{
    if j < 0 || j >= chars.len() {
        Err(chars.len() as int)
    } else if chars[j] == quote {
        Ok((acc, j + 1))
    } else if chars[j] == '\n' || chars[j] == '\r' {
        Err(j)
    } else if chars[j] == '\\' {
        if j + 1 >= chars.len() {
            Err(chars.len() as int)
        } else {
            string_body(chars, j + 2, quote, acc.push(unescape(chars[j + 1])))
        }
    } else {
        string_body(chars, j + 1, quote, acc.push(chars[j]))
    }
}

pub open spec fn next_is(chars: Seq<char>, i: int, c: char) -> bool {
    0 <= i < chars.len() && chars[i] == c
}

/// An operator or punctuation token at `i`: `two` when the next character is
/// `next`, `one` otherwise.
pub open spec fn one_or_two(chars: Seq<char>, i: int, next: char, two: TokenKind, one: TokenKind) -> Result<
    (Lexeme, int),
    SpecLexError,
> {
    if next_is(chars, i + 1, next) {
        Ok((Lexeme::Fixed(two), i + 2))
    } else {
        Ok((Lexeme::Fixed(one), i + 1))
    }
}

pub open spec fn unexpected(chars: Seq<char>, i: int) -> Result<(Lexeme, int), SpecLexError> {
    Err(SpecLexError { kind: LexErrorKind::UnexpectedCharacter(chars[i]), start: i, end: i + 1 })
}

/// The operator or punctuation token starting at `i`.
pub open spec fn operator_token(chars: Seq<char>, i: int) -> Result<(Lexeme, int), SpecLexError> {
    let c = chars[i];
    if c == '+' {
        one_or_two(chars, i, '=', TokenKind::PlusEquals, TokenKind::Plus)
    } else if c == '-' {
        one_or_two(chars, i, '=', TokenKind::MinusEquals, TokenKind::Minus)
    } else if c == '*' {
        one_or_two(chars, i, '=', TokenKind::StarEquals, TokenKind::Star)
    } else if c == '/' {
        one_or_two(chars, i, '=', TokenKind::SlashEquals, TokenKind::Slash)
    } else if c == '%' {
        one_or_two(chars, i, '=', TokenKind::PercentEquals, TokenKind::Percent)
    } else if c == '=' {
        if next_is(chars, i + 1, '>') {
            Ok((Lexeme::Fixed(TokenKind::Arrow), i + 2))
        } else if next_is(chars, i + 1, '=') {
            one_or_two(chars, i + 1, '=', TokenKind::StrictEquals, TokenKind::EqualsEquals)
        } else {
            Ok((Lexeme::Fixed(TokenKind::Equals), i + 1))
        }
    } else if c == '!' {
        if next_is(chars, i + 1, '=') {
            one_or_two(chars, i + 1, '=', TokenKind::StrictBangEquals, TokenKind::BangEquals)
        } else {
            Ok((Lexeme::Fixed(TokenKind::Bang), i + 1))
        }
    } else if c == '<' {
        one_or_two(chars, i, '=', TokenKind::LessEquals, TokenKind::Less)
    } else if c == '>' {
        one_or_two(chars, i, '=', TokenKind::GreaterEquals, TokenKind::Greater)
    } else if c == '&' {
        if next_is(chars, i + 1, '&') {
            Ok((Lexeme::Fixed(TokenKind::AndAnd), i + 2))
        } else {
            unexpected(chars, i)
        }
    } else if c == '|' {
        if next_is(chars, i + 1, '|') {
            Ok((Lexeme::Fixed(TokenKind::PipePipe), i + 2))
        } else {
            unexpected(chars, i)
        }
    } else if c == '?' {
        one_or_two(chars, i, '?', TokenKind::QuestionQuestion, TokenKind::Question)
    } else if c == ':' {
        Ok((Lexeme::Fixed(TokenKind::Colon), i + 1))
    } else if c == ';' {
        Ok((Lexeme::Fixed(TokenKind::Semicolon), i + 1))
    } else if c == ',' {
        Ok((Lexeme::Fixed(TokenKind::Comma), i + 1))
    } else if c == '.' {
        Ok((Lexeme::Fixed(TokenKind::Dot), i + 1))
    } else if c == '(' {
        Ok((Lexeme::Fixed(TokenKind::LeftParen), i + 1))
    } else if c == ')' {
        Ok((Lexeme::Fixed(TokenKind::RightParen), i + 1))
    } else if c == '{' {
        Ok((Lexeme::Fixed(TokenKind::LeftBrace), i + 1))
    } else if c == '}' {
        Ok((Lexeme::Fixed(TokenKind::RightBrace), i + 1))
    } else if c == '[' {
        Ok((Lexeme::Fixed(TokenKind::LeftBracket), i + 1))
    } else if c == ']' {
        Ok((Lexeme::Fixed(TokenKind::RightBracket), i + 1))
    } else {
        unexpected(chars, i)
    }
}

/// The token that starts at index `i` (which holds no trivia): what it denotes
/// and the index just after it.
pub open spec fn scan_token(chars: Seq<char>, i: int) -> Result<(Lexeme, int), SpecLexError> {
    let c = chars[i];
    if is_ident_start(c) {
        let e = scan_while(chars, i + 1, CharClass::IdentContinue);
        Ok((word_lexeme(chars.subrange(i, e)), e))
    } else if is_ascii_digit(c) {
        let e = number_end(chars, i);
        Ok((Lexeme::Number(chars.subrange(i, e)), e))
    } else if c == '"' || c == '\'' {
        match string_body(chars, i + 1, c, Seq::empty()) {
            Ok((value, e)) => Ok((Lexeme::Str(value), e)),
            Err(e) => Err(SpecLexError { kind: LexErrorKind::UnterminatedString, start: i, end: e }),
        }
    } else {
        operator_token(chars, i)
    }
}

/// The tokens of `chars` from index `i` on, each with its start and end index,
/// or the first lexing failure.
pub open spec fn lex_from(chars: Seq<char>, i: int) -> Result<Seq<(Lexeme, int, int)>, SpecLexError>
    decreases chars.len() - i,
{
    if i < 0 || i > chars.len() {
        Ok(Seq::empty())
    } else {
        match trivia_end(chars, i) {
            Err(e) => Err(e),
            Ok(j) => {
                if j >= chars.len() {
                    Ok(Seq::empty())
                } else {
                    proof {
                        lemma_trivia_end_bounds(chars, i);
                        lemma_scan_token_bounds(chars, j);
                    }
                    match scan_token(chars, j) {
                        Err(e) => Err(e),
                        Ok((lexeme, e)) => match lex_from(chars, e) {
                            Ok(rest) => Ok(seq![(lexeme, j, e)] + rest),
                            Err(err) => Err(err),
                        },
                    }
                }
            },
        }
    }
}

/// The tokens of the whole of `chars`.
pub open spec fn lex_chars(chars: Seq<char>) -> Result<Seq<(Lexeme, int, int)>, SpecLexError> {
    lex_from(chars, 0)
}

pub proof fn lemma_scan_while_bounds(chars: Seq<char>, i: int, class: CharClass)
    requires
        0 <= i,
    ensures
        i <= scan_while(chars, i, class),
        i <= chars.len() ==> scan_while(chars, i, class) <= chars.len(),
        forall|k: int| i <= k < scan_while(chars, i, class) ==> in_class(class, #[trigger] chars[k]),
        scan_while(chars, i, class) < chars.len() ==> !in_class(
            class,
            chars[scan_while(chars, i, class)],
        ),
    decreases chars.len() - i,
{
    if i < chars.len() && in_class(class, chars[i]) {
        lemma_scan_while_bounds(chars, i + 1, class);
    }
}

pub proof fn lemma_block_comment_close_bounds(chars: Seq<char>, j: int)
    requires
        0 <= j,
    ensures
        block_comment_close(chars, j) matches Some(e) ==> j + 2 <= e <= chars.len(),
    decreases chars.len() - j,
{
    if j < chars.len() && !(chars[j] == '*' && j + 1 < chars.len() && chars[j + 1] == '/') {
        lemma_block_comment_close_bounds(chars, j + 1);
    }
}

pub proof fn lemma_trivia_end_bounds(chars: Seq<char>, i: int)
    requires
        0 <= i <= chars.len(),
    ensures
        trivia_end(chars, i) matches Ok(j) ==> i <= j <= chars.len(),
        trivia_end(chars, i) matches Err(e) ==> i <= e.start < e.end == chars.len(),
    decreases chars.len() - i,
{
    if i < chars.len() {
        if is_whitespace(chars[i]) {
            lemma_trivia_end_bounds(chars, i + 1);
        } else if chars[i] == '/' && i + 1 < chars.len() && chars[i + 1] == '/' {
            lemma_scan_while_bounds(chars, i + 2, CharClass::NotLineFeed);
            lemma_trivia_end_bounds(chars, scan_while(chars, i + 2, CharClass::NotLineFeed));
        } else if chars[i] == '/' && i + 1 < chars.len() && chars[i + 1] == '*' {
            lemma_block_comment_close_bounds(chars, i + 2);
            if let Some(e) = block_comment_close(chars, i + 2) {
                lemma_trivia_end_bounds(chars, e);
            }
        }
    }
}

pub proof fn lemma_string_body_bounds(chars: Seq<char>, j: int, quote: char, acc: Seq<char>)
    requires
        0 <= j <= chars.len(),
    ensures
        string_body(chars, j, quote, acc) matches Ok((_, e)) ==> j < e <= chars.len(),
        string_body(chars, j, quote, acc) matches Err(e) ==> j <= e <= chars.len(),
    decreases chars.len() - j,
{
    if j < chars.len() && chars[j] != quote && chars[j] != '\n' && chars[j] != '\r' {
        if chars[j] == '\\' {
            if j + 1 < chars.len() {
                lemma_string_body_bounds(chars, j + 2, quote, acc.push(unescape(chars[j + 1])));
            }
        } else {
            lemma_string_body_bounds(chars, j + 1, quote, acc.push(chars[j]));
        }
    }
}

pub proof fn lemma_number_end_bounds(chars: Seq<char>, i: int)
    requires
        0 <= i < chars.len(),
    ensures
        i < number_end(chars, i) <= chars.len(),
{
    let d1 = scan_while(chars, i + 1, CharClass::Digit);
    lemma_scan_while_bounds(chars, i + 1, CharClass::Digit);
    if d1 + 1 < chars.len() && chars[d1] == '.' && is_ascii_digit(chars[d1 + 1]) {
        lemma_scan_while_bounds(chars, d1 + 1, CharClass::Digit);
    }
    let d2 = if d1 + 1 < chars.len() && chars[d1] == '.' && is_ascii_digit(chars[d1 + 1]) {
        scan_while(chars, d1 + 1, CharClass::Digit)
    } else {
        d1
    };
    if d2 < chars.len() && (chars[d2] == 'e' || chars[d2] == 'E') {
        let k = if d2 + 1 < chars.len() && (chars[d2 + 1] == '+' || chars[d2 + 1] == '-') {
            d2 + 2
        } else {
            d2 + 1
        };
        if k < chars.len() && is_ascii_digit(chars[k]) {
            lemma_scan_while_bounds(chars, k, CharClass::Digit);
        }
    }
}

pub proof fn lemma_scan_token_bounds(chars: Seq<char>, i: int)
    requires
        0 <= i < chars.len(),
    ensures
        scan_token(chars, i) matches Ok((_, e)) ==> i < e <= chars.len(),
        scan_token(chars, i) matches Err(err) ==> i <= err.start < err.end <= chars.len(),
{
    let c = chars[i];
    if is_ident_start(c) {
        lemma_scan_while_bounds(chars, i + 1, CharClass::IdentContinue);
    } else if is_ascii_digit(c) {
        lemma_number_end_bounds(chars, i);
    } else if c == '"' || c == '\'' {
        lemma_string_body_bounds(chars, i + 1, c, Seq::empty());
    }
}

} // verus!
