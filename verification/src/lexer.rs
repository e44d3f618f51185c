//! Tokens, source positions, and the lexer for TypeScript source text.
use vstd::prelude::*;
use crate::lexer_spec::{block_comment_close, byte_offset, column_at, in_class, is_ascii_digit, is_position_of, is_whitespace, lemma_block_comment_close_bounds, lemma_scan_while_bounds, lemma_string_body_bounds, lemma_scan_token_bounds, lemma_trivia_end_bounds, lex_chars, lex_from, lexeme_of, line_at, number_end, scan_token, scan_while, string_body, trivia_end, unescape, utf8_width, word_lexeme, CharClass, Lexeme, SpecLexError};
use crate::text::{chars_of, copy_range, decimal, push_decimal, push_str, range_equals, string_from_chars};

verus! {

#[derive(Debug, Clone, PartialEq, Eq)]
pub struct Token {
    pub kind: TokenKind,
    pub span: Span,
}

#[derive(Debug, Clone, PartialEq, Eq)]
pub enum TokenKind {
    Identifier(String),
    NumberLiteral(String),
    StringLiteral(String),
    BooleanLiteral(bool),
    Let,
    Const,
    Var,
    Function,
    Interface,
    Type,
    Class,
    Import,
    Export,
    From,
    If,
    Else,
    Switch,
    Case,
    Default,
    For,
    While,
    Do,
    Try,
    Catch,
    Finally,
    Throw,
    Return,
    New,
    As,
    Extends,
    Implements,
    NumberType,
    StringType,
    BooleanType,
    Null,
    Undefined,
    Plus,
    Minus,
    Star,
    Slash,
    Percent,
    Equals,
    PlusEquals,
    MinusEquals,
    StarEquals,
    SlashEquals,
    PercentEquals,
    EqualsEquals,
    StrictEquals,
    BangEquals,
    StrictBangEquals,
    Bang,
    Less,
    LessEquals,
    Greater,
    GreaterEquals,
    AndAnd,
    PipePipe,
    QuestionQuestion,
    Arrow,
    Colon,
    Semicolon,
    Comma,
    Dot,
    Question,
    LeftParen,
    RightParen,
    LeftBrace,
    RightBrace,
    LeftBracket,
    RightBracket,
}

#[derive(Debug, Copy, Clone, PartialEq, Eq, Structural)]
pub struct Span {
    pub start: Position,
    pub end: Position,
}

#[derive(Debug, Copy, Clone, PartialEq, Eq, Structural)]
pub struct Position {
    pub byte: usize,
    pub line: usize,
    pub column: usize,
}

#[derive(Debug, Clone, PartialEq, Eq)]
pub struct LexError {
    pub kind: LexErrorKind,
    pub span: Span,
}

#[derive(Debug, Clone, PartialEq, Eq)]
pub enum LexErrorKind {
    UnexpectedCharacter(char),
    UnterminatedString,
    UnterminatedBlockComment,
}

/// The variant of a token kind, as a number (payloads ignored).
pub open spec fn kind_index(k: TokenKind) -> u8 {
    match k {
        TokenKind::Identifier(..) => 0,
        TokenKind::NumberLiteral(..) => 1,
        TokenKind::StringLiteral(..) => 2,
        TokenKind::BooleanLiteral(..) => 3,
        TokenKind::Let => 4,
        TokenKind::Const => 5,
        TokenKind::Var => 6,
        TokenKind::Function => 7,
        TokenKind::Interface => 8,
        TokenKind::Type => 9,
        TokenKind::Class => 10,
        TokenKind::Import => 11,
        TokenKind::Export => 12,
        TokenKind::From => 13,
        TokenKind::If => 14,
        TokenKind::Else => 15,
        TokenKind::Switch => 16,
        TokenKind::Case => 17,
        TokenKind::Default => 18,
        TokenKind::For => 19,
        TokenKind::While => 20,
        TokenKind::Do => 21,
        TokenKind::Try => 22,
        TokenKind::Catch => 23,
        TokenKind::Finally => 24,
        TokenKind::Throw => 25,
        TokenKind::Return => 26,
        TokenKind::New => 27,
        TokenKind::As => 28,
        TokenKind::Extends => 29,
        TokenKind::Implements => 30,
        TokenKind::NumberType => 31,
        TokenKind::StringType => 32,
        TokenKind::BooleanType => 33,
        TokenKind::Null => 34,
        TokenKind::Undefined => 35,
        TokenKind::Plus => 36,
        TokenKind::Minus => 37,
        TokenKind::Star => 38,
        TokenKind::Slash => 39,
        TokenKind::Percent => 40,
        TokenKind::Equals => 41,
        TokenKind::PlusEquals => 42,
        TokenKind::MinusEquals => 43,
        TokenKind::StarEquals => 44,
        TokenKind::SlashEquals => 45,
        TokenKind::PercentEquals => 46,
        TokenKind::EqualsEquals => 47,
        TokenKind::StrictEquals => 48,
        TokenKind::BangEquals => 49,
        TokenKind::StrictBangEquals => 50,
        TokenKind::Bang => 51,
        TokenKind::Less => 52,
        TokenKind::LessEquals => 53,
        TokenKind::Greater => 54,
        TokenKind::GreaterEquals => 55,
        TokenKind::AndAnd => 56,
        TokenKind::PipePipe => 57,
        TokenKind::QuestionQuestion => 58,
        TokenKind::Arrow => 59,
        TokenKind::Colon => 60,
        TokenKind::Semicolon => 61,
        TokenKind::Comma => 62,
        TokenKind::Dot => 63,
        TokenKind::Question => 64,
        TokenKind::LeftParen => 65,
        TokenKind::RightParen => 66,
        TokenKind::LeftBrace => 67,
        TokenKind::RightBrace => 68,
        TokenKind::LeftBracket => 69,
        TokenKind::RightBracket => 70,
    }
}

pub fn kind_index_of(k: &TokenKind) -> (i: u8)
    ensures
        i == kind_index(*k),
{
    match k {
        TokenKind::Identifier(..) => 0,
        TokenKind::NumberLiteral(..) => 1,
        TokenKind::StringLiteral(..) => 2,
        TokenKind::BooleanLiteral(..) => 3,
        TokenKind::Let => 4,
        TokenKind::Const => 5,
        TokenKind::Var => 6,
        TokenKind::Function => 7,
        TokenKind::Interface => 8,
        TokenKind::Type => 9,
        TokenKind::Class => 10,
        TokenKind::Import => 11,
        TokenKind::Export => 12,
        TokenKind::From => 13,
        TokenKind::If => 14,
        TokenKind::Else => 15,
        TokenKind::Switch => 16,
        TokenKind::Case => 17,
        TokenKind::Default => 18,
        TokenKind::For => 19,
        TokenKind::While => 20,
        TokenKind::Do => 21,
        TokenKind::Try => 22,
        TokenKind::Catch => 23,
        TokenKind::Finally => 24,
        TokenKind::Throw => 25,
        TokenKind::Return => 26,
        TokenKind::New => 27,
        TokenKind::As => 28,
        TokenKind::Extends => 29,
        TokenKind::Implements => 30,
        TokenKind::NumberType => 31,
        TokenKind::StringType => 32,
        TokenKind::BooleanType => 33,
        TokenKind::Null => 34,
        TokenKind::Undefined => 35,
        TokenKind::Plus => 36,
        TokenKind::Minus => 37,
        TokenKind::Star => 38,
        TokenKind::Slash => 39,
        TokenKind::Percent => 40,
        TokenKind::Equals => 41,
        TokenKind::PlusEquals => 42,
        TokenKind::MinusEquals => 43,
        TokenKind::StarEquals => 44,
        TokenKind::SlashEquals => 45,
        TokenKind::PercentEquals => 46,
        TokenKind::EqualsEquals => 47,
        TokenKind::StrictEquals => 48,
        TokenKind::BangEquals => 49,
        TokenKind::StrictBangEquals => 50,
        TokenKind::Bang => 51,
        TokenKind::Less => 52,
        TokenKind::LessEquals => 53,
        TokenKind::Greater => 54,
        TokenKind::GreaterEquals => 55,
        TokenKind::AndAnd => 56,
        TokenKind::PipePipe => 57,
        TokenKind::QuestionQuestion => 58,
        TokenKind::Arrow => 59,
        TokenKind::Colon => 60,
        TokenKind::Semicolon => 61,
        TokenKind::Comma => 62,
        TokenKind::Dot => 63,
        TokenKind::Question => 64,
        TokenKind::LeftParen => 65,
        TokenKind::RightParen => 66,
        TokenKind::LeftBrace => 67,
        TokenKind::RightBrace => 68,
        TokenKind::LeftBracket => 69,
        TokenKind::RightBracket => 70,
    }
}

/// A copy of `k`.
pub fn copy_kind(k: &TokenKind) -> (c: TokenKind)
    ensures
        c == *k,
{
    match k {
        TokenKind::Identifier(s) => TokenKind::Identifier(s.clone()),
        TokenKind::NumberLiteral(s) => TokenKind::NumberLiteral(s.clone()),
        TokenKind::StringLiteral(s) => TokenKind::StringLiteral(s.clone()),
        TokenKind::BooleanLiteral(b) => TokenKind::BooleanLiteral(*b),
        TokenKind::Let => TokenKind::Let,
        TokenKind::Const => TokenKind::Const,
        TokenKind::Var => TokenKind::Var,
        TokenKind::Function => TokenKind::Function,
        TokenKind::Interface => TokenKind::Interface,
        TokenKind::Type => TokenKind::Type,
        TokenKind::Class => TokenKind::Class,
        TokenKind::Import => TokenKind::Import,
        TokenKind::Export => TokenKind::Export,
        TokenKind::From => TokenKind::From,
        TokenKind::If => TokenKind::If,
        TokenKind::Else => TokenKind::Else,
        TokenKind::Switch => TokenKind::Switch,
        TokenKind::Case => TokenKind::Case,
        TokenKind::Default => TokenKind::Default,
        TokenKind::For => TokenKind::For,
        TokenKind::While => TokenKind::While,
        TokenKind::Do => TokenKind::Do,
        TokenKind::Try => TokenKind::Try,
        TokenKind::Catch => TokenKind::Catch,
        TokenKind::Finally => TokenKind::Finally,
        TokenKind::Throw => TokenKind::Throw,
        TokenKind::Return => TokenKind::Return,
        TokenKind::New => TokenKind::New,
        TokenKind::As => TokenKind::As,
        TokenKind::Extends => TokenKind::Extends,
        TokenKind::Implements => TokenKind::Implements,
        TokenKind::NumberType => TokenKind::NumberType,
        TokenKind::StringType => TokenKind::StringType,
        TokenKind::BooleanType => TokenKind::BooleanType,
        TokenKind::Null => TokenKind::Null,
        TokenKind::Undefined => TokenKind::Undefined,
        TokenKind::Plus => TokenKind::Plus,
        TokenKind::Minus => TokenKind::Minus,
        TokenKind::Star => TokenKind::Star,
        TokenKind::Slash => TokenKind::Slash,
        TokenKind::Percent => TokenKind::Percent,
        TokenKind::Equals => TokenKind::Equals,
        TokenKind::PlusEquals => TokenKind::PlusEquals,
        TokenKind::MinusEquals => TokenKind::MinusEquals,
        TokenKind::StarEquals => TokenKind::StarEquals,
        TokenKind::SlashEquals => TokenKind::SlashEquals,
        TokenKind::PercentEquals => TokenKind::PercentEquals,
        TokenKind::EqualsEquals => TokenKind::EqualsEquals,
        TokenKind::StrictEquals => TokenKind::StrictEquals,
        TokenKind::BangEquals => TokenKind::BangEquals,
        TokenKind::StrictBangEquals => TokenKind::StrictBangEquals,
        TokenKind::Bang => TokenKind::Bang,
        TokenKind::Less => TokenKind::Less,
        TokenKind::LessEquals => TokenKind::LessEquals,
        TokenKind::Greater => TokenKind::Greater,
        TokenKind::GreaterEquals => TokenKind::GreaterEquals,
        TokenKind::AndAnd => TokenKind::AndAnd,
        TokenKind::PipePipe => TokenKind::PipePipe,
        TokenKind::QuestionQuestion => TokenKind::QuestionQuestion,
        TokenKind::Arrow => TokenKind::Arrow,
        TokenKind::Colon => TokenKind::Colon,
        TokenKind::Semicolon => TokenKind::Semicolon,
        TokenKind::Comma => TokenKind::Comma,
        TokenKind::Dot => TokenKind::Dot,
        TokenKind::Question => TokenKind::Question,
        TokenKind::LeftParen => TokenKind::LeftParen,
        TokenKind::RightParen => TokenKind::RightParen,
        TokenKind::LeftBrace => TokenKind::LeftBrace,
        TokenKind::RightBrace => TokenKind::RightBrace,
        TokenKind::LeftBracket => TokenKind::LeftBracket,
        TokenKind::RightBracket => TokenKind::RightBracket,
    }
}

/// A copy of `t`.
pub fn copy_token(t: &Token) -> (c: Token)
    ensures
        c == *t,
{
    Token { kind: copy_kind(&t.kind), span: t.span }
}

/// The name of the variant of `k`, as `{:?}` prints it before any payload.
pub open spec fn kind_name_text(k: TokenKind) -> Seq<char> {
    match k {
        TokenKind::Identifier(..) => "Identifier"@,
        TokenKind::NumberLiteral(..) => "NumberLiteral"@,
        TokenKind::StringLiteral(..) => "StringLiteral"@,
        TokenKind::BooleanLiteral(..) => "BooleanLiteral"@,
        TokenKind::Let => "Let"@,
        TokenKind::Const => "Const"@,
        TokenKind::Var => "Var"@,
        TokenKind::Function => "Function"@,
        TokenKind::Interface => "Interface"@,
        TokenKind::Type => "Type"@,
        TokenKind::Class => "Class"@,
        TokenKind::Import => "Import"@,
        TokenKind::Export => "Export"@,
        TokenKind::From => "From"@,
        TokenKind::If => "If"@,
        TokenKind::Else => "Else"@,
        TokenKind::Switch => "Switch"@,
        TokenKind::Case => "Case"@,
        TokenKind::Default => "Default"@,
        TokenKind::For => "For"@,
        TokenKind::While => "While"@,
        TokenKind::Do => "Do"@,
        TokenKind::Try => "Try"@,
        TokenKind::Catch => "Catch"@,
        TokenKind::Finally => "Finally"@,
        TokenKind::Throw => "Throw"@,
        TokenKind::Return => "Return"@,
        TokenKind::New => "New"@,
        TokenKind::As => "As"@,
        TokenKind::Extends => "Extends"@,
        TokenKind::Implements => "Implements"@,
        TokenKind::NumberType => "NumberType"@,
        TokenKind::StringType => "StringType"@,
        TokenKind::BooleanType => "BooleanType"@,
        TokenKind::Null => "Null"@,
        TokenKind::Undefined => "Undefined"@,
        TokenKind::Plus => "Plus"@,
        TokenKind::Minus => "Minus"@,
        TokenKind::Star => "Star"@,
        TokenKind::Slash => "Slash"@,
        TokenKind::Percent => "Percent"@,
        TokenKind::Equals => "Equals"@,
        TokenKind::PlusEquals => "PlusEquals"@,
        TokenKind::MinusEquals => "MinusEquals"@,
        TokenKind::StarEquals => "StarEquals"@,
        TokenKind::SlashEquals => "SlashEquals"@,
        TokenKind::PercentEquals => "PercentEquals"@,
        TokenKind::EqualsEquals => "EqualsEquals"@,
        TokenKind::StrictEquals => "StrictEquals"@,
        TokenKind::BangEquals => "BangEquals"@,
        TokenKind::StrictBangEquals => "StrictBangEquals"@,
        TokenKind::Bang => "Bang"@,
        TokenKind::Less => "Less"@,
        TokenKind::LessEquals => "LessEquals"@,
        TokenKind::Greater => "Greater"@,
        TokenKind::GreaterEquals => "GreaterEquals"@,
        TokenKind::AndAnd => "AndAnd"@,
        TokenKind::PipePipe => "PipePipe"@,
        TokenKind::QuestionQuestion => "QuestionQuestion"@,
        TokenKind::Arrow => "Arrow"@,
        TokenKind::Colon => "Colon"@,
        TokenKind::Semicolon => "Semicolon"@,
        TokenKind::Comma => "Comma"@,
        TokenKind::Dot => "Dot"@,
        TokenKind::Question => "Question"@,
        TokenKind::LeftParen => "LeftParen"@,
        TokenKind::RightParen => "RightParen"@,
        TokenKind::LeftBrace => "LeftBrace"@,
        TokenKind::RightBrace => "RightBrace"@,
        TokenKind::LeftBracket => "LeftBracket"@,
        TokenKind::RightBracket => "RightBracket"@,
    }
}

/// The name of the variant of `k`.
pub fn kind_name(k: &TokenKind) -> (name: &'static str)
    ensures
        name@ == kind_name_text(*k),
{
    match k {
        TokenKind::Identifier(..) => "Identifier",
        TokenKind::NumberLiteral(..) => "NumberLiteral",
        TokenKind::StringLiteral(..) => "StringLiteral",
        TokenKind::BooleanLiteral(..) => "BooleanLiteral",
        TokenKind::Let => "Let",
        TokenKind::Const => "Const",
        TokenKind::Var => "Var",
        TokenKind::Function => "Function",
        TokenKind::Interface => "Interface",
        TokenKind::Type => "Type",
        TokenKind::Class => "Class",
        TokenKind::Import => "Import",
        TokenKind::Export => "Export",
        TokenKind::From => "From",
        TokenKind::If => "If",
        TokenKind::Else => "Else",
        TokenKind::Switch => "Switch",
        TokenKind::Case => "Case",
        TokenKind::Default => "Default",
        TokenKind::For => "For",
        TokenKind::While => "While",
        TokenKind::Do => "Do",
        TokenKind::Try => "Try",
        TokenKind::Catch => "Catch",
        TokenKind::Finally => "Finally",
        TokenKind::Throw => "Throw",
        TokenKind::Return => "Return",
        TokenKind::New => "New",
        TokenKind::As => "As",
        TokenKind::Extends => "Extends",
        TokenKind::Implements => "Implements",
        TokenKind::NumberType => "NumberType",
        TokenKind::StringType => "StringType",
        TokenKind::BooleanType => "BooleanType",
        TokenKind::Null => "Null",
        TokenKind::Undefined => "Undefined",
        TokenKind::Plus => "Plus",
        TokenKind::Minus => "Minus",
        TokenKind::Star => "Star",
        TokenKind::Slash => "Slash",
        TokenKind::Percent => "Percent",
        TokenKind::Equals => "Equals",
        TokenKind::PlusEquals => "PlusEquals",
        TokenKind::MinusEquals => "MinusEquals",
        TokenKind::StarEquals => "StarEquals",
        TokenKind::SlashEquals => "SlashEquals",
        TokenKind::PercentEquals => "PercentEquals",
        TokenKind::EqualsEquals => "EqualsEquals",
        TokenKind::StrictEquals => "StrictEquals",
        TokenKind::BangEquals => "BangEquals",
        TokenKind::StrictBangEquals => "StrictBangEquals",
        TokenKind::Bang => "Bang",
        TokenKind::Less => "Less",
        TokenKind::LessEquals => "LessEquals",
        TokenKind::Greater => "Greater",
        TokenKind::GreaterEquals => "GreaterEquals",
        TokenKind::AndAnd => "AndAnd",
        TokenKind::PipePipe => "PipePipe",
        TokenKind::QuestionQuestion => "QuestionQuestion",
        TokenKind::Arrow => "Arrow",
        TokenKind::Colon => "Colon",
        TokenKind::Semicolon => "Semicolon",
        TokenKind::Comma => "Comma",
        TokenKind::Dot => "Dot",
        TokenKind::Question => "Question",
        TokenKind::LeftParen => "LeftParen",
        TokenKind::RightParen => "RightParen",
        TokenKind::LeftBrace => "LeftBrace",
        TokenKind::RightBrace => "RightBrace",
        TokenKind::LeftBracket => "LeftBracket",
        TokenKind::RightBracket => "RightBracket",
    }
}

/// The text that describes a lexing failure, with the line and column where it starts.
pub open spec fn lex_error_text(err: LexError) -> Seq<char> {
    let place = decimal(err.span.start.line as nat) + ":"@ + decimal(err.span.start.column as nat);
    match err.kind {
        LexErrorKind::UnexpectedCharacter(ch) => "unexpected character `"@ + seq![ch] + "` at "@ + place,
        LexErrorKind::UnterminatedString => "unterminated string at "@ + place,
        LexErrorKind::UnterminatedBlockComment => "unterminated block comment at "@ + place,
    }
}

impl LexError {
    /// The description of the failure, as `unterminated string at 3:7`.
    pub fn message(&self) -> (text: String)
        ensures
            text@ == lex_error_text(*self),
    {
        let mut out: Vec<char> = Vec::new();
        match self.kind {
            LexErrorKind::UnexpectedCharacter(ch) => {
                push_str(&mut out, "unexpected character `");
                out.push(ch);
                push_str(&mut out, "` at ");
            },
            LexErrorKind::UnterminatedString => push_str(&mut out, "unterminated string at "),
            LexErrorKind::UnterminatedBlockComment => push_str(&mut out, "unterminated block comment at "),
        }
        push_decimal(&mut out, self.span.start.line);
        push_str(&mut out, ":");
        push_decimal(&mut out, self.span.start.column);
        let ghost expected = lex_error_text(*self);
        assert(out@ =~= expected);
        string_from_chars(out)
    }
}

/// `token` is the lexed form of `expected`: same meaning, spanning its character range.
pub open spec fn token_matches(token: Token, chars: Seq<char>, expected: (Lexeme, int, int)) -> bool {
    &&& lexeme_of(token.kind) == expected.0
    &&& is_position_of(token.span.start, chars, expected.1)
    &&& is_position_of(token.span.end, chars, expected.2)
}

pub open spec fn tokens_match(tokens: Seq<Token>, chars: Seq<char>, expected: Seq<(Lexeme, int, int)>) -> bool {
    &&& tokens.len() == expected.len()
    &&& forall|k: int| 0 <= k < tokens.len() ==> token_matches(#[trigger] tokens[k], chars, expected[k])
}

/// `err` reports the failure `expected`: same kind, spanning its character range.
pub open spec fn error_matches(err: LexError, chars: Seq<char>, expected: SpecLexError) -> bool {
    &&& err.kind == expected.kind
    &&& is_position_of(err.span.start, chars, expected.start)
    &&& is_position_of(err.span.end, chars, expected.end)
}

/// `res` is what lexing the whole of `chars` gives.
pub open spec fn lex_result_matches(res: Result<Vec<Token>, LexError>, chars: Seq<char>) -> bool {
    match lex_chars(chars) {
        Ok(expected) => res matches Ok(tokens) && tokens_match(tokens@, chars, expected),
        Err(expected) => res matches Err(err) && error_matches(err, chars, expected),
    }
}

/// Splits `source` into tokens, skipping whitespace and comments.
///
/// Every token carries its byte offset, line and column; the first
/// unexpected character, unterminated string or unterminated block comment
/// ends lexing with an error that spans the offending text.
pub fn lex(source: &str) -> (res: Result<Vec<Token>, LexError>)
    ensures
        source@.len() < usize::MAX ==> lex_result_matches(res, source@),
{
    let chars = chars_of(source);
    let bytes = source.as_bytes();
    let n = bytes.len();
    proof {
        lemma_byte_offset_is_encoded_length(source@, source@.len() as int);
        assert(source@.take(source@.len() as int) =~= source@);
        assert(bytes@.len() == n);
    }
    if chars.len() == usize::MAX {
        let origin = Position { byte: 0, line: 1, column: 1 };
        return Err(
            LexError { kind: LexErrorKind::UnterminatedString, span: Span { start: origin, end: origin } },
        );
    }
    let mut lexer = Lexer { chars, cursor: 0, byte: 0, line: 1, column: 1 };
    Lexer::lex_all(&mut lexer)
}

struct Lexer {
    chars: Vec<char>,
    cursor: usize,
    byte: usize,
    line: usize,
    column: usize,
}

/// Width in bytes of the UTF-8 encoding of `c`.
pub fn char_width(c: char) -> (w: usize)
    ensures
        w == utf8_width(c),
{
    let v = c as u32;
    if v <= 0x7F {
        1
    } else if v <= 0x7FF {
        2
    } else if v <= 0xFFFF {
        3
    } else {
        4
    }
}

pub fn char_is_whitespace(c: char) -> (b: bool)
    ensures
        b == is_whitespace(c),
{
    let v = c as u32;
    (0x09 <= v && v <= 0x0D) || v == 0x20 || v == 0x85 || v == 0xA0 || v == 0x1680 || (0x2000 <= v
        && v <= 0x200A) || v == 0x2028 || v == 0x2029 || v == 0x202F || v == 0x205F || v == 0x3000
}

fn char_in_class(class: CharClass, c: char) -> (b: bool)
    ensures
        b == in_class(class, c),
{
    match class {
        CharClass::IdentContinue => ('a' <= c && c <= 'z') || ('A' <= c && c <= 'Z') || c == '_'
            || c == '$' || ('0' <= c && c <= '9'),
        CharClass::Digit => '0' <= c && c <= '9',
        CharClass::NotLineFeed => c != '\n',
    }
}

proof fn lemma_scalar_width(c: char)
    ensures
        vstd::utf8::encode_scalar(c as u32).len() == utf8_width(c),
{
    broadcast use vstd::utf8::char_is_scalar;

    assert(vstd::utf8::is_scalar(c as u32));
}

proof fn lemma_encode_push(s: Seq<char>, c: char)
    ensures
        vstd::utf8::encode_utf8(s.push(c)).len() == vstd::utf8::encode_utf8(s).len() + utf8_width(c),
    decreases s.len(),
{
    lemma_scalar_width(c);
    let t = s.push(c);
    assert(vstd::utf8::encode_utf8(t) == vstd::utf8::encode_scalar(t[0] as u32) + vstd::utf8::encode_utf8(
        t.drop_first(),
    ));
    if s.len() == 0 {
        assert(t.drop_first() =~= Seq::<char>::empty());
        assert(vstd::utf8::encode_utf8(Seq::<char>::empty()).len() == 0);
    } else {
        assert(t.drop_first() =~= s.drop_first().push(c));
        lemma_scalar_width(s[0]);
        lemma_encode_push(s.drop_first(), c);
        assert(vstd::utf8::encode_utf8(s) == vstd::utf8::encode_scalar(s[0] as u32) + vstd::utf8::encode_utf8(
            s.drop_first(),
        ));
    }
}

pub proof fn lemma_byte_offset_is_encoded_length(s: Seq<char>, i: int)
    requires
        0 <= i <= s.len(),
    ensures
        byte_offset(s, i) == vstd::utf8::encode_utf8(s.take(i)).len(),
    decreases i,
{
    if i > 0 {
        lemma_byte_offset_is_encoded_length(s, i - 1);
        assert(s.take(i) =~= s.take(i - 1).push(s[i - 1]));
        lemma_encode_push(s.take(i - 1), s[i - 1]);
    }
}

pub proof fn lemma_position_bounds(s: Seq<char>, i: int, j: int)
    requires
        0 <= j,
    ensures
        0 <= i <= j ==> byte_offset(s, i) <= byte_offset(s, j),
        0 <= i < j ==> byte_offset(s, i) < byte_offset(s, j),
        line_at(s, j) <= j + 1,
        column_at(s, j) <= j + 1,
    decreases j,
{
    if j > 0 {
        lemma_position_bounds(s, i, j - 1);
    }
}

/// Characters that stand for themselves inside a string quoted with `q`.
pub open spec fn plain_in_string(s: Seq<char>, q: char) -> bool {
    forall|k: int| 0 <= k < s.len() ==> {
        let c = #[trigger] s[k];
        c != q && c != '\\' && c != '\n' && c != '\r'
    }
}

proof fn lemma_string_body_plain(chars: Seq<char>, j: int, n: int, q: char, acc: Seq<char>)
    requires
        0 <= j,
        0 <= n,
        j + n <= chars.len(),
        plain_in_string(chars.subrange(j, j + n), q),
    ensures
        string_body(chars, j, q, acc) == string_body(chars, j + n, q, acc + chars.subrange(j, j + n)),
    decreases n,
{
    if n == 0 {
        assert(acc + chars.subrange(j, j) =~= acc);
    } else {
        assert(chars.subrange(j, j + n)[0] == chars[j]);
        assert(plain_in_string(chars.subrange(j + 1, j + n), q)) by {
            assert forall|k: int| 0 <= k < n - 1 implies #[trigger] chars.subrange(j + 1, j + n)[k]
                == chars.subrange(j, j + n)[k + 1] by {}
        }
        lemma_string_body_plain(chars, j + 1, n - 1, q, acc.push(chars[j]));
        assert(acc.push(chars[j]) + chars.subrange(j + 1, j + n) =~= acc + chars.subrange(j, j + n));
    }
}

/// A string literal, quoted with `"` or `'`, whose body is plain text, one escape of a
/// backslash and `e`, and plain text again, lexes to a single string token
/// whose value has the plain text unchanged and, in place of the escape, a
/// line feed for `n`, a carriage return for `r`, a tab for `t`, and `e`
/// itself for any other character.
pub proof fn law_string_escape(q: char, pre: Seq<char>, e: char, post: Seq<char>, res: Result<Vec<Token>, LexError>)
    requires
        q == '"' || q == '\'',
        plain_in_string(pre, q),
        plain_in_string(post, q),
        lex_result_matches(res, seq![q] + pre + seq!['\\', e] + post + seq![q]),
    ensures
        res is Ok,
        res->Ok_0@.len() == 1,
        res->Ok_0@[0].kind is StringLiteral,
        res->Ok_0@[0].kind->StringLiteral_0@ == pre + seq![
            if e == 'n' {
                '\n'
            } else if e == 'r' {
                '\r'
            } else if e == 't' {
                '\t'
            } else {
                e
            },
        ] + post,
{
    let src = seq![q] + pre + seq!['\\', e] + post + seq![q];
    let a = pre.len() as int;
    let b = post.len() as int;
    let n = src.len() as int;
    assert(n == a + b + 4);
    assert(src[0] == q);
    assert(!is_whitespace(q));
    assert(trivia_end(src, 0) == Ok::<int, SpecLexError>(0));
    assert(src.subrange(1, 1 + a) =~= pre);
    lemma_string_body_plain(src, 1, a, q, Seq::empty());
    assert(src[1 + a] == '\\');
    assert(src[2 + a] == e);
    let x = if e == 'n' {
        '\n'
    } else if e == 'r' {
        '\r'
    } else if e == 't' {
        '\t'
    } else {
        e
    };
    assert(unescape(e) == x);
    assert(Seq::<char>::empty() + pre =~= pre);
    assert(string_body(src, 1 + a, q, pre) == string_body(src, 3 + a, q, pre.push(x)));
    assert(src.subrange(3 + a, 3 + a + b) =~= post);
    lemma_string_body_plain(src, 3 + a, b, q, pre.push(x));
    assert(src[3 + a + b] == q);
    let value = pre.push(x) + post;
    assert(string_body(src, 3 + a + b, q, value) == Ok::<(Seq<char>, int), int>((value, n)));
    assert(scan_token(src, 0) == Ok::<(Lexeme, int), SpecLexError>((Lexeme::Str(value), n)));
    assert(lex_from(src, n) == Ok::<Seq<(Lexeme, int, int)>, SpecLexError>(Seq::empty()));
    assert(seq![(Lexeme::Str(value), 0int, n)] + Seq::<(Lexeme, int, int)>::empty() =~= seq![(Lexeme::Str(value), 0int, n)]);
    lemma_lex_from_step(src, 0);
    assert(lex_chars(src) == Ok::<Seq<(Lexeme, int, int)>, SpecLexError>(seq![(Lexeme::Str(value), 0int, n)]));
    let tokens = res->Ok_0;
    assert(token_matches(tokens@[0], src, (Lexeme::Str(value), 0int, n)));
    assert(value =~= pre + seq![x] + post);
}

/// A string literal that a line break interrupts, or that the input ends
/// inside, does not lex: the error is an unterminated string.
pub proof fn law_string_must_close_on_its_line(
    q: char,
    pre: Seq<char>,
    tail: Seq<char>,
    res: Result<Vec<Token>, LexError>,
)
    requires
        q == '"' || q == '\'',
        plain_in_string(pre, q),
        tail.len() == 0 || tail[0] == '\n' || tail[0] == '\r',
        lex_result_matches(res, seq![q] + pre + tail),
    ensures
        res is Err,
        res->Err_0.kind == LexErrorKind::UnterminatedString,
{
    let src = seq![q] + pre + tail;
    let a = pre.len() as int;
    assert(src[0] == q);
    assert(!is_whitespace(q));
    assert(trivia_end(src, 0) == Ok::<int, SpecLexError>(0));
    assert(src.subrange(1, 1 + a) =~= pre);
    lemma_string_body_plain(src, 1, a, q, Seq::empty());
    assert(string_body(src, 1 + a, q, Seq::empty() + pre) is Err);
    assert(scan_token(src, 0) is Err);
    assert(scan_token(src, 0)->Err_0.kind == LexErrorKind::UnterminatedString);
    lemma_lex_from_step(src, 0);
}

/// The tokens lexed from index `i` on lie in order between `i` and the
/// end, each non-empty, and there are no more of them than characters.
proof fn lemma_lex_from_order(chars: Seq<char>, i: int)
    requires
        0 <= i <= chars.len(),
    ensures
        lex_from(chars, i) matches Ok(ts) ==> {
            &&& ts.len() <= chars.len() - i
            &&& forall|k: int| 0 <= k < ts.len() ==> i <= (#[trigger] ts[k]).1 < ts[k].2 <= chars.len()
            &&& forall|k: int| 0 <= k < ts.len() - 1 ==> (#[trigger] ts[k]).2 <= ts[k + 1].1
        },
    decreases chars.len() - i,
{
    lemma_trivia_end_bounds(chars, i);
    if let Ok(j) = trivia_end(chars, i) {
        if j < chars.len() {
            lemma_scan_token_bounds(chars, j);
            if let Ok((lexeme, e)) = scan_token(chars, j) {
                lemma_lex_from_order(chars, e);
                if let Ok(rest) = lex_from(chars, e) {
                    let ts = seq![(lexeme, j, e)] + rest;
                    assert(lex_from(chars, i) == Ok::<Seq<(Lexeme, int, int)>, SpecLexError>(ts));
                    assert forall|k: int| 0 <= k < ts.len() implies i <= (#[trigger] ts[k]).1 < ts[k].2 <= chars.len() by {
                        if k > 0 {
                            assert(ts[k] == rest[k - 1]);
                        }
                    }
                    assert forall|k: int| 0 <= k < ts.len() - 1 implies (#[trigger] ts[k]).2 <= ts[k + 1].1 by {
                        assert(ts[k + 1] == rest[k]);
                        if k > 0 {
                            assert(ts[k] == rest[k - 1]);
                        }
                    }
                }
            }
        }
    }
}

/// The tokens of a source come in order: each spans at least one byte, ends
/// no later than the next one starts and no later than the source's end,
/// and there are no more tokens than characters.
pub proof fn law_lex_tokens_in_order(source: Seq<char>, tokens: Seq<Token>)
    requires
        lex_chars(source) is Ok,
        tokens_match(tokens, source, lex_chars(source)->Ok_0),
    ensures
        tokens.len() <= source.len(),
        forall|k: int|
            0 <= k < tokens.len() ==> (#[trigger] tokens[k]).span.start.byte < tokens[k].span.end.byte <= byte_offset(
                source,
                source.len() as int,
            ),
        forall|k: int| 0 <= k < tokens.len() - 1 ==> (#[trigger] tokens[k]).span.end.byte <= tokens[k + 1].span.start.byte,
{
    let ts = lex_chars(source)->Ok_0;
    lemma_lex_from_order(source, 0);
    assert forall|k: int| 0 <= k < tokens.len() implies (#[trigger] tokens[k]).span.start.byte < tokens[k].span.end.byte
        <= byte_offset(source, source.len() as int) by {
        assert(token_matches(tokens[k], source, ts[k]));
        lemma_position_bounds(source, ts[k].1, ts[k].2);
        lemma_position_bounds(source, ts[k].2, source.len() as int);
    }
    assert forall|k: int| 0 <= k < tokens.len() - 1 implies (#[trigger] tokens[k]).span.end.byte
        <= tokens[k + 1].span.start.byte by {
        assert(token_matches(tokens[k], source, ts[k]));
        assert(token_matches(tokens[k + 1], source, ts[k + 1]));
        assert(ts[k].2 <= ts[k + 1].1);
        lemma_position_bounds(source, ts[k].2, ts[k + 1].1);
    }
}

proof fn lemma_lex_from_step(chars: Seq<char>, i: int)
    requires
        0 <= i <= chars.len(),
    ensures
        lex_from(chars, i) == (match trivia_end(chars, i) {
            Err(e) => Err(e),
            Ok(j) => {
                if j >= chars.len() {
                    Ok(Seq::empty())
                } else {
                    match scan_token(chars, j) {
                        Err(e) => Err(e),
                        Ok((lexeme, e)) => match lex_from(chars, e) {
                            Ok(rest) => Ok(seq![(lexeme, j, e)] + rest),
                            Err(err) => Err(err),
                        },
                    }
                }
            },
        }),
{
}

impl Lexer {
    spec fn wf(&self) -> bool {
        &&& self.chars.len() < usize::MAX
        &&& byte_offset(self.chars@, self.chars.len() as int) <= usize::MAX
        &&& self.cursor <= self.chars.len()
        &&& self.byte == byte_offset(self.chars@, self.cursor as int)
        &&& self.line == line_at(self.chars@, self.cursor as int)
        &&& self.column == column_at(self.chars@, self.cursor as int)
    }

    fn position(&self) -> (p: Position)
        requires
            self.wf(),
        ensures
            is_position_of(p, self.chars@, self.cursor as int),
    {
        Position { byte: self.byte, line: self.line, column: self.column }
    }

    fn is_at_end(&self) -> (b: bool)
        requires
            self.wf(),
        ensures
            b == (self.cursor >= self.chars.len()),
    {
        self.cursor >= self.chars.len()
    }

    fn peek(&self) -> (c: Option<char>)
        requires
            self.wf(),
        ensures
            c == (if self.cursor < self.chars.len() {
                Some(self.chars@[self.cursor as int])
            } else {
                None
            }),
    {
        if self.cursor < self.chars.len() {
            Some(self.chars[self.cursor])
        } else {
            None
        }
    }

    fn peek_next(&self) -> (c: Option<char>)
        requires
            self.wf(),
        ensures
            c == (if self.cursor + 1 < self.chars.len() {
                Some(self.chars@[self.cursor + 1])
            } else {
                None
            }),
    {
        if self.cursor + 1 < self.chars.len() {
            Some(self.chars[self.cursor + 1])
        } else {
            None
        }
    }

    fn advance(&mut self) -> (c: Option<char>)
        requires
            old(self).wf(),
        ensures
            final(self).wf(),
            final(self).chars == old(self).chars,
            old(self).cursor < old(self).chars.len() ==> c == Some(old(self).chars@[old(self).cursor as int])
                && final(self).cursor == old(self).cursor + 1,
            old(self).cursor >= old(self).chars.len() ==> c is None && final(self).cursor == old(self).cursor,
    {
        if self.cursor >= self.chars.len() {
            return None;
        }
        let ch = self.chars[self.cursor];
        proof {
            lemma_position_bounds(self.chars@, self.cursor + 1, self.chars.len() as int);
            lemma_position_bounds(self.chars@, self.cursor + 1, self.cursor + 1);
        }
        self.byte = self.byte + char_width(ch);
        self.cursor = self.cursor + 1;
        if ch == '\n' {
            self.line = self.line + 1;
            self.column = 1;
        } else {
            self.column = self.column + 1;
        }
        Some(ch)
    }

    fn match_char(&mut self, expected: char) -> (matched: bool)
        requires
            old(self).wf(),
        ensures
            final(self).wf(),
            final(self).chars == old(self).chars,
            matched == (old(self).cursor < old(self).chars.len() && old(self).chars@[old(self).cursor as int]
                == expected),
            final(self).cursor == (if matched {
                old(self).cursor + 1
            } else {
                old(self).cursor as int
            }),
    {
        if self.peek() == Some(expected) {
            self.advance();
            true
        } else {
            false
        }
    }

    fn consume_while(&mut self, class: CharClass)
        requires
            old(self).wf(),
        ensures
            final(self).wf(),
            final(self).chars == old(self).chars,
            final(self).cursor == scan_while(old(self).chars@, old(self).cursor as int, class),
    {
        let ghost start = self.cursor as int;
        while self.cursor < self.chars.len() && char_in_class(class, self.chars[self.cursor])
            invariant
                self.wf(),
                self.chars == old(self).chars,
                start <= self.cursor,
                scan_while(self.chars@, self.cursor as int, class) == scan_while(self.chars@, start, class),
            decreases self.chars.len() - self.cursor,
        {
            self.advance();
        }
    }

    fn skip_block_comment(&mut self) -> (res: Result<(), LexError>)
        requires
            old(self).wf(),
            old(self).cursor + 1 < old(self).chars.len(),
            old(self).chars@[old(self).cursor as int] == '/',
            old(self).chars@[old(self).cursor + 1] == '*',
        ensures
            final(self).wf(),
            final(self).chars == old(self).chars,
            match block_comment_close(old(self).chars@, old(self).cursor + 2) {
                Some(e) => res is Ok && final(self).cursor == e,
                None => res matches Err(err) && error_matches(
                    err,
                    old(self).chars@,
                    SpecLexError {
                        kind: LexErrorKind::UnterminatedBlockComment,
                        start: old(self).cursor as int,
                        end: old(self).chars.len() as int,
                    },
                ),
            },
    {
        let start = self.position();
        self.advance();
        self.advance();
        while self.cursor < self.chars.len()
            invariant
                self.wf(),
                self.chars == old(self).chars,
                old(self).cursor + 2 <= self.cursor,
                is_position_of(start, self.chars@, old(self).cursor as int),
                block_comment_close(self.chars@, self.cursor as int) == block_comment_close(
                    self.chars@,
                    old(self).cursor + 2,
                ),
            decreases self.chars.len() - self.cursor,
        {
            let ch = self.chars[self.cursor];
            if ch == '*' && self.peek_next() == Some('/') {
                self.advance();
                self.advance();
                return Ok(());
            }
            self.advance();
        }
        Err(
            LexError {
                kind: LexErrorKind::UnterminatedBlockComment,
                span: Span { start, end: self.position() },
            },
        )
    }

    fn skip_trivia(&mut self) -> (res: Result<(), LexError>)
        requires
            old(self).wf(),
        ensures
            final(self).wf(),
            final(self).chars == old(self).chars,
            match trivia_end(old(self).chars@, old(self).cursor as int) {
                Ok(j) => res is Ok && final(self).cursor == j,
                Err(e) => res matches Err(err) && error_matches(err, old(self).chars@, e),
            },
    {
        loop
            invariant
                self.wf(),
                self.chars == old(self).chars,
                old(self).cursor <= self.cursor,
                trivia_end(self.chars@, self.cursor as int) == trivia_end(
                    self.chars@,
                    old(self).cursor as int,
                ),
            decreases self.chars.len() - self.cursor,
        {
            match self.peek() {
                Some(ch) => {
                    if char_is_whitespace(ch) {
                        self.advance();
                    } else if ch == '/' && self.peek_next() == Some('/') {
                        self.advance();
                        self.advance();
                        proof {
                            lemma_scan_while_bounds(
                                self.chars@,
                                self.cursor as int,
                                CharClass::NotLineFeed,
                            );
                        }
                        self.consume_while(CharClass::NotLineFeed);
                    } else if ch == '/' && self.peek_next() == Some('*') {
                        proof {
                            lemma_block_comment_close_bounds(self.chars@, self.cursor + 2);
                        }
                        match self.skip_block_comment() {
                            Ok(()) => {},
                            Err(err) => {
                                return Err(err);
                            },
                        }
                    } else {
                        return Ok(());
                    }
                },
                None => {
                    return Ok(());
                },
            }
        }
    }

    fn keyword_or_identifier(chars: &Vec<char>, start: usize, end: usize) -> (kind: TokenKind)
        requires
            start <= end <= chars.len(),
        ensures
            lexeme_of(kind) == word_lexeme(chars@.subrange(start as int, end as int)),
    {
        if range_equals(chars, start, end, "let") {
            TokenKind::Let
        } else if range_equals(chars, start, end, "const") {
            TokenKind::Const
        } else if range_equals(chars, start, end, "var") {
            TokenKind::Var
        } else if range_equals(chars, start, end, "function") {
            TokenKind::Function
        } else if range_equals(chars, start, end, "interface") {
            TokenKind::Interface
        } else if range_equals(chars, start, end, "type") {
            TokenKind::Type
        } else if range_equals(chars, start, end, "class") {
            TokenKind::Class
        } else if range_equals(chars, start, end, "import") {
            TokenKind::Import
        } else if range_equals(chars, start, end, "export") {
            TokenKind::Export
        } else if range_equals(chars, start, end, "from") {
            TokenKind::From
        } else if range_equals(chars, start, end, "if") {
            TokenKind::If
        } else if range_equals(chars, start, end, "else") {
            TokenKind::Else
        } else if range_equals(chars, start, end, "switch") {
            TokenKind::Switch
        } else if range_equals(chars, start, end, "case") {
            TokenKind::Case
        } else if range_equals(chars, start, end, "default") {
            TokenKind::Default
        } else if range_equals(chars, start, end, "for") {
            TokenKind::For
        } else if range_equals(chars, start, end, "while") {
            TokenKind::While
        } else if range_equals(chars, start, end, "do") {
            TokenKind::Do
        } else if range_equals(chars, start, end, "try") {
            TokenKind::Try
        } else if range_equals(chars, start, end, "catch") {
            TokenKind::Catch
        } else if range_equals(chars, start, end, "finally") {
            TokenKind::Finally
        } else if range_equals(chars, start, end, "throw") {
            TokenKind::Throw
        } else if range_equals(chars, start, end, "return") {
            TokenKind::Return
        } else if range_equals(chars, start, end, "new") {
            TokenKind::New
        } else if range_equals(chars, start, end, "as") {
            TokenKind::As
        } else if range_equals(chars, start, end, "extends") {
            TokenKind::Extends
        } else if range_equals(chars, start, end, "implements") {
            TokenKind::Implements
        } else if range_equals(chars, start, end, "number") {
            TokenKind::NumberType
        } else if range_equals(chars, start, end, "string") {
            TokenKind::StringType
        } else if range_equals(chars, start, end, "boolean") {
            TokenKind::BooleanType
        } else if range_equals(chars, start, end, "true") {
            TokenKind::BooleanLiteral(true)
        } else if range_equals(chars, start, end, "false") {
            TokenKind::BooleanLiteral(false)
        } else if range_equals(chars, start, end, "null") {
            TokenKind::Null
        } else if range_equals(chars, start, end, "undefined") {
            TokenKind::Undefined
        } else {
            TokenKind::Identifier(string_from_chars(copy_range(chars, start, end)))
        }
    }

    fn number_literal(&mut self, start: usize) -> (kind: TokenKind)
        requires
            old(self).wf(),
            start < old(self).chars.len(),
            old(self).cursor == start + 1,
            is_ascii_digit(old(self).chars@[start as int]),
        ensures
            final(self).wf(),
            final(self).chars == old(self).chars,
            final(self).cursor == number_end(old(self).chars@, start as int),
            lexeme_of(kind) == Lexeme::Number(old(self).chars@.subrange(start as int, final(self).cursor as int)),
    {
        proof {
            lemma_scan_while_bounds(self.chars@, start + 1, CharClass::Digit);
        }
        self.consume_while(CharClass::Digit);
        if self.peek() == Some('.') && self.cursor + 1 < self.chars.len() && '0' <= self.chars[self.cursor + 1]
            && self.chars[self.cursor + 1] <= '9' {
            self.advance();
            proof {
                lemma_scan_while_bounds(self.chars@, self.cursor as int, CharClass::Digit);
            }
            self.consume_while(CharClass::Digit);
        }
        if self.peek() == Some('e') || self.peek() == Some('E') {
            let exponent_start = self.cursor;
            let exponent_byte = self.byte;
            let exponent_line = self.line;
            let exponent_column = self.column;
            self.advance();
            if self.peek() == Some('+') || self.peek() == Some('-') {
                self.advance();
            }
            if self.cursor < self.chars.len() && '0' <= self.chars[self.cursor] && self.chars[self.cursor]
                <= '9' {
                proof {
                    lemma_scan_while_bounds(self.chars@, self.cursor as int, CharClass::Digit);
                }
                self.consume_while(CharClass::Digit);
            } else {
                self.cursor = exponent_start;
                self.byte = exponent_byte;
                self.line = exponent_line;
                self.column = exponent_column;
            }
        }
        let text = copy_range(&self.chars, start, self.cursor);
        TokenKind::NumberLiteral(string_from_chars(text))
    }

    fn string_literal(&mut self, start: Position, quote: char) -> (res: Result<TokenKind, LexError>)
        requires
            old(self).wf(),
            old(self).cursor >= 1,
            is_position_of(start, old(self).chars@, old(self).cursor - 1),
        ensures
            final(self).wf(),
            final(self).chars == old(self).chars,
            match string_body(old(self).chars@, old(self).cursor as int, quote, Seq::empty()) {
                Ok((value, e)) => res matches Ok(kind) && lexeme_of(kind) == Lexeme::Str(value)
                    && final(self).cursor == e,
                Err(e) => res matches Err(err) && error_matches(
                    err,
                    old(self).chars@,
                    SpecLexError {
                        kind: LexErrorKind::UnterminatedString,
                        start: old(self).cursor - 1,
                        end: e,
                    },
                ),
            },
    {
        let mut value: Vec<char> = Vec::new();
        while self.cursor < self.chars.len()
            invariant
                self.wf(),
                self.chars == old(self).chars,
                old(self).cursor <= self.cursor,
                is_position_of(start, self.chars@, old(self).cursor - 1),
                string_body(self.chars@, self.cursor as int, quote, value@) == string_body(
                    self.chars@,
                    old(self).cursor as int,
                    quote,
                    Seq::empty(),
                ),
            decreases self.chars.len() - self.cursor,
        {
            let ch = self.chars[self.cursor];
            if ch == quote {
                self.advance();
                return Ok(TokenKind::StringLiteral(string_from_chars(value)));
            }
            if ch == '\n' || ch == '\r' {
                return Err(
                    LexError {
                        kind: LexErrorKind::UnterminatedString,
                        span: Span { start, end: self.position() },
                    },
                );
            }
            if ch == '\\' {
                self.advance();
                if self.cursor >= self.chars.len() {
                    continue ;
                }
                let escaped = self.chars[self.cursor];
                self.advance();
                let unescaped = if escaped == 'n' {
                    '\n'
                } else if escaped == 'r' {
                    '\r'
                } else if escaped == 't' {
                    '\t'
                } else {
                    escaped
                };
                value.push(unescaped);
                continue ;
            }
            value.push(ch);
            self.advance();
        }
        Err(
            LexError {
                kind: LexErrorKind::UnterminatedString,
                span: Span { start, end: self.position() },
            },
        )
    }

    fn next_token(&mut self) -> (res: Result<Token, LexError>)
        requires
            old(self).wf(),
            old(self).cursor < old(self).chars.len(),
        ensures
            final(self).wf(),
            final(self).chars == old(self).chars,
            match scan_token(old(self).chars@, old(self).cursor as int) {
                Ok((lexeme, e)) => res matches Ok(token) && final(self).cursor == e && token_matches(
                    token,
                    old(self).chars@,
                    (lexeme, old(self).cursor as int, e),
                ),
                Err(e) => res matches Err(err) && error_matches(err, old(self).chars@, e),
            },
    {
        let start = self.position();
        let start_index = self.cursor;
        let ch = match self.advance() {
            Some(ch) => ch,
            None => {
                return Err(
                    LexError {
                        kind: LexErrorKind::UnterminatedString,
                        span: Span { start, end: start },
                    },
                );
            },
        };
        let kind = if ('a' <= ch && ch <= 'z') || ('A' <= ch && ch <= 'Z') || ch == '_' || ch == '$' {
            self.consume_while(CharClass::IdentContinue);
            proof {
                lemma_scan_while_bounds(self.chars@, start_index + 1, CharClass::IdentContinue);
            }
            Self::keyword_or_identifier(&self.chars, start_index, self.cursor)
        } else if '0' <= ch && ch <= '9' {
            self.number_literal(start_index)
        } else if ch == '"' || ch == '\'' {
            proof {
                lemma_string_body_bounds(self.chars@, start_index + 1, ch, Seq::empty());
            }
            match self.string_literal(start, ch) {
                Ok(kind) => kind,
                Err(err) => {
                    return Err(err);
                },
            }
        } else if ch == '+' {
            if self.match_char('=') {
                TokenKind::PlusEquals
            } else {
                TokenKind::Plus
            }
        } else if ch == '-' {
            if self.match_char('=') {
                TokenKind::MinusEquals
            } else {
                TokenKind::Minus
            }
        } else if ch == '*' {
            if self.match_char('=') {
                TokenKind::StarEquals
            } else {
                TokenKind::Star
            }
        } else if ch == '/' {
            if self.match_char('=') {
                TokenKind::SlashEquals
            } else {
                TokenKind::Slash
            }
        } else if ch == '%' {
            if self.match_char('=') {
                TokenKind::PercentEquals
            } else {
                TokenKind::Percent
            }
        } else if ch == '=' {
            if self.match_char('>') {
                TokenKind::Arrow
            } else if self.match_char('=') {
                if self.match_char('=') {
                    TokenKind::StrictEquals
                } else {
                    TokenKind::EqualsEquals
                }
            } else {
                TokenKind::Equals
            }
        } else if ch == '!' {
            if self.match_char('=') {
                if self.match_char('=') {
                    TokenKind::StrictBangEquals
                } else {
                    TokenKind::BangEquals
                }
            } else {
                TokenKind::Bang
            }
        } else if ch == '<' {
            if self.match_char('=') {
                TokenKind::LessEquals
            } else {
                TokenKind::Less
            }
        } else if ch == '>' {
            if self.match_char('=') {
                TokenKind::GreaterEquals
            } else {
                TokenKind::Greater
            }
        } else if ch == '&' && self.match_char('&') {
            TokenKind::AndAnd
        } else if ch == '|' && self.match_char('|') {
            TokenKind::PipePipe
        } else if ch == '?' {
            if self.match_char('?') {
                TokenKind::QuestionQuestion
            } else {
                TokenKind::Question
            }
        } else if ch == ':' {
            TokenKind::Colon
        } else if ch == ';' {
            TokenKind::Semicolon
        } else if ch == ',' {
            TokenKind::Comma
        } else if ch == '.' {
            TokenKind::Dot
        } else if ch == '(' {
            TokenKind::LeftParen
        } else if ch == ')' {
            TokenKind::RightParen
        } else if ch == '{' {
            TokenKind::LeftBrace
        } else if ch == '}' {
            TokenKind::RightBrace
        } else if ch == '[' {
            TokenKind::LeftBracket
        } else if ch == ']' {
            TokenKind::RightBracket
        } else {
            return Err(
                LexError {
                    kind: LexErrorKind::UnexpectedCharacter(ch),
                    span: Span { start, end: self.position() },
                },
            );
        };
        Ok(Token { kind, span: Span { start, end: self.position() } })
    }

    fn lex_all(lexer: &mut Lexer) -> (res: Result<Vec<Token>, LexError>)
        requires
            old(lexer).wf(),
            old(lexer).cursor == 0,
        ensures
            lex_result_matches(res, old(lexer).chars@),
    {
        let mut tokens: Vec<Token> = Vec::new();
        let ghost chars = lexer.chars@;
        let ghost done: Seq<(Lexeme, int, int)> = Seq::empty();
        while !lexer.is_at_end()
            invariant
                lexer.wf(),
                lexer.chars@ == chars,
                chars == old(lexer).chars@,
                tokens_match(tokens@, chars, done),
                lex_chars(chars) == (match lex_from(chars, lexer.cursor as int) {
                    Ok(rest) => Ok(done + rest),
                    Err(e) => Err(e),
                }),
            ensures
                lexer.cursor >= lexer.chars.len(),
            decreases lexer.chars.len() - lexer.cursor,
        {
            let ghost before = lexer.cursor as int;
            proof {
                lemma_trivia_end_bounds(chars, before);
            }
            proof {
                lemma_lex_from_step(chars, before);
            }
            match lexer.skip_trivia() {
                Ok(()) => {},
                Err(err) => {
                    return Err(err);
                },
            }
            if lexer.is_at_end() {
                proof {
                    lemma_lex_from_step(chars, lexer.cursor as int);
                }
                break ;
            }
            proof {
                crate::lexer_spec::lemma_scan_token_bounds(chars, lexer.cursor as int);
            }
            let ghost j = lexer.cursor as int;
            let token = match lexer.next_token() {
                Ok(token) => token,
                Err(err) => {
                    return Err(err);
                },
            };
            proof {
                let (lexeme, e) = scan_token(chars, j)->Ok_0;
                let item = (lexeme, j, e);
                match lex_from(chars, e) {
                    Ok(rest) => {
                        assert(done.push(item) + rest =~= done + (seq![item] + rest));
                    },
                    Err(_) => {},
                }
                done = done.push(item);
            }
            tokens.push(token);
        }
        proof {
            lemma_lex_from_step(chars, lexer.cursor as int);
            assert(done + Seq::<(Lexeme, int, int)>::empty() =~= done);
        }
        Ok(tokens)
    }
}

} // verus!
