//! A recursive-descent parser from tokens to the syntax tree, with error
//! recovery: every problem becomes a diagnostic and parsing goes on.
use vstd::prelude::*;
use crate::ast::{
    AssignmentOperator, BinaryOperator, ClassDeclaration, ClassMember, Expression, ExpressionKind,
    ForStatement, FunctionDeclaration, IfStatement, ImportDeclaration, InterfaceDeclaration,
    ObjectProperty, Parameter, Position, Program, Span, Statement, StatementKind,
    TypeAliasDeclaration, TypeKind, TypeMember, TypeNode, UnaryOperator, VariableDeclaration,
    VariableKind, WhileStatement,
};
use crate::lexer::{
    copy_token, kind_index, kind_index_of, kind_name, lex, lex_error_text, lex_result_matches, tokens_match, LexError, Token,
    TokenKind,
};
use crate::lexer_spec::{is_position_of, lex_chars};
use crate::text::{concat, debug_quoted, decimal, push_decimal, push_str, string_from_chars};
use crate::parser_spec::{
    adv, assignment_op_m, binary_op_m, cur_start, debug_kind_text, error_expression_m, error_type_m, ex_m,
    expect_any_m, expect_m, fallback_m, ident_m, match_m, prev_end, prop_name_m, report, report_here, sees,
    semicolon_m, skip_member_m, ty_m, members_m, type_m, array_suffix_m, type_members_after_brace_m,
    type_member_list_m, expression_m, assignment_m, binary_m, binary_rest_m, unary_m,
    call_member_m, suffixes_m, arguments_m, primary_m, object_m, properties_m, array_m, elements_m, exs_m,
    props_m, type_members_m, statement_m, import_m, import_names_m, export_m, interface_m, type_alias_m,
    class_m, class_members_m, function_m, parameters_m, parameter_list_m, variable_m, return_m, throw_m, if_m,
    while_m, for_m, block_statement_m, finish_block_m, block_list_m, expression_statement_m,
    expression_statement_bare_m, program_list_m, body_span_m, parse_m, st_m, stmts_v, program_v, texts_v,
    class_members_v, params_v, opt_ty_m, opt_ex_m, StKindM, ExKindM, ExM, TyKindM, PS,
};

verus! {

#[derive(Debug, PartialEq)]
pub struct ParseOutput {
    pub program: Program,
    pub diagnostics: Vec<ParseDiagnostic>,
}

#[derive(Debug, Clone, PartialEq, Eq)]
pub struct ParseDiagnostic {
    pub message: String,
    pub span: Span,
}

impl ParseDiagnostic {
    /// The diagnostic as a line of text: the message, then where it starts.
    pub fn describe(&self) -> (text: String)
        ensures
            text@ == self.message@ + " at "@ + decimal(self.span.start.line as nat) + ":"@ + decimal(
                self.span.start.column as nat,
            ),
    {
        let mut out: Vec<char> = Vec::new();
        push_str(&mut out, self.message.as_str());
        push_str(&mut out, " at ");
        push_decimal(&mut out, self.span.start.line);
        push_str(&mut out, ":");
        push_decimal(&mut out, self.span.start.column);
        string_from_chars(out)
    }
}

/// The diagnostic that stands for a lexing failure.
pub fn diagnostic_from_lex_error(err: LexError) -> (d: ParseDiagnostic)
    ensures
        d.message@ == lex_error_text(err),
        d.span == err.span,
{
    ParseDiagnostic { message: err.message(), span: err.span }
}

/// `{:?}` of a token kind, as in `Identifier("x")` or `Semicolon`.
fn debug_kind(kind: &TokenKind) -> (text: String)
    ensures
        text@ == debug_kind_text(*kind),
{
    let name = kind_name(kind);
    match kind {
        TokenKind::Identifier(s) | TokenKind::NumberLiteral(s) | TokenKind::StringLiteral(s) => {
            let mut out: Vec<char> = Vec::new();
            push_str(&mut out, name);
            push_str(&mut out, "(");
            let quoted = debug_quoted(s.as_str());
            push_str(&mut out, quoted.as_str());
            push_str(&mut out, ")");
            string_from_chars(out)
        },
        TokenKind::BooleanLiteral(b) => {
            let mut out: Vec<char> = Vec::new();
            push_str(&mut out, name);
            let suffix = if *b {
                "(true)"
            } else {
                "(false)"
            };
            push_str(&mut out, suffix);
            string_from_chars(out)
        },
        _ => name.to_owned(),
    }
}

fn error_name() -> (s: String)
    ensures
        s@ == "<error>"@,
{
    "<error>".to_owned()
}

fn start_position() -> (p: Position)
    ensures
        p.byte == 0 && p.line == 1 && p.column == 1,
{
    Position { byte: 0, line: 1, column: 1 }
}

struct Parser {
    tokens: Vec<Token>,
    cursor: usize,
    diagnostics: Vec<ParseDiagnostic>,
}

/// The text of an optional string.
pub open spec fn opt_text(o: Option<String>) -> Option<Seq<char>> {
    match o {
        Some(s) => Some(s@),
        None => None,
    }
}

impl Parser {
    /// Where the parser reads and what it has reported.
    spec fn ps(&self) -> PS {
        PS {
            pos: self.cursor as nat,
            diags: diags_v(self.diagnostics@),
        }
    }

    spec fn wf(&self) -> bool {
        self.cursor <= self.tokens@.len()
    }

    /// `self` continues `before`: the same tokens, read no less far.
    spec fn continues(&self, before: &Parser) -> bool {
        &&& self.tokens == before.tokens
        &&& before.cursor <= self.cursor <= self.tokens@.len()
    }

    /// `self` continues `before` and has read at least one more token, if any was left.
    spec fn progresses(&self, before: &Parser) -> bool {
        &&& self.continues(before)
        &&& before.cursor < before.tokens@.len() ==> before.cursor < self.cursor
    }

    spec fn at_end(&self) -> bool {
        self.cursor >= self.tokens@.len()
    }

    /// Whether the current token is of the kind `k` (payloads ignored).
    spec fn sees(&self, k: u8) -> bool {
        self.cursor < self.tokens@.len() && kind_index(self.tokens@[self.cursor as int].kind) == k
    }

    fn is_at_end(&self) -> (b: bool)
        ensures
            b == self.at_end(),
    {
        self.cursor >= self.tokens.len()
    }

    fn check(&self, expected: &TokenKind) -> (b: bool)
        ensures
            b == self.sees(kind_index(*expected)),
            b == sees(self.tokens@, self.ps(), *expected),
    {
        if self.cursor < self.tokens.len() {
            kind_index_of(&self.tokens[self.cursor].kind) == kind_index_of(expected)
        } else {
            false
        }
    }

    fn advance(&mut self) -> (t: Option<Token>)
        requires
            old(self).wf(),
        ensures
            final(self).diagnostics == old(self).diagnostics,
            final(self).tokens == old(self).tokens,
            final(self).wf(),
            match t {
                Some(tok) => {
                    &&& old(self).cursor < old(self).tokens@.len()
                    &&& tok == old(self).tokens@[old(self).cursor as int]
                    &&& final(self).cursor == old(self).cursor + 1
                },
                None => old(self).at_end() && final(self).cursor == old(self).cursor,
            },
            final(self).ps() == adv(old(self).tokens@, old(self).ps()),
    {
        if self.cursor < self.tokens.len() {
            let t = copy_token(&self.tokens[self.cursor]);
            self.cursor = self.cursor + 1;
            Some(t)
        } else {
            None
        }
    }

    fn match_kind(&mut self, expected: &TokenKind) -> (b: bool)
        requires
            old(self).wf(),
        ensures
            final(self).diagnostics == old(self).diagnostics,
            final(self).tokens == old(self).tokens,
            final(self).wf(),
            b == old(self).sees(kind_index(*expected)),
            final(self).cursor == old(self).cursor + if b { 1int } else { 0int },
            (b, final(self).ps()) == match_m(old(self).tokens@, old(self).ps(), *expected),
    {
        if self.check(expected) {
            self.advance();
            true
        } else {
            false
        }
    }

    fn fallback_position(&self) -> (p: Position)
        ensures
            p == fallback_m(self.tokens@),
    {
        if self.tokens.len() > 0 {
            self.tokens[self.tokens.len() - 1].span.end
        } else {
            start_position()
        }
    }

    fn current_start(&self) -> (p: Position)
        ensures
            p == cur_start(self.tokens@, self.ps()),
    {
        if self.cursor < self.tokens.len() {
            self.tokens[self.cursor].span.start
        } else {
            self.fallback_position()
        }
    }

    fn previous_end(&self, fallback: Position) -> (p: Position)
        ensures
            p == prev_end(self.tokens@, self.ps(), fallback),
    {
        if self.cursor >= 1 && self.cursor - 1 < self.tokens.len() {
            self.tokens[self.cursor - 1].span.end
        } else {
            fallback
        }
    }

    fn error_at(&mut self, span: Span, message: String)
        ensures
            final(self).tokens == old(self).tokens,
            final(self).cursor == old(self).cursor,
            final(self).diagnostics@ == old(self).diagnostics@.push(ParseDiagnostic { message, span }),
            final(self).ps() == report(old(self).ps(), message@, span),
    {
        self.diagnostics.push(ParseDiagnostic { message, span });
        assert(self.ps().diags =~= old(self).ps().diags.push((message@, span)));
    }

    fn error_here(&mut self, message: String)
        ensures
            final(self).tokens == old(self).tokens,
            final(self).cursor == old(self).cursor,
            final(self).diagnostics@.len() == old(self).diagnostics@.len() + 1,
            final(self).ps() == report_here(old(self).tokens@, old(self).ps(), message@),
    {
        let position = self.current_start();
        self.error_at(Span { start: position, end: position }, message);
    }

    /// Reads a token of the kind `expected`, or reports that `label` is missing.
    fn expect(&mut self, expected: &TokenKind, label: &str) -> (found: bool)
        requires
            old(self).wf(),
        ensures
            final(self).tokens == old(self).tokens,
            final(self).wf(),
            found == old(self).sees(kind_index(*expected)),
            final(self).cursor == old(self).cursor + if found { 1int } else { 0int },
            (found, final(self).ps()) == expect_m(old(self).tokens@, old(self).ps(), *expected, label@),
    {
        if self.check(expected) {
            self.advance();
            true
        } else {
            self.error_here(concat("expected ", label));
            false
        }
    }

    /// Reads any token; at the end, reports that `label` is missing and
    /// stands in a semicolon at the end of the input.
    fn expect_any(&mut self, label: &str) -> (t: Token)
        requires
            old(self).wf(),
        ensures
            final(self).tokens == old(self).tokens,
            final(self).wf(),
            final(self).cursor == if old(self).at_end() {
                old(self).cursor as int
            } else {
                old(self).cursor + 1
            },
            !old(self).at_end() ==> t == old(self).tokens@[old(self).cursor as int],
            (t, final(self).ps()) == expect_any_m(old(self).tokens@, old(self).ps(), label@),
    {
        match self.advance() {
            Some(t) => t,
            None => {
                let position = self.fallback_position();
                let span = Span { start: position, end: position };
                self.error_at(span, concat("expected ", label));
                Token { kind: TokenKind::Semicolon, span }
            },
        }
    }

    /// Reads an identifier; any other token is read and reported.
    fn consume_identifier(&mut self, label: &str) -> (name: Option<String>)
        requires
            old(self).wf(),
        ensures
            final(self).tokens == old(self).tokens,
            final(self).wf(),
            final(self).cursor == if old(self).at_end() {
                old(self).cursor as int
            } else {
                old(self).cursor + 1
            },
            name matches Some(n) ==> old(self).tokens@[old(self).cursor as int].kind == TokenKind::Identifier(n),
            (opt_text(name), final(self).ps()) == ident_m(old(self).tokens@, old(self).ps(), label@),
    {
        match self.advance() {
            Some(token) => match token.kind {
                TokenKind::Identifier(name) => Some(name),
                _ => {
                    self.error_at(token.span, concat("expected ", label));
                    None
                },
            },
            None => {
                self.error_here(concat("expected ", label));
                None
            },
        }
    }

    /// Reads a property name: an identifier, a string or a number.
    fn consume_property_name(&mut self, label: &str) -> (name: Option<String>)
        requires
            old(self).wf(),
        ensures
            final(self).tokens == old(self).tokens,
            final(self).wf(),
            final(self).cursor == if old(self).at_end() {
                old(self).cursor as int
            } else {
                old(self).cursor + 1
            },
            (opt_text(name), final(self).ps()) == prop_name_m(old(self).tokens@, old(self).ps(), label@),
    {
        match self.advance() {
            Some(token) => match token.kind {
                TokenKind::Identifier(name) => Some(name),
                TokenKind::StringLiteral(name) => Some(name),
                TokenKind::NumberLiteral(name) => Some(name),
                _ => {
                    self.error_at(token.span, concat("expected ", label));
                    None
                },
            },
            None => {
                self.error_here(concat("expected ", label));
                None
            },
        }
    }

    fn consume_optional_semicolon(&mut self) -> (end: Option<Position>)
        requires
            old(self).wf(),
        ensures
            final(self).tokens == old(self).tokens,
            final(self).wf(),
            old(self).cursor <= final(self).cursor <= old(self).cursor + 1,
            (end, final(self).ps()) == semicolon_m(old(self).tokens@, old(self).ps()),
    {
        if self.match_kind(&TokenKind::Semicolon) {
            let fallback = self.fallback_position();
            Some(self.previous_end(fallback))
        } else {
            None
        }
    }

    fn binary_operator(&self) -> (op: Option<(BinaryOperator, u8)>)
        ensures
            op matches Some(o) ==> 1 <= o.1 <= 6 && !self.at_end(),
            op == binary_op_m(self.tokens@, self.ps()),
    {
        if self.cursor >= self.tokens.len() {
            return None;
        }
        match self.tokens[self.cursor].kind {
            TokenKind::PipePipe => Some((BinaryOperator::LogicalOr, 1)),
            TokenKind::QuestionQuestion => Some((BinaryOperator::NullishCoalesce, 1)),
            TokenKind::AndAnd => Some((BinaryOperator::LogicalAnd, 2)),
            TokenKind::EqualsEquals => Some((BinaryOperator::Equal, 3)),
            TokenKind::StrictEquals => Some((BinaryOperator::StrictEqual, 3)),
            TokenKind::BangEquals => Some((BinaryOperator::NotEqual, 3)),
            TokenKind::StrictBangEquals => Some((BinaryOperator::StrictNotEqual, 3)),
            TokenKind::Less => Some((BinaryOperator::Less, 4)),
            TokenKind::LessEquals => Some((BinaryOperator::LessEqual, 4)),
            TokenKind::Greater => Some((BinaryOperator::Greater, 4)),
            TokenKind::GreaterEquals => Some((BinaryOperator::GreaterEqual, 4)),
            TokenKind::Plus => Some((BinaryOperator::Add, 5)),
            TokenKind::Minus => Some((BinaryOperator::Subtract, 5)),
            TokenKind::Star => Some((BinaryOperator::Multiply, 6)),
            TokenKind::Slash => Some((BinaryOperator::Divide, 6)),
            TokenKind::Percent => Some((BinaryOperator::Remainder, 6)),
            _ => None,
        }
    }

    fn assignment_operator(&self) -> (op: Option<AssignmentOperator>)
        ensures
            op is Some ==> !self.at_end(),
            op == assignment_op_m(self.tokens@, self.ps()),
    {
        if self.cursor >= self.tokens.len() {
            return None;
        }
        match self.tokens[self.cursor].kind {
            TokenKind::Equals => Some(AssignmentOperator::Assign),
            TokenKind::PlusEquals => Some(AssignmentOperator::AddAssign),
            TokenKind::MinusEquals => Some(AssignmentOperator::SubtractAssign),
            TokenKind::StarEquals => Some(AssignmentOperator::MultiplyAssign),
            TokenKind::SlashEquals => Some(AssignmentOperator::DivideAssign),
            TokenKind::PercentEquals => Some(AssignmentOperator::RemainderAssign),
            _ => None,
        }
    }

    fn error_expression(&mut self) -> (e: Expression)
        ensures
            final(self).tokens == old(self).tokens,
            final(self).cursor == old(self).cursor,
            e.kind == ExpressionKind::Error,
            (ex_m(e), final(self).ps()) == error_expression_m(old(self).tokens@, old(self).ps()),
    {
        let position = self.fallback_position();
        let span = Span { start: position, end: position };
        self.error_at(span, "expected expression".to_owned());
        Expression { kind: ExpressionKind::Error, span }
    }

    fn error_type(&self, start: Position) -> (t: TypeNode)
        ensures
            ty_m(t) == error_type_m(start),
    {
        TypeNode { kind: TypeKind::Named(error_name()), span: Span { start, end: start } }
    }

    /// Skips to the end of a class member: past a `;` or `,`, or up to a `}`.
    fn synchronize_member(&mut self)
        requires
            old(self).wf(),
        ensures
            final(self).continues(old(self)),
            final(self).ps() == skip_member_m(old(self).tokens@, old(self).ps()),
    {
        while !self.is_at_end()
            invariant
                self.wf(),
                self.tokens == old(self).tokens,
                old(self).cursor <= self.cursor,
                skip_member_m(self.tokens@, self.ps()) == skip_member_m(old(self).tokens@, old(self).ps()),
            decreases self.tokens@.len() - self.cursor,
        {
            if self.match_kind(&TokenKind::Semicolon) || self.match_kind(&TokenKind::Comma) {
                return;
            }
            if self.check(&TokenKind::RightBrace) {
                return;
            }
            self.advance();
        }
    }
}

impl Parser {
    /// A type annotation, with any `[]` suffixes.
    fn parse_type(&mut self) -> (ty: TypeNode)
        requires
            old(self).wf(),
        ensures
            final(self).progresses(old(self)),
            ty_m(ty) == type_m(old(self).tokens@, old(self).ps()).0,
            final(self).ps() == type_m(old(self).tokens@, old(self).ps()).1,
        decreases old(self).tokens@.len() - old(self).cursor, 11nat,
    {
        let ghost ts = self.tokens@;
        let ghost target = type_m(ts, self.ps());
        let start = self.current_start();
        let token = match self.advance() {
            Some(t) => t,
            None => {
                self.error_here("expected type".to_owned());
                proof {
                    reveal_strlit("expected type");
                }
                return self.error_type(start);
            },
        };
        let ghost s1 = self.ps();
        let mut ty = match token.kind {
            TokenKind::NumberType => TypeNode { kind: TypeKind::Number, span: token.span },
            TokenKind::StringType => TypeNode { kind: TypeKind::String, span: token.span },
            TokenKind::BooleanType => TypeNode { kind: TypeKind::Boolean, span: token.span },
            TokenKind::Null => TypeNode { kind: TypeKind::Null, span: token.span },
            TokenKind::Undefined => TypeNode { kind: TypeKind::Undefined, span: token.span },
            TokenKind::Identifier(name) => TypeNode { kind: TypeKind::Named(name), span: token.span },
            TokenKind::LeftBrace => {
                let members = self.finish_type_members_after_left_brace();
                let end = self.previous_end(start);
                let t = TypeNode { kind: TypeKind::Object(members), span: Span { start, end } };
                assert(ty_m(t).kind == TyKindM::Object(members_m(members@))) by {
                    if let TyKindM::Object(a) = ty_m(t).kind {
                        assert(a =~= members_m(members@));
                    }
                }
                t
            },
            unexpected => {
                let found = debug_kind(&unexpected);
                self.error_at(token.span, concat("expected type, found ", found.as_str()));
                proof {
                    reveal_strlit("expected type, found ");
                }
                self.error_type(token.span.start)
            },
        };
        assert(target == array_suffix_m(ts, self.ps(), ty_m(ty), start));
        while self.match_kind(&TokenKind::LeftBracket)
            invariant
                self.wf(),
                self.tokens == old(self).tokens,
                ts == self.tokens@,
                old(self).cursor < self.cursor,
                target == array_suffix_m(ts, self.ps(), ty_m(ty), start),
            decreases self.tokens@.len() - self.cursor,
        {
            self.expect(&TokenKind::RightBracket, "closing array type suffix");
            proof {
                reveal_strlit("closing array type suffix");
            }
            let end = self.previous_end(start);
            ty = TypeNode { kind: TypeKind::Array(Box::new(ty)), span: Span { start, end } };
        }
        ty
    }

    /// The members of an object type, up to its closing brace.
    fn finish_type_members_after_left_brace(&mut self) -> (members: Vec<TypeMember>)
        requires
            old(self).wf(),
        ensures
            final(self).continues(old(self)),
            members_m(members@) == type_members_after_brace_m(old(self).tokens@, old(self).ps()).0,
            final(self).ps() == type_members_after_brace_m(old(self).tokens@, old(self).ps()).1,
        decreases old(self).tokens@.len() - old(self).cursor, 10nat,
    {
        let mut members: Vec<TypeMember> = Vec::new();
        assert(members_m(members@) =~= Seq::empty());
        self.type_member_list(&mut members);
        self.expect(&TokenKind::RightBrace, "closing object type");
        proof {
            reveal_strlit("closing object type");
        }
        members
    }

    /// The members of an interface body, braces included.
    fn parse_type_members(&mut self) -> (members: Vec<TypeMember>)
        requires
            old(self).wf(),
        ensures
            final(self).continues(old(self)),
            members_m(members@) == type_members_m(old(self).tokens@, old(self).ps()).0,
            final(self).ps() == type_members_m(old(self).tokens@, old(self).ps()).1,
        decreases old(self).tokens@.len() - old(self).cursor, 12nat,
    {
        let mut members: Vec<TypeMember> = Vec::new();
        assert(members_m(members@) =~= Seq::empty());
        self.expect(&TokenKind::LeftBrace, "type member list");
        self.type_member_list(&mut members);
        self.expect(&TokenKind::RightBrace, "closing type member list");
        members
    }

    /// `name: type` members separated by `;` or `,`, up to a `}`.
    fn type_member_list(&mut self, members: &mut Vec<TypeMember>)
        requires
            old(self).wf(),
        ensures
            final(self).continues(old(self)),
            members_m(final(members)@) == type_member_list_m(
                old(self).tokens@,
                old(self).ps(),
                members_m(old(members)@),
            ).0,
            final(self).ps() == type_member_list_m(old(self).tokens@, old(self).ps(), members_m(old(members)@)).1,
        decreases old(self).tokens@.len() - old(self).cursor, 9nat,
    {
        let ghost ts = self.tokens@;
        let ghost target = type_member_list_m(ts, self.ps(), members_m(members@));
        while !self.check(&TokenKind::RightBrace) && !self.is_at_end()
            invariant
                self.wf(),
                self.tokens == old(self).tokens,
                ts == self.tokens@,
                old(self).cursor <= self.cursor,
                target == type_member_list_m(ts, self.ps(), members_m(members@)),
            decreases self.tokens@.len() - self.cursor,
        {
            let ghost s = self.ps();
            let start = self.current_start();
            let name = match self.consume_property_name("type member name") {
                Some(n) => n,
                None => error_name(),
            };
            self.expect(&TokenKind::Colon, "colon after type member name");
            let ty = self.parse_type();
            let end = match self.consume_optional_semicolon() {
                Some(e) => e,
                None => {
                    self.match_kind(&TokenKind::Comma);
                    self.previous_end(start)
                },
            };
            proof {
                reveal_strlit("type member name");
                reveal_strlit("colon after type member name");
            }
            let ghost before = members@;
            members.push(TypeMember { name, ty, span: Span { start, end } });
            assert(members_m(members@) =~= members_m(before).push((name@, ty_m(ty), Span { start, end })));
        }
    }
}

impl Parser {
    fn parse_expression(&mut self) -> (e: Expression)
        requires
            old(self).wf(),
        ensures
            final(self).wf(),
            final(self).progresses(old(self)),
            ex_m(e) == expression_m(old(self).tokens@, old(self).ps()).0,
            final(self).ps() == expression_m(old(self).tokens@, old(self).ps()).1,
        decreases old(self).tokens@.len() - old(self).cursor, 20nat,
    {
        self.parse_assignment()
    }

    /// An assignment chain, which groups to the right.
    fn parse_assignment(&mut self) -> (e: Expression)
        requires
            old(self).wf(),
        ensures
            final(self).wf(),
            final(self).progresses(old(self)),
            ex_m(e) == assignment_m(old(self).tokens@, old(self).ps()).0,
            final(self).ps() == assignment_m(old(self).tokens@, old(self).ps()).1,
        decreases old(self).tokens@.len() - old(self).cursor, 19nat,
    {
        let left = self.parse_binary(0);
        let operator = match self.assignment_operator() {
            None => return left,
            Some(op) => op,
        };
        self.advance();
        let right = self.parse_assignment();
        let span = Span { start: left.span.start, end: right.span.end };
        Expression {
            kind: ExpressionKind::Assignment { left: Box::new(left), operator, right: Box::new(right) },
            span,
        }
    }

    /// Binary operators at or above `min_precedence`, grouped to the left
    /// within a precedence level.
    fn parse_binary(&mut self, min_precedence: u8) -> (e: Expression)
        requires
            old(self).wf(),
            min_precedence <= 7,
        ensures
            final(self).wf(),
            final(self).progresses(old(self)),
            ex_m(e) == binary_m(old(self).tokens@, old(self).ps(), min_precedence).0,
            final(self).ps() == binary_m(old(self).tokens@, old(self).ps(), min_precedence).1,
        decreases old(self).tokens@.len() - old(self).cursor, 18nat,
    {
        let ghost ts = self.tokens@;
        let ghost target = binary_m(ts, self.ps(), min_precedence);
        let mut left = self.parse_unary();
        loop
            invariant
                self.wf(),
                self.tokens == old(self).tokens,
                ts == self.tokens@,
                old(self).cursor <= self.cursor,
                old(self).cursor < old(self).tokens@.len() ==> old(self).cursor < self.cursor,
                min_precedence <= 7,
                target == binary_rest_m(ts, self.ps(), ex_m(left), min_precedence),
            ensures
                target == (ex_m(left), self.ps()),
            decreases self.tokens@.len() - self.cursor,
        {
            let (operator, precedence) = match self.binary_operator() {
                None => break,
                Some(found) => found,
            };
            if precedence < min_precedence {
                break;
            }
            self.advance();
            let right = self.parse_binary(precedence + 1);
            let span = Span { start: left.span.start, end: right.span.end };
            left = Expression {
                kind: ExpressionKind::Binary { left: Box::new(left), operator, right: Box::new(right) },
                span,
            };
        }
        left
    }

    /// Prefix `!` and `-`, which group to the right.
    fn parse_unary(&mut self) -> (e: Expression)
        requires
            old(self).wf(),
        ensures
            final(self).wf(),
            final(self).progresses(old(self)),
            ex_m(e) == unary_m(old(self).tokens@, old(self).ps()).0,
            final(self).ps() == unary_m(old(self).tokens@, old(self).ps()).1,
        decreases old(self).tokens@.len() - old(self).cursor, 17nat,
    {
        if self.cursor >= self.tokens.len() {
            return self.error_expression();
        }
        let token = copy_token(&self.tokens[self.cursor]);
        let operator = match token.kind {
            TokenKind::Bang => Some(UnaryOperator::Not),
            TokenKind::Minus => Some(UnaryOperator::Negate),
            _ => None,
        };
        match operator {
            Some(operator) => {
                self.advance();
                let argument = self.parse_unary();
                let span = Span { start: token.span.start, end: argument.span.end };
                Expression { kind: ExpressionKind::Unary { operator, argument: Box::new(argument) }, span }
            },
            None => self.parse_call_member(),
        }
    }

    /// A primary expression followed by any `.name` and `(arguments)` suffixes.
    fn parse_call_member(&mut self) -> (e: Expression)
        requires
            old(self).wf(),
        ensures
            final(self).wf(),
            final(self).progresses(old(self)),
            ex_m(e) == call_member_m(old(self).tokens@, old(self).ps()).0,
            final(self).ps() == call_member_m(old(self).tokens@, old(self).ps()).1,
        decreases old(self).tokens@.len() - old(self).cursor, 16nat,
    {
        let ghost ts = self.tokens@;
        let ghost target = call_member_m(ts, self.ps());
        let mut expression = self.parse_primary();
        loop
            invariant
                self.wf(),
                self.tokens == old(self).tokens,
                ts == self.tokens@,
                old(self).cursor <= self.cursor,
                old(self).cursor < old(self).tokens@.len() ==> old(self).cursor < self.cursor,
                target == suffixes_m(ts, self.ps(), ex_m(expression)),
            ensures
                target == (ex_m(expression), self.ps()),
            decreases self.tokens@.len() - self.cursor,
        {
            if self.match_kind(&TokenKind::Dot) {
                let start = expression.span.start;
                let property = match self.consume_identifier("member property name") {
                    Some(n) => n,
                    None => error_name(),
                };
                proof {
                    reveal_strlit("member property name");
                }
                let end = self.previous_end(expression.span.start);
                expression = Expression {
                    kind: ExpressionKind::Member { object: Box::new(expression), property },
                    span: Span { start, end },
                };
            } else if self.match_kind(&TokenKind::LeftParen) {
                let start = expression.span.start;
                let mut arguments: Vec<Expression> = Vec::new();
                let ghost opened = self.cursor;
                let ghost s1 = self.ps();
                let ghost args_target = arguments_m(ts, s1, Seq::empty());
                assert(exs_m(arguments@) =~= Seq::<ExM>::empty());
                while !self.check(&TokenKind::RightParen) && !self.is_at_end()
                    invariant_except_break
                        args_target == arguments_m(ts, self.ps(), exs_m(arguments@)),
                    invariant
                        self.wf(),
                        self.tokens == old(self).tokens,
                        ts == self.tokens@,
                        old(self).cursor < opened <= self.cursor,
                        s1.pos == opened,
                    ensures
                        args_target == (exs_m(arguments@), self.ps()),
                    decreases self.tokens@.len() - self.cursor,
                {
                    let ghost before = arguments@;
                    let argument = self.parse_expression();
                    arguments.push(argument);
                    assert(exs_m(arguments@) =~= exs_m(before).push(ex_m(argument)));
                    if !self.match_kind(&TokenKind::Comma) {
                        break;
                    }
                }
                self.expect(&TokenKind::RightParen, "closing call arguments");
                proof {
                    reveal_strlit("closing call arguments");
                }
                let end = self.previous_end(start);
                let call = Expression {
                    kind: ExpressionKind::Call { callee: Box::new(expression), arguments },
                    span: Span { start, end },
                };
                assert(ex_m(call).kind == ExKindM::Call(Box::new(ex_m(expression)), exs_m(arguments@))) by {
                    if let ExKindM::Call(_, a) = ex_m(call).kind {
                        assert(a =~= exs_m(arguments@));
                    }
                }
                expression = call;
            } else {
                break;
            }
        }
        expression
    }

    fn parse_primary(&mut self) -> (e: Expression)
        requires
            old(self).wf(),
        ensures
            final(self).wf(),
            final(self).progresses(old(self)),
            ex_m(e) == primary_m(old(self).tokens@, old(self).ps()).0,
            final(self).ps() == primary_m(old(self).tokens@, old(self).ps()).1,
        decreases old(self).tokens@.len() - old(self).cursor, 15nat,
    {
        let token = match self.advance() {
            None => return self.error_expression(),
            Some(t) => t,
        };
        let span = token.span;
        match token.kind {
            TokenKind::Identifier(name) => Expression { kind: ExpressionKind::Identifier(name), span },
            TokenKind::NumberLiteral(value) => Expression { kind: ExpressionKind::Number(value), span },
            TokenKind::StringLiteral(value) => Expression { kind: ExpressionKind::String(value), span },
            TokenKind::BooleanLiteral(value) => Expression { kind: ExpressionKind::Boolean(value), span },
            TokenKind::Null => Expression { kind: ExpressionKind::Null, span },
            TokenKind::Undefined => Expression { kind: ExpressionKind::Undefined, span },
            TokenKind::LeftParen => {
                let expression = self.parse_expression();
                self.expect(&TokenKind::RightParen, "closing parenthesized expression");
                proof {
                    reveal_strlit("closing parenthesized expression");
                }
                expression
            },
            TokenKind::LeftBrace => self.finish_object_expression(span.start),
            TokenKind::LeftBracket => self.finish_array_expression(span.start),
            unexpected => {
                let found = debug_kind(&unexpected);
                self.error_at(span, concat("expected expression, found ", found.as_str()));
                proof {
                    reveal_strlit("expected expression, found ");
                }
                Expression { kind: ExpressionKind::Error, span }
            },
        }
    }

    /// The properties of an object literal, up to its closing brace.
    fn finish_object_expression(&mut self, start: Position) -> (e: Expression)
        requires
            old(self).wf(),
        ensures
            final(self).wf(),
            final(self).continues(old(self)),
            ex_m(e) == object_m(old(self).tokens@, old(self).ps(), start).0,
            final(self).ps() == object_m(old(self).tokens@, old(self).ps(), start).1,
        decreases old(self).tokens@.len() - old(self).cursor, 22nat,
    {
        let ghost ts = self.tokens@;
        let ghost props_target = properties_m(ts, self.ps(), Seq::empty());
        let mut properties: Vec<ObjectProperty> = Vec::new();
        assert(props_m(properties@) =~= Seq::empty());
        while !self.check(&TokenKind::RightBrace) && !self.is_at_end()
            invariant_except_break
                props_target == properties_m(ts, self.ps(), props_m(properties@)),
            invariant
                self.wf(),
                self.tokens == old(self).tokens,
                ts == self.tokens@,
                old(self).cursor <= self.cursor,
            ensures
                props_target == (props_m(properties@), self.ps()),
            decreases self.tokens@.len() - self.cursor,
        {
            let property_start = self.current_start();
            let name = match self.consume_property_name("object property name") {
                Some(n) => n,
                None => error_name(),
            };
            self.expect(&TokenKind::Colon, "colon after object property name");
            proof {
                reveal_strlit("object property name");
                reveal_strlit("colon after object property name");
            }
            let value = self.parse_expression();
            let span = Span { start: property_start, end: value.span.end };
            let ghost before = properties@;
            properties.push(ObjectProperty { name, value, span });
            assert(props_m(properties@) =~= props_m(before).push((name@, ex_m(value), span)));
            if !self.match_kind(&TokenKind::Comma) {
                break;
            }
        }
        self.expect(&TokenKind::RightBrace, "closing object literal");
        proof {
            reveal_strlit("closing object literal");
        }
        let end = self.previous_end(start);
        let e = Expression { kind: ExpressionKind::Object(properties), span: Span { start, end } };
        assert(ex_m(e).kind == ExKindM::Object(props_m(properties@))) by {
            if let ExKindM::Object(a) = ex_m(e).kind {
                assert(a =~= props_m(properties@));
            }
        }
        e
    }

    /// The elements of an array literal, up to its closing bracket.
    fn finish_array_expression(&mut self, start: Position) -> (e: Expression)
        requires
            old(self).wf(),
        ensures
            final(self).wf(),
            final(self).continues(old(self)),
            ex_m(e) == array_m(old(self).tokens@, old(self).ps(), start).0,
            final(self).ps() == array_m(old(self).tokens@, old(self).ps(), start).1,
        decreases old(self).tokens@.len() - old(self).cursor, 22nat,
    {
        let ghost ts = self.tokens@;
        let ghost elements_target = elements_m(ts, self.ps(), Seq::empty());
        let mut elements: Vec<Expression> = Vec::new();
        assert(exs_m(elements@) =~= Seq::<ExM>::empty());
        while !self.check(&TokenKind::RightBracket) && !self.is_at_end()
            invariant_except_break
                elements_target == elements_m(ts, self.ps(), exs_m(elements@)),
            invariant
                self.wf(),
                self.tokens == old(self).tokens,
                ts == self.tokens@,
                old(self).cursor <= self.cursor,
            ensures
                elements_target == (exs_m(elements@), self.ps()),
            decreases self.tokens@.len() - self.cursor,
        {
            let ghost before = elements@;
            let element = self.parse_expression();
            elements.push(element);
            assert(exs_m(elements@) =~= exs_m(before).push(ex_m(element)));
            if !self.match_kind(&TokenKind::Comma) {
                break;
            }
        }
        self.expect(&TokenKind::RightBracket, "closing array literal");
        proof {
            reveal_strlit("closing array literal");
        }
        let end = self.previous_end(start);
        let e = Expression { kind: ExpressionKind::Array(elements), span: Span { start, end } };
        assert(ex_m(e).kind == ExKindM::Array(exs_m(elements@))) by {
            if let ExKindM::Array(a) = ex_m(e).kind {
                assert(a =~= exs_m(elements@));
            }
        }
        e
    }
}

/// The span from the start of the first statement to the end of the last.
pub fn merge_statement_spans(body: &Vec<Statement>) -> (span: Option<Span>)
    ensures
        match span {
            None => body@.len() == 0,
            Some(s) => body@.len() > 0 && s.start == body@[0].span.start && s.end == body@.last().span.end,
        },
        span == body_span_m(stmts_v(body@)),
{
    if body.len() == 0 {
        None
    } else {
        Some(Span { start: body[0].span.start, end: body[body.len() - 1].span.end })
    }
}

impl Parser {
    fn parse_statement(&mut self) -> (st: Statement)
        requires
            old(self).wf(),
        ensures
            final(self).wf(),
            final(self).progresses(old(self)),
            st_m(st) == statement_m(old(self).tokens@, old(self).ps()).0,
            final(self).ps() == statement_m(old(self).tokens@, old(self).ps()).1,
        decreases old(self).tokens@.len() - old(self).cursor, 30nat,
    {
        if self.cursor >= self.tokens.len() {
            return self.parse_expression_statement();
        }
        match self.tokens[self.cursor].kind {
            TokenKind::Import => self.parse_import(),
            TokenKind::Export => self.parse_export(),
            TokenKind::Interface => self.parse_interface(),
            TokenKind::Type => self.parse_type_alias(),
            TokenKind::Class => self.parse_class(),
            TokenKind::Function => self.parse_function(),
            TokenKind::Let | TokenKind::Const | TokenKind::Var => self.parse_variable(true),
            TokenKind::Return => self.parse_return(),
            TokenKind::Throw => self.parse_throw(),
            TokenKind::If => self.parse_if(),
            TokenKind::While => self.parse_while(),
            TokenKind::For => self.parse_for(),
            TokenKind::LeftBrace => {
                let start = self.current_start();
                self.advance();
                self.finish_block(start)
            },
            TokenKind::Semicolon => {
                let span = self.tokens[self.cursor].span;
                self.advance();
                Statement { kind: StatementKind::Empty, span }
            },
            _ => self.parse_expression_statement(),
        }
    }

    fn parse_import(&mut self) -> (st: Statement)
        requires
            old(self).wf(),
            !old(self).at_end(),
        ensures
            final(self).wf(),
            final(self).progresses(old(self)),
            st_m(st) == import_m(old(self).tokens@, old(self).ps()).0,
            final(self).ps() == import_m(old(self).tokens@, old(self).ps()).1,
        decreases old(self).tokens@.len() - old(self).cursor, 29nat,
    {
        let ghost ts = self.tokens@;
        let start = self.expect_any("import declaration start").span.start;
        let mut names: Vec<String> = Vec::new();
        assert(texts_v(names@) =~= Seq::empty());
        if self.match_kind(&TokenKind::LeftBrace) {
            let ghost names_target = import_names_m(ts, self.ps(), Seq::empty());
            while !self.check(&TokenKind::RightBrace) && !self.is_at_end()
                invariant_except_break
                    names_target == import_names_m(ts, self.ps(), texts_v(names@)),
                invariant
                    self.wf(),
                    self.tokens == old(self).tokens,
                    ts == self.tokens@,
                    old(self).cursor < self.cursor,
                ensures
                    names_target == (texts_v(names@), self.ps()),
                decreases self.tokens@.len() - self.cursor,
            {
                let ghost before = names@;
                match self.consume_identifier("import binding") {
                    Some(name) => {
                        names.push(name);
                        assert(texts_v(names@) =~= texts_v(before).push(name@));
                    },
                    None => {},
                }
                if !self.match_kind(&TokenKind::Comma) {
                    break;
                }
            }
            self.expect(&TokenKind::RightBrace, "closing import brace");
        } else {
            match self.consume_identifier("default import binding") {
                Some(name) => {
                    names.push(name);
                    assert(texts_v(names@) =~= seq![name@]);
                },
                None => {},
            }
        }
        self.expect(&TokenKind::From, "`from` in import declaration");
        let from = match self.advance() {
            Some(token) => match token.kind {
                TokenKind::StringLiteral(value) => value,
                _ => {
                    self.error_at(token.span, "expected string module specifier".to_owned());
                    String::new()
                },
            },
            None => {
                self.error_here("expected string module specifier".to_owned());
                String::new()
            },
        };
        let end = match self.consume_optional_semicolon() {
            Some(e) => e,
            None => self.previous_end(start),
        };
        Statement {
            kind: StatementKind::Import(ImportDeclaration { names, from }),
            span: Span { start, end },
        }
    }

    fn parse_export(&mut self) -> (st: Statement)
        requires
            old(self).wf(),
            !old(self).at_end(),
        ensures
            final(self).wf(),
            final(self).progresses(old(self)),
            st_m(st) == export_m(old(self).tokens@, old(self).ps()).0,
            final(self).ps() == export_m(old(self).tokens@, old(self).ps()).1,
        decreases old(self).tokens@.len() - old(self).cursor, 29nat,
    {
        let start = self.expect_any("export declaration start").span.start;
        let inner = self.parse_statement();
        let span = Span { start, end: inner.span.end };
        Statement { kind: StatementKind::Export(Box::new(inner)), span }
    }

    fn parse_interface(&mut self) -> (st: Statement)
        requires
            old(self).wf(),
            !old(self).at_end(),
        ensures
            final(self).wf(),
            final(self).progresses(old(self)),
            st_m(st) == interface_m(old(self).tokens@, old(self).ps()).0,
            final(self).ps() == interface_m(old(self).tokens@, old(self).ps()).1,
        decreases old(self).tokens@.len() - old(self).cursor, 29nat,
    {
        let start = self.expect_any("interface declaration start").span.start;
        let name = match self.consume_identifier("interface name") {
            Some(n) => n,
            None => error_name(),
        };
        let members = self.parse_type_members();
        let end = self.previous_end(start);
        Statement {
            kind: StatementKind::Interface(InterfaceDeclaration { name, members }),
            span: Span { start, end },
        }
    }

    fn parse_type_alias(&mut self) -> (st: Statement)
        requires
            old(self).wf(),
            !old(self).at_end(),
        ensures
            final(self).wf(),
            final(self).progresses(old(self)),
            st_m(st) == type_alias_m(old(self).tokens@, old(self).ps()).0,
            final(self).ps() == type_alias_m(old(self).tokens@, old(self).ps()).1,
        decreases old(self).tokens@.len() - old(self).cursor, 29nat,
    {
        let start = self.expect_any("type alias start").span.start;
        let name = match self.consume_identifier("type alias name") {
            Some(n) => n,
            None => error_name(),
        };
        self.expect(&TokenKind::Equals, "`=` in type alias");
        let ty = self.parse_type();
        let end = match self.consume_optional_semicolon() {
            Some(e) => e,
            None => self.previous_end(start),
        };
        Statement {
            kind: StatementKind::TypeAlias(TypeAliasDeclaration { name, ty }),
            span: Span { start, end },
        }
    }

    fn parse_class(&mut self) -> (st: Statement)
        requires
            old(self).wf(),
            !old(self).at_end(),
        ensures
            final(self).wf(),
            final(self).progresses(old(self)),
            st_m(st) == class_m(old(self).tokens@, old(self).ps()).0,
            final(self).ps() == class_m(old(self).tokens@, old(self).ps()).1,
        decreases old(self).tokens@.len() - old(self).cursor, 29nat,
    {
        let ghost ts = self.tokens@;
        let start = self.expect_any("class declaration start").span.start;
        let name = match self.consume_identifier("class name") {
            Some(n) => n,
            None => error_name(),
        };
        let mut members: Vec<ClassMember> = Vec::new();
        self.expect(&TokenKind::LeftBrace, "class body");
        let ghost members_target = class_members_m(ts, self.ps(), Seq::empty());
        assert(class_members_v(members@) =~= Seq::empty());
        while !self.check(&TokenKind::RightBrace) && !self.is_at_end()
            invariant
                self.wf(),
                self.tokens == old(self).tokens,
                ts == self.tokens@,
                old(self).cursor < self.cursor,
                members_target == class_members_m(ts, self.ps(), class_members_v(members@)),
            decreases self.tokens@.len() - self.cursor,
        {
            let member_start = self.current_start();
            let member_name = match self.consume_identifier("class member name") {
                Some(n) => n,
                None => {
                    self.synchronize_member();
                    continue;
                },
            };
            let ghost s1 = self.ps();
            let ty = if self.match_kind(&TokenKind::Colon) {
                Some(self.parse_type())
            } else {
                None
            };
            let initializer = if self.match_kind(&TokenKind::Equals) {
                Some(self.parse_expression())
            } else {
                None
            };
            let end = match self.consume_optional_semicolon() {
                Some(e) => e,
                None => self.previous_end(member_start),
            };
            assert(s1.pos <= self.ps().pos);
            let ghost before = members@;
            let member = ClassMember { name: member_name, ty, initializer, span: Span { start: member_start, end } };
            members.push(member);
            assert(class_members_v(members@) =~= class_members_v(before).push(
                (member.name@, opt_ty_m(member.ty), opt_ex_m(member.initializer), member.span),
            ));
        }
        self.expect(&TokenKind::RightBrace, "closing class body");
        let end = self.previous_end(start);
        Statement { kind: StatementKind::Class(ClassDeclaration { name, members }), span: Span { start, end } }
    }

    fn parse_function(&mut self) -> (st: Statement)
        requires
            old(self).wf(),
            !old(self).at_end(),
        ensures
            final(self).wf(),
            final(self).progresses(old(self)),
            st_m(st) == function_m(old(self).tokens@, old(self).ps()).0,
            final(self).ps() == function_m(old(self).tokens@, old(self).ps()).1,
        decreases old(self).tokens@.len() - old(self).cursor, 29nat,
    {
        let start = self.expect_any("function declaration start").span.start;
        let ghost s1 = self.ps();
        let name = match self.consume_identifier("function name") {
            Some(n) => n,
            None => error_name(),
        };
        let params = self.parse_parameters();
        let return_type = if self.match_kind(&TokenKind::Colon) {
            Some(self.parse_type())
        } else {
            None
        };
        assert(s1.pos <= self.ps().pos);
        let body_statement = self.parse_block_statement();
        let end = body_statement.span.end;
        let body = match body_statement.kind {
            StatementKind::Block(body) => {
                assert(st_m(body_statement).kind == StKindM::Block(stmts_v(body@))) by {
                    if let StKindM::Block(b) = st_m(body_statement).kind {
                        assert(b =~= stmts_v(body@));
                    }
                }
                body
            },
            _ => {
                let none: Vec<Statement> = Vec::new();
                assert(stmts_v(none@) =~= Seq::empty());
                none
            },
        };
        let st = Statement {
            kind: StatementKind::Function(FunctionDeclaration { name, params, return_type, body }),
            span: Span { start, end },
        };
        assert(st_m(st).kind == StKindM::Function(name@, params_v(params@), opt_ty_m(return_type), stmts_v(body@)))
            by {
            if let StKindM::Function(_, _, _, b) = st_m(st).kind {
                assert(b =~= stmts_v(body@));
            }
        }
        st
    }

    fn parse_parameters(&mut self) -> (params: Vec<Parameter>)
        requires
            old(self).wf(),
        ensures
            final(self).wf(),
            final(self).continues(old(self)),
            params_v(params@) == parameters_m(old(self).tokens@, old(self).ps()).0,
            final(self).ps() == parameters_m(old(self).tokens@, old(self).ps()).1,
        decreases old(self).tokens@.len() - old(self).cursor, 13nat,
    {
        let ghost ts = self.tokens@;
        let mut params: Vec<Parameter> = Vec::new();
        assert(params_v(params@) =~= Seq::empty());
        self.expect(&TokenKind::LeftParen, "parameter list");
        let ghost params_target = parameter_list_m(ts, self.ps(), Seq::empty());
        while !self.check(&TokenKind::RightParen) && !self.is_at_end()
            invariant_except_break
                params_target == parameter_list_m(ts, self.ps(), params_v(params@)),
            invariant
                self.wf(),
                self.tokens == old(self).tokens,
                ts == self.tokens@,
                old(self).cursor <= self.cursor,
            ensures
                params_target == (params_v(params@), self.ps()),
            decreases self.tokens@.len() - self.cursor,
        {
            let start = self.current_start();
            let name = match self.consume_identifier("parameter name") {
                Some(n) => n,
                None => error_name(),
            };
            let ty = if self.match_kind(&TokenKind::Colon) {
                Some(self.parse_type())
            } else {
                None
            };
            let end = self.previous_end(start);
            let ghost before = params@;
            let param = Parameter { name, ty, span: Span { start, end } };
            params.push(param);
            assert(params_v(params@) =~= params_v(before).push((param.name@, opt_ty_m(param.ty), param.span)));
            if !self.match_kind(&TokenKind::Comma) {
                break;
            }
        }
        self.expect(&TokenKind::RightParen, "closing parameter list");
        params
    }

    fn parse_variable(&mut self, consume_semicolon: bool) -> (st: Statement)
        requires
            old(self).wf(),
            !old(self).at_end(),
        ensures
            final(self).wf(),
            final(self).progresses(old(self)),
            st_m(st) == variable_m(old(self).tokens@, old(self).ps(), consume_semicolon).0,
            final(self).ps() == variable_m(old(self).tokens@, old(self).ps(), consume_semicolon).1,
        decreases old(self).tokens@.len() - old(self).cursor, 29nat,
    {
        let start_token = self.expect_any("variable declaration start");
        let start = start_token.span.start;
        let kind = match start_token.kind {
            TokenKind::Const => VariableKind::Const,
            TokenKind::Var => VariableKind::Var,
            _ => VariableKind::Let,
        };
        let name = match self.consume_identifier("variable name") {
            Some(n) => n,
            None => error_name(),
        };
        let ty = if self.match_kind(&TokenKind::Colon) {
            Some(self.parse_type())
        } else {
            None
        };
        let initializer = if self.match_kind(&TokenKind::Equals) {
            Some(self.parse_expression())
        } else {
            None
        };
        let end = if consume_semicolon {
            match self.consume_optional_semicolon() {
                Some(e) => e,
                None => self.previous_end(start),
            }
        } else {
            self.previous_end(start)
        };
        Statement {
            kind: StatementKind::Variable(VariableDeclaration { kind, name, ty, initializer }),
            span: Span { start, end },
        }
    }

    fn parse_return(&mut self) -> (st: Statement)
        requires
            old(self).wf(),
            !old(self).at_end(),
        ensures
            final(self).wf(),
            final(self).progresses(old(self)),
            st_m(st) == return_m(old(self).tokens@, old(self).ps()).0,
            final(self).ps() == return_m(old(self).tokens@, old(self).ps()).1,
        decreases old(self).tokens@.len() - old(self).cursor, 29nat,
    {
        let start = self.expect_any("return statement start").span.start;
        let value = if self.check(&TokenKind::Semicolon) || self.check(&TokenKind::RightBrace) {
            None
        } else {
            Some(self.parse_expression())
        };
        let end = match self.consume_optional_semicolon() {
            Some(e) => e,
            None => self.previous_end(start),
        };
        Statement { kind: StatementKind::Return(value), span: Span { start, end } }
    }

    fn parse_throw(&mut self) -> (st: Statement)
        requires
            old(self).wf(),
            !old(self).at_end(),
        ensures
            final(self).wf(),
            final(self).progresses(old(self)),
            st_m(st) == throw_m(old(self).tokens@, old(self).ps()).0,
            final(self).ps() == throw_m(old(self).tokens@, old(self).ps()).1,
        decreases old(self).tokens@.len() - old(self).cursor, 29nat,
    {
        let start = self.expect_any("throw statement start").span.start;
        let value = self.parse_expression();
        let end = match self.consume_optional_semicolon() {
            Some(e) => e,
            None => self.previous_end(start),
        };
        Statement { kind: StatementKind::Throw(value), span: Span { start, end } }
    }

    fn parse_if(&mut self) -> (st: Statement)
        requires
            old(self).wf(),
            !old(self).at_end(),
        ensures
            final(self).wf(),
            final(self).progresses(old(self)),
            st_m(st) == if_m(old(self).tokens@, old(self).ps()).0,
            final(self).ps() == if_m(old(self).tokens@, old(self).ps()).1,
        decreases old(self).tokens@.len() - old(self).cursor, 29nat,
    {
        let start = self.expect_any("if statement start").span.start;
        let ghost s1 = self.ps();
        self.expect(&TokenKind::LeftParen, "if condition");
        let test = self.parse_expression();
        self.expect(&TokenKind::RightParen, "closing if condition");
        assert(s1.pos <= self.ps().pos);
        let consequent = Box::new(self.parse_statement());
        let alternate = if self.match_kind(&TokenKind::Else) {
            Some(Box::new(self.parse_statement()))
        } else {
            None
        };
        let end = match &alternate {
            Some(statement) => statement.span.end,
            None => consequent.span.end,
        };
        Statement { kind: StatementKind::If(IfStatement { test, consequent, alternate }), span: Span { start, end } }
    }

    fn parse_while(&mut self) -> (st: Statement)
        requires
            old(self).wf(),
            !old(self).at_end(),
        ensures
            final(self).wf(),
            final(self).progresses(old(self)),
            st_m(st) == while_m(old(self).tokens@, old(self).ps()).0,
            final(self).ps() == while_m(old(self).tokens@, old(self).ps()).1,
        decreases old(self).tokens@.len() - old(self).cursor, 29nat,
    {
        let start = self.expect_any("while statement start").span.start;
        let ghost s1 = self.ps();
        self.expect(&TokenKind::LeftParen, "while condition");
        let test = self.parse_expression();
        self.expect(&TokenKind::RightParen, "closing while condition");
        assert(s1.pos <= self.ps().pos);
        let body = Box::new(self.parse_statement());
        let end = body.span.end;
        Statement { kind: StatementKind::While(WhileStatement { test, body }), span: Span { start, end } }
    }

    #[verifier::rlimit(60)]
    #[verifier::spinoff_prover]
    fn parse_for(&mut self) -> (st: Statement)
        requires
            old(self).wf(),
            !old(self).at_end(),
        ensures
            final(self).wf(),
            final(self).progresses(old(self)),
            st_m(st) == for_m(old(self).tokens@, old(self).ps()).0,
            final(self).ps() == for_m(old(self).tokens@, old(self).ps()).1,
        decreases old(self).tokens@.len() - old(self).cursor, 29nat,
    {
        let start = self.expect_any("for statement start").span.start;
        let ghost s1 = self.ps();
        self.expect(&TokenKind::LeftParen, "for header");
        let initializer = if self.match_kind(&TokenKind::Semicolon) {
            None
        } else if self.check(&TokenKind::Let) || self.check(&TokenKind::Const) || self.check(&TokenKind::Var) {
            Some(Box::new(self.parse_variable(false)))
        } else {
            Some(Box::new(self.parse_expression_statement_without_semicolon()))
        };
        self.expect(&TokenKind::Semicolon, "semicolon after for initializer");
        let test = if self.check(&TokenKind::Semicolon) {
            None
        } else {
            Some(self.parse_expression())
        };
        self.expect(&TokenKind::Semicolon, "semicolon after for test");
        let update = if self.check(&TokenKind::RightParen) {
            None
        } else {
            Some(self.parse_expression())
        };
        self.expect(&TokenKind::RightParen, "closing for header");
        assert(s1.pos <= self.ps().pos);
        let body = Box::new(self.parse_statement());
        let end = body.span.end;
        Statement {
            kind: StatementKind::For(ForStatement { initializer, test, update, body }),
            span: Span { start, end },
        }
    }

    /// A `{ ... }` block; a missing brace is reported and the statements are read anyway.
    fn parse_block_statement(&mut self) -> (st: Statement)
        requires
            old(self).wf(),
        ensures
            final(self).wf(),
            final(self).continues(old(self)),
            st_m(st) == block_statement_m(old(self).tokens@, old(self).ps()).0,
            final(self).ps() == block_statement_m(old(self).tokens@, old(self).ps()).1,
        decreases old(self).tokens@.len() - old(self).cursor, 32nat,
    {
        let start = self.current_start();
        self.expect(&TokenKind::LeftBrace, "block start");
        self.finish_block(start)
    }

    /// The statements of a block after its opening brace, and the closing brace.
    fn finish_block(&mut self, start: Position) -> (st: Statement)
        requires
            old(self).wf(),
        ensures
            final(self).wf(),
            final(self).continues(old(self)),
            st_m(st) == finish_block_m(old(self).tokens@, old(self).ps(), start).0,
            final(self).ps() == finish_block_m(old(self).tokens@, old(self).ps(), start).1,
        decreases old(self).tokens@.len() - old(self).cursor, 31nat,
    {
        let ghost ts = self.tokens@;
        let ghost body_target = block_list_m(ts, self.ps(), Seq::empty());
        let mut body: Vec<Statement> = Vec::new();
        assert(stmts_v(body@) =~= Seq::empty());
        while !self.check(&TokenKind::RightBrace) && !self.is_at_end()
            invariant
                self.wf(),
                self.tokens == old(self).tokens,
                ts == self.tokens@,
                old(self).cursor <= self.cursor,
                body_target == block_list_m(ts, self.ps(), stmts_v(body@)),
            decreases self.tokens@.len() - self.cursor,
        {
            let ghost before = body@;
            let statement = self.parse_statement();
            body.push(statement);
            assert(stmts_v(body@) =~= stmts_v(before).push(st_m(statement)));
        }
        self.expect(&TokenKind::RightBrace, "block end");
        let end = self.previous_end(start);
        let st = Statement { kind: StatementKind::Block(body), span: Span { start, end } };
        assert(st_m(st).kind == StKindM::Block(stmts_v(body@))) by {
            if let StKindM::Block(b) = st_m(st).kind {
                assert(b =~= stmts_v(body@));
            }
        }
        st
    }

    fn parse_expression_statement(&mut self) -> (st: Statement)
        requires
            old(self).wf(),
        ensures
            final(self).wf(),
            final(self).progresses(old(self)),
            st_m(st) == expression_statement_m(old(self).tokens@, old(self).ps()).0,
            final(self).ps() == expression_statement_m(old(self).tokens@, old(self).ps()).1,
        decreases old(self).tokens@.len() - old(self).cursor, 28nat,
    {
        let statement = self.parse_expression_statement_without_semicolon();
        self.consume_optional_semicolon();
        statement
    }

    fn parse_expression_statement_without_semicolon(&mut self) -> (st: Statement)
        requires
            old(self).wf(),
        ensures
            final(self).wf(),
            final(self).progresses(old(self)),
            st_m(st) == expression_statement_bare_m(old(self).tokens@, old(self).ps()).0,
            final(self).ps() == expression_statement_bare_m(old(self).tokens@, old(self).ps()).1,
        decreases old(self).tokens@.len() - old(self).cursor, 27nat,
    {
        let expression = self.parse_expression();
        let span = expression.span;
        Statement { kind: StatementKind::Expression(expression), span }
    }

    /// Statements up to the end of the input; where a statement reads
    /// nothing, the token is reported and skipped.
    fn parse_program(&mut self) -> (program: Program)
        requires
            old(self).wf(),
        ensures
            final(self).wf(),
            final(self).at_end(),
            program_v(program).body == program_list_m(old(self).tokens@, old(self).ps(), Seq::empty()).0,
            program_v(program).span == body_span_m(program_v(program).body),
            final(self).ps() == program_list_m(old(self).tokens@, old(self).ps(), Seq::empty()).1,
    {
        let ghost ts = self.tokens@;
        let ghost target = program_list_m(ts, self.ps(), Seq::empty());
        let mut body: Vec<Statement> = Vec::new();
        assert(stmts_v(body@) =~= Seq::empty());
        while !self.is_at_end()
            invariant
                self.wf(),
                ts == self.tokens@,
                target == program_list_m(ts, self.ps(), stmts_v(body@)),
            decreases self.tokens@.len() - self.cursor,
        {
            let start_cursor = self.cursor;
            let ghost before = body@;
            let statement = self.parse_statement();
            body.push(statement);
            assert(stmts_v(body@) =~= stmts_v(before).push(st_m(statement)));
            if self.cursor == start_cursor {
                self.error_here("parser made no progress".to_owned());
                self.advance();
            }
        }
        let span = merge_statement_spans(&body);
        Program { body, span }
    }
}

/// Diagnostics as their messages and spans.
pub open spec fn diags_v(v: Seq<ParseDiagnostic>) -> Seq<(Seq<char>, Span)> {
    v.map_values(|d: ParseDiagnostic| (d.message@, d.span))
}

/// `out` is what the tokens `ts` parse to: the program and the diagnostics.
pub open spec fn parsed_from(ts: Seq<Token>, out: ParseOutput) -> bool {
    &&& program_v(out.program) == parse_m(ts).0
    &&& diags_v(out.diagnostics@) == parse_m(ts).1
}

/// `out` is what parsing `source` gives: where it lexes, the program and
/// diagnostics its tokens parse to; where it does not, an empty program and
/// one diagnostic that describes the lexing failure.
pub open spec fn parses_to(source: Seq<char>, out: ParseOutput) -> bool {
    match lex_chars(source) {
        Ok(expected) => exists|ts: Seq<Token>| #[trigger] tokens_match(ts, source, expected) && parsed_from(ts, out),
        Err(e) => {
            &&& out.program.body@.len() == 0
            &&& out.program.span is None
            &&& out.diagnostics@.len() == 1
            &&& is_position_of(out.diagnostics@[0].span.start, source, e.start)
            &&& is_position_of(out.diagnostics@[0].span.end, source, e.end)
            &&& out.diagnostics@[0].message@ == lex_error_text(LexError { kind: e.kind, span: out.diagnostics@[0].span })
        },
    }
}

/// Where lexing `source` fails with `e`, parsing it gives an empty program
/// with no span and one diagnostic: the lexing error's text and span.
pub proof fn law_parse_reports_lex_failure(source: Seq<char>, out: ParseOutput, e: LexError)
    requires
        parses_to(source, out),
        lex_result_matches(Err(e), source),
    ensures
        out.program.body@.len() == 0,
        out.program.span is None,
        out.diagnostics@.len() == 1,
        out.diagnostics@[0].span == e.span,
        out.diagnostics@[0].message@ == lex_error_text(e),
{
    let x = lex_chars(source)->Err_0;
    let d = out.diagnostics@[0];
    assert(d.span.start == e.span.start);
    assert(d.span.end == e.span.end);
    assert(d.span == e.span);
    assert(LexError { kind: x.kind, span: d.span } == e);
}

/// Parses TypeScript source: lexes it, then reads statements up to the end,
/// recovering from errors. A lexing failure gives an empty program and one
/// diagnostic that describes it.
pub fn parse_source(source: &str) -> (out: ParseOutput)
    ensures
        source@.len() < usize::MAX ==> parses_to(source@, out),
{
    match lex(source) {
        Ok(tokens) => {
            let mut parser = Parser { tokens, cursor: 0, diagnostics: Vec::new() };
            assert(parser.ps() == PS { pos: 0, diags: Seq::empty() }) by {
                assert(parser.ps().diags =~= Seq::<(Seq<char>, Span)>::empty());
            }
            let program = parser.parse_program();
            let out = ParseOutput { program, diagnostics: parser.diagnostics };
            assert(diags_v(out.diagnostics@) == parser.ps().diags);
            out
        },
        Err(err) => {
            let diagnostic = diagnostic_from_lex_error(err);
            let mut diagnostics: Vec<ParseDiagnostic> = Vec::new();
            diagnostics.push(diagnostic);
            ParseOutput { program: Program { body: Vec::new(), span: None }, diagnostics }
        },
    }
}

} // verus!
