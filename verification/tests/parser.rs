use lib::ast::{Expression, ExpressionKind, StatementKind, TypeKind, VariableKind};
use lib::parser::parse_source;

#[test]
fn parses_initial_demo_program_into_spanned_ast() {
    let source = r#"
interface Account {
  id: number;
  balance: number;
}

function credit(account: Account, amount: number): number {
  account.balance += amount;
  return account.balance;
}

const account: Account = {
  id: 1,
  balance: 100
};

console.log(credit(account, 50));
"#;

    let parsed = parse_source(source);

    assert!(parsed.diagnostics.is_empty(), "{:?}", parsed.diagnostics);
    assert_eq!(parsed.program.body.len(), 4);
    assert!(parsed.program.span.is_some());

    let StatementKind::Interface(interface) = &parsed.program.body[0].kind else {
        panic!("expected interface");
    };
    assert_eq!(interface.name, "Account");
    assert_eq!(interface.members.len(), 2);
    assert_eq!(interface.members[0].name, "id");
    assert_eq!(interface.members[0].ty.kind, TypeKind::Number);

    let StatementKind::Function(function) = &parsed.program.body[1].kind else {
        panic!("expected function");
    };
    assert_eq!(function.name, "credit");
    assert_eq!(function.params.len(), 2);
    assert_eq!(function.params[0].name, "account");
    assert_eq!(
        function.params[0].ty.as_ref().unwrap().kind,
        TypeKind::Named("Account".into())
    );
    assert_eq!(
        function.return_type.as_ref().unwrap().kind,
        TypeKind::Number
    );
    assert_eq!(function.body.len(), 2);

    let StatementKind::Variable(variable) = &parsed.program.body[2].kind else {
        panic!("expected variable");
    };
    assert_eq!(variable.kind, VariableKind::Const);
    assert_eq!(variable.name, "account");
    assert_eq!(
        variable.ty.as_ref().unwrap().kind,
        TypeKind::Named("Account".into())
    );
    assert!(matches!(
        variable.initializer.as_ref().unwrap().kind,
        ExpressionKind::Object(_)
    ));

    assert!(parsed.program.body[3].span.start.line > parsed.program.body[2].span.start.line);
}

#[test]
fn parses_control_flow_and_expression_precedence() {
    let source = r#"
let x: number = 1 + 2 * 3;
if (x > 3 && x !== null) {
  x += 1;
} else {
  throw "bad";
}
"#;

    let parsed = parse_source(source);

    assert!(parsed.diagnostics.is_empty(), "{:?}", parsed.diagnostics);
    assert_eq!(parsed.program.body.len(), 2);

    let StatementKind::Variable(variable) = &parsed.program.body[0].kind else {
        panic!("expected variable");
    };
    let ExpressionKind::Binary { right, .. } = &variable.initializer.as_ref().unwrap().kind else {
        panic!("expected binary initializer");
    };
    assert!(matches!(right.kind, ExpressionKind::Binary { .. }));

    let StatementKind::If(if_stmt) = &parsed.program.body[1].kind else {
        panic!("expected if statement");
    };
    assert!(matches!(if_stmt.test.kind, ExpressionKind::Binary { .. }));
    assert!(if_stmt.alternate.is_some());
}

#[test]
fn parses_import_export_type_alias_class_and_arrays() {
    let source = r#"
import { value } from "./module.ts";
export type Pair = { left: number; right: number; };
class Box {
  values: number[];
}
const items: number[] = [1, 2, value];
"#;

    let parsed = parse_source(source);

    assert!(parsed.diagnostics.is_empty(), "{:?}", parsed.diagnostics);
    assert_eq!(parsed.program.body.len(), 4);
    assert!(matches!(
        parsed.program.body[0].kind,
        StatementKind::Import(_)
    ));
    assert!(matches!(
        parsed.program.body[1].kind,
        StatementKind::Export(_)
    ));
    assert!(matches!(
        parsed.program.body[2].kind,
        StatementKind::Class(_)
    ));

    let StatementKind::Variable(variable) = &parsed.program.body[3].kind else {
        panic!("expected variable");
    };
    assert!(matches!(
        variable.ty.as_ref().unwrap().kind,
        TypeKind::Array(_)
    ));
    assert!(matches!(
        variable.initializer.as_ref().unwrap().kind,
        ExpressionKind::Array(_)
    ));
}

#[test]
fn recovers_from_common_syntax_errors_and_keeps_later_statements() {
    let source = r#"
const broken: number = ;
const good: number = 42;
"#;

    let parsed = parse_source(source);

    assert!(!parsed.diagnostics.is_empty());
    assert_eq!(parsed.program.body.len(), 2);
    assert!(matches!(
        parsed.program.body[0].kind,
        StatementKind::Variable(_)
    ));

    let StatementKind::Variable(variable) = &parsed.program.body[1].kind else {
        panic!("expected recovered variable");
    };
    assert_eq!(variable.name, "good");
    assert_eq!(variable.ty.as_ref().unwrap().kind, TypeKind::Number);
}

#[test]
fn lex_errors_become_one_parse_diagnostic_and_an_empty_program() {
    let parsed = parse_source("const s = \"open");

    assert!(parsed.program.body.is_empty());
    assert!(parsed.program.span.is_none());
    assert_eq!(parsed.diagnostics.len(), 1);
    assert_eq!(parsed.diagnostics[0].message, "unterminated string at 1:11");
    assert_eq!(parsed.diagnostics[0].span.start.column, 11);
}

#[test]
fn diagnostics_describe_their_position() {
    let parsed = parse_source("const broken: number = ;");

    assert!(!parsed.diagnostics.is_empty());
    let text = parsed.diagnostics[0].describe();
    assert!(text.starts_with(&parsed.diagnostics[0].message));
    assert!(text.ends_with(" at 1:24"), "{text}");
}

#[test]
fn a_missing_type_is_reported_with_the_token_found() {
    let parsed = parse_source("let x: ;");
    let messages: Vec<&str> = parsed.diagnostics.iter().map(|d| d.message.as_str()).collect();
    assert_eq!(messages, vec!["expected type, found Semicolon"]);
    assert_eq!(parsed.program.body.len(), 1);
    match &parsed.program.body[0].kind {
        StatementKind::Variable(variable) => {
            assert_eq!(variable.name, "x");
            let ty = variable.ty.as_ref().expect("annotation stands in");
            assert_eq!(ty.kind, TypeKind::Named("<error>".into()));
            assert!(variable.initializer.is_none());
        }
        other => panic!("expected a variable, got {other:?}"),
    }
}

#[test]
fn assignments_group_to_the_right_and_suffixes_to_the_left() {
    let parsed = parse_source("a = b = 1; x.y(1, 2).z;");
    assert!(parsed.diagnostics.is_empty());
    match &parsed.program.body[0].kind {
        StatementKind::Expression(Expression { kind: ExpressionKind::Assignment { left, right, .. }, .. }) => {
            assert_eq!(left.kind, ExpressionKind::Identifier("a".into()));
            assert!(matches!(right.kind, ExpressionKind::Assignment { .. }));
        }
        other => panic!("expected an assignment, got {other:?}"),
    }
    match &parsed.program.body[1].kind {
        StatementKind::Expression(Expression { kind: ExpressionKind::Member { object, property }, .. }) => {
            assert_eq!(property, "z");
            match &object.kind {
                ExpressionKind::Call { callee, arguments } => {
                    assert_eq!(arguments.len(), 2);
                    assert!(matches!(&callee.kind, ExpressionKind::Member { property, .. } if property == "y"));
                }
                other => panic!("expected a call, got {other:?}"),
            }
        }
        other => panic!("expected a member access, got {other:?}"),
    }
}

#[test]
fn object_types_take_comma_separated_members_and_array_suffixes() {
    let parsed = parse_source("type T = { a: number, b: string[] };");
    assert!(parsed.diagnostics.is_empty());
    match &parsed.program.body[0].kind {
        StatementKind::TypeAlias(alias) => match &alias.ty.kind {
            TypeKind::Object(members) => {
                assert_eq!(members.len(), 2);
                assert_eq!(members[0].name, "a");
                assert_eq!(members[0].ty.kind, TypeKind::Number);
                assert_eq!(members[1].name, "b");
                assert!(matches!(&members[1].ty.kind, TypeKind::Array(inner) if inner.kind == TypeKind::String));
            }
            other => panic!("expected an object type, got {other:?}"),
        },
        other => panic!("expected a type alias, got {other:?}"),
    }
}

#[test]
fn an_unclosed_call_reports_each_missing_piece() {
    let parsed = parse_source("foo(;");
    let messages: Vec<&str> = parsed.diagnostics.iter().map(|d| d.message.as_str()).collect();
    assert_eq!(messages, vec!["expected expression, found Semicolon", "expected closing call arguments"]);
    assert_eq!(parsed.program.body.len(), 1);
}
