use std::collections::BTreeMap;

use lib::ast::ImportDeclaration;
use lib::modules::{bundle_module_graph, resolve_import, ModuleDiagnosticCode};

fn sources(entries: &[(&str, &str)]) -> BTreeMap<String, String> {
    entries
        .iter()
        .map(|(path, source)| ((*path).into(), (*source).into()))
        .collect()
}

#[test]
fn bundles_local_imports_dependency_first() {
    let graph = bundle_module_graph(
        "/app.ts",
        &sources(&[
            (
                "/app.ts",
                r#"
import { Account, credit } from "./account.ts";

const account: Account = {
  id: 1,
  balance: 100
};

console.log(credit(account, 50));
"#,
            ),
            (
                "/account.ts",
                r#"
export interface Account {
  id: number;
  balance: number;
}

export function credit(account: Account, amount: number): number {
  account.balance += amount;
  return account.balance;
}
"#,
            ),
        ]),
    )
    .expect("module graph should bundle");

    assert_eq!(graph.modules[0].specifier, "/account.ts");
    assert_eq!(graph.modules[1].specifier, "/app.ts");
    assert_eq!(graph.modules[0].exports, vec!["Account", "credit"]);
    assert!(graph.bundled_source.contains("interface Account"));
    assert!(graph.bundled_source.contains("function credit"));
    assert!(!graph.bundled_source.contains("import {"));
    assert!(!graph.bundled_source.contains("export function"));
}

#[test]
fn rejects_missing_local_modules() {
    let err = bundle_module_graph(
        "/app.ts",
        &sources(&[("/app.ts", r#"import { credit } from "./account.ts";"#)]),
    )
    .expect_err("missing import should fail");

    assert_eq!(err[0].code, ModuleDiagnosticCode::MissingModule);
}

#[test]
fn rejects_unsupported_non_local_specifiers() {
    let err = bundle_module_graph(
        "/app.ts",
        &sources(&[(
            "/app.ts",
            r#"import { value } from "https://example.test/mod.ts";"#,
        )]),
    )
    .expect_err("remote import should fail");

    assert_eq!(err[0].code, ModuleDiagnosticCode::UnsupportedSpecifier);
}

#[test]
fn rejects_cycles_with_a_deterministic_path() {
    let err = bundle_module_graph(
        "/a.ts",
        &sources(&[
            (
                "/a.ts",
                r#"import { b } from "./b.ts"; export const a = 1;"#,
            ),
            (
                "/b.ts",
                r#"import { a } from "./a.ts"; export const b = 2;"#,
            ),
        ]),
    )
    .expect_err("cycle should fail");

    assert_eq!(err[0].code, ModuleDiagnosticCode::Cycle);
    assert_eq!(err[0].modules, vec!["/a.ts", "/b.ts", "/a.ts"]);
}

#[test]
fn module_policy_rejects_remote_specifiers() {
    let err = bundle_module_graph(
        "/app.ts",
        &BTreeMap::from([(
            "/app.ts".into(),
            r#"import { value } from "https://evil.test/mod.ts";"#.into(),
        )]),
    )
    .expect_err("remote specifier should fail");

    assert_eq!(err[0].code, ModuleDiagnosticCode::UnsupportedSpecifier);
}

#[test]
fn missing_entry_is_reported_with_its_absolute_path() {
    let err = bundle_module_graph("app.ts", &BTreeMap::new()).expect_err("missing entry should fail");

    assert_eq!(err.len(), 1);
    assert_eq!(err[0].code, ModuleDiagnosticCode::MissingModule);
    assert_eq!(err[0].module, "/app.ts");
    assert_eq!(err[0].message, "module `/app.ts` was not provided");
    assert_eq!(err[0].modules, vec!["/app.ts"]);
}

#[test]
fn entry_paths_are_made_absolute() {
    let graph = bundle_module_graph(
        "main.ts",
        &sources(&[("/main.ts", "const answer: number = 42;")]),
    )
    .expect("single module should bundle");

    assert_eq!(graph.entry, "/main.ts");
    assert_eq!(graph.modules.len(), 1);
    assert_eq!(graph.bundled_source, "const answer: number = 42;\n");
}

#[test]
fn imports_resolve_against_the_importing_directory() {
    let import = |from: &str| ImportDeclaration {
        names: vec!["value".into()],
        from: from.into(),
    };

    assert_eq!(resolve_import("/pages/app.ts", &import("./util.ts")), Ok("/pages/util.ts".into()));
    assert_eq!(resolve_import("/pages/app.ts", &import("../lib/x.ts")), Ok("/lib/x.ts".into()));
    assert_eq!(resolve_import("/app.ts", &import("../../x.ts")), Ok("/x.ts".into()));
    assert_eq!(
        resolve_import("/app.ts", &import("./data.json")),
        Err("unsupported module specifier `./data.json`; local module specifiers must end in `.ts`".into())
    );
    assert_eq!(
        resolve_import("/app.ts", &import("lib.ts")),
        Err("unsupported module specifier `lib.ts`; only local relative TypeScript modules are allowed".into())
    );
}

#[test]
fn imports_come_before_importers_in_a_diamond() {
    let graph = bundle_module_graph(
        "/app.ts",
        &sources(&[
            ("/app.ts", r#"import { b } from "./b.ts"; import { c } from "./c.ts"; const x: number = b + c;"#),
            ("/b.ts", r#"import { d } from "./d.ts"; export const b: number = d;"#),
            ("/c.ts", r#"import { d } from "./d.ts"; export const c: number = d;"#),
            ("/d.ts", "export const d: number = 1;"),
        ]),
    )
    .expect("diamond should bundle");

    let order = graph
        .modules
        .iter()
        .map(|module| module.specifier.as_str())
        .collect::<Vec<_>>();
    assert_eq!(order, vec!["/d.ts", "/b.ts", "/c.ts", "/app.ts"]);
    assert_eq!(graph.modules[0].exports, vec!["d"]);
    assert_eq!(graph.modules[3].imports[1].resolved, "/c.ts");
}

#[test]
fn a_cycle_is_reported_once_from_where_the_walk_re_enters_it() {
    let err = bundle_module_graph(
        "/a.ts",
        &sources(&[
            (
                "/a.ts",
                r#"import { b } from "./b.ts"; export const a = 1;"#,
            ),
            (
                "/b.ts",
                r#"import { a } from "./a.ts"; export const b = 2;"#,
            ),
        ]),
    )
    .expect_err("cycle should fail");

    assert_eq!(err.len(), 1);
    assert_eq!(err[0].module, "/a.ts");
    assert_eq!(err[0].message, "module cycle detected: /a.ts -> /b.ts -> /a.ts");
}
