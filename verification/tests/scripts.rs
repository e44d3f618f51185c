use std::collections::BTreeMap;

use lib::prepared::ExecuteError;
use lib::scripts::{
    attribute, ensure_typescript_allowed, find_scripts, plan_typescript_scripts, resolve_url,
    script_src, script_type, ScriptKind, ScriptPolicy,
};

#[test]
fn finds_complete_script_elements_in_order() {
    let scripts = find_scripts(
        r#"<p>hi</p><script src="/legacy.js"></script>
<script type="text/typescript">console.log(1);</script><script>unterminated"#,
    );

    assert_eq!(scripts.len(), 2);
    assert_eq!(scripts[0].open_tag, r#"<script src="/legacy.js">"#);
    assert_eq!(scripts[0].body, "");
    assert_eq!(scripts[1].open_tag, r#"<script type="text/typescript">"#);
    assert_eq!(scripts[1].body, "console.log(1);");
}

#[test]
fn attributes_take_either_quote_and_type_is_lower_cased() {
    assert_eq!(attribute(r#"<script src= '/a.ts'>"#, "src"), Some("/a.ts".into()));
    assert_eq!(attribute(r#"<script src=/a.ts>"#, "src"), None);
    assert_eq!(attribute(r#"<script src="/a.ts>"#, "src"), None);
    assert_eq!(script_type(r#"<script type="Text/TypeScript">"#), Some("text/typescript".into()));
    assert_eq!(script_src(r#"<script type="text/typescript">"#), None);
}

#[test]
fn script_urls_resolve_against_the_page() {
    assert_eq!(resolve_url("/index.html", "app.ts"), "/app.ts");
    assert_eq!(resolve_url("/pages/index.html", "./js/app.ts"), "/pages/js/app.ts");
    assert_eq!(resolve_url("/pages/index.html", "../app.ts"), "/app.ts");
    assert_eq!(resolve_url("/pages/index.html", "/root.ts"), "/root.ts");
}

#[test]
fn policy_blocks_typescript() {
    assert!(ensure_typescript_allowed(ScriptPolicy::default()).is_ok());
    let err = ensure_typescript_allowed(ScriptPolicy { allow_typescript: false }).unwrap_err();
    assert_eq!(err.message, "TypeScript execution blocked by script policy");
    assert!(err.source.is_none());
}

#[test]
fn plans_inline_and_external_typescript_in_page_order() {
    let html = r#"
<script src="/legacy.js"></script>
<script type="text/typescript" src="/app.ts"></script>
<script type="text/typescript">console.log(40 + 2);</script>
"#;
    let resources = BTreeMap::from([
        ("/app.ts".into(), "import { answer } from \"./answer.ts\";\nconsole.log(answer);".into()),
        ("/answer.ts".into(), "export const answer: number = 42;".into()),
    ]);

    let plan = plan_typescript_scripts("/index.html", html, &resources, ScriptPolicy::default());

    assert!(plan.stopped.is_none());
    assert_eq!(plan.jobs.len(), 2);
    assert_eq!(plan.jobs[0].script.kind, ScriptKind::External);
    assert_eq!(plan.jobs[0].script.specifier, "/app.ts");
    assert_eq!(plan.jobs[0].source, "const answer: number = 42;\nconsole.log(answer)\n");
    assert_eq!(plan.jobs[0].failure, "failed to execute TypeScript script `/app.ts`");
    assert_eq!(plan.jobs[1].script.kind, ScriptKind::Inline);
    assert_eq!(plan.jobs[1].script.specifier, "<inline>");
    assert_eq!(plan.jobs[1].source, "console.log(40 + 2);");
}

#[test]
fn reports_missing_typescript_src_resource() {
    let plan = plan_typescript_scripts(
        "/index.html",
        r#"<script type="text/typescript" src="/missing.ts"></script>"#,
        &BTreeMap::new(),
        ScriptPolicy::default(),
    );

    assert!(plan.jobs.is_empty());
    let err = plan.stopped.expect("missing script should stop the plan");
    assert_eq!(err.message, "TypeScript script resource `/missing.ts` was not provided");
    assert!(err.source.is_none());
}

#[test]
fn script_policy_blocks_typescript_before_compilation() {
    let plan = plan_typescript_scripts(
        "/index.html",
        r#"<script type="text/typescript">console.log(42);</script>"#,
        &BTreeMap::new(),
        ScriptPolicy { allow_typescript: false },
    );

    assert!(plan.jobs.is_empty());
    assert!(plan.stopped.expect("policy should stop the plan").source.is_none());
}

#[test]
fn bundle_failures_carry_the_module_diagnostics() {
    let plan = plan_typescript_scripts(
        "/index.html",
        r#"<script type="text/typescript">console.log(1);</script><script type="text/typescript" src="app.ts"></script>"#,
        &BTreeMap::from([("/app.ts".into(), "import { x } from \"https://evil.test/x.ts\";".into())]),
        ScriptPolicy::default(),
    );

    assert_eq!(plan.jobs.len(), 1);
    let err = plan.stopped.expect("bundle failure should stop the plan");
    assert_eq!(err.message, "failed to execute TypeScript script `/app.ts`");
    assert!(matches!(err.source, Some(ExecuteError::Module(ref diagnostics)) if !diagnostics.is_empty()));
}

#[test]
fn script_policy_can_block_typescript_execution() {
    let plan = plan_typescript_scripts(
        "/index.html",
        r#"<script type="text/typescript">console.log(42);</script>"#,
        &BTreeMap::new(),
        ScriptPolicy { allow_typescript: false },
    );
    let err = plan.stopped.expect("policy should block TypeScript");

    assert!(err.message.contains("blocked"));
}
