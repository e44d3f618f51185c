//! The page side of script loading: which `<script>` elements of a page are
//! TypeScript, where their code comes from, and what the policy allows.
use vstd::prelude::*;
use std::collections::BTreeMap;
use crate::modules::{
    bundle_module_graph, bundle_result, leading_space, lemma_leading_space_at, resolve_path, resolved_path, ModuleDiagnostic,
    ModuleGraph,
};
use crate::lexer::char_is_whitespace;
use crate::lexer_spec::is_whitespace;
use crate::prepared::ExecuteError;
use crate::text::{chars_of, map_entries, push_str, str_eq, string_from_chars};

verus! {

/// The first position at or after `from` where `pattern` occurs in `s`.
pub open spec fn find_from(s: Seq<char>, pattern: Seq<char>, from: int) -> Option<int>
    decreases s.len() + 1 - from,
{
    if from < 0 || from + pattern.len() > s.len() {
        None
    } else if s.subrange(from, from + pattern.len()) == pattern {
        Some(from)
    } else {
        find_from(s, pattern, from + 1)
    }
}

/// What `find_from` finds: the first occurrence at or after `from`.
pub proof fn lemma_find_from(s: Seq<char>, pattern: Seq<char>, from: int)
    ensures
        match find_from(s, pattern, from) {
            Some(i) => {
                &&& 0 <= from <= i
                &&& i + pattern.len() <= s.len()
                &&& s.subrange(i, i + pattern.len()) == pattern
            },
            None => true,
        },
    decreases s.len() + 1 - from,
{
    if !(from < 0 || from + pattern.len() > s.len()) && s.subrange(from, from + pattern.len()) != pattern {
        lemma_find_from(s, pattern, from + 1);
    }
}

/// Whether `pattern` occurs in `s` at `at`.
fn occurs_at(s: &Vec<char>, pattern: &Vec<char>, at: usize) -> (b: bool)
    requires
        at + pattern.len() <= s.len(),
    ensures
        b == (s@.subrange(at as int, at + pattern.len()) == pattern@),
{
    let mut k: usize = 0;
    while k < pattern.len()
        invariant
            at + pattern.len() <= s.len(),
            k <= pattern.len(),
            forall|j: int| 0 <= j < k ==> s@[at + j] == pattern@[j],
        decreases pattern.len() - k,
    {
        if s[at + k] != pattern[k] {
            assert(s@.subrange(at as int, at + pattern.len())[k as int] != pattern@[k as int]);
            return false;
        }
        k += 1;
    }
    assert(s@.subrange(at as int, at + pattern.len()) =~= pattern@);
    true
}

/// The first position at or after `from` where `pattern` occurs in `s`.
fn find_chars(s: &Vec<char>, pattern: &Vec<char>, from: usize) -> (r: Option<usize>)
    ensures
        match r {
            Some(j) => find_from(s@, pattern@, from as int) == Some(j as int) && j + pattern@.len() <= s@.len(),
            None => find_from(s@, pattern@, from as int) is None,
        },
{
    let mut i = from;
    while i <= s.len() && pattern.len() <= s.len() - i
        invariant
            from <= i,
            find_from(s@, pattern@, from as int) == find_from(s@, pattern@, i as int),
        decreases s.len() + 1 - i,
    {
        if occurs_at(s, pattern, i) {
            return Some(i);
        }
        if pattern.len() == 0 {
            assert(s@.subrange(i as int, i as int) =~= pattern@);
        }
        i += 1;
    }
    None
}

/// The `(opening tag, body)` of each complete `<script ...>...</script>`
/// element of `html` at or after `cursor`, in order.
pub open spec fn scripts_from(html: Seq<char>, cursor: int) -> Seq<(Seq<char>, Seq<char>)>
    decreases html.len() - cursor,
{
    match find_from(html, "<script"@, cursor) {
        None => Seq::empty(),
        Some(tag_start) => match find_from(html, ">"@, tag_start) {
            None => Seq::empty(),
            Some(gt) => match find_from(html, "</script>"@, gt + 1) {
                None => Seq::empty(),
                Some(close_start) => {
                    let next = close_start + "</script>"@.len();
                    if cursor < next <= html.len() {
                        seq![(html.subrange(tag_start, gt + 1), html.subrange(gt + 1, close_start))]
                            + scripts_from(html, next)
                    } else {
                        Seq::empty()
                    }
                },
            },
        },
    }
}

/// A `<script>` element: its opening tag and its body.
#[derive(Debug, Clone, PartialEq, Eq)]
pub struct ScriptSlice {
    pub open_tag: String,
    pub body: String,
}

/// The script elements of `html`, in order.
pub fn find_scripts(html: &str) -> (scripts: Vec<ScriptSlice>)
    ensures
        scripts@.map_values(|s: ScriptSlice| (s.open_tag@, s.body@)) == scripts_from(html@, 0),
{
    let chars = chars_of(html);
    let open = chars_of("<script");
    let gt = chars_of(">");
    let close = chars_of("</script>");
    let mut scripts: Vec<ScriptSlice> = Vec::new();
    let mut cursor: usize = 0;
    assert(scripts@.map_values(|s: ScriptSlice| (s.open_tag@, s.body@)) + scripts_from(html@, 0) =~= scripts_from(html@, 0));
    loop
        invariant
            chars@ == html@,
            open@ == "<script"@,
            gt@ == ">"@,
            close@ == "</script>"@,
            cursor <= chars.len(),
            scripts@.map_values(|s: ScriptSlice| (s.open_tag@, s.body@)) + scripts_from(html@, cursor as int) == scripts_from(html@, 0),
        ensures
            scripts@.map_values(|s: ScriptSlice| (s.open_tag@, s.body@)) == scripts_from(html@, 0),
        decreases chars.len() - cursor,
    {
        let ghost before = scripts@.map_values(|s: ScriptSlice| (s.open_tag@, s.body@));
        proof {
            lemma_find_from(html@, "<script"@, cursor as int);
        }
        let tag_start = match find_chars(&chars, &open, cursor) {
            Some(t) => t,
            None => {
                assert(scripts_from(html@, cursor as int) =~= Seq::empty());
                assert(before + scripts_from(html@, cursor as int) =~= before);
                break;
            },
        };
        proof {
            lemma_find_from(html@, ">"@, tag_start as int);
            reveal_strlit(">");
        }
        let tag_end = match find_chars(&chars, &gt, tag_start) {
            Some(t) => t + 1,
            None => {
                assert(scripts_from(html@, cursor as int) =~= Seq::empty());
                assert(before + scripts_from(html@, cursor as int) =~= before);
                break;
            },
        };
        proof {
            lemma_find_from(html@, "</script>"@, tag_end as int);
        }
        let close_start = match find_chars(&chars, &close, tag_end) {
            Some(c) => c,
            None => {
                assert(scripts_from(html@, cursor as int) =~= Seq::empty());
                assert(before + scripts_from(html@, cursor as int) =~= before);
                break;
            },
        };
        let open_tag = string_from_chars(copy_chars(&chars, tag_start, tag_end));
        let body = string_from_chars(copy_chars(&chars, tag_end, close_start));
        scripts.push(ScriptSlice { open_tag, body });
        let next = close_start + close.len();
        proof {
            let piece = (html@.subrange(tag_start as int, tag_end as int), html@.subrange(tag_end as int, close_start as int));
            assert(scripts_from(html@, cursor as int) == seq![piece] + scripts_from(html@, next as int));
            assert(scripts@.map_values(|s: ScriptSlice| (s.open_tag@, s.body@)) =~= before.push(piece));
            assert(before.push(piece) + scripts_from(html@, next as int) =~= before + (seq![piece] + scripts_from(html@, next as int)));
        }
        cursor = next;
    }
    scripts
}

/// The characters `chars[start..end]`.
fn copy_chars(chars: &Vec<char>, start: usize, end: usize) -> (c: Vec<char>)
    requires
        start <= end <= chars.len(),
    ensures
        c@ == chars@.subrange(start as int, end as int),
{
    let mut c: Vec<char> = Vec::new();
    let mut i = start;
    while i < end
        invariant
            start <= i <= end <= chars.len(),
            c@ == chars@.subrange(start as int, i as int),
        decreases end - i,
    {
        c.push(chars[i]);
        i += 1;
        assert(c@ =~= chars@.subrange(start as int, i as int));
    }
    c
}

/// The value of attribute `name` in an opening tag: the first `name=` is
/// followed, after whitespace, by a quote, and the value runs to the next
/// such quote.
pub open spec fn attribute_value(tag: Seq<char>, name: Seq<char>) -> Option<Seq<char>> {
    let pattern = name.push('=');
    match find_from(tag, pattern, 0) {
        None => None,
        Some(p) => {
            let value = tag.skip(p + pattern.len());
            let quoted = value.skip(leading_space(value));
            if quoted.len() == 0 || (quoted[0] != '"' && quoted[0] != '\'') {
                None
            } else {
                let rest = quoted.drop_first();
                match find_from(rest, seq![quoted[0]], 0) {
                    None => None,
                    Some(end) => Some(rest.take(end)),
                }
            }
        },
    }
}

/// `c` with ASCII upper-case letters made lower-case.
pub open spec fn ascii_lower_char(c: char) -> char {
    if 'A' <= c <= 'Z' {
        ((c as u32 + 32) as u8) as char
    } else {
        c
    }
}

/// `s` with ASCII upper-case letters made lower-case.
pub open spec fn ascii_lower(s: Seq<char>) -> Seq<char> {
    s.map_values(|c: char| ascii_lower_char(c))
}

fn lower_char(c: char) -> (l: char)
    ensures
        l == ascii_lower_char(c),
{
    if 'A' <= c && c <= 'Z' {
        ((c as u32 + 32) as u8) as char
    } else {
        c
    }
}

/// The value of attribute `name` in `open_tag`, if it has a quoted one.
pub fn attribute(open_tag: &str, name: &str) -> (value: Option<String>)
    ensures
        match attribute_value(open_tag@, name@) {
            Some(v) => value matches Some(s) && s@ == v,
            None => value is None,
        },
{
    let tag = chars_of(open_tag);
    let mut pattern = chars_of(name);
    pattern.push('=');
    let p = match find_chars(&tag, &pattern, 0) {
        Some(p) => p,
        None => return None,
    };
    proof {
        lemma_find_from(tag@, pattern@, 0);
    }
    let plen = pattern.len();
    assert(p + plen <= tag.len());
    let start = p + plen;
    let ghost value = tag@.skip(start as int);
    let mut v = start;
    while v < tag.len() && char_is_whitespace(tag[v])
        invariant
            start <= v <= tag.len(),
            value == tag@.skip(start as int),
            forall|k: int| start <= k < v ==> is_whitespace(#[trigger] tag@[k]),
        decreases tag.len() - v,
    {
        v += 1;
    }
    proof {
        lemma_leading_space_at(value, v - start);
    }
    let ghost quoted = value.skip(leading_space(value));
    assert(quoted =~= tag@.skip(v as int));
    if v >= tag.len() {
        return None;
    }
    let quote = tag[v];
    if quote != '"' && quote != '\'' {
        return None;
    }
    let rest = copy_chars(&tag, v + 1, tag.len());
    assert(rest@ =~= quoted.drop_first());
    let mut needle: Vec<char> = Vec::new();
    needle.push(quote);
    assert(needle@ =~= seq![quoted[0]]);
    match find_chars(&rest, &needle, 0) {
        None => None,
        Some(end) => {
            proof {
                lemma_find_from(rest@, needle@, 0);
            }
            let text = copy_chars(&rest, 0, end);
            assert(text@ =~= rest@.take(end as int));
            Some(string_from_chars(text))
        },
    }
}

/// The `type` of a script tag, ASCII-lower-cased.
pub fn script_type(open_tag: &str) -> (kind: Option<String>)
    ensures
        match attribute_value(open_tag@, "type"@) {
            Some(v) => kind matches Some(s) && s@ == ascii_lower(v),
            None => kind is None,
        },
{
    match attribute(open_tag, "type") {
        None => None,
        Some(value) => {
            let chars = chars_of(value.as_str());
            let mut lower: Vec<char> = Vec::new();
            let mut i: usize = 0;
            while i < chars.len()
                invariant
                    i <= chars.len(),
                    lower@ == ascii_lower(chars@.take(i as int)),
                decreases chars.len() - i,
            {
                lower.push(lower_char(chars[i]));
                i += 1;
                assert(lower@ =~= ascii_lower(chars@.take(i as int)));
            }
            assert(chars@.take(chars.len() as int) =~= chars@);
            Some(string_from_chars(lower))
        },
    }
}

/// The `src` of a script tag.
pub fn script_src(open_tag: &str) -> (src: Option<String>)
    ensures
        match attribute_value(open_tag@, "src"@) {
            Some(v) => src matches Some(s) && s@ == v,
            None => src is None,
        },
{
    attribute(open_tag, "src")
}

/// Where a script's `src` points, seen from the page at `document_url`: an
/// absolute path as it is, otherwise resolved against the page's directory.
pub open spec fn script_url(document_url: Seq<char>, src: Seq<char>) -> Seq<char> {
    if src.len() > 0 && src[0] == '/' {
        src
    } else {
        resolved_path(document_url, src)
    }
}

/// The path of a script's `src`, seen from the page at `document_url`.
pub fn resolve_url(document_url: &str, src: &str) -> (url: String)
    ensures
        url@ == script_url(document_url@, src@),
{
    let chars = chars_of(src);
    if chars.len() > 0 && chars[0] == '/' {
        return src.to_owned();
    }
    resolve_path(document_url, src)
}

/// A script that ran: where its code came from.
#[derive(Debug, Clone, PartialEq, Eq)]
pub struct ScriptExecution {
    pub kind: ScriptKind,
    pub specifier: String,
}

/// Whether a script's code came from a `src` resource or from the page itself.
#[derive(Debug, Copy, Clone, PartialEq, Eq, Structural)]
pub enum ScriptKind {
    External,
    Inline,
}

/// Why the scripts of a page could not all run.
#[derive(Debug, Clone, PartialEq)]
pub struct ScriptLoaderError {
    pub message: String,
    pub source: Option<ExecuteError>,
}

/// What a page may run.
#[derive(Debug, Copy, Clone, PartialEq, Eq, Structural)]
pub struct ScriptPolicy {
    pub allow_typescript: bool,
}

impl Default for ScriptPolicy {
    /// TypeScript is allowed.
    fn default() -> (policy: Self)
        ensures
            policy.allow_typescript,
    {
        ScriptPolicy { allow_typescript: true }
    }
}

/// Whether `e` says that the policy blocked TypeScript.
pub open spec fn is_blocked_error(e: ScriptLoaderError) -> bool {
    e.message@ == "TypeScript execution blocked by script policy"@ && e.source is None
}

/// Fails unless `policy` allows TypeScript.
pub fn ensure_typescript_allowed(policy: ScriptPolicy) -> (r: Result<(), ScriptLoaderError>)
    ensures
        r is Ok <==> policy.allow_typescript,
        r matches Err(e) ==> is_blocked_error(e),
{
    if policy.allow_typescript {
        return Ok(());
    }
    Err(ScriptLoaderError { message: "TypeScript execution blocked by script policy".to_owned(), source: None })
}

/// A script to run: what it is, its code, and the message that a failure of
/// that code is reported with.
#[derive(Debug, Clone, PartialEq, Eq)]
pub struct ScriptJob {
    pub script: ScriptExecution,
    pub source: String,
    pub failure: String,
}

/// The scripts of a page to run in order, and, when one could not be
/// prepared, the error that is reported once the scripts before it have run.
#[derive(Debug, Clone, PartialEq)]
pub struct ScriptPlan {
    pub jobs: Vec<ScriptJob>,
    pub stopped: Option<ScriptLoaderError>,
}

/// Whether an opening tag declares a TypeScript script.
pub open spec fn is_typescript_tag(tag: Seq<char>) -> bool {
    attribute_value(tag, "type"@) matches Some(v) && ascii_lower(v) == "text/typescript"@
}

/// Whether `resources` has a resource at `path`.
pub open spec fn has_resource(resources: Map<String, String>, path: Seq<char>) -> bool {
    exists|k: String| #[trigger] resources.contains_key(k) && k@ == path
}

/// The message of a failure of the external script `specifier`.
pub open spec fn external_failure(specifier: Seq<char>) -> Seq<char> {
    "failed to execute TypeScript script `"@ + specifier + "`"@
}

/// `jobs` and `stopped` are what planning the scripts from position `i`
/// on gives: other scripts are passed over; a TypeScript script is refused
/// by a policy that blocks TypeScript, runs its body when it has no `src`,
/// and otherwise needs its resource, whose module graph is then bundled:
/// the job runs the bundle, or, where bundling fails, planning stops with
/// its module diagnostics.
pub open spec fn plan_ok(
    document_url: Seq<char>,
    scripts: Seq<(Seq<char>, Seq<char>)>,
    i: int,
    resources: Map<String, String>,
    allow: bool,
    jobs: Seq<ScriptJob>,
    stopped: Option<ScriptLoaderError>,
) -> bool
    decreases scripts.len() - i,
{
    if i < 0 || i >= scripts.len() {
        jobs.len() == 0 && stopped is None
    } else if !is_typescript_tag(scripts[i].0) {
        plan_ok(document_url, scripts, i + 1, resources, allow, jobs, stopped)
    } else if !allow {
        &&& jobs.len() == 0
        &&& stopped matches Some(e) && is_blocked_error(e)
    } else {
        match attribute_value(scripts[i].0, "src"@) {
            None => {
                &&& jobs.len() > 0
                &&& jobs[0].script.kind == ScriptKind::Inline
                &&& jobs[0].script.specifier@ == "<inline>"@
                &&& jobs[0].source@ == scripts[i].1
                &&& jobs[0].failure@ == "failed to execute inline TypeScript script"@
                &&& plan_ok(document_url, scripts, i + 1, resources, allow, jobs.drop_first(), stopped)
            },
            Some(src) => {
                let specifier = script_url(document_url, src);
                if !has_resource(resources, specifier) {
                    &&& jobs.len() == 0
                    &&& stopped matches Some(e)
                    &&& e.message@ == "TypeScript script resource `"@ + specifier + "` was not provided"@
                    &&& e.source is None
                } else {
                    exists|r: Result<ModuleGraph, Vec<ModuleDiagnostic>>|
                        #[trigger] bundle_result(specifier, resources, r) && match r {
                            Ok(graph) => {
                                &&& jobs.len() > 0
                                &&& jobs[0].script.kind == ScriptKind::External
                                &&& jobs[0].script.specifier@ == specifier
                                &&& jobs[0].source@ == graph.bundled_source@
                                &&& jobs[0].failure@ == external_failure(specifier)
                                &&& plan_ok(document_url, scripts, i + 1, resources, allow, jobs.drop_first(), stopped)
                            },
                            Err(diagnostics) => {
                                &&& jobs.len() == 0
                                &&& stopped matches Some(e)
                                &&& e.message@ == external_failure(specifier)
                                &&& e.source == Some(ExecuteError::Module(diagnostics))
                            },
                        }
                }
            },
        }
    }
}

fn message_with(before: &str, middle: &str, after: &str) -> (m: String)
    ensures
        m@ == before@ + middle@ + after@,
{
    let mut text: Vec<char> = Vec::new();
    push_str(&mut text, before);
    push_str(&mut text, middle);
    push_str(&mut text, after);
    string_from_chars(text)
}

/// Plans the TypeScript scripts of the page at `document_url`, in order:
/// inline ones run their body; those with a `src` run the bundle of the
/// module graph of their resource. Planning stops at the first script
/// that the policy blocks, whose resource is missing, or whose modules do
/// not bundle.
pub fn plan_typescript_scripts(
    document_url: &str,
    html: &str,
    resources: &BTreeMap<String, String>,
    policy: ScriptPolicy,
) -> (plan: ScriptPlan)
    ensures
        plan_ok(document_url@, scripts_from(html@, 0), 0, resources@, policy.allow_typescript, plan.jobs@, plan.stopped),
{
    let scripts = find_scripts(html);
    let ghost all = scripts_from(html@, 0);
    let entries = map_entries(resources);
    let mut jobs: Vec<ScriptJob> = Vec::new();
    let mut i: usize = 0;
    while i < scripts.len()
        invariant
            i <= scripts@.len(),
            all == scripts_from(html@, 0),
            all == scripts@.map_values(|s: ScriptSlice| (s.open_tag@, s.body@)),
            forall|j: int| 0 <= j < entries@.len() ==> #[trigger] resources@.contains_key(entries@[j].0),
            forall|k: String| #[trigger] resources@.contains_key(k) ==> exists|j: int| 0 <= j < entries@.len() && entries@[j].0 == k,
            forall|rest: Seq<ScriptJob>, stopped: Option<ScriptLoaderError>|
                #[trigger] plan_ok(document_url@, all, i as int, resources@, policy.allow_typescript, rest, stopped)
                    ==> plan_ok(document_url@, all, 0, resources@, policy.allow_typescript, jobs@ + rest, stopped),
        decreases scripts.len() - i,
    {
        let tag = scripts[i].open_tag.as_str();
        let is_typescript = match script_type(tag) {
            Some(kind) => str_eq(kind.as_str(), "text/typescript"),
            None => false,
        };
        assert(all[i as int] == (scripts@[i as int].open_tag@, scripts@[i as int].body@));
        if !is_typescript {
            assert forall|rest: Seq<ScriptJob>, stopped: Option<ScriptLoaderError>|
                #[trigger] plan_ok(document_url@, all, i + 1, resources@, policy.allow_typescript, rest, stopped)
                    implies plan_ok(document_url@, all, 0, resources@, policy.allow_typescript, jobs@ + rest, stopped) by {
                assert(plan_ok(document_url@, all, i as int, resources@, policy.allow_typescript, rest, stopped));
            }
            i += 1;
            continue;
        }
        match ensure_typescript_allowed(policy) {
            Ok(()) => {},
            Err(e) => {
                let plan = ScriptPlan { jobs, stopped: Some(e) };
                assert(plan_ok(document_url@, all, i as int, resources@, policy.allow_typescript, Seq::empty(), plan.stopped));
                assert(plan.jobs@ + Seq::<ScriptJob>::empty() =~= plan.jobs@);
                assert(plan_ok(document_url@, all, 0, resources@, policy.allow_typescript, plan.jobs@ + Seq::<ScriptJob>::empty(), plan.stopped));
                return plan;
            },
        }
        match script_src(tag) {
            None => {
                let job = ScriptJob {
                    script: ScriptExecution { kind: ScriptKind::Inline, specifier: "<inline>".to_owned() },
                    source: scripts[i].body.clone(),
                    failure: "failed to execute inline TypeScript script".to_owned(),
                };
                let ghost before = jobs@;
                jobs.push(job);
                assert forall|rest: Seq<ScriptJob>, stopped: Option<ScriptLoaderError>|
                    #[trigger] plan_ok(document_url@, all, i + 1, resources@, policy.allow_typescript, rest, stopped)
                        implies plan_ok(document_url@, all, 0, resources@, policy.allow_typescript, jobs@ + rest, stopped) by {
                    assert((seq![job] + rest).drop_first() =~= rest);
                    assert(plan_ok(document_url@, all, i as int, resources@, policy.allow_typescript, seq![job] + rest, stopped));
                    assert(before + (seq![job] + rest) =~= jobs@ + rest);
                }
            },
            Some(src) => {
                let specifier = resolve_url(document_url, src.as_str());
                let mut found = false;
                let mut k: usize = 0;
                while k < entries.len() && !found
                    invariant
                        k <= entries@.len(),
                        found ==> exists|j: int| 0 <= j < entries@.len() && entries@[j].0@ == specifier@,
                        !found ==> forall|j: int| 0 <= j < k ==> entries@[j].0@ != specifier@,
                    decreases entries.len() - k,
                {
                    if str_eq(entries[k].0.as_str(), specifier.as_str()) {
                        found = true;
                    }
                    k += 1;
                }
                let ghost spec = specifier@;
                proof {
                    if found {
                        let j = choose|j: int| 0 <= j < entries@.len() && entries@[j].0@ == spec;
                        assert(resources@.contains_key(entries@[j].0));
                    } else {
                        assert forall|key: String| #[trigger] resources@.contains_key(key) implies key@ != spec by {
                            let j = choose|j: int| 0 <= j < entries@.len() && entries@[j].0 == key;
                        }
                    }
                }
                if !found {
                    let e = ScriptLoaderError {
                        message: message_with("TypeScript script resource `", specifier.as_str(), "` was not provided"),
                        source: None,
                    };
                    let plan = ScriptPlan { jobs, stopped: Some(e) };
                    assert(plan_ok(document_url@, all, i as int, resources@, policy.allow_typescript, Seq::empty(), plan.stopped));
                    assert(plan.jobs@ + Seq::<ScriptJob>::empty() =~= plan.jobs@);
                    assert(plan_ok(document_url@, all, 0, resources@, policy.allow_typescript, plan.jobs@ + Seq::<ScriptJob>::empty(), plan.stopped));
                    return plan;
                }
                let failure = message_with("failed to execute TypeScript script `", specifier.as_str(), "`");
                match bundle_module_graph(specifier.as_str(), resources) {
                    Err(diagnostics) => {
                        let e = ScriptLoaderError { message: failure, source: Some(ExecuteError::Module(diagnostics)) };
                        let plan = ScriptPlan { jobs, stopped: Some(e) };
                        assert(plan_ok(document_url@, all, i as int, resources@, policy.allow_typescript, Seq::empty(), plan.stopped));
                        assert(plan.jobs@ + Seq::<ScriptJob>::empty() =~= plan.jobs@);
                        assert(plan_ok(document_url@, all, 0, resources@, policy.allow_typescript, plan.jobs@ + Seq::<ScriptJob>::empty(), plan.stopped));
                        return plan;
                    },
                    Ok(graph) => {
                        let job = ScriptJob {
                            script: ScriptExecution { kind: ScriptKind::External, specifier },
                            source: graph.bundled_source,
                            failure,
                        };
                        let ghost before = jobs@;
                        jobs.push(job);
                        assert forall|rest: Seq<ScriptJob>, stopped: Option<ScriptLoaderError>|
                            #[trigger] plan_ok(document_url@, all, i + 1, resources@, policy.allow_typescript, rest, stopped)
                                implies plan_ok(document_url@, all, 0, resources@, policy.allow_typescript, jobs@ + rest, stopped) by {
                            assert((seq![job] + rest).drop_first() =~= rest);
                            assert(plan_ok(document_url@, all, i as int, resources@, policy.allow_typescript, seq![job] + rest, stopped));
                            assert(before + (seq![job] + rest) =~= jobs@ + rest);
                        }
                    },
                }
            },
        }
        i += 1;
    }
    let plan = ScriptPlan { jobs, stopped: None };
    assert(plan_ok(document_url@, all, i as int, resources@, policy.allow_typescript, Seq::empty(), None));
    assert(jobs@ + Seq::<ScriptJob>::empty() =~= jobs@);
    plan
}

} // verus!
