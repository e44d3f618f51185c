//! Module graphs: local imports resolved against the importing module,
//! dependencies ordered before their importers, and bundled into one source.
use vstd::prelude::*;
use std::collections::BTreeMap;
use crate::ast::{ImportDeclaration, Span, Statement, StatementKind};
use crate::parser::{opt_text, parse_source, parses_to, ParseDiagnostic, ParseOutput};
use crate::parser_spec::{program_v, st_m, texts_v, StKindM, StM};
use crate::lexer::{char_is_whitespace, char_width, lemma_position_bounds};
use crate::lexer_spec::{byte_offset, is_whitespace};
use crate::text::{chars_of, map_entries, push_str, str_eq, string_from_chars};

verus! {

#[derive(Debug, PartialEq, Eq)]
pub struct ModuleGraph {
    pub entry: String,
    pub modules: Vec<ModuleRecord>,
    pub bundled_source: String,
}

#[derive(Debug, PartialEq, Eq)]
pub struct ModuleRecord {
    pub specifier: String,
    pub imports: Vec<ResolvedImport>,
    pub exports: Vec<String>,
}

#[derive(Debug, PartialEq, Eq)]
pub struct ResolvedImport {
    pub names: Vec<String>,
    pub from: String,
    pub resolved: String,
}

#[derive(Debug, Clone, PartialEq, Eq)]
pub struct ModuleDiagnostic {
    pub code: ModuleDiagnosticCode,
    pub message: String,
    pub module: String,
    pub modules: Vec<String>,
}

#[derive(Debug, Copy, Clone, PartialEq, Eq, Structural)]
pub enum ModuleDiagnosticCode {
    MissingModule,
    UnsupportedSpecifier,
    Cycle,
    Parse,
}

/// Whether a record for `specifier` is among the first `n` of `modules`.
pub open spec fn recorded_before(modules: Seq<ModuleRecord>, n: int, specifier: Seq<char>) -> bool {
    exists|i: int| 0 <= i < n && i < modules.len() && (#[trigger] modules[i]).specifier@ == specifier
}

/// No two records of `modules` are for the same module.
#[verifier::opaque]
pub open spec fn distinct_modules(modules: Seq<ModuleRecord>) -> bool {
    forall|a: int, b: int| 0 <= a < b < modules.len() ==> modules[a].specifier@ != modules[b].specifier@
}

/// Every module in `modules` comes after the modules it imports.
pub open spec fn dependencies_first(modules: Seq<ModuleRecord>) -> bool {
    forall|j: int, r: int|
        0 <= j < modules.len() && 0 <= r < modules[j].imports@.len() ==> #[trigger] recorded_before(
            modules,
            j,
            modules[j].imports@[r].resolved@,
        )
}

/// The position of the first `/` in `s`.
pub open spec fn first_slash(s: Seq<char>) -> Option<int>
    decreases s.len(),
{
    if s.len() == 0 {
        None
    } else if s[0] == '/' {
        Some(0)
    } else {
        match first_slash(s.drop_first()) {
            Some(i) => Some(i + 1),
            None => None,
        }
    }
}

/// The pieces of `s` between slashes (`"a//b"` gives `a`, an empty piece, `b`).
pub open spec fn split_path(s: Seq<char>) -> Seq<Seq<char>>
    decreases s.len(),
{
    match first_slash(s) {
        None => seq![s],
        Some(i) => if 0 <= i < s.len() {
            seq![s.take(i)] + split_path(s.skip(i + 1))
        } else {
            seq![s]
        },
    }
}

/// The non-empty pieces among `pieces`.
pub open spec fn non_empty(pieces: Seq<Seq<char>>) -> Seq<Seq<char>>
    decreases pieces.len(),
{
    if pieces.len() == 0 {
        Seq::empty()
    } else if pieces.last().len() == 0 {
        non_empty(pieces.drop_last())
    } else {
        non_empty(pieces.drop_last()).push(pieces.last())
    }
}

/// `parts` after following the pieces of a relative path: `.` and empty
/// pieces stay, `..` goes up one level (if there is one), a name goes down.
pub open spec fn follow(parts: Seq<Seq<char>>, pieces: Seq<Seq<char>>) -> Seq<Seq<char>>
    decreases pieces.len(),
{
    if pieces.len() == 0 {
        parts
    } else {
        let p = pieces[0];
        let next = if p == "."@ || p.len() == 0 {
            parts
        } else if p == ".."@ {
            if parts.len() > 0 {
                parts.drop_last()
            } else {
                parts
            }
        } else {
            parts.push(p)
        };
        follow(next, pieces.drop_first())
    }
}

/// The parts joined with `/`.
pub open spec fn join_parts(parts: Seq<Seq<char>>) -> Seq<char>
    decreases parts.len(),
{
    if parts.len() == 0 {
        Seq::empty()
    } else if parts.len() == 1 {
        parts[0]
    } else {
        join_parts(parts.drop_last()) + "/"@ + parts.last()
    }
}

/// The directory parts of a module path: its non-empty pieces but the last.
pub open spec fn directory_parts(module: Seq<char>) -> Seq<Seq<char>> {
    let parts = non_empty(split_path(module));
    if parts.len() > 0 {
        parts.drop_last()
    } else {
        parts
    }
}

/// The absolute path that `specifier`, imported from `module`, names.
pub open spec fn resolved_path(module: Seq<char>, specifier: Seq<char>) -> Seq<char> {
    "/"@ + join_parts(follow(directory_parts(module), split_path(specifier)))
}

/// Whether `specifier` is relative: it starts with `./` or `../`.
pub open spec fn is_relative(specifier: Seq<char>) -> bool {
    (specifier.len() >= 2 && specifier.take(2) == "./"@) || (specifier.len() >= 3 && specifier.take(3)
        == "../"@)
}

/// Whether `specifier` names a TypeScript file: it ends in `.ts`.
pub open spec fn is_typescript(specifier: Seq<char>) -> bool {
    specifier.len() >= 3 && specifier.skip(specifier.len() - 3) == ".ts"@
}

/// What resolving the import of `specifier` from `module` gives: the path, or why it is refused.
pub open spec fn resolution(module: Seq<char>, specifier: Seq<char>) -> Result<Seq<char>, Seq<char>> {
    if !is_relative(specifier) {
        Err("unsupported module specifier `"@ + specifier
            + "`; only local relative TypeScript modules are allowed"@)
    } else if !is_typescript(specifier) {
        Err("unsupported module specifier `"@ + specifier + "`; local module specifiers must end in `.ts`"@)
    } else {
        Ok(resolved_path(module, specifier))
    }
}

proof fn lemma_split_dot_prefix(prefix: Seq<char>, s: Seq<char>)
    requires
        prefix == "."@ || prefix == ".."@,
    ensures
        split_path(prefix + "/"@ + s) == seq![prefix] + split_path(s),
{
    reveal_strlit("/");
    reveal_strlit(".");
    reveal_strlit("..");
    reveal_strlit("./");
    let x = prefix + "/"@ + s;
    let k = prefix.len() as int;
    assert(x.skip(k) =~= "/"@ + s);
    assert(first_slash(x.skip(k)) == Some(0int));
    if k == 2 {
        assert(x.skip(1) =~= "./"@ + s);
        assert(x.skip(1).drop_first() =~= x.skip(2));
        assert(first_slash(x.skip(1)) == Some(1int));
        assert(x.drop_first() =~= x.skip(1));
    } else {
        assert(x.drop_first() =~= x.skip(1));
    }
    assert(first_slash(x) == Some(k));
    assert(x.take(k) =~= prefix);
    assert(x.skip(k + 1) =~= s);
}

/// `..` goes up exactly one directory: importing `../` followed by a path
/// from a module whose directory is `p` with one more part `d` names the
/// same module as importing `./` followed by that path from a module whose
/// directory is `p`.
pub proof fn law_parent_piece_goes_up_one_directory(m1: Seq<char>, m2: Seq<char>, d: Seq<char>, s: Seq<char>)
    requires
        directory_parts(m1) == directory_parts(m2).push(d),
        is_typescript(s),
    ensures
        resolved_path(m1, "../"@ + s) == resolved_path(m2, "./"@ + s),
        resolution(m1, "../"@ + s) == resolution(m2, "./"@ + s),
        resolution(m1, "../"@ + s) is Ok,
{
    reveal_strlit("/");
    reveal_strlit(".");
    reveal_strlit("..");
    reveal_strlit("./");
    reveal_strlit("../");
    assert("../"@ + s =~= ".."@ + "/"@ + s);
    assert("./"@ + s =~= "."@ + "/"@ + s);
    lemma_split_dot_prefix(".."@, s);
    lemma_split_dot_prefix("."@, s);
    let rest = split_path(s);
    let up = seq![".."@] + rest;
    let here = seq!["."@] + rest;
    assert(up[0] == ".."@ && here[0] == "."@);
    assert(".."@ != "."@);
    assert(up.drop_first() =~= rest);
    assert(here.drop_first() =~= rest);
    let p = directory_parts(m2);
    assert(p.push(d).drop_last() =~= p);
    assert(follow(p.push(d), up) == follow(p, rest));
    assert(follow(p, here) == follow(p, rest));
    assert(("../"@ + s).take(3) =~= "../"@);
    assert(("./"@ + s).take(2) =~= "./"@);
    assert(("../"@ + s).skip(("../"@ + s).len() - 3) =~= s.skip(s.len() - 3));
    assert(("./"@ + s).skip(("./"@ + s).len() - 3) =~= s.skip(s.len() - 3));
}

/// Importing `./` followed by a file name names that file in the importing
/// module's own directory.
pub proof fn law_current_piece_names_a_sibling(m: Seq<char>, name: Seq<char>)
    requires
        is_typescript(name),
        forall|k: int| 0 <= k < name.len() ==> name[k] != '/',
        name != "."@,
        name != ".."@,
    ensures
        resolution(m, "./"@ + name) == Ok::<Seq<char>, Seq<char>>("/"@ + join_parts(directory_parts(m).push(name))),
{
    reveal_strlit("/");
    reveal_strlit(".");
    reveal_strlit("./");
    assert("./"@ + name =~= "."@ + "/"@ + name);
    lemma_split_dot_prefix("."@, name);
    lemma_first_slash(name);
    assert(first_slash(name) is None);
    assert(split_path(name) == seq![name]);
    let pieces = seq!["."@] + seq![name];
    assert(pieces.drop_first() =~= seq![name]);
    assert(seq![name].drop_first() =~= Seq::<Seq<char>>::empty());
    assert(name.len() != 0);
    let p = directory_parts(m);
    assert(follow(p, seq![name]) == follow(p.push(name), Seq::<Seq<char>>::empty()));
    assert(follow(p, pieces) == p.push(name));
    assert(("./"@ + name).take(2) =~= "./"@);
    assert(("./"@ + name).skip(("./"@ + name).len() - 3) =~= name.skip(name.len() - 3));
}

proof fn lemma_first_slash(s: Seq<char>)
    ensures
        match first_slash(s) {
            Some(i) => 0 <= i < s.len() && s[i] == '/' && forall|j: int| 0 <= j < i ==> s[j] != '/',
            None => forall|j: int| 0 <= j < s.len() ==> s[j] != '/',
        },
    decreases s.len(),
{
    if s.len() > 0 && s[0] != '/' {
        lemma_first_slash(s.drop_first());
        assert forall|j: int| 0 < j < s.len() implies s[j] == s.drop_first()[j - 1] by {}
    }
}

/// `split_path` of a piece without slashes, then a slash, then more.
proof fn lemma_split_at_slash(piece: Seq<char>, rest: Seq<char>)
    requires
        forall|j: int| 0 <= j < piece.len() ==> piece[j] != '/',
    ensures
        split_path(piece + seq!['/'] + rest) == seq![piece] + split_path(rest),
{
    let s = piece + seq!['/'] + rest;
    lemma_first_slash(s);
    lemma_first_slash_value(piece, rest);
    assert(s.take(piece.len() as int) =~= piece);
    assert(s.skip(piece.len() as int + 1) =~= rest);
}

proof fn lemma_first_slash_value(piece: Seq<char>, rest: Seq<char>)
    requires
        forall|j: int| 0 <= j < piece.len() ==> piece[j] != '/',
    ensures
        first_slash(piece + seq!['/'] + rest) == Some(piece.len() as int),
    decreases piece.len(),
{
    let s = piece + seq!['/'] + rest;
    if piece.len() > 0 {
        lemma_first_slash_value(piece.drop_first(), rest);
        assert(s.drop_first() =~= piece.drop_first() + seq!['/'] + rest);
    }
}

proof fn lemma_split_no_slash(s: Seq<char>)
    requires
        forall|j: int| 0 <= j < s.len() ==> s[j] != '/',
    ensures
        split_path(s) == seq![s],
{
    lemma_first_slash(s);
}

/// The pieces of `s` between slashes.
fn split_pieces(s: &str) -> (pieces: Vec<Vec<char>>)
    ensures
        pieces@.map_values(|p: Vec<char>| p@) == split_path(s@),
{
    let chars = chars_of(s);
    let mut pieces: Vec<Vec<char>> = Vec::new();
    let mut current: Vec<char> = Vec::new();
    let mut i: usize = 0;
    assert(current@ + chars@.skip(0) =~= s@);
    assert(pieces@.map_values(|p: Vec<char>| p@) + split_path(s@) =~= split_path(s@));
    while i < chars.len()
        invariant
            i <= chars.len(),
            chars@ == s@,
            forall|j: int| 0 <= j < current@.len() ==> current@[j] != '/',
            pieces@.map_values(|p: Vec<char>| p@) + split_path(current@ + chars@.skip(i as int)) == split_path(s@),
        decreases chars.len() - i,
    {
        let ghost before = pieces@.map_values(|p: Vec<char>| p@);
        let ghost cur = current@;
        let ghost rest = chars@.skip(i as int);
        assert(rest =~= seq![chars@[i as int]] + chars@.skip(i + 1));
        if chars[i] == '/' {
            proof {
                lemma_split_at_slash(cur, chars@.skip(i + 1));
                assert(cur + rest =~= cur + seq!['/'] + chars@.skip(i + 1));
            }
            pieces.push(current);
            current = Vec::new();
            proof {
                assert(pieces@.map_values(|p: Vec<char>| p@) =~= before.push(cur));
                assert(current@ + chars@.skip(i + 1) =~= chars@.skip(i + 1));
                assert(before.push(cur) + split_path(chars@.skip(i + 1)) =~= before + (seq![cur] + split_path(
                    chars@.skip(i + 1),
                )));
            }
        } else {
            current.push(chars[i]);
            proof {
                assert(current@ + chars@.skip(i + 1) =~= cur + rest);
                assert(pieces@.map_values(|p: Vec<char>| p@) =~= before);
            }
        }
        i += 1;
    }
    let ghost before = pieces@.map_values(|p: Vec<char>| p@);
    proof {
        assert(current@ + chars@.skip(i as int) =~= current@);
        lemma_split_no_slash(current@);
    }
    pieces.push(current);
    assert(pieces@.map_values(|p: Vec<char>| p@) =~= before + seq![current@]);
    pieces
}

fn is_dot(piece: &Vec<char>) -> (b: bool)
    ensures
        b == (piece@ == "."@),
{
    proof {
        reveal_strlit(".");
    }
    if piece.len() == 1 && piece[0] == '.' {
        assert(piece@ =~= "."@);
        true
    } else {
        false
    }
}

fn is_dot_dot(piece: &Vec<char>) -> (b: bool)
    ensures
        b == (piece@ == ".."@),
{
    proof {
        reveal_strlit("..");
    }
    if piece.len() == 2 && piece[0] == '.' && piece[1] == '.' {
        assert(piece@ =~= ".."@);
        true
    } else {
        false
    }
}

fn starts_relative(s: &Vec<char>) -> (b: bool)
    ensures
        b == is_relative(s@),
{
    proof {
        reveal_strlit("./");
        reveal_strlit("../");
    }
    let two = s.len() >= 2 && s[0] == '.' && s[1] == '/';
    let three = s.len() >= 3 && s[0] == '.' && s[1] == '.' && s[2] == '/';
    proof {
        if s@.len() >= 2 {
            if two {
                assert(s@.take(2) =~= "./"@);
            } else {
                assert(s@.take(2)[0] == s@[0] && s@.take(2)[1] == s@[1]);
            }
        }
        if s@.len() >= 3 {
            if three {
                assert(s@.take(3) =~= "../"@);
            } else {
                assert(s@.take(3)[0] == s@[0] && s@.take(3)[1] == s@[1] && s@.take(3)[2] == s@[2]);
            }
        }
    }
    two || three
}

fn ends_typescript(s: &Vec<char>) -> (b: bool)
    ensures
        b == is_typescript(s@),
{
    proof {
        reveal_strlit(".ts");
    }
    let n = s.len();
    if n < 3 {
        return false;
    }
    let b = s[n - 3] == '.' && s[n - 2] == 't' && s[n - 1] == 's';
    proof {
        let tail = s@.skip(n - 3);
        if b {
            assert(tail =~= ".ts"@);
        } else {
            assert(tail[0] == s@[n - 3] && tail[1] == s@[n - 2] && tail[2] == s@[n - 1]);
        }
    }
    b
}

fn message_for(before: &str, specifier: &str, after: &str) -> (m: String)
    ensures
        m@ == before@ + specifier@ + after@,
{
    let mut out: Vec<char> = Vec::new();
    push_str(&mut out, before);
    push_str(&mut out, specifier);
    push_str(&mut out, after);
    string_from_chars(out)
}

/// The absolute path of the module that `import` names, seen from `from_module`;
/// only relative `.ts` specifiers are accepted.
pub fn resolve_import(from_module: &str, import: &ImportDeclaration) -> (r: Result<String, String>)
    ensures
        match resolution(from_module@, import.from@) {
            Ok(path) => r matches Ok(s) && s@ == path,
            Err(message) => r matches Err(e) && e@ == message,
        },
{
    let specifier = chars_of(import.from.as_str());
    if !starts_relative(&specifier) {
        return Err(
            message_for(
                "unsupported module specifier `",
                import.from.as_str(),
                "`; only local relative TypeScript modules are allowed",
            ),
        );
    }
    if !ends_typescript(&specifier) {
        return Err(
            message_for(
                "unsupported module specifier `",
                import.from.as_str(),
                "`; local module specifiers must end in `.ts`",
            ),
        );
    }
    Ok(resolve_path(from_module, import.from.as_str()))
}

/// The absolute path that `specifier` names relative to the directory of
/// `from_module`: `.` and empty pieces stay, `..` goes up (not past the root).
pub fn resolve_path(from_module: &str, specifier: &str) -> (path: String)
    ensures
        path@ == resolved_path(from_module@, specifier@),
{
    let module_pieces = split_pieces(from_module);
    let ghost mp = module_pieces@.map_values(|p: Vec<char>| p@);
    let mut parts: Vec<Vec<char>> = Vec::new();
    let mut i: usize = 0;
    while i < module_pieces.len()
        invariant
            i <= module_pieces.len(),
            mp == module_pieces@.map_values(|p: Vec<char>| p@),
            parts@.map_values(|p: Vec<char>| p@) == non_empty(mp.take(i as int)),
        decreases module_pieces.len() - i,
    {
        let ghost before = parts@.map_values(|p: Vec<char>| p@);
        assert(mp.take(i + 1).drop_last() =~= mp.take(i as int));
        if module_pieces[i].len() > 0 {
            let piece = copy_chars(&module_pieces[i]);
            parts.push(piece);
            assert(parts@.map_values(|p: Vec<char>| p@) =~= before.push(mp[i as int]));
        }
        i += 1;
    }
    assert(mp.take(module_pieces.len() as int) =~= mp);
    if parts.len() > 0 {
        let ghost before = parts@.map_values(|p: Vec<char>| p@);
        parts.pop();
        assert(parts@.map_values(|p: Vec<char>| p@) =~= before.drop_last());
    }
    let ghost start = parts@.map_values(|p: Vec<char>| p@);
    let pieces = split_pieces(specifier);
    let ghost sp = pieces@.map_values(|p: Vec<char>| p@);
    assert(sp.skip(0) =~= sp);
    let mut k: usize = 0;
    while k < pieces.len()
        invariant
            k <= pieces.len(),
            sp == pieces@.map_values(|p: Vec<char>| p@),
            follow(parts@.map_values(|p: Vec<char>| p@), sp.skip(k as int)) == follow(start, sp),
        decreases pieces.len() - k,
    {
        let ghost before = parts@.map_values(|p: Vec<char>| p@);
        assert(sp.skip(k as int).drop_first() =~= sp.skip(k + 1));
        assert(sp.skip(k as int)[0] == sp[k as int]);
        let piece = &pieces[k];
        if is_dot(piece) || piece.len() == 0 {
        } else if is_dot_dot(piece) {
            if parts.len() > 0 {
                parts.pop();
                assert(parts@.map_values(|p: Vec<char>| p@) =~= before.drop_last());
            }
        } else {
            let copy = copy_chars(piece);
            parts.push(copy);
            assert(parts@.map_values(|p: Vec<char>| p@) =~= before.push(sp[k as int]));
        }
        k += 1;
    }
    assert(sp.skip(pieces.len() as int) =~= Seq::<Seq<char>>::empty());
    let ghost fin = parts@.map_values(|p: Vec<char>| p@);
    let mut out: Vec<char> = Vec::new();
    out.push('/');
    let mut j: usize = 0;
    while j < parts.len()
        invariant
            j <= parts.len(),
            fin == parts@.map_values(|p: Vec<char>| p@),
            out@ == seq!['/'] + join_parts(fin.take(j as int)),
        decreases parts.len() - j,
    {
        let ghost before = out@;
        assert(fin.take(j + 1).drop_last() =~= fin.take(j as int));
        if j > 0 {
            out.push('/');
        }
        append_chars(&mut out, &parts[j]);
        proof {
            reveal_strlit("/");
            assert(parts@[j as int]@ == fin[j as int]);
            if j == 0 {
                assert(fin.take(1) =~= seq![fin[0]]);
            }
        }
        assert(out@ =~= seq!['/'] + join_parts(fin.take(j + 1)));
        j += 1;
    }
    assert(fin.take(parts.len() as int) =~= fin);
    proof {
        reveal_strlit("/");
    }
    assert(out@ =~= resolved_path(from_module@, specifier@));
    string_from_chars(out)
}

fn append_chars(out: &mut Vec<char>, v: &Vec<char>)
    ensures
        final(out)@ == old(out)@ + v@,
{
    let mut i: usize = 0;
    while i < v.len()
        invariant
            i <= v.len(),
            out@ == old(out)@ + v@.take(i as int),
        decreases v.len() - i,
    {
        out.push(v[i]);
        i += 1;
        assert(out@ =~= old(out)@ + v@.take(i as int));
    }
    assert(v@.take(v.len() as int) =~= v@);
}

fn copy_chars(v: &Vec<char>) -> (c: Vec<char>)
    ensures
        c@ == v@,
{
    let mut c: Vec<char> = Vec::new();
    let mut i: usize = 0;
    while i < v.len()
        invariant
            i <= v.len(),
            c@ == v@.take(i as int),
        decreases v.len() - i,
    {
        c.push(v[i]);
        i += 1;
        assert(c@ =~= v@.take(i as int));
    }
    assert(v@.take(v.len() as int) =~= v@);
    c
}

/// An entry path made absolute.
pub open spec fn normalized_entry(entry: Seq<char>) -> Seq<char> {
    if entry.len() > 0 && entry[0] == '/' {
        entry
    } else {
        "/"@ + entry
    }
}

fn normalize_entry(entry: &str) -> (s: String)
    ensures
        s@ == normalized_entry(entry@),
{
    let chars = chars_of(entry);
    if chars.len() > 0 && chars[0] == '/' {
        entry.to_owned()
    } else {
        let mut out: Vec<char> = Vec::new();
        out.push('/');
        push_str(&mut out, entry);
        proof {
            reveal_strlit("/");
        }
        assert(out@ =~= "/"@ + entry@);
        string_from_chars(out)
    }
}

/// The characters of `chars` between the byte offsets `start` and `end`,
/// when both fall on character boundaries and `start <= end`.
pub open spec fn byte_slice(chars: Seq<char>, start: int, end: int) -> Option<Seq<char>> {
    if exists|i: int, j: int|
        0 <= i <= j <= chars.len() && byte_offset(chars, i) == start && byte_offset(chars, j) == end {
        let (i, j) = choose|i: int, j: int|
            0 <= i <= j <= chars.len() && byte_offset(chars, i) == start && byte_offset(chars, j) == end;
        Some(chars.subrange(i, j))
    } else {
        None
    }
}

/// The number of whitespace characters that `s` starts with.
pub open spec fn leading_space(s: Seq<char>) -> int
    decreases s.len(),
{
    if s.len() > 0 && is_whitespace(s[0]) {
        1 + leading_space(s.drop_first())
    } else {
        0
    }
}

/// The number of whitespace characters that `s` ends with.
pub open spec fn trailing_space(s: Seq<char>) -> int
    decreases s.len(),
{
    if s.len() > 0 && is_whitespace(s.last()) {
        1 + trailing_space(s.drop_last())
    } else {
        0
    }
}

/// `s` without its leading and trailing whitespace.
pub open spec fn trimmed(s: Seq<char>) -> Seq<char> {
    let a = s.skip(leading_space(s));
    a.take(a.len() - trailing_space(a))
}

proof fn lemma_leading_space(s: Seq<char>)
    ensures
        0 <= leading_space(s) <= s.len(),
        forall|k: int| 0 <= k < leading_space(s) ==> is_whitespace(#[trigger] s[k]),
        leading_space(s) < s.len() ==> !is_whitespace(s[leading_space(s)]),
    decreases s.len(),
{
    if s.len() > 0 && is_whitespace(s[0]) {
        lemma_leading_space(s.drop_first());
        assert forall|k: int| 0 < k < s.len() implies s[k] == s.drop_first()[k - 1] by {}
    }
}

proof fn lemma_trailing_space(s: Seq<char>)
    ensures
        0 <= trailing_space(s) <= s.len(),
        forall|k: int| s.len() - trailing_space(s) <= k < s.len() ==> is_whitespace(#[trigger] s[k]),
        trailing_space(s) < s.len() ==> !is_whitespace(s[s.len() - 1 - trailing_space(s)]),
    decreases s.len(),
{
    if s.len() > 0 && is_whitespace(s.last()) {
        lemma_trailing_space(s.drop_last());
        assert forall|k: int| 0 <= k < s.len() - 1 implies s[k] == s.drop_last()[k] by {}
    }
}

pub proof fn lemma_leading_space_at(s: Seq<char>, n: int)
    requires
        0 <= n <= s.len(),
        forall|k: int| 0 <= k < n ==> is_whitespace(#[trigger] s[k]),
        n < s.len() ==> !is_whitespace(s[n]),
    ensures
        leading_space(s) == n,
    decreases n,
{
    if n > 0 {
        lemma_leading_space_at(s.drop_first(), n - 1);
    }
}

proof fn lemma_trailing_space_at(s: Seq<char>, n: int)
    requires
        0 <= n <= s.len(),
        forall|k: int| s.len() - n <= k < s.len() ==> is_whitespace(#[trigger] s[k]),
        n < s.len() ==> !is_whitespace(s[s.len() - 1 - n]),
    ensures
        trailing_space(s) == n,
    decreases n,
{
    if n > 0 {
        assert(s.last() == s[s.len() - 1]);
        lemma_trailing_space_at(s.drop_last(), n - 1);
    }
}

/// The statement's text, trimmed, followed by a line break; nothing when
/// its span does not fall on character boundaries of `source`.
fn push_statement_source(out: &mut Vec<char>, source: &Vec<char>, statement: &Statement)
    ensures
        match byte_slice(source@, statement.span.start.byte as int, statement.span.end.byte as int) {
            Some(text) => final(out)@ == old(out)@ + trimmed(text) + seq!['\n'],
            None => final(out)@ == old(out)@,
        },
{
    let start = statement.span.start.byte;
    let end = statement.span.end.byte;
    let mut first: Option<usize> = None;
    let mut last: Option<usize> = None;
    let mut offset: usize = 0;
    let mut i: usize = 0;
    loop
        invariant
            i <= source@.len(),
            offset == byte_offset(source@, i as int),
            first matches Some(a) ==> a <= i && byte_offset(source@, a as int) == start,
            first is None ==> forall|k: int| 0 <= k < i ==> byte_offset(source@, k) != start,
            last matches Some(b) ==> b <= i && byte_offset(source@, b as int) == end,
            last is None ==> forall|k: int| 0 <= k < i ==> byte_offset(source@, k) != end,
        ensures
            first matches Some(a) ==> a <= source@.len() && byte_offset(source@, a as int) == start,
            first is None ==> forall|k: int| 0 <= k <= source@.len() ==> byte_offset(source@, k) != start,
            last matches Some(b) ==> b <= source@.len() && byte_offset(source@, b as int) == end,
            last is None ==> forall|k: int| 0 <= k <= source@.len() ==> byte_offset(source@, k) != end,
        decreases source@.len() - i,
    {
        if offset == start && first.is_none() {
            first = Some(i);
        }
        if offset == end && last.is_none() {
            last = Some(i);
        }
        if i >= source.len() {
            break;
        }
        let w = char_width(source[i]);
        proof {
            lemma_position_bounds(source@, i as int, i + 1);
        }
        if offset > usize::MAX - w {
            proof {
                assert forall|k: int| i < k <= source@.len() implies byte_offset(source@, k) > usize::MAX by {
                    lemma_position_bounds(source@, i + 1, k);
                }
            }
            break;
        }
        offset = offset + w;
        i += 1;
    }
    let ghost found = byte_slice(source@, start as int, end as int);
    proof {
        assert forall|x: int, y: int| 0 <= x <= source@.len() && 0 <= y <= source@.len() && byte_offset(source@, x)
            == byte_offset(source@, y) implies x == y by {
            if x < y {
                lemma_position_bounds(source@, x, y);
            } else if y < x {
                lemma_position_bounds(source@, y, x);
            }
        }
    }
    match (first, last) {
        (Some(a), Some(b)) => {
            if a > b {
                proof {
                    assert forall|x: int, y: int| 0 <= x <= y <= source@.len() && byte_offset(source@, x) == start
                        && byte_offset(source@, y) == end implies false by {
                        assert(x == a && y == b);
                    }
                }
                return;
            }
            assert(found == Some(source@.subrange(a as int, b as int)));
            let mut lo = a;
            while lo < b && char_is_whitespace(source[lo])
                invariant
                    a <= lo <= b <= source@.len(),
                    forall|k: int| a <= k < lo ==> is_whitespace(#[trigger] source@[k]),
                decreases b - lo,
            {
                lo += 1;
            }
            let mut hi = b;
            while hi > lo && char_is_whitespace(source[hi - 1])
                invariant
                    a <= lo <= hi <= b <= source@.len(),
                    forall|k: int| hi <= k < b ==> is_whitespace(#[trigger] source@[k]),
                decreases hi - lo,
            {
                hi -= 1;
            }
            let ghost text = source@.subrange(a as int, b as int);
            proof {
                lemma_leading_space_at(text, lo - a);
                let rest = text.skip(lo - a);
                assert(rest =~= source@.subrange(lo as int, b as int));
                lemma_trailing_space_at(rest, b - hi);
            }
            let mut k = lo;
            let ghost base = out@;
            while k < hi
                invariant
                    lo <= k <= hi <= source@.len(),
                    out@ == base + source@.subrange(lo as int, k as int),
                decreases hi - k,
            {
                out.push(source[k]);
                k += 1;
                assert(out@ =~= base + source@.subrange(lo as int, k as int));
            }
            out.push('\n');
            assert(trimmed(text) =~= source@.subrange(lo as int, hi as int));
        },
        _ => {
            proof {
                assert forall|x: int, y: int| 0 <= x <= y <= source@.len() && byte_offset(source@, x) == start
                    && byte_offset(source@, y) == end implies false by {
                    lemma_position_bounds(source@, 0, x);
                    lemma_position_bounds(source@, 0, y);
                }
            }
        },
    }
}

#[derive(Debug, Copy, Clone, PartialEq, Eq, Structural)]
enum VisitState {
    Visiting,
    Visited,
}

/// The number of `keys` outside `seen`.
spec fn unseen(keys: Seq<Seq<char>>, seen: Set<Seq<char>>) -> nat
    decreases keys.len(),
{
    if keys.len() == 0 {
        0
    } else {
        unseen(keys.drop_last(), seen) + if seen.contains(keys.last()) {
            0nat
        } else {
            1nat
        }
    }
}

proof fn lemma_unseen_bound(keys: Seq<Seq<char>>, seen: Set<Seq<char>>)
    ensures
        unseen(keys, seen) <= keys.len(),
    decreases keys.len(),
{
    if keys.len() > 0 {
        lemma_unseen_bound(keys.drop_last(), seen);
    }
}

proof fn lemma_unseen_mono(keys: Seq<Seq<char>>, a: Set<Seq<char>>, b: Set<Seq<char>>)
    requires
        a.subset_of(b),
    ensures
        unseen(keys, b) <= unseen(keys, a),
    decreases keys.len(),
{
    if keys.len() > 0 {
        lemma_unseen_mono(keys.drop_last(), a, b);
    }
}

proof fn lemma_unseen_insert(keys: Seq<Seq<char>>, a: Set<Seq<char>>, m: Seq<char>, i: int)
    requires
        0 <= i < keys.len(),
        keys[i] == m,
        !a.contains(m),
    ensures
        unseen(keys, a.insert(m)) < unseen(keys, a),
    decreases keys.len(),
{
    lemma_unseen_mono(keys.drop_last(), a, a.insert(m));
    if i < keys.len() - 1 {
        lemma_unseen_insert(keys.drop_last(), a, m, i);
    }
}

/// `p` is what `text` parses to (any value, for a text too long to parse).
pub open spec fn parse_of(text: Seq<char>, p: ParseOutput) -> bool {
    text.len() < usize::MAX ==> parses_to(text, p)
}

/// `st` imports a specifier that resolves, seen from the module `a`, to `b`.
pub open spec fn import_resolves(a: Seq<char>, st: Statement, b: Seq<char>) -> bool {
    match st.kind {
        StatementKind::Import(i) => resolution(a, i.from@) == Ok::<Seq<char>, Seq<char>>(b),
        _ => false,
    }
}

/// The program of `p` (parsed from the module `a`) imports `b`.
pub open spec fn imports_target(a: Seq<char>, p: ParseOutput, b: Seq<char>) -> bool {
    exists|j: int| 0 <= j < p.program.body@.len() && #[trigger] import_resolves(a, p.program.body@[j], b)
}

/// The sources listed as pairs: `has(m, t)` when the module `m` has the text `t`.
pub open spec fn listed_has(srcs: Seq<(String, String)>) -> spec_fn(Seq<char>, Seq<char>) -> bool {
    |m: Seq<char>, t: Seq<char>| exists|i: int| 0 <= i < srcs.len() && #[trigger] srcs[i].0@ == m && srcs[i].1@ == t
}

/// The sources of a map: `has(m, t)` when a key spelled `m` holds the text `t`.
pub open spec fn map_has(sources: Map<String, String>) -> spec_fn(Seq<char>, Seq<char>) -> bool {
    |m: Seq<char>, t: Seq<char>| exists|k: String| #[trigger] sources.contains_key(k) && k@ == m && sources[k]@ == t
}

/// The module `a` imports `b`: a source of `a` parses to a program with an
/// import that resolves to `b`.
pub open spec fn import_edge(has: spec_fn(Seq<char>, Seq<char>) -> bool, a: Seq<char>, b: Seq<char>) -> bool {
    exists|t: Seq<char>, p: ParseOutput| #[trigger] has(a, t) && parse_of(t, p) && #[trigger] imports_target(a, p, b)
}

/// `path` is an import cycle: each module imports the next, and it ends where it starts.
pub open spec fn is_import_cycle(has: spec_fn(Seq<char>, Seq<char>) -> bool, path: Seq<Seq<char>>) -> bool {
    &&& path.len() >= 2
    &&& path[0] == path.last()
    &&& forall|i: int| 0 <= i < path.len() - 1 ==> #[trigger] import_edge(has, path[i], path[i + 1])
}

/// `m` is reached from `root` by a chain of imports, each module of the
/// chain importing the next.
pub open spec fn reaches(has: spec_fn(Seq<char>, Seq<char>) -> bool, root: Seq<char>, m: Seq<char>) -> bool {
    exists|path: Seq<Seq<char>>|
        {
            &&& path.len() >= 1
            &&& path[0] == root
            &&& #[trigger] path.last() == m
            &&& forall|i: int| 0 <= i < path.len() - 1 ==> #[trigger] import_edge(has, path[i], path[i + 1])
        }
}

/// The input shows the problem that `d` reports, for a walk from `root`: a
/// missing module that is the root or is imported by a module the root
/// reaches; a parse diagnostic of the source of a module the root reaches; an
/// import of such a module whose specifier is refused with that message; or
/// an import cycle, through a module the root reaches, of the modules it names.
pub open spec fn justified(has: spec_fn(Seq<char>, Seq<char>) -> bool, root: Seq<char>, d: ModuleDiagnostic) -> bool {
    let m = d.module@;
    match d.code {
        ModuleDiagnosticCode::MissingModule => {
            &&& forall|t: Seq<char>| !#[trigger] has(m, t)
            &&& m == root || exists|a: Seq<char>| #[trigger] import_edge(has, a, m) && reaches(has, root, a)
        },
        ModuleDiagnosticCode::Parse => reaches(has, root, m) && exists|t: Seq<char>, p: ParseOutput|
            #[trigger] has(m, t) && #[trigger] parse_of(t, p) && exists|j: int|
                0 <= j < p.diagnostics@.len() && #[trigger] p.diagnostics@[j].message@ == d.message@,
        ModuleDiagnosticCode::UnsupportedSpecifier => reaches(has, root, m) && exists|t: Seq<char>, p: ParseOutput|
            #[trigger] has(m, t) && #[trigger] parse_of(t, p) && exists|j: int|
                0 <= j < p.program.body@.len() && #[trigger] refused_import(m, p.program.body@[j], d.message@),
        ModuleDiagnosticCode::Cycle => {
            &&& is_import_cycle(has, texts_v(d.modules@))
            &&& reaches(has, root, texts_v(d.modules@)[0])
        },
    }
}

/// `st` imports a specifier that, seen from `m`, is refused with `message`.
pub open spec fn refused_import(m: Seq<char>, st: Statement, message: Seq<char>) -> bool {
    match st.kind {
        StatementKind::Import(i) => resolution(m, i.from@) == Err::<Seq<char>, Seq<char>>(message),
        _ => false,
    }
}

/// A walk from `root` can find nothing to report: the root has a source;
/// the source of every module the root reaches parses without diagnostics to
/// a program whose imports all resolve to modules that have sources; and no
/// imports through such a module form a cycle.
pub open spec fn clean_graph(has: spec_fn(Seq<char>, Seq<char>) -> bool, root: Seq<char>) -> bool {
    &&& exists|t: Seq<char>| #[trigger] has(root, t)
    &&& forall|m: Seq<char>, t: Seq<char>, p: ParseOutput|
        #[trigger] has(m, t) && #[trigger] parse_of(t, p) && reaches(has, root, m) ==> {
            &&& p.diagnostics@.len() == 0
            &&& forall|j: int| 0 <= j < p.program.body@.len() ==> match #[trigger] p.program.body@[j].kind {
                StatementKind::Import(i) => match resolution(m, i.from@) {
                    Ok(r) => exists|t2: Seq<char>| #[trigger] has(r, t2),
                    Err(_) => false,
                },
                _ => true,
            }
        }
    &&& forall|path: Seq<Seq<char>>| #[trigger] is_import_cycle(has, path) ==> !reaches(has, root, path[0])
}

/// Nothing can be justified in a clean graph.
pub proof fn law_clean_graph_has_nothing_to_report(
    has: spec_fn(Seq<char>, Seq<char>) -> bool,
    root: Seq<char>,
    d: ModuleDiagnostic,
)
    requires
        clean_graph(has, root),
    ensures
        !justified(has, root, d),
{
    let m = d.module@;
    match d.code {
        ModuleDiagnosticCode::MissingModule => {
            if justified(has, root, d) {
                if m == root {
                    let t = choose|t: Seq<char>| #[trigger] has(root, t);
                    assert(has(m, t));
                } else {
                    let a = choose|a: Seq<char>| #[trigger] import_edge(has, a, m) && reaches(has, root, a);
                    let (t, p) = choose|t: Seq<char>, p: ParseOutput|
                        #[trigger] has(a, t) && parse_of(t, p) && #[trigger] imports_target(a, p, m);
                    let j = choose|j: int| 0 <= j < p.program.body@.len() && #[trigger] import_resolves(a, p.program.body@[j], m);
                    assert(has(a, t) && parse_of(t, p));
                    let _ = p.program.body@[j].kind;
                    let t2 = choose|t2: Seq<char>| #[trigger] has(m, t2);
                    assert(has(m, t2));
                }
            }
        },
        ModuleDiagnosticCode::Parse => {
            if justified(has, root, d) {
                let (t, p) = choose|t: Seq<char>, p: ParseOutput|
                    #[trigger] has(m, t) && #[trigger] parse_of(t, p) && exists|j: int|
                        0 <= j < p.diagnostics@.len() && #[trigger] p.diagnostics@[j].message@ == d.message@;
                assert(p.diagnostics@.len() == 0);
            }
        },
        ModuleDiagnosticCode::UnsupportedSpecifier => {
            if justified(has, root, d) {
                let (t, p) = choose|t: Seq<char>, p: ParseOutput|
                    #[trigger] has(m, t) && #[trigger] parse_of(t, p) && exists|j: int|
                        0 <= j < p.program.body@.len() && #[trigger] refused_import(m, p.program.body@[j], d.message@);
                let j = choose|j: int| 0 <= j < p.program.body@.len() && #[trigger] refused_import(m, p.program.body@[j], d.message@);
                let _ = p.program.body@[j].kind;
            }
        },
        ModuleDiagnosticCode::Cycle => {
            assert(is_import_cycle(has, texts_v(d.modules@)) ==> !reaches(has, root, texts_v(d.modules@)[0]));
        },
    }
}

/// Each of `a`, then `d`, is justified when each of `a` is and `d` is.
proof fn lemma_justified_push(
    has: spec_fn(Seq<char>, Seq<char>) -> bool,
    root: Seq<char>,
    a: Seq<ModuleDiagnostic>,
    b: Seq<ModuleDiagnostic>,
)
    requires
        b.len() == a.len() + 1,
        b.drop_last() == a,
        forall|j: int| 0 <= j < a.len() ==> justified(has, root, #[trigger] a[j]),
        justified(has, root, b.last()),
    ensures
        forall|j: int| 0 <= j < b.len() ==> justified(has, root, #[trigger] b[j]),
{
    assert forall|j: int| 0 <= j < b.len() implies justified(has, root, #[trigger] b[j]) by {
        if j < a.len() {
            assert(b[j] == b.drop_last()[j]);
        }
    }
}

struct GraphBuilder<'a> {
    sources: &'a Vec<(String, String)>,
    parses: &'a Vec<ParseOutput>,
    states: Vec<(String, VisitState)>,
    records: Vec<ModuleRecord>,
    stack: Vec<String>,
    diagnostics: Vec<ModuleDiagnostic>,
}

/// Whether `d` reports that `module` was not provided.
pub open spec fn is_missing_report(d: ModuleDiagnostic, module: Seq<char>) -> bool {
    &&& d.code == ModuleDiagnosticCode::MissingModule
    &&& d.message@ == "module `"@ + module + "` was not provided"@
    &&& d.module@ == module
    &&& d.modules@.len() == 1
    &&& d.modules@[0]@ == module
}

/// The imports among the first `n` statements of `body` of the module
/// `module` whose specifier resolves: each one's names, specifier and
/// resolved path.
pub open spec fn imports_of(module: Seq<char>, body: Seq<Statement>, n: int) -> Seq<(Seq<Seq<char>>, Seq<char>, Seq<char>)>
    decreases n,
{
    if n <= 0 || n > body.len() {
        Seq::empty()
    } else {
        let before = imports_of(module, body, n - 1);
        match body[n - 1].kind {
            StatementKind::Import(i) => match resolution(module, i.from@) {
                Ok(path) => before.push((texts_v(i.names@), i.from@, path)),
                Err(_) => before,
            },
            _ => before,
        }
    }
}

/// The names exported by the first `n` statements of `body`.
pub open spec fn exports_of(body: Seq<Statement>, n: int) -> Seq<Seq<char>>
    decreases n,
{
    if n <= 0 || n > body.len() {
        Seq::empty()
    } else {
        let before = exports_of(body, n - 1);
        match body[n - 1].kind {
            StatementKind::Export(inner) => match declared_name(*inner) {
                Some(name) => before.push(name),
                None => before,
            },
            _ => before,
        }
    }
}

/// Resolved imports as their names, specifiers and resolved paths.
pub open spec fn imports_v(v: Seq<ResolvedImport>) -> Seq<(Seq<Seq<char>>, Seq<char>, Seq<char>)> {
    v.map_values(|r: ResolvedImport| (texts_v(r.names@), r.from@, r.resolved@))
}

/// `rec` lists the imports and exports of `parsed`, the parse of a module's source.
pub open spec fn lists_parse(rec: ModuleRecord, parsed: ParseOutput) -> bool {
    let body = parsed.program.body@;
    &&& imports_v(rec.imports@) == imports_of(rec.specifier@, body, body.len() as int)
    &&& texts_v(rec.exports@) == exports_of(body, body.len() as int)
}

/// `rec` lists the imports and exports of what the source of its module,
/// listed in `sources`, parses to.
pub open spec fn record_content(sources: Seq<(String, String)>, rec: ModuleRecord) -> bool {
    exists|i: int, parsed: ParseOutput|
        0 <= i < sources.len() && #[trigger] sources[i].0@ == rec.specifier@ && (sources[i].1@.len() < usize::MAX
            ==> parses_to(sources[i].1@, parsed)) && #[trigger] lists_parse(rec, parsed)
}

/// `rec` lists the imports and exports of what the source that `sources`
/// holds under its module's name parses to.
pub open spec fn listed_in(sources: Map<String, String>, rec: ModuleRecord) -> bool {
    exists|k: String, parsed: ParseOutput|
        #[trigger] sources.contains_key(k) && k@ == rec.specifier@ && (sources[k]@.len() < usize::MAX ==> parses_to(
            sources[k]@,
            parsed,
        )) && #[trigger] lists_parse(rec, parsed)
}

/// A record of a module that was among `keys`, whose imports were resolved
/// from it.
spec fn record_ok(keys: Seq<Seq<char>>, rec: ModuleRecord) -> bool {
    &&& keys.contains(rec.specifier@)
    &&& forall|r: int| 0 <= r < rec.imports@.len() ==> #[trigger] resolution(rec.specifier@, rec.imports@[r].from@) == Ok::<Seq<char>, Seq<char>>(rec.imports@[r].resolved@)
}

/// The state recorded first for `k`.
spec fn state_in(states: Seq<(String, VisitState)>, k: Seq<char>) -> Option<VisitState>
    decreases states.len(),
{
    if states.len() == 0 {
        None
    } else if states[0].0@ == k {
        Some(states[0].1)
    } else {
        state_in(states.drop_first(), k)
    }
}

proof fn lemma_state_in(states: Seq<(String, VisitState)>, k: Seq<char>)
    ensures
        match state_in(states, k) {
            Some(st) => exists|i: int| 0 <= i < states.len() && states[i].0@ == k && states[i].1 == st && forall|
                j: int,
            | 0 <= j < i ==> states[j].0@ != k,
            None => forall|j: int| 0 <= j < states.len() ==> states[j].0@ != k,
        },
    decreases states.len(),
{
    if states.len() > 0 && states[0].0@ != k {
        lemma_state_in(states.drop_first(), k);
        assert forall|j: int| 0 < j < states.len() implies states[j] == states.drop_first()[j - 1] by {}
        if let Some(st) = state_in(states, k) {
            let i = choose|i: int|
                0 <= i < states.drop_first().len() && states.drop_first()[i].0@ == k && states.drop_first()[i].1
                    == st && forall|j: int| 0 <= j < i ==> states.drop_first()[j].0@ != k;
            assert(states[i + 1].0@ == k);
        }
    }
}

/// `state_in` of a list whose entries are known.
proof fn lemma_state_at(states: Seq<(String, VisitState)>, k: Seq<char>, i: int)
    requires
        0 <= i < states.len(),
        states[i].0@ == k,
        forall|j: int| 0 <= j < i ==> states[j].0@ != k,
    ensures
        state_in(states, k) == Some(states[i].1),
    decreases i,
{
    if i > 0 {
        lemma_state_at(states.drop_first(), k, i - 1);
    }
}

impl<'a> GraphBuilder<'a> {
    spec fn keys(&self) -> Seq<Seq<char>> {
        self.sources@.map_values(|e: (String, String)| e.0@)
    }

    /// Where the walk stands, as a value.
    #[verifier::opaque]
    spec fn walk(&self) -> ModuleWalk {
        ModuleWalk {
            entered: Map::new(
                |k: Seq<char>| self.state(k) is Some,
                |k: Seq<char>| self.state(k) == Some(VisitState::Visited),
            ),
            stack: texts_v(self.stack@),
            recorded: self.records@.map_values(|r: ModuleRecord| r.specifier@),
            reports: self.diagnostics@.map_values(|d: ModuleDiagnostic| report_view(d)),
        }
    }

    /// Each source has its parse, at the same position.
    spec fn parses_ok(&self) -> bool {
        &&& self.parses@.len() == self.sources@.len()
        &&& forall|i: int| 0 <= i < self.sources@.len() ==> parse_of(self.sources@[i].1@, #[trigger] self.parses@[i])
    }

    spec fn seen(&self) -> Set<Seq<char>> {
        Set::new(|k: Seq<char>| exists|i: int| 0 <= i < self.states@.len() && self.states@[i].0@ == k)
    }

    spec fn pending(&self) -> nat {
        unseen(self.keys(), self.seen())
    }

    spec fn state(&self, k: Seq<char>) -> Option<VisitState> {
        state_in(self.states@, k)
    }

    spec fn done(&self, k: Seq<char>) -> bool {
        recorded_before(self.records@, self.records@.len() as int, k)
    }

    /// A module is done exactly when it is marked visited, and until a
    /// diagnostic is reported every done module comes after what it imports.
    spec fn wf(&self) -> bool {
        &&& forall|k: Seq<char>| #[trigger] self.state(k) == Some(VisitState::Visited) <==> self.done(k)
        &&& self.diagnostics@.len() == 0 ==> dependencies_first(self.records@)
        &&& forall|j: int| 0 <= j < self.records@.len() ==> record_ok(self.keys(), #[trigger] self.records@[j])
        &&& forall|j: int| 0 <= j < self.records@.len() ==> record_content(self.sources@, #[trigger] self.records@[j])
        &&& distinct_modules(self.records@)
    }

    /// `self` continues `before`: records and diagnostics only added, every
    /// module seen still seen, every module being visited still being visited.
    spec fn continues(&self, before: &GraphBuilder<'a>) -> bool {
        &&& self.wf()
        &&& self.sources == before.sources
        &&& self.parses == before.parses
        &&& self.stack@ == before.stack@
        &&& before.records@.len() <= self.records@.len()
        &&& forall|j: int| 0 <= j < before.records@.len() ==> #[trigger] self.records@[j] == before.records@[j]
        &&& before.diagnostics@.len() <= self.diagnostics@.len()
        &&& before.seen().subset_of(self.seen())
        &&& forall|k: Seq<char>| #[trigger] before.state(k) == Some(VisitState::Visiting) ==> self.state(k) == Some(
            VisitState::Visiting,
        )
    }

    /// What a walk from `root` keeps: every diagnostic is justified by the
    /// sources, each module on the stack imports the next, and every module
    /// being visited is on the stack.
    spec fn walk_ok(&self, root: Seq<char>) -> bool {
        &&& forall|j: int| 0 <= j < self.diagnostics@.len() ==> justified(listed_has(self.sources@), root, #[trigger] self.diagnostics@[j])
        &&& forall|i: int| 0 <= i < self.stack@.len() - 1 ==> #[trigger] import_edge(
            listed_has(self.sources@),
            self.stack@[i]@,
            self.stack@[i + 1]@,
        )
        &&& forall|k: Seq<char>| #[trigger] self.state(k) == Some(VisitState::Visiting) ==> texts_v(self.stack@).contains(k)
        &&& self.stack@.len() > 0 ==> self.stack@[0]@ == root
        &&& forall|j: int| 0 <= j < self.records@.len() ==> reaches(listed_has(self.sources@), root, #[trigger] self.records@[j].specifier@)
    }

    fn lookup_state(&self, module: &str) -> (r: Option<VisitState>)
        ensures
            r == self.state(module@),
    {
        proof {
            lemma_state_in(self.states@, module@);
        }
        let mut i: usize = 0;
        while i < self.states.len()
            invariant
                i <= self.states@.len(),
                forall|j: int| 0 <= j < i ==> self.states@[j].0@ != module@,
            decreases self.states.len() - i,
        {
            if str_eq(self.states[i].0.as_str(), module) {
                proof {
                    lemma_state_at(self.states@, module@, i as int);
                }
                return Some(self.states[i].1);
            }
            i += 1;
        }
        None
    }

    fn lookup_source(&self, module: &str) -> (r: Option<usize>)
        ensures
            match r {
                Some(i) => i < self.sources@.len() && self.sources@[i as int].0@ == module@ && forall|j: int|
                    0 <= j < i ==> self.sources@[j].0@ != module@,
                None => forall|j: int| 0 <= j < self.sources@.len() ==> self.sources@[j].0@ != module@,
            },
    {
        let mut i: usize = 0;
        while i < self.sources.len()
            invariant
                i <= self.sources@.len(),
                forall|j: int| 0 <= j < i ==> self.sources@[j].0@ != module@,
            decreases self.sources.len() - i,
        {
            if str_eq(self.sources[i].0.as_str(), module) {
                return Some(i);
            }
            i += 1;
        }
        None
    }

    fn report(&mut self, code: ModuleDiagnosticCode, message: String, module: &str)
        ensures
            final(self).diagnostics@.len() == old(self).diagnostics@.len() + 1,
            final(self).diagnostics@.drop_last() == old(self).diagnostics@,
            final(self).diagnostics@.last().code == code,
            final(self).diagnostics@.last().message@ == message@,
            final(self).diagnostics@.last().module@ == module@,
            final(self).diagnostics@.last().modules@.len() == 1,
            final(self).diagnostics@.last().modules@[0]@ == module@,
            final(self).states == old(self).states,
            final(self).records == old(self).records,
            final(self).stack@ == old(self).stack@,
            final(self).sources == old(self).sources,
            final(self).parses == old(self).parses,
    {
        let mut modules: Vec<String> = Vec::new();
        modules.push(module.to_owned());
        self.diagnostics.push(ModuleDiagnostic { code, message, module: module.to_owned(), modules });
        assert(self.diagnostics@.drop_last() =~= old(self).diagnostics@);
    }

    /// Reports the cycle that closes at `module`: the visiting stack from
    /// `module`'s first entry, then `module` again.
    fn report_cycle(&mut self, module: &str)
        ensures
            final(self).diagnostics@.len() == old(self).diagnostics@.len() + 1,
            final(self).diagnostics@.drop_last() == old(self).diagnostics@,
            final(self).diagnostics@.last().code == ModuleDiagnosticCode::Cycle,
            final(self).diagnostics@.last().module@ == module@,
            texts_v(final(self).diagnostics@.last().modules@) == cycle_path(texts_v(old(self).stack@), module@),
            texts_v(old(self).stack@).contains(module@) ==> {
                let f = first_index(texts_v(old(self).stack@), module@);
                0 <= f < old(self).stack@.len() && texts_v(old(self).stack@)[f] == module@
            },
            final(self).diagnostics@.last().message@ == "module cycle detected: "@ + joined(
                cycle_path(texts_v(old(self).stack@), module@),
                cycle_path(texts_v(old(self).stack@), module@).len() as int,
            ),
            final(self).states == old(self).states,
            final(self).records == old(self).records,
            final(self).stack@ == old(self).stack@,
            final(self).sources == old(self).sources,
            final(self).parses == old(self).parses,
    {
        let ghost names = texts_v(self.stack@);
        let mut start: usize = 0;
        let mut found = false;
        let mut i: usize = 0;
        while i < self.stack.len() && !found
            invariant
                i <= self.stack@.len(),
                names == texts_v(self.stack@),
                found ==> start < i && names[start as int] == module@ && forall|j: int| 0 <= j < start ==> names[j] != module@,
                !found ==> start == 0 && forall|j: int| 0 <= j < i ==> names[j] != module@,
            decreases self.stack.len() - i,
        {
            if str_eq(self.stack[i].as_str(), module) {
                start = i;
                found = true;
            }
            i += 1;
        }
        assert(names.contains(module@) ==> found);
        assert(start as int == first_index(names, module@)) by {
            if found {
                assert(0 <= start < names.len() && names[start as int] == module@ && forall|j: int|
                    0 <= j < start ==> names[j] != module@);
                let j = first_index(names, module@);
                assert(0 <= j < names.len() && names[j] == module@ && forall|i: int| 0 <= i < j ==> names[i] != module@);
                if j < start {
                    assert(names[j] != module@);
                }
                if start < j {
                    assert(names[start as int] != module@);
                }
            }
        }
        let mut cycle: Vec<String> = Vec::new();
        let mut k = start;
        while k < self.stack.len()
            invariant
                start <= k <= self.stack@.len(),
                names == texts_v(self.stack@),
                texts_v(cycle@) == names.subrange(start as int, k as int),
            decreases self.stack.len() - k,
        {
            let ghost before = cycle@;
            let item = self.stack[k].clone();
            assert(item@ == names[k as int]);
            cycle.push(item);
            assert(texts_v(cycle@) =~= texts_v(before).push(item@));
            assert(names.subrange(start as int, k + 1) =~= names.subrange(start as int, k as int).push(names[k as int]));
            k += 1;
        }
        let ghost before = cycle@;
        cycle.push(module.to_owned());
        let ghost path = texts_v(cycle@);
        assert(path =~= cycle_path(names, module@));
        let mut text: Vec<char> = Vec::new();
        push_str(&mut text, "module cycle detected: ");
        let mut c: usize = 0;
        while c < cycle.len()
            invariant
                c <= cycle@.len(),
                path == texts_v(cycle@),
                text@ == "module cycle detected: "@ + joined(path, c as int),
            decreases cycle.len() - c,
        {
            if c > 0 {
                push_str(&mut text, " -> ");
            }
            push_str(&mut text, cycle[c].as_str());
            assert(text@ =~= "module cycle detected: "@ + joined(path, c + 1));
            c += 1;
        }
        let ghost old_diagnostics = self.diagnostics@;
        self.diagnostics.push(
            ModuleDiagnostic {
                code: ModuleDiagnosticCode::Cycle,
                message: string_from_chars(text),
                module: module.to_owned(),
                modules: cycle,
            },
        );
        assert(self.diagnostics@.drop_last() =~= old_diagnostics);
    }
}

/// The position of the first `m` in `names`; the start when there is none.
pub open spec fn first_index(names: Seq<Seq<char>>, m: Seq<char>) -> int {
    if exists|j: int| 0 <= j < names.len() && names[j] == m {
        choose|j: int| 0 <= j < names.len() && names[j] == m && forall|i: int| 0 <= i < j ==> names[i] != m
    } else {
        0
    }
}

/// The modules of a cycle that closes at `m`: the stack from `m`'s first
/// entry, then `m` again.
pub open spec fn cycle_path(stack: Seq<Seq<char>>, m: Seq<char>) -> Seq<Seq<char>> {
    stack.subrange(first_index(stack, m), stack.len() as int).push(m)
}

/// The first `n` of `parts`, joined by ` -> `.
pub open spec fn joined(parts: Seq<Seq<char>>, n: int) -> Seq<char>
    decreases n,
{
    if n <= 0 || n > parts.len() {
        Seq::empty()
    } else if n == 1 {
        parts[0]
    } else {
        joined(parts, n - 1) + " -> "@ + parts[n - 1]
    }
}

/// A diagnostic as a value: its code, message, module and modules.
pub type ReportView = (ModuleDiagnosticCode, Seq<char>, Seq<char>, Seq<Seq<char>>);

pub open spec fn report_view(d: ModuleDiagnostic) -> ReportView {
    (d.code, d.message@, d.module@, texts_v(d.modules@))
}

/// A report about `m` alone.
pub open spec fn single_report(code: ModuleDiagnosticCode, message: Seq<char>, m: Seq<char>) -> ReportView {
    (code, message, m, seq![m])
}

/// The report of the cycle that closes at `m` while `stack` is being visited.
pub open spec fn cycle_report(stack: Seq<Seq<char>>, m: Seq<char>) -> ReportView {
    (
        ModuleDiagnosticCode::Cycle,
        "module cycle detected: "@ + joined(cycle_path(stack, m), cycle_path(stack, m).len() as int),
        m,
        cycle_path(stack, m),
    )
}

/// The reports of the parse diagnostics of `m`'s source, in order.
pub open spec fn parse_reports(p: ParseOutput, m: Seq<char>) -> Seq<ReportView> {
    p.diagnostics@.map_values(|d: ParseDiagnostic| single_report(ModuleDiagnosticCode::Parse, d.message@, m))
}

/// Where a depth-first walk of a module graph stands: which modules it has
/// entered (mapped to whether they are done), the modules being visited,
/// innermost last, the modules done in order, and the reports so far.
pub struct ModuleWalk {
    pub entered: Map<Seq<char>, bool>,
    pub stack: Seq<Seq<char>>,
    pub recorded: Seq<Seq<char>>,
    pub reports: Seq<ReportView>,
}

pub open spec fn walk_start() -> ModuleWalk {
    ModuleWalk { entered: Map::empty(), stack: Seq::empty(), recorded: Seq::empty(), reports: Seq::empty() }
}

pub open spec fn walk_report(w: ModuleWalk, r: ReportView) -> ModuleWalk {
    ModuleWalk { entered: w.entered, stack: w.stack, recorded: w.recorded, reports: w.reports.push(r) }
}

/// The depth-first walk from `m`, over the modules named `keys` whose
/// sources parse to `parses` (the first of equal names counts), with
/// `fuel` bounding its depth: a module done is passed over; one being
/// visited closes a cycle, which is reported; one without a source is
/// reported missing; otherwise it is entered, its parse diagnostics are
/// reported, its imports are walked in order, and it is done.
pub open spec fn walk_module(
    fuel: nat,
    keys: Seq<Seq<char>>,
    parses: Seq<ParseOutput>,
    w: ModuleWalk,
    m: Seq<char>,
) -> ModuleWalk
    decreases fuel, 0nat, 0nat,
{
    if fuel == 0 {
        w
    } else if w.entered.contains_key(m) {
        if w.entered[m] {
            w
        } else {
            walk_report(w, cycle_report(w.stack, m))
        }
    } else if !keys.contains(m) {
        walk_report(
            w,
            single_report(ModuleDiagnosticCode::MissingModule, "module `"@ + m + "` was not provided"@, m),
        )
    } else {
        let p = parses[first_index(keys, m)];
        let opened = ModuleWalk {
            entered: w.entered.insert(m, false),
            stack: w.stack.push(m),
            recorded: w.recorded,
            reports: w.reports + parse_reports(p, m),
        };
        let body = p.program.body@;
        let done = walk_imports((fuel - 1) as nat, keys, parses, opened, m, body, 0);
        ModuleWalk {
            entered: done.entered.insert(m, true),
            stack: done.stack.drop_last(),
            recorded: done.recorded.push(m),
            reports: done.reports,
        }
    }
}

/// The walk over the statements of `m` from position `k` on: each import
/// whose specifier resolves is walked, each refused one is reported.
pub open spec fn walk_imports(
    fuel: nat,
    keys: Seq<Seq<char>>,
    parses: Seq<ParseOutput>,
    w: ModuleWalk,
    m: Seq<char>,
    body: Seq<Statement>,
    k: int,
) -> ModuleWalk
    decreases fuel, 1nat, body.len() - k,
{
    if k < 0 || k >= body.len() {
        w
    } else {
        let next = match body[k].kind {
            StatementKind::Import(i) => match resolution(m, i.from@) {
                Ok(r) => walk_module(fuel, keys, parses, w, r),
                Err(message) => walk_report(w, single_report(ModuleDiagnosticCode::UnsupportedSpecifier, message, m)),
            },
            _ => w,
        };
        walk_imports(fuel, keys, parses, next, m, body, k + 1)
    }
}

/// `p` is a parse of the source that `sources` holds under the name `key`.
pub open spec fn source_parse(sources: Map<String, String>, key: Seq<char>, p: ParseOutput) -> bool {
    exists|k: String| #[trigger] sources.contains_key(k) && k@ == key && parse_of(sources[k]@, p)
}

/// `keys` and `parses` list `sources`: each key names a source of the map
/// and comes with a parse of it, and each source's name is among them.
pub open spec fn walk_input(sources: Map<String, String>, keys: Seq<Seq<char>>, parses: Seq<ParseOutput>) -> bool {
    &&& keys.len() == parses.len()
    &&& forall|i: int| 0 <= i < keys.len() ==> #[trigger] source_parse(sources, keys[i], parses[i])
    &&& forall|k: String| #[trigger] sources.contains_key(k) ==> keys.contains(k@)
}

/// The walk of the whole graph from `entry`.
pub open spec fn graph_walk(keys: Seq<Seq<char>>, parses: Seq<ParseOutput>, entry: Seq<char>) -> ModuleWalk {
    walk_module(keys.len() + 1, keys, parses, walk_start(), entry)
}

/// The name a declaration introduces, if it is one that can be exported.
pub open spec fn declared_name(statement: Statement) -> Option<Seq<char>> {
    match statement.kind {
        StatementKind::Interface(item) => Some(item.name@),
        StatementKind::TypeAlias(item) => Some(item.name@),
        StatementKind::Class(item) => Some(item.name@),
        StatementKind::Function(item) => Some(item.name@),
        StatementKind::Variable(item) => Some(item.name@),
        _ => None,
    }
}

/// The name a declaration exports.
fn export_name(statement: &Statement) -> (name: Option<String>)
    ensures
        opt_text(name) == declared_name(*statement),
{
    match &statement.kind {
        StatementKind::Interface(item) => Some(item.name.clone()),
        StatementKind::TypeAlias(item) => Some(item.name.clone()),
        StatementKind::Class(item) => Some(item.name.clone()),
        StatementKind::Function(item) => Some(item.name.clone()),
        StatementKind::Variable(item) => Some(item.name.clone()),
        _ => None,
    }
}

fn clone_strings(v: &Vec<String>) -> (c: Vec<String>)
    ensures
        texts_v(c@) == texts_v(v@),
{
    let mut c: Vec<String> = Vec::new();
    let mut i: usize = 0;
    while i < v.len()
        invariant
            i <= v@.len(),
            texts_v(c@) == texts_v(v@.take(i as int)),
        decreases v.len() - i,
    {
        let ghost before = c@;
        c.push(v[i].clone());
        assert(texts_v(c@) =~= texts_v(before).push(v@[i as int]@));
        assert(texts_v(v@.take(i + 1)) =~= texts_v(v@.take(i as int)).push(v@[i as int]@));
        i += 1;
    }
    assert(v@.take(v@.len() as int) =~= v@);
    c
}

/// Changing the state of entry `i` (keeping its name) changes no other name's state.
proof fn lemma_state_update(s: Seq<(String, VisitState)>, t: Seq<(String, VisitState)>, i: int, k: Seq<char>)
    requires
        0 <= i < s.len(),
        t.len() == s.len(),
        forall|j: int| 0 <= j < s.len() ==> #[trigger] t[j].0@ == s[j].0@,
        forall|j: int| 0 <= j < s.len() && j != i ==> #[trigger] t[j].1 == s[j].1,
        k != s[i].0@,
    ensures
        state_in(t, k) == state_in(s, k),
    decreases s.len(),
{
    if s.len() > 0 && s[0].0@ != k {
        if i > 0 {
            lemma_state_update(s.drop_first(), t.drop_first(), i - 1, k);
        } else {
            lemma_state_same_names(s.drop_first(), t.drop_first(), k);
        }
    }
}

proof fn lemma_state_same_names(s: Seq<(String, VisitState)>, t: Seq<(String, VisitState)>, k: Seq<char>)
    requires
        t.len() == s.len(),
        forall|j: int| 0 <= j < s.len() ==> #[trigger] t[j].0@ == s[j].0@ && t[j].1 == s[j].1,
    ensures
        state_in(t, k) == state_in(s, k),
    decreases s.len(),
{
    if s.len() > 0 {
        lemma_state_same_names(s.drop_first(), t.drop_first(), k);
    }
}

/// A new entry at the end changes no state already recorded.
proof fn lemma_state_push(s: Seq<(String, VisitState)>, e: (String, VisitState), k: Seq<char>)
    ensures
        state_in(s, k) is Some ==> state_in(s.push(e), k) == state_in(s, k),
        state_in(s, k) is None ==> state_in(s.push(e), k) == if e.0@ == k {
            Some(e.1)
        } else {
            None
        },
    decreases s.len(),
{
    if s.len() > 0 {
        assert(s.push(e).drop_first() =~= s.drop_first().push(e));
        lemma_state_push(s.drop_first(), e, k);
        assert(s.push(e)[0] == s[0]);
    } else {
        assert(s.push(e).drop_first() =~= Seq::<(String, VisitState)>::empty());
        assert(s.push(e)[0] == e);
        assert(state_in(Seq::<(String, VisitState)>::empty(), k) is None);
    }
}

/// A record whose imports all name earlier records keeps the order dependency-first.
proof fn lemma_dependencies_push(records: Seq<ModuleRecord>, rec: ModuleRecord)
    requires
        dependencies_first(records),
        forall|r: int| 0 <= r < rec.imports@.len() ==> recorded_before(records, records.len() as int, #[trigger] rec.imports@[r].resolved@),
    ensures
        dependencies_first(records.push(rec)),
{
    let all = records.push(rec);
    assert forall|j: int, r: int| 0 <= j < all.len() && 0 <= r < all[j].imports@.len() implies #[trigger] recorded_before(
        all,
        j,
        all[j].imports@[r].resolved@,
    ) by {
        if j < records.len() {
            assert(all[j] == records[j]);
            assert(recorded_before(records, j, records[j].imports@[r].resolved@));
            let i = choose|i: int| 0 <= i < j && i < records.len() && (#[trigger] records[i]).specifier@ == records[j].imports@[r].resolved@;
            assert(all[i] == records[i]);
        } else {
            assert(all[j] == rec);
            assert(recorded_before(records, records.len() as int, rec.imports@[r].resolved@));
            let i = choose|i: int| 0 <= i < records.len() && i < records.len() && (#[trigger] records[i]).specifier@ == rec.imports@[r].resolved@;
            assert(all[i] == records[i]);
        }
    }
}

/// Adding diagnostics, with the states and records unchanged, keeps a
/// builder well formed, seeing the same modules in the same states.
proof fn lemma_wf_kept<'a>(before: &GraphBuilder<'a>, after: &GraphBuilder<'a>)
    requires
        before.wf(),
        after.states@ == before.states@,
        after.records@ == before.records@,
        after.sources == before.sources,
        after.parses == before.parses,
        before.diagnostics@.len() <= after.diagnostics@.len(),
    ensures
        after.wf(),
        after.seen() == before.seen(),
        forall|k: Seq<char>| #[trigger] after.state(k) == before.state(k),
        after.stack@ == before.stack@ ==> after.continues(before),
{
    assert forall|k: Seq<char>| #[trigger] after.state(k) == Some(VisitState::Visited) <==> after.done(k) by {
        assert(before.state(k) == Some(VisitState::Visited) <==> before.done(k));
    }
    assert(after.seen() =~= before.seen());
    assert forall|j: int| 0 <= j < after.records@.len() implies record_ok(after.keys(), #[trigger] after.records@[j]) by {
        assert(record_ok(before.keys(), before.records@[j]));
    }
    assert forall|k: Seq<char>| #[trigger] before.state(k) == Some(VisitState::Visiting) implies after.state(k)
        == Some(VisitState::Visiting) by {
        assert(after.state(k) == before.state(k));
    }
}

/// Each module on the stack of a walk from `root` is reached from it.
proof fn lemma_stack_reaches<'a>(b: &GraphBuilder<'a>, root: Seq<char>, i: int)
    requires
        b.walk_ok(root),
        0 <= i < b.stack@.len(),
    ensures
        reaches(listed_has(b.sources@), root, b.stack@[i]@),
{
    let has = listed_has(b.sources@);
    let path = texts_v(b.stack@).take(i + 1);
    assert(path.last() == b.stack@[i]@);
    assert forall|k: int| 0 <= k < path.len() - 1 implies #[trigger] import_edge(has, path[k], path[k + 1]) by {
        assert(import_edge(has, b.stack@[k]@, b.stack@[k + 1]@));
    }
}

/// A report changes nothing of the walk but its reports.
proof fn lemma_walk_report<'a>(before: &GraphBuilder<'a>, after: &GraphBuilder<'a>)
    requires
        after.states@ == before.states@,
        after.records@ == before.records@,
        after.stack@ == before.stack@,
        after.diagnostics@.len() == before.diagnostics@.len() + 1,
        after.diagnostics@.drop_last() == before.diagnostics@,
    ensures
        after.walk() == walk_report(before.walk(), report_view(after.diagnostics@.last())),
{
    reveal(GraphBuilder::walk);
    assert(after.diagnostics@ =~= before.diagnostics@.push(after.diagnostics@.last()));
    assert(after.walk().entered =~= before.walk().entered);
    assert(after.walk().reports =~= before.walk().reports.push(report_view(after.diagnostics@.last())));
}

/// Entering `m`: it is being visited and stands on top of the stack.
proof fn lemma_walk_open<'a>(before: &GraphBuilder<'a>, after: &GraphBuilder<'a>, m: Seq<char>)
    requires
        after.stack@.len() == before.stack@.len() + 1,
        after.stack@.drop_last() == before.stack@,
        after.stack@.last()@ == m,
        after.records@ == before.records@,
        after.diagnostics@ == before.diagnostics@,
        forall|k: Seq<char>| #[trigger] after.state(k) == if k == m {
            Some(VisitState::Visiting)
        } else {
            before.state(k)
        },
    ensures
        after.walk() == (ModuleWalk {
            entered: before.walk().entered.insert(m, false),
            stack: before.walk().stack.push(m),
            recorded: before.walk().recorded,
            reports: before.walk().reports,
        }),
{
    reveal(GraphBuilder::walk);
    assert(after.stack@ =~= before.stack@.push(after.stack@.last()));
    assert(after.walk().stack =~= before.walk().stack.push(m));
    assert(after.walk().entered =~= before.walk().entered.insert(m, false));
    assert(after.walk().recorded =~= before.walk().recorded);
    assert(after.walk().reports =~= before.walk().reports);
}

/// Closing `m`: it is done, leaves the stack and is recorded.
proof fn lemma_walk_close<'a>(before: &GraphBuilder<'a>, after: &GraphBuilder<'a>, m: Seq<char>)
    requires
        before.stack@.len() > 0,
        after.stack@ == before.stack@.drop_last(),
        after.records@.len() == before.records@.len() + 1,
        after.records@.drop_last() == before.records@,
        after.records@.last().specifier@ == m,
        after.diagnostics@ == before.diagnostics@,
        forall|k: Seq<char>| #[trigger] after.state(k) == if k == m {
            Some(VisitState::Visited)
        } else {
            before.state(k)
        },
    ensures
        after.walk() == (ModuleWalk {
            entered: before.walk().entered.insert(m, true),
            stack: before.walk().stack.drop_last(),
            recorded: before.walk().recorded.push(m),
            reports: before.walk().reports,
        }),
{
    reveal(GraphBuilder::walk);
    assert(after.records@ =~= before.records@.push(after.records@.last()));
    assert(after.walk().stack =~= before.walk().stack.drop_last());
    assert(after.walk().entered =~= before.walk().entered.insert(m, true));
    assert(after.walk().recorded =~= before.walk().recorded.push(m));
    assert(after.walk().reports =~= before.walk().reports);
}

/// A builder with nothing done yet stands at the start of a walk.
proof fn lemma_walk_start<'a>(b: &GraphBuilder<'a>)
    requires
        b.states@.len() == 0,
        b.records@.len() == 0,
        b.stack@.len() == 0,
        b.diagnostics@.len() == 0,
    ensures
        b.walk() == walk_start(),
{
    reveal(GraphBuilder::walk);
    assert(b.walk().entered =~= Map::<Seq<char>, bool>::empty());
    assert(b.walk().stack =~= Seq::<Seq<char>>::empty());
    assert(b.walk().recorded =~= Seq::<Seq<char>>::empty());
    assert(b.walk().reports =~= Seq::<ReportView>::empty());
}

/// The reports and the modules done of the walk are the builder's.
proof fn lemma_walk_parts<'a>(b: &GraphBuilder<'a>)
    ensures
        b.walk().reports == b.diagnostics@.map_values(|d: ModuleDiagnostic| report_view(d)),
        b.walk().recorded == b.records@.map_values(|r: ModuleRecord| r.specifier@),
{
    reveal(GraphBuilder::walk);
}

/// The entries of a map, with a parse of each source, list the map.
proof fn lemma_walk_input(sources: Map<String, String>, entries: Seq<(String, String)>, parses: Seq<ParseOutput>)
    requires
        forall|i: int|
            #![trigger entries[i]]
            0 <= i < entries.len() ==> sources.contains_key(entries[i].0) && sources[entries[i].0] == entries[i].1,
        forall|k: String| #[trigger] sources.contains_key(k) ==> exists|i: int| 0 <= i < entries.len() && entries[i].0 == k,
        parses.len() == entries.len(),
        forall|i: int| 0 <= i < entries.len() ==> parse_of(entries[i].1@, #[trigger] parses[i]),
    ensures
        walk_input(sources, entries.map_values(|e: (String, String)| e.0@), parses),
{
    let keys = entries.map_values(|e: (String, String)| e.0@);
    assert forall|i: int| 0 <= i < keys.len() implies #[trigger] source_parse(sources, keys[i], parses[i]) by {
        assert(keys.len() == entries.len());
        assert(0 <= i < entries.len());
        let k = entries[i].0;
        assert(keys[i] == k@);
        assert(sources.contains_key(entries[i].0) && sources[entries[i].0] == entries[i].1);
        assert(parse_of(entries[i].1@, parses[i]));
        assert(sources.contains_key(k) && k@ == keys[i] && parse_of(sources[k]@, parses[i]));
    }
    assert(keys.len() == parses.len());
    assert forall|k: String| #[trigger] sources.contains_key(k) implies keys.contains(k@) by {
        let i = choose|i: int| 0 <= i < entries.len() && entries[i].0 == k;
        assert(keys[i] == k@);
    }
}

/// The walk's view of a module's state.
proof fn lemma_walk_entered<'a>(b: &GraphBuilder<'a>, m: Seq<char>)
    ensures
        b.walk().entered.contains_key(m) <==> b.state(m) is Some,
        b.state(m) is Some ==> (b.walk().entered[m] <==> b.state(m) == Some(VisitState::Visited)),
        b.walk().stack == texts_v(b.stack@),
{
    reveal(GraphBuilder::walk);
}

/// `continues` is transitive.
proof fn lemma_continues_trans<'a>(a: &GraphBuilder<'a>, b: &GraphBuilder<'a>, c: &GraphBuilder<'a>)
    requires
        b.continues(a),
        c.continues(b),
    ensures
        c.continues(a),
{
    assert forall|k: Seq<char>| #[trigger] a.state(k) == Some(VisitState::Visiting) implies c.state(k) == Some(
        VisitState::Visiting,
    ) by {
        assert(b.state(k) == Some(VisitState::Visiting));
    }
    assert forall|j: int| 0 <= j < a.records@.len() implies #[trigger] c.records@[j] == a.records@[j] by {
        assert(b.records@[j] == a.records@[j]);
    }
}

impl<'a> GraphBuilder<'a> {
    /// Visits `module` and, first, every module it imports; once all of them
    /// are done the module is recorded. Missing modules, refused specifiers,
    /// parse errors and cycles are reported.
    #[verifier::rlimit(100)]
    #[verifier::spinoff_prover]
    #[verifier::loop_isolation(false)]
    fn visit(&mut self, module: &String, Ghost(root): Ghost<Seq<char>>, Ghost(fuel): Ghost<nat>)
        requires
            old(self).wf(),
            old(self).walk_ok(root),
            old(self).parses_ok(),
            fuel > old(self).pending(),
            old(self).stack@.len() == 0 ==> module@ == root,
            old(self).stack@.len() > 0 ==> import_edge(listed_has(old(self).sources@), old(self).stack@.last()@, module@),
        ensures
            final(self).continues(old(self)),
            final(self).walk_ok(root),
            final(self).walk() == walk_module(fuel, old(self).keys(), old(self).parses@, old(self).walk(), module@),
            final(self).done(module@) || final(self).diagnostics@.len() > 0,
            old(self).state(module@) is None && final(self).diagnostics@.len() == old(self).diagnostics@.len() ==> {
                &&& final(self).records@.len() > 0
                &&& final(self).records@.last().specifier@ == module@
            },
            old(self).state(module@) is None && !old(self).keys().contains(module@) ==> {
                &&& final(self).diagnostics@.len() == old(self).diagnostics@.len() + 1
                &&& final(self).diagnostics@.drop_last() == old(self).diagnostics@
                &&& is_missing_report(final(self).diagnostics@.last(), module@)
            },
        decreases old(self).pending(),
    {
        match self.lookup_state(module.as_str()) {
            Some(VisitState::Visited) => {
                assert(self.seen().subset_of(self.seen()));
                proof {
                    lemma_walk_entered(self, module@);
                }
                return;
            },
            Some(VisitState::Visiting) => {
                self.report_cycle(module.as_str());
                proof {
                    lemma_wf_kept(old(self), self);
                    let has = listed_has(self.sources@);
                    let names = texts_v(old(self).stack@);
                    assert(names.contains(module@));
                    let f = first_index(names, module@);
                    let path = cycle_path(names, module@);
                    assert(path.len() >= 2);
                    assert(path[0] == module@);
                    assert forall|i: int| 0 <= i < path.len() - 1 implies #[trigger] import_edge(has, path[i], path[i + 1]) by {
                        if i < names.len() - f - 1 {
                            assert(path[i] == old(self).stack@[f + i]@);
                            assert(path[i + 1] == old(self).stack@[f + i + 1]@);
                            assert(import_edge(has, old(self).stack@[f + i]@, old(self).stack@[(f + i) + 1]@));
                        } else {
                            assert(path[i] == old(self).stack@.last()@);
                        }
                    }
                    lemma_stack_reaches(old(self), root, f);
                    assert(justified(has, root, self.diagnostics@.last()));
                    lemma_justified_push(has, root, old(self).diagnostics@, self.diagnostics@);
                    lemma_walk_report(old(self), self);
                    lemma_walk_entered(old(self), module@);
                }
                return;
            },
            None => {},
        }
        let source_index = match self.lookup_source(module.as_str()) {
            Some(i) => i,
            None => {
                let message = message_for("module `", module.as_str(), "` was not provided");
                self.report(ModuleDiagnosticCode::MissingModule, message, module.as_str());
                proof {
                    assert(!old(self).keys().contains(module@) ==> old(self).state(module@) is None ==> is_missing_report(self.diagnostics@.last(), module@));
                }
                proof {
                    lemma_wf_kept(old(self), self);
                    let has = listed_has(self.sources@);
                    assert forall|t: Seq<char>| !#[trigger] has(module@, t) by {
                        if has(module@, t) {
                            let i = choose|i: int| 0 <= i < self.sources@.len() && #[trigger] self.sources@[i].0@ == module@ && self.sources@[i].1@ == t;
                            assert(self.sources@[i].0@ != module@);
                        }
                    }
                    if old(self).stack@.len() > 0 {
                        assert(import_edge(has, old(self).stack@.last()@, module@));
                        lemma_stack_reaches(old(self), root, old(self).stack@.len() - 1);
                    }
                    lemma_walk_report(old(self), self);
                    lemma_walk_entered(old(self), module@);
                    assert(texts_v(self.diagnostics@.last().modules@) =~= seq![module@]);
                    assert forall|j: int| 0 <= j < old(self).keys().len() implies old(self).keys()[j] != module@ by {
                        assert(old(self).sources@[j].0@ != module@);
                    }
                    assert(justified(has, root, self.diagnostics@.last()));
                    lemma_justified_push(has, root, old(self).diagnostics@, self.diagnostics@);
                }
                return;
            },
        };
        let ghost entry = *self;
        proof {
            let keys = self.keys();
            assert(keys[source_index as int] == module@);
            assert(first_index(keys, module@) == source_index as int) by {
                let j = first_index(keys, module@);
                assert(0 <= j < keys.len() && keys[j] == module@ && forall|i: int| 0 <= i < j ==> keys[i] != module@);
                if j < source_index {
                    assert(self.sources@[j].0@ != module@);
                }
                if source_index < j {
                    assert(keys[source_index as int] != module@);
                }
            }
            lemma_walk_entered(self, module@);
            lemma_state_in(self.states@, module@);
            assert(!self.seen().contains(module@));
            assert(self.keys()[source_index as int] == module@);
            lemma_unseen_insert(self.keys(), self.seen(), module@, source_index as int);
        }
        self.states.push((module.clone(), VisitState::Visiting));
        proof {
            assert forall|kk: Seq<char>| #[trigger] self.seen().contains(kk) == entry.seen().insert(module@).contains(kk) by {
                if kk == module@ {
                    assert(self.states@[self.states@.len() - 1].0@ == kk);
                }
                if entry.seen().contains(kk) {
                    let w = choose|w: int| 0 <= w < entry.states@.len() && entry.states@[w].0@ == kk;
                    assert(self.states@[w] == entry.states@[w]);
                }
                if self.seen().contains(kk) {
                    let w = choose|w: int| 0 <= w < self.states@.len() && self.states@[w].0@ == kk;
                    if w < entry.states@.len() {
                        assert(self.states@[w] == entry.states@[w]);
                    }
                }
            }
            assert(self.seen() =~= entry.seen().insert(module@));
            assert forall|k: Seq<char>| #[trigger] self.state(k) == (if k == module@ {
                Some(VisitState::Visiting)
            } else {
                entry.state(k)
            }) by {
                lemma_state_push(entry.states@, self.states@.last(), k);
                assert(self.states@ =~= entry.states@.push(self.states@.last()));
            }
            assert(!entry.done(module@));
            assert forall|k: Seq<char>| #[trigger] self.state(k) == Some(VisitState::Visited) <==> self.done(k) by {
                assert(entry.state(k) == Some(VisitState::Visited) <==> entry.done(k));
            }
        }
        let ghost marked = *self;
        self.stack.push(module.clone());
        proof {
            lemma_wf_kept(&marked, self);
            let has = listed_has(self.sources@);
            assert forall|i: int| 0 <= i < self.stack@.len() - 1 implies #[trigger] import_edge(
                has,
                self.stack@[i]@,
                self.stack@[i + 1]@,
            ) by {
                if i < marked.stack@.len() - 1 {
                    assert(self.stack@[i] == marked.stack@[i] && self.stack@[i + 1] == marked.stack@[i + 1]);
                } else {
                    assert(self.stack@[i] == marked.stack@.last());
                }
            }
            assert forall|kk: Seq<char>| #[trigger] self.state(kk) == Some(VisitState::Visiting) implies texts_v(
                self.stack@,
            ).contains(kk) by {
                if kk == module@ {
                    assert(texts_v(self.stack@)[self.stack@.len() - 1] == kk);
                } else {
                    assert(entry.state(kk) == Some(VisitState::Visiting));
                    assert(texts_v(entry.stack@).contains(kk));
                    let w = choose|w: int| 0 <= w < texts_v(entry.stack@).len() && texts_v(entry.stack@)[w] == kk;
                    assert(texts_v(self.stack@)[w] == kk);
                }
            }
            assert(self.walk_ok(root));
        }
        proof {
            assert forall|kk: Seq<char>| #[trigger] self.state(kk) == (if kk == module@ {
                Some(VisitState::Visiting)
            } else {
                entry.state(kk)
            }) by {
                assert(marked.state(kk) == (if kk == module@ {
                    Some(VisitState::Visiting)
                } else {
                    entry.state(kk)
                }));
            }
            assert(self.stack@.drop_last() =~= entry.stack@);
            lemma_walk_open(&entry, self, module@);
        }
        let ghost opened = *self;
        assert(opened.state(module@) == Some(VisitState::Visiting));
        let parses: &Vec<ParseOutput> = self.parses;
        let parsed = &parses[source_index];
        let ghost text = self.sources@[source_index as int].1@;
        assert(parse_of(text, *parsed));
        assert(listed_has(self.sources@)(module@, text)) by {
            assert(self.sources@[source_index as int].0@ == module@);
        }
        let mut d: usize = 0;
        proof {
            assert(opened.walk().reports + parse_reports(*parsed, module@).take(0) =~= opened.walk().reports);
        }
        while d < parsed.diagnostics.len()
            invariant
                self.continues(&opened),
                self.states == opened.states,
                self.records == opened.records,
                self.wf(),
                self.walk_ok(root),
                d <= parsed.diagnostics@.len(),
                self.walk().entered == opened.walk().entered,
                self.walk().stack == opened.walk().stack,
                self.walk().recorded == opened.walk().recorded,
                self.walk().reports == opened.walk().reports + parse_reports(*parsed, module@).take(d as int),
            decreases parsed.diagnostics.len() - d,
        {
            let ghost prior = *self;
            self.report(ModuleDiagnosticCode::Parse, parsed.diagnostics[d].message.clone(), module.as_str());
            proof {
                lemma_wf_kept(&prior, self);
                let has = listed_has(self.sources@);
                assert(parsed.diagnostics@[d as int].message@ == self.diagnostics@.last().message@);
                lemma_stack_reaches(&prior, root, prior.stack@.len() - 1);
                assert(justified(has, root, self.diagnostics@.last()));
                lemma_justified_push(has, root, prior.diagnostics@, self.diagnostics@);
                lemma_walk_report(&prior, self);
                assert(texts_v(self.diagnostics@.last().modules@) =~= seq![module@]);
                let pr = parse_reports(*parsed, module@);
                assert(pr[d as int] == report_view(self.diagnostics@.last()));
                assert(opened.walk().reports + pr.take(d + 1) =~= (opened.walk().reports + pr.take(d as int)).push(
                    report_view(self.diagnostics@.last()),
                ));
            }
            d += 1;
        }
        proof {
            assert(parse_reports(*parsed, module@).take(d as int) =~= parse_reports(*parsed, module@));
        }
        let ghost w2 = self.walk();
        assert(self.state(module@) == opened.state(module@));
        let mut imports: Vec<ResolvedImport> = Vec::new();
        let mut exports: Vec<String> = Vec::new();
        let mut k: usize = 0;
        while k < parsed.program.body.len()
            invariant
                self.continues(&opened),
                self.wf(),
                self.state(module@) == Some(VisitState::Visiting),
                unseen(self.keys(), self.seen()) < entry.pending(),
                forall|r: int| 0 <= r < imports@.len() ==> self.done(#[trigger] imports@[r].resolved@)
                    || self.diagnostics@.len() > 0,
                forall|r: int| 0 <= r < imports@.len() ==> #[trigger] resolution(module@, imports@[r].from@) == Ok::<Seq<char>, Seq<char>>(imports@[r].resolved@),
                k <= parsed.program.body@.len(),
                imports_v(imports@) == imports_of(module@, parsed.program.body@, k as int),
                texts_v(exports@) == exports_of(parsed.program.body@, k as int),
                self.walk_ok(root),
                walk_imports((fuel - 1) as nat, entry.keys(), entry.parses@, w2, module@, parsed.program.body@, 0)
                    == walk_imports(
                    (fuel - 1) as nat,
                    entry.keys(),
                    entry.parses@,
                    self.walk(),
                    module@,
                    parsed.program.body@,
                    k as int,
                ),
            decreases parsed.program.body.len() - k,
        {
            let ghost wk = self.walk();
            let statement = &parsed.program.body[k];
            let ghost imports_before = imports@;
            let ghost exports_before = exports@;
            match &statement.kind {
                StatementKind::Import(import) => match resolve_import(module.as_str(), import) {
                    Ok(resolved) => {
                        let ghost prior = *self;
                        proof {
                            assert(entry.seen().subset_of(opened.seen()));
                            assert(entry.seen().subset_of(self.seen()));
                            lemma_unseen_mono(self.keys(), entry.seen(), self.seen());
                            assert(import_resolves(module@, parsed.program.body@[k as int], resolved@));
                            assert(imports_target(module@, *parsed, resolved@));
                            assert(self.stack@.last()@ == module@);
                            assert(import_edge(listed_has(self.sources@), module@, resolved@));
                        }
                        self.visit(&resolved, Ghost(root), Ghost((fuel - 1) as nat));
                        proof {
                            assert forall|r: int| 0 <= r < imports@.len() implies self.done(#[trigger] imports@[r].resolved@)
                                || self.diagnostics@.len() > 0 by {
                                if prior.done(imports@[r].resolved@) {
                                    let j = choose|j: int| 0 <= j < prior.records@.len() && (#[trigger] prior.records@[j]).specifier@ == imports@[r].resolved@;
                                    assert(self.records@[j] == prior.records@[j]);
                                }
                            }
                            lemma_unseen_mono(self.keys(), prior.seen(), self.seen());
                            lemma_continues_trans(&opened, &prior, self);
                        }
                        let entry_import = ResolvedImport {
                            names: clone_strings(&import.names),
                            from: import.from.clone(),
                            resolved,
                        };
                        imports.push(entry_import);
                        assert(imports_v(imports@) =~= imports_v(imports_before).push(
                            (texts_v(import.names@), import.from@, entry_import.resolved@),
                        ));
                    },
                    Err(message) => {
                        let ghost prior = *self;
                        self.report(ModuleDiagnosticCode::UnsupportedSpecifier, message, module.as_str());
                        proof {
                            let has = listed_has(self.sources@);
                            assert(refused_import(module@, parsed.program.body@[k as int], self.diagnostics@.last().message@));
                            lemma_stack_reaches(&prior, root, prior.stack@.len() - 1);
                            assert(justified(has, root, self.diagnostics@.last()));
                            lemma_justified_push(has, root, prior.diagnostics@, self.diagnostics@);
                            lemma_wf_kept(&prior, self);
                            lemma_continues_trans(&opened, &prior, self);
                            lemma_walk_report(&prior, self);
                            assert(texts_v(self.diagnostics@.last().modules@) =~= seq![module@]);
                        }
                    },
                },
                StatementKind::Export(inner) => match export_name(inner) {
                    Some(name) => {
                        exports.push(name);
                        assert(texts_v(exports@) =~= texts_v(exports_before).push(name@));
                    },
                    None => {},
                },
                _ => {},
            }
            assert(walk_imports((fuel - 1) as nat, entry.keys(), entry.parses@, wk, module@, parsed.program.body@, k as int)
                == walk_imports(
                (fuel - 1) as nat,
                entry.keys(),
                entry.parses@,
                self.walk(),
                module@,
                parsed.program.body@,
                k + 1,
            ));
            k += 1;
        }
        let ghost before_close = *self;
        self.stack.pop();
        assert(self.stack@ =~= entry.stack@);
        proof {
            lemma_state_in(self.states@, module@);
        }
        let mut i: usize = 0;
        while i < self.states.len()
            invariant
                i <= self.states@.len(),
                self.states == before_close.states,
                forall|j: int| 0 <= j < i ==> self.states@[j].0@ != module@,
            decreases self.states.len() - i,
        {
            if str_eq(self.states[i].0.as_str(), module.as_str()) {
                break;
            }
            i += 1;
        }
        if i >= self.states.len() {
            proof {
                assert(before_close.state(module@) == Some(VisitState::Visiting));
                lemma_state_in(self.states@, module@);
            }
            assert(false);
            return;
        }
        let ghost old_states = self.states@;
        self.states.set(i, (module.clone(), VisitState::Visited));
        proof {
            lemma_state_at(self.states@, module@, i as int);
            assert forall|k: Seq<char>| k != module@ implies #[trigger] self.state(k) == before_close.state(k) by {
                lemma_state_update(old_states, self.states@, i as int, k);
            }
            assert forall|kk: Seq<char>| #[trigger] self.seen().contains(kk) == before_close.seen().contains(kk) by {
                if self.seen().contains(kk) {
                    let w = choose|w: int| 0 <= w < self.states@.len() && self.states@[w].0@ == kk;
                    assert(old_states[w].0@ == kk);
                }
                if before_close.seen().contains(kk) {
                    let w = choose|w: int| 0 <= w < old_states.len() && old_states[w].0@ == kk;
                    assert(self.states@[w].0@ == kk);
                }
            }
            assert(self.seen() =~= before_close.seen());
        }
        let ghost before_push = *self;
        let record = ModuleRecord { specifier: module.clone(), imports, exports };
        assert(lists_parse(record, *parsed));
        assert(self.sources@[source_index as int].0@ == record.specifier@);
        assert(record_content(self.sources@, record));
        self.records.push(record);
        proof {
            assert(!before_close.done(module@));
            reveal(distinct_modules);
            let has = listed_has(self.sources@);
            let path = texts_v(before_close.stack@);
            assert(path.len() >= 1 && path[0] == root && path.last() == module@);
            assert forall|i: int| 0 <= i < path.len() - 1 implies #[trigger] import_edge(has, path[i], path[i + 1]) by {
                assert(import_edge(has, before_close.stack@[i]@, before_close.stack@[i + 1]@));
            }
            assert(reaches(has, root, module@));
            assert forall|j: int| 0 <= j < self.records@.len() implies reaches(has, root, #[trigger] self.records@[j].specifier@) by {
                if j < before_close.records@.len() {
                    assert(self.records@[j] == before_close.records@[j]);
                }
            }
            assert forall|a: int, b: int| 0 <= a < b < self.records@.len() implies self.records@[a].specifier@
                != self.records@[b].specifier@ by {
                assert(self.records@[a] == before_close.records@[a]);
                if b < before_close.records@.len() {
                    assert(self.records@[b] == before_close.records@[b]);
                }
            }
            assert forall|j: int| 0 <= j < self.records@.len() implies record_content(self.sources@, #[trigger] self.records@[j]) by {
                if j < before_close.records@.len() {
                    assert(self.records@[j] == before_close.records@[j]);
                }
            }
            assert(self.keys()[source_index as int] == module@);
            assert forall|j: int| 0 <= j < self.records@.len() implies record_ok(self.keys(), #[trigger] self.records@[j]) by {
                if j < before_close.records@.len() {
                    assert(self.records@[j] == before_close.records@[j]);
                }
            }
            assert forall|kk: Seq<char>| #[trigger] self.state(kk) == Some(VisitState::Visited) <==> self.done(kk) by {
                assert(self.state(kk) == before_push.state(kk));
                if kk == module@ {
                    assert(self.records@[self.records@.len() - 1].specifier@ == module@);
                } else {
                    assert(before_close.state(kk) == Some(VisitState::Visited) <==> before_close.done(kk));
                    if self.done(kk) {
                        let j = choose|j: int| 0 <= j < self.records@.len() && (#[trigger] self.records@[j]).specifier@ == kk;
                        assert(j < before_close.records@.len());
                        assert(before_close.records@[j] == self.records@[j]);
                    }
                    if before_close.done(kk) {
                        let j = choose|j: int| 0 <= j < before_close.records@.len() && (#[trigger] before_close.records@[j]).specifier@ == kk;
                        assert(self.records@[j] == before_close.records@[j]);
                    }
                }
            }
            if self.diagnostics@.len() == 0 {
                let rec = self.records@.last();
                assert(self.records@ =~= before_close.records@.push(rec));
                assert forall|r: int| 0 <= r < rec.imports@.len() implies #[trigger] before_close.done(
                    rec.imports@[r].resolved@,
                ) by {}
                lemma_dependencies_push(before_close.records@, rec);
            }
            assert forall|kk: Seq<char>| #[trigger] entry.state(kk) == Some(VisitState::Visiting) implies self.state(kk)
                == Some(VisitState::Visiting) by {
                assert(self.state(kk) == before_push.state(kk));
                assert(kk != module@);
                assert(marked.state(kk) == entry.state(kk));
                assert(opened.state(kk) == marked.state(kk));
                assert(before_close.state(kk) == Some(VisitState::Visiting));
            }
            assert(self.diagnostics == before_close.diagnostics);
            assert(self.stack@ == old(self).stack@);
            assert forall|kk: Seq<char>| #[trigger] self.state(kk) == Some(VisitState::Visiting) implies texts_v(
                self.stack@,
            ).contains(kk) by {
                assert(self.state(kk) == before_push.state(kk));
                assert(kk != module@);
                assert(before_close.state(kk) == Some(VisitState::Visiting));
                assert(texts_v(before_close.stack@).contains(kk));
                let w = choose|w: int| 0 <= w < texts_v(before_close.stack@).len() && texts_v(before_close.stack@)[w] == kk;
                assert(self.stack@ =~= before_close.stack@.drop_last());
                assert(before_close.stack@ == opened.stack@);
                assert(before_close.stack@.last()@ == module@);
                assert(w < self.stack@.len());
                assert(texts_v(self.stack@)[w] == kk);
            }
        }
        proof {
            assert forall|kk: Seq<char>| #[trigger] self.state(kk) == (if kk == module@ {
                Some(VisitState::Visited)
            } else {
                before_close.state(kk)
            }) by {
                assert(self.state(kk) == before_push.state(kk));
            }
            assert(self.records@.drop_last() =~= before_close.records@);
            lemma_walk_close(&before_close, self, module@);
            assert(before_close.walk() == walk_imports(
                (fuel - 1) as nat,
                entry.keys(),
                entry.parses@,
                before_close.walk(),
                module@,
                parsed.program.body@,
                parsed.program.body@.len() as int,
            ));
        }
    }
}

/// The text a statement spanning `span` contributes to a bundle: its
/// source text, trimmed, on a line of its own; nothing when the span does
/// not fall on character boundaries of `source`.
pub open spec fn statement_text(source: Seq<char>, span: Span) -> Seq<char> {
    match byte_slice(source, span.start.byte as int, span.end.byte as int) {
        Some(text) => trimmed(text) + seq!['\n'],
        None => Seq::empty(),
    }
}

/// The text the first `n` statements of `body` contribute: imports are left
/// out and exported declarations lose their `export`.
pub open spec fn statements_text(source: Seq<char>, body: Seq<StM>, n: int) -> Seq<char>
    decreases n,
{
    if n <= 0 || n > body.len() {
        Seq::empty()
    } else {
        statements_text(source, body, n - 1) + match body[n - 1].kind {
            StKindM::Import(..) => Seq::empty(),
            StKindM::Export(inner) => statement_text(source, inner.span),
            _ => statement_text(source, body[n - 1].span),
        }
    }
}

/// The bundle of the first `n` modules, each given by its source text and
/// what that text parses to.
pub open spec fn bundle_text(parts: Seq<(Seq<char>, ParseOutput)>, n: int) -> Seq<char>
    decreases n,
{
    if n <= 0 || n > parts.len() {
        Seq::empty()
    } else {
        let body = program_v(parts[n - 1].1.program).body;
        bundle_text(parts, n - 1) + statements_text(parts[n - 1].0, body, body.len() as int)
    }
}

/// `part` is the source text of a module listed in `sources` under `specifier`,
/// with what it parses to.
pub open spec fn source_part(sources: Seq<(String, String)>, specifier: Seq<char>, part: (Seq<char>, ParseOutput)) -> bool {
    &&& exists|i: int| 0 <= i < sources.len() && #[trigger] sources[i].0@ == specifier && sources[i].1@ == part.0
    &&& part.0.len() < usize::MAX ==> parses_to(part.0, part.1)
}

/// `part` is the source text that `sources` holds under a key spelled
/// `specifier`, with what it parses to.
pub open spec fn map_source_part(sources: Map<String, String>, specifier: Seq<char>, part: (Seq<char>, ParseOutput)) -> bool {
    &&& exists|k: String| #[trigger] sources.contains_key(k) && k@ == specifier && sources[k]@ == part.0
    &&& part.0.len() < usize::MAX ==> parses_to(part.0, part.1)
}

impl<'a> GraphBuilder<'a> {
    /// The statements of `modules`, in order, each trimmed on a line of its
    /// own: imports left out, exported declarations without `export`.
    fn bundle(&self, modules: &Vec<ModuleRecord>) -> (bundled: String)
        requires
            forall|j: int| 0 <= j < modules@.len() ==> self.keys().contains(#[trigger] modules@[j].specifier@),
        ensures
            exists|parts: Seq<(Seq<char>, ParseOutput)>|
                {
                    &&& parts.len() == modules@.len()
                    &&& forall|j: int|
                        0 <= j < modules@.len() ==> source_part(self.sources@, modules@[j].specifier@, #[trigger] parts[j])
                    &&& bundled@ == bundle_text(parts, parts.len() as int)
                },
    {
        let mut out: Vec<char> = Vec::new();
        let ghost mut parts: Seq<(Seq<char>, ParseOutput)> = Seq::empty();
        let mut m: usize = 0;
        while m < modules.len()
            invariant
                m <= modules@.len(),
                parts.len() == m,
                forall|j: int| 0 <= j < modules@.len() ==> self.keys().contains(#[trigger] modules@[j].specifier@),
                forall|j: int| 0 <= j < m ==> source_part(self.sources@, modules@[j].specifier@, #[trigger] parts[j]),
                out@ == bundle_text(parts, m as int),
            decreases modules.len() - m,
        {
            assert(self.keys().contains(modules@[m as int].specifier@));
            match self.lookup_source(modules[m].specifier.as_str()) {
                Some(index) => {
                    let source = &self.sources[index].1;
                    let chars = chars_of(source.as_str());
                    let parsed = parse_source(source.as_str());
                    let ghost body = program_v(parsed.program).body;
                    let ghost prefix = out@;
                    let mut k: usize = 0;
                    while k < parsed.program.body.len()
                        invariant
                            k <= parsed.program.body@.len(),
                            body == program_v(parsed.program).body,
                            chars@ == source@,
                            out@ == prefix + statements_text(source@, body, k as int),
                        decreases parsed.program.body.len() - k,
                    {
                        let statement = &parsed.program.body[k];
                        let ghost before = out@;
                        assert(body[k as int] == st_m(*statement));
                        match &statement.kind {
                            StatementKind::Import(_) => {
                                assert(body[k as int].kind is Import);
                                assert(out@ =~= before + Seq::<char>::empty());
                            },
                            StatementKind::Export(inner) => {
                                assert(body[k as int].kind == StKindM::Export(Box::new(st_m(**inner))));
                                push_statement_source(&mut out, &chars, inner);
                                assert(out@ =~= before + statement_text(source@, inner.span));
                            },
                            _ => {
                                assert(!(body[k as int].kind is Import) && !(body[k as int].kind is Export));
                                push_statement_source(&mut out, &chars, statement);
                                assert(out@ =~= before + statement_text(source@, statement.span));
                            },
                        }
                        assert(out@ =~= prefix + statements_text(source@, body, k + 1));
                        k += 1;
                    }
                    assert(body.len() == parsed.program.body@.len());
                    proof {
                        let part = (source@, parsed);
                        assert(self.sources@[index as int].0@ == modules@[m as int].specifier@);
                        assert(source_part(self.sources@, modules@[m as int].specifier@, part));
                        let old_parts = parts;
                        parts = parts.push(part);
                        assert(bundle_text(parts, m + 1) == bundle_text(old_parts, m as int)
                            + statements_text(source@, body, body.len() as int)) by {
                            assert(parts.take(m as int) =~= old_parts);
                            lemma_bundle_prefix(parts, m as int);
                        }
                        assert forall|j: int| 0 <= j < m + 1 implies source_part(
                            self.sources@,
                            modules@[j].specifier@,
                            #[trigger] parts[j],
                        ) by {}
                    }
                },
                None => {
                    assert(false) by {
                        let i = choose|i: int| 0 <= i < self.keys().len() && self.keys()[i] == modules@[m as int].specifier@;
                        assert(self.sources@[i].0@ == modules@[m as int].specifier@);
                    }
                },
            }
            m += 1;
        }
        string_from_chars(out)
    }
}

/// The bundle of the first `n` parts depends on those parts only.
proof fn lemma_bundle_prefix(parts: Seq<(Seq<char>, ParseOutput)>, n: int)
    requires
        0 <= n < parts.len(),
    ensures
        bundle_text(parts, n) == bundle_text(parts.take(n), n),
    decreases n,
{
    if n > 0 {
        lemma_bundle_prefix(parts, n - 1);
        lemma_bundle_prefix(parts.take(n), n - 1);
        assert(parts.take(n).take(n - 1) =~= parts.take(n - 1));
    }
}

/// What bundling the module graph reachable from `entry` in `sources`
/// gives, as `bundle_module_graph` states it.
#[verifier::opaque]
pub open spec fn bundle_result(
    entry: Seq<char>,
    sources: Map<String, String>,
    r: Result<ModuleGraph, Vec<ModuleDiagnostic>>,
) -> bool {
    &&& match r {
        Ok(graph) => {
            &&& graph.entry@ == normalized_entry(entry)
            &&& dependencies_first(graph.modules@)
            &&& recorded_before(graph.modules@, graph.modules@.len() as int, graph.entry@)
            &&& graph.modules@.len() > 0 && graph.modules@.last().specifier@ == graph.entry@
            &&& distinct_modules(graph.modules@)
            &&& forall|j: int| 0 <= j < graph.modules@.len() ==> reaches(
                map_has(sources),
                graph.entry@,
                #[trigger] graph.modules@[j].specifier@,
            )
            &&& forall|j: int| 0 <= j < graph.modules@.len() ==> exists|k: String|
                #[trigger] sources.contains_key(k) && k@ == (#[trigger] graph.modules@[j]).specifier@
            &&& forall|j: int, i: int| 0 <= j < graph.modules@.len() && 0 <= i < graph.modules@[j].imports@.len()
                ==> #[trigger] resolution(graph.modules@[j].specifier@, graph.modules@[j].imports@[i].from@)
                == Ok::<Seq<char>, Seq<char>>(graph.modules@[j].imports@[i].resolved@)
            &&& forall|j: int| 0 <= j < graph.modules@.len() ==> listed_in(sources, #[trigger] graph.modules@[j])
            &&& exists|parts: Seq<(Seq<char>, ParseOutput)>|
                {
                    &&& parts.len() == graph.modules@.len()
                    &&& forall|j: int|
                        0 <= j < parts.len() ==> map_source_part(
                            sources,
                            graph.modules@[j].specifier@,
                            #[trigger] parts[j],
                        )
                    &&& graph.bundled_source@ == bundle_text(parts, parts.len() as int)
                }
        },
        Err(diagnostics) => {
            &&& diagnostics@.len() > 0
            &&& forall|j: int|
                0 <= j < diagnostics@.len() ==> justified(
                    map_has(sources),
                    normalized_entry(entry),
                    #[trigger] diagnostics@[j],
                )
        },
    }
    &&& exists|keys: Seq<Seq<char>>, parses: Seq<ParseOutput>|
        #[trigger] walk_input(sources, keys, parses) && {
            let w = graph_walk(keys, parses, normalized_entry(entry));
            match r {
                Ok(graph) => w.reports.len() == 0 && graph.modules@.map_values(|m: ModuleRecord| m.specifier@)
                    == w.recorded,
                Err(diagnostics) => w.reports.len() > 0 && diagnostics@.map_values(|d: ModuleDiagnostic| report_view(d))
                    == w.reports,
            }
        }
    &&& clean_graph(map_has(sources), normalized_entry(entry)) ==> r is Ok
    &&& (forall|k: String| #[trigger] sources.contains_key(k) ==> k@ != normalized_entry(entry)) ==> (r matches Err(
        diagnostics,
    ) && diagnostics@.len() == 1 && is_missing_report(diagnostics@[0], normalized_entry(entry)))
}

/// A bundle of a graph whose reachable part is clean succeeds, and its
/// modules are those the walk records, with nothing reported; a failed
/// bundle reports exactly what the walk meets, in order.
pub proof fn law_bundle_follows_the_walk(
    entry: Seq<char>,
    sources: Map<String, String>,
    r: Result<ModuleGraph, Vec<ModuleDiagnostic>>,
)
    requires
        bundle_result(entry, sources, r),
    ensures
        clean_graph(map_has(sources), normalized_entry(entry)) ==> r is Ok,
        exists|keys: Seq<Seq<char>>, parses: Seq<ParseOutput>|
            #[trigger] walk_input(sources, keys, parses) && match r {
                Ok(graph) => graph_walk(keys, parses, normalized_entry(entry)).reports.len() == 0
                    && graph.modules@.map_values(|m: ModuleRecord| m.specifier@) == graph_walk(
                    keys,
                    parses,
                    normalized_entry(entry),
                ).recorded,
                Err(diagnostics) => diagnostics@.map_values(|d: ModuleDiagnostic| report_view(d)) == graph_walk(
                    keys,
                    parses,
                    normalized_entry(entry),
                ).reports,
            },
{
    reveal(bundle_result);
}

/// Resolves the module graph reachable from `entry` in `sources` (keyed by
/// absolute path) and bundles it: each module once, each reached from the
/// entry, after the modules it imports, the entry last. Missing modules,
/// refused specifiers, parse errors and import cycles are reported instead,
/// in the order they were found; when the graph reached from the entry has
/// none of them, the bundle is owed.
#[verifier::rlimit(60)]
#[verifier::spinoff_prover]
pub fn bundle_module_graph(entry: &str, sources: &BTreeMap<String, String>) -> (r: Result<ModuleGraph, Vec<ModuleDiagnostic>>)
    ensures
        bundle_result(entry@, sources@, r),
{
    proof {
        reveal(bundle_result);
    }
    let entries = map_entries(sources);
    let mut parses: Vec<ParseOutput> = Vec::new();
    let mut n: usize = 0;
    while n < entries.len()
        invariant
            n <= entries@.len(),
            parses@.len() == n,
            forall|i: int| 0 <= i < n ==> parse_of(entries@[i].1@, #[trigger] parses@[i]),
        decreases entries.len() - n,
    {
        parses.push(parse_source(entries[n].1.as_str()));
        n += 1;
    }
    let mut builder = GraphBuilder {
        sources: &entries,
        parses: &parses,
        states: Vec::new(),
        records: Vec::new(),
        stack: Vec::new(),
        diagnostics: Vec::new(),
    };
    let entry = normalize_entry(entry);
    proof {
        reveal(distinct_modules);
        assert(builder.state(entry@) is None);
        assert(builder.seen() =~= Set::<Seq<char>>::empty());
        assert forall|k: Seq<char>| #[trigger] builder.state(k) == Some(VisitState::Visited) <==> builder.done(k) by {}
        if forall|k: String| #[trigger] sources@.contains_key(k) ==> k@ != entry@ {
            assert forall|i: int| 0 <= i < builder.keys().len() implies builder.keys()[i] != entry@ by {
                assert(sources@.contains_key(entries@[i].0));
            }
        }
    }
    proof {
        lemma_unseen_bound(builder.keys(), builder.seen());
        lemma_walk_start(&builder);
    }
    builder.visit(&entry, Ghost(entry@), Ghost((entries@.len() + 1) as nat));
    proof {
        lemma_walk_parts(&builder);
        let keys = builder.keys();
        lemma_walk_input(sources@, entries@, parses@);
        assert(builder.walk() == graph_walk(keys, parses@, entry@));
    }
    proof {
        let listed = listed_has(entries@);
        let mapped = map_has(sources@);
        assert forall|m: Seq<char>, t: Seq<char>| #[trigger] listed(m, t) == mapped(m, t) by {
            if listed(m, t) {
                let i = choose|i: int| 0 <= i < entries@.len() && #[trigger] entries@[i].0@ == m && entries@[i].1@ == t;
                assert(sources@.contains_key(entries@[i].0));
            }
            if mapped(m, t) {
                let k = choose|k: String| #[trigger] sources@.contains_key(k) && k@ == m && sources@[k]@ == t;
                let i = choose|i: int| 0 <= i < entries@.len() && entries@[i].0 == k;
                assert(entries@[i].0@ == m && entries@[i].1@ == t);
            }
        }
        assert(listed =~= mapped);
        if clean_graph(mapped, entry@) && builder.diagnostics@.len() > 0 {
            law_clean_graph_has_nothing_to_report(mapped, entry@, builder.diagnostics@[0]);
        }
    }
    if builder.diagnostics.len() > 0 {
        return Err(builder.diagnostics);
    }
    let bundled_source = builder.bundle(&builder.records);
    proof {
        let parts = choose|parts: Seq<(Seq<char>, ParseOutput)>|
            {
                &&& parts.len() == builder.records@.len()
                &&& forall|j: int|
                    0 <= j < builder.records@.len() ==> source_part(
                        builder.sources@,
                        builder.records@[j].specifier@,
                        #[trigger] parts[j],
                    )
                &&& bundled_source@ == bundle_text(parts, parts.len() as int)
            };
        assert forall|j: int| 0 <= j < builder.records@.len() implies listed_in(sources@, #[trigger] builder.records@[j]) by {
            assert(record_content(builder.sources@, builder.records@[j]));
            let (i, parsed) = choose|i: int, parsed: ParseOutput|
                0 <= i < entries@.len() && #[trigger] entries@[i].0@ == builder.records@[j].specifier@ && (
                entries@[i].1@.len() < usize::MAX ==> parses_to(entries@[i].1@, parsed)) && #[trigger] lists_parse(
                    builder.records@[j],
                    parsed,
                );
            assert(sources@.contains_key(entries@[i].0));
        }
        assert forall|j: int| 0 <= j < parts.len() implies map_source_part(
            sources@,
            builder.records@[j].specifier@,
            #[trigger] parts[j],
        ) by {
            assert(source_part(builder.sources@, builder.records@[j].specifier@, parts[j]));
            let i = choose|i: int|
                0 <= i < entries@.len() && #[trigger] entries@[i].0@ == builder.records@[j].specifier@
                    && entries@[i].1@ == parts[j].0;
            assert(sources@.contains_key(entries@[i].0));
        }
        assert forall|j: int| 0 <= j < builder.records@.len() implies exists|k: String|
            #[trigger] sources@.contains_key(k) && k@ == (#[trigger] builder.records@[j]).specifier@ by {
            assert(record_ok(builder.keys(), builder.records@[j]));
            let i = choose|i: int| 0 <= i < builder.keys().len() && builder.keys()[i] == builder.records@[j].specifier@;
            assert(sources@.contains_key(entries@[i].0));
        }
        assert forall|j: int, i: int| 0 <= j < builder.records@.len() && 0 <= i < builder.records@[j].imports@.len()
            implies #[trigger] resolution(builder.records@[j].specifier@, builder.records@[j].imports@[i].from@)
            == Ok::<Seq<char>, Seq<char>>(builder.records@[j].imports@[i].resolved@) by {
            assert(record_ok(builder.keys(), builder.records@[j]));
        }
    }
    Ok(ModuleGraph { entry, modules: builder.records, bundled_source })
}

} // verus!
