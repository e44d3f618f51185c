//! The results that the C interface hands back: a status and a JSON document.
use vstd::prelude::*;
use crate::prepared::ExecuteError;
use crate::text::{chars_of, push_str, string_from_chars, utf8_text, utf8_error_text};

verus! {

/// The version of the C interface.
pub const TSVM_ABI_VERSION: u32 = 2;

/// How a run through the C interface ended.
#[derive(Debug, Copy, Clone, PartialEq, Eq, Structural)]
pub enum Status {
    Success,
    InvalidArgument,
    InvalidUtf8,
    CompileError,
    VerifyError,
    RuntimeError,
    InternalError,
}

/// The name of a status in the JSON document.
pub open spec fn status_name(status: Status) -> Seq<char> {
    match status {
        Status::Success => "ok"@,
        Status::InvalidArgument => "invalid_argument"@,
        Status::InvalidUtf8 => "invalid_utf8"@,
        Status::CompileError => "compile_error"@,
        Status::VerifyError => "verify_error"@,
        Status::RuntimeError => "runtime_error"@,
        Status::InternalError => "internal_error"@,
    }
}

impl Status {
    /// The status that an execution error is reported with: module and
    /// compile errors as `CompileError`, verification as `VerifyError`, the
    /// rest as `RuntimeError`.
    pub fn from_execute_error(error: &ExecuteError) -> (status: Self)
        ensures
            status == match error {
                ExecuteError::Module(_) | ExecuteError::Compile(_) => Status::CompileError,
                ExecuteError::Verify(_) => Status::VerifyError,
                ExecuteError::Interop(_) | ExecuteError::Runtime(_) => Status::RuntimeError,
            },
    {
        match error {
            ExecuteError::Module(_) => Status::CompileError,
            ExecuteError::Compile(_) => Status::CompileError,
            ExecuteError::Verify(_) => Status::VerifyError,
            ExecuteError::Interop(_) => Status::RuntimeError,
            ExecuteError::Runtime(_) => Status::RuntimeError,
        }
    }

    /// The name of the status in the JSON document.
    pub fn name(self) -> (name: &'static str)
        ensures
            name@ == status_name(self),
    {
        match self {
            Status::Success => "ok",
            Status::InvalidArgument => "invalid_argument",
            Status::InvalidUtf8 => "invalid_utf8",
            Status::CompileError => "compile_error",
            Status::VerifyError => "verify_error",
            Status::RuntimeError => "runtime_error",
            Status::InternalError => "internal_error",
        }
    }
}

/// Whether `c` is a control character (general category Cc).
pub open spec fn is_control(c: char) -> bool {
    (c as u32) <= 0x1F || (0x7F <= (c as u32) && (c as u32) <= 0x9F)
}

/// The lower-case hexadecimal digit for `d` (below sixteen).
pub open spec fn hex_digit(d: nat) -> char {
    if d < 10 {
        (('0' as u32) + d) as char
    } else {
        (('a' as u32) + (d - 10)) as char
    }
}

/// Four lower-case hexadecimal digits for `v` (below 0x10000).
pub open spec fn hex4(v: nat) -> Seq<char> {
    seq![hex_digit((v / 4096) % 16), hex_digit((v / 256) % 16), hex_digit((v / 16) % 16), hex_digit(v % 16)]
}

/// How `c` is written inside a JSON string.
pub open spec fn json_escape(c: char) -> Seq<char> {
    if c == '"' {
        seq!['\\', '"']
    } else if c == '\\' {
        seq!['\\', '\\']
    } else if c == '\u{08}' {
        seq!['\\', 'b']
    } else if c == '\u{0C}' {
        seq!['\\', 'f']
    } else if c == '\n' {
        seq!['\\', 'n']
    } else if c == '\r' {
        seq!['\\', 'r']
    } else if c == '\t' {
        seq!['\\', 't']
    } else if is_control(c) {
        seq!['\\', 'u'] + hex4(c as nat)
    } else {
        seq![c]
    }
}

/// The characters of `s`, each as JSON writes it inside a string.
pub open spec fn json_escaped(s: Seq<char>) -> Seq<char>
    decreases s.len(),
{
    if s.len() == 0 {
        Seq::empty()
    } else {
        json_escaped(s.drop_last()) + json_escape(s.last())
    }
}

fn hex_char(d: u32) -> (c: char)
    requires
        d < 16,
    ensures
        c == hex_digit(d as nat),
{
    if d == 0 { '0' } else if d == 1 { '1' } else if d == 2 { '2' } else if d == 3 { '3' }
    else if d == 4 { '4' } else if d == 5 { '5' } else if d == 6 { '6' } else if d == 7 { '7' }
    else if d == 8 { '8' } else if d == 9 { '9' } else if d == 10 { 'a' } else if d == 11 { 'b' }
    else if d == 12 { 'c' } else if d == 13 { 'd' } else if d == 14 { 'e' } else { 'f' }
}

fn push_escaped(out: &mut Vec<char>, c: char)
    ensures
        final(out)@ == old(out)@ + json_escape(c),
{
    let v = c as u32;
    if c == '"' {
        out.push('\\');
        out.push('"');
    } else if c == '\\' {
        out.push('\\');
        out.push('\\');
    } else if c == '\u{08}' {
        out.push('\\');
        out.push('b');
    } else if c == '\u{0C}' {
        out.push('\\');
        out.push('f');
    } else if c == '\n' {
        out.push('\\');
        out.push('n');
    } else if c == '\r' {
        out.push('\\');
        out.push('r');
    } else if c == '\t' {
        out.push('\\');
        out.push('t');
    } else if v <= 0x1F || (0x7F <= v && v <= 0x9F) {
        out.push('\\');
        out.push('u');
        out.push(hex_char((v / 4096) % 16));
        out.push(hex_char((v / 256) % 16));
        out.push(hex_char((v / 16) % 16));
        out.push(hex_char(v % 16));
    } else {
        out.push(c);
    }
    assert(final(out)@ =~= old(out)@ + json_escape(c));
}

/// `value` as a JSON string: quoted, with quotes, backslashes and control
/// characters escaped.
pub fn json_string(value: &str) -> (json: String)
    ensures
        json@ == seq!['"'] + json_escaped(value@) + seq!['"'],
{
    let chars = chars_of(value);
    let mut out: Vec<char> = Vec::new();
    out.push('"');
    let mut i: usize = 0;
    while i < chars.len()
        invariant
            i <= chars.len(),
            chars@ == value@,
            out@ == seq!['"'] + json_escaped(chars@.take(i as int)),
        decreases chars.len() - i,
    {
        assert(chars@.take(i + 1).drop_last() =~= chars@.take(i as int));
        push_escaped(&mut out, chars[i]);
        i += 1;
    }
    assert(chars@.take(chars.len() as int) =~= chars@);
    out.push('"');
    string_from_chars(out)
}

/// The outcome of a run through the C interface: its status and its JSON.
#[derive(Debug, Clone, PartialEq, Eq)]
pub struct CApiResult {
    pub status: Status,
    pub json: String,
}

/// The JSON document of a failure with `status` and `message`.
pub open spec fn error_json(status: Status, message: Seq<char>) -> Seq<char> {
    "{\"generated_javascript\":false,\"status\":\""@ + status_name(status) + "\",\"message\":"@ + seq!['"']
        + json_escaped(message) + seq!['"'] + "}"@
}

impl CApiResult {
    /// A failure with `status`, described by `message`.
    pub fn error(status: Status, message: &str) -> (result: Self)
        ensures
            result.status == status,
            result.json@ == error_json(status, message@),
    {
        let mut out: Vec<char> = Vec::new();
        push_str(&mut out, "{\"generated_javascript\":false,\"status\":\"");
        push_str(&mut out, status.name());
        push_str(&mut out, "\",\"message\":");
        let quoted = json_string(message);
        push_str(&mut out, quoted.as_str());
        push_str(&mut out, "}");
        CApiResult { status, json: string_from_chars(out) }
    }
}

/// The source text in `source`, or the failure that invalid UTF-8 is
/// reported with.
pub fn utf8_source(source: &[u8]) -> (r: Result<String, CApiResult>)
    ensures
        r is Ok <==> vstd::utf8::valid_utf8(source@),
        r matches Ok(text) ==> text@ == vstd::utf8::decode_utf8(source@),
        r matches Err(result) ==> result.status == Status::InvalidUtf8 && result.json@ == error_json(
            Status::InvalidUtf8,
            utf8_error_text(source@),
        ),
{
    match utf8_text(source) {
        Ok(text) => Ok(text),
        Err(description) => Err(CApiResult::error(Status::InvalidUtf8, description.as_str())),
    }
}

/// A result handed across the C interface: the bytes of its JSON document.
pub struct TsvmResult {
    json: Vec<u8>,
}

impl TsvmResult {
    /// A result holding `json`.
    pub fn new(json: Vec<u8>) -> (result: Self)
        ensures
            result.bytes_of() == json@,
    {
        TsvmResult { json }
    }

    /// The bytes of the JSON document.
    pub closed spec fn bytes_of(&self) -> Seq<u8> {
        self.json@
    }

    /// The bytes of the JSON document.
    pub fn bytes(&self) -> (bytes: &Vec<u8>)
        ensures
            bytes@ == self.bytes_of(),
    {
        &self.json
    }
}

} // verus!
