use vstd::prelude::*;
use vstd::utf8::{decode_utf8, valid_utf8};
use std::collections::BTreeMap;

verus! {

/// Collects the characters of `s` into a vector, in order.
pub fn chars_of(s: &str) -> (res: Vec<char>)
    ensures
        res@ == s@,
{
    let mut res: Vec<char> = Vec::new();
    for c in it: s.chars()
        invariant
            res@ == it.seq().take(it.index() as int),
            it.seq() == s@,
    {
        res.push(c);
    }
    res
}

/// Builds a `String` holding exactly the given characters (`FromIterator<char>` for `String`).
#[verifier::external_body]
pub fn string_from_chars(chars: Vec<char>) -> (res: String)
    ensures
        res@ == chars@,
{
    String::from_iter(chars)
}

/// Copies the characters `chars[start..end]` into a fresh vector.
pub fn copy_range(chars: &Vec<char>, start: usize, end: usize) -> (res: Vec<char>)
    requires
        start <= end <= chars.len(),
    ensures
        res@ == chars@.subrange(start as int, end as int),
{
    let mut res: Vec<char> = Vec::new();
    let mut i = start;
    while i < end
        invariant
            start <= i <= end <= chars.len(),
            res@ == chars@.subrange(start as int, i as int),
        decreases end - i,
    {
        res.push(chars[i]);
        i += 1;
    }
    res
}

/// Whether `chars[start..end]` spells exactly the literal `word`.
pub fn range_equals(chars: &Vec<char>, start: usize, end: usize, word: &str) -> (res: bool)
    requires
        start <= end <= chars.len(),
    ensures
        res == (chars@.subrange(start as int, end as int) == word@),
{
    let w = chars_of(word);
    if end - start != w.len() {
        return false;
    }
    let mut i: usize = 0;
    while i < w.len()
        invariant
            start <= end <= chars.len(),
            end - start == w.len(),
            w@ == word@,
            i <= w.len(),
            forall|k: int| 0 <= k < i ==> chars@[start + k] == w@[k],
        decreases w.len() - i,
    {
        if chars[start + i] != w[i] {
            assert(chars@.subrange(start as int, end as int)[i as int] != word@[i as int]);
            return false;
        }
        i += 1;
    }
    assert(chars@.subrange(start as int, end as int) =~= word@);
    true
}


/// What std's `Utf8Error` displays for the invalid UTF-8 `bytes` (it names
/// where the valid prefix ends and the length of the bad sequence).
pub uninterp spec fn utf8_error_text(bytes: Seq<u8>) -> Seq<char>;

/// `std::str::from_utf8`: the text that `bytes` encode when they are valid
/// UTF-8; otherwise the description that std's error displays, named
/// `utf8_error_text(bytes)` (its wording is not stated).
#[verifier::external_body]
pub fn utf8_text(bytes: &[u8]) -> (res: Result<String, String>)
    ensures
        res is Ok <==> valid_utf8(bytes@),
        res matches Ok(s) ==> s@ == decode_utf8(bytes@),
        res matches Err(e) ==> e@ == utf8_error_text(bytes@),
{
    match std::str::from_utf8(bytes) {
        Ok(text) => Ok(text.to_owned()),
        Err(err) => Err(format!("{err}")),
    }
}

/// The decimal digit for `d` (below ten).
pub open spec fn digit_char(d: nat) -> char {
    (('0' as u32) + d) as char
}

/// The decimal numeral of `n`, without leading zeros.
pub open spec fn decimal(n: nat) -> Seq<char>
    decreases n,
{
    if n < 10 {
        seq![digit_char(n)]
    } else {
        decimal(n / 10).push(digit_char(n % 10))
    }
}

fn digit(d: u8) -> (c: char)
    requires
        d < 10,
    ensures
        c == digit_char(d as nat),
{
    if d == 0 { '0' } else if d == 1 { '1' } else if d == 2 { '2' } else if d == 3 { '3' }
    else if d == 4 { '4' } else if d == 5 { '5' } else if d == 6 { '6' } else if d == 7 { '7' }
    else if d == 8 { '8' } else { '9' }
}

/// Appends the decimal numeral of `n` to `out`.
pub fn push_decimal_u8(out: &mut Vec<char>, n: u8)
    ensures
        final(out)@ == old(out)@ + decimal(n as nat),
{
    proof {
        reveal_with_fuel(decimal, 3);
    }
    if n >= 100 {
        out.push(digit(n / 100));
        out.push(digit((n / 10) % 10));
    } else if n >= 10 {
        out.push(digit(n / 10));
    }
    out.push(digit(n % 10));
    proof {
        if n >= 100 {
            assert((n / 10) / 10 == n / 100);
        }
    }
    assert(final(out)@ =~= old(out)@ + decimal(n as nat));
}

/// Appends the decimal numeral of `n` to `out`.
pub fn push_decimal(out: &mut Vec<char>, n: usize)
    ensures
        final(out)@ == old(out)@ + decimal(n as nat),
    decreases n,
{
    if n >= 10 {
        push_decimal(out, n / 10);
    }
    out.push(digit((n % 10) as u8));
    assert(final(out)@ =~= old(out)@ + decimal(n as nat));
}

/// Appends the decimal numeral of `n` to `out`.
pub fn push_decimal_u128(out: &mut Vec<char>, n: u128)
    ensures
        final(out)@ == old(out)@ + decimal(n as nat),
    decreases n,
{
    if n >= 10 {
        push_decimal_u128(out, n / 10);
    }
    out.push(digit((n % 10) as u8));
    assert(final(out)@ =~= old(out)@ + decimal(n as nat));
}

/// Appends the characters of `s` to `out`.
pub fn push_str(out: &mut Vec<char>, s: &str)
    ensures
        final(out)@ == old(out)@ + s@,
{
    let mut tail = chars_of(s);
    out.append(&mut tail);
}

/// Whether two strings hold the same characters.
pub fn str_eq(a: &str, b: &str) -> (r: bool)
    ensures
        r == (a@ == b@),
{
    let x = chars_of(a);
    let y = chars_of(b);
    if x.len() != y.len() {
        return false;
    }
    let mut i: usize = 0;
    while i < x.len()
        invariant
            i <= x.len(),
            x.len() == y.len(),
            x@ == a@,
            y@ == b@,
            forall|j: int| 0 <= j < i ==> x@[j] == y@[j],
        decreases x.len() - i,
    {
        if x[i] != y[i] {
            return false;
        }
        i += 1;
    }
    assert(x@ =~= y@);
    true
}

/// `a` followed by `b`.
pub fn concat(a: &str, b: &str) -> (s: String)
    ensures
        s@ == a@ + b@,
{
    let mut chars = chars_of(a);
    push_str(&mut chars, b);
    string_from_chars(chars)
}
/// What `{:?}` prints for the string `s` (std's `Debug for str`): quoted,
/// with quotes, backslashes and control characters escaped.
pub uninterp spec fn debug_text(s: Seq<char>) -> Seq<char>;

/// `s` as `{:?}` prints a string (std's `Debug for str` through `format!`):
/// the text is named `debug_text(s)`; its escaping is not stated.
#[verifier::external_body]
pub fn debug_quoted(s: &str) -> (text: String)
    ensures
        text@ == debug_text(s@),
{
    format!("{s:?}")
}
/// The entries of `map` (`BTreeMap::iter`), cloned, as `(key, value)` pairs:
/// each pair is an entry of the map and each key of the map has a pair.
#[verifier::external_body]
pub fn map_entries(map: &BTreeMap<String, String>) -> (entries: Vec<(String, String)>)
    ensures
        forall|i: int| 0 <= i < entries@.len() ==> #[trigger] map@.contains_key(entries@[i].0)
            && map@[entries@[i].0] == entries@[i].1,
        forall|k: String| #[trigger] map@.contains_key(k) ==> exists|i: int| 0 <= i < entries@.len() && entries@[i].0 == k,
{
    map.iter().map(|(key, value)| (key.clone(), value.clone())).collect()
}

} // verus!
