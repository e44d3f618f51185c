//! Fuzz-like corpus checks: the lexer run on deterministic mutations of a source.
use vstd::prelude::*;
use crate::lexer::lex;
use crate::text::utf8_text;

verus! {

/// Lexes up to 64 mutated copies of `source`: each copy flips the bits of
/// one more byte, chosen by a linear congruential sequence seeded with the
/// source's length; copies that are not UTF-8 are skipped. It is run for
/// what it shows, that lexing such input ends and does not panic.
pub fn mutate_and_lex(source: &str) {
    let mut bytes: Vec<u8> = vstd::slice::slice_to_vec(source.as_bytes());
    let mut state: u64 = 0x5EED_u64 ^ (bytes.len() as u64);
    let mut round: usize = 0;
    while round < 64
        decreases 64 - round,
    {
        if bytes.len() == 0 {
            break;
        }
        state = state.wrapping_mul(6364136223846793005).wrapping_add(1);
        let index = (state as usize) % bytes.len();
        let shifted = (state >> 24u64) as u8;
        let flip: u8 = if shifted == 0 { 1 } else { shifted };
        let flipped = bytes[index] ^ flip;
        bytes.set(index, flipped);
        match utf8_text(bytes.as_slice()) {
            Ok(mutated) => {
                let _ = lex(mutated.as_str());
            },
            Err(_) => {},
        }
        round += 1;
    }
}

} // verus!
